//! The invariant-enforcing core of the translation-memory store: before
//! entries are persisted, and after they are read back, they are repaired,
//! deduplicated by key tuple and sorted into the canonical order. The store
//! file holds exactly a prepared collection, so preparing is idempotent and
//! persisting a freshly loaded store reproduces the same bytes.

use vstd::prelude::*;
use vstd::seq_lib::lemma_sorted_unique;

use crate::tm::{
    better_v, clone_tm, dedup, dedup_loop, dedup_spec, dedup_step, distinct_keys, ensure_norm_hash,
    key_idx, repair_v, sort_entries, tm_key, tm_views, tm_leq, lemma_tm_total_ordering, TMEntry,
    TmV,
};

verus! {

/// Every entry repaired.
pub open spec fn repair_all(s: Seq<TmV>) -> Seq<TmV> {
    s.map_values(|v: TmV| repair_v(v))
}

/// Whether some entry has a missing or stale derived field that repair would
/// recompute.
pub open spec fn needs_repair(s: Seq<TmV>) -> bool {
    exists|i: int| 0 <= i < s.len() && repair_v(#[trigger] s[i]) != s[i]
}

/// The prepared form of a collection: repaired, deduplicated, sorted.
pub open spec fn prepare_spec(s: Seq<TmV>) -> Seq<TmV> {
    dedup_spec(s).sort_by(tm_leq())
}

proof fn lemma_key_idx_semantics(s: Seq<TmV>, k: (Seq<char>, Seq<char>, Seq<char>))
    ensures
        key_idx(s, k) == -1 ==> forall|l: int| 0 <= l < s.len() ==> tm_key(#[trigger] s[l]) != k,
        key_idx(s, k) >= 0 ==> 0 <= key_idx(s, k) < s.len() && tm_key(s[key_idx(s, k)]) == k,
    decreases s.len(),
{
    if s.len() > 0 && tm_key(s[0]) != k {
        lemma_key_idx_semantics(s.drop_first(), k);
        if key_idx(s, k) == -1 {
            assert forall|l: int| 0 <= l < s.len() implies tm_key(#[trigger] s[l]) != k by {
                if l > 0 {
                    assert(s.drop_first()[l - 1] == s[l]);
                    assert(tm_key(s.drop_first()[l - 1]) != k);
                }
            }
        }
    }
}

proof fn lemma_dedup_loop_props(rem: Seq<TmV>, acc: Seq<TmV>)
    requires
        distinct_keys(acc),
        forall|i: int| 0 <= i < acc.len() ==> repair_v(#[trigger] acc[i]) == acc[i],
    ensures
        distinct_keys(dedup_loop(rem, acc)),
        forall|i: int|
            0 <= i < dedup_loop(rem, acc).len() ==> repair_v(#[trigger] dedup_loop(rem, acc)[i])
                == dedup_loop(rem, acc)[i],
    decreases rem.len(),
{
    if rem.len() > 0 {
        let e = repair_v(rem[0]);
        let acc2 = dedup_step(acc, e);
        lemma_key_idx_semantics(acc, tm_key(e));
        crate::tm::lemma_repair_idempotent(rem[0]);
        assert(repair_v(e) == e);
        let i = key_idx(acc, tm_key(e));
        if i < 0 {
            assert(forall|l: int| 0 <= l < acc.len() ==> acc.push(e)[l] == acc[l]);
            assert(distinct_keys(acc2));
        } else if better_v(acc[i], e) {
            assert(forall|l: int| 0 <= l < acc.len() && l != i ==> acc.update(i, e)[l] == acc[l]);
            assert(distinct_keys(acc2));
        }
        lemma_dedup_loop_props(rem.drop_first(), acc2);
    }
}

proof fn lemma_dedup_of_repaired(rem: Seq<TmV>, acc: Seq<TmV>)
    ensures
        dedup_loop(repair_all(rem), acc) == dedup_loop(rem, acc),
    decreases rem.len(),
{
    if rem.len() > 0 {
        let m = repair_all(rem);
        assert(m[0] == repair_v(rem[0]));
        crate::tm::lemma_repair_idempotent(rem[0]);
        assert(repair_v(m[0]) == repair_v(rem[0]));
        assert(m.drop_first() =~= repair_all(rem.drop_first()));
        lemma_dedup_of_repaired(rem.drop_first(), dedup_step(acc, repair_v(rem[0])));
    }
}

proof fn lemma_dedup_id(rem: Seq<TmV>, acc: Seq<TmV>)
    requires
        distinct_keys(acc + rem),
        forall|i: int| 0 <= i < rem.len() ==> repair_v(#[trigger] rem[i]) == rem[i],
    ensures
        dedup_loop(rem, acc) == acc + rem,
    decreases rem.len(),
{
    if rem.len() == 0 {
        assert(acc + rem =~= acc);
    } else {
        let e = repair_v(rem[0]);
        assert(e == rem[0]);
        lemma_key_idx_semantics(acc, tm_key(e));
        let i = key_idx(acc, tm_key(e));
        if i >= 0 {
            assert((acc + rem)[i] == acc[i]);
            assert((acc + rem)[acc.len() as int] == rem[0]);
            assert(tm_key((acc + rem)[i]) == tm_key((acc + rem)[acc.len() as int]));
            assert(false);
        }
        assert(dedup_step(acc, e) == acc.push(e));
        assert(acc.push(e) + rem.drop_first() =~= acc + rem);
        lemma_dedup_id(rem.drop_first(), acc.push(e));
    }
}

/// Sorting preserves membership in both directions.
proof fn lemma_sort_contains(s: Seq<TmV>)
    ensures
        forall|x: TmV| s.contains(x) <==> #[trigger] s.sort_by(tm_leq()).contains(x),
{
    lemma_tm_total_ordering();
    s.lemma_sort_by_ensures(tm_leq());
    let p = s.sort_by(tm_leq());
    broadcast use vstd::seq_lib::group_to_multiset_ensures;

    assert forall|x: TmV| s.contains(x) <==> #[trigger] p.contains(x) by {
        assert(s.contains(x) <==> s.to_multiset().count(x) > 0);
        assert(p.contains(x) <==> p.to_multiset().count(x) > 0);
    }
}

/// The sorted form of a distinct-key collection still has distinct keys.
proof fn lemma_sort_distinct_keys(s: Seq<TmV>)
    requires
        distinct_keys(s),
    ensures
        distinct_keys(s.sort_by(tm_leq())),
{
    lemma_tm_total_ordering();
    s.lemma_sort_by_ensures(tm_leq());
    lemma_sort_contains(s);
    let p = s.sort_by(tm_leq());
    broadcast use vstd::seq_lib::group_to_multiset_ensures;

    assert(s.no_duplicates());
    s.lemma_multiset_has_no_duplicates();
    assert forall|x: TmV| p.to_multiset().contains(x) implies p.to_multiset().count(x) == 1 by {
        assert(s.to_multiset().count(x) == p.to_multiset().count(x));
    }
    p.lemma_multiset_has_no_duplicates_conv();
    assert forall|i: int, j: int|
        0 <= i < j < p.len() implies tm_key(#[trigger] p[i]) != tm_key(#[trigger] p[j]) by {
        assert(p.contains(p[i]));
        assert(p.contains(p[j]));
        assert(s.contains(p[i]));
        assert(s.contains(p[j]));
        let i1 = choose|l: int| 0 <= l < s.len() && s[l] == p[i];
        let j1 = choose|l: int| 0 <= l < s.len() && s[l] == p[j];
        assert(p[i] != p[j]);
        assert(i1 != j1);
        assert(tm_key(s[i1]) != tm_key(s[j1]));
    }
}

/// Preparing a prepared collection changes nothing: the store file is a fixed
/// point of load-then-save.
pub proof fn lemma_prepare_idempotent(s: Seq<TmV>)
    ensures
        prepare_spec(prepare_spec(s)) == prepare_spec(s),
{
    let p = prepare_spec(s);
    lemma_tm_total_ordering();
    // a prepared collection is repaired with distinct keys,
    lemma_prepare_wf(s);
    // so deduplicating it again is the identity,
    assert(Seq::<TmV>::empty() + p =~= p);
    lemma_dedup_id(p, Seq::empty());
    assert(dedup_spec(p) == p);
    // and sorting it again is the identity too
    p.lemma_sort_by_ensures(tm_leq());
    lemma_sorted_unique(p.sort_by(tm_leq()), p, tm_leq());
    assert(prepare_spec(p) =~= p);
}

/// A prepared collection is well formed: canonically sorted, one entry per
/// key tuple, and every entry's `normalized` and `hash` fields hold.
pub proof fn lemma_prepare_wf(s: Seq<TmV>)
    ensures
        vstd::relations::sorted_by(prepare_spec(s), tm_leq()),
        distinct_keys(prepare_spec(s)),
        forall|i: int|
            0 <= i < prepare_spec(s).len() ==> repair_v(#[trigger] prepare_spec(s)[i])
                == prepare_spec(s)[i],
{
    let d = dedup_spec(s);
    let p = prepare_spec(s);
    lemma_tm_total_ordering();
    lemma_dedup_loop_props(s, Seq::empty());
    lemma_sort_contains(d);
    lemma_sort_distinct_keys(d);
    d.lemma_sort_by_ensures(tm_leq());
    assert forall|i: int| 0 <= i < p.len() implies repair_v(#[trigger] p[i]) == p[i] by {
        assert(p.contains(p[i]));
        assert(d.contains(p[i]));
        let l = choose|l: int| 0 <= l < d.len() && d[l] == p[i];
        assert(repair_v(d[l]) == d[l]);
    }
}

#[verifier::rlimit(100)]
proof fn lemma_dedup_loop_dominance(rem: Seq<TmV>, acc: Seq<TmV>)
    ensures
        forall|i: int|
            0 <= i < acc.len() ==> exists|l: int|
                0 <= l < dedup_loop(rem, acc).len() && tm_key(
                    #[trigger] dedup_loop(rem, acc)[l],
                ) == tm_key(#[trigger] acc[i]) && !better_v(dedup_loop(rem, acc)[l], acc[i]),
        forall|j: int|
            0 <= j < rem.len() ==> exists|l: int|
                0 <= l < dedup_loop(rem, acc).len() && tm_key(
                    #[trigger] dedup_loop(rem, acc)[l],
                ) == tm_key(repair_v(#[trigger] rem[j])) && !better_v(
                    dedup_loop(rem, acc)[l],
                    repair_v(rem[j]),
                ),
        forall|l: int|
            0 <= l < dedup_loop(rem, acc).len() ==> acc.contains(
                #[trigger] dedup_loop(rem, acc)[l],
            ) || exists|j: int| 0 <= j < rem.len() && dedup_loop(rem, acc)[l] == repair_v(rem[j]),
    decreases rem.len(),
{
    let res = dedup_loop(rem, acc);
    if rem.len() == 0 {
        assert forall|i: int| 0 <= i < acc.len() implies exists|l: int|
            0 <= l < res.len() && tm_key(#[trigger] res[l]) == tm_key(#[trigger] acc[i])
                && !better_v(res[l], acc[i]) by {
            assert(0 <= i < res.len() && tm_key(res[i]) == tm_key(acc[i]) && !better_v(
                res[i],
                acc[i],
            ));
        }
        assert forall|l: int| 0 <= l < res.len() implies acc.contains(#[trigger] res[l]) || exists|
            j: int,
        | 0 <= j < rem.len() && res[l] == repair_v(rem[j]) by {
            assert(acc[l] == res[l]);
        }
    } else {
        let e = repair_v(rem[0]);
        let acc2 = dedup_step(acc, e);
        let i0 = key_idx(acc, tm_key(e));
        lemma_key_idx_semantics(acc, tm_key(e));
        lemma_dedup_loop_dominance(rem.drop_first(), acc2);
        assert(res == dedup_loop(rem.drop_first(), acc2));
        // every original accumulator entry keeps a dominating representative
        assert forall|i: int| 0 <= i < acc.len() implies exists|l: int|
            0 <= l < res.len() && tm_key(#[trigger] res[l]) == tm_key(#[trigger] acc[i])
                && !better_v(res[l], acc[i]) by {
            if i0 >= 0 && better_v(acc[i0], e) && i == i0 {
                // replaced by something preferred: its representative dominates
                assert(acc2[i0] == e);
                let l = choose|l: int|
                    0 <= l < res.len() && tm_key(#[trigger] res[l]) == tm_key(acc2[i0])
                        && !better_v(res[l], acc2[i0]);
                assert(tm_key(res[l]) == tm_key(acc[i]) && !better_v(res[l], acc[i]));
            } else {
                let v = if i0 >= 0 && better_v(acc[i0], e) {
                    acc.update(i0, e)[i]
                } else if i0 < 0 {
                    acc.push(e)[i]
                } else {
                    acc[i]
                };
                assert(v == acc[i]);
                assert(0 <= i < acc2.len() && acc2[i] == acc[i]);
                let l = choose|l: int|
                    0 <= l < res.len() && tm_key(#[trigger] res[l]) == tm_key(acc2[i]) && !better_v(
                        res[l],
                        acc2[i],
                    );
                assert(tm_key(res[l]) == tm_key(acc[i]) && !better_v(res[l], acc[i]));
            }
        }
        // the head entry is dominated, and the tail follows by induction
        assert forall|j: int| 0 <= j < rem.len() implies exists|l: int|
            0 <= l < res.len() && tm_key(#[trigger] res[l]) == tm_key(repair_v(#[trigger] rem[j]))
                && !better_v(res[l], repair_v(rem[j])) by {
            if j == 0 {
                if i0 < 0 {
                    let li = acc2.len() - 1;
                    assert(acc2 == acc.push(e));
                    assert(acc2[li] == e);
                    let l = choose|l: int|
                        0 <= l < res.len() && tm_key(#[trigger] res[l]) == tm_key(acc2[li])
                            && !better_v(res[l], acc2[li]);
                    assert(tm_key(res[l]) == tm_key(e) && !better_v(res[l], e));
                } else if better_v(acc[i0], e) {
                    assert(acc2 == acc.update(i0, e));
                    assert(acc2[i0] == e);
                    let l = choose|l: int|
                        0 <= l < res.len() && tm_key(#[trigger] res[l]) == tm_key(acc2[i0])
                            && !better_v(res[l], acc2[i0]);
                    assert(tm_key(res[l]) == tm_key(e) && !better_v(res[l], e));
                } else {
                    // the held entry was at least as good as the head
                    assert(acc2 == acc);
                    assert(0 <= i0 < acc2.len() && tm_key(acc2[i0]) == tm_key(e));
                    let l = choose|l: int|
                        0 <= l < res.len() && tm_key(#[trigger] res[l]) == tm_key(acc2[i0])
                            && !better_v(res[l], acc2[i0]);
                    assert(!better_v(acc[i0], e));
                    assert(!better_v(res[l], e));
                    assert(tm_key(res[l]) == tm_key(e));
                }
            } else {
                assert(rem.drop_first()[j - 1] == rem[j]);
                let l = choose|l: int|
                    0 <= l < res.len() && tm_key(#[trigger] res[l]) == tm_key(
                        repair_v(rem.drop_first()[j - 1]),
                    ) && !better_v(res[l], repair_v(rem.drop_first()[j - 1]));
                assert(tm_key(res[l]) == tm_key(repair_v(rem[j])) && !better_v(
                    res[l],
                    repair_v(rem[j]),
                ));
            }
        }
        // provenance: results come from the accumulator or the input
        assert forall|l: int| 0 <= l < res.len() implies acc.contains(#[trigger] res[l]) || exists|
            j: int,
        | 0 <= j < rem.len() && res[l] == repair_v(rem[j]) by {
            if acc2.contains(res[l]) {
                let li = choose|li: int| 0 <= li < acc2.len() && acc2[li] == res[l];
                if i0 < 0 {
                    if li < acc.len() {
                        assert(acc[li] == res[l]);
                        assert(acc.contains(res[l]));
                    } else {
                        assert(res[l] == e);
                        assert(res[l] == repair_v(rem[0]));
                    }
                } else if better_v(acc[i0], e) {
                    if li == i0 {
                        assert(res[l] == e);
                        assert(res[l] == repair_v(rem[0]));
                    } else {
                        assert(acc[li] == res[l]);
                        assert(acc.contains(res[l]));
                    }
                } else {
                    assert(acc[li] == res[l]);
                    assert(acc.contains(res[l]));
                }
            } else {
                let j = choose|j: int|
                    0 <= j < rem.drop_first().len() && res[l] == repair_v(rem.drop_first()[j]);
                assert(rem.drop_first()[j] == rem[j + 1]);
                assert(res[l] == repair_v(rem[j + 1]));
            }
        }
    }
}

/// After preparing, exactly one entry of each key group survives, it is one
/// of the repaired input entries, and no input entry of its group is
/// preferred over it: a non-empty translation survives an empty one, and the
/// longer of two translations of the same class survives.
pub proof fn lemma_prepare_dedup(s: Seq<TmV>)
    ensures
        distinct_keys(prepare_spec(s)),
        forall|j: int|
            0 <= j < s.len() ==> exists|l: int|
                0 <= l < prepare_spec(s).len() && tm_key(#[trigger] prepare_spec(s)[l]) == tm_key(
                    repair_v(#[trigger] s[j]),
                ) && !better_v(prepare_spec(s)[l], repair_v(s[j])),
        forall|l: int|
            0 <= l < prepare_spec(s).len() ==> exists|j: int|
                0 <= j < s.len() && #[trigger] prepare_spec(s)[l] == repair_v(s[j]),
{
    let d = dedup_spec(s);
    let p = prepare_spec(s);
    lemma_dedup_loop_props(s, Seq::empty());
    lemma_dedup_loop_dominance(s, Seq::empty());
    lemma_sort_contains(d);
    lemma_sort_distinct_keys(d);
    assert forall|j: int| 0 <= j < s.len() implies exists|l: int|
        0 <= l < p.len() && tm_key(#[trigger] p[l]) == tm_key(repair_v(#[trigger] s[j]))
            && !better_v(p[l], repair_v(s[j])) by {
        let l0 = choose|l0: int|
            0 <= l0 < d.len() && tm_key(#[trigger] d[l0]) == tm_key(repair_v(s[j])) && !better_v(
                d[l0],
                repair_v(s[j]),
            );
        assert(d.contains(d[l0]));
        assert(p.contains(d[l0]));
        let l = choose|l: int| 0 <= l < p.len() && p[l] == d[l0];
        assert(tm_key(p[l]) == tm_key(repair_v(s[j])) && !better_v(p[l], repair_v(s[j])));
    }
    assert forall|l: int| 0 <= l < p.len() implies exists|j: int|
        0 <= j < s.len() && #[trigger] p[l] == repair_v(s[j]) by {
        assert(p.contains(p[l]));
        assert(d.contains(p[l]));
        let l0 = choose|l0: int| 0 <= l0 < d.len() && d[l0] == p[l];
        assert(Seq::<TmV>::empty().contains(d[l0]) || exists|j: int|
            0 <= j < s.len() && d[l0] == repair_v(s[j]));
    }
}

/// Prepares a collection for persistence or use after loading: repairs every
/// entry, deduplicates by key tuple keeping the preferred entry, and sorts
/// into the canonical order. The flag reports whether repairing or
/// deduplicating changed anything, so a loaded store knows to persist the
/// healed form.
pub fn prepare(entries: Vec<TMEntry>) -> (r: (Vec<TMEntry>, bool))
    ensures
        tm_views(r.0@) == prepare_spec(tm_views(entries@)),
        r.1 == (needs_repair(tm_views(entries@)) || dedup_spec(tm_views(entries@)).len()
            < entries@.len()),
        vstd::relations::sorted_by(tm_views(r.0@), tm_leq()),
        distinct_keys(tm_views(r.0@)),
        forall|i: int|
            0 <= i < r.0@.len() ==> repair_v(#[trigger] tm_views(r.0@)[i]) == tm_views(r.0@)[i],
{
    let ghost orig = tm_views(entries@);
    let n = entries.len();
    let mut v = entries;
    let mut changed = false;
    let mut j: usize = 0;
    while j < n
        invariant
            j <= n,
            n == v@.len(),
            n == orig.len(),
            forall|k: int| 0 <= k < j ==> tm_views(v@)[k] == repair_v(#[trigger] orig[k]),
            forall|k: int| j <= k < n ==> tm_views(v@)[k] == #[trigger] orig[k],
            changed == exists|k: int| 0 <= k < j && repair_v(#[trigger] orig[k]) != orig[k],
        decreases n - j,
    {
        let mut e = clone_tm(&v[j]);
        let ch = ensure_norm_hash(&mut e);
        v[j] = e;
        proof {
            if ch {
                assert(repair_v(orig[j as int]) != orig[j as int]);
                assert(exists|k: int| 0 <= k < j + 1 && repair_v(#[trigger] orig[k]) != orig[k]);
            } else {
                assert(repair_v(orig[j as int]) == orig[j as int]);
                if exists|k: int| 0 <= k < j + 1 && repair_v(#[trigger] orig[k]) != orig[k] {
                    let k = choose|k: int|
                        0 <= k < j + 1 && repair_v(#[trigger] orig[k]) != orig[k];
                    assert(k < j);
                    assert(exists|k: int| 0 <= k < j && repair_v(#[trigger] orig[k]) != orig[k]);
                }
            }
        }
        changed = changed || ch;
        j += 1;
    }
    proof {
        assert(tm_views(v@) =~= repair_all(orig));
        assert(changed == needs_repair(orig));
        lemma_dedup_of_repaired(orig, Seq::empty());
    }
    let (mut d, removed) = dedup(v);
    proof {
        assert(tm_views(d@) == dedup_spec(orig));
    }
    let changed = changed || removed > 0;
    let ghost deduped = tm_views(d@);
    sort_entries(&mut d);
    proof {
        lemma_tm_total_ordering();
        deduped.lemma_sort_by_ensures(tm_leq());
        lemma_sorted_unique(tm_views(d@), deduped.sort_by(tm_leq()), tm_leq());
        assert(tm_views(d@) == prepare_spec(orig));
        lemma_prepare_wf(orig);
    }
    (d, changed)
}

} // verus!
