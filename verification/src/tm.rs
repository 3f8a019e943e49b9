//! The translation-memory entry and the invariant-preserving operations the
//! store applies to collections of entries: repair of the derived
//! `normalized` and `hash` fields, deduplication by key tuple, and sorting
//! into the canonical persisted order.

use vstd::prelude::*;
use vstd::string::StrSliceExecFns;

use crate::digest::{digest_of, hash_norm};
use crate::text::{normalize, normalize_spec, trim_ws};

verus! {

/// One persisted translation-memory record: the exact original and
/// translation strings, the canonical form of the original, and the digest of
/// that canonical form. The key tuple `(source_lang, target_lang, hash)` is
/// unique among persisted entries.
#[derive(Debug, Clone, PartialEq, Eq)]
pub struct TMEntry {
    pub source_lang: String,
    pub target_lang: String,
    pub original: String,
    pub translation: String,
    pub normalized: String,
    pub hash: String,
}

/// The mathematical value of a translation-memory entry.
#[verifier::ext_equal]
pub struct TmV {
    pub source_lang: Seq<char>,
    pub target_lang: Seq<char>,
    pub original: Seq<char>,
    pub translation: Seq<char>,
    pub normalized: Seq<char>,
    pub hash: Seq<char>,
}

impl View for TMEntry {
    type V = TmV;

    open spec fn view(&self) -> TmV {
        TmV {
            source_lang: self.source_lang@,
            target_lang: self.target_lang@,
            original: self.original@,
            translation: self.translation@,
            normalized: self.normalized@,
            hash: self.hash@,
        }
    }
}

/// The views of a sequence of entries.
pub open spec fn tm_views(s: Seq<TMEntry>) -> Seq<TmV> {
    s.map_values(|e: TMEntry| e@)
}

/// The key tuple under which an entry is addressed.
pub open spec fn tm_key(v: TmV) -> (Seq<char>, Seq<char>, Seq<char>) {
    (v.source_lang, v.target_lang, v.hash)
}

/// An entry whose derived fields hold: `normalized` is the normalization of
/// `original`, and `hash` the digest of `normalized`. A missing or stale
/// value is recomputed.
#[verifier::opaque]
pub open spec fn repair_v(v: TmV) -> TmV {
    let n = normalize_spec(v.original);
    TmV { normalized: n, hash: digest_of(n), ..v }
}

/// Repairing is idempotent: the recomputed fields are functions of fields
/// that repairing never changes.
pub proof fn lemma_repair_idempotent(v: TmV)
    ensures
        repair_v(repair_v(v)) == repair_v(v),
{
    reveal(repair_v);
}

/// Copies an entry field by field.
pub fn clone_tm(e: &TMEntry) -> (r: TMEntry)
    ensures
        r@ == e@,
{
    TMEntry {
        source_lang: e.source_lang.clone(),
        target_lang: e.target_lang.clone(),
        original: e.original.clone(),
        translation: e.translation.clone(),
        normalized: e.normalized.clone(),
        hash: e.hash.clone(),
    }
}

/// Repairs the derived fields of `e` in place: a `normalized` that is not the
/// normalization of `original`, or a `hash` that is not the digest of
/// `normalized` — missing or stale alike — is recomputed. Returns whether
/// anything differed.
pub fn ensure_norm_hash(e: &mut TMEntry) -> (changed: bool)
    ensures
        final(e)@ == repair_v(old(e)@),
        changed == (repair_v(old(e)@) != old(e)@),
{
    proof {
        reveal(repair_v);
    }
    let mut changed = false;
    let norm = normalize(e.original.as_str());
    if !crate::strutil::str_eq(e.normalized.as_str(), norm.as_str()) {
        e.normalized = norm;
        changed = true;
    }
    let h = hash_norm(e.normalized.as_str());
    if !crate::strutil::str_eq(e.hash.as_str(), h.as_str()) {
        e.hash = h;
        changed = true;
    }
    changed
}

/// The preference class of a translation: an effectively empty translation
/// ranks below a non-empty one.
pub open spec fn tr_class(v: TmV) -> int {
    if trim_ws(v.translation).len() == 0 {
        0int
    } else {
        1int
    }
}

/// The UTF-8 encoded length of a text, the unit in which translations are
/// compared.
#[verifier::opaque]
pub open spec fn utf8_len(s: Seq<char>) -> nat {
    vstd::utf8::encode_utf8(s).len()
}

/// True when `cand` is preferred over `cur` under the deduplication rule: a
/// non-empty translation beats an empty one, and within the same class the
/// translation with the strictly longer UTF-8 encoding wins.
pub open spec fn better_v(cur: TmV, cand: TmV) -> bool {
    tr_class(cur) < tr_class(cand) || (tr_class(cur) == tr_class(cand) && utf8_len(
        cand.translation,
    ) > utf8_len(cur.translation))
}

/// No two entries share a key tuple.
pub open spec fn distinct_keys(s: Seq<TmV>) -> bool {
    forall|i: int, j: int|
        0 <= i < j < s.len() ==> tm_key(#[trigger] s[i]) != tm_key(#[trigger] s[j])
}

/// The first index in `s` whose entry has key `k`, or `-1` when none has.
pub open spec fn key_idx(s: Seq<TmV>, k: (Seq<char>, Seq<char>, Seq<char>)) -> int
    decreases s.len(),
{
    if s.len() == 0 {
        -1int
    } else if tm_key(s[0]) == k {
        0int
    } else {
        let r = key_idx(s.drop_first(), k);
        if r < 0 {
            -1int
        } else {
            r + 1
        }
    }
}

proof fn lemma_key_idx_found(s: Seq<TmV>, k: (Seq<char>, Seq<char>, Seq<char>), i: int)
    requires
        0 <= i < s.len(),
        tm_key(s[i]) == k,
        forall|l: int| 0 <= l < i ==> tm_key(#[trigger] s[l]) != k,
    ensures
        key_idx(s, k) == i,
    decreases i,
{
    if i > 0 {
        lemma_key_idx_found(s.drop_first(), k, i - 1);
    }
}

proof fn lemma_key_idx_none(s: Seq<TmV>, k: (Seq<char>, Seq<char>, Seq<char>))
    requires
        forall|l: int| 0 <= l < s.len() ==> tm_key(#[trigger] s[l]) != k,
    ensures
        key_idx(s, k) == -1,
    decreases s.len(),
{
    if s.len() > 0 {
        lemma_key_idx_none(s.drop_first(), k);
    }
}

/// One deduplication step applied to the accumulated distinct-key entries:
/// a colliding entry replaces the held one exactly when it is preferred.
pub open spec fn dedup_step(acc: Seq<TmV>, e: TmV) -> Seq<TmV> {
    let i = key_idx(acc, tm_key(e));
    if i < 0 {
        acc.push(e)
    } else if better_v(acc[i], e) {
        acc.update(i, e)
    } else {
        acc
    }
}

/// Deduplication of the remaining entries `rem` into the accumulator `acc`:
/// each entry is repaired, then grouped by key tuple.
pub open spec fn dedup_loop(rem: Seq<TmV>, acc: Seq<TmV>) -> Seq<TmV>
    decreases rem.len(),
{
    if rem.len() == 0 {
        acc
    } else {
        dedup_loop(rem.drop_first(), dedup_step(acc, repair_v(rem[0])))
    }
}

/// The deduplicated form of `s`: entries repaired, exactly one entry per key
/// tuple, survivors in first-occurrence order.
pub open spec fn dedup_spec(s: Seq<TmV>) -> Seq<TmV> {
    dedup_loop(s, Seq::empty())
}

/// Whether two entries share the key tuple.
pub fn key_eq(a: &TMEntry, b: &TMEntry) -> (r: bool)
    ensures
        r == (tm_key(a@) == tm_key(b@)),
{
    crate::strutil::str_eq(a.source_lang.as_str(), b.source_lang.as_str())
        && crate::strutil::str_eq(a.target_lang.as_str(), b.target_lang.as_str())
        && crate::strutil::str_eq(a.hash.as_str(), b.hash.as_str())
}

/// Deduplicates `entries` by key tuple after repairing each entry, keeping
/// the preferred entry of each colliding group. Returns the surviving entries
/// and the number of entries dropped.
pub fn dedup(entries: Vec<TMEntry>) -> (r: (Vec<TMEntry>, usize))
    ensures
        tm_views(r.0@) == dedup_spec(tm_views(entries@)),
        r.0@.len() + r.1 == entries@.len(),
        distinct_keys(tm_views(r.0@)),
{
    let n = entries.len();
    let mut out: Vec<TMEntry> = Vec::new();
    proof {
        assert(tm_views(entries@).skip(0) =~= tm_views(entries@));
        assert(tm_views(out@) =~= Seq::<TmV>::empty());
    }
    let mut j: usize = 0;
    while j < n
        invariant
            j <= n,
            n == entries@.len(),
            dedup_loop(tm_views(entries@).skip(j as int), tm_views(out@)) == dedup_spec(
                tm_views(entries@),
            ),
            out@.len() <= j,
            distinct_keys(tm_views(out@)),
        decreases n - j,
    {
        let mut e = clone_tm(&entries[j]);
        ensure_norm_hash(&mut e);
        let ghost rem = tm_views(entries@).skip(j as int);
        let ghost acc = tm_views(out@);
        proof {
            assert(rem[0] == entries@[j as int]@);
            assert(rem.drop_first() =~= tm_views(entries@).skip(j + 1));
        }
        let m = out.len();
        let mut i: usize = 0;
        while i < m && !key_eq(&out[i], &e)
            invariant
                m == out@.len(),
                i <= m,
                forall|l: int| 0 <= l < i ==> tm_key(#[trigger] tm_views(out@)[l]) != tm_key(e@),
            decreases m - i,
        {
            i += 1;
        }
        if i < m {
            proof {
                lemma_key_idx_found(acc, tm_key(e@), i as int);
            }
            if pick_better(&out[i], &e) {
                let ghost acc2 = acc.update(i as int, e@);
                out[i] = e;
                proof {
                    assert(tm_views(out@) =~= acc2);
                }
            } else {
                proof {
                    assert(dedup_step(acc, e@) == acc);
                }
            }
        } else {
            proof {
                lemma_key_idx_none(acc, tm_key(e@));
            }
            let ghost acc2 = acc.push(e@);
            out.push(e);
            proof {
                assert(tm_views(out@) =~= acc2);
            }
        }
        j += 1;
    }
    proof {
        assert(tm_views(entries@).skip(n as int) =~= Seq::<TmV>::empty());
    }
    let removed = n - out.len();
    (out, removed)
}

/// Strict lexicographic order on character sequences by code point; a proper
/// prefix orders before its extensions. For valid text this is the same
/// order as byte-wise comparison of the UTF-8 encodings.
pub open spec fn seq_lt(a: Seq<char>, b: Seq<char>) -> bool
    decreases a.len(), b.len(),
{
    if b.len() == 0 {
        false
    } else if a.len() == 0 {
        true
    } else if (a[0] as u32) < (b[0] as u32) {
        true
    } else if (a[0] as u32) > (b[0] as u32) {
        false
    } else {
        seq_lt(a.drop_first(), b.drop_first())
    }
}

proof fn lemma_seq_lt_connected(a: Seq<char>, b: Seq<char>)
    ensures
        seq_lt(a, b) || seq_lt(b, a) || a == b,
    decreases a.len(),
{
    if a.len() == 0 && b.len() == 0 {
        assert(a =~= b);
    } else if a.len() > 0 && b.len() > 0 && (a[0] as u32) == (b[0] as u32) {
        lemma_seq_lt_connected(a.drop_first(), b.drop_first());
        if !seq_lt(a, b) && !seq_lt(b, a) {
            assert(a.drop_first() == b.drop_first());
            vstd::utf8::char_u32_cast(a[0], a[0] as u32);
            vstd::utf8::char_u32_cast(b[0], b[0] as u32);
            assert(a[0] == b[0]);
            assert(a.len() == b.len());
            assert forall|i: int| 0 <= i < a.len() implies a[i] == b[i] by {
                if i > 0 {
                    assert(a.drop_first()[i - 1] == b.drop_first()[i - 1]);
                }
            }
            assert(a =~= b);
        }
    }
}

proof fn lemma_seq_lt_asym(a: Seq<char>, b: Seq<char>)
    ensures
        seq_lt(a, b) ==> !seq_lt(b, a),
    decreases a.len(),
{
    if a.len() > 0 && b.len() > 0 && (a[0] as u32) == (b[0] as u32) {
        lemma_seq_lt_asym(a.drop_first(), b.drop_first());
    }
}

proof fn lemma_seq_lt_trans(a: Seq<char>, b: Seq<char>, c: Seq<char>)
    ensures
        seq_lt(a, b) && seq_lt(b, c) ==> seq_lt(a, c),
    decreases a.len(), b.len(), c.len(),
{
    if seq_lt(a, b) && seq_lt(b, c) {
        if a.len() > 0 && b.len() > 0 && c.len() > 0 && (a[0] as u32) == (b[0] as u32) && (
        b[0] as u32) == (c[0] as u32) {
            lemma_seq_lt_trans(a.drop_first(), b.drop_first(), c.drop_first());
        }
    }
}

/// Strict canonical order on entries: lexicographic by source language, then
/// target language, digest, normalized form, original, and translation.
pub open spec fn tm_lt(a: TmV, b: TmV) -> bool {
    seq_lt(a.source_lang, b.source_lang) || (a.source_lang == b.source_lang && (seq_lt(
        a.target_lang,
        b.target_lang,
    ) || (a.target_lang == b.target_lang && (seq_lt(a.hash, b.hash) || (a.hash == b.hash && (
    seq_lt(a.normalized, b.normalized) || (a.normalized == b.normalized && (seq_lt(
        a.original,
        b.original,
    ) || (a.original == b.original && seq_lt(a.translation, b.translation))))))))))
}

/// Canonical order on entries, with equality.
pub open spec fn tm_le(a: TmV, b: TmV) -> bool {
    tm_lt(a, b) || a == b
}

/// The canonical order as a relation value.
pub open spec fn tm_leq() -> spec_fn(TmV, TmV) -> bool {
    |a: TmV, b: TmV| tm_le(a, b)
}

proof fn lemma_tm_connected(a: TmV, b: TmV)
    ensures
        tm_le(a, b) || tm_le(b, a),
{
    lemma_seq_lt_connected(a.source_lang, b.source_lang);
    lemma_seq_lt_connected(a.target_lang, b.target_lang);
    lemma_seq_lt_connected(a.hash, b.hash);
    lemma_seq_lt_connected(a.normalized, b.normalized);
    lemma_seq_lt_connected(a.original, b.original);
    lemma_seq_lt_connected(a.translation, b.translation);
    if !tm_lt(a, b) && !tm_lt(b, a) {
        assert(a =~= b);
    }
}

proof fn lemma_tm_asym(a: TmV, b: TmV)
    ensures
        tm_lt(a, b) ==> !tm_lt(b, a),
{
    lemma_seq_lt_asym(a.source_lang, b.source_lang);
    lemma_seq_lt_asym(a.target_lang, b.target_lang);
    lemma_seq_lt_asym(a.hash, b.hash);
    lemma_seq_lt_asym(a.normalized, b.normalized);
    lemma_seq_lt_asym(a.original, b.original);
    lemma_seq_lt_asym(a.translation, b.translation);
}

proof fn lemma_tm_trans(a: TmV, b: TmV, c: TmV)
    ensures
        tm_lt(a, b) && tm_lt(b, c) ==> tm_lt(a, c),
{
    lemma_seq_lt_trans(a.source_lang, b.source_lang, c.source_lang);
    lemma_seq_lt_trans(a.target_lang, b.target_lang, c.target_lang);
    lemma_seq_lt_trans(a.hash, b.hash, c.hash);
    lemma_seq_lt_trans(a.normalized, b.normalized, c.normalized);
    lemma_seq_lt_trans(a.original, b.original, c.original);
    lemma_seq_lt_trans(a.translation, b.translation, c.translation);
    lemma_seq_lt_asym(a.source_lang, b.source_lang);
    lemma_seq_lt_asym(a.target_lang, b.target_lang);
    lemma_seq_lt_asym(a.hash, b.hash);
    lemma_seq_lt_asym(a.normalized, b.normalized);
    lemma_seq_lt_asym(a.original, b.original);
}

/// The canonical order is a total order.
pub proof fn lemma_tm_total_ordering()
    ensures
        vstd::relations::total_ordering(tm_leq()),
{
    let leq = tm_leq();
    assert forall|a: TmV, b: TmV| #[trigger] leq(a, b) && #[trigger] leq(b, a) implies a == b by {
        lemma_tm_asym(a, b);
    }
    assert forall|a: TmV, b: TmV| #[trigger] leq(a, b) || #[trigger] leq(b, a) by {
        lemma_tm_connected(a, b);
    }
    assert forall|a: TmV, b: TmV, c: TmV|
        #[trigger] leq(a, b) && #[trigger] leq(b, c) implies leq(a, c) by {
        lemma_tm_trans(a, b, c);
    }
}

/// Whether `a` orders strictly before `b` by code point.
pub fn str_lt(a: &str, b: &str) -> (r: bool)
    ensures
        r == seq_lt(a@, b@),
{
    let n = a.unicode_len();
    let m = b.unicode_len();
    proof {
        assert(a@.skip(0) =~= a@);
        assert(b@.skip(0) =~= b@);
    }
    let mut i: usize = 0;
    while i < n && i < m
        invariant
            n == a@.len(),
            m == b@.len(),
            i <= n,
            i <= m,
            seq_lt(a@, b@) == seq_lt(a@.skip(i as int), b@.skip(i as int)),
        decreases n - i,
    {
        let ca = a.get_char(i);
        let cb = b.get_char(i);
        proof {
            assert(a@.skip(i as int)[0] == a@[i as int]);
            assert(b@.skip(i as int)[0] == b@[i as int]);
            assert(a@.skip(i as int).drop_first() =~= a@.skip(i + 1));
            assert(b@.skip(i as int).drop_first() =~= b@.skip(i + 1));
        }
        if (ca as u32) < (cb as u32) {
            return true;
        }
        if (ca as u32) > (cb as u32) {
            return false;
        }
        i += 1;
    }
    proof {
        if i >= m {
            assert(b@.skip(i as int).len() == 0);
        } else {
            assert(a@.skip(i as int).len() == 0);
            assert(b@.skip(i as int).len() > 0);
        }
    }
    i >= n && i < m
}

/// Whether `a` orders strictly before `b` in the canonical entry order.
pub fn tm_entry_lt(a: &TMEntry, b: &TMEntry) -> (r: bool)
    ensures
        r == tm_lt(a@, b@),
{
    if str_lt(a.source_lang.as_str(), b.source_lang.as_str()) {
        return true;
    }
    if !crate::strutil::str_eq(a.source_lang.as_str(), b.source_lang.as_str()) {
        return false;
    }
    if str_lt(a.target_lang.as_str(), b.target_lang.as_str()) {
        return true;
    }
    if !crate::strutil::str_eq(a.target_lang.as_str(), b.target_lang.as_str()) {
        return false;
    }
    if str_lt(a.hash.as_str(), b.hash.as_str()) {
        return true;
    }
    if !crate::strutil::str_eq(a.hash.as_str(), b.hash.as_str()) {
        return false;
    }
    if str_lt(a.normalized.as_str(), b.normalized.as_str()) {
        return true;
    }
    if !crate::strutil::str_eq(a.normalized.as_str(), b.normalized.as_str()) {
        return false;
    }
    if str_lt(a.original.as_str(), b.original.as_str()) {
        return true;
    }
    if !crate::strutil::str_eq(a.original.as_str(), b.original.as_str()) {
        return false;
    }
    str_lt(a.translation.as_str(), b.translation.as_str())
}

/// Sorts the entries into the canonical deterministic order.
pub fn sort_entries(entries: &mut Vec<TMEntry>)
    ensures
        vstd::relations::sorted_by(tm_views(final(entries)@), tm_leq()),
        tm_views(final(entries)@).to_multiset() == tm_views(old(entries)@).to_multiset(),
        final(entries)@.len() == old(entries)@.len(),
{
    proof {
        lemma_tm_total_ordering();
    }
    let n = entries.len();
    if n <= 1 {
        return ;
    }
    let mut i: usize = 1;
    while i < n
        invariant
            1 <= i <= n,
            n == entries@.len(),
            vstd::relations::sorted_by(tm_views(entries@).take(i as int), tm_leq()),
            tm_views(entries@).to_multiset() == tm_views(old(entries)@).to_multiset(),
            vstd::relations::total_ordering(tm_leq()),
        decreases n - i,
    {
        proof {
            let v = tm_views(entries@);
            assert forall|k1: int, k2: int|
                0 <= k1 < k2 <= i && k1 != i && k2 != i implies tm_le(
                #[trigger] v[k1],
                #[trigger] v[k2],
            ) by {
                assert(tm_leq()(v.take(i as int)[k1], v.take(i as int)[k2]));
            }
        }
        let mut j: usize = i;
        while j > 0 && tm_entry_lt(&entries[j], &entries[j - 1])
            invariant
                0 <= j <= i < n,
                n == entries@.len(),
                tm_views(entries@).to_multiset() == tm_views(old(entries)@).to_multiset(),
                vstd::relations::total_ordering(tm_leq()),
                forall|k1: int, k2: int|
                    0 <= k1 < k2 <= i && k1 != j && k2 != j ==> tm_le(
                        #[trigger] tm_views(entries@)[k1],
                        #[trigger] tm_views(entries@)[k2],
                    ),
                forall|k: int|
                    j < k <= i ==> tm_lt(
                        tm_views(entries@)[j as int],
                        #[trigger] tm_views(entries@)[k],
                    ),
            decreases j,
        {
            let ghost before = tm_views(entries@);
            let a = clone_tm(&entries[j]);
            let b = clone_tm(&entries[j - 1]);
            entries[j - 1] = a;
            entries[j] = b;
            proof {
                let after = tm_views(entries@);
                assert(after =~= before.update(j - 1, before[j as int]).update(
                    j as int,
                    before[j - 1],
                ));
                broadcast use vstd::seq_lib::group_to_multiset_ensures;

                assert(after.to_multiset() =~= before.to_multiset());
                assert forall|k1: int, k2: int|
                    0 <= k1 < k2 <= i && k1 != j - 1 && k2 != j - 1 implies tm_le(
                    #[trigger] after[k1],
                    #[trigger] after[k2],
                ) by {
                    if k1 == j as int {
                        assert(after[k1] == before[j - 1]);
                        assert(tm_le(before[j - 1], before[k2]));
                    } else if k2 == j as int {
                        assert(after[k2] == before[j - 1]);
                        assert(tm_le(before[k1], before[j - 1]));
                    } else {
                        assert(tm_le(before[k1], before[k2]));
                    }
                }
                assert forall|k: int| j - 1 < k <= i implies tm_lt(
                    after[j - 1],
                    #[trigger] after[k],
                ) by {
                    assert(after[j - 1] == before[j as int]);
                    if k == j as int {
                        assert(after[k] == before[j - 1]);
                        assert(tm_lt(before[j as int], before[j - 1]));
                    } else {
                        assert(after[k] == before[k]);
                        assert(tm_lt(before[j as int], before[k]));
                    }
                }
            }
            j -= 1;
        }
        proof {
            let v = tm_views(entries@);
            let leq = tm_leq();
            assert forall|k1: int, k2: int| 0 <= k1 < k2 <= i implies #[trigger] leq(
                v[k1],
                v[k2],
            ) by {
                lemma_tm_connected(v[k1], v[k2]);
                if k1 == j as int {
                    assert(tm_lt(v[j as int], v[k2]));
                } else if k2 == j as int {
                    // the scan stopped: the predecessor is not greater
                    assert(!tm_lt(v[j as int], v[j - 1]));
                    lemma_tm_connected(v[j - 1], v[j as int]);
                    assert(tm_le(v[j - 1], v[j as int]));
                    if k1 < j - 1 {
                        assert(tm_le(v[k1], v[j - 1]));
                        lemma_tm_trans(v[k1], v[j - 1], v[j as int]);
                    }
                }
            }
            assert(vstd::relations::sorted_by(v.take(i + 1), leq)) by {
                assert forall|k1: int, k2: int|
                    0 <= k1 < k2 < v.take(i + 1).len() implies #[trigger] leq(
                    v.take(i + 1)[k1],
                    v.take(i + 1)[k2],
                ) by {
                    assert(v.take(i + 1)[k1] == v[k1]);
                    assert(v.take(i + 1)[k2] == v[k2]);
                    assert(leq(v[k1], v[k2]));
                }
            }
        }
        i += 1;
    }
    proof {
        assert(tm_views(entries@).take(n as int) =~= tm_views(entries@));
    }
}

/// Decides whether `candidate` should replace `current` when both carry the
/// same key tuple.
pub fn pick_better(current: &TMEntry, candidate: &TMEntry) -> (r: bool)
    ensures
        r == better_v(current@, candidate@),
{
    let cur_empty = crate::text::trim_str(current.translation.as_str()).is_empty();
    let cand_empty = crate::text::trim_str(candidate.translation.as_str()).is_empty();
    if cur_empty && !cand_empty {
        return true;
    }
    if !cur_empty && cand_empty {
        return false;
    }
    let cand_len = candidate.translation.as_str().as_bytes().len();
    let cur_len = current.translation.as_str().as_bytes().len();
    proof {
        broadcast use vstd::slice::axiom_spec_len;

        reveal(utf8_len);
        assert(cand_len == utf8_len(candidate@.translation));
        assert(cur_len == utf8_len(current@.translation));
    }
    cand_len > cur_len
}

} // verus!
