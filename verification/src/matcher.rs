//! Exact-match lookup in the translation memory: a unit's source text is
//! trimmed, normalized and hashed, and the unique entry carrying the same
//! `(source_lang, target_lang, digest)` key tuple and the same normalized
//! form is returned. An effectively empty source text never matches.

use vstd::prelude::*;
use vstd::string::StrSliceExecFns;

use crate::digest::{digest_of, hash_norm};
use crate::store::prepare_spec;
use crate::text::{normalize, normalize_spec, trim_ws};
use crate::tm::{repair_v, tm_key, tm_views, TMEntry, TmV};

verus! {

/// Whether entry `v` answers a lookup for canonical text `norm` under the
/// given language pair: the key tuple matches and, as a defense against
/// digest collisions and stale data, the stored normalized form matches too.
pub open spec fn tm_matches(v: TmV, sl: Seq<char>, tl: Seq<char>, norm: Seq<char>) -> bool {
    v.source_lang == sl && v.target_lang == tl && v.hash == digest_of(norm) && v.normalized == norm
}

/// The first index of a matching entry, or `-1` when none matches.
pub open spec fn match_idx(s: Seq<TmV>, sl: Seq<char>, tl: Seq<char>, norm: Seq<char>) -> int
    decreases s.len(),
{
    if s.len() == 0 {
        -1int
    } else if tm_matches(s[0], sl, tl, norm) {
        0int
    } else {
        let r = match_idx(s.drop_first(), sl, tl, norm);
        if r < 0 {
            -1int
        } else {
            r + 1
        }
    }
}

/// What a lookup returns: nothing for an effectively empty source text,
/// otherwise the first entry matching the computed normalized form and
/// digest.
pub open spec fn match_spec(s: Seq<TmV>, sl: Seq<char>, tl: Seq<char>, text: Seq<char>) -> Option<
    TmV,
> {
    if trim_ws(text).len() == 0 {
        None
    } else if normalize_spec(text).len() == 0 {
        None
    } else {
        let i = match_idx(s, sl, tl, normalize_spec(text));
        if i < 0 {
            None
        } else {
            Some(s[i])
        }
    }
}

proof fn lemma_match_idx_semantics(s: Seq<TmV>, sl: Seq<char>, tl: Seq<char>, norm: Seq<char>)
    ensures
        match_idx(s, sl, tl, norm) == -1 ==> forall|l: int|
            0 <= l < s.len() ==> !tm_matches(#[trigger] s[l], sl, tl, norm),
        match_idx(s, sl, tl, norm) >= 0 ==> 0 <= match_idx(s, sl, tl, norm) < s.len()
            && tm_matches(s[match_idx(s, sl, tl, norm)], sl, tl, norm) && forall|l: int|
            0 <= l < match_idx(s, sl, tl, norm) ==> !tm_matches(#[trigger] s[l], sl, tl, norm),
    decreases s.len(),
{
    if s.len() > 0 && !tm_matches(s[0], sl, tl, norm) {
        lemma_match_idx_semantics(s.drop_first(), sl, tl, norm);
        if match_idx(s, sl, tl, norm) == -1 {
            assert forall|l: int|
                0 <= l < s.len() implies !tm_matches(#[trigger] s[l], sl, tl, norm) by {
                if l > 0 {
                    assert(s.drop_first()[l - 1] == s[l]);
                }
            }
        } else {
            assert forall|l: int|
                0 <= l < match_idx(s, sl, tl, norm) implies !tm_matches(
                #[trigger] s[l],
                sl,
                tl,
                norm,
            ) by {
                if l > 0 {
                    assert(s.drop_first()[l - 1] == s[l]);
                }
            }
        }
    }
}

proof fn lemma_match_idx_found(s: Seq<TmV>, sl: Seq<char>, tl: Seq<char>, norm: Seq<char>, i: int)
    requires
        0 <= i < s.len(),
        tm_matches(s[i], sl, tl, norm),
        forall|l: int| 0 <= l < i ==> !tm_matches(#[trigger] s[l], sl, tl, norm),
    ensures
        match_idx(s, sl, tl, norm) == i,
    decreases i,
{
    if i > 0 {
        lemma_match_idx_found(s.drop_first(), sl, tl, norm, i - 1);
    }
}

/// Looks up the unique entry for `original` under the language pair: trims
/// the text, and misses when the trimmed or normalized form is empty;
/// otherwise returns the first entry whose key tuple and normalized form
/// equal the computed ones.
pub fn exact_match<'a>(
    entries: &'a Vec<TMEntry>,
    source_lang: &str,
    target_lang: &str,
    original: &str,
) -> (r: Option<&'a TMEntry>)
    ensures
        match r {
            Some(e) => match_spec(tm_views(entries@), source_lang@, target_lang@, original@)
                == Some(e@),
            None => match_spec(tm_views(entries@), source_lang@, target_lang@, original@) is None,
        },
{
    let norm = normalize(original);
    if norm.as_str().is_empty() {
        return None;
    }
    let h = hash_norm(norm.as_str());
    let n = entries.len();
    let mut i: usize = 0;
    while i < n
        invariant
            n == entries@.len(),
            i <= n,
            norm@ == normalize_spec(original@),
            norm@.len() != 0,
            trim_ws(original@).len() != 0,
            h@ == digest_of(norm@),
            forall|l: int|
                0 <= l < i ==> !tm_matches(
                    #[trigger] tm_views(entries@)[l],
                    source_lang@,
                    target_lang@,
                    norm@,
                ),
        decreases n - i,
    {
        let e = &entries[i];
        if crate::strutil::str_eq(e.source_lang.as_str(), source_lang) && crate::strutil::str_eq(
            e.target_lang.as_str(),
            target_lang,
        ) && crate::strutil::str_eq(e.hash.as_str(), h.as_str()) && crate::strutil::str_eq(
            e.normalized.as_str(),
            norm.as_str(),
        ) {
            proof {
                lemma_match_idx_found(
                    tm_views(entries@),
                    source_lang@,
                    target_lang@,
                    norm@,
                    i as int,
                );
                assert(trim_ws(original@).len() != 0);
                assert(tm_views(entries@)[i as int] == entries@[i as int]@);
                assert(match_spec(tm_views(entries@), source_lang@, target_lang@, original@)
                    == Some(tm_views(entries@)[i as int]));
            }
            return Some(e);
        }
        i += 1;
    }
    proof {
        lemma_match_idx_semantics(tm_views(entries@), source_lang@, target_lang@, norm@);
        if match_idx(tm_views(entries@), source_lang@, target_lang@, norm@) >= 0 {
            assert(false);
        }
    }
    None
}

/// The entry that the orchestrator commits after a successful live
/// translation of `original` into `translated` under the language pair.
pub open spec fn commit_entry(
    sl: Seq<char>,
    tl: Seq<char>,
    original: Seq<char>,
    translated: Seq<char>,
) -> TmV {
    TmV {
        source_lang: sl,
        target_lang: tl,
        original: original,
        translation: translated,
        normalized: normalize_spec(original),
        hash: digest_of(normalize_spec(original)),
    }
}

/// Cache round trip: after committing a live translation of a matchable
/// source text whose key tuple is fresh in the store, preparing the grown
/// store (as both persisting and reloading do) and looking the text up again
/// under the same language pair returns exactly the committed entry.
pub proof fn lemma_cache_round_trip(
    tm0: Seq<TmV>,
    sl: Seq<char>,
    tl: Seq<char>,
    source: Seq<char>,
    translated: Seq<char>,
)
    requires
        trim_ws(source).len() > 0,
        normalize_spec(source).len() > 0,
        forall|i: int|
            0 <= i < tm0.len() ==> tm_key(repair_v(#[trigger] tm0[i])) != (
                sl,
                tl,
                digest_of(normalize_spec(source)),
            ),
    ensures
        match_spec(
            prepare_spec(tm0.push(commit_entry(sl, tl, source, translated))),
            sl,
            tl,
            source,
        ) == Some(commit_entry(sl, tl, source, translated)),
{
    let e = commit_entry(sl, tl, source, translated);
    let norm = normalize_spec(source);
    let s1 = tm0.push(e);
    let p = prepare_spec(s1);
    assert(repair_v(e) == e) by {
        reveal(crate::tm::repair_v);
    }
    assert(tm_key(e) == (sl, tl, digest_of(norm)));
    crate::store::lemma_prepare_dedup(s1);
    // the committed entry survives: some prepared entry carries its key
    assert(s1[tm0.len() as int] == e);
    let l0 = choose|l: int|
        0 <= l < p.len() && tm_key(#[trigger] p[l]) == tm_key(repair_v(s1[tm0.len() as int]))
            && !crate::tm::better_v(p[l], repair_v(s1[tm0.len() as int]));
    assert(tm_key(p[l0]) == tm_key(e));
    // and every prepared entry with that key is the committed entry itself
    assert forall|l: int| 0 <= l < p.len() && tm_key(#[trigger] p[l]) == tm_key(e) implies p[l]
        == e by {
        let j = choose|j: int| 0 <= j < s1.len() && #[trigger] p[l] == repair_v(s1[j]);
        if j < tm0.len() {
            assert(tm_key(repair_v(tm0[j])) != tm_key(e));
        } else {
            assert(s1[j] == e);
        }
    }
    assert(p[l0] == e);
    assert(tm_matches(p[l0], sl, tl, norm));
    lemma_match_idx_semantics(p, sl, tl, norm);
    let i = match_idx(p, sl, tl, norm);
    if i == -1 {
        assert(!tm_matches(p[l0], sl, tl, norm));
        assert(false);
    }
    assert(tm_matches(p[i], sl, tl, norm));
    assert(tm_key(p[i]) == tm_key(e));
    assert(p[i] == e);
}

} // verus!
