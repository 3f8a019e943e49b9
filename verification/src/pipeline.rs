//! The orchestrator's two decision phases. The lookup phase resolves every
//! translatable unit against the loaded translation memory and queues the
//! misses, before any live translation is attempted. The apply phase commits
//! the live-translation results for exactly the queued units, growing the
//! in-memory store by one entry per verified success and never downgrading a
//! unit that already carries a translation. The caller sequences the two
//! phases around the store I/O and the network exchanges.

use vstd::prelude::*;
use vstd::string::StrSliceExecFns;

use crate::ai::AiRunReport;
use crate::digest::hash_norm;
use crate::entry::{clone_core, entry_views, CoreEntry, EntryStatus, EntryV};
use crate::matcher::{commit_entry, exact_match, match_spec};
use crate::text::{normalize, trim_str, trim_ws};
use crate::tm::{tm_views, TMEntry, TmV};

verus! {

/// Configuration of one pipeline run: provider identifier, credential, model
/// identifier, and the language pair.
pub struct PipelineConfig {
    pub provider: String,
    pub api_key: String,
    pub model: String,
    pub source_lang: String,
    pub target_lang: String,
}

/// Summary of one pipeline run: units resolved from the translation memory,
/// units resolved by live translation, and the client's own report when live
/// translation ran.
pub struct PipelineReport {
    pub used_tm: usize,
    pub used_ai: usize,
    pub ai_report: Option<AiRunReport>,
}

/// A unit after a cache hit: the stored translation and the `Translated`
/// status, everything else untouched.
pub open spec fn hit_entry(ov: EntryV, m: TmV) -> EntryV {
    EntryV { translation: m.translation, status: EntryStatus::Translated, ..ov }
}

/// The indices of the translatable units that miss the store, in order.
pub open spec fn miss_seq(tm: Seq<TmV>, s: Seq<EntryV>, sl: Seq<char>, tl: Seq<char>) -> Seq<int>
    decreases s.len(),
{
    if s.len() == 0 {
        Seq::empty()
    } else {
        miss_seq(tm, s.drop_last(), sl, tl) + (if s.last().is_translatable && match_spec(
            tm,
            sl,
            tl,
            s.last().original,
        ) is None {
            seq![s.len() - 1]
        } else {
            Seq::empty()
        })
    }
}

/// How many translatable units hit the store.
pub open spec fn hit_count(tm: Seq<TmV>, s: Seq<EntryV>, sl: Seq<char>, tl: Seq<char>) -> int
    decreases s.len(),
{
    if s.len() == 0 {
        0int
    } else {
        hit_count(tm, s.drop_last(), sl, tl) + (if s.last().is_translatable && match_spec(
            tm,
            sl,
            tl,
            s.last().original,
        ) is Some {
            1int
        } else {
            0int
        })
    }
}

proof fn lemma_miss_seq_bounds(tm: Seq<TmV>, s: Seq<EntryV>, sl: Seq<char>, tl: Seq<char>)
    ensures
        forall|j: int|
            0 <= j < miss_seq(tm, s, sl, tl).len() ==> 0 <= #[trigger] miss_seq(tm, s, sl, tl)[j]
                < s.len(),
        forall|j1: int, j2: int|
            0 <= j1 < j2 < miss_seq(tm, s, sl, tl).len() ==> miss_seq(tm, s, sl, tl)[j1] < miss_seq(
                tm,
                s,
                sl,
                tl,
            )[j2],
        hit_count(tm, s, sl, tl) + miss_seq(tm, s, sl, tl).len() <= s.len(),
        hit_count(tm, s, sl, tl) >= 0,
        forall|j: int|
            0 <= j < miss_seq(tm, s, sl, tl).len() ==> s[#[trigger] miss_seq(
                tm,
                s,
                sl,
                tl,
            )[j]].is_translatable && match_spec(tm, sl, tl, s[miss_seq(tm, s, sl, tl)[j]].original) is None,
    decreases s.len(),
{
    if s.len() > 0 {
        lemma_miss_seq_bounds(tm, s.drop_last(), sl, tl);
    }
}

/// The lookup phase: resolves each translatable unit from the store when an
/// exact match exists, setting its translation and `Translated` status, and
/// queues the indices of the translatable misses. Structural units and
/// translatable hits are not queued; nothing else about any unit changes.
/// Returns the cache-hit count and the queue.
pub fn match_units(
    entries: &mut Vec<CoreEntry>,
    tm: &Vec<TMEntry>,
    source_lang: &str,
    target_lang: &str,
) -> (r: (usize, Vec<usize>))
    ensures
        final(entries)@.len() == old(entries)@.len(),
        forall|i: int|
            0 <= i < old(entries)@.len() ==> {
                let ov = #[trigger] entry_views(old(entries)@)[i];
                let nv = entry_views(final(entries)@)[i];
                if ov.is_translatable {
                    match match_spec(tm_views(tm@), source_lang@, target_lang@, ov.original) {
                        Some(m) => nv == hit_entry(ov, m),
                        None => nv == ov,
                    }
                } else {
                    nv == ov
                }
            },
        r.1@.map_values(|u: usize| u as int) == miss_seq(
            tm_views(tm@),
            entry_views(old(entries)@),
            source_lang@,
            target_lang@,
        ),
        r.0 == hit_count(
            tm_views(tm@),
            entry_views(old(entries)@),
            source_lang@,
            target_lang@,
        ),
        forall|j: int| 0 <= j < r.1@.len() ==> (#[trigger] r.1@[j]) < old(entries)@.len(),
        forall|j1: int, j2: int| 0 <= j1 < j2 < r.1@.len() ==> r.1@[j1] < r.1@[j2],
        forall|j: int|
            0 <= j < r.1@.len() ==> entry_views(old(entries)@)[#[trigger] r.1@[j] as int]
                == entry_views(final(entries)@)[r.1@[j] as int] && entry_views(
                old(entries)@,
            )[r.1@[j] as int].is_translatable,
{
    let ghost orig = entry_views(entries@);
    let ghost tmv = tm_views(tm@);
    let n = entries.len();
    let mut used_tm: usize = 0;
    let mut queue: Vec<usize> = Vec::new();
    proof {
        assert(orig.take(0) =~= Seq::<EntryV>::empty());
        assert(queue@.map_values(|u: usize| u as int) =~= Seq::<int>::empty());
    }
    let mut i: usize = 0;
    while i < n
        invariant
            i <= n,
            n == entries@.len(),
            n == orig.len(),
            orig == entry_views(old(entries)@),
            tmv == tm_views(tm@),
            used_tm <= i,
            queue@.len() <= i,
            forall|k: int| i <= k < n ==> entry_views(entries@)[k] == #[trigger] orig[k],
            forall|k: int|
                0 <= k < i ==> {
                    let ov = #[trigger] orig[k];
                    let nv = entry_views(entries@)[k];
                    if ov.is_translatable {
                        match match_spec(tmv, source_lang@, target_lang@, ov.original) {
                            Some(m) => nv == hit_entry(ov, m),
                            None => nv == ov,
                        }
                    } else {
                        nv == ov
                    }
                },
            queue@.map_values(|u: usize| u as int) == miss_seq(
                tmv,
                orig.take(i as int),
                source_lang@,
                target_lang@,
            ),
            used_tm == hit_count(tmv, orig.take(i as int), source_lang@, target_lang@),
            forall|j: int| 0 <= j < queue@.len() ==> (#[trigger] queue@[j]) < i,
            forall|j1: int, j2: int| 0 <= j1 < j2 < queue@.len() ==> queue@[j1] < queue@[j2],
        decreases n - i,
    {
        proof {
            assert(orig.take(i + 1).drop_last() =~= orig.take(i as int));
            assert(orig.take(i + 1).last() == orig[i as int]);
            assert(entry_views(entries@)[i as int] == entries@[i as int]@);
            assert(entries@[i as int]@ == orig[i as int]);
        }
        let translatable = entries[i].is_translatable;
        if translatable {
            let found = exact_match(tm, source_lang, target_lang, entries[i].original.as_str());
            match found {
                Some(m) => {
                    proof {
                        assert(match_spec(tmv, source_lang@, target_lang@, orig[i as int].original)
                            == Some(m@));
                        assert(hit_count(tmv, orig.take(i + 1), source_lang@, target_lang@)
                            == used_tm + 1);
                        assert(miss_seq(tmv, orig.take(i + 1), source_lang@, target_lang@)
                            =~= miss_seq(tmv, orig.take(i as int), source_lang@, target_lang@));
                    }
                    let mut e = clone_core(&entries[i]);
                    e.translation = m.translation.clone();
                    e.status = EntryStatus::Translated;
                    let ghost before = entry_views(entries@);
                    entries[i] = e;
                    proof {
                        assert(entry_views(entries@) =~= before.update(i as int, e@));
                        assert(e@ =~= hit_entry(orig[i as int], m@));
                    }
                    used_tm += 1;
                },
                None => {
                    proof {
                        assert(match_spec(tmv, source_lang@, target_lang@, orig[i as int].original)
                            is None);
                        assert(hit_count(tmv, orig.take(i + 1), source_lang@, target_lang@)
                            == used_tm);
                        assert(miss_seq(tmv, orig.take(i + 1), source_lang@, target_lang@)
                            =~= miss_seq(tmv, orig.take(i as int), source_lang@, target_lang@).push(
                            i as int,
                        ));
                    }
                    let ghost qb = queue@;
                    queue.push(i);
                    proof {
                        assert(queue@.map_values(|u: usize| u as int) =~= qb.map_values(
                            |u: usize| u as int,
                        ).push(i as int));
                    }
                },
            }
        } else {
            proof {
                assert(hit_count(tmv, orig.take(i + 1), source_lang@, target_lang@) == used_tm);
                assert(miss_seq(tmv, orig.take(i + 1), source_lang@, target_lang@) =~= miss_seq(
                    tmv,
                    orig.take(i as int),
                    source_lang@,
                    target_lang@,
                ));
            }
        }
        i += 1;
    }
    proof {
        assert(orig.take(n as int) =~= orig);
        lemma_miss_seq_bounds(tmv, orig, source_lang@, target_lang@);
        let q = queue@.map_values(|u: usize| u as int);
        assert forall|j: int|
            0 <= j < queue@.len() implies entry_views(old(entries)@)[#[trigger] queue@[j] as int]
            == entry_views(entries@)[queue@[j] as int] && entry_views(
            old(entries)@,
        )[queue@[j] as int].is_translatable by {
            assert(q[j] == queue@[j] as int);
            assert(orig[q[j]].is_translatable && match_spec(
                tmv,
                source_lang@,
                target_lang@,
                orig[q[j]].original,
            ) is None);
        }
    }
    (used_tm, queue)
}

/// The result the client hands back for one queued unit: whether it
/// succeeded, and the translated text it produced.
pub struct UnitResult {
    pub ok: bool,
    pub text: String,
}

/// Whether a unit result commits: the client succeeded and the text is not
/// blank.
pub open spec fn commits_ok(u: UnitResult) -> bool {
    u.ok && trim_ws(u.text@).len() > 0
}

/// A unit whose live translation failed or came back blank: its translated
/// text is kept as it was, and its status becomes `Untranslated` only when it
/// has no content, `InProgress` when it does.
pub open spec fn failed_entry(ov: EntryV) -> EntryV {
    EntryV {
        status: if trim_ws(ov.translation).len() == 0 {
            EntryStatus::Untranslated
        } else {
            EntryStatus::InProgress
        },
        ..ov
    }
}

/// No downgrade: a unit whose live translation failed keeps its translated
/// text exactly, and when that text is non-empty the unit never falls back to
/// `Untranslated`.
pub proof fn lemma_no_downgrade(ov: EntryV)
    ensures
        failed_entry(ov).translation == ov.translation,
        trim_ws(ov.translation).len() > 0 ==> failed_entry(ov).status != EntryStatus::Untranslated,
{
}

/// The store entries committed for the queued units, in queue order: one per
/// committing result.
pub open spec fn commits(
    s: Seq<EntryV>,
    q: Seq<usize>,
    res: Seq<UnitResult>,
    sl: Seq<char>,
    tl: Seq<char>,
) -> Seq<TmV>
    decreases res.len(),
{
    if res.len() == 0 {
        Seq::empty()
    } else {
        commits(s, q.drop_last(), res.drop_last(), sl, tl) + (if commits_ok(res.last()) {
            seq![commit_entry(sl, tl, s[q.last() as int].original, res.last().text@)]
        } else {
            Seq::empty()
        })
    }
}

/// How many queued units commit.
pub open spec fn success_count(res: Seq<UnitResult>) -> int
    decreases res.len(),
{
    if res.len() == 0 {
        0int
    } else {
        success_count(res.drop_last()) + (if commits_ok(res.last()) {
            1int
        } else {
            0int
        })
    }
}

/// Whether index `i` stands in the queue.
pub open spec fn queue_has(q: Seq<usize>, i: int) -> bool {
    exists|j: int| 0 <= j < q.len() && (#[trigger] q[j]) as int == i
}

/// The apply phase: commits the live-translation results for exactly the
/// queued units. A unit whose result succeeded with non-blank text gets that
/// text and the `Translated` status, and one store entry for it is appended
/// to the in-memory collection, in queue order. A failed or blank result
/// leaves the unit's translated text untouched and only adjusts its status:
/// `Untranslated` when it has no content, `InProgress` when it does. Units
/// outside the queue, and the store entries already held, are untouched.
/// Returns the number of committed units.
pub fn apply_live_results(
    entries: &mut Vec<CoreEntry>,
    queue: &Vec<usize>,
    results: &Vec<UnitResult>,
    tm: &mut Vec<TMEntry>,
    source_lang: &str,
    target_lang: &str,
) -> (used_ai: usize)
    requires
        queue@.len() == results@.len(),
        forall|j: int| 0 <= j < queue@.len() ==> (#[trigger] queue@[j]) < old(entries)@.len(),
        forall|j1: int, j2: int| 0 <= j1 < j2 < queue@.len() ==> queue@[j1] < queue@[j2],
        forall|j: int|
            0 <= j < queue@.len() ==> entry_views(old(entries)@)[#[trigger] queue@[j] as int].is_translatable,
    ensures
        final(entries)@.len() == old(entries)@.len(),
        forall|i: int|
            0 <= i < old(entries)@.len() && !queue_has(queue@, i) ==> entry_views(
                final(entries)@,
            )[i] == entry_views(old(entries)@)[i],
        forall|j: int|
            0 <= j < queue@.len() ==> {
                let i = #[trigger] queue@[j] as int;
                let ov = entry_views(old(entries)@)[i];
                let nv = entry_views(final(entries)@)[i];
                if commits_ok(results@[j]) {
                    nv == (EntryV {
                        translation: results@[j].text@,
                        status: EntryStatus::Translated,
                        ..ov
                    })
                } else {
                    nv == failed_entry(ov)
                }
            },
        tm_views(final(tm)@) == tm_views(old(tm)@) + commits(
            entry_views(old(entries)@),
            queue@,
            results@,
            source_lang@,
            target_lang@,
        ),
        used_ai == success_count(results@),
{
    let ghost orig = entry_views(entries@);
    let ghost tm0 = tm_views(tm@);
    let m = queue.len();
    let mut used_ai: usize = 0;
    proof {
        assert(queue@.take(0) =~= Seq::<usize>::empty());
        assert(results@.take(0) =~= Seq::<UnitResult>::empty());
        assert(tm_views(tm@) =~= tm0 + commits(
            orig,
            queue@.take(0),
            results@.take(0),
            source_lang@,
            target_lang@,
        ));
    }
    let mut j: usize = 0;
    while j < m
        invariant
            j <= m,
            m == queue@.len(),
            m == results@.len(),
            entries@.len() == orig.len(),
            orig == entry_views(old(entries)@),
            tm0 == tm_views(old(tm)@),
            used_ai <= j,
            forall|jj: int| 0 <= jj < m ==> (#[trigger] queue@[jj]) < orig.len(),
            forall|j1: int, j2: int| 0 <= j1 < j2 < m ==> queue@[j1] < queue@[j2],
            forall|jj: int| 0 <= jj < m ==> orig[#[trigger] queue@[jj] as int].is_translatable,
            forall|i: int|
                0 <= i < orig.len() && !queue_has(queue@.take(j as int), i) ==> entry_views(
                    entries@,
                )[i] == orig[i],
            forall|jj: int|
                0 <= jj < j ==> {
                    let i = #[trigger] queue@[jj] as int;
                    let ov = orig[i];
                    let nv = entry_views(entries@)[i];
                    if commits_ok(results@[jj]) {
                        nv == (EntryV {
                            translation: results@[jj].text@,
                            status: EntryStatus::Translated,
                            ..ov
                        })
                    } else {
                        nv == failed_entry(ov)
                    }
                },
            tm_views(tm@) == tm0 + commits(
                orig,
                queue@.take(j as int),
                results@.take(j as int),
                source_lang@,
                target_lang@,
            ),
            used_ai == success_count(results@.take(j as int)),
        decreases m - j,
    {
        proof {
            assert(queue@.take(j + 1).drop_last() =~= queue@.take(j as int));
            assert(results@.take(j + 1).drop_last() =~= results@.take(j as int));
            assert(queue@.take(j + 1).last() == queue@[j as int]);
            assert(results@.take(j + 1).last() == results@[j as int]);
            assert(!queue_has(queue@.take(j as int), queue@[j as int] as int));
        }
        let i = queue[j];
        let ok = results[j].ok;
        let text_trimmed_empty = trim_str(results[j].text.as_str()).is_empty();
        if ok && !text_trimmed_empty {
            let mut e = clone_core(&entries[i]);
            e.translation = results[j].text.clone();
            e.status = EntryStatus::Translated;
            let ghost before = entry_views(entries@);
            entries[i] = e;
            proof {
                assert(entry_views(entries@) =~= before.update(i as int, e@));
            }
            let norm = normalize(entries[i].original.as_str());
            let h = hash_norm(norm.as_str());
            let ne = TMEntry {
                source_lang: source_lang.to_owned(),
                target_lang: target_lang.to_owned(),
                original: entries[i].original.clone(),
                translation: entries[i].translation.clone(),
                normalized: norm,
                hash: h,
            };
            let ghost tmb = tm_views(tm@);
            tm.push(ne);
            proof {
                assert(ne@ == commit_entry(
                    source_lang@,
                    target_lang@,
                    orig[i as int].original,
                    results@[j as int].text@,
                ));
                assert(tm_views(tm@) =~= tmb.push(ne@));
                assert(tm_views(tm@) =~= tm0 + commits(
                    orig,
                    queue@.take(j + 1),
                    results@.take(j + 1),
                    source_lang@,
                    target_lang@,
                ));
            }
            used_ai += 1;
        } else {
            let has_content = !trim_str(entries[i].translation.as_str()).is_empty();
            let mut e = clone_core(&entries[i]);
            if has_content {
                e.status = EntryStatus::InProgress;
            } else {
                e.status = EntryStatus::Untranslated;
            }
            let ghost before = entry_views(entries@);
            entries[i] = e;
            proof {
                assert(entry_views(entries@) =~= before.update(i as int, e@));
                assert(tm_views(tm@) =~= tm0 + commits(
                    orig,
                    queue@.take(j + 1),
                    results@.take(j + 1),
                    source_lang@,
                    target_lang@,
                ));
            }
        }
        j += 1;
    }
    proof {
        assert(queue@.take(m as int) =~= queue@);
        assert(results@.take(m as int) =~= results@);
    }
    used_ai
}

} // verus!

