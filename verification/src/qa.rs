//! Quality-assurance linting over resolved units: flags translations that
//! merely repeat the original, translatable lines without reconstruction
//! context, attributed lines without text, and statuses that contradict the
//! translated text.

use vstd::prelude::*;
use vstd::string::StringExecFns;

use crate::entry::{entry_views, CoreEntry, EntryStatus, EntryV};
use crate::text::{trim_str, trim_ws};

verus! {

/// One finding: the unit it concerns, a stable code, and a human-readable
/// message.
pub struct QaIssue {
    pub entry_id: String,
    pub code: String,
    pub message: String,
}

/// The mathematical value of a finding.
#[verifier::ext_equal]
pub struct IssueV {
    pub entry_id: Seq<char>,
    pub code: Seq<char>,
    pub message: Seq<char>,
}

impl View for QaIssue {
    type V = IssueV;

    open spec fn view(&self) -> IssueV {
        IssueV { entry_id: self.entry_id@, code: self.code@, message: self.message@ }
    }
}

/// The views of a sequence of findings.
pub open spec fn issue_views(s: Seq<QaIssue>) -> Seq<IssueV> {
    s.map_values(|x: QaIssue| x@)
}

/// The findings for one unit, in reporting order. Structural units are never
/// flagged.
pub open spec fn entry_issues(v: EntryV) -> Seq<IssueV> {
    if !v.is_translatable {
        Seq::empty()
    } else {
        (if trim_ws(v.translation).len() > 0 && trim_ws(v.translation) == trim_ws(v.original) {
            seq![
                IssueV {
                    entry_id: v.entry_id,
                    code: "SAME_AS_ORIGINAL"@,
                    message: "Tradu\u{e7}\u{e3}o \u{e9} id\u{ea}ntica ao texto original"@,
                },
            ]
        } else {
            Seq::empty()
        }) + (if v.prefix is None && v.suffix is None {
            seq![
                IssueV {
                    entry_id: v.entry_id,
                    code: "MISSING_CONTEXT"@,
                    message: "Linha traduz\u{ed}vel sem prefix/suffix"@,
                },
            ]
        } else {
            Seq::empty()
        }) + (if v.speaker is Some && trim_ws(v.original).len() == 0 {
            seq![
                IssueV {
                    entry_id: v.entry_id,
                    code: "SPEAKER_WITHOUT_TEXT"@,
                    message: "Speaker definido mas texto original vazio"@,
                },
            ]
        } else {
            Seq::empty()
        }) + (match v.status {
            EntryStatus::Translated | EntryStatus::Reviewed => if trim_ws(v.translation).len()
                == 0 {
                seq![
                    IssueV {
                        entry_id: v.entry_id,
                        code: "STATUS_TRANSLATED_BUT_EMPTY"@,
                        message: "Status indica traduzido, mas tradu\u{e7}\u{e3}o est\u{e1} vazia"@,
                    },
                ]
            } else {
                Seq::empty()
            },
            EntryStatus::InProgress => if trim_ws(v.translation).len() == 0 {
                seq![
                    IssueV {
                        entry_id: v.entry_id,
                        code: "STATUS_IN_PROGRESS_BUT_EMPTY"@,
                        message: "Status IN_PROGRESS, mas tradu\u{e7}\u{e3}o est\u{e1} vazia"@,
                    },
                ]
            } else {
                Seq::empty()
            },
            EntryStatus::Untranslated => Seq::empty(),
        })
    }
}

/// All findings for a sequence of units, in unit order.
pub open spec fn qa_spec(s: Seq<EntryV>) -> Seq<IssueV>
    decreases s.len(),
{
    if s.len() == 0 {
        Seq::empty()
    } else {
        qa_spec(s.drop_last()) + entry_issues(s.last())
    }
}

fn issue(e: &CoreEntry, code: &str, message: &str) -> (r: QaIssue)
    ensures
        r@ == (IssueV { entry_id: e@.entry_id, code: code@, message: message@ }),
{
    QaIssue {
        entry_id: e.entry_id.clone(),
        code: code.to_owned(),
        message: message.to_owned(),
    }
}

fn check_entry(e: &CoreEntry) -> (r: Vec<QaIssue>)
    ensures
        issue_views(r@) == entry_issues(e@),
{
    let mut out: Vec<QaIssue> = Vec::new();
    if !e.is_translatable {
        proof {
            assert(issue_views(out@) =~= entry_issues(e@));
        }
        return out;
    }
    let original_trim = trim_str(e.original.as_str());
    let translation_trim = trim_str(e.translation.as_str());
    let translation_empty = translation_trim.is_empty();

    if !translation_empty && crate::strutil::str_eq(translation_trim, original_trim) {
        let i = issue(e, "SAME_AS_ORIGINAL", "Tradu\u{e7}\u{e3}o \u{e9} id\u{ea}ntica ao texto original");
        out.push(i);
    }
    if e.prefix.is_none() && e.suffix.is_none() {
        let i = issue(e, "MISSING_CONTEXT", "Linha traduz\u{ed}vel sem prefix/suffix");
        out.push(i);
    }
    if e.speaker.is_some() && original_trim.is_empty() {
        let i = issue(e, "SPEAKER_WITHOUT_TEXT", "Speaker definido mas texto original vazio");
        out.push(i);
    }
    match e.status {
        EntryStatus::Translated | EntryStatus::Reviewed => {
            if translation_empty {
                let i = issue(
                    e,
                    "STATUS_TRANSLATED_BUT_EMPTY",
                    "Status indica traduzido, mas tradu\u{e7}\u{e3}o est\u{e1} vazia",
                );
                out.push(i);
            }
        },
        EntryStatus::InProgress => {
            if translation_empty {
                let i = issue(
                    e,
                    "STATUS_IN_PROGRESS_BUT_EMPTY",
                    "Status IN_PROGRESS, mas tradu\u{e7}\u{e3}o est\u{e1} vazia",
                );
                out.push(i);
            }
        },
        EntryStatus::Untranslated => {},
    }
    proof {
        assert(issue_views(out@) =~= entry_issues(e@));
    }
    out
}

/// Lints the units and returns the findings, in unit order.
pub fn run(entries: &Vec<CoreEntry>) -> (r: Vec<QaIssue>)
    ensures
        issue_views(r@) == qa_spec(entry_views(entries@)),
{
    let n = entries.len();
    let mut out: Vec<QaIssue> = Vec::new();
    proof {
        assert(issue_views(out@) =~= qa_spec(entry_views(entries@).take(0)));
    }
    let mut i: usize = 0;
    while i < n
        invariant
            i <= n,
            n == entries@.len(),
            issue_views(out@) == qa_spec(entry_views(entries@).take(i as int)),
        decreases n - i,
    {
        let mut found = check_entry(&entries[i]);
        let ghost ob = out@;
        let ghost fb = found@;
        out.append(&mut found);
        proof {
            let ev = entry_views(entries@);
            assert(ev.take(i + 1).drop_last() =~= ev.take(i as int));
            assert(ev.take(i + 1).last() == ev[i as int]);
            assert(ev[i as int] == entries@[i as int]@);
            assert(issue_views(out@) =~= issue_views(ob) + issue_views(fb));
        }
        i += 1;
    }
    proof {
        assert(entry_views(entries@).take(n as int) =~= entry_views(entries@));
    }
    out
}

} // verus!
