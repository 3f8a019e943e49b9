//! The project descriptor: display name, paths, engine and parser selection,
//! language pair, and the per-project prompt preset. The pipeline itself
//! never reads it; it is carried between the dispatch layer and the project
//! utilities.

use vstd::prelude::*;
use vstd::string::StrSliceExecFns;
use vstd::string::StringExecFns;

use crate::strutil::{push_char, str_eq};
use crate::text::{trim_str, trim_ws};

verus! {

/// Metadata of one localization project.
#[derive(Debug, Clone)]
pub struct ProjectInfo {
    pub name: String,
    pub project_path: String,
    pub root_path: String,
    pub engine: String,
    pub encoding: String,
    pub parser_id: String,
    pub source_language: String,
    pub target_language: String,
    /// Prompt preset identifier; a fresh project uses `default`.
    pub ai_prompt_preset: String,
    /// Free prompt text, used only when the preset is `custom`.
    pub ai_custom_prompt_text: String,
}

impl Default for ProjectInfo {
    /// An empty descriptor with the default prompt preset.
    fn default() -> (r: Self)
        ensures
            r.name@.len() == 0,
            r.project_path@.len() == 0,
            r.root_path@.len() == 0,
            r.engine@.len() == 0,
            r.encoding@.len() == 0,
            r.parser_id@.len() == 0,
            r.source_language@.len() == 0,
            r.target_language@.len() == 0,
            r.ai_prompt_preset@ == "default"@,
            r.ai_custom_prompt_text@.len() == 0,
    {
        ProjectInfo {
            name: String::new(),
            project_path: String::new(),
            root_path: String::new(),
            engine: String::new(),
            encoding: String::new(),
            parser_id: String::new(),
            source_language: String::new(),
            target_language: String::new(),
            ai_prompt_preset: String::from_str("default"),
            ai_custom_prompt_text: String::new(),
        }
    }
}

/// A character a project directory name may keep: ASCII letters and digits,
/// space, underscore, hyphen and dot. Anything else becomes an underscore.
pub open spec fn is_safe_dir_char(c: char) -> bool {
    let u = c as u32;
    (0x30 <= u && u <= 0x39) || (0x41 <= u && u <= 0x5a) || (0x61 <= u && u <= 0x7a) || c == ' '
        || c == '_' || c == '-' || c == '.'
}

/// Executable mirror of `is_safe_dir_char`.
pub fn safe_dir_char(c: char) -> (r: bool)
    ensures
        r == is_safe_dir_char(c),
{
    let u = c as u32;
    (0x30 <= u && u <= 0x39) || (0x41 <= u && u <= 0x5a) || (0x61 <= u && u <= 0x7a) || c == ' '
        || c == '_' || c == '-' || c == '.'
}

/// `s` with every unsafe character replaced by an underscore.
pub open spec fn map_safe(s: Seq<char>) -> Seq<char>
    decreases s.len(),
{
    if s.len() == 0 {
        Seq::empty()
    } else {
        map_safe(s.drop_last()).push(
            if is_safe_dir_char(s.last()) {
                s.last()
            } else {
                '_'
            },
        )
    }
}

/// Whether pattern `p` stands in `s` at position `i`.
pub open spec fn occurs_at(s: Seq<char>, p: Seq<char>, i: int) -> bool {
    0 <= i && i + p.len() <= s.len() && s.subrange(i, i + p.len()) == p
}

/// The last position at or below `from` where `p` occurs in `s`, or `-1`.
pub open spec fn last_occ_from(s: Seq<char>, p: Seq<char>, from: int) -> int
    decreases from + 1,
{
    if from < 0 {
        -1int
    } else if occurs_at(s, p, from) {
        from
    } else {
        last_occ_from(s, p, from - 1)
    }
}

/// The last position where `p` occurs in `s`, or `-1`.
pub open spec fn last_occ(s: Seq<char>, p: Seq<char>) -> int {
    last_occ_from(s, p, s.len() - p.len())
}

/// What follows the last occurrence of `p` in `s`; all of `s` when `p` does
/// not occur.
pub open spec fn suffix_after(s: Seq<char>, p: Seq<char>) -> Seq<char> {
    let i = last_occ(s, p);
    if i < 0 {
        s
    } else {
        s.subrange(i + p.len(), s.len() as int)
    }
}

/// A name that arrives as an already-sanitized path keeps only what follows
/// its last projects-directory marker.
pub open spec fn projects_suffix(s: Seq<char>) -> Seq<char> {
    if last_occ(s, "_Projects_"@) >= 0 {
        suffix_after(s, "_Projects_"@)
    } else {
        suffix_after(s, "_projects_"@)
    }
}

/// What remains of `s` after removing trailing dots.
pub open spec fn rtrim_dot(s: Seq<char>) -> Seq<char>
    decreases s.len(),
{
    if s.len() > 0 && s.last() == '.' {
        rtrim_dot(s.drop_last())
    } else {
        s
    }
}

/// What remains of `s` after removing leading dots.
pub open spec fn ltrim_dot(s: Seq<char>) -> Seq<char>
    decreases s.len(),
{
    if s.len() > 0 && s.first() == '.' {
        ltrim_dot(s.drop_first())
    } else {
        s
    }
}

/// `s` without surrounding dots.
pub open spec fn trim_dots(s: Seq<char>) -> Seq<char> {
    ltrim_dot(rtrim_dot(s))
}

/// The safe directory name for a display name: the part after the last
/// projects-directory marker, unsafe characters replaced by underscores,
/// surrounding whitespace and dots removed, and a fixed fallback when nothing
/// remains.
pub open spec fn safe_dir_name(s: Seq<char>) -> Seq<char> {
    let cleaned = trim_dots(trim_ws(map_safe(projects_suffix(s))));
    if cleaned.len() == 0 {
        "Project"@
    } else {
        cleaned
    }
}

proof fn lemma_rtrim_dot_take(s: Seq<char>, e: int)
    requires
        0 <= e <= s.len(),
        forall|j: int| e <= j < s.len() ==> s[j] == '.',
        e > 0 ==> s[e - 1] != '.',
    ensures
        rtrim_dot(s) == s.take(e),
    decreases s.len(),
{
    if s.len() == 0 || e == s.len() {
        assert(s.take(e) =~= s);
    } else {
        assert(s.last() == '.');
        lemma_rtrim_dot_take(s.drop_last(), e);
        assert(s.drop_last().take(e) =~= s.take(e));
    }
}

proof fn lemma_ltrim_dot_sub(s: Seq<char>, k: int)
    requires
        0 <= k <= s.len(),
        forall|j: int| 0 <= j < k ==> s[j] == '.',
        k < s.len() ==> s[k] != '.',
    ensures
        ltrim_dot(s) == s.subrange(k, s.len() as int),
    decreases k,
{
    if k == 0 {
        assert(s.subrange(0, s.len() as int) =~= s);
    } else {
        assert(s.first() == '.');
        let t = s.drop_first();
        lemma_ltrim_dot_sub(t, k - 1);
        assert(t.subrange(k - 1, t.len() as int) =~= s.subrange(k, s.len() as int));
    }
}

/// Finds the last occurrence of `p` in `s`.
fn rfind_marker<'a>(s: &'a str, p: &str) -> (r: Option<usize>)
    requires
        p@.len() >= 1,
    ensures
        match r {
            Some(i) => last_occ(s@, p@) == i && i + p@.len() <= s@.len(),
            None => last_occ(s@, p@) < 0,
        },
{
    let n = s.unicode_len();
    let m = p.unicode_len();
    if m > n {
        proof {
            assert(s@.len() - p@.len() < 0);
        }
        return None;
    }
    let mut j: usize = n - m + 1;
    proof {
        assert(last_occ(s@, p@) == last_occ_from(s@, p@, j - 1));
    }
    while j > 0
        invariant
            j <= n - m + 1,
            n == s@.len(),
            m == p@.len(),
            1 <= m <= n,
            last_occ(s@, p@) == last_occ_from(s@, p@, j - 1),
        decreases j,
    {
        let i = j - 1;
        let cand = s.substring_char(i, i + m);
        if str_eq(cand, p) {
            proof {
                assert(occurs_at(s@, p@, i as int));
            }
            return Some(i);
        }
        proof {
            assert(!occurs_at(s@, p@, i as int));
            assert(last_occ_from(s@, p@, i as int) == last_occ_from(s@, p@, i - 1));
        }
        j -= 1;
    }
    None
}

/// Turns a display name into a safe project directory name: keeps only what
/// follows a projects-directory marker, replaces every character that is not
/// an ASCII letter, digit, space, underscore, hyphen or dot by an underscore,
/// strips surrounding whitespace and dots, and falls back to `Project` when
/// nothing remains. The result is never empty.
pub fn safe_project_dir_name(name: &str) -> (r: String)
    ensures
        r@ == safe_dir_name(name@),
        r@.len() > 0,
{
    proof {
        reveal_strlit("_Projects_");
        reveal_strlit("_projects_");
    }
    let n = name.unicode_len();
    let base: &str = match rfind_marker(name, "_Projects_") {
        Some(i) => name.substring_char(i + "_Projects_".unicode_len(), n),
        None => match rfind_marker(name, "_projects_") {
            Some(i) => name.substring_char(i + "_projects_".unicode_len(), n),
            None => name,
        },
    };
    proof {
        assert(base@ == projects_suffix(name@));
    }

    // replace the unsafe characters
    let bn = base.unicode_len();
    let mut mapped = String::new();
    let mut k: usize = 0;
    while k < bn
        invariant
            k <= bn,
            bn == base@.len(),
            mapped@ == map_safe(base@.take(k as int)),
        decreases bn - k,
    {
        let c = base.get_char(k);
        proof {
            assert(base@.take(k + 1).drop_last() =~= base@.take(k as int));
            assert(base@.take(k + 1).last() == base@[k as int]);
        }
        if safe_dir_char(c) {
            push_char(&mut mapped, c);
        } else {
            push_char(&mut mapped, '_');
        }
        k += 1;
    }
    proof {
        assert(base@.take(bn as int) =~= base@);
    }

    // strip surrounding whitespace, then surrounding dots
    let t = trim_str(mapped.as_str());
    let tn = t.unicode_len();
    let mut start: usize = 0;
    while start < tn && t.get_char(start) == '.'
        invariant
            tn == t@.len(),
            start <= tn,
            forall|j: int| 0 <= j < start ==> t@[j] == '.',
        decreases tn - start,
    {
        start += 1;
    }
    let mut end: usize = tn;
    while end > start && t.get_char(end - 1) == '.'
        invariant
            tn == t@.len(),
            start <= end <= tn,
            forall|j: int| end <= j < tn ==> t@[j] == '.',
            forall|j: int| 0 <= j < start ==> t@[j] == '.',
        decreases end,
    {
        end -= 1;
    }
    let cleaned: &str = if end <= start {
        proof {
            assert(forall|j: int| 0 <= j < t@.len() ==> t@[j] == '.');
            lemma_rtrim_dot_take(t@, 0);
            assert(rtrim_dot(t@) =~= Seq::<char>::empty());
            assert(trim_dots(t@) =~= Seq::<char>::empty());
        }
        t.substring_char(0, 0)
    } else {
        proof {
            assert(t@[end - 1] != '.');
            lemma_rtrim_dot_take(t@, end as int);
            let tt = t@.take(end as int);
            assert(tt[start as int] != '.');
            lemma_ltrim_dot_sub(tt, start as int);
            assert(tt.subrange(start as int, tt.len() as int) =~= t@.subrange(
                start as int,
                end as int,
            ));
        }
        t.substring_char(start, end)
    };
    proof {
        assert(cleaned@ == trim_dots(trim_ws(map_safe(projects_suffix(name@)))));
    }
    if cleaned.is_empty() {
        proof {
            reveal_strlit("Project");
        }
        "Project".to_owned()
    } else {
        cleaned.to_owned()
    }
}

} // verus!
