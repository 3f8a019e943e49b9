//! The normalizer: maps a unit's text to the canonical comparison form used
//! as the translation-memory key. The canonical form is obtained by trimming
//! surrounding whitespace, lowercasing, collapsing every whitespace run to a
//! single ASCII space, and deleting a fixed set of punctuation and quotation
//! code points.

use vstd::prelude::*;
use vstd::string::StrSliceExecFns;

use crate::strutil::push_char;

verus! {

/// True when `c` has the Unicode `White_Space` property, the set that
/// `char::is_whitespace` recognizes.
pub open spec fn is_space_char(c: char) -> bool {
    let u = c as u32;
    (0x9 <= u && u <= 0xd) || u == 0x20 || u == 0x85 || u == 0xa0 || u == 0x1680 || (0x2000 <= u
        && u <= 0x200a) || u == 0x2028 || u == 0x2029 || u == 0x202f || u == 0x205f || u == 0x3000
}

/// Executable mirror of `is_space_char`.
pub fn space_char(c: char) -> (r: bool)
    ensures
        r == is_space_char(c),
{
    let u = c as u32;
    (0x9 <= u && u <= 0xd) || u == 0x20 || u == 0x85 || u == 0xa0 || u == 0x1680 || (0x2000 <= u
        && u <= 0x200a) || u == 0x2028 || u == 0x2029 || u == 0x202f || u == 0x205f || u == 0x3000
}

/// True when `c` is one of the punctuation and quotation code points that
/// normalization deletes: curly and straight double and single quotes, the
/// horizontal ellipsis, and parentheses.
pub open spec fn is_stripped_punct(c: char) -> bool {
    c == '\u{201c}' || c == '\u{201d}' || c == '\u{2019}' || c == '\u{2018}' || c == '\u{2026}'
        || c == '"' || c == '\'' || c == '(' || c == ')'
}

/// Executable mirror of `is_stripped_punct`.
pub fn stripped_punct(c: char) -> (r: bool)
    ensures
        r == is_stripped_punct(c),
{
    c == '\u{201c}' || c == '\u{201d}' || c == '\u{2019}' || c == '\u{2018}' || c == '\u{2026}'
        || c == '"' || c == '\'' || c == '(' || c == ')'
}

/// What remains of `s` after removing trailing whitespace.
pub open spec fn rtrim_ws(s: Seq<char>) -> Seq<char>
    decreases s.len(),
{
    if s.len() > 0 && is_space_char(s.last()) {
        rtrim_ws(s.drop_last())
    } else {
        s
    }
}

/// What remains of `s` after removing leading whitespace.
pub open spec fn ltrim_ws(s: Seq<char>) -> Seq<char>
    decreases s.len(),
{
    if s.len() > 0 && is_space_char(s.first()) {
        ltrim_ws(s.drop_first())
    } else {
        s
    }
}

/// What remains of `s` after removing surrounding whitespace, as `str::trim`
/// removes it.
pub open spec fn trim_ws(s: Seq<char>) -> Seq<char> {
    ltrim_ws(rtrim_ws(s))
}

/// `s` with every whitespace character replaced by an ASCII space.
pub open spec fn mark_ws(s: Seq<char>) -> Seq<char>
    decreases s.len(),
{
    if s.len() == 0 {
        Seq::empty()
    } else {
        mark_ws(s.drop_last()).push(
            if is_space_char(s.last()) {
                ' '
            } else {
                s.last()
            },
        )
    }
}

/// `s` with every run of ASCII spaces shortened to a single space.
pub open spec fn squeeze_sp(s: Seq<char>) -> Seq<char>
    decreases s.len(),
{
    if s.len() == 0 {
        Seq::empty()
    } else {
        let t = squeeze_sp(s.drop_last());
        if s.last() == ' ' && t.len() > 0 && t.last() == ' ' {
            t
        } else {
            t.push(s.last())
        }
    }
}

/// `s` without a single leading and a single trailing ASCII space.
pub open spec fn trim_sp(s: Seq<char>) -> Seq<char> {
    let a = if s.len() > 0 && s.first() == ' ' {
        s.drop_first()
    } else {
        s
    };
    if a.len() > 0 && a.last() == ' ' {
        a.drop_last()
    } else {
        a
    }
}

/// The whitespace-collapsed form of `s`: its whitespace-separated words
/// joined by single ASCII spaces.
pub open spec fn collapse_ws(s: Seq<char>) -> Seq<char> {
    trim_sp(squeeze_sp(mark_ws(s)))
}

/// `s` without the stripped punctuation code points.
pub open spec fn strip_punct(s: Seq<char>) -> Seq<char>
    decreases s.len(),
{
    if s.len() == 0 {
        Seq::empty()
    } else {
        let t = strip_punct(s.drop_last());
        if is_stripped_punct(s.last()) {
            t
        } else {
            t.push(s.last())
        }
    }
}

/// The lowercase form of a character sequence, as `str::to_lowercase`
/// computes it. The result depends on the characters alone.
pub uninterp spec fn lower_of(s: Seq<char>) -> Seq<char>;

/// Relies on `str::to_lowercase`: the returned lowercase equivalent is a
/// function of the input characters alone, and an empty string stays empty.
#[verifier::external_body]
fn lowercase(s: &str) -> (r: String)
    ensures
        r@ == lower_of(s@),
        s@.len() == 0 ==> r@.len() == 0,
{
    s.to_lowercase()
}

/// The canonical comparison form of `s`: trimmed, lowercased, whitespace
/// collapsed, stripped punctuation deleted.
pub open spec fn normalize_spec(s: Seq<char>) -> Seq<char> {
    strip_punct(collapse_ws(lower_of(trim_ws(s))))
}

proof fn lemma_rtrim_take(s: Seq<char>, e: int)
    requires
        0 <= e <= s.len(),
        forall|j: int| e <= j < s.len() ==> is_space_char(s[j]),
        e > 0 ==> !is_space_char(s[e - 1]),
    ensures
        rtrim_ws(s) == s.take(e),
    decreases s.len(),
{
    if s.len() == 0 {
        assert(s.take(e) =~= s);
    } else if e == s.len() {
        assert(s.take(e) =~= s);
    } else {
        assert(is_space_char(s.last()));
        lemma_rtrim_take(s.drop_last(), e);
        assert(s.drop_last().take(e) =~= s.take(e));
    }
}

proof fn lemma_ltrim_sub(s: Seq<char>, k: int)
    requires
        0 <= k <= s.len(),
        forall|j: int| 0 <= j < k ==> is_space_char(s[j]),
        k < s.len() ==> !is_space_char(s[k]),
    ensures
        ltrim_ws(s) == s.subrange(k, s.len() as int),
    decreases k,
{
    if k == 0 {
        if s.len() > 0 && is_space_char(s.first()) {
            assert(false);
        }
        assert(s.subrange(0, s.len() as int) =~= s);
    } else {
        assert(is_space_char(s.first()));
        let t = s.drop_first();
        lemma_ltrim_sub(t, k - 1);
        assert(t.subrange(k - 1, t.len() as int) =~= s.subrange(k, s.len() as int));
    }
}

/// Returns `s` without surrounding whitespace, as `str::trim` would.
pub fn trim_str<'a>(s: &'a str) -> (r: &'a str)
    ensures
        r@ == trim_ws(s@),
{
    let n = s.unicode_len();
    let mut start: usize = 0;
    while start < n && space_char(s.get_char(start))
        invariant
            n == s@.len(),
            start <= n,
            forall|j: int| 0 <= j < start ==> is_space_char(s@[j]),
        decreases n - start,
    {
        start += 1;
    }
    let mut end: usize = n;
    while end > start && space_char(s.get_char(end - 1))
        invariant
            n == s@.len(),
            start <= end <= n,
            forall|j: int| end <= j < n ==> is_space_char(s@[j]),
            forall|j: int| 0 <= j < start ==> is_space_char(s@[j]),
        decreases end,
    {
        end -= 1;
    }
    if end <= start {
        // the whole string is whitespace
        proof {
            assert(forall|j: int| 0 <= j < s@.len() ==> is_space_char(s@[j]));
            lemma_rtrim_take(s@, 0);
            assert(rtrim_ws(s@) =~= Seq::<char>::empty());
            assert(trim_ws(s@) =~= Seq::<char>::empty());
        }
        let r = s.substring_char(0, 0);
        proof {
            assert(r@ =~= trim_ws(s@));
        }
        r
    } else {
        proof {
            assert(!is_space_char(s@[end - 1]));
            lemma_rtrim_take(s@, end as int);
            let t = s@.take(end as int);
            assert(!is_space_char(t[start as int]));
            lemma_ltrim_sub(t, start as int);
            assert(t.subrange(start as int, t.len() as int) =~= s@.subrange(
                start as int,
                end as int,
            ));
        }
        s.substring_char(start, end)
    }
}

/// A string in canonical whitespace form: every whitespace character in it is
/// an ASCII space, no space starts or ends it, and no two spaces are
/// adjacent.
pub open spec fn ws_canonical(s: Seq<char>) -> bool {
    (forall|i: int| 0 <= i < s.len() && is_space_char(#[trigger] s[i]) ==> s[i] == ' ') && (s.len()
        > 0 ==> s[0] != ' ' && s.last() != ' ') && (forall|i: int|
        0 <= i < s.len() - 1 ==> !(#[trigger] s[i] == ' ' && s[i + 1] == ' '))
}

/// Checks whether `s` is in canonical whitespace form.
pub fn ws_canonical_check(s: &str) -> (r: bool)
    ensures
        r == ws_canonical(s@),
{
    let n = s.unicode_len();
    if n == 0 {
        return true;
    }
    if s.get_char(0) == ' ' || s.get_char(n - 1) == ' ' {
        return false;
    }
    let mut i: usize = 0;
    while i < n
        invariant
            n == s@.len(),
            0 < n,
            i <= n,
            s@[0] != ' ',
            s@[n - 1] != ' ',
            forall|j: int| 0 <= j < i && is_space_char(#[trigger] s@[j]) ==> s@[j] == ' ',
            forall|j: int| 0 <= j < i - 1 ==> !(#[trigger] s@[j] == ' ' && s@[j + 1] == ' '),
        decreases n - i,
    {
        let c = s.get_char(i);
        if space_char(c) && c != ' ' {
            return false;
        }
        if i > 0 && c == ' ' && s.get_char(i - 1) == ' ' {
            return false;
        }
        i += 1;
    }
    true
}

/// No character of `strip_punct(s)` is a stripped punctuation code point.
pub proof fn lemma_strip_punct_free(s: Seq<char>)
    ensures
        forall|i: int|
            0 <= i < strip_punct(s).len() ==> !is_stripped_punct(#[trigger] strip_punct(s)[i]),
    decreases s.len(),
{
    if s.len() > 0 {
        lemma_strip_punct_free(s.drop_last());
        let t = strip_punct(s.drop_last());
        assert forall|i: int|
            0 <= i < strip_punct(s).len() implies !is_stripped_punct(
            #[trigger] strip_punct(s)[i],
        ) by {
            if !is_stripped_punct(s.last()) {
                assert(strip_punct(s) == t.push(s.last()));
                if i < t.len() {
                    assert(strip_punct(s)[i] == t[i]);
                } else {
                    assert(strip_punct(s)[i] == s.last());
                }
            }
        }
    }
}

/// Stripping punctuation from a punctuation-free string leaves it unchanged.
pub proof fn lemma_strip_id(s: Seq<char>)
    requires
        forall|i: int| 0 <= i < s.len() ==> !is_stripped_punct(#[trigger] s[i]),
    ensures
        strip_punct(s) == s,
    decreases s.len(),
{
    if s.len() > 0 {
        lemma_strip_id(s.drop_last());
        assert(!is_stripped_punct(s.last()));
        assert(s.drop_last().push(s.last()) =~= s);
    }
}

/// Replacing whitespace by spaces leaves a string unchanged when its only
/// whitespace characters are already spaces.
proof fn lemma_mark_id(s: Seq<char>)
    requires
        forall|i: int| 0 <= i < s.len() && is_space_char(#[trigger] s[i]) ==> s[i] == ' ',
    ensures
        mark_ws(s) == s,
    decreases s.len(),
{
    if s.len() > 0 {
        lemma_mark_id(s.drop_last());
        if is_space_char(s.last()) {
            assert(s.last() == ' ');
        }
        assert(s.drop_last().push(s.last()) =~= s);
    }
}

/// Shortening space runs leaves a string without adjacent spaces unchanged.
proof fn lemma_squeeze_id(s: Seq<char>)
    requires
        forall|i: int| 0 <= i < s.len() - 1 ==> !(#[trigger] s[i] == ' ' && s[i + 1] == ' '),
    ensures
        squeeze_sp(s) == s,
    decreases s.len(),
{
    if s.len() > 0 {
        let t = s.drop_last();
        lemma_squeeze_id(t);
        if s.last() == ' ' && t.len() > 0 && t.last() == ' ' {
            assert(s[s.len() - 2] == ' ' && s[s.len() - 1] == ' ');
            assert(false);
        }
        assert(t.push(s.last()) =~= s);
    }
}

/// Collapsing whitespace leaves a string in canonical whitespace form
/// unchanged.
pub proof fn lemma_collapse_id(s: Seq<char>)
    requires
        ws_canonical(s),
    ensures
        collapse_ws(s) == s,
{
    lemma_mark_id(s);
    lemma_squeeze_id(s);
    if s.len() > 0 {
        assert(s.first() != ' ');
    }
}

/// Trimming leaves a string in canonical whitespace form unchanged.
pub proof fn lemma_trim_id(s: Seq<char>)
    requires
        ws_canonical(s),
    ensures
        trim_ws(s) == s,
{
    if s.len() > 0 {
        assert(!is_space_char(s.last()));
        assert(!is_space_char(s.first()));
    }
    assert(rtrim_ws(s) == s);
    assert(ltrim_ws(s) == s);
}

/// Normalization is idempotent on every input whose canonical form is stable
/// under lowercasing and is in canonical whitespace form. (Deleting a
/// punctuation-only word can leave two adjacent spaces behind, so the
/// whitespace condition does not hold of every input.)
pub proof fn lemma_normalize_idempotent(x: Seq<char>)
    requires
        ws_canonical(normalize_spec(x)),
        lower_of(normalize_spec(x)) == normalize_spec(x),
    ensures
        normalize_spec(normalize_spec(x)) == normalize_spec(x),
{
    let y = normalize_spec(x);
    lemma_trim_id(y);
    lemma_collapse_id(y);
    lemma_strip_punct_free(collapse_ws(lower_of(trim_ws(x))));
    lemma_strip_id(y);
}

/// Computes the canonical form of `text` and certifies that normalizing it
/// again would give the same string back, or returns `None` when it cannot
/// certify that (a canonical form that is not whitespace-canonical or not
/// fixed under lowercasing).
pub fn normalize_stable(text: &str) -> (r: Option<String>)
    ensures
        match r {
            Some(y) => y@ == normalize_spec(text@) && normalize_spec(y@) == y@,
            None => !(ws_canonical(normalize_spec(text@)) && lower_of(normalize_spec(text@))
                == normalize_spec(text@)),
        },
{
    let y = normalize(text);
    let ly = lowercase(y.as_str());
    if ws_canonical_check(y.as_str()) && str_eq_strings(&ly, &y) {
        proof {
            lemma_normalize_idempotent(text@);
        }
        Some(y)
    } else {
        None
    }
}

fn str_eq_strings(a: &String, b: &String) -> (r: bool)
    ensures
        r == (a@ == b@),
{
    crate::strutil::str_eq(a.as_str(), b.as_str())
}

/// Computes the canonical comparison form of `text`. Normalizing a string
/// whose trimmed form is empty yields the empty string.
pub fn normalize(text: &str) -> (r: String)
    ensures
        r@ == normalize_spec(text@),
        trim_ws(text@).len() == 0 ==> r@.len() == 0,
{
    let t = trim_str(text);
    let low = lowercase(t);
    let n = low.as_str().unicode_len();

    // replace each whitespace character by a space and shorten space runs
    let mut sq = String::new();
    let mut last_space = false;
    let mut i: usize = 0;
    while i < n
        invariant
            n == low@.len(),
            i <= n,
            sq@ == squeeze_sp(mark_ws(low@.take(i as int))),
            last_space == (sq@.len() > 0 && sq@.last() == ' '),
        decreases n - i,
    {
        let c = low.as_str().get_char(i);
        let c2 = if space_char(c) {
            ' '
        } else {
            c
        };
        proof {
            assert(low@.take(i + 1).drop_last() =~= low@.take(i as int));
            assert(low@.take(i + 1).last() == low@[i as int]);
            let mk = mark_ws(low@.take(i + 1));
            assert(mk == mark_ws(low@.take(i as int)).push(c2));
            assert(mk.drop_last() =~= mark_ws(low@.take(i as int)));
            assert(mk.last() == c2);
        }
        if c2 == ' ' && last_space {
            // space run continues: emit nothing
        } else {
            push_char(&mut sq, c2);
            last_space = c2 == ' ';
        }
        i += 1;
    }
    proof {
        assert(low@.take(n as int) =~= low@);
    }

    // remove the single leading and trailing space the collapse may leave
    let m = sq.as_str().unicode_len();
    let lead: usize = if m > 0 && sq.as_str().get_char(0) == ' ' {
        1
    } else {
        0
    };
    let end: usize = if m > lead && sq.as_str().get_char(m - 1) == ' ' {
        m - 1
    } else {
        m
    };
    let core = sq.as_str().substring_char(lead, end);
    proof {
        let sv = sq@;
        let a = if sv.len() > 0 && sv.first() == ' ' {
            sv.drop_first()
        } else {
            sv
        };
        if lead == 1 {
            assert(a =~= sv.subrange(1, sv.len() as int));
        }
        if a.len() > 0 && a.last() == ' ' {
            assert(trim_sp(sv) =~= sv.subrange(lead as int, end as int));
        } else {
            assert(trim_sp(sv) =~= sv.subrange(lead as int, end as int));
        }
        assert(core@ == trim_sp(sq@));
    }

    // delete the stripped punctuation
    let k = core.unicode_len();
    let mut out = String::new();
    let mut j: usize = 0;
    while j < k
        invariant
            k == core@.len(),
            j <= k,
            out@ == strip_punct(core@.take(j as int)),
        decreases k - j,
    {
        let c = core.get_char(j);
        proof {
            assert(core@.take(j + 1).drop_last() =~= core@.take(j as int));
            assert(core@.take(j + 1).last() == core@[j as int]);
        }
        if !stripped_punct(c) {
            push_char(&mut out, c);
        }
        j += 1;
    }
    proof {
        assert(core@.take(k as int) =~= core@);
        assert(out@ == normalize_spec(text@));
        if trim_ws(text@).len() == 0 {
            assert(low@.len() == 0);
            assert(mark_ws(low@) =~= Seq::<char>::empty());
            assert(out@.len() == 0);
        }
    }
    out
}

} // verus!
