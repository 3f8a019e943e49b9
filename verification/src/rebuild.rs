//! Script reassembly: turns resolved units back into the original script
//! layout. Structural units reproduce their verbatim line; translatable
//! units emit prefix, translated text (or the original, when no usable
//! translation exists) and suffix. Lines are joined with a line feed.

use vstd::prelude::*;
use vstd::string::StringExecFns;

use crate::entry::{entry_views, CoreEntry, EntryV};
use crate::text::{trim_str, trim_ws};

verus! {

/// The line a unit contributes to the rebuilt script.
pub open spec fn line_spec(v: EntryV) -> Seq<char> {
    if !v.is_translatable {
        match v.raw_line {
            Some(r) => r,
            None => Seq::empty(),
        }
    } else {
        (match v.prefix {
            Some(p) => p,
            None => Seq::empty(),
        }) + (if trim_ws(v.translation).len() > 0 {
            v.translation
        } else {
            v.original
        }) + (match v.suffix {
            Some(s) => s,
            None => Seq::empty(),
        })
    }
}

/// The rebuilt script: each unit's line, joined with a line feed.
pub open spec fn rebuild_spec(s: Seq<EntryV>) -> Seq<char>
    decreases s.len(),
{
    if s.len() == 0 {
        Seq::empty()
    } else if s.len() == 1 {
        line_spec(s[0])
    } else {
        rebuild_spec(s.drop_last()) + seq!['\n'] + line_spec(s.last())
    }
}

fn append_line(out: &mut String, e: &CoreEntry)
    ensures
        final(out)@ == old(out)@ + line_spec(e@),
{
    if !e.is_translatable {
        match &e.raw_line {
            Some(r) => {
                out.append(r.as_str());
            },
            None => {},
        }
    } else {
        match &e.prefix {
            Some(p) => {
                out.append(p.as_str());
            },
            None => {},
        }
        let translation_empty = trim_str(e.translation.as_str()).is_empty();
        if !translation_empty {
            out.append(e.translation.as_str());
        } else {
            out.append(e.original.as_str());
        }
        match &e.suffix {
            Some(s) => {
                out.append(s.as_str());
            },
            None => {},
        }
    }
    proof {
        assert(out@ =~= old(out)@ + line_spec(e@));
    }
}

/// Rebuilds the script text from the units, preserving structural lines
/// verbatim and falling back to the original text where no usable
/// translation exists.
pub fn rebuild(entries: &Vec<CoreEntry>) -> (r: String)
    ensures
        r@ == rebuild_spec(entry_views(entries@)),
{
    let n = entries.len();
    let mut out = String::new();
    proof {
        assert(out@ =~= rebuild_spec(entry_views(entries@).take(0)));
    }
    let mut i: usize = 0;
    while i < n
        invariant
            i <= n,
            n == entries@.len(),
            out@ == rebuild_spec(entry_views(entries@).take(i as int)),
        decreases n - i,
    {
        proof {
            let ev = entry_views(entries@);
            assert(ev.take(i + 1).drop_last() =~= ev.take(i as int));
            assert(ev.take(i + 1).last() == ev[i as int]);
            assert(ev[i as int] == entries@[i as int]@);
        }
        if i > 0 {
            crate::strutil::push_char(&mut out, '\n');
        }
        append_line(&mut out, &entries[i]);
        proof {
            assert(out@ =~= rebuild_spec(entry_views(entries@).take(i + 1)));
        }
        i += 1;
    }
    proof {
        assert(entry_views(entries@).take(n as int) =~= entry_views(entries@));
    }
    out
}

} // verus!
