//! The translation unit: the atomic record passed through the whole
//! pipeline. A unit is either translatable text or a structural line that is
//! preserved verbatim; the positional fields only carry reconstruction data
//! and are never interpreted here.

use vstd::prelude::*;

verus! {

/// Translation state of a unit. The status is informational: whether a unit
/// has a translation is decided by its translated text being non-empty after
/// trimming, never by the status alone.
#[derive(Debug, Clone, Copy, PartialEq, Eq, Structural)]
pub enum EntryStatus {
    Untranslated,
    InProgress,
    Translated,
    Reviewed,
}

impl Default for EntryStatus {
    /// A fresh unit starts untranslated.
    fn default() -> (r: Self)
        ensures
            r == EntryStatus::Untranslated,
    {
        EntryStatus::Untranslated
    }
}

/// One translatable or structural fragment extracted from a script line.
#[derive(Debug, Clone)]
pub struct CoreEntry {
    /// Stable identifier, unique within one parse/rebuild cycle.
    pub entry_id: String,
    /// The source text of the unit.
    pub original: String,
    /// The translated text; starts empty.
    pub translation: String,
    /// Advisory translation state.
    pub status: EntryStatus,
    /// Structural lines are passed through the pipeline untouched.
    pub is_translatable: bool,
    /// One-based line number in the source script.
    pub line_number: usize,
    /// The verbatim line, for structural units.
    pub raw_line: Option<String>,
    /// Text standing before the translatable fragment on its line.
    pub prefix: Option<String>,
    /// Text standing after the translatable fragment on its line.
    pub suffix: Option<String>,
    /// Optional attribution, used only to enrich translation requests.
    pub speaker: Option<String>,
}

/// The view of an optional string.
pub open spec fn opt_view(o: Option<String>) -> Option<Seq<char>> {
    match o {
        Some(s) => Some(s@),
        None => None,
    }
}

/// The mathematical value of a translation unit.
#[verifier::ext_equal]
pub struct EntryV {
    pub entry_id: Seq<char>,
    pub original: Seq<char>,
    pub translation: Seq<char>,
    pub status: EntryStatus,
    pub is_translatable: bool,
    pub line_number: nat,
    pub raw_line: Option<Seq<char>>,
    pub prefix: Option<Seq<char>>,
    pub suffix: Option<Seq<char>>,
    pub speaker: Option<Seq<char>>,
}

impl View for CoreEntry {
    type V = EntryV;

    open spec fn view(&self) -> EntryV {
        EntryV {
            entry_id: self.entry_id@,
            original: self.original@,
            translation: self.translation@,
            status: self.status,
            is_translatable: self.is_translatable,
            line_number: self.line_number as nat,
            raw_line: opt_view(self.raw_line),
            prefix: opt_view(self.prefix),
            suffix: opt_view(self.suffix),
            speaker: opt_view(self.speaker),
        }
    }
}

/// The views of a sequence of units.
pub open spec fn entry_views(s: Seq<CoreEntry>) -> Seq<EntryV> {
    s.map_values(|e: CoreEntry| e@)
}

/// Copies an optional string.
pub fn clone_opt_string(o: &Option<String>) -> (r: Option<String>)
    ensures
        opt_view(r) == opt_view(*o),
{
    match o {
        Some(s) => Some(s.clone()),
        None => None,
    }
}

/// Copies a unit field by field.
pub fn clone_core(e: &CoreEntry) -> (r: CoreEntry)
    ensures
        r@ == e@,
{
    CoreEntry {
        entry_id: e.entry_id.clone(),
        original: e.original.clone(),
        translation: e.translation.clone(),
        status: e.status,
        is_translatable: e.is_translatable,
        line_number: e.line_number,
        raw_line: clone_opt_string(&e.raw_line),
        prefix: clone_opt_string(&e.prefix),
        suffix: clone_opt_string(&e.suffix),
        speaker: clone_opt_string(&e.speaker),
    }
}

/// The identifier of the structural unit standing for line `line_number`.
pub open spec fn raw_entry_id(line_number: nat) -> Seq<char> {
    crate::strutil::dec_of(line_number) + "-raw"@
}

/// Builds the structural unit that preserves the verbatim `line` at
/// `line_number`: not translatable, untranslated, with no positional or
/// attribution fields.
pub fn raw_entry(line_number: usize, line: &str) -> (r: CoreEntry)
    ensures
        r@.entry_id == raw_entry_id(line_number as nat),
        r@.original.len() == 0,
        r@.translation.len() == 0,
        r@.status == EntryStatus::Untranslated,
        !r@.is_translatable,
        r@.line_number == line_number as nat,
        r@.raw_line == Some(line@),
        r@.prefix is None,
        r@.suffix is None,
        r@.speaker is None,
{
    let mut id = crate::strutil::u64_to_dec(line_number as u64);
    crate::strutil::push_char(&mut id, '-');
    crate::strutil::push_char(&mut id, 'r');
    crate::strutil::push_char(&mut id, 'a');
    crate::strutil::push_char(&mut id, 'w');
    proof {
        reveal_strlit("-raw");
        assert(id@ =~= raw_entry_id(line_number as nat));
    }
    CoreEntry {
        entry_id: id,
        original: String::new(),
        translation: String::new(),
        status: EntryStatus::Untranslated,
        is_translatable: false,
        line_number,
        raw_line: Some(line.to_owned()),
        prefix: None,
        suffix: None,
        speaker: None,
    }
}

} // verus!
