//! The command vocabulary of the request dispatch layer: each request names
//! one of these operations; an unknown name maps to `Unknown` rather than
//! failing.

use vstd::prelude::*;

verus! {

/// One dispatchable operation.
#[derive(Debug, Clone, Copy, PartialEq, Eq, Structural)]
pub enum Command {
    Ping,
    ParseText,
    RebuildText,
    RunQa,
    DetectEncoding,
    TranslateEntries,
    TranslateWithTm,
    ProjectList,
    ProjectCreate,
    ProjectOpen,
    ProjectSave,
    Unknown,
}

/// The command a request name selects.
pub open spec fn command_of(s: Seq<char>) -> Command {
    if s == "ping"@ {
        Command::Ping
    } else if s == "parse_text"@ {
        Command::ParseText
    } else if s == "rebuild_text"@ {
        Command::RebuildText
    } else if s == "run_qa"@ {
        Command::RunQa
    } else if s == "detect_encoding"@ {
        Command::DetectEncoding
    } else if s == "translate_entries"@ {
        Command::TranslateEntries
    } else if s == "translate_with_tm"@ {
        Command::TranslateWithTm
    } else if s == "project.list"@ {
        Command::ProjectList
    } else if s == "project.create"@ {
        Command::ProjectCreate
    } else if s == "project.open"@ {
        Command::ProjectOpen
    } else if s == "project.save"@ {
        Command::ProjectSave
    } else {
        Command::Unknown
    }
}

impl From<&str> for Command {
    /// Maps a request name to its command; anything unrecognized is
    /// `Unknown`.
    fn from(s: &str) -> (r: Self) {
        if crate::strutil::str_eq(s, "ping") {
            Command::Ping
        } else if crate::strutil::str_eq(s, "parse_text") {
            Command::ParseText
        } else if crate::strutil::str_eq(s, "rebuild_text") {
            Command::RebuildText
        } else if crate::strutil::str_eq(s, "run_qa") {
            Command::RunQa
        } else if crate::strutil::str_eq(s, "detect_encoding") {
            Command::DetectEncoding
        } else if crate::strutil::str_eq(s, "translate_entries") {
            Command::TranslateEntries
        } else if crate::strutil::str_eq(s, "translate_with_tm") {
            Command::TranslateWithTm
        } else if crate::strutil::str_eq(s, "project.list") {
            Command::ProjectList
        } else if crate::strutil::str_eq(s, "project.create") {
            Command::ProjectCreate
        } else if crate::strutil::str_eq(s, "project.open") {
            Command::ProjectOpen
        } else if crate::strutil::str_eq(s, "project.save") {
            Command::ProjectSave
        } else {
            Command::Unknown
        }
    }
}

impl vstd::std_specs::convert::FromSpecImpl<&str> for Command {
    open spec fn obeys_from_spec() -> bool {
        true
    }

    open spec fn from_spec(s: &str) -> Command {
        command_of(s@)
    }
}

} // verus!
