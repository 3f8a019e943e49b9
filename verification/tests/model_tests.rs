use sekai_core::command::Command;
use sekai_core::entry::{raw_entry, CoreEntry, EntryStatus};
use sekai_core::project::{safe_project_dir_name, ProjectInfo};
use sekai_core::qa;
use sekai_core::rebuild::rebuild;

fn unit(id: &str, original: &str, translation: &str, status: EntryStatus) -> CoreEntry {
    CoreEntry {
        entry_id: id.to_string(),
        original: original.to_string(),
        translation: translation.to_string(),
        status,
        is_translatable: true,
        line_number: 1,
        raw_line: None,
        prefix: Some("<A>\"".to_string()),
        suffix: Some("\"".to_string()),
        speaker: None,
    }
}

#[test]
fn a_fresh_status_is_untranslated() {
    assert_eq!(EntryStatus::default(), EntryStatus::Untranslated);
}

#[test]
fn raw_entries_preserve_the_line_and_are_structural() {
    let e = raw_entry(17, "  [wait 200]  ");
    assert_eq!(e.entry_id, "17-raw");
    assert!(!e.is_translatable);
    assert_eq!(e.line_number, 17);
    assert_eq!(e.raw_line.as_deref(), Some("  [wait 200]  "));
    assert_eq!(e.original, "");
    assert_eq!(e.translation, "");
    assert_eq!(e.status, EntryStatus::Untranslated);
    assert!(e.prefix.is_none() && e.suffix.is_none() && e.speaker.is_none());
}

#[test]
fn command_names_map_to_their_commands() {
    assert_eq!(Command::from("ping"), Command::Ping);
    assert_eq!(Command::from("parse_text"), Command::ParseText);
    assert_eq!(Command::from("rebuild_text"), Command::RebuildText);
    assert_eq!(Command::from("run_qa"), Command::RunQa);
    assert_eq!(Command::from("detect_encoding"), Command::DetectEncoding);
    assert_eq!(Command::from("translate_entries"), Command::TranslateEntries);
    assert_eq!(Command::from("translate_with_tm"), Command::TranslateWithTm);
    assert_eq!(Command::from("project.list"), Command::ProjectList);
    assert_eq!(Command::from("project.create"), Command::ProjectCreate);
    assert_eq!(Command::from("project.open"), Command::ProjectOpen);
    assert_eq!(Command::from("project.save"), Command::ProjectSave);
    assert_eq!(Command::from("anything else"), Command::Unknown);
    assert_eq!(Command::from(""), Command::Unknown);
}

#[test]
fn safe_dir_names_keep_ordinary_names() {
    assert_eq!(safe_project_dir_name("My Game 01"), "My Game 01");
    assert_eq!(safe_project_dir_name("a_b-c.d"), "a_b-c.d");
}

#[test]
fn safe_dir_names_replace_unsafe_characters() {
    assert_eq!(safe_project_dir_name("weird:name?"), "weird_name_");
    assert_eq!(safe_project_dir_name("caf\u{e9}"), "caf_");
}

#[test]
fn safe_dir_names_take_the_suffix_after_a_projects_marker() {
    assert_eq!(safe_project_dir_name("C__Users_Me_SekaiTranslator_Projects_ATRI"), "ATRI");
    assert_eq!(safe_project_dir_name("x_projects_sub"), "sub");
    assert_eq!(safe_project_dir_name("a_projects_b_Projects_c"), "c");
}

#[test]
fn safe_dir_names_strip_surrounding_whitespace_and_dots() {
    assert_eq!(safe_project_dir_name(" spaced "), "spaced");
    assert_eq!(safe_project_dir_name(" .abc. "), "abc");
}

#[test]
fn empty_names_fall_back_to_a_fixed_directory() {
    assert_eq!(safe_project_dir_name(""), "Project");
    assert_eq!(safe_project_dir_name("..."), "Project");
    assert_eq!(safe_project_dir_name(" . "), "Project");
    assert_eq!(safe_project_dir_name("_Projects_"), "Project");
}

#[test]
fn a_fresh_project_uses_the_default_prompt_preset() {
    let p = ProjectInfo::default();
    assert_eq!(p.ai_prompt_preset, "default");
    assert_eq!(p.name, "");
    assert_eq!(p.ai_custom_prompt_text, "");
}

#[test]
fn qa_flags_translations_equal_to_the_original() {
    let entries = vec![unit("1-text", "Hello", "  Hello ", EntryStatus::Translated)];
    let issues = qa::run(&entries);
    assert_eq!(issues.len(), 1);
    assert_eq!(issues[0].code, "SAME_AS_ORIGINAL");
    assert_eq!(issues[0].entry_id, "1-text");
    assert_eq!(issues[0].message, "Tradução é idêntica ao texto original");
}

#[test]
fn qa_flags_missing_context() {
    let mut e = unit("1-text", "Hello", "Olá", EntryStatus::Translated);
    e.prefix = None;
    e.suffix = None;
    let issues = qa::run(&vec![e]);
    assert_eq!(issues.len(), 1);
    assert_eq!(issues[0].code, "MISSING_CONTEXT");
}

#[test]
fn qa_flags_a_speaker_without_text() {
    let mut e = unit("1-text", "   ", "", EntryStatus::Untranslated);
    e.speaker = Some("Yuki".to_string());
    let issues = qa::run(&vec![e]);
    assert_eq!(issues.len(), 1);
    assert_eq!(issues[0].code, "SPEAKER_WITHOUT_TEXT");
}

#[test]
fn qa_flags_statuses_that_contradict_the_text() {
    let translated = unit("1-text", "Hello", "  ", EntryStatus::Translated);
    let reviewed = unit("2-text", "Hello", "", EntryStatus::Reviewed);
    let in_progress = unit("3-text", "Hello", " ", EntryStatus::InProgress);
    let fine = unit("4-text", "Hello", "Olá", EntryStatus::Translated);
    let issues = qa::run(&vec![translated, reviewed, in_progress, fine]);
    let codes: Vec<&str> = issues.iter().map(|i| i.code.as_str()).collect();
    assert_eq!(
        codes,
        vec![
            "STATUS_TRANSLATED_BUT_EMPTY",
            "STATUS_TRANSLATED_BUT_EMPTY",
            "STATUS_IN_PROGRESS_BUT_EMPTY"
        ]
    );
}

#[test]
fn qa_ignores_structural_units() {
    let e = raw_entry(1, "[cmd]");
    assert!(qa::run(&vec![e]).is_empty());
}

#[test]
fn rebuild_prefers_translations_and_preserves_structure() {
    let mut raw = raw_entry(1, "[bgm play]");
    raw.raw_line = Some("[bgm play]".to_string());
    let translated = unit("2-text", "Hello", "Olá", EntryStatus::Translated);
    let untranslated = unit("3-text", "Goodbye", "  ", EntryStatus::Untranslated);
    let out = rebuild(&vec![raw, translated, untranslated]);
    assert_eq!(out, "[bgm play]\n<A>\"Olá\"\n<A>\"Goodbye\"");
}

#[test]
fn rebuild_of_nothing_is_empty() {
    assert_eq!(rebuild(&Vec::new()), "");
}

#[test]
fn rebuild_emits_an_empty_line_for_a_structural_unit_without_raw_text() {
    let mut e = raw_entry(1, "x");
    e.raw_line = None;
    let out = rebuild(&vec![e, raw_entry(2, "y")]);
    assert_eq!(out, "\ny");
}
