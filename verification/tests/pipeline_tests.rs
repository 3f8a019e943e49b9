use sekai_core::ai::{AttemptOutcome, StepAction, UnitAttempt};
use sekai_core::digest::hash_norm;
use sekai_core::entry::{CoreEntry, EntryStatus};
use sekai_core::matcher::exact_match;
use sekai_core::pipeline::{apply_live_results, match_units, UnitResult};
use sekai_core::store::prepare;
use sekai_core::text::normalize;
use sekai_core::tm::TMEntry;

fn unit(id: &str, original: &str, translatable: bool) -> CoreEntry {
    CoreEntry {
        entry_id: id.to_string(),
        original: original.to_string(),
        translation: String::new(),
        status: EntryStatus::Untranslated,
        is_translatable: translatable,
        line_number: 1,
        raw_line: None,
        prefix: Some("<A>\"".to_string()),
        suffix: Some("\"".to_string()),
        speaker: Some("A".to_string()),
    }
}

#[test]
fn hello_is_queued_translated_live_and_committed_to_the_store() {
    // empty store: the unit misses and is queued
    let mut entries = vec![unit("1-text", "Hello", true)];
    let mut tm: Vec<TMEntry> = Vec::new();
    let (used_tm, queue) = match_units(&mut entries, &tm, "ja", "en");
    assert_eq!(used_tm, 0);
    assert_eq!(queue, vec![0]);
    assert_eq!(entries[0].status, EntryStatus::Untranslated);

    // the client succeeds with a translation
    let mut m = UnitAttempt::new();
    let body = "{\"choices\":[{\"message\":{\"content\":\"Ol\u{e1}\"}}]}".to_string();
    let text = match m.step(AttemptOutcome::Response(200, body)) {
        StepAction::Done(t) => t,
        _ => panic!("expected success"),
    };
    let results = vec![UnitResult { ok: true, text }];

    let used_ai = apply_live_results(&mut entries, &queue, &results, &mut tm, "ja", "en");
    assert_eq!(used_ai, 1);
    assert_eq!(entries[0].translation, "Ol\u{e1}");
    assert_eq!(entries[0].status, EntryStatus::Translated);

    // the store grew by one entry keyed by the digest of the canonical text
    assert_eq!(tm.len(), 1);
    assert_eq!(tm[0].source_lang, "ja");
    assert_eq!(tm[0].target_lang, "en");
    assert_eq!(tm[0].original, "Hello");
    assert_eq!(tm[0].translation, "Ol\u{e1}");
    assert_eq!(tm[0].hash, hash_norm(&normalize("Hello")));
}

#[test]
fn a_prior_success_resolves_from_the_store_without_the_client() {
    // first run commits "Hello" -> "Olá"
    let mut entries = vec![unit("1-text", "Hello", true)];
    let mut tm: Vec<TMEntry> = Vec::new();
    let (_, queue) = match_units(&mut entries, &tm, "ja", "en");
    let results = vec![UnitResult { ok: true, text: "Ol\u{e1}".to_string() }];
    apply_live_results(&mut entries, &queue, &results, &mut tm, "ja", "en");
    let (stored, _) = prepare(tm);

    // a fresh load sees the same translation through exact_match
    let hit = exact_match(&stored, "ja", "en", "Hello").expect("round trip");
    assert_eq!(hit.translation, "Ol\u{e1}");

    // a second run over the same text is a pure cache hit: nothing is queued
    let mut entries2 = vec![unit("1-text", "Hello", true)];
    let (used_tm, queue2) = match_units(&mut entries2, &stored, "ja", "en");
    assert_eq!(used_tm, 1);
    assert!(queue2.is_empty());
    assert_eq!(entries2[0].translation, "Ol\u{e1}");
    assert_eq!(entries2[0].status, EntryStatus::Translated);
}

#[test]
fn a_failed_attempt_never_downgrades_an_existing_translation() {
    let mut e = unit("1-text", "Hello", true);
    e.translation = "kept from an earlier session".to_string();
    e.status = EntryStatus::Translated;
    let mut entries = vec![e];
    let mut tm: Vec<TMEntry> = Vec::new();
    let queue = vec![0usize];
    let results = vec![UnitResult { ok: false, text: String::new() }];
    let used_ai = apply_live_results(&mut entries, &queue, &results, &mut tm, "ja", "en");
    assert_eq!(used_ai, 0);
    assert_eq!(entries[0].translation, "kept from an earlier session");
    assert_eq!(entries[0].status, EntryStatus::InProgress);
    assert!(tm.is_empty());
}

#[test]
fn a_failed_attempt_on_an_empty_unit_marks_it_untranslated() {
    let mut entries = vec![unit("1-text", "Hello", true)];
    entries[0].status = EntryStatus::InProgress;
    let mut tm: Vec<TMEntry> = Vec::new();
    let queue = vec![0usize];
    let results = vec![UnitResult { ok: false, text: String::new() }];
    apply_live_results(&mut entries, &queue, &results, &mut tm, "ja", "en");
    assert_eq!(entries[0].status, EntryStatus::Untranslated);
    assert_eq!(entries[0].translation, "");
    assert!(tm.is_empty());
}

#[test]
fn a_blank_success_is_treated_as_a_failure() {
    let mut entries = vec![unit("1-text", "Hello", true)];
    let mut tm: Vec<TMEntry> = Vec::new();
    let queue = vec![0usize];
    let results = vec![UnitResult { ok: true, text: "   ".to_string() }];
    let used_ai = apply_live_results(&mut entries, &queue, &results, &mut tm, "ja", "en");
    assert_eq!(used_ai, 0);
    assert_eq!(entries[0].translation, "");
    assert_eq!(entries[0].status, EntryStatus::Untranslated);
    assert!(tm.is_empty());
}

#[test]
fn structural_units_pass_through_untouched() {
    let mut raw = unit("1-raw", "", false);
    raw.raw_line = Some("[command]".to_string());
    raw.prefix = None;
    raw.suffix = None;
    raw.speaker = None;
    let before = raw.clone();
    let mut entries = vec![raw, unit("2-text", "Hello", true)];
    let mut tm: Vec<TMEntry> = Vec::new();
    let (used_tm, queue) = match_units(&mut entries, &tm, "ja", "en");
    assert_eq!(used_tm, 0);
    assert_eq!(queue, vec![1]);
    let results = vec![UnitResult { ok: true, text: "Ol\u{e1}".to_string() }];
    apply_live_results(&mut entries, &queue, &results, &mut tm, "ja", "en");

    let after = &entries[0];
    assert_eq!(after.entry_id, before.entry_id);
    assert_eq!(after.original, before.original);
    assert_eq!(after.translation, before.translation);
    assert_eq!(after.status, before.status);
    assert_eq!(after.is_translatable, before.is_translatable);
    assert_eq!(after.line_number, before.line_number);
    assert_eq!(after.raw_line, before.raw_line);
    assert_eq!(after.prefix, before.prefix);
    assert_eq!(after.suffix, before.suffix);
    assert_eq!(after.speaker, before.speaker);
    // and it was never written to the store
    assert_eq!(tm.len(), 1);
    assert_eq!(tm[0].original, "Hello");
}

#[test]
fn cache_hits_and_misses_partition_the_translatable_units() {
    let stored = {
        let normalized = normalize("known");
        let hash = hash_norm(&normalized);
        vec![TMEntry {
            source_lang: "ja".to_string(),
            target_lang: "en".to_string(),
            original: "known".to_string(),
            translation: "bekannt".to_string(),
            normalized,
            hash,
        }]
    };
    let mut entries = vec![
        unit("1-text", "known", true),
        unit("2-text", "new one", true),
        unit("3-raw", "", false),
        unit("4-text", "KNOWN", true),
    ];
    let (used_tm, queue) = match_units(&mut entries, &stored, "ja", "en");
    assert_eq!(used_tm, 2);
    assert_eq!(queue, vec![1]);
    assert_eq!(entries[0].translation, "bekannt");
    assert_eq!(entries[3].translation, "bekannt");
    assert_eq!(entries[1].translation, "");
}
