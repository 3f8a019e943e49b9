use sekai_core::digest::hash_norm;
use sekai_core::store::prepare;
use sekai_core::text::normalize;
use sekai_core::tm::{dedup, ensure_norm_hash, pick_better, sort_entries, TMEntry};

fn entry(sl: &str, tl: &str, original: &str, translation: &str) -> TMEntry {
    let normalized = normalize(original);
    let hash = hash_norm(&normalized);
    TMEntry {
        source_lang: sl.to_string(),
        target_lang: tl.to_string(),
        original: original.to_string(),
        translation: translation.to_string(),
        normalized,
        hash,
    }
}

fn bare(sl: &str, tl: &str, original: &str, translation: &str) -> TMEntry {
    TMEntry {
        source_lang: sl.to_string(),
        target_lang: tl.to_string(),
        original: original.to_string(),
        translation: translation.to_string(),
        normalized: String::new(),
        hash: String::new(),
    }
}

#[test]
fn repair_fills_derived_fields_and_is_idempotent() {
    let mut e = bare("ja", "en", "  Hello  ", "Ol\u{e1}");
    let changed = ensure_norm_hash(&mut e);
    assert!(changed);
    assert_eq!(e.normalized, "hello");
    assert_eq!(e.hash, hash_norm("hello"));
    let again = ensure_norm_hash(&mut e);
    assert!(!again);
    assert_eq!(e.normalized, "hello");
    assert_eq!(e.hash, hash_norm("hello"));
}

#[test]
fn pick_better_prefers_non_empty_then_longer() {
    let empty = entry("ja", "en", "a", "   ");
    let short = entry("ja", "en", "a", "hi");
    let long = entry("ja", "en", "a", "hello");
    assert!(pick_better(&empty, &short));
    assert!(!pick_better(&short, &empty));
    assert!(pick_better(&short, &long));
    assert!(!pick_better(&long, &short));
    assert!(!pick_better(&long, &long));
}

#[test]
fn pick_better_compares_encoded_lengths_not_character_counts() {
    // two accented characters encode to four bytes, beating three ASCII ones
    let current = entry("ja", "en", "a", "abc");
    let candidate = entry("ja", "en", "a", "\u{e9}\u{e9}");
    assert!(pick_better(&current, &candidate));
    assert!(!pick_better(&candidate, &current));
}

#[test]
fn dedup_keeps_one_entry_per_key_and_the_preferred_one() {
    let entries = vec![
        entry("ja", "en", "hello", ""),
        entry("ja", "en", "hello", "short"),
        entry("ja", "en", "hello", "longer text"),
        entry("ja", "en", "other", "kept"),
    ];
    let (kept, removed) = dedup(entries);
    assert_eq!(removed, 2);
    assert_eq!(kept.len(), 2);
    let survivor = kept.iter().find(|e| e.original == "hello").unwrap();
    assert_eq!(survivor.translation, "longer text");
    assert!(kept.iter().any(|e| e.original == "other"));
}

#[test]
fn repair_recomputes_stale_fields() {
    let mut e = TMEntry {
        source_lang: "ja".to_string(),
        target_lang: "en".to_string(),
        original: " Hello ".to_string(),
        translation: "Ol\u{e1}".to_string(),
        normalized: "zz".to_string(),
        hash: "deadbeef".to_string(),
    };
    let changed = ensure_norm_hash(&mut e);
    assert!(changed);
    assert_eq!(e.normalized, "hello");
    assert_eq!(e.hash, hash_norm("hello"));
}

#[test]
fn stale_hashes_do_not_split_a_key_group() {
    // same language pair and source text, but one entry carries a stale hash:
    // repair recomputes it, so the two still collide and one survives
    let mut stale = entry("ja", "en", "hello", "longer translation");
    stale.hash = "0000".to_string();
    let fresh = entry("ja", "en", "hello", "short");
    let (kept, removed) = dedup(vec![stale, fresh]);
    assert_eq!(removed, 1);
    assert_eq!(kept.len(), 1);
    assert_eq!(kept[0].translation, "longer translation");
    assert_eq!(kept[0].hash, hash_norm("hello"));
}

#[test]
fn prepare_heals_a_stale_normalized_field() {
    let mut e = entry("ja", "en", " Text ", "t");
    e.normalized = "stale".to_string();
    let (p, changed) = prepare(vec![e]);
    assert!(changed);
    assert_eq!(p.len(), 1);
    assert_eq!(p[0].normalized, "text");
    assert_eq!(p[0].hash, hash_norm("text"));
}

#[test]
fn dedup_repairs_before_grouping() {
    // the two spellings normalize to the same text, so they share a key
    let entries = vec![bare("ja", "en", "  Hello ", "a"), bare("ja", "en", "hello", "bb")];
    let (kept, removed) = dedup(entries);
    assert_eq!(removed, 1);
    assert_eq!(kept.len(), 1);
    assert_eq!(kept[0].translation, "bb");
}

#[test]
fn sort_entries_orders_by_the_canonical_tuple() {
    let mut v = vec![
        entry("ja", "pt", "b", "1"),
        entry("en", "pt", "z", "2"),
        entry("ja", "en", "a", "3"),
    ];
    sort_entries(&mut v);
    assert_eq!(v[0].source_lang, "en");
    assert_eq!(v[1].target_lang, "en");
    assert_eq!(v[2].target_lang, "pt");
}

#[test]
fn prepare_is_a_fixed_point() {
    let v = vec![
        bare("ja", "en", "Hello", "Ol\u{e1}"),
        entry("ja", "en", "hello", ""),
        entry("en", "ja", "bye", "mata"),
    ];
    let (p1, changed1) = prepare(v);
    assert!(changed1);
    let (p2, changed2) = prepare(p1.clone());
    assert!(!changed2);
    assert_eq!(p2, p1);
    let (p3, changed3) = prepare(p2.clone());
    assert!(!changed3);
    assert_eq!(p3, p2);
}

#[test]
fn prepare_reports_unchanged_for_a_clean_store() {
    let v = vec![entry("en", "ja", "bye", "mata")];
    let (p, changed) = prepare(v.clone());
    assert!(!changed);
    assert_eq!(p, v);
}
