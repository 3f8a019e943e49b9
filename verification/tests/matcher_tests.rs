use sekai_core::digest::hash_norm;
use sekai_core::matcher::exact_match;
use sekai_core::text::normalize;
use sekai_core::tm::TMEntry;

fn entry(sl: &str, tl: &str, original: &str, translation: &str) -> TMEntry {
    let normalized = normalize(original);
    let hash = hash_norm(&normalized);
    TMEntry {
        source_lang: sl.to_string(),
        target_lang: tl.to_string(),
        original: original.to_string(),
        translation: translation.to_string(),
        normalized,
        hash,
    }
}

#[test]
fn hits_on_the_exact_language_pair_and_text() {
    let store = vec![entry("ja", "en", "Hello", "Ol\u{e1}")];
    let m = exact_match(&store, "ja", "en", "Hello").unwrap();
    assert_eq!(m.translation, "Ol\u{e1}");
}

#[test]
fn hits_across_cosmetic_variants() {
    let store = vec![entry("ja", "en", "Hello  World", "x")];
    assert!(exact_match(&store, "ja", "en", " \u{201c}HELLO world\u{201d} ").is_some());
}

#[test]
fn misses_on_another_language_pair() {
    let store = vec![entry("ja", "en", "Hello", "x")];
    assert!(exact_match(&store, "ja", "pt", "Hello").is_none());
    assert!(exact_match(&store, "en", "en", "Hello").is_none());
}

#[test]
fn misses_on_unknown_text() {
    let store = vec![entry("ja", "en", "Hello", "x")];
    assert!(exact_match(&store, "ja", "en", "Goodbye").is_none());
}

#[test]
fn empty_and_blank_texts_never_match() {
    let store = vec![entry("ja", "en", "Hello", "x")];
    assert!(exact_match(&store, "ja", "en", "").is_none());
    assert!(exact_match(&store, "ja", "en", "   ").is_none());
}

#[test]
fn effectively_empty_normalized_text_never_matches() {
    // an entry whose source normalizes to nothing is unreachable by lookup
    let store = vec![entry("ja", "en", "(((", "x")];
    assert!(exact_match(&store, "ja", "en", "(((").is_none());
}

#[test]
fn stale_normalized_field_is_not_matched() {
    // same key tuple, but a normalized field that no longer matches: the
    // collision defense refuses it
    let mut e = entry("ja", "en", "Hello", "x");
    e.normalized = "something else".to_string();
    let store = vec![e];
    assert!(exact_match(&store, "ja", "en", "Hello").is_none());
}
