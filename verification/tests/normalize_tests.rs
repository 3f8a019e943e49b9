use sekai_core::text::{normalize, normalize_stable, stripped_punct, trim_str, ws_canonical_check};

#[test]
fn trims_lowercases_and_collapses() {
    assert_eq!(normalize("  Hello   WORLD  "), "hello world");
}

#[test]
fn strips_quotes_parentheses_and_ellipsis() {
    assert_eq!(normalize("\u{201c}Hello\u{201d} (world)\u{2026}"), "hello world");
    assert_eq!(normalize("\"don't\" say 'hi'"), "dont say hi");
}

#[test]
fn collapses_unicode_whitespace_to_ascii_space() {
    assert_eq!(normalize("a\u{3000}b\tc\nd"), "a b c d");
}

#[test]
fn whitespace_only_and_punctuation_only_normalize_to_empty() {
    assert_eq!(normalize("   \t  "), "");
    assert_eq!(normalize("\u{201c}\u{201d}\u{2026}''\"\"()"), "");
}

#[test]
fn ascii_dots_are_kept() {
    assert_eq!(normalize("wait..."), "wait...");
}

#[test]
fn idempotent_on_ordinary_text() {
    let inputs = ["  MiXeD   Case  ", "\u{201c}Quote\u{201d} me", "hello", ""];
    for x in inputs {
        let y = normalize(x);
        assert_eq!(normalize(&y), y);
    }
}

#[test]
fn deleting_a_punctuation_word_leaves_two_spaces() {
    // deleting the parenthesis word leaves adjacent spaces, so a second
    // normalization is not a fixed point on this input
    let y = normalize("a ( b");
    assert_eq!(y, "a  b");
    assert_eq!(normalize(&y), "a b");
}

#[test]
fn normalize_stable_certifies_ordinary_text() {
    let r = normalize_stable("  Hello   WORLD  ");
    assert_eq!(r.as_deref(), Some("hello world"));
}

#[test]
fn normalize_stable_rejects_unstable_input() {
    assert!(normalize_stable("a ( b").is_none());
}

#[test]
fn trim_str_matches_std_trim() {
    for s in ["  a b  ", "\u{3000}x\u{3000}", "none", "", "   "] {
        assert_eq!(trim_str(s), s.trim());
    }
}

#[test]
fn ws_canonical_check_cases() {
    assert!(ws_canonical_check("a b c"));
    assert!(ws_canonical_check(""));
    assert!(!ws_canonical_check(" a"));
    assert!(!ws_canonical_check("a "));
    assert!(!ws_canonical_check("a  b"));
    assert!(!ws_canonical_check("a\tb"));
}

#[test]
fn stripped_punct_matches_the_fixed_set() {
    for c in ['\u{201c}', '\u{201d}', '\u{2019}', '\u{2018}', '\u{2026}', '"', '\'', '(', ')'] {
        assert!(stripped_punct(c));
    }
    for c in ['a', '.', ',', '[', ']', ' '] {
        assert!(!stripped_punct(c));
    }
}

#[test]
fn lowercase_is_unicode_wide() {
    assert_eq!(normalize("\u{c9}T\u{c9}"), "\u{e9}t\u{e9}");
}
