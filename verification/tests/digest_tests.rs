use sekai_core::digest::{digest_norm_pair, hash_norm};
use sekai_core::text::normalize;

#[test]
fn sha256_of_known_text() {
    assert_eq!(
        hash_norm("abc"),
        "ba7816bf8f01cfea414140de5dae2223b00361a396177a9cb410ff61f20015ad"
    );
}

#[test]
fn sha256_of_empty_text() {
    assert_eq!(
        hash_norm(""),
        "e3b0c44298fc1c149afbf4c8996fb92427ae41e4649b934ca495991b7852b855"
    );
}

#[test]
fn digest_is_64_lowercase_hex_chars() {
    let d = hash_norm("some canonical text");
    assert_eq!(d.len(), 64);
    assert!(d.chars().all(|c| c.is_ascii_hexdigit() && !c.is_ascii_uppercase()));
}

#[test]
fn digest_of_normalized_is_stable_across_calls() {
    let (a, b) = digest_norm_pair("  Some   TEXT to key on  ");
    assert_eq!(a, b);
    assert_eq!(a, hash_norm(&normalize("  Some   TEXT to key on  ")));
}

#[test]
fn cosmetic_variants_share_a_digest() {
    let a = hash_norm(&normalize("\u{201c}Hello  World\u{201d}"));
    let b = hash_norm(&normalize("  hello world "));
    assert_eq!(a, b);
}
