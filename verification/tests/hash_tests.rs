use std::hash::{DefaultHasher, Hash, Hasher};

use pic::{content_hash_text, content_hash_tokens};

#[test]
fn test_content_hash_text_deterministic() {
    let h1 = content_hash_text("The capital of France is Paris");
    let h2 = content_hash_text("The capital of France is Paris");
    assert_eq!(h1, h2);
}

#[test]
fn test_content_hash_text_differs_for_different_content() {
    let h1 = content_hash_text("Document A");
    let h2 = content_hash_text("Document B");
    assert_ne!(h1, h2);
}

#[test]
fn test_content_hash_text_empty() {
    // Empty string should still produce a valid hash
    let h = content_hash_text("");
    // Just verify it doesn't panic and returns something
    let _ = h;
}

#[test]
fn test_content_hash_tokens_deterministic() {
    let h1 = content_hash_tokens(&[10, 20, 30]);
    let h2 = content_hash_tokens(&[10, 20, 30]);
    assert_eq!(h1, h2);
}

#[test]
fn test_content_hash_tokens_differs_for_different_content() {
    let h1 = content_hash_tokens(&[10, 20, 30]);
    let h2 = content_hash_tokens(&[10, 20, 31]);
    assert_ne!(h1, h2);
}

#[test]
fn test_content_hash_tokens_order_matters() {
    let h1 = content_hash_tokens(&[10, 20]);
    let h2 = content_hash_tokens(&[20, 10]);
    assert_ne!(h1, h2);
}

#[test]
fn hashes_are_those_of_the_default_hasher() {
    let mut hasher = DefaultHasher::new();
    [10u32, 20][..].hash(&mut hasher);
    assert_eq!(content_hash_tokens(&[10, 20]), hasher.finish());

    let mut hasher = DefaultHasher::new();
    "Document A".hash(&mut hasher);
    assert_eq!(content_hash_text("Document A"), hasher.finish());
}

#[test]
fn hash_of_nothing_differs_from_an_unused_hasher() {
    assert_ne!(content_hash_text(""), DefaultHasher::new().finish());
    assert_ne!(content_hash_tokens(&[]), DefaultHasher::new().finish());
}

#[test]
fn hash_of_a_text_is_that_of_its_content() {
    let prompt = String::from("system: Document A");
    assert_eq!(content_hash_text(&prompt[8..]), content_hash_text("Document A"));
}
