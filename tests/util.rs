use emx_note::{abbreviate_hash, display_path, extract_note_title, hash_source, slugify, source_hash_id};

#[test]
fn test_slugify() {
    assert_eq!(slugify("Hello World"), "hello-world");
    assert_eq!(slugify("Test@Note#123"), "test-note-123");
    assert_eq!(slugify("  Multiple   Spaces  "), "multiple-spaces");
}

#[test]
fn slugify_unicode_and_edges() {
    assert_eq!(slugify("ÉTÉ Été"), "été-été");
    assert_eq!(slugify("---"), "");
    assert_eq!(slugify(""), "");
}

#[test]
fn hash_is_sha256_hex() {
    let h = hash_source("abc");
    assert_eq!(h, "ba7816bf8f01cfea414140de5dae2223b00361a396177a9cb410ff61f20015ad");
    assert_eq!(abbreviate_hash(&h), "ba7816bf8f01");
    assert_eq!(abbreviate_hash("abc"), "abc");
    assert_eq!(source_hash_id("abc"), "ba7816bf8f01");
}

#[test]
fn titles_and_paths() {
    assert_eq!(extract_note_title("notes/x.md", "intro\n# # Real Title \nmore"), "Real Title");
    assert_eq!(extract_note_title("notes/fallback.md", "no heading"), "fallback");
    assert_eq!(display_path("a\\b/c"), "a/b/c");
}
