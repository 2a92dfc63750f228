use emx_note::{
    extract_frontmatter_prefix, extract_references, find_heading_line, get_reference_dest,
    has_reference,
};

#[test]
fn test_extract_references() {
    let content = r#"
# Task File

---
[task-01]: notes/note1.md
[task-02]: notes/note2.md
"#;
    let refs = extract_references(content);
    assert_eq!(refs.len(), 2);
    assert_eq!(refs[0], ("task-01".to_string(), "notes/note1.md".to_string()));
    assert_eq!(refs[1], ("task-02".to_string(), "notes/note2.md".to_string()));
}

#[test]
fn test_has_reference() {
    let content = "[task-01]: notes/note1.md\n";
    assert!(has_reference(content, "task-01"));
    assert!(!has_reference(content, "task-02"));
}

#[test]
fn test_get_reference_dest() {
    let content = "[task-01]: notes/note1.md\n";
    assert_eq!(get_reference_dest(content, "task-01"), Some("notes/note1.md".to_string()));
    assert_eq!(get_reference_dest(content, "task-02"), None);
}

#[test]
fn test_find_heading_line() {
    let content = "# Title\n\n## Section\n\nContent";
    assert_eq!(find_heading_line(content, "Title", Some(1)), Some(0));
    assert_eq!(find_heading_line(content, "Section", Some(2)), Some(2));
    assert_eq!(find_heading_line(content, "Section", Some(1)), None);
}

#[test]
fn test_extract_frontmatter_prefix() {
    let content = "---\nPREFIX: task-\n---\n\nContent";
    assert_eq!(extract_frontmatter_prefix(content), Some("task-".to_string()));
}

#[test]
fn test_extract_frontmatter_prefix_none() {
    let content = "# No frontmatter\n\nContent";
    assert_eq!(extract_frontmatter_prefix(content), None);
}

#[test]
fn duplicate_references_are_all_collected_lookup_takes_first() {
    let content = "[a]: one.md\n[a]: two.md\n[b]:\n";
    let refs = extract_references(content);
    assert_eq!(refs, vec![
        ("a".to_string(), "one.md".to_string()),
        ("a".to_string(), "two.md".to_string()),
    ]);
    assert_eq!(get_reference_dest(content, "A"), Some("one.md".to_string()));
    assert_eq!(get_reference_dest(content, "b"), None);
}

#[test]
fn reference_destination_is_first_word() {
    let content = "  [x]:   target.md \"title\"  \n";
    assert_eq!(get_reference_dest(content, "x"), Some("target.md".to_string()));
}

#[test]
fn heading_without_level() {
    assert_eq!(find_heading_line("text\n### Deep  \n", "Deep", None), Some(1));
}
