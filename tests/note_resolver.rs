use emx_note::{
    extract_time_prefix, find_by_prefix, index_link_targets, parse_full_timestamp,
    parse_time_only, plan_resolution, resolve_in_date_dir, validate_date, validate_time,
    NoteSearch, ResolvedNote,
};

#[test]
fn test_parse_full_timestamp() {
    assert_eq!(
        parse_full_timestamp("20260212143022"),
        Some(("20260212".to_string(), "143022".to_string()))
    );
    assert_eq!(parse_full_timestamp("20260212"), None);
    assert_eq!(parse_full_timestamp("invalid"), None);
}

#[test]
fn test_parse_time_only() {
    assert_eq!(parse_time_only("143022"), Some("143022".to_string()));
    assert_eq!(parse_time_only("25"), None);
    assert_eq!(parse_time_only("invalid"), None);
}

#[test]
fn test_validate_date() {
    assert!(validate_date("20260212"));
    assert!(validate_date("20260228"));
    assert!(!validate_date("20261301"));
    assert!(!validate_date("20260001"));
    assert!(!validate_date("20260100"));
    assert!(!validate_date("20260132"));
}

#[test]
fn test_validate_time() {
    assert!(validate_time("143022"));
    assert!(!validate_time("250000"));
    assert!(!validate_time("236000"));
}

fn strings(v: &[&str]) -> Vec<String> {
    v.iter().map(|s| s.to_string()).collect()
}

#[test]
fn time_prefix_resolves_in_today_directory() {
    match plan_resolution("143022", "20240115") {
        NoteSearch::InDateDir { date, prefix } => {
            assert_eq!(date, "20240115");
            assert_eq!(prefix, "143022");
        }
        other => panic!("unexpected {:?}", other),
    }
    let names = strings(&["143022-standup.md", "091500-review.md"]);
    let exts = strings(&[".md"]);
    match resolve_in_date_dir(&names, "143022", &exts) {
        ResolvedNote::Found(name) => assert_eq!(name, "143022-standup.md"),
        other => panic!("unexpected {:?}", other),
    }
}

#[test]
fn reference_forms_are_told_apart() {
    match plan_resolution("20240115/Stand Up", "20990101") {
        NoteSearch::InDateDir { date, prefix } => {
            assert_eq!(date, "20240115");
            assert_eq!(prefix, "stand-up");
        }
        other => panic!("unexpected {:?}", other),
    }
    match plan_resolution("20240115103000", "20990101") {
        NoteSearch::InDateDir { date, prefix } => {
            assert_eq!(date, "20240115");
            assert_eq!(prefix, "103000");
        }
        other => panic!("unexpected {:?}", other),
    }
    match plan_resolution("  My Note ", "20990101") {
        NoteSearch::ByTitle { slug } => assert_eq!(slug, "my-note"),
        other => panic!("unexpected {:?}", other),
    }
    match plan_resolution("1234567", "20990101") {
        NoteSearch::ByTitle { slug } => assert_eq!(slug, "1234567"),
        other => panic!("unexpected {:?}", other),
    }
}

#[test]
fn two_matches_are_ambiguous() {
    let names = strings(&["standup-monday.md", "notes.md", "standup-tuesday.md"]);
    let exts = strings(&[".md"]);
    match find_by_prefix(&names, "standup", &exts, false) {
        ResolvedNote::Ambiguous(all) => {
            assert_eq!(all, strings(&["standup-monday.md", "standup-tuesday.md"]))
        }
        other => panic!("unexpected {:?}", other),
    }
    match find_by_prefix(&names, "nothing", &exts, false) {
        ResolvedNote::NotFound => {}
        other => panic!("unexpected {:?}", other),
    }
}

#[test]
fn daily_title_matches_after_time() {
    let names = strings(&["222714-some-new-test.md", "101010.md"]);
    let exts = strings(&[".md"]);
    match find_by_prefix(&names, "some", &exts, true) {
        ResolvedNote::Found(n) => assert_eq!(n, "222714-some-new-test.md"),
        other => panic!("unexpected {:?}", other),
    }
    match resolve_in_date_dir(&names, "222714-s", &exts) {
        ResolvedNote::Found(n) => assert_eq!(n, "222714-some-new-test.md"),
        other => panic!("unexpected {:?}", other),
    }
    match resolve_in_date_dir(&names, "some", &exts) {
        ResolvedNote::Found(n) => assert_eq!(n, "222714-some-new-test.md"),
        other => panic!("unexpected {:?}", other),
    }
}

#[test]
fn index_file_links_mentioning_slug() {
    let content = "# tag\n- [Standup notes](note/standup.md)\n- [Other](note/other.md)\n";
    assert_eq!(index_link_targets(content, "standup"), vec!["note/standup.md".to_string()]);
    assert!(index_link_targets(content, "missing").is_empty());
}

#[test]
fn time_prefix_limits() {
    assert_eq!(extract_time_prefix("1430ab"), Some("1430".to_string()));
    assert_eq!(extract_time_prefix("1234567"), None);
    assert_eq!(extract_time_prefix("abc"), None);
}
