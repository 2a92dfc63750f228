use emx_note::{
    add_task, comment_task, filter_tasks, find_tasks, release_tasks, status_name, take_entry,
    take_task, TaskError, TaskFileReader, TaskStatus,
};

const EMPTY: &str = "---\nPREFIX: TASK-\n---\n\n---\n\n";

fn added() -> String {
    let (id, content) = add_task(EMPTY, "daily/20240115/103000");
    assert_eq!(id, "TASK-01");
    content.unwrap()
}

fn taken() -> String {
    take_task(&added(), "TASK-01", None, Some("Today"), Some("@alice")).unwrap().unwrap()
}

#[test]
fn add_creates_reference() {
    let content = added();
    assert_eq!(content, "---\nPREFIX: TASK-\n---\n\n---\n\n[TASK-01]: daily/20240115/103000\n");
    let (id, again) = add_task(&content, "daily/20240115/103000");
    assert_eq!(id, "TASK-01");
    assert!(again.is_none());
    let (id2, more) = add_task(&content, "note/other");
    assert_eq!(id2, "TASK-02");
    assert!(more.unwrap().ends_with("[TASK-01]: daily/20240115/103000\n[TASK-02]: note/other\n"));
}

#[test]
fn take_with_header_creates_entry() {
    let content = taken();
    assert!(content.contains("## Today\n\n- [ ] [daily/20240115/103000][TASK-01] @alice\n"));
    let reader = TaskFileReader::new(content.clone());
    let task = reader.get_task("TASK-01").unwrap();
    assert_eq!(task.status, TaskStatus::Doing);
    assert_eq!(task.owner, Some("@alice".to_string()));
    assert_eq!(task.title, Some("daily/20240115/103000".to_string()));
}

#[test]
fn take_by_other_agent_conflicts() {
    let err = take_task(&taken(), "TASK-01", None, None, Some("@bob")).unwrap_err();
    match err {
        TaskError::AlreadyTaken { task_id, owner } => {
            assert_eq!(task_id, "TASK-01");
            assert_eq!(owner, "@alice");
        }
        other => panic!("unexpected {:?}", other),
    }
}

#[test]
fn anonymous_take_of_owned_task_changes_nothing() {
    assert!(take_task(&taken(), "TASK-01", None, None, None).unwrap().is_none());
}

#[test]
fn take_preview_and_unknown_task() {
    let entry = take_entry(&added(), "TASK-01", Some("Title"), Some("@alice")).unwrap();
    assert_eq!(entry, "- [ ] [Title][TASK-01] @alice");
    assert!(matches!(take_entry(&added(), "TASK-09", None, None), Err(TaskError::NotFound { .. })));
}

#[test]
fn take_with_missing_header_among_others() {
    let content = "---\nPREFIX: TASK-\n---\n\n## Later\n\n---\n\n[TASK-01]: n\n";
    let err = take_task(content, "TASK-01", None, Some("Today"), Some("@a")).unwrap_err();
    match err {
        TaskError::HeaderNotFound { message } => assert_eq!(message, "Header '## Today' not found"),
        other => panic!("unexpected {:?}", other),
    }
    let ok = take_task(content, "TASK-01", None, Some("Later"), Some("@a")).unwrap().unwrap();
    assert!(ok.contains("## Later\n- [ ] [n][TASK-01] @a\n"));
}

#[test]
fn release_done_strips_owner() {
    let ids = vec!["TASK-01".to_string()];
    let (content, n) = release_tasks(&taken(), &ids, true, false, Some("@alice"), "2024-01-15 10:30").unwrap();
    assert_eq!(n, 1);
    assert!(content.contains("- [x] [daily/20240115/103000][TASK-01]\n"));
    assert!(!content.contains("@alice"));
    let task = TaskFileReader::new(content).get_task("TASK-01").unwrap();
    assert_eq!(task.status, TaskStatus::Done);
    assert_eq!(task.owner, None);
}

#[test]
fn release_twice_is_a_no_op() {
    let ids = vec!["TASK-01".to_string()];
    let (once, n1) = release_tasks(&taken(), &ids, false, false, Some("@alice"), "t").unwrap();
    assert_eq!(n1, 1);
    let (twice, n2) = release_tasks(&once, &ids, false, false, Some("@alice"), "t").unwrap();
    assert_eq!(n2, 0);
    assert_eq!(once, twice);
}

#[test]
fn release_backlog_as_done_anonymously() {
    let ids = vec!["TASK-01".to_string()];
    let (content, n) = release_tasks(&added(), &ids, true, false, None, "2024-01-15 10:30").unwrap();
    assert_eq!(n, 1);
    assert!(content.contains("## Done\n\n- [x] [daily/20240115/103000][TASK-01]\n\n  - 2024-01-15 10:30 Completed by @anonymous\n"));
    let task = TaskFileReader::new(content).get_task("TASK-01").unwrap();
    assert_eq!(task.status, TaskStatus::Done);
    assert_eq!(task.comments, vec!["2024-01-15 10:30 Completed by @anonymous".to_string()]);
}

#[test]
fn release_force_needs_one_task() {
    let ids = vec!["TASK-01".to_string(), "TASK-02".to_string()];
    assert!(matches!(release_tasks(&taken(), &ids, false, true, None, "t"), Err(TaskError::ForceNeedsSingleTask)));
}

#[test]
fn comments_append_after_block() {
    let c1 = comment_task(&taken(), "TASK-01", "first", None, "2024-01-15 10:30").unwrap();
    let c2 = comment_task(&c1, "TASK-01", "second", Some("abc123"), "2024-01-15 10:31").unwrap();
    assert!(c2.contains("@alice\n  - 2024-01-15 10:30 first\n  - 2024-01-15 10:31 second [abc123]\n"));
    let task = TaskFileReader::new(c2).get_task("TASK-01").unwrap();
    assert_eq!(task.comments, vec![
        "2024-01-15 10:30 first".to_string(),
        "2024-01-15 10:31 second [abc123]".to_string(),
    ]);
}

#[test]
fn comment_needs_take_first() {
    assert!(matches!(comment_task(&added(), "TASK-01", "m", None, "t"), Err(TaskError::NotTaken { .. })));
}

#[test]
fn next_task_id_after_existing() {
    let content = "---\nPREFIX: PREFIX-\n---\n\n---\n\n[PREFIX-01]: a\n[PREFIX-02]: b\n";
    assert_eq!(TaskFileReader::parse(content.to_string()).next_task_id(), "PREFIX-03");
    let empty = "---\nPREFIX: PREFIX-\n---\n\n---\n\n";
    assert_eq!(TaskFileReader::parse(empty.to_string()).next_task_id(), "PREFIX-01");
    let big = "[TASK-09]: a\n[TASK-10]: b\n[TASK-x]: c\n";
    assert_eq!(TaskFileReader::new(big.to_string()).next_task_id(), "TASK-11");
}

#[test]
fn listing_filters() {
    let content = taken();
    let (with_two, _) = add_task(&content, "note/second");
    let _ = with_two;
    let (_, c2) = add_task(&content, "note/second");
    let reader = TaskFileReader::new(c2.unwrap());
    let all = reader.all_tasks();
    assert_eq!(all.len(), 2);
    let doing = filter_tasks(all, Some("doing"), None);
    assert_eq!(doing.len(), 1);
    assert_eq!(doing[0].id, "TASK-01");
    let unowned = filter_tasks(reader.all_tasks(), None, Some("(none)"));
    assert_eq!(unowned.len(), 1);
    assert_eq!(unowned[0].id, "TASK-02");
    assert_eq!(status_name(unowned[0].status), "backlog");
    let found = find_tasks(reader.all_tasks(), "20240115");
    assert_eq!(found.len(), 1);
}

#[test]
fn reader_lookups() {
    let reader = TaskFileReader::new(taken());
    assert_eq!(reader.get_prefix(), "TASK-");
    assert_eq!(reader.find_by_node_ref("daily/20240115/103000"), Some("TASK-01".to_string()));
    assert_eq!(reader.get_node_ref("task-01"), Some("daily/20240115/103000".to_string()));
    let (line, text) = reader.find_task_entry_line("TASK-01").unwrap();
    assert_eq!(line, 6);
    assert_eq!(text, "- [ ] [daily/20240115/103000][TASK-01] @alice");
    assert_eq!(reader.find_body_insert_point(Some("Today")), Ok((5, false)));
    assert_eq!(reader.find_reference_append_point(), 11);
}
