use emx_note::capsa::{Capsa, CapsaEngine};
use emx_note::{capsa_ref, resolved_from, index_link_targets, ResolvedNote};

#[test]
fn capsa_path_joins_name() {
    let c = Capsa::new("work", "/home/u/.emx-notes");
    assert_eq!(c.name, "work");
    assert_eq!(c.path(), "/home/u/.emx-notes/work");
}

#[test]
fn tag_file_and_name() {
    let engine = CapsaEngine::new(capsa_ref("work", "work", "/notes/work".to_string(), false));
    let tag = engine.tags().get("##research");
    assert_eq!(tag.tag_name(), "research");
    assert_eq!(tag.file(), "/notes/work/#research.md");
    assert_eq!(engine.task_file("TASK.md"), "/notes/work/TASK.md");
}

#[test]
fn tagging_a_note() {
    let engine = CapsaEngine::new(capsa_ref("x", "x", "/n".to_string(), false));
    let tag = engine.tags().get("test");
    let fresh = tag.add_note(None, "Test Note", "note.md", "2024-01-15").unwrap();
    assert_eq!(fresh, "# test\n\n2024-01-15\n- [Test Note](note.md)");
    assert!(tag.add_note(Some(&fresh), "Test Note", "note.md", "2024-01-15").is_none());
    let more = tag.add_note(Some(&fresh), "Other", "other.md", "2024-01-15").unwrap();
    assert_eq!(more, "# test\n\n2024-01-15\n- [Test Note](note.md)\n\n## 2024-01-15\n- [Other](other.md)");
    let dated = tag.add_note(Some(&more), "Third", "third.md", "2024-01-15").unwrap();
    assert!(dated.ends_with("## 2024-01-15\n- [Other](other.md)\n- [Third](third.md)"));
}

#[test]
fn default_capsa_flag() {
    assert!(capsa_ref(".default", "a/.", "/p".to_string(), false).is_default);
    assert!(capsa_ref("x", "a/.", "/p".to_string(), false).is_default);
    assert!(!capsa_ref("x", "a/b", "/p".to_string(), false).is_default);
}

#[test]
fn standup_across_dates_is_ambiguous() {
    let index = "# daily\n- [Standup](#daily/20240114/090000-standup.md)\n- [Standup](#daily/20240115/090000-standup.md)\n";
    let targets = index_link_targets(index, "standup");
    assert_eq!(targets.len(), 2);
    match resolved_from(targets) {
        ResolvedNote::Ambiguous(all) => {
            assert_eq!(all[0], "#daily/20240114/090000-standup.md");
            assert_eq!(all[1], "#daily/20240115/090000-standup.md");
        }
        other => panic!("unexpected {:?}", other),
    }
}
