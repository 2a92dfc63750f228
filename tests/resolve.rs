use emx_note::{parse_link_content, ResolveContext};

fn test_context(home: &str) -> ResolveContext {
    ResolveContext {
        home: String::from(home),
        global: false,
        agent_name: None,
        default_override: None,
        json: false,
    }
}

#[test]
fn test_agent_namespace() {
    let mut ctx = test_context("/tmp");
    ctx.agent_name = Some("agent1".to_string());
    assert_eq!(ctx.apply_agent_namespace("my-notes"), "agent1/my-notes");

    assert_eq!(ctx.apply_agent_namespace(".default"), "agent1/.");

    let ctx = test_context("/tmp");
    assert_eq!(ctx.apply_agent_namespace("my-notes"), "my-notes");

    let ctx = ResolveContext {
        home: "/tmp".into(),
        global: true,
        agent_name: Some("agent1".to_string()),
        default_override: None,
        json: false,
    };
    assert_eq!(ctx.apply_agent_namespace("my-notes"), "my-notes");

    let mut ctx = test_context("/tmp");
    ctx.agent_name = Some("agent1".to_string());
    assert_eq!(ctx.apply_agent_namespace("@shared/notes"), "@shared/notes");
}

#[test]
fn test_helpers() {
    assert!(ResolveContext::is_hierarchical("agent1/work"));
    assert!(ResolveContext::is_hierarchical("@shared/notes"));
    assert!(!ResolveContext::is_hierarchical("work"));

    assert_eq!(ResolveContext::extract_agent("agent1/work"), Some("agent1"));
    assert_eq!(ResolveContext::extract_agent("@shared/notes"), None);
    assert_eq!(ResolveContext::extract_agent("work"), None);
}

#[test]
fn test_link_parsing() {
    let content = r#"[link]
target = /absolute/path/to/vault"#;
    let target = parse_link_content(content);
    assert_eq!(target, Some("/absolute/path/to/vault".to_string()));

    let content = "invalid content";
    let target = parse_link_content(content);
    assert_eq!(target, None);
}

#[test]
fn default_capsa_name_priority() {
    let ctx = ResolveContext::new("/tmp".to_string(), false, false, None, Some("explicit-default".to_string()));
    assert_eq!(ctx.default_capsa_name(), "explicit-default");
    let ctx = ResolveContext::new("/tmp".to_string(), false, false, Some("my-agent".to_string()), None);
    assert_eq!(ctx.default_capsa_name(), "my-agent/.");
    let ctx = ResolveContext::new("/tmp".to_string(), false, false, Some(String::new()), None);
    assert_eq!(ctx.default_capsa_name(), "@shared/.");
}

#[test]
fn lookup_order_tries_agent_namespace_first() {
    let ctx = ResolveContext::new("/tmp".to_string(), false, false, Some("a1".to_string()), None);
    assert_eq!(ctx.capsa_lookup_order(".default"), vec!["a1/.".to_string(), ".default".to_string()]);
    assert_eq!(ctx.capsa_lookup_order("@shared/x"), vec!["shared/x".to_string()]);
    let g = ResolveContext::new("/tmp".to_string(), true, false, Some("a1".to_string()), None);
    assert_eq!(g.capsa_lookup_order("work"), vec!["work".to_string()]);
}
