use subagents::registry::{ScanItem, SubagentRegistry};
use subagents::spec::{AgentSource, SubagentBuilder, SubagentSpec};

fn spec(name: &str, description: &str, source: AgentSource) -> SubagentSpec {
    SubagentBuilder::new(name)
        .description(Some(description.to_string()))
        .instructions("Do the work")
        .source(source)
        .build()
        .unwrap()
}

fn file(registry: &SubagentRegistry, path: &str, source: AgentSource, modified: u64, doc: Result<SubagentSpec, String>) -> ScanItem {
    let needs = registry.needs_load(path, source, Some(modified));
    ScanItem::File {
        path: path.to_string(),
        source,
        modified: Some(modified),
        document: if needs { Some(doc) } else { None },
    }
}

fn scan(registry: &SubagentRegistry) -> Vec<ScanItem> {
    vec![
        file(registry, "/home/u/.codex/agents/inspector.md", AgentSource::User, 1, Ok(spec("inspector", "user copy", AgentSource::User))),
        file(registry, "/home/u/.codex/agents/broken.md", AgentSource::User, 1, Err("no YAML frontmatter block found".to_string())),
        ScanItem::DirError { dir: "/home/u/.codex/agents".to_string(), message: "permission denied".to_string() },
        file(registry, "/p/.codex/agents/inspector.md", AgentSource::Project, 2, Ok(spec("inspector", "project copy", AgentSource::Project))),
        file(registry, "/p/.codex/agents/tester.md", AgentSource::Project, 2, Ok(spec("tester", "tests", AgentSource::Project))),
    ]
}

#[test]
fn project_tier_wins() {
    let mut registry = SubagentRegistry::with_directories("/p/.codex/agents".to_string(), "/home/u/.codex/agents".to_string());
    let s = scan(&registry);
    let report = registry.reload(s);
    assert_eq!(report.loaded, vec!["inspector".to_string(), "tester".to_string()]);
    let record = registry.get("inspector").unwrap();
    assert_eq!(record.source, AgentSource::Project);
    assert_eq!(record.spec.metadata.description.as_deref(), Some("project copy"));
    assert_eq!(registry.list().len(), 2);
    assert!(registry.get("missing").is_none());
}

#[test]
fn second_reload_is_idempotent() {
    let mut registry = SubagentRegistry::with_directories("/p".to_string(), "/u".to_string());
    let s = scan(&registry);
    let first = registry.reload(s);
    assert_eq!(first.errors.len(), 2);
    let s = scan(&registry);
    assert!(s.iter().all(|item| match item {
        ScanItem::File { document, .. } => document.is_none(),
        ScanItem::DirError { .. } => true,
    }));
    let second = registry.reload(s);
    assert!(second.loaded.is_empty());
    assert!(second.removed.is_empty());
    assert_eq!(second.errors, first.errors);
    assert_eq!(registry.last_errors(), &first.errors);
}

#[test]
fn removed_and_changed_files() {
    let mut registry = SubagentRegistry::with_directories("/p".to_string(), "/u".to_string());
    let s = scan(&registry);
    registry.reload(s);
    let changed = vec![file(&registry, "/p/.codex/agents/tester.md", AgentSource::Project, 3, Ok(spec("tester", "new", AgentSource::Project)))];
    let report = registry.reload(changed);
    assert_eq!(report.loaded, vec!["tester".to_string()]);
    assert_eq!(report.removed, vec!["inspector".to_string()]);
    assert!(report.errors.is_empty());
    assert_eq!(registry.get("tester").unwrap().spec.metadata.description.as_deref(), Some("new"));
}

#[test]
fn project_wins_whatever_the_scan_order() {
    let mut registry = SubagentRegistry::with_directories("/p".to_string(), "/u".to_string());
    let items = vec![
        file(&registry, "/p/.codex/agents/helper.md", AgentSource::Project, 2, Ok(spec("helper", "project copy", AgentSource::Project))),
        file(&registry, "/u/.codex/agents/helper.md", AgentSource::User, 1, Ok(spec("helper", "user copy", AgentSource::User))),
    ];
    let report = registry.reload(items);
    assert!(report.errors.is_empty());
    let record = registry.get("helper").unwrap();
    assert_eq!(record.source, AgentSource::Project);
    assert_eq!(record.spec.metadata.description.as_deref(), Some("project copy"));
    assert_eq!(registry.list().len(), 1);
}

#[test]
fn same_directory_for_both_tiers_is_idempotent() {
    let mut registry = SubagentRegistry::with_directories("/d".to_string(), "/d".to_string());
    let scan_both = |r: &SubagentRegistry| {
        vec![
            file(r, "/d/a.md", AgentSource::User, 1, Ok(spec("alpha", "u", AgentSource::User))),
            file(r, "/d/a.md", AgentSource::Project, 1, Ok(spec("alpha", "p", AgentSource::Project))),
        ]
    };
    let s = scan_both(&registry);
    let first = registry.reload(s);
    assert_eq!(first.loaded, vec!["alpha".to_string()]);
    let s = scan_both(&registry);
    let second = registry.reload(s);
    assert!(second.loaded.is_empty());
    assert!(second.removed.is_empty());
    assert_eq!(registry.get("alpha").unwrap().spec.metadata.description.as_deref(), Some("p"));
    assert_eq!(registry.get("alpha").unwrap().spec.instructions, "Do the work");
}
