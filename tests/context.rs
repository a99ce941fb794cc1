use subagents::context::{Artifact, ArtifactKind, DiagnosticLevel, TaskContext};
use subagents::pipeline::{ProposedChanges, RequirementsSpec};

#[test]
fn typed_round_trip_and_absent_kinds() {
    let mut ctx = TaskContext::new();
    assert!(ctx.get_typed(ArtifactKind::Changes).is_none());
    let x = Artifact::Requirements(RequirementsSpec::new("Title", "Overview", vec![]));
    ctx.insert_typed(x.clone());
    assert_eq!(ctx.get_typed(ArtifactKind::Requirements), Some(&x));
    assert!(ctx.get_typed(ArtifactKind::Changes).is_none());
    let y = Artifact::Requirements(RequirementsSpec::new("Other", "O", vec![]));
    ctx.insert_typed(y.clone());
    assert_eq!(ctx.get_typed(ArtifactKind::Requirements), Some(&y));
    ctx.insert_typed(Artifact::Changes(ProposedChanges::new("r", vec![])));
    assert_eq!(ctx.take_typed(ArtifactKind::Requirements), Some(y));
    assert!(ctx.get_typed(ArtifactKind::Requirements).is_none());
    assert!(ctx.get_typed(ArtifactKind::Changes).is_some());
    assert_eq!(ArtifactKind::Changes.label(), "ProposedChanges");
}

#[test]
fn scratchpads_and_diagnostics() {
    let mut ctx = TaskContext::new();
    ctx.set_scratchpad("plan".to_string(), "{\"steps\":3}".to_string());
    assert_eq!(ctx.get_scratchpad("plan").map(|s| s.as_str()), Some("{\"steps\":3}"));
    ctx.set_scratchpad("plan".to_string(), "{}".to_string());
    assert_eq!(ctx.get_scratchpad("plan").map(|s| s.as_str()), Some("{}"));
    assert!(ctx.get_scratchpad("other").is_none());
    ctx.push_diagnostic(DiagnosticLevel::Info, "ready", 1);
    ctx.push_diagnostic(DiagnosticLevel::Error, "failed", 2);
    let log = ctx.diagnostics();
    assert_eq!(log.len(), 2);
    assert_eq!(log[1].message, "failed");
    assert_eq!(log[1].level, DiagnosticLevel::Error);
}

#[test]
fn snapshot_and_removal() {
    let mut ctx = TaskContext::new();
    ctx.insert_typed(Artifact::Changes(ProposedChanges::new("r", vec![])));
    ctx.set_scratchpad("notes".to_string(), "\"hi\"".to_string());
    ctx.push_diagnostic(DiagnosticLevel::Info, "ready", 7);
    let snapshot = ctx.snapshot();
    assert_eq!(snapshot.typed_slots, vec!["ProposedChanges".to_string()]);
    assert_eq!(snapshot.scratchpads, vec![("notes".to_string(), "\"hi\"".to_string())]);
    assert_eq!(snapshot.diagnostics.len(), 1);
    assert_eq!(snapshot.diagnostics[0].timestamp, 7);
    assert_eq!(ctx.remove_scratchpad("notes"), Some("\"hi\"".to_string()));
    assert_eq!(ctx.remove_scratchpad("notes"), None);
    assert!(ctx.get_scratchpad("notes").is_none());
}

#[test]
fn stores_and_recovers_typed_slots() {
    let mut ctx = TaskContext::new();
    let seed = Artifact::Seed(subagents::requirements::SpecParserSeed::new("hello"));
    ctx.insert_typed(seed.clone());
    assert_eq!(ctx.get_typed(ArtifactKind::Seed), Some(&seed));
    assert_eq!(ctx.take_typed(ArtifactKind::Seed), Some(seed));
    assert!(ctx.get_typed(ArtifactKind::Seed).is_none());
}

#[test]
fn manages_scratchpads() {
    let mut ctx = TaskContext::new();
    ctx.set_scratchpad("plan".to_string(), "{\"steps\":3}".to_string());
    assert_eq!(ctx.get_scratchpad("plan").map(|s| s.as_str()), Some("{\"steps\":3}"));
    assert_eq!(ctx.remove_scratchpad("plan"), Some("{\"steps\":3}".to_string()));
}

#[test]
fn snapshot_contains_metadata() {
    let mut ctx = TaskContext::new();
    ctx.insert_typed(Artifact::Seed(subagents::requirements::SpecParserSeed::new("data")));
    ctx.set_scratchpad("notes".to_string(), "\"hi\"".to_string());
    ctx.push_diagnostic(DiagnosticLevel::Info, "ready", 0);
    let snapshot = ctx.snapshot();
    assert_eq!(snapshot.typed_slots, vec!["SpecParserSeed".to_string()]);
    assert_eq!(snapshot.scratchpads.len(), 1);
    assert_eq!(snapshot.diagnostics[0].message, "ready");
}
