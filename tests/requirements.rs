use subagents::requirements::{parse_spec_markdown, SpecMarkdownError, SpecParserSeed};

const SAMPLE: &str = r#"
# Feature Rollout

The product team needs an authenticated export feature.

## Requirements
- [REQ-001] Add export command
  - AC-001: CLI exposes `codex export`
  - AC-002: command requires auth token
  - files: cli/src/commands/export.rs, core/src/export.rs
- [REQ-002] Log export telemetry
  - AC-003: record success and failure events
  - file: core/src/telemetry.rs
"#;

#[test]
fn parses_markdown_into_structured_spec() {
    let seed = SpecParserSeed::new(SAMPLE);
    let spec = parse_spec_markdown(&seed.markdown).unwrap();
    assert_eq!(spec.title, "Feature Rollout");
    assert_eq!(spec.overview, "The product team needs an authenticated export feature.");
    assert_eq!(spec.requirements.len(), 2);
    let first = &spec.requirements[0];
    assert_eq!(first.id, "REQ-001");
    assert_eq!(first.summary, "Add export command");
    assert_eq!(first.acceptance_criteria.len(), 2);
    assert_eq!(first.acceptance_criteria[0].id.as_deref(), Some("AC-001"));
    assert_eq!(first.acceptance_criteria[0].text, "CLI exposes `codex export`");
    assert_eq!(
        first.file_hints,
        vec!["cli/src/commands/export.rs".to_string(), "core/src/export.rs".to_string()]
    );
    let second = &spec.requirements[1];
    assert_eq!(second.acceptance_criteria[0].text, "record success and failure events");
    assert_eq!(second.file_hints, vec!["core/src/telemetry.rs".to_string()]);
}

#[test]
fn rejects_missing_acceptance_criteria() {
    let markdown = "## Requirements\n- [REQ-123] Missing criteria";
    let err = parse_spec_markdown(markdown).unwrap_err();
    assert!(err.message().contains("missing acceptance"));
}

#[test]
fn refusals_name_their_cause() {
    assert_eq!(
        parse_spec_markdown("# Title\nJust prose").unwrap_err(),
        SpecMarkdownError::NoRequirements
    );
    assert_eq!(
        parse_spec_markdown("## Requirements\n- [FEAT-1] x\n  - works").unwrap_err(),
        SpecMarkdownError::IdWithoutPrefix("FEAT-1".to_string())
    );
    assert_eq!(
        parse_spec_markdown("## Requirements\n- [REQ-1A] x\n  - works").unwrap_err().message(),
        "Requirement id REQ-1A must end in digits"
    );
    assert_eq!(
        parse_spec_markdown("## requirements\n- [REQ-1] x\n  - a\n- [REQ-1] y\n  - b").unwrap_err(),
        SpecMarkdownError::DuplicateId("REQ-1".to_string())
    );
}

#[test]
fn defaults_and_plain_criteria() {
    let spec = parse_spec_markdown("## Requirements\r\n- [REQ-7] Thing\r\n  - it works\r\n  - AC-0001\r\n").unwrap();
    assert_eq!(spec.title, "Untitled");
    assert_eq!(spec.overview, "No overview provided");
    let req = &spec.requirements[0];
    assert_eq!(req.acceptance_criteria[0].id, None);
    assert_eq!(req.acceptance_criteria[0].text, "it works");
    assert_eq!(req.acceptance_criteria[1].id.as_deref(), Some("AC-000"));
    assert_eq!(req.acceptance_criteria[1].text, "1");
}
