use subagents::spec::{
    normalize_unique, validate_agent_name, AgentSource, SubagentBuilder, SubagentMetadata,
    SubagentValidationError,
};

#[test]
fn name_validation_examples() {
    assert!(validate_agent_name("Inspector").is_err());
    assert!(validate_agent_name("re").is_err());
    assert!(validate_agent_name("-rev").is_err());
    let long = "a".repeat(65);
    assert!(validate_agent_name(&long).is_err());
    assert!(validate_agent_name(&"a".repeat(64)).is_ok());
    assert!(validate_agent_name("code-inspector").is_ok());
    assert!(validate_agent_name("a_b-3").is_ok());
    match validate_agent_name("Bad") {
        Err(SubagentValidationError::InvalidName { name, .. }) => assert_eq!(name, "Bad"),
        other => panic!("unexpected {other:?}"),
    }
}

#[test]
fn lists_are_trimmed_or_rejected() {
    let ok = normalize_unique(vec![" a ".to_string(), "b".to_string()], false).unwrap();
    assert_eq!(ok, vec!["a".to_string(), "b".to_string()]);
    assert_eq!(
        normalize_unique(vec!["a".to_string(), " ".to_string()], false),
        Err(SubagentValidationError::EmptyTool)
    );
    assert_eq!(
        normalize_unique(vec!["x".to_string(), "x ".to_string()], true),
        Err(SubagentValidationError::DuplicateKeyword("x".to_string()))
    );
    assert_eq!(
        normalize_unique(vec!["".to_string()], true),
        Err(SubagentValidationError::EmptyKeyword)
    );
}

#[test]
fn builder_builds_valid_spec() {
    let spec = SubagentBuilder::new("inspector")
        .description(Some("Reviews".to_string()))
        .model(Some("gpt-5".to_string()))
        .tools(vec!["read".to_string(), " write ".to_string()])
        .keywords(vec!["review".to_string()])
        .instructions("Review the diff.")
        .source(AgentSource::Project)
        .source_path("/p/.codex/agents/inspector.md")
        .build()
        .unwrap();
    assert_eq!(spec.metadata.name, "inspector");
    assert_eq!(spec.metadata.tools, vec!["read".to_string(), "write".to_string()]);
    assert_eq!(spec.metadata.model.as_deref(), Some("gpt-5"));
    assert_eq!(spec.metadata.model_config.as_ref().unwrap().model.as_deref(), Some("gpt-5"));
    assert_eq!(spec.source, AgentSource::Project);
    assert_eq!(spec.instructions_path().map(|p| p.as_str()), Some("/p/.codex/agents/inspector.md"));
    assert_eq!(spec.hash.len(), 40);
    assert!(spec.hash.chars().all(|c| c.is_ascii_hexdigit()));
}

#[test]
fn identical_specs_hash_identically() {
    let a = SubagentBuilder::new("tester").instructions("Run tests").build().unwrap();
    let b = SubagentBuilder::new("tester")
        .instructions("Run tests")
        .source_path("elsewhere.md")
        .build()
        .unwrap();
    let c = SubagentBuilder::new("tester").instructions("Run tests!").build().unwrap();
    assert_eq!(a.hash, b.hash);
    assert_ne!(a.hash, c.hash);
}

#[test]
fn builder_rejects_invalid_fields() {
    assert!(matches!(
        SubagentBuilder::new("tester").build(),
        Err(SubagentValidationError::MissingField("instructions"))
    ));
    assert!(matches!(
        SubagentBuilder::new("tester").instructions("   ").build(),
        Err(SubagentValidationError::MissingField("instructions"))
    ));
    assert!(matches!(
        SubagentBuilder::new("Tester").instructions("x").build(),
        Err(SubagentValidationError::InvalidName { .. })
    ));
    assert_eq!(
        SubagentBuilder::new("tester")
            .instructions("x")
            .tools(vec!["a".to_string(), "a".to_string()])
            .build()
            .err(),
        Some(SubagentValidationError::DuplicateTool("a".to_string()))
    );
}

#[test]
fn metadata_setters_and_sources() {
    let m = SubagentMetadata::new("n".to_string())
        .description(Some("d".to_string()))
        .model(None)
        .tools(vec!["t".to_string()])
        .keywords(vec![]);
    assert_eq!(m.description.as_deref(), Some("d"));
    assert_eq!(m.tools.len(), 1);
    assert_eq!(AgentSource::Project.describe(), "project");
    assert_eq!(AgentSource::Inline.describe(), "inline");
}

#[test]
fn hash_is_the_sha1_of_the_fields() {
    let spec = SubagentBuilder::new("tester").instructions("Run tests").build().unwrap();
    assert_eq!(spec.hash, "814cd5f23182c93731fb00e0b64bc7d9c8f59cf5");
}
