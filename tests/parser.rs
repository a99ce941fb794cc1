use subagents::agent::{clean_list, AgentSpec, AgentSpecError};
use subagents::parser::{
    normalize_optional_string, parse_agent_fields, parse_model_config, split_frontmatter,
    Frontmatter, FrontmatterModelConfig, ParserError,
};
use subagents::spec::{AgentSource, SubagentValidationError};

fn front(name: Option<&str>) -> Frontmatter {
    Frontmatter {
        name: name.map(|n| n.to_string()),
        description: Some("Review diffs".to_string()),
        model: None,
        model_config: None,
        tools: Some(vec!["apply_patch".to_string()]),
        keywords: None,
    }
}

#[test]
fn splits_frontmatter_and_body() {
    let (fm, body) = split_frontmatter("---\nname: a\n---\nBody text here.").unwrap();
    assert_eq!(fm, "name: a");
    assert_eq!(body, "Body text here.");
    let (fm, body) = split_frontmatter("\u{feff}---\r\nname: b\r\n---\r\nBody").unwrap();
    assert_eq!(fm, "name: b");
    assert_eq!(body, "Body");
    let (fm, body) = split_frontmatter("---\nname: c---").unwrap();
    assert_eq!(fm, "name: c");
    assert_eq!(body, "");
    assert_eq!(split_frontmatter("name: x"), Err(ParserError::MissingFrontmatter));
    assert_eq!(split_frontmatter("---name"), Err(ParserError::MissingFrontmatter));
    assert_eq!(split_frontmatter("---\nname: d"), Err(ParserError::MissingFrontmatter));
}

#[test]
fn parses_fields_into_definition() {
    let parsed = parse_agent_fields(front(Some("helper")), "\n  Body text here.  \n", "helper.md", AgentSource::Project).unwrap();
    assert_eq!(parsed.spec.metadata.name, "helper");
    assert_eq!(parsed.spec.instructions, "Body text here.");
    assert_eq!(parsed.spec.metadata.tools, vec!["apply_patch".to_string()]);
    assert_eq!(parsed.spec.source_path.as_deref(), Some("helper.md"));
    assert!(parsed.warnings.is_empty());
}

#[test]
fn rejects_missing_name_and_body() {
    assert_eq!(
        parse_agent_fields(front(None), "body", "x.md", AgentSource::User).err(),
        Some(ParserError::Validation(SubagentValidationError::MissingField("name")))
    );
    assert_eq!(
        parse_agent_fields(front(Some("helper")), "  \n ", "x.md", AgentSource::User).err(),
        Some(ParserError::Validation(SubagentValidationError::MissingField("instructions")))
    );
    assert!(matches!(
        parse_agent_fields(front(Some("Helper")), "b", "x.md", AgentSource::User),
        Err(ParserError::Validation(SubagentValidationError::InvalidName { .. }))
    ));
}

#[test]
fn lists_are_cleaned_when_parsing() {
    let mut f = front(Some("helper"));
    f.tools = Some(vec![" a ".to_string(), "a".to_string(), "".to_string(), "b".to_string()]);
    let parsed = parse_agent_fields(f, "b", "x.md", AgentSource::User).unwrap();
    assert_eq!(parsed.spec.metadata.tools, vec!["a".to_string(), "b".to_string()]);
    let mut g = front(Some("helper"));
    g.keywords = Some(vec!["  ".to_string()]);
    assert_eq!(
        parse_agent_fields(g, "b", "x.md", AgentSource::User).err(),
        Some(ParserError::Validation(SubagentValidationError::EmptyKeyword))
    );
}

#[test]
fn model_configs_are_checked() {
    let cfg = FrontmatterModelConfig {
        provider: Some(" openai ".to_string()),
        model: None,
        endpoint: Some("https://proxy.mycompany.dev/v1".to_string()),
        parameters: vec![(" temperature ".to_string(), "0.1".to_string())],
    };
    let binding = parse_model_config(&cfg, &Some("gpt-4o".to_string())).unwrap();
    assert_eq!(binding.provider_id.as_deref(), Some("openai"));
    assert_eq!(binding.model.as_deref(), Some("gpt-4o"));
    assert_eq!(binding.parameters[0].0, "temperature");
    let conflicting = FrontmatterModelConfig { provider: None, model: Some("gpt-4o".to_string()), endpoint: None, parameters: vec![] };
    assert!(matches!(
        parse_model_config(&conflicting, &Some("gpt-4".to_string())),
        Err(SubagentValidationError::ConflictingModelDefinitions { .. })
    ));
    let empty_provider = FrontmatterModelConfig { provider: Some("   ".to_string()), model: None, endpoint: None, parameters: vec![] };
    assert_eq!(parse_model_config(&empty_provider, &None).err(), Some(SubagentValidationError::InvalidModelProvider));
    assert_eq!(normalize_optional_string(Some("  ".to_string())), None);
    assert_eq!(normalize_optional_string(Some(" m ".to_string())), Some("m".to_string()));
}

#[test]
fn agent_specs_validate_and_render() {
    let mut a = AgentSpec::new("code-helper", "Do things");
    a.description = Some("Helps".to_string());
    a.tools = clean_list(vec!["read".to_string(), " read".to_string(), "write".to_string()]);
    assert_eq!(a.validate(), Ok(()));
    assert_eq!(a.name(), "code-helper");
    assert_eq!(a.tools(), &vec!["read".to_string(), "write".to_string()]);
    assert_eq!(
        a.to_markdown(),
        "---\nname: code-helper\ndescription: Helps\ntools:\n  - read\n  - write\n---\n\nDo things"
    );
    assert_eq!(AgentSpec::new("", "x").validate(), Err(AgentSpecError::EmptyName));
    assert_eq!(AgentSpec::new("a b", "x").validate(), Err(AgentSpecError::InvalidName));
    assert_eq!(AgentSpec::new("Inspector", "x").validate(), Err(AgentSpecError::InvalidName));
    assert_eq!(AgentSpec::new("re", "x").validate(), Err(AgentSpecError::InvalidName));
    assert_eq!(AgentSpec::new("abc", "  ").validate(), Err(AgentSpecError::EmptyInstructions));
    assert_eq!(AgentSpecError::EmptyName.message(), "Agent name cannot be empty");
}

#[test]
fn valid_documents_parse_with_their_model() {
    let mut f = front(Some("helper"));
    f.tools = Some(vec!["  read ".to_string(), "".to_string(), "read".to_string(), "write".to_string()]);
    f.keywords = Some(vec!["docs".to_string(), " docs".to_string()]);
    f.model = Some(" gpt-5 ".to_string());
    f.model_config = Some(FrontmatterModelConfig { provider: Some("openai".to_string()), model: None, endpoint: None, parameters: vec![] });
    let parsed = parse_agent_fields(f, "Body", "h.md", AgentSource::Project).unwrap();
    assert_eq!(parsed.spec.metadata.tools, vec!["read".to_string(), "write".to_string()]);
    assert_eq!(parsed.spec.metadata.keywords, vec!["docs".to_string()]);
    assert_eq!(parsed.spec.metadata.model.as_deref(), Some("gpt-5"));
    let binding = parsed.spec.metadata.model_config.unwrap();
    assert_eq!(binding.model.as_deref(), Some("gpt-5"));
    assert_eq!(binding.provider_id.as_deref(), Some("openai"));
}

#[test]
fn parameter_keys_are_merged_after_trimming() {
    let cfg = FrontmatterModelConfig {
        provider: None,
        model: None,
        endpoint: None,
        parameters: vec![
            ("temperature".to_string(), "0.1".to_string()),
            ("top_p".to_string(), "1".to_string()),
            (" temperature ".to_string(), "0.7".to_string()),
        ],
    };
    let binding = parse_model_config(&cfg, &None).unwrap();
    assert_eq!(
        binding.parameters,
        vec![
            ("temperature".to_string(), "0.7".to_string()),
            ("top_p".to_string(), "1".to_string()),
        ]
    );
}
