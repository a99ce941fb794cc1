use subagents::prompts::{
    replace_text, SpecParserPromptTemplate, SpecParserRequest, SpecParserSubagent, TestGenerator,
    TesterSubagent,
};
use subagents::spec::SubagentBuilder;

#[test]
fn test_prompt_template_rendering() {
    let template = SpecParserPromptTemplate::default();
    let request = SpecParserRequest {
        requirements_text: "Build a login system".to_string(),
        codebase_context: Some("Existing auth module".to_string()),
        related_files: vec!["src/auth.rs".to_string()],
        metadata: vec![],
    };

    let prompt = template.render(&request);
    assert!(prompt.contains("Build a login system"));
    assert!(prompt.contains("Existing auth module"));
    assert!(prompt.contains("src/auth.rs"));
}

#[test]
fn render_fills_placeholders_exactly() {
    let template = SpecParserPromptTemplate {
        system_prompt: "SYS".to_string(),
        user_prompt_template: "[{requirements_text}|{codebase_context}|{related_files}]".to_string(),
        output_schema: "SCHEMA".to_string(),
    };
    let request = SpecParserRequest {
        requirements_text: "R".to_string(),
        codebase_context: None,
        related_files: vec!["a.rs".to_string(), "b.rs".to_string()],
        metadata: vec![],
    };
    assert_eq!(
        template.render(&request),
        "SYS\n\nSCHEMA\n\n[R|No additional context provided|a.rs, b.rs]\n\nPlease provide your response in the specified JSON format."
    );
}

#[test]
fn replace_text_replaces_every_occurrence() {
    assert_eq!(replace_text("a-b-c", "-", "+"), "a+b+c");
    assert_eq!(replace_text("aaa", "aa", "b"), "ba");
    assert_eq!(replace_text("abc", "", "x"), "abc");
}

#[test]
fn test_test_command_generation() {
    let generator = TestGenerator::new();

    let cmd = generator.generate_test_command("src/lib.rs");
    assert_eq!(cmd, Some("cargo test".to_string()));

    let cmd = generator.generate_test_command("src/index.js");
    assert_eq!(cmd, Some("npm test".to_string()));
}

#[test]
fn test_commands_for_other_files() {
    let g = TestGenerator::new();
    assert_eq!(g.generate_test_command("a/b.py"), Some("python -m pytest".to_string()));
    assert_eq!(g.generate_test_command("main.go"), Some("go test".to_string()));
    assert_eq!(g.generate_test_command("x.ts"), Some("npm test".to_string()));
    assert_eq!(
        g.generate_test_command("README.md"),
        Some("echo 'No test command available'".to_string())
    );
    assert_eq!(g.generate_test_command("Makefile"), None);
    assert_eq!(g.generate_test_command("dir.d/.bashrc"), None);
}

#[test]
fn test_tester_creation() {
    let spec = SubagentBuilder::new("tester").instructions("Run the tests").build().unwrap();
    let tester = TesterSubagent::new(spec);
    assert_eq!(tester.name(), "tester");
    let parser_spec = SubagentBuilder::new("spec-parser").instructions("Parse").build().unwrap();
    let parser = SpecParserSubagent::new(parser_spec);
    assert!(parser.prompt_template.user_prompt_template.contains("{requirements_text}"));
}

#[test]
fn custom_template_is_kept() {
    let spec = SubagentBuilder::new("spec-parser").instructions("Parse").build().unwrap();
    let template = SpecParserPromptTemplate {
        system_prompt: "S".to_string(),
        user_prompt_template: "{requirements_text}".to_string(),
        output_schema: "O".to_string(),
    };
    let parser = SpecParserSubagent::with_template(spec, template);
    assert_eq!(parser.prompt_template.user_prompt_template, "{requirements_text}");
}
