use subagents::router::{RouteCandidate, RouteIntent, SubagentRouter};

fn candidates() -> Vec<RouteCandidate> {
    vec![
        RouteCandidate {
            name: "spec-parser".to_string(),
            keywords: vec![
                "requirements".to_string(),
                "spec parser".to_string(),
                "acceptance criteria".to_string(),
            ],
        },
        RouteCandidate {
            name: "tester".to_string(),
            keywords: vec!["tests".to_string(), "verification".to_string(), "pass/fail".to_string()],
        },
        RouteCandidate {
            name: "inspector".to_string(),
            keywords: vec!["review".to_string(), "lint".to_string(), "security".to_string()],
        },
    ]
}

fn intent(text: &str, explicit: Option<&str>, auto_route: bool) -> RouteIntent {
    RouteIntent {
        text: text.to_string(),
        explicit_agent: explicit.map(|s| s.to_string()),
        auto_route,
        candidates: candidates(),
    }
}

fn router() -> SubagentRouter {
    SubagentRouter::new()
}

#[test]
fn explicit_agent_from_intent() {
    let result = router().route(&intent("run whatever", Some("tester"), true));
    assert_eq!(result.agent_name.as_deref(), Some("tester"));
    assert_eq!(result.reason.as_deref(), Some("selected explicitly ('tester')"));
}

#[test]
fn explicit_agent_via_slash_command() {
    let result = router().route(&intent("/use spec-parser please", None, true));
    assert_eq!(result.agent_name.as_deref(), Some("spec-parser"));
    assert_eq!(result.reason.as_deref(), Some("requested via `/use spec-parser`"));
}

#[test]
fn slash_command_missing_name() {
    let result = router().route(&intent("  /use   ", None, true));
    assert_eq!(result.agent_name, None);
    assert_eq!(result.reason.as_deref(), Some("Provide an agent name after `/use`."));
}

#[test]
fn slash_command_unknown_agent() {
    let result = router().route(&intent("/use summarizer", None, true));
    assert_eq!(result.agent_name, None);
    assert_eq!(result.reason.as_deref(), Some("Unknown subagent 'summarizer'."));
}

#[test]
fn auto_route_by_keyword() {
    let result = router().route(&intent("Please parse the requirements spec for me.", None, true));
    assert_eq!(result.agent_name.as_deref(), Some("spec-parser"));
    assert_eq!(result.reason.as_deref(), Some("matched keyword 'requirements'"));
}

#[test]
fn auto_route_disabled_returns_none() {
    let result = router().route(&intent("tester please run", None, false));
    assert_eq!(result.agent_name, None);
    assert_eq!(result.reason.as_deref(), Some("Auto-routing disabled."));
}

#[test]
fn auto_route_ambiguous_keywords() {
    let result = router().route(&intent("We need tests and a review.", None, true));
    assert_eq!(result.agent_name, None);
    assert_eq!(
        result.reason.as_deref(),
        Some("Multiple agents matched: tester, inspector"),
    );
}

#[test]
fn auto_route_by_name_tokens() {
    let result = router().route(&intent("Spec parser should handle this", None, true));
    assert_eq!(result.agent_name.as_deref(), Some("spec-parser"));
    let reason = result.reason.expect("reason present");
    assert!(reason.contains("matched agent name 'spec-parser'"));
}

#[test]
fn tie_lists_both_names_and_keyword_match_names_keyword() {
    let ambiguous = router().route(&intent("We need tests and a review", None, true));
    assert_eq!(ambiguous.agent_name, None);
    assert_eq!(
        ambiguous.reason.as_deref(),
        Some("Multiple agents matched: tester, inspector")
    );
    let matched = router().route(&intent("Please parse the requirements spec", None, true));
    assert_eq!(matched.agent_name.as_deref(), Some("spec-parser"));
    assert!(matched.reason.unwrap().contains("requirements"));
}

#[test]
fn no_candidates_and_no_match() {
    let empty = router().route(&RouteIntent {
        text: "anything".to_string(),
        explicit_agent: None,
        auto_route: true,
        candidates: vec![],
    });
    assert_eq!(empty.reason.as_deref(), Some("No registered subagents."));
    let none = router().route(&intent("bake a cake", None, true));
    assert_eq!(none.agent_name, None);
    assert_eq!(none.reason.as_deref(), Some("No confident keyword match."));
}

#[test]
fn explicit_selection_edge_cases() {
    let blank = router().route(&intent("x", Some("   "), true));
    assert_eq!(blank.reason.as_deref(), Some("Provide an agent name after `/use`."));
    let by_keyword = router().route(&intent("x", Some("Lint"), true));
    assert_eq!(by_keyword.agent_name.as_deref(), Some("inspector"));
    let quoted = router().route(&intent("/use \"Spec Parser\" now", None, true));
    assert_eq!(quoted.agent_name.as_deref(), Some("spec-parser"));
    assert_eq!(quoted.reason.as_deref(), Some("requested via `/use Spec Parser`"));
    let empty_quotes = router().route(&intent("/use \"  \"", None, true));
    assert_eq!(empty_quotes.reason.as_deref(), Some("Provide an agent name after `/use`."));
}

#[test]
fn name_and_keywords_are_listed_in_reason() {
    let result = router().route(&intent("the tester runs tests for verification", None, true));
    assert_eq!(result.agent_name.as_deref(), Some("tester"));
    assert_eq!(
        result.reason.as_deref(),
        Some("matched agent name 'tester', keyword 'tests', keyword 'verification'")
    );
}
