use subagents::context::{Artifact, ArtifactKind, TaskContext};
use subagents::pipeline::{ProposedChange, ProposedChanges, ReviewFindings, Severity, TestStatus};
use subagents::requirements::SpecParserSeed;
use subagents::stages::{
    apply_static_heuristics, execute_plan_for_mode, run_stage, simulate_formatters, StageError,
    StageKind,
};

const DOC: &str = "# Export\nAdd an export.\n## Requirements\n- [REQ-001] Add unsafe export\n  - AC-001: works\n";

#[test]
fn stages_pass_artifacts_along() {
    let mut ctx = TaskContext::new();
    ctx.insert_typed(Artifact::Seed(SpecParserSeed::new(DOC)));
    run_stage(StageKind::Specification, &mut ctx, None, 1).unwrap();
    run_stage(StageKind::CodeGeneration, &mut ctx, None, 2).unwrap();
    run_stage(StageKind::Testing, &mut ctx, Some("seatbelt"), 3).unwrap();
    run_stage(StageKind::Review, &mut ctx, None, 4).unwrap();
    let Some(Artifact::Results(results)) = ctx.get_typed(ArtifactKind::Results) else {
        panic!("results expected");
    };
    assert_eq!(results.outcomes.len(), 2);
    assert_eq!(results.outcomes[0].status, TestStatus::Blocked);
    assert_eq!(
        results.outcomes[0].details.as_deref(),
        Some("Sandbox prohibits executing arbitrary commands")
    );
    let Some(Artifact::Review(review)) = ctx.get_typed(ArtifactKind::Review) else {
        panic!("review expected");
    };
    assert_eq!(review.findings.len(), 3);
    assert_eq!(review.findings[2].message, "Requirement REQ-001 mentions unsafe operations");
    let log = ctx.diagnostics();
    assert_eq!(log.len(), 4);
    assert_eq!(log[0].message, "Parsed 1 requirements");
    assert_eq!(log[1].message, "Drafted 1 planned changes");
    assert_eq!(log[2].message, "Prepared 2 test tasks");
    assert_eq!(log[3].message, "Generated 3 review findings");
}

#[test]
fn missing_inputs_are_reported() {
    let mut ctx = TaskContext::new();
    assert_eq!(
        run_stage(StageKind::Review, &mut ctx, None, 0),
        Err(StageError::MissingInput(ArtifactKind::Changes))
    );
    ctx.insert_typed(Artifact::Changes(ProposedChanges::new("r", vec![])));
    assert_eq!(
        run_stage(StageKind::Review, &mut ctx, None, 0),
        Err(StageError::MissingInput(ArtifactKind::Results))
    );
    assert_eq!(
        run_stage(StageKind::CodeGeneration, &mut ctx, None, 0),
        Err(StageError::MissingInput(ArtifactKind::Requirements))
    );
    ctx.insert_typed(Artifact::Seed(SpecParserSeed::new("no requirements here")));
    assert!(matches!(
        run_stage(StageKind::Specification, &mut ctx, None, 0),
        Err(StageError::Specification(_))
    ));
    assert!(ctx.get_typed(ArtifactKind::Requirements).is_none());
}

#[test]
fn sandbox_stand_ins() {
    let runs = simulate_formatters(Some("seatbelt"));
    assert_eq!(runs[0].output.as_deref(), Some("Formatter skipped in seatbelt sandbox"));
    let runs = simulate_formatters(None);
    assert_eq!(runs[1].output.as_deref(), Some("Lint run deferred"));
    let plan = subagents::pipeline::plan_tests_for_changes(&ProposedChanges::new(
        "r",
        vec![ProposedChange::new("REQ-1", "a", vec![], vec![])],
    ));
    let outcomes = execute_plan_for_mode(&plan, None);
    assert_eq!(outcomes[1].details.as_deref(), Some("Execution deferred to interactive shell"));
    let mut findings = ReviewFindings::new("s", vec![]);
    apply_static_heuristics(
        &ProposedChanges::new("r", vec![ProposedChange::new("REQ-2", "Uses UNSAFE code", vec![], vec![])]),
        &mut findings,
    );
    assert_eq!(findings.findings.len(), 1);
    assert_eq!(findings.findings[0].severity, Severity::High);
    assert_eq!(findings.findings[0].suggested_fix.as_deref(), Some("Consider refactoring to safe APIs"));
}
