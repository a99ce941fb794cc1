use subagents::pipeline::{
    derive_changes_from_spec, merge_test_results, plan_tests_for_changes,
    review_findings_from_results, AcceptanceCriterion, ChangeFile, ChangeType, FormatterRun,
    FormatterStatus, ProposedChange, ProposedChanges, Requirement, RequirementsSpec, Severity,
    TestOutcome, TestStatus,
};

#[test]
fn derives_changes_with_default_file() {
    let spec = RequirementsSpec::new(
        "Spec",
        "Overview",
        vec![Requirement::new(
            "REQ-001",
            "Add feature",
            vec![
                AcceptanceCriterion::new(None, "Works"),
                AcceptanceCriterion::new(None, "Tested"),
            ],
            vec![],
        )],
    );
    let changes = derive_changes_from_spec(&spec);
    assert_eq!(changes.changes.len(), 1);
    let change = &changes.changes[0];
    assert_eq!(change.files.len(), 1);
    assert_eq!(change.files[0].path, "src/lib.rs");
}

#[test]
fn plans_tests_for_changes() {
    let changes = ProposedChanges::new(
        "rationale",
        vec![ProposedChange::new(
            "REQ-001",
            "do it",
            vec![ChangeFile::new("src/main.rs", ChangeType::Modify, "reason")],
            vec![],
        )],
    );
    let plan = plan_tests_for_changes(&changes);
    assert_eq!(plan.tasks.len(), 2);
    assert!(plan.summary.contains("Planned"));
}

#[test]
fn review_findings_cover_failed_tests() {
    let changes = ProposedChanges::new(
        "r",
        vec![ProposedChange::new(
            "REQ-001",
            "Work",
            vec![ChangeFile::new("src/lib.rs", ChangeType::Modify, "")],
            vec![],
        )],
    );
    let plan = plan_tests_for_changes(&changes);
    let results = merge_test_results(
        &plan,
        vec![TestOutcome::new(
            "cargo test",
            TestStatus::Failed,
            Some("compile error".to_string()),
        )],
    );
    let findings = review_findings_from_results(&changes, &results);
    assert!(findings.summary.contains("Identified"));
    assert!(!findings.findings.is_empty());
    assert!(matches!(findings.findings[0].severity, Severity::Critical));
}

#[test]
fn derived_change_texts_are_exact() {
    let spec = RequirementsSpec::new(
        "Spec",
        "Overview",
        vec![
            Requirement::new(
                "REQ-001",
                "First",
                vec![AcceptanceCriterion::new(None, "Works")],
                vec!["src/a.rs".to_string(), "src/b.rs".to_string()],
            ),
            Requirement::new("REQ-002", "Second", vec![], vec![]),
        ],
    );
    let changes = derive_changes_from_spec(&spec);
    assert_eq!(changes.rationale, "Derived from 2 requirements");
    assert_eq!(changes.changes[0].files[1].path, "src/b.rs");
    assert_eq!(changes.changes[0].files[0].rationale, "Referenced by REQ-001");
    assert_eq!(changes.changes[0].notes, vec!["Acceptance: Works".to_string()]);
    assert_eq!(
        changes.changes[1].files[0].rationale,
        "Default target inferred for REQ-002"
    );
}

#[test]
fn empty_changes_need_no_tests() {
    let plan = plan_tests_for_changes(&ProposedChanges::new("docs", vec![]));
    assert!(plan.tasks.is_empty());
    assert_eq!(plan.summary, "No tests required for documentation-only changes");
}

#[test]
fn planned_tasks_name_every_requirement() {
    let changes = ProposedChanges::new(
        "r",
        vec![
            ProposedChange::new("REQ-1", "a", vec![], vec![]),
            ProposedChange::new("REQ-2", "b", vec![], vec![]),
        ],
    );
    let plan = plan_tests_for_changes(&changes);
    assert_eq!(plan.summary, "Planned 2 automated tasks");
    assert_eq!(plan.tasks[1].command, "cargo fmt -- --check");
    assert_eq!(
        plan.tasks[0].related_requirements,
        vec!["REQ-1".to_string(), "REQ-2".to_string()]
    );
}

#[test]
fn missing_results_are_blocked() {
    let changes = ProposedChanges::new("r", vec![ProposedChange::new("REQ-1", "a", vec![], vec![])]);
    let plan = plan_tests_for_changes(&changes);
    let results = merge_test_results(
        &plan,
        vec![
            TestOutcome::new("fmt check", TestStatus::Passed, None),
            TestOutcome::new("fmt check", TestStatus::Failed, None),
        ],
    );
    assert_eq!(results.outcomes.len(), 2);
    assert_eq!(results.outcomes[0].status, TestStatus::Blocked);
    assert_eq!(
        results.outcomes[0].details.as_deref(),
        Some("No execution result available")
    );
    assert_eq!(results.outcomes[1].status, TestStatus::Passed);
    assert_eq!(results.plan, plan);
}

#[test]
fn findings_are_ordered_by_severity() {
    let changes = ProposedChanges::new(
        "r",
        vec![ProposedChange::new(
            "REQ-9",
            "auth",
            vec![],
            vec!["Acceptance: SECURITY review of tokens".to_string()],
        )],
    );
    let plan = plan_tests_for_changes(&changes);
    let results = merge_test_results(
        &plan,
        vec![TestOutcome::new("fmt check", TestStatus::Failed, Some("diff".to_string()))],
    );
    let findings = review_findings_from_results(&changes, &results);
    assert_eq!(findings.findings.len(), 3);
    assert_eq!(findings.summary, "Identified 3 findings");
    assert_eq!(findings.findings[0].severity, Severity::Critical);
    assert_eq!(findings.findings[0].message, "Test fmt check failed");
    assert_eq!(findings.findings[1].severity, Severity::High);
    assert_eq!(
        findings.findings[1].message,
        "Security-related requirement REQ-9 needs dedicated review"
    );
    assert_eq!(findings.findings[2].severity, Severity::Medium);
    assert_eq!(findings.findings[2].message, "Test cargo test did not run");
}

#[test]
fn no_findings_summary() {
    let changes = ProposedChanges::new("r", vec![]);
    let plan = plan_tests_for_changes(&changes);
    let results = merge_test_results(&plan, vec![]);
    let findings = review_findings_from_results(&changes, &results);
    assert!(findings.findings.is_empty());
    assert_eq!(findings.summary, "No review findings");
}

#[test]
fn formatter_runs_record_status() {
    let skipped = FormatterRun::skipped("cargo fmt", "not installed");
    assert_eq!(skipped.status, FormatterStatus::Skipped);
    assert_eq!(skipped.output.as_deref(), Some("not installed"));
    let failed = FormatterRun::failed("cargo fmt", "boom");
    assert_eq!(failed.status, FormatterStatus::Failed);
    let ok = FormatterRun::success("cargo fmt", None);
    assert_eq!(ok.status, FormatterStatus::Succeeded);
    assert_eq!(ok.output, None);
}
