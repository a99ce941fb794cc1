use subagents::transform::{
    count_tests_by_status, extract_file_paths, get_high_severity_findings, is_complete_stage,
    PipelineStage, PipelineState, PipelineTransformer,
};
use subagents::pipeline::{
    ChangeFile, ChangeType, ProposedChange, ProposedChanges, ReviewFinding, ReviewFindings,
    Severity, TestOutcome, TestPlan, TestResults, TestStatus,
};
use subagents::validation::{PipelineValidator, ValidationReport};

#[test]
fn test_validation_report() {
    let mut report = ValidationReport::new();
    assert!(report.is_valid());

    report.add_warning("Test warning");
    assert!(report.is_valid());

    report.add_error("Test error");
    assert!(!report.is_valid());
    assert_eq!(report.issue_count(), 2);
}

#[test]
fn validation_summaries() {
    let mut report = ValidationReport::new();
    assert_eq!(report.summary(), "Validation passed");
    report.add_warning("w");
    assert_eq!(report.summary(), "Validation passed with 1 warnings");
    report.add_error("e");
    report.add_info("i");
    assert_eq!(report.summary(), "Validation failed: 1 errors, 1 warnings");
    assert!(PipelineValidator::new().strict_mode);
    assert!(!PipelineValidator::lenient().strict_mode);
}

#[test]
fn test_pipeline_stage_determination() {
    let transformer = PipelineTransformer::new();

    let stage = transformer.determine_pipeline_stage(&None, &None, &None, &None);
    assert_eq!(stage, PipelineStage::Specification);
}

#[test]
fn stages_follow_the_artifacts() {
    let t = PipelineTransformer::without_validation();
    let plan = Some(TestPlan::new("p", vec![]));
    let changes = Some(ProposedChanges::new("c", vec![]));
    let req = Some(subagents::pipeline::RequirementsSpec::new("t", "o", vec![]));
    assert_eq!(t.determine_pipeline_stage(&req, &None, &None, &None), PipelineStage::CodeGeneration);
    assert_eq!(t.determine_pipeline_stage(&req, &changes, &plan, &None), PipelineStage::Review);
    assert_eq!(t.determine_pipeline_stage(&None, &changes, &None, &None), PipelineStage::Specification);
    assert!(is_complete_stage(&PipelineStage::Complete));
    assert!(!is_complete_stage(&PipelineStage::Review));
}

#[test]
fn summary_and_helpers_count_artifacts() {
    let changes = ProposedChanges::new(
        "c",
        vec![
            ProposedChange::new("R1", "a", vec![ChangeFile::new("x.rs", ChangeType::Create, "")], vec![]),
            ProposedChange::new(
                "R2",
                "b",
                vec![
                    ChangeFile::new("y.rs", ChangeType::Modify, ""),
                    ChangeFile::new("z.rs", ChangeType::Remove, ""),
                ],
                vec![],
            ),
        ],
    );
    assert_eq!(extract_file_paths(&changes), vec!["x.rs", "y.rs", "z.rs"]);
    let results = TestResults::new(
        TestPlan::new("p", vec![]),
        vec![
            TestOutcome::new("a", TestStatus::Passed, None),
            TestOutcome::new("b", TestStatus::Failed, None),
            TestOutcome::new("c", TestStatus::Passed, None),
        ],
    );
    assert_eq!(count_tests_by_status(&results, &TestStatus::Passed), 2);
    let review = ReviewFindings::new(
        "r",
        vec![
            ReviewFinding::new(Severity::Low, "l", None, None),
            ReviewFinding::new(Severity::Critical, "c", None, None),
            ReviewFinding::new(Severity::High, "h", None, None),
        ],
    );
    let severe = get_high_severity_findings(&review);
    assert_eq!(severe.len(), 2);
    assert_eq!(severe[0].message, "c");
    let state = PipelineState {
        requirements: None,
        changes: Some(changes),
        test_plan: None,
        review: Some(review),
        stage: PipelineStage::Review,
    };
    let summary = PipelineTransformer::new().extract_summary(&state);
    assert_eq!(summary.changes_count, 2);
    assert_eq!(summary.review_findings_count, 3);
    assert!(summary.has_blocking_issues);
    assert_eq!(summary.requirements_count, 0);
}
