use vstd::prelude::*;
use crate::pipeline::{ProposedChanges, RequirementsSpec, ReviewFinding, ReviewFindings, Severity, TestPlan, TestResults, TestStatus};

verus! {

/// The stage a pipeline run has reached.
#[derive(Debug, Clone, Copy, PartialEq, Eq, Structural)]
pub enum PipelineStage {
    Specification,
    CodeGeneration,
    Testing,
    Review,
    Complete,
}

/// The artifacts a pipeline run holds so far.
#[derive(Debug, Clone)]
pub struct PipelineState {
    pub requirements: Option<RequirementsSpec>,
    pub changes: Option<ProposedChanges>,
    pub test_plan: Option<TestPlan>,
    pub review: Option<ReviewFindings>,
    pub stage: PipelineStage,
}

/// Counts that describe a pipeline run.
#[derive(Debug, Clone, Copy, PartialEq, Eq, Structural)]
pub struct PipelineSummary {
    pub stage: PipelineStage,
    pub requirements_count: usize,
    pub changes_count: usize,
    pub test_cases_count: usize,
    pub review_findings_count: usize,
    pub has_blocking_issues: bool,
}

/// Moves artifacts from one stage to the next.
#[derive(Debug, Clone, Copy, PartialEq, Eq, Structural)]
pub struct PipelineTransformer {
    pub validation_enabled: bool,
}

/// The stage that the artifacts present call for: each stage needs all earlier artifacts.
pub open spec fn stage_for(req: bool, changes: bool, plan: bool, review: bool) -> PipelineStage {
    if !req && !changes && !plan && !review {
        PipelineStage::Specification
    } else if req && !changes && !plan && !review {
        PipelineStage::CodeGeneration
    } else if req && changes && !plan && !review {
        PipelineStage::Testing
    } else if req && changes && plan && !review {
        PipelineStage::Review
    } else if req && changes && plan && review {
        PipelineStage::Complete
    } else {
        PipelineStage::Specification
    }
}

/// Findings of high or critical severity.
pub open spec fn is_severe(f: ReviewFinding) -> bool {
    f.severity == Severity::High || f.severity == Severity::Critical
}

pub open spec fn count_status(outcomes: Seq<crate::pipeline::TestOutcome>, status: TestStatus, n: int) -> nat
    decreases n,
{
    if n <= 0 {
        0
    } else {
        count_status(outcomes, status, n - 1) + if outcomes[n - 1].status == status { 1nat } else { 0nat }
    }
}

pub open spec fn severe_indices(findings: Seq<ReviewFinding>, n: int) -> Seq<int>
    decreases n,
{
    if n <= 0 {
        Seq::empty()
    } else {
        severe_indices(findings, n - 1) + if is_severe(findings[n - 1]) { seq![n - 1] } else { Seq::empty() }
    }
}

/// Every file path of every change, in order.
pub open spec fn all_paths(changes: Seq<crate::pipeline::ProposedChange>, n: int) -> Seq<Seq<char>>
    decreases n,
{
    if n <= 0 {
        Seq::empty()
    } else {
        all_paths(changes, n - 1) + changes[n - 1].files@.map_values(|f: crate::pipeline::ChangeFile| f.path@)
    }
}

impl PipelineTransformer {
    pub fn new() -> (r: Self)
        ensures
            r.validation_enabled,
    {
        PipelineTransformer { validation_enabled: true }
    }

    pub fn without_validation() -> (r: Self)
        ensures
            !r.validation_enabled,
    {
        PipelineTransformer { validation_enabled: false }
    }

    /// The stage that the artifacts present call for.
    pub fn determine_pipeline_stage(
        &self,
        requirements: &Option<RequirementsSpec>,
        changes: &Option<ProposedChanges>,
        test_plan: &Option<TestPlan>,
        review: &Option<ReviewFindings>,
    ) -> (r: PipelineStage)
        ensures
            r == stage_for(requirements is Some, changes is Some, test_plan is Some, review is Some),
    {
        let q = requirements.is_some();
        let c = changes.is_some();
        let p = test_plan.is_some();
        let v = review.is_some();
        if !q && !c && !p && !v {
            PipelineStage::Specification
        } else if q && !c && !p && !v {
            PipelineStage::CodeGeneration
        } else if q && c && !p && !v {
            PipelineStage::Testing
        } else if q && c && p && !v {
            PipelineStage::Review
        } else if q && c && p && v {
            PipelineStage::Complete
        } else {
            PipelineStage::Specification
        }
    }

    /// Counts over the artifacts of a run.
    pub fn extract_summary(&self, state: &PipelineState) -> (r: PipelineSummary)
        ensures
            r.stage == state.stage,
            r.requirements_count == match state.requirements {
                Some(q) => q.requirements@.len(),
                None => 0,
            },
            r.changes_count == match state.changes {
                Some(c) => c.changes@.len(),
                None => 0,
            },
            r.test_cases_count == match state.test_plan {
                Some(p) => p.tasks@.len(),
                None => 0,
            },
            r.review_findings_count == match state.review {
                Some(v) => v.findings@.len(),
                None => 0,
            },
            r.has_blocking_issues == match state.review {
                Some(v) => exists|i: int| 0 <= i < v.findings@.len() && v.findings@[i].severity == Severity::Critical,
                None => false,
            },
    {
        let blocking = match &state.review {
            Some(v) => {
                let mut found = false;
                let mut i: usize = 0;
                while i < v.findings.len()
                    invariant
                        i <= v.findings@.len(),
                        found == exists|k: int| 0 <= k < i && v.findings@[k].severity == Severity::Critical,
                    decreases v.findings@.len() - i,
                {
                    if v.findings[i].severity == Severity::Critical {
                        found = true;
                    }
                    i += 1;
                }
                found
            },
            None => false,
        };
        PipelineSummary {
            stage: state.stage,
            requirements_count: match &state.requirements {
                Some(q) => q.requirements.len(),
                None => 0,
            },
            changes_count: match &state.changes {
                Some(c) => c.changes.len(),
                None => 0,
            },
            test_cases_count: match &state.test_plan {
                Some(p) => p.tasks.len(),
                None => 0,
            },
            review_findings_count: match &state.review {
                Some(v) => v.findings.len(),
                None => 0,
            },
            has_blocking_issues: blocking,
        }
    }
}

pub fn is_complete_stage(stage: &PipelineStage) -> (r: bool)
    ensures
        r == (*stage == PipelineStage::Complete),
{
    *stage == PipelineStage::Complete
}

/// The paths of all files that the changes touch, in order.
pub fn extract_file_paths(changes: &ProposedChanges) -> (r: Vec<String>)
    ensures
        r@.map_values(|s: String| s@) == all_paths(changes.changes@, changes.changes@.len() as int),
{
    let mut r: Vec<String> = Vec::new();
    let mut i: usize = 0;
    while i < changes.changes.len()
        invariant
            i <= changes.changes@.len(),
            r@.map_values(|s: String| s@) == all_paths(changes.changes@, i as int),
        decreases changes.changes@.len() - i,
    {
        let files = &changes.changes[i].files;
        let ghost start = r@.map_values(|s: String| s@);
        let mut k: usize = 0;
        while k < files.len()
            invariant
                k <= files@.len(),
                i < changes.changes@.len(),
                start == all_paths(changes.changes@, i as int),
                *files == changes.changes@[i as int].files,
                r@.map_values(|s: String| s@) == start + files@.subrange(0, k as int).map_values(
                    |f: crate::pipeline::ChangeFile| f.path@,
                ),
            decreases files@.len() - k,
        {
            let ghost before = r@;
            r.push(files[k].path.clone());
            assert(r@.map_values(|s: String| s@) =~= before.map_values(|s: String| s@).push(files@[k as int].path@));
            assert(files@.subrange(0, k + 1).map_values(|f: crate::pipeline::ChangeFile| f.path@) =~= files@.subrange(0, k as int).map_values(|f: crate::pipeline::ChangeFile| f.path@).push(files@[k as int].path@));
            assert(r@.map_values(|s: String| s@) =~= start + files@.subrange(0, k + 1).map_values(
                |f: crate::pipeline::ChangeFile| f.path@,
            ));
            k += 1;
        }
        assert(files@.subrange(0, files@.len() as int) =~= files@);
        i += 1;
    }
    r
}

/// How many outcomes have `status`.
pub fn count_tests_by_status(results: &TestResults, status: &TestStatus) -> (r: usize)
    ensures
        r == count_status(results.outcomes@, *status, results.outcomes@.len() as int),
{
    let mut n: usize = 0;
    let mut i: usize = 0;
    while i < results.outcomes.len()
        invariant
            i <= results.outcomes@.len(),
            n == count_status(results.outcomes@, *status, i as int),
            n <= i,
        decreases results.outcomes@.len() - i,
    {
        if results.outcomes[i].status == *status {
            n += 1;
        }
        i += 1;
    }
    n
}

/// The findings of high or critical severity, in order.
pub fn get_high_severity_findings(review: &ReviewFindings) -> (r: Vec<&ReviewFinding>)
    ensures
        r@.len() == severe_indices(review.findings@, review.findings@.len() as int).len(),
        forall|k: int|
            0 <= k < r@.len() ==> *r@[k] == review.findings@[severe_indices(
                review.findings@,
                review.findings@.len() as int,
            )[k]],
{
    let mut r: Vec<&ReviewFinding> = Vec::new();
    let mut i: usize = 0;
    while i < review.findings.len()
        invariant
            i <= review.findings@.len(),
            r@.len() == severe_indices(review.findings@, i as int).len(),
            forall|k: int|
                0 <= k < r@.len() ==> *r@[k] == review.findings@[severe_indices(review.findings@, i as int)[k]],
        decreases review.findings@.len() - i,
    {
        let f = &review.findings[i];
        if f.severity == Severity::High || f.severity == Severity::Critical {
            r.push(f);
        }
        i += 1;
    }
    r
}

} // verus!
