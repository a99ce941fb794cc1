use vstd::prelude::*;
use vstd::string::StringExecFns;
use crate::context::{Artifact, ArtifactKind, DiagnosticLevel, TaskContext};
use crate::pipeline::{
    derive_changes_from_spec, derived_change_ok, merge_test_results, merged_outcome_ok, opt_str,
    plan_tests_for_changes, review_findings_from_results, to_lowercase, all_findings,
    finding_views, FindingView, FormatterRun, FormatterStatus, ProposedChange,
    ProposedChanges, ReviewFinding, ReviewFindings, Severity, TestOutcome, TestPlan, TestStatus,
};
use crate::requirements::{parse_spec_markdown, SpecMarkdownError};
use crate::text::{contains, decimal_string, push_text, text_contains};

verus! {

// ---------------------------------------------------------------------------
// Sandbox-dependent stand-ins for running tools
// ---------------------------------------------------------------------------

pub open spec fn in_seatbelt(sandbox: Option<&str>) -> bool {
    match sandbox {
        Some(s) => s@ == "seatbelt"@,
        None => false,
    }
}

/// The formatter runs of the code-writing stage: both are skipped, with the reason that the
/// sandbox gives.
pub fn simulate_formatters(sandbox: Option<&str>) -> (r: Vec<FormatterRun>)
    ensures
        r@.len() == 2,
        r@[0].command@ == "just fmt"@,
        r@[1].command@ == "cargo fmt -- --check"@,
        r@[0].status == FormatterStatus::Skipped && r@[1].status == FormatterStatus::Skipped,
        in_seatbelt(sandbox) ==> opt_str(r@[0].output) == Some("Formatter skipped in seatbelt sandbox"@)
            && opt_str(r@[1].output) == Some("Formatter skipped in seatbelt sandbox"@),
        !in_seatbelt(sandbox) ==> opt_str(r@[0].output) == Some("Justfile invocation deferred to orchestrator"@)
            && opt_str(r@[1].output) == Some("Lint run deferred"@),
{
    let mut runs: Vec<FormatterRun> = Vec::new();
    if crate::orchestrator::seatbelt_active(sandbox) {
        runs.push(FormatterRun::skipped("just fmt", "Formatter skipped in seatbelt sandbox"));
        runs.push(FormatterRun::skipped("cargo fmt -- --check", "Formatter skipped in seatbelt sandbox"));
    } else {
        runs.push(FormatterRun::skipped("just fmt", "Justfile invocation deferred to orchestrator"));
        runs.push(FormatterRun::skipped("cargo fmt -- --check", "Lint run deferred"));
    }
    runs
}

pub open spec fn blocked_reason(sandbox: Option<&str>) -> Seq<char> {
    if in_seatbelt(sandbox) {
        "Sandbox prohibits executing arbitrary commands"@
    } else {
        "Execution deferred to interactive shell"@
    }
}

/// The outcomes of a plan that this core does not execute: every task is blocked, with the
/// reason that the sandbox gives.
pub fn execute_plan_for_mode(plan: &TestPlan, sandbox: Option<&str>) -> (r: Vec<TestOutcome>)
    ensures
        r@.len() == plan.tasks@.len(),
        forall|i: int|
            0 <= i < r@.len() ==> {
                &&& (#[trigger] r@[i]).task_name@ == plan.tasks@[i].name@
                &&& r@[i].status == TestStatus::Blocked
                &&& opt_str(r@[i].details) == Some(blocked_reason(sandbox))
            },
{
    let seatbelt = crate::orchestrator::seatbelt_active(sandbox);
    let mut outcomes: Vec<TestOutcome> = Vec::new();
    let mut i: usize = 0;
    while i < plan.tasks.len()
        invariant
            i <= plan.tasks@.len(),
            seatbelt == in_seatbelt(sandbox),
            outcomes@.len() == i,
            forall|k: int|
                0 <= k < i ==> {
                    &&& (#[trigger] outcomes@[k]).task_name@ == plan.tasks@[k].name@
                    &&& outcomes@[k].status == TestStatus::Blocked
                    &&& opt_str(outcomes@[k].details) == Some(blocked_reason(sandbox))
                },
        decreases plan.tasks@.len() - i,
    {
        let reason = if seatbelt {
            String::from_str("Sandbox prohibits executing arbitrary commands")
        } else {
            String::from_str("Execution deferred to interactive shell")
        };
        outcomes.push(TestOutcome::new(plan.tasks[i].name.as_str(), TestStatus::Blocked, Some(reason)));
        i += 1;
    }
    outcomes
}

/// Whether a change summary, lower-cased, speaks of unsafe operations.
pub fn mentions_unsafe(lowered: &str) -> (r: bool)
    ensures
        r == contains(lowered@, "unsafe"@),
{
    text_contains(lowered, "unsafe")
}

/// Findings for changes whose summary speaks of unsafe operations, in change order.
pub open spec fn unsafe_findings(changes: Seq<ProposedChange>) -> Seq<FindingView>
    decreases changes.len(),
{
    if changes.len() == 0 {
        Seq::empty()
    } else {
        let c = changes.last();
        unsafe_findings(changes.drop_last()) + if contains(crate::pipeline::lowercase_of(c.summary@), "unsafe"@) {
            seq![
                (
                    Severity::High,
                    "Requirement "@ + c.requirement_id@ + " mentions unsafe operations"@,
                    Some(c.requirement_id@),
                    Some("Consider refactoring to safe APIs"@),
                ),
            ]
        } else {
            Seq::empty()
        }
    }
}

/// Adds a finding for every change whose summary speaks of unsafe operations.
pub fn apply_static_heuristics(changes: &ProposedChanges, findings: &mut ReviewFindings)
    ensures
        finding_views(final(findings).findings@) == finding_views(old(findings).findings@) + unsafe_findings(changes.changes@),
        final(findings).summary == old(findings).summary,
{
    let ghost start = finding_views(findings.findings@);
    let mut i: usize = 0;
    while i < changes.changes.len()
        invariant
            i <= changes.changes@.len(),
            finding_views(findings.findings@) == start + unsafe_findings(changes.changes@.subrange(0, i as int)),
            findings.summary == old(findings).summary,
        decreases changes.changes@.len() - i,
    {
        let change = &changes.changes[i];
        let ghost before = findings.findings@;
        proof {
            assert(changes.changes@.subrange(0, i + 1).drop_last() =~= changes.changes@.subrange(0, i as int));
        }
        let lowered = to_lowercase(change.summary.as_str());
        if mentions_unsafe(lowered.as_str()) {
            let mut message = String::from_str("Requirement ");
            push_text(&mut message, change.requirement_id.as_str());
            push_text(&mut message, " mentions unsafe operations");
            findings.findings.push(
                ReviewFinding {
                    severity: Severity::High,
                    message,
                    related_requirement: Some(change.requirement_id.clone()),
                    suggested_fix: Some(String::from_str("Consider refactoring to safe APIs")),
                },
            );
            assert(finding_views(findings.findings@) =~= finding_views(before).push(findings.findings@.last()@));
        }
        assert(start + unsafe_findings(changes.changes@.subrange(0, i + 1)) =~= finding_views(findings.findings@));
        i += 1;
    }
    assert(changes.changes@.subrange(0, changes.changes@.len() as int) =~= changes.changes@);
}

// ---------------------------------------------------------------------------
// Stages
// ---------------------------------------------------------------------------

/// A stage of the pipeline: specification, code generation, testing, review.
#[derive(Debug, Clone, Copy, PartialEq, Eq, Structural)]
pub enum StageKind {
    Specification,
    CodeGeneration,
    Testing,
    Review,
}

/// Why a stage could not run.
#[derive(Debug, Clone, PartialEq, Eq)]
pub enum StageError {
    /// The artifact that the stage reads is not in the context.
    MissingInput(ArtifactKind),
    /// The requirements document was refused.
    Specification(SpecMarkdownError),
}

/// The artifact kinds a stage reads.
pub open spec fn inputs_of(stage: StageKind) -> Seq<ArtifactKind> {
    match stage {
        StageKind::Specification => seq![ArtifactKind::Seed],
        StageKind::CodeGeneration => seq![ArtifactKind::Requirements],
        StageKind::Testing => seq![ArtifactKind::Changes],
        StageKind::Review => seq![ArtifactKind::Changes, ArtifactKind::Results],
    }
}

/// The artifact kind a stage writes.
pub open spec fn output_of(stage: StageKind) -> ArtifactKind {
    match stage {
        StageKind::Specification => ArtifactKind::Requirements,
        StageKind::CodeGeneration => ArtifactKind::Changes,
        StageKind::Testing => ArtifactKind::Results,
        StageKind::Review => ArtifactKind::Review,
    }
}

/// What a stage wrote, given what it read: the artifact of its output kind holds the
/// stage's result.
pub open spec fn stage_output_ok(stage: StageKind, before: TaskContext, out: Artifact, sandbox: Option<&str>) -> bool {
    match stage {
        StageKind::Specification => match (before.slot(ArtifactKind::Seed), out) {
            (Some(Artifact::Seed(seed)), Artifact::Requirements(spec)) => crate::requirements::parse_markdown(
                seed.markdown@,
            ) == Ok::<(Seq<char>, Seq<char>, Seq<crate::requirements::ReqV>), crate::requirements::SpecErrorV>(
                (spec.title@, spec.overview@, spec.requirements@.map_values(|q: crate::pipeline::Requirement| crate::requirements::req_v(q))),
            ),
            _ => false,
        },
        StageKind::CodeGeneration => match (before.slot(ArtifactKind::Requirements), out) {
            (Some(Artifact::Requirements(spec)), Artifact::Changes(c)) => {
                &&& c.changes@.len() == spec.requirements@.len()
                &&& forall|i: int| 0 <= i < c.changes@.len() ==> derived_change_ok(spec.requirements@[i], #[trigger] c.changes@[i])
            },
            _ => false,
        },
        StageKind::Testing => match (before.slot(ArtifactKind::Changes), out) {
            (Some(Artifact::Changes(c)), Artifact::Results(res)) => {
                &&& res.outcomes@.len() == res.plan.tasks@.len()
                &&& res.plan.tasks@.len() == if c.changes@.len() == 0 { 0int } else { 2int }
                &&& forall|i: int| 0 <= i < res.outcomes@.len() ==> {
                    &&& (#[trigger] res.outcomes@[i]).task_name@ == res.plan.tasks@[i].name@
                    &&& res.outcomes@[i].status == TestStatus::Blocked
                    &&& opt_str(res.outcomes@[i].details) == Some(blocked_reason(sandbox))
                }
            },
            _ => false,
        },
        StageKind::Review => match (before.slot(ArtifactKind::Changes), before.slot(ArtifactKind::Results), out) {
            (Some(Artifact::Changes(c)), Some(Artifact::Results(res)), Artifact::Review(v)) =>
                finding_views(v.findings@) == all_findings(c.changes@, res.outcomes@) + unsafe_findings(c.changes@),
            _ => false,
        },
    }
}

/// Runs one stage on the context at time `now`: reads its inputs, computes, logs one
/// diagnostic line, and stores its output in the slot of its kind. A missing input or a
/// refused document leaves the context's slots unchanged.
pub fn run_stage(stage: StageKind, ctx: &mut TaskContext, sandbox: Option<&str>, now: u64) -> (r: Result<(), StageError>)
    requires
        old(ctx).wf(),
    ensures
        final(ctx).wf(),
        r is Err ==> final(ctx).slots == old(ctx).slots,
        match r {
            Err(StageError::MissingInput(k)) => inputs_of(stage).contains(k) && old(ctx).slot(k) is None,
            Err(StageError::Specification(e)) => stage == StageKind::Specification && match old(ctx).slot(
                ArtifactKind::Seed,
            ) {
                Some(Artifact::Seed(seed)) => crate::requirements::parse_markdown(seed.markdown@) == Err::<
                    (Seq<char>, Seq<char>, Seq<crate::requirements::ReqV>),
                    crate::requirements::SpecErrorV,
                >(crate::requirements::error_v(e)),
                _ => false,
            },
            Ok(()) => {
                &&& forall|i: int| 0 <= i < inputs_of(stage).len() ==> old(ctx).slot(#[trigger] inputs_of(stage)[i]) is Some
                &&& final(ctx).slot(output_of(stage)) is Some
                &&& stage_output_ok(stage, *old(ctx), final(ctx).slot(output_of(stage)).unwrap(), sandbox)
                &&& forall|k: ArtifactKind| k != output_of(stage) ==> #[trigger] final(ctx).slot(k) == old(ctx).slot(k)
                &&& final(ctx).diagnostics@.len() == old(ctx).diagnostics@.len() + 1
            },
        },
{
    let ghost before = *ctx;
    proof {
        crate::context::lemma_slot_kind(before, ArtifactKind::Seed);
        crate::context::lemma_slot_kind(before, ArtifactKind::Requirements);
        crate::context::lemma_slot_kind(before, ArtifactKind::Changes);
        crate::context::lemma_slot_kind(before, ArtifactKind::Results);
        assert(inputs_of(StageKind::Specification)[0] == ArtifactKind::Seed);
        assert(inputs_of(StageKind::CodeGeneration)[0] == ArtifactKind::Requirements);
        assert(inputs_of(StageKind::Testing)[0] == ArtifactKind::Changes);
        assert(inputs_of(StageKind::Review)[0] == ArtifactKind::Changes);
        assert(inputs_of(StageKind::Review)[1] == ArtifactKind::Results);
    }
    match stage {
        StageKind::Specification => {
            let parsed = match ctx.get_typed(ArtifactKind::Seed) {
                Some(Artifact::Seed(seed)) => parse_spec_markdown(seed.markdown.as_str()),
                _ => {
                    return Err(StageError::MissingInput(ArtifactKind::Seed));
                },
            };
            match parsed {
                Ok(spec) => {
                    let mut line = String::from_str("Parsed ");
                    let n = decimal_string(spec.requirements.len() as u64);
                    push_text(&mut line, n.as_str());
                    push_text(&mut line, " requirements");
                    ctx.push_diagnostic(DiagnosticLevel::Info, line.as_str(), now);
                    ctx.insert_typed(Artifact::Requirements(spec));
                    Ok(())
                },
                Err(e) => {
                    let mut line = String::from_str("Spec parsing failed: ");
                    let m = e.message();
                    push_text(&mut line, m.as_str());
                    ctx.push_diagnostic(DiagnosticLevel::Error, line.as_str(), now);
                    Err(StageError::Specification(e))
                },
            }
        },
        StageKind::CodeGeneration => {
            let changes = match ctx.get_typed(ArtifactKind::Requirements) {
                Some(Artifact::Requirements(spec)) => derive_changes_from_spec(spec),
                _ => {
                    return Err(StageError::MissingInput(ArtifactKind::Requirements));
                },
            };
            let mut line = String::from_str("Drafted ");
            let n = decimal_string(changes.changes.len() as u64);
            push_text(&mut line, n.as_str());
            push_text(&mut line, " planned changes");
            ctx.push_diagnostic(DiagnosticLevel::Info, line.as_str(), now);
            ctx.insert_typed(Artifact::Changes(changes));
            Ok(())
        },
        StageKind::Testing => {
            let plan = match ctx.get_typed(ArtifactKind::Changes) {
                Some(Artifact::Changes(c)) => plan_tests_for_changes(c),
                _ => {
                    return Err(StageError::MissingInput(ArtifactKind::Changes));
                },
            };
            let mut line = String::from_str("Prepared ");
            let n = decimal_string(plan.tasks.len() as u64);
            push_text(&mut line, n.as_str());
            push_text(&mut line, " test tasks");
            let outcomes = execute_plan_for_mode(&plan, sandbox);
            let results = merge_test_results(&plan, outcomes);
            proof {
                assert forall|i: int| 0 <= i < results.outcomes@.len() implies {
                    &&& (#[trigger] results.outcomes@[i]).task_name@ == results.plan.tasks@[i].name@
                    &&& results.outcomes@[i].status == TestStatus::Blocked
                    &&& opt_str(results.outcomes@[i].details) == Some(blocked_reason(sandbox))
                } by {
                    let task = plan.tasks@[i];
                    crate::pipeline::lemma_first_status_exists(outcomes@, task.name@, i);
                    assert(merged_outcome_ok(outcomes@, task, results.outcomes@[i]));
                    let k = choose|k: int| crate::pipeline::first_status_for(outcomes@, task.name@, k) && results.outcomes@[i] == outcomes@[k];
                    assert(outcomes@[k].task_name@ == task.name@);
                    assert(results.plan.tasks@[i].name == task.name);
                }
            }
            ctx.push_diagnostic(DiagnosticLevel::Info, line.as_str(), now);
            ctx.insert_typed(Artifact::Results(results));
            Ok(())
        },
        StageKind::Review => {
            let findings = match (ctx.get_typed(ArtifactKind::Changes), ctx.get_typed(ArtifactKind::Results)) {
                (Some(Artifact::Changes(c)), Some(Artifact::Results(res))) => {
                    let mut f = review_findings_from_results(c, res);
                    apply_static_heuristics(c, &mut f);
                    f
                },
                (None, _) => {
                    return Err(StageError::MissingInput(ArtifactKind::Changes));
                },
                (_, None) => {
                    return Err(StageError::MissingInput(ArtifactKind::Results));
                },
                _ => {
                    return Err(StageError::MissingInput(ArtifactKind::Changes));
                },
            };
            let mut line = String::from_str("Generated ");
            let n = decimal_string(findings.findings.len() as u64);
            push_text(&mut line, n.as_str());
            push_text(&mut line, " review findings");
            ctx.push_diagnostic(DiagnosticLevel::Info, line.as_str(), now);
            ctx.insert_typed(Artifact::Review(findings));
            Ok(())
        },
    }
}

} // verus!
