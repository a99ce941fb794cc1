use vstd::prelude::*;
use vstd::string::StringExecFns;
use crate::text::{contains, decimal, decimal_string, push_text, text_contains};

verus! {

pub open spec fn opt_str(o: Option<String>) -> Option<Seq<char>> {
    match o {
        Some(s) => Some(s@),
        None => None,
    }
}

/// A copy of every string of `v`.
pub fn copy_strings(v: &Vec<String>) -> (r: Vec<String>)
    ensures
        r@ == v@,
{
    let mut r: Vec<String> = Vec::new();
    let mut i: usize = 0;
    while i < v.len()
        invariant
            i <= v@.len(),
            r@ == v@.subrange(0, i as int),
        decreases v@.len() - i,
    {
        r.push(v[i].clone());
        assert(r@ =~= v@.subrange(0, i + 1));
        i += 1;
    }
    assert(r@ =~= v@);
    r
}

pub fn copy_opt(o: &Option<String>) -> (r: Option<String>)
    ensures
        r == *o,
{
    match o {
        Some(s) => Some(s.clone()),
        None => None,
    }
}

/// A parsed requirements document.
#[derive(Debug, Clone, PartialEq, Eq)]
pub struct RequirementsSpec {
    pub title: String,
    pub overview: String,
    pub requirements: Vec<Requirement>,
}

impl RequirementsSpec {
    pub fn new(title: &str, overview: &str, requirements: Vec<Requirement>) -> (r: Self)
        ensures
            r.title@ == title@,
            r.overview@ == overview@,
            r.requirements == requirements,
    {
        RequirementsSpec {
            title: String::from_str(title),
            overview: String::from_str(overview),
            requirements,
        }
    }
}

#[derive(Debug, Clone, PartialEq, Eq)]
pub struct Requirement {
    pub id: String,
    pub summary: String,
    pub acceptance_criteria: Vec<AcceptanceCriterion>,
    pub file_hints: Vec<String>,
}

impl Requirement {
    pub fn new(
        id: &str,
        summary: &str,
        acceptance_criteria: Vec<AcceptanceCriterion>,
        file_hints: Vec<String>,
    ) -> (r: Self)
        ensures
            r.id@ == id@,
            r.summary@ == summary@,
            r.acceptance_criteria == acceptance_criteria,
            r.file_hints == file_hints,
    {
        Requirement {
            id: String::from_str(id),
            summary: String::from_str(summary),
            acceptance_criteria,
            file_hints,
        }
    }
}

#[derive(Debug, Clone, PartialEq, Eq)]
pub struct AcceptanceCriterion {
    pub id: Option<String>,
    pub text: String,
}

impl AcceptanceCriterion {
    pub fn new(id: Option<String>, text: &str) -> (r: Self)
        ensures
            r.id == id,
            r.text@ == text@,
    {
        AcceptanceCriterion { id, text: String::from_str(text) }
    }
}

#[derive(Debug, Clone, PartialEq, Eq)]
pub struct ProposedChanges {
    pub rationale: String,
    pub changes: Vec<ProposedChange>,
}

impl ProposedChanges {
    pub fn new(rationale: &str, changes: Vec<ProposedChange>) -> (r: Self)
        ensures
            r.rationale@ == rationale@,
            r.changes == changes,
    {
        ProposedChanges { rationale: String::from_str(rationale), changes }
    }
}

#[derive(Debug, Clone, PartialEq, Eq)]
pub struct ProposedChange {
    pub requirement_id: String,
    pub summary: String,
    pub files: Vec<ChangeFile>,
    pub notes: Vec<String>,
}

impl ProposedChange {
    pub fn new(requirement_id: &str, summary: &str, files: Vec<ChangeFile>, notes: Vec<String>) -> (r:
        Self)
        ensures
            r.requirement_id@ == requirement_id@,
            r.summary@ == summary@,
            r.files == files,
            r.notes == notes,
    {
        ProposedChange {
            requirement_id: String::from_str(requirement_id),
            summary: String::from_str(summary),
            files,
            notes,
        }
    }
}

#[derive(Debug, Clone, PartialEq, Eq)]
pub struct ChangeFile {
    pub path: String,
    pub change_type: ChangeType,
    pub rationale: String,
}

impl ChangeFile {
    pub fn new(path: &str, change_type: ChangeType, rationale: &str) -> (r: Self)
        ensures
            r.path@ == path@,
            r.change_type == change_type,
            r.rationale@ == rationale@,
    {
        ChangeFile {
            path: String::from_str(path),
            change_type,
            rationale: String::from_str(rationale),
        }
    }
}

#[derive(Debug, Clone, Copy, PartialEq, Eq, Structural)]
pub enum ChangeType {
    Create,
    Modify,
    Remove,
}

#[derive(Debug, Clone, PartialEq, Eq)]
pub struct TestPlan {
    pub summary: String,
    pub tasks: Vec<TestTask>,
}

impl TestPlan {
    pub fn new(summary: &str, tasks: Vec<TestTask>) -> (r: Self)
        ensures
            r.summary@ == summary@,
            r.tasks == tasks,
    {
        TestPlan { summary: String::from_str(summary), tasks }
    }

    /// A copy of the plan, field by field.
    pub fn duplicate(&self) -> (r: Self)
        ensures
            r.summary == self.summary,
            same_tasks(r.tasks@, self.tasks@),
    {
        let mut tasks: Vec<TestTask> = Vec::new();
        let mut i: usize = 0;
        while i < self.tasks.len()
            invariant
                i <= self.tasks@.len(),
                same_tasks(tasks@, self.tasks@.subrange(0, i as int)),
            decreases self.tasks@.len() - i,
        {
            let t = &self.tasks[i];
            tasks.push(
                TestTask {
                    name: t.name.clone(),
                    command: t.command.clone(),
                    related_requirements: copy_strings(&t.related_requirements),
                },
            );
            i += 1;
        }
        assert(self.tasks@.subrange(0, self.tasks@.len() as int) =~= self.tasks@);
        TestPlan { summary: self.summary.clone(), tasks }
    }
}

/// Two task lists that agree field by field.
pub open spec fn same_tasks(a: Seq<TestTask>, b: Seq<TestTask>) -> bool {
    &&& a.len() == b.len()
    &&& forall|i: int|
        0 <= i < a.len() ==> {
            &&& (#[trigger] a[i]).name == b[i].name
            &&& a[i].command == b[i].command
            &&& a[i].related_requirements@ == b[i].related_requirements@
        }
}

#[derive(Debug, Clone, PartialEq, Eq)]
pub struct TestTask {
    pub name: String,
    pub command: String,
    pub related_requirements: Vec<String>,
}

impl TestTask {
    pub fn new(name: &str, command: &str, related_requirements: Vec<String>) -> (r: Self)
        ensures
            r.name@ == name@,
            r.command@ == command@,
            r.related_requirements == related_requirements,
    {
        TestTask {
            name: String::from_str(name),
            command: String::from_str(command),
            related_requirements,
        }
    }
}

#[derive(Debug, Clone, PartialEq, Eq)]
pub struct TestResults {
    pub plan: TestPlan,
    pub outcomes: Vec<TestOutcome>,
}

impl TestResults {
    pub fn new(plan: TestPlan, outcomes: Vec<TestOutcome>) -> (r: Self)
        ensures
            r.plan == plan,
            r.outcomes == outcomes,
    {
        TestResults { plan, outcomes }
    }
}

#[derive(Debug, Clone, PartialEq, Eq)]
pub struct TestOutcome {
    pub task_name: String,
    pub status: TestStatus,
    pub details: Option<String>,
}

impl TestOutcome {
    pub fn new(task_name: &str, status: TestStatus, details: Option<String>) -> (r: Self)
        ensures
            r.task_name@ == task_name@,
            r.status == status,
            r.details == details,
    {
        TestOutcome { task_name: String::from_str(task_name), status, details }
    }
}

#[derive(Debug, Clone, Copy, PartialEq, Eq, Structural)]
pub enum TestStatus {
    Passed,
    Failed,
    Blocked,
}

#[derive(Debug, Clone, PartialEq, Eq)]
pub struct ReviewFindings {
    pub summary: String,
    pub findings: Vec<ReviewFinding>,
}

impl ReviewFindings {
    pub fn new(summary: &str, findings: Vec<ReviewFinding>) -> (r: Self)
        ensures
            r.summary@ == summary@,
            r.findings == findings,
    {
        ReviewFindings { summary: String::from_str(summary), findings }
    }
}

#[derive(Debug, Clone, PartialEq, Eq)]
pub struct ReviewFinding {
    pub severity: Severity,
    pub message: String,
    pub related_requirement: Option<String>,
    pub suggested_fix: Option<String>,
}

/// A finding as plain values: severity, message, related requirement, suggested fix.
pub type FindingView = (Severity, Seq<char>, Option<Seq<char>>, Option<Seq<char>>);

impl View for ReviewFinding {
    type V = FindingView;

    open spec fn view(&self) -> FindingView {
        (self.severity, self.message@, opt_str(self.related_requirement), opt_str(self.suggested_fix))
    }
}

impl ReviewFinding {
    pub fn new(
        severity: Severity,
        message: &str,
        related_requirement: Option<String>,
        suggested_fix: Option<String>,
    ) -> (r: Self)
        ensures
            r.severity == severity,
            r.message@ == message@,
            r.related_requirement == related_requirement,
            r.suggested_fix == suggested_fix,
    {
        ReviewFinding {
            severity,
            message: String::from_str(message),
            related_requirement,
            suggested_fix,
        }
    }
}

#[derive(Debug, Clone, Copy, PartialEq, Eq, Structural, PartialOrd, Ord)]
pub enum Severity {
    Info,
    Low,
    Medium,
    High,
    Critical,
}

#[derive(Debug, Clone, PartialEq, Eq)]
pub struct FormatterRun {
    pub command: String,
    pub status: FormatterStatus,
    pub output: Option<String>,
}

impl FormatterRun {
    pub fn skipped(command: &str, reason: &str) -> (r: Self)
        ensures
            r.command@ == command@,
            r.status == FormatterStatus::Skipped,
            opt_str(r.output) == Some(reason@),
    {
        FormatterRun {
            command: String::from_str(command),
            status: FormatterStatus::Skipped,
            output: Some(String::from_str(reason)),
        }
    }

    pub fn success(command: &str, output: Option<String>) -> (r: Self)
        ensures
            r.command@ == command@,
            r.status == FormatterStatus::Succeeded,
            r.output == output,
    {
        FormatterRun { command: String::from_str(command), status: FormatterStatus::Succeeded, output }
    }

    pub fn failed(command: &str, output: &str) -> (r: Self)
        ensures
            r.command@ == command@,
            r.status == FormatterStatus::Failed,
            opt_str(r.output) == Some(output@),
    {
        FormatterRun {
            command: String::from_str(command),
            status: FormatterStatus::Failed,
            output: Some(String::from_str(output)),
        }
    }
}

#[derive(Debug, Clone, Copy, PartialEq, Eq, Structural)]
pub enum FormatterStatus {
    Succeeded,
    Failed,
    Skipped,
}

// ---------------------------------------------------------------------------
// Stage transformations
// ---------------------------------------------------------------------------

pub open spec fn acceptance_note(text: Seq<char>) -> Seq<char> {
    "Acceptance: "@ + text
}

/// The files that a change for `req` touches: its hints, or `src/lib.rs` when it has none.
pub open spec fn derived_files_ok(req: Requirement, files: Seq<ChangeFile>) -> bool {
    if req.file_hints@.len() == 0 {
        &&& files.len() == 1
        &&& files[0].path@ == "src/lib.rs"@
        &&& files[0].change_type == ChangeType::Modify
        &&& files[0].rationale@ == "Default target inferred for "@ + req.id@
    } else {
        &&& files.len() == req.file_hints@.len()
        &&& forall|k: int|
            0 <= k < files.len() ==> {
                &&& (#[trigger] files[k]).path@ == req.file_hints@[k]@
                &&& files[k].change_type == ChangeType::Modify
                &&& files[k].rationale@ == "Referenced by "@ + req.id@
            }
    }
}

/// The change proposed for one requirement.
pub open spec fn derived_change_ok(req: Requirement, c: ProposedChange) -> bool {
    &&& c.requirement_id@ == req.id@
    &&& c.summary@ == req.summary@
    &&& derived_files_ok(req, c.files@)
    &&& c.notes@.len() == req.acceptance_criteria@.len()
    &&& forall|k: int|
        0 <= k < c.notes@.len() ==> (#[trigger] c.notes@[k])@ == acceptance_note(
            req.acceptance_criteria@[k].text@,
        )
}

fn derive_files_for_requirement(requirement: &Requirement) -> (r: Vec<ChangeFile>)
    ensures
        derived_files_ok(*requirement, r@),
{
    let mut files: Vec<ChangeFile> = Vec::new();
    if requirement.file_hints.len() == 0 {
        let mut why = String::from_str("Default target inferred for ");
        push_text(&mut why, requirement.id.as_str());
        files.push(
            ChangeFile {
                path: String::from_str("src/lib.rs"),
                change_type: ChangeType::Modify,
                rationale: why,
            },
        );
        return files;
    }
    let mut i: usize = 0;
    while i < requirement.file_hints.len()
        invariant
            i <= requirement.file_hints@.len(),
            files@.len() == i,
            forall|k: int|
                0 <= k < i ==> {
                    &&& (#[trigger] files@[k]).path@ == requirement.file_hints@[k]@
                    &&& files@[k].change_type == ChangeType::Modify
                    &&& files@[k].rationale@ == "Referenced by "@ + requirement.id@
                },
        decreases requirement.file_hints@.len() - i,
    {
        let mut why = String::from_str("Referenced by ");
        push_text(&mut why, requirement.id.as_str());
        files.push(
            ChangeFile {
                path: requirement.file_hints[i].clone(),
                change_type: ChangeType::Modify,
                rationale: why,
            },
        );
        i += 1;
    }
    files
}

/// One proposed change per requirement, in order.
pub fn derive_changes_from_spec(spec: &RequirementsSpec) -> (r: ProposedChanges)
    ensures
        r.rationale@ == "Derived from "@ + decimal(spec.requirements@.len()) + " requirements"@,
        r.changes@.len() == spec.requirements@.len(),
        forall|i: int|
            0 <= i < r.changes@.len() ==> derived_change_ok(
                spec.requirements@[i],
                #[trigger] r.changes@[i],
            ),
{
    let mut changes: Vec<ProposedChange> = Vec::new();
    let mut i: usize = 0;
    while i < spec.requirements.len()
        invariant
            i <= spec.requirements@.len(),
            changes@.len() == i,
            forall|k: int|
                0 <= k < i ==> derived_change_ok(spec.requirements@[k], #[trigger] changes@[k]),
        decreases spec.requirements@.len() - i,
    {
        let requirement = &spec.requirements[i];
        let files = derive_files_for_requirement(requirement);
        let mut notes: Vec<String> = Vec::new();
        let mut j: usize = 0;
        while j < requirement.acceptance_criteria.len()
            invariant
                j <= requirement.acceptance_criteria@.len(),
                notes@.len() == j,
                forall|k: int|
                    0 <= k < j ==> (#[trigger] notes@[k])@ == acceptance_note(
                        requirement.acceptance_criteria@[k].text@,
                    ),
            decreases requirement.acceptance_criteria@.len() - j,
        {
            let mut note = String::from_str("Acceptance: ");
            push_text(&mut note, requirement.acceptance_criteria[j].text.as_str());
            notes.push(note);
            j += 1;
        }
        changes.push(
            ProposedChange {
                requirement_id: requirement.id.clone(),
                summary: requirement.summary.clone(),
                files,
                notes,
            },
        );
        i += 1;
    }
    let mut rationale = String::from_str("Derived from ");
    let count = decimal_string(spec.requirements.len() as u64);
    push_text(&mut rationale, count.as_str());
    push_text(&mut rationale, " requirements");
    ProposedChanges { rationale, changes }
}

/// Two automated tasks covering every change, or none for an empty change set.
pub fn plan_tests_for_changes(changes: &ProposedChanges) -> (r: TestPlan)
    ensures
        changes.changes@.len() == 0 ==> r.tasks@.len() == 0 && r.summary@
            == "No tests required for documentation-only changes"@,
        changes.changes@.len() > 0 ==> {
            &&& r.tasks@.len() == 2
            &&& r.summary@ == "Planned 2 automated tasks"@
            &&& r.tasks@[0].name@ == "cargo test"@
            &&& r.tasks@[0].command@ == "cargo test"@
            &&& r.tasks@[1].name@ == "fmt check"@
            &&& r.tasks@[1].command@ == "cargo fmt -- --check"@
            &&& forall|t: int|
                0 <= t < 2 ==> {
                    &&& (#[trigger] r.tasks@[t]).related_requirements@.len()
                        == changes.changes@.len()
                    &&& forall|k: int|
                        0 <= k < changes.changes@.len() ==> #[trigger] r.tasks@[t].related_requirements@[k]
                            == changes.changes@[k].requirement_id
                }
        },
{
    let mut related: Vec<String> = Vec::new();
    let mut i: usize = 0;
    while i < changes.changes.len()
        invariant
            i <= changes.changes@.len(),
            related@.len() == i,
            forall|k: int| 0 <= k < i ==> #[trigger] related@[k] == changes.changes@[k].requirement_id,
        decreases changes.changes@.len() - i,
    {
        related.push(changes.changes[i].requirement_id.clone());
        i += 1;
    }
    let mut tasks: Vec<TestTask> = Vec::new();
    if changes.changes.len() == 0 {
        return TestPlan {
            summary: String::from_str("No tests required for documentation-only changes"),
            tasks,
        };
    }
    let second = copy_strings(&related);
    tasks.push(TestTask::new("cargo test", "cargo test", related));
    tasks.push(TestTask::new("fmt check", "cargo fmt -- --check", second));
    TestPlan { summary: String::from_str("Planned 2 automated tasks"), tasks }
}

/// The first status reported for the task named `name`.
pub open spec fn first_status_for(statuses: Seq<TestOutcome>, name: Seq<char>, k: int) -> bool {
    &&& 0 <= k < statuses.len()
    &&& statuses[k].task_name@ == name
    &&& forall|j: int| 0 <= j < k ==> (#[trigger] statuses[j]).task_name@ != name
}

/// Where some status names the task, a first one does.
pub proof fn lemma_first_status_exists(statuses: Seq<TestOutcome>, name: Seq<char>, j: int)
    requires
        0 <= j < statuses.len(),
        statuses[j].task_name@ == name,
    ensures
        exists|k: int| first_status_for(statuses, name, k),
    decreases j,
{
    if exists|m: int| 0 <= m < j && (#[trigger] statuses[m]).task_name@ == name {
        let m = choose|m: int| 0 <= m < j && (#[trigger] statuses[m]).task_name@ == name;
        lemma_first_status_exists(statuses, name, m);
    } else {
        assert(first_status_for(statuses, name, j));
    }
}

/// The outcome recorded for `task`: its first reported status, or a blocked outcome that
/// says no result came.
pub open spec fn merged_outcome_ok(statuses: Seq<TestOutcome>, task: TestTask, o: TestOutcome) -> bool {
    if exists|k: int| first_status_for(statuses, task.name@, k) {
        exists|k: int| first_status_for(statuses, task.name@, k) && o == statuses[k]
    } else {
        &&& o.task_name@ == task.name@
        &&& o.status == TestStatus::Blocked
        &&& opt_str(o.details) == Some("No execution result available"@)
    }
}

/// One outcome per planned task, in the plan's order.
pub fn merge_test_results(plan: &TestPlan, statuses: Vec<TestOutcome>) -> (r: TestResults)
    ensures
        r.plan.summary == plan.summary,
        same_tasks(r.plan.tasks@, plan.tasks@),
        r.outcomes@.len() == plan.tasks@.len(),
        forall|i: int|
            0 <= i < plan.tasks@.len() ==> merged_outcome_ok(
                statuses@,
                plan.tasks@[i],
                #[trigger] r.outcomes@[i],
            ),
{
    let mut outcomes: Vec<TestOutcome> = Vec::new();
    let mut i: usize = 0;
    while i < plan.tasks.len()
        invariant
            i <= plan.tasks@.len(),
            outcomes@.len() == i,
            forall|k: int|
                0 <= k < i ==> merged_outcome_ok(statuses@, plan.tasks@[k], #[trigger] outcomes@[k]),
        decreases plan.tasks@.len() - i,
    {
        let task = &plan.tasks[i];
        let mut j: usize = 0;
        let mut found: Option<usize> = None;
        while j < statuses.len()
            invariant
                j <= statuses@.len(),
                found.is_none() ==> forall|m: int|
                    0 <= m < j ==> (#[trigger] statuses@[m]).task_name@ != task.name@,
                found.is_some() ==> first_status_for(statuses@, task.name@, found.unwrap() as int),
            decreases statuses@.len() - j,
        {
            if found.is_none() && crate::text::same_text(statuses[j].task_name.as_str(), task.name.as_str()) {
                found = Some(j);
            }
            j += 1;
        }
        match found {
            Some(k) => {
                let s = &statuses[k];
                let o = TestOutcome {
                    task_name: s.task_name.clone(),
                    status: s.status,
                    details: copy_opt(&s.details),
                };
                assert(o == statuses@[k as int]);
                outcomes.push(o);
            },
            None => {
                proof {
                    assert forall|k: int| !first_status_for(statuses@, task.name@, k) by {
                        if 0 <= k < statuses@.len() {
                            assert(statuses@[k].task_name@ != task.name@);
                        }
                    }
                }
                outcomes.push(
                    TestOutcome {
                        task_name: task.name.clone(),
                        status: TestStatus::Blocked,
                        details: Some(String::from_str("No execution result available")),
                    },
                );
            },
        }
        i += 1;
    }
    let dup = plan.duplicate();
    TestResults { plan: dup, outcomes }
}

/// The Unicode lower case of a string, as `str::to_lowercase` gives it: a function of the
/// characters alone.
pub uninterp spec fn lowercase_of(s: Seq<char>) -> Seq<char>;

/// Relies on `str::to_lowercase` for the Unicode lower case of `s`.
#[verifier::external_body]
pub(crate) fn to_lowercase(s: &str) -> (r: String)
    ensures
        r@ == lowercase_of(s@),
{
    s.to_lowercase()
}

/// Whether an already lower-cased note speaks of security.
pub fn mentions_security(lowered: &str) -> (r: bool)
    ensures
        r == contains(lowered@, "security"@),
{
    text_contains(lowered, "security")
}

pub open spec fn flags_security(notes: Seq<String>) -> bool {
    exists|k: int| 0 <= k < notes.len() && contains(lowercase_of(#[trigger] notes[k]@), "security"@)
}

/// Findings for changes whose notes speak of security, in change order.
pub open spec fn security_findings(changes: Seq<ProposedChange>) -> Seq<FindingView>
    decreases changes.len(),
{
    if changes.len() == 0 {
        Seq::empty()
    } else {
        let c = changes.last();
        security_findings(changes.drop_last()) + if flags_security(c.notes@) {
            seq![
                (
                    Severity::High,
                    "Security-related requirement "@ + c.requirement_id@ + " needs dedicated review"@,
                    Some(c.requirement_id@),
                    None::<Seq<char>>,
                ),
            ]
        } else {
            Seq::empty()
        }
    }
}

/// Findings for outcomes with `status`, in outcome order.
pub open spec fn outcome_findings(
    outcomes: Seq<TestOutcome>,
    status: TestStatus,
    severity: Severity,
    verb: Seq<char>,
) -> Seq<FindingView>
    decreases outcomes.len(),
{
    if outcomes.len() == 0 {
        Seq::empty()
    } else {
        let o = outcomes.last();
        outcome_findings(outcomes.drop_last(), status, severity, verb) + if o.status == status {
            seq![(severity, "Test "@ + o.task_name@ + verb, None::<Seq<char>>, opt_str(o.details))]
        } else {
            Seq::empty()
        }
    }
}

/// Every finding, most severe first: failed tests, then security notes, then tests that did
/// not run.
pub open spec fn all_findings(changes: Seq<ProposedChange>, outcomes: Seq<TestOutcome>) -> Seq<
    FindingView,
> {
    outcome_findings(outcomes, TestStatus::Failed, Severity::Critical, " failed"@)
        + security_findings(changes) + outcome_findings(
        outcomes,
        TestStatus::Blocked,
        Severity::Medium,
        " did not run"@,
    )
}

pub open spec fn finding_views(v: Seq<ReviewFinding>) -> Seq<FindingView> {
    v.map_values(|f: ReviewFinding| f@)
}

fn push_outcome_findings(
    out: &mut Vec<ReviewFinding>,
    outcomes: &Vec<TestOutcome>,
    status: TestStatus,
    severity: Severity,
    verb: &str,
)
    ensures
        finding_views(final(out)@) == finding_views(old(out)@) + outcome_findings(
            outcomes@,
            status,
            severity,
            verb@,
        ),
{
    let ghost start = finding_views(out@);
    let mut i: usize = 0;
    while i < outcomes.len()
        invariant
            i <= outcomes@.len(),
            finding_views(out@) == start + outcome_findings(
                outcomes@.subrange(0, i as int),
                status,
                severity,
                verb@,
            ),
        decreases outcomes@.len() - i,
    {
        let o = &outcomes[i];
        let ghost before = out@;
        proof {
            assert(outcomes@.subrange(0, i + 1).drop_last() =~= outcomes@.subrange(0, i as int));
        }
        if o.status == status {
            let mut message = String::from_str("Test ");
            push_text(&mut message, o.task_name.as_str());
            push_text(&mut message, verb);
            out.push(
                ReviewFinding {
                    severity,
                    message,
                    related_requirement: None,
                    suggested_fix: copy_opt(&o.details),
                },
            );
            assert(finding_views(out@) =~= finding_views(before) + seq![out@.last()@]);
        }
        proof {
            let next = outcome_findings(outcomes@.subrange(0, i + 1), status, severity, verb@);
            assert(start + next =~= finding_views(out@));
        }
        i += 1;
    }
    assert(outcomes@.subrange(0, outcomes@.len() as int) =~= outcomes@);
}

fn notes_flag_security(notes: &Vec<String>) -> (r: bool)
    ensures
        r == flags_security(notes@),
{
    let mut i: usize = 0;
    while i < notes.len()
        invariant
            i <= notes@.len(),
            forall|k: int| 0 <= k < i ==> !contains(lowercase_of(#[trigger] notes@[k]@), "security"@),
        decreases notes@.len() - i,
    {
        let lowered = to_lowercase(notes[i].as_str());
        if mentions_security(lowered.as_str()) {
            return true;
        }
        i += 1;
    }
    false
}

/// Review findings for a change set and its test results, most severe first.
pub fn review_findings_from_results(changes: &ProposedChanges, results: &TestResults) -> (r:
    ReviewFindings)
    ensures
        finding_views(r.findings@) == all_findings(changes.changes@, results.outcomes@),
        r.findings@.len() == 0 ==> r.summary@ == "No review findings"@,
        r.findings@.len() > 0 ==> r.summary@ == "Identified "@ + decimal(r.findings@.len())
            + " findings"@,
{
    let mut findings: Vec<ReviewFinding> = Vec::new();
    push_outcome_findings(
        &mut findings,
        &results.outcomes,
        TestStatus::Failed,
        Severity::Critical,
        " failed",
    );
    let ghost after_failed = finding_views(findings@);
    let mut i: usize = 0;
    while i < changes.changes.len()
        invariant
            i <= changes.changes@.len(),
            finding_views(findings@) == after_failed + security_findings(
                changes.changes@.subrange(0, i as int),
            ),
        decreases changes.changes@.len() - i,
    {
        let change = &changes.changes[i];
        let ghost before = findings@;
        proof {
            assert(changes.changes@.subrange(0, i + 1).drop_last() =~= changes.changes@.subrange(
                0,
                i as int,
            ));
        }
        if notes_flag_security(&change.notes) {
            let mut message = String::from_str("Security-related requirement ");
            push_text(&mut message, change.requirement_id.as_str());
            push_text(&mut message, " needs dedicated review");
            findings.push(
                ReviewFinding {
                    severity: Severity::High,
                    message,
                    related_requirement: Some(change.requirement_id.clone()),
                    suggested_fix: None,
                },
            );
            assert(finding_views(findings@) =~= finding_views(before) + seq![findings@.last()@]);
        }
        proof {
            let next = security_findings(changes.changes@.subrange(0, i + 1));
            assert(after_failed + next =~= finding_views(findings@));
        }
        i += 1;
    }
    assert(changes.changes@.subrange(0, changes.changes@.len() as int) =~= changes.changes@);
    push_outcome_findings(
        &mut findings,
        &results.outcomes,
        TestStatus::Blocked,
        Severity::Medium,
        " did not run",
    );
    if findings.len() == 0 {
        return ReviewFindings { summary: String::from_str("No review findings"), findings };
    }
    let mut summary = String::from_str("Identified ");
    let count = decimal_string(findings.len() as u64);
    push_text(&mut summary, count.as_str());
    push_text(&mut summary, " findings");
    ReviewFindings { summary, findings }
}

} // verus!
