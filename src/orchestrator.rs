use vstd::prelude::*;
use vstd::string::StringExecFns;
use crate::pipeline::{copy_opt, opt_str};
use crate::text::{chars_of, push_text, same_text, string_of, trim, trim_string};

verus! {

/// How a run ended.
#[derive(Debug, Clone, Copy, PartialEq, Eq, Structural)]
pub enum SubAgentOutcome {
    Success,
    Error,
}

/// Why the engine aborted a turn.
#[derive(Debug, Clone, Copy, PartialEq, Eq, Structural)]
pub enum TurnAbortReason {
    Interrupted,
    Replaced,
    ReviewEnded,
}

/// What the conversational engine reports while a subagent runs.
#[derive(Debug, Clone)]
pub enum EngineEvent {
    AgentMessage(String),
    AgentMessageDelta,
    TaskComplete(Option<String>),
    TurnAborted(TurnAbortReason),
    Error(String),
    StreamError(String),
    ShutdownComplete,
    /// The event stream itself failed.
    ConnectionLost(String),
    /// The attempt's deadline passed before the run ended.
    DeadlinePassed,
    Other,
}

/// The final record of one run.
#[derive(Debug, Clone)]
pub struct SubagentRunState {
    pub conversation_id: String,
    pub model: Option<String>,
    pub outcome: SubAgentOutcome,
    pub error: Option<String>,
    pub last_message: Option<String>,
    pub duration_ms: u64,
}

/// The decisions of one run, fed one engine event at a time.
#[derive(Debug)]
pub struct RunMachine {
    pub conversation_id: String,
    pub model: Option<String>,
    pub streaming: bool,
    pub outcome: SubAgentOutcome,
    pub error: Option<String>,
    pub last_message: Option<String>,
    pub terminated: bool,
}

/// A run as plain values: streaming, outcome, error text, last message, terminated.
pub type MachineV = (bool, SubAgentOutcome, Option<Seq<char>>, Option<Seq<char>>, bool);

pub open spec fn abort_message(r: TurnAbortReason) -> Seq<char> {
    match r {
        TurnAbortReason::Interrupted => "Subagent turn interrupted"@,
        TurnAbortReason::Replaced => "Subagent turn replaced by another task"@,
        TurnAbortReason::ReviewEnded => "Subagent review thread ended"@,
    }
}

/// One step of a run: the state after `ev`, and the messages forwarded to the caller.
pub open spec fn step_spec(m: MachineV, ev: EngineEvent) -> (MachineV, Seq<Seq<char>>) {
    let (streaming, outcome, error, last, terminated) = m;
    if !streaming {
        (m, Seq::empty())
    } else {
        match ev {
            EngineEvent::AgentMessage(t) => (
                (true, outcome, error, Some(t@), terminated),
                seq![t@],
            ),
            EngineEvent::TaskComplete(o) => match o {
                Some(x) => if trim(x@).len() > 0 && last != Some(x@) {
                    ((false, outcome, error, Some(x@), terminated), seq![x@])
                } else {
                    ((false, outcome, error, last, terminated), Seq::empty())
                },
                None => ((false, outcome, error, last, terminated), Seq::empty()),
            },
            EngineEvent::TurnAborted(r) => (
                (
                    false,
                    SubAgentOutcome::Error,
                    Some(abort_message(r)),
                    Some(abort_message(r)),
                    terminated,
                ),
                seq![abort_message(r)],
            ),
            EngineEvent::Error(t) => (
                (true, SubAgentOutcome::Error, Some(t@), Some("error: "@ + t@), terminated),
                seq!["error: "@ + t@],
            ),
            EngineEvent::StreamError(t) => (
                (true, outcome, error, Some("stream error: "@ + t@), terminated),
                seq!["stream error: "@ + t@],
            ),
            EngineEvent::ShutdownComplete => ((false, outcome, error, last, terminated), Seq::empty()),
            EngineEvent::DeadlinePassed => (
                (false, SubAgentOutcome::Error, Some("Subagent timed out"@), last, terminated),
                Seq::empty(),
            ),
            EngineEvent::ConnectionLost(t) => (
                (
                    false,
                    SubAgentOutcome::Error,
                    Some("subagent conversation error: "@ + t@),
                    Some("subagent conversation error: "@ + t@),
                    terminated,
                ),
                seq!["subagent conversation error: "@ + t@],
            ),
            _ => (m, Seq::empty()),
        }
    }
}

/// The state after a whole sequence of events.
pub open spec fn steps_spec(m: MachineV, events: Seq<EngineEvent>) -> MachineV
    decreases events.len(),
{
    if events.len() == 0 {
        m
    } else {
        step_spec(steps_spec(m, events.drop_last()), events.last()).0
    }
}

/// The state at the start of a run.
pub open spec fn fresh_run() -> MachineV {
    (true, SubAgentOutcome::Success, None, None, false)
}

/// Ending a run: the first end yields the terminal record and releases the conversation;
/// any later one yields nothing.
pub open spec fn terminate_spec(m: MachineV) -> (MachineV, bool) {
    let (streaming, outcome, error, last, terminated) = m;
    if terminated {
        (m, false)
    } else {
        ((false, outcome, error, last, true), true)
    }
}

impl RunMachine {
    pub open spec fn view(&self) -> MachineV {
        (self.streaming, self.outcome, opt_str(self.error), opt_str(self.last_message), self.terminated)
    }

    pub fn new(conversation_id: String, model: Option<String>) -> (r: Self)
        ensures
            r.view() == fresh_run(),
            r.conversation_id == conversation_id,
            r.model == model,
    {
        RunMachine {
            conversation_id,
            model,
            streaming: true,
            outcome: SubAgentOutcome::Success,
            error: None,
            last_message: None,
            terminated: false,
        }
    }

    /// Whether the run still waits for engine events.
    pub fn is_streaming(&self) -> (r: bool)
        ensures
            r == self.streaming,
    {
        self.streaming
    }

    /// Takes one engine event; returns the messages to forward, in order.
    pub fn step(&mut self, ev: EngineEvent) -> (r: Vec<String>)
        ensures
            final(self).view() == step_spec(old(self).view(), ev).0,
            r@.map_values(|s: String| s@) == step_spec(old(self).view(), ev).1,
            final(self).conversation_id == old(self).conversation_id,
            final(self).model == old(self).model,
    {
        let mut out: Vec<String> = Vec::new();
        if !self.streaming {
            assert(out@.map_values(|s: String| s@) =~= Seq::<Seq<char>>::empty());
            return out;
        }
        let ghost ev0 = ev;
        match ev {
            EngineEvent::AgentMessage(t) => {
                self.last_message = Some(t.clone());
                out.push(t);
            },
            EngineEvent::TaskComplete(o) => {
                self.streaming = false;
                match o {
                    Some(x) => {
                        let blank = trim_string(x.as_str()).as_str().unicode_len() == 0;
                        let repeat = match &self.last_message {
                            Some(l) => same_text(l.as_str(), x.as_str()),
                            None => false,
                        };
                        if !blank && !repeat {
                            self.last_message = Some(x.clone());
                            out.push(x);
                        }
                    },
                    None => {},
                }
            },
            EngineEvent::TurnAborted(r) => {
                let message = match r {
                    TurnAbortReason::Interrupted => String::from_str("Subagent turn interrupted"),
                    TurnAbortReason::Replaced => String::from_str(
                        "Subagent turn replaced by another task",
                    ),
                    TurnAbortReason::ReviewEnded => String::from_str("Subagent review thread ended"),
                };
                self.streaming = false;
                self.outcome = SubAgentOutcome::Error;
                self.error = Some(message.clone());
                self.last_message = Some(message.clone());
                out.push(message);
            },
            EngineEvent::Error(t) => {
                let mut rendered = String::from_str("error: ");
                push_text(&mut rendered, t.as_str());
                self.outcome = SubAgentOutcome::Error;
                self.error = Some(t);
                self.last_message = Some(rendered.clone());
                out.push(rendered);
            },
            EngineEvent::StreamError(t) => {
                let mut rendered = String::from_str("stream error: ");
                push_text(&mut rendered, t.as_str());
                self.last_message = Some(rendered.clone());
                out.push(rendered);
            },
            EngineEvent::ShutdownComplete => {
                self.streaming = false;
            },
            EngineEvent::DeadlinePassed => {
                self.streaming = false;
                self.outcome = SubAgentOutcome::Error;
                self.error = Some(String::from_str("Subagent timed out"));
            },
            EngineEvent::ConnectionLost(t) => {
                let mut message = String::from_str("subagent conversation error: ");
                push_text(&mut message, t.as_str());
                self.streaming = false;
                self.outcome = SubAgentOutcome::Error;
                self.error = Some(message.clone());
                self.last_message = Some(message.clone());
                out.push(message);
            },
            _ => {},
        }
        assert(out@.map_values(|s: String| s@) =~= step_spec(old(self).view(), ev0).1);
        out
    }

    /// Ends the run after `duration_ms`: the first call yields the terminal record (the
    /// caller then releases the conversation); later calls yield nothing.
    pub fn terminate(&mut self, duration_ms: u64) -> (r: Option<SubagentRunState>)
        ensures
            final(self).view() == terminate_spec(old(self).view()).0,
            (r is Some) == terminate_spec(old(self).view()).1,
            match r {
                Some(s) => {
                    &&& s.conversation_id == old(self).conversation_id
                    &&& s.model == old(self).model
                    &&& s.outcome == old(self).outcome
                    &&& s.error == old(self).error
                    &&& s.last_message == old(self).last_message
                    &&& s.duration_ms == duration_ms
                },
                None => true,
            },
    {
        if self.terminated {
            return None;
        }
        self.terminated = true;
        self.streaming = false;
        Some(
            SubagentRunState {
                conversation_id: self.conversation_id.clone(),
                model: copy_opt(&self.model),
                outcome: self.outcome,
                error: copy_opt(&self.error),
                last_message: copy_opt(&self.last_message),
                duration_ms,
            },
        )
    }
}

proof fn lemma_steps_keep_open(events: Seq<EngineEvent>)
    ensures
        !steps_spec(fresh_run(), events).4,
    decreases events.len(),
{
    if events.len() > 0 {
        lemma_steps_keep_open(events.drop_last());
    }
}

/// Whatever the engine reports (completion, abort, errors, or nothing before a timeout), a
/// run ends with exactly one terminal record and one release: the first end yields them,
/// and a second end yields nothing.
pub proof fn law_single_terminal(events: Seq<EngineEvent>)
    ensures
        ({
            let m = steps_spec(fresh_run(), events);
            let (after, first) = terminate_spec(m);
            let (_, second) = terminate_spec(after);
            first && !second
        }),
{
    lemma_steps_keep_open(events);
}

/// What a run reports to its caller, in order: one start, messages, one completion.
#[derive(Debug, Clone)]
pub enum RunEvent {
    Started { agent_name: String, conversation_id: String, model: Option<String> },
    Message { agent_name: String, conversation_id: String, text: String },
    Completed {
        agent_name: String,
        conversation_id: String,
        outcome: SubAgentOutcome,
        error: Option<String>,
        model: Option<String>,
        duration_ms: Option<u64>,
    },
}

/// The completion event of a run that took `secs` seconds and `nanos` nanoseconds.
pub fn build_completed_event(
    agent_name: &str,
    conversation_id: &str,
    outcome: SubAgentOutcome,
    error: Option<String>,
    model: Option<String>,
    secs: u64,
    nanos: u32,
) -> (r: RunEvent)
    ensures
        match r {
            RunEvent::Completed { agent_name: a, conversation_id: c, outcome: o, error: e, model: m, duration_ms } => {
                &&& a@ == agent_name@
                &&& c@ == conversation_id@
                &&& o == outcome
                &&& e == error
                &&& m == model
                &&& duration_ms == Some(millis_saturated(secs, nanos) as u64)
            },
            _ => false,
        },
{
    RunEvent::Completed {
        agent_name: String::from_str(agent_name),
        conversation_id: String::from_str(conversation_id),
        outcome,
        error,
        model,
        duration_ms: Some(duration_millis(secs, nanos)),
    }
}

// ---------------------------------------------------------------------------
// Prompt, duration, retries
// ---------------------------------------------------------------------------

pub open spec fn default_prompt() -> Seq<char> {
    "Please execute your standard workflow."@
}

pub open spec fn shorten(s: Seq<char>) -> Seq<char> {
    if s.len() > 200 {
        "prompt: "@ + s.subrange(0, 200) + "…"@
    } else {
        "prompt: "@ + s
    }
}

/// The text submitted for `prompt` (the default when it is absent or blank), and the preview
/// message forwarded before it, if any.
pub fn plan_prompt(prompt: Option<String>) -> (r: (String, Option<String>))
    ensures
        match prompt {
            Some(p) => if trim(p@).len() == 0 {
                r.0@ == default_prompt() && r.1 is None
            } else {
                r.0@ == p@ && opt_str(r.1) == Some(shorten(trim(p@)))
            },
            None => r.0@ == default_prompt() && r.1 is None,
        },
{
    match prompt {
        Some(text) => {
            let trimmed = trim_string(text.as_str());
            let v = chars_of(trimmed.as_str());
            if v.len() == 0 {
                return (String::from_str("Please execute your standard workflow."), None);
            }
            let mut preview = String::from_str("prompt: ");
            if v.len() > 200 {
                let head = string_of(&v, 0, 200);
                push_text(&mut preview, head.as_str());
                push_text(&mut preview, "…");
            } else {
                push_text(&mut preview, trimmed.as_str());
            }
            (text, Some(preview))
        },
        None => (String::from_str("Please execute your standard workflow."), None),
    }
}

/// Milliseconds in `secs` seconds and `nanos` nanoseconds, saturating at `u64::MAX`.
pub open spec fn millis_saturated(secs: u64, nanos: u32) -> int {
    let ms = secs * 1000 + nanos / 1_000_000;
    if ms > u64::MAX { u64::MAX as int } else { ms }
}

/// A duration in whole milliseconds; the largest value stands for anything longer.
pub fn duration_millis(secs: u64, nanos: u32) -> (r: u64)
    ensures
        r == millis_saturated(secs, nanos),
{
    let extra: u64 = (nanos / 1_000_000) as u64;
    if secs > (u64::MAX - extra) / 1000 {
        proof {
            assert(secs * 1000 + extra > u64::MAX) by (nonlinear_arith)
                requires secs > (u64::MAX - extra) / 1000, extra <= 4294;
        }
        u64::MAX
    } else {
        proof {
            assert(secs * 1000 + extra <= u64::MAX) by (nonlinear_arith)
                requires secs <= (u64::MAX - extra) / 1000, extra <= 4294;
        }
        secs * 1000 + extra
    }
}

/// Bounds on one run: per-attempt timeout and how many retries follow a failed attempt.
#[derive(Debug, Clone, Copy, PartialEq, Eq, Structural)]
pub struct RetryPolicy {
    pub timeout_secs: u64,
    pub max_retries: u32,
}

impl RetryPolicy {
    pub fn new() -> (r: Self)
        ensures
            r.timeout_secs == 300,
            r.max_retries == 2,
    {
        RetryPolicy { timeout_secs: 300, max_retries: 2 }
    }
}

/// How one attempt went.
#[derive(Debug, Clone)]
pub enum AttemptOutcome {
    Completed,
    Failed(Option<String>),
    TimedOut,
}

/// Why a run request failed.
#[derive(Debug, Clone, PartialEq, Eq)]
pub enum SubagentRunError {
    Disabled,
    UnknownAgent(String),
    Timeout { secs: u64 },
    Failed(String),
}

/// What follows an attempt.
#[derive(Debug, Clone, PartialEq, Eq)]
pub enum RetryDecision {
    Finish,
    Retry,
    GiveUp(SubagentRunError),
}

/// After attempt number `attempt` (counting from 1): a timeout ends the run at once, a failure
/// is retried while retries remain, and the last failure's text (or a generic one) is given
/// when they run out.
pub fn decide_after_attempt(policy: RetryPolicy, attempt: u32, outcome: AttemptOutcome) -> (r: RetryDecision)
    requires
        attempt >= 1,
    ensures
        match outcome {
            AttemptOutcome::Completed => r == RetryDecision::Finish,
            AttemptOutcome::TimedOut => r == RetryDecision::GiveUp(SubagentRunError::Timeout { secs: policy.timeout_secs }),
            AttemptOutcome::Failed(e) => if attempt <= policy.max_retries {
                r == RetryDecision::Retry
            } else {
                match r {
                    RetryDecision::GiveUp(SubagentRunError::Failed(t)) => t@ == match e {
                        Some(x) => x@,
                        None => "subagent execution failed"@,
                    },
                    _ => false,
                }
            },
        },
{
    match outcome {
        AttemptOutcome::Completed => RetryDecision::Finish,
        AttemptOutcome::TimedOut => RetryDecision::GiveUp(SubagentRunError::Timeout { secs: policy.timeout_secs }),
        AttemptOutcome::Failed(e) => {
            if attempt <= policy.max_retries {
                RetryDecision::Retry
            } else {
                let text = match e {
                    Some(x) => x,
                    None => String::from_str("subagent execution failed"),
                };
                RetryDecision::GiveUp(SubagentRunError::Failed(text))
            }
        },
    }
}

/// The checks before any work: the feature must be on and the agent known.
pub fn check_run_request(enabled: bool, known: bool, name: &str) -> (r: Result<(), SubagentRunError>)
    ensures
        !enabled ==> r == Err::<(), SubagentRunError>(SubagentRunError::Disabled),
        enabled && !known ==> (match r {
            Err(SubagentRunError::UnknownAgent(n)) => n@ == name@,
            _ => false,
        }),
        enabled && known ==> r is Ok,
{
    if !enabled {
        return Err(SubagentRunError::Disabled);
    }
    if !known {
        return Err(SubagentRunError::UnknownAgent(String::from_str(name)));
    }
    Ok(())
}

/// The model named in telemetry: the resolved one, or the session default.
pub fn telemetry_model(model: &Option<String>) -> (r: String)
    ensures
        r@ == match model {
            Some(m) => m@,
            None => "<session default>"@,
        },
{
    match model {
        Some(m) => m.clone(),
        None => String::from_str("<session default>"),
    }
}

/// Whether the sandbox signal names the seatbelt profile.
pub fn seatbelt_active(value: Option<&str>) -> (r: bool)
    ensures
        r == match value {
            Some(v) => v@ == "seatbelt"@,
            None => false,
        },
{
    match value {
        Some(v) => crate::text::same_text(v, "seatbelt"),
        None => false,
    }
}

/// One observation for the telemetry sink about a finished run.
#[derive(Debug, Clone)]
pub struct TelemetryObservation {
    pub agent: String,
    pub model: String,
    pub duration_ms: u64,
    pub success: bool,
    pub outcome: SubAgentOutcome,
}

/// The observation recorded for a run of `agent_name` that took `secs` seconds and `nanos`
/// nanoseconds.
pub fn record_subagent_run(
    agent_name: &str,
    secs: u64,
    nanos: u32,
    outcome: SubAgentOutcome,
    model: &Option<String>,
) -> (r: TelemetryObservation)
    ensures
        r.agent@ == agent_name@,
        r.model@ == match *model {
            Some(m) => m@,
            None => "<session default>"@,
        },
        r.duration_ms == millis_saturated(secs, nanos),
        r.success == (outcome == SubAgentOutcome::Success),
        r.outcome == outcome,
{
    TelemetryObservation {
        agent: String::from_str(agent_name),
        model: telemetry_model(model),
        duration_ms: duration_millis(secs, nanos),
        success: outcome == SubAgentOutcome::Success,
        outcome,
    }
}

/// Runs subagents: applies the feature flag and the retry policy, and starts run machines.
#[derive(Debug, Clone, Copy)]
pub struct SubagentOrchestrator {
    pub enabled: bool,
    pub policy: RetryPolicy,
}

impl SubagentOrchestrator {
    pub fn new(enabled: bool, policy: RetryPolicy) -> (r: Self)
        ensures
            r.enabled == enabled,
            r.policy == policy,
    {
        SubagentOrchestrator { enabled, policy }
    }

    /// The checks before a run of `name`, which the registry does or does not know.
    pub fn check_request(&self, known: bool, name: &str) -> (r: Result<(), SubagentRunError>)
        ensures
            !self.enabled ==> r == Err::<(), SubagentRunError>(SubagentRunError::Disabled),
            self.enabled && !known ==> (match r {
                Err(SubagentRunError::UnknownAgent(n)) => n@ == name@,
                _ => false,
            }),
            self.enabled && known ==> r is Ok,
    {
        check_run_request(self.enabled, known, name)
    }

    /// A run machine for a conversation the engine has just spawned.
    pub fn begin(&self, conversation_id: String, model: Option<String>) -> (r: RunMachine)
        ensures
            r.view() == fresh_run(),
            r.conversation_id == conversation_id,
            r.model == model,
    {
        RunMachine::new(conversation_id, model)
    }

    /// What follows attempt number `attempt`.
    pub fn after_attempt(&self, attempt: u32, outcome: AttemptOutcome) -> (r: RetryDecision)
        requires
            attempt >= 1,
        ensures
            match outcome {
                AttemptOutcome::Completed => r == RetryDecision::Finish,
                AttemptOutcome::TimedOut => r == RetryDecision::GiveUp(SubagentRunError::Timeout { secs: self.policy.timeout_secs }),
                AttemptOutcome::Failed(e) => if attempt <= self.policy.max_retries {
                    r == RetryDecision::Retry
                } else {
                    match r {
                        RetryDecision::GiveUp(SubagentRunError::Failed(t)) => t@ == match e {
                            Some(x) => x@,
                            None => "subagent execution failed"@,
                        },
                        _ => false,
                    }
                },
            },
    {
        decide_after_attempt(self.policy, attempt, outcome)
    }
}

/// What ending a run hands to its caller: the terminal record, the completion event to
/// deliver last, the telemetry observation, and the conversation to release.
#[derive(Debug, Clone)]
pub struct RunEnd {
    pub state: SubagentRunState,
    pub completed: RunEvent,
    pub telemetry: TelemetryObservation,
    pub release: String,
}

impl RunMachine {
    /// Ends the run of `agent_name` after `secs` seconds and `nanos` nanoseconds. The first
    /// call yields the terminal record, a completion event that carries the record's outcome,
    /// error and model, the telemetry observation, and the conversation to release; later
    /// calls yield nothing.
    pub fn finish(&mut self, agent_name: &str, secs: u64, nanos: u32) -> (r: Option<RunEnd>)
        ensures
            final(self).view() == terminate_spec(old(self).view()).0,
            (r is Some) == terminate_spec(old(self).view()).1,
            match r {
                Some(end) => {
                    &&& end.state.conversation_id == old(self).conversation_id
                    &&& end.state.model == old(self).model
                    &&& end.state.outcome == old(self).outcome
                    &&& end.state.error == old(self).error
                    &&& end.state.last_message == old(self).last_message
                    &&& end.state.duration_ms == millis_saturated(secs, nanos)
                    &&& end.release@ == old(self).conversation_id@
                    &&& end.telemetry.agent@ == agent_name@
                    &&& end.telemetry.duration_ms == end.state.duration_ms
                    &&& end.telemetry.outcome == end.state.outcome
                    &&& match end.completed {
                        RunEvent::Completed { agent_name: a, conversation_id: c, outcome, error, model, duration_ms } => {
                            &&& a@ == agent_name@
                            &&& c@ == end.state.conversation_id@
                            &&& outcome == end.state.outcome
                            &&& error == end.state.error
                            &&& model == end.state.model
                            &&& duration_ms == Some(end.state.duration_ms)
                        },
                        _ => false,
                    }
                },
                None => true,
            },
    {
        let ms = duration_millis(secs, nanos);
        let state = match self.terminate(ms) {
            Some(s) => s,
            None => {
                return None;
            },
        };
        let completed = build_completed_event(
            agent_name,
            state.conversation_id.as_str(),
            state.outcome,
            copy_opt(&state.error),
            copy_opt(&state.model),
            secs,
            nanos,
        );
        let telemetry = record_subagent_run(agent_name, secs, nanos, state.outcome, &state.model);
        let release = state.conversation_id.clone();
        Some(RunEnd { state, completed, telemetry, release })
    }
}

} // verus!
