use subagents::orchestrator::{record_subagent_run, seatbelt_active, SubagentOrchestrator};
use subagents::orchestrator::{
    build_completed_event, check_run_request, decide_after_attempt, duration_millis,
    plan_prompt, telemetry_model, AttemptOutcome, EngineEvent, RetryDecision, RetryPolicy,
    RunEvent, RunMachine, SubAgentOutcome, SubagentRunError, TurnAbortReason,
};

#[test]
fn completed_event_carries_duration() {
    let event = build_completed_event(
        "tester",
        "conv",
        SubAgentOutcome::Success,
        None,
        Some("gpt-5".to_string()),
        1,
        250_000_000,
    );
    let RunEvent::Completed { duration_ms, .. } = event else {
        panic!("expected subagent completed event");
    };
    assert_eq!(duration_ms, Some(1_250));
}

#[test]
fn completed_event_saturates_large_durations() {
    let event = build_completed_event("tester", "conv", SubAgentOutcome::Success, None, None, u64::MAX, 0);
    let RunEvent::Completed { duration_ms, .. } = event else {
        panic!("expected subagent completed event");
    };
    assert_eq!(duration_ms, Some(u64::MAX));
}

#[test]
fn duration_saturates() {
    assert_eq!(duration_millis(u64::MAX / 1000 + 1, 0), u64::MAX);
    assert_eq!(duration_millis(u64::MAX / 1000, 999_999_999), u64::MAX);
    assert_eq!(duration_millis(0, 1_999_999), 1);
}

#[test]
fn success_path_ends_once() {
    let mut m = RunMachine::new("conv-1".to_string(), Some("gpt-5".to_string()));
    assert_eq!(m.step(EngineEvent::AgentMessage("working".to_string())), vec!["working".to_string()]);
    assert_eq!(
        m.step(EngineEvent::StreamError("hiccup".to_string())),
        vec!["stream error: hiccup".to_string()]
    );
    assert!(m.is_streaming());
    assert_eq!(m.step(EngineEvent::TaskComplete(Some("done".to_string()))), vec!["done".to_string()]);
    assert!(!m.is_streaming());
    assert!(m.step(EngineEvent::AgentMessage("late".to_string())).is_empty());
    let state = m.terminate(42).expect("first end yields the record");
    assert_eq!(state.outcome, SubAgentOutcome::Success);
    assert_eq!(state.last_message.as_deref(), Some("done"));
    assert_eq!(state.duration_ms, 42);
    assert!(m.terminate(43).is_none());
}

#[test]
fn abort_error_and_timeout_paths() {
    let mut aborted = RunMachine::new("c".to_string(), None);
    aborted.step(EngineEvent::TurnAborted(TurnAbortReason::Replaced));
    let s = aborted.terminate(1).unwrap();
    assert_eq!(s.outcome, SubAgentOutcome::Error);
    assert_eq!(s.error.as_deref(), Some("Subagent turn replaced by another task"));
    assert!(aborted.terminate(1).is_none());

    let mut errored = RunMachine::new("c".to_string(), None);
    assert_eq!(errored.step(EngineEvent::Error("bad".to_string())), vec!["error: bad".to_string()]);
    assert!(errored.is_streaming());
    errored.step(EngineEvent::TaskComplete(Some("error: bad".to_string())));
    let s = errored.terminate(2).unwrap();
    assert_eq!(s.error.as_deref(), Some("bad"));
    assert_eq!(s.last_message.as_deref(), Some("error: bad"));

    let mut timed_out = RunMachine::new("c".to_string(), None);
    timed_out.step(EngineEvent::AgentMessage("partial".to_string()));
    assert!(timed_out.terminate(300_000).is_some());
    assert!(timed_out.terminate(300_001).is_none());
}

#[test]
fn retries_and_timeouts() {
    let p = RetryPolicy::new();
    assert_eq!(p.timeout_secs, 300);
    assert_eq!(decide_after_attempt(p, 1, AttemptOutcome::Failed(None)), RetryDecision::Retry);
    assert_eq!(decide_after_attempt(p, 2, AttemptOutcome::Failed(None)), RetryDecision::Retry);
    assert_eq!(
        decide_after_attempt(p, 3, AttemptOutcome::Failed(Some("boom".to_string()))),
        RetryDecision::GiveUp(SubagentRunError::Failed("boom".to_string()))
    );
    assert_eq!(
        decide_after_attempt(p, 3, AttemptOutcome::Failed(None)),
        RetryDecision::GiveUp(SubagentRunError::Failed("subagent execution failed".to_string()))
    );
    assert_eq!(
        decide_after_attempt(p, 1, AttemptOutcome::TimedOut),
        RetryDecision::GiveUp(SubagentRunError::Timeout { secs: 300 })
    );
    assert_eq!(decide_after_attempt(p, 1, AttemptOutcome::Completed), RetryDecision::Finish);
}

#[test]
fn prompts_and_prechecks() {
    let (text, preview) = plan_prompt(None);
    assert_eq!(text, "Please execute your standard workflow.");
    assert!(preview.is_none());
    let (text, preview) = plan_prompt(Some("   ".to_string()));
    assert_eq!(text, "Please execute your standard workflow.");
    assert!(preview.is_none());
    let (text, preview) = plan_prompt(Some(" fix it ".to_string()));
    assert_eq!(text, " fix it ");
    assert_eq!(preview.as_deref(), Some("prompt: fix it"));
    let long = "x".repeat(250);
    let (_, preview) = plan_prompt(Some(long));
    assert_eq!(preview.unwrap(), format!("prompt: {}…", "x".repeat(200)));
    assert_eq!(check_run_request(false, true, "a"), Err(SubagentRunError::Disabled));
    assert_eq!(
        check_run_request(true, false, "ghost"),
        Err(SubagentRunError::UnknownAgent("ghost".to_string()))
    );
    assert_eq!(check_run_request(true, true, "a"), Ok(()));
    assert_eq!(telemetry_model(&None), "<session default>");
}

#[test]
fn telemetry_and_sandbox_signals() {
    let obs = record_subagent_run("tester", 2, 5_000_000, SubAgentOutcome::Error, &None);
    assert_eq!(obs.model, "<session default>");
    assert_eq!(obs.duration_ms, 2_005);
    assert!(!obs.success);
    assert!(seatbelt_active(Some("seatbelt")));
    assert!(!seatbelt_active(Some("none")));
    assert!(!seatbelt_active(None));
    let off = SubagentOrchestrator::new(false, RetryPolicy::new());
    assert_eq!(off.check_request(true, "a"), Err(SubagentRunError::Disabled));
    let on = SubagentOrchestrator::new(true, RetryPolicy::new());
    let mut run = on.begin("conv".to_string(), None);
    run.step(EngineEvent::ShutdownComplete);
    assert!(run.terminate(0).is_some());
    assert_eq!(on.after_attempt(3, AttemptOutcome::Failed(None)), RetryDecision::GiveUp(SubagentRunError::Failed("subagent execution failed".to_string())));
}

#[test]
fn finishing_yields_completion_and_release_once() {
    let mut m = RunMachine::new("conv-9".to_string(), Some("gpt-5".to_string()));
    m.step(EngineEvent::AgentMessage("partial".to_string()));
    m.step(EngineEvent::DeadlinePassed);
    assert!(!m.is_streaming());
    let end = m.finish("tester", 2, 0).expect("first end");
    assert_eq!(end.release, "conv-9");
    assert_eq!(end.state.outcome, SubAgentOutcome::Error);
    assert_eq!(end.state.error.as_deref(), Some("Subagent timed out"));
    assert_eq!(end.state.duration_ms, 2_000);
    match end.completed {
        RunEvent::Completed { outcome, error, model, duration_ms, .. } => {
            assert_eq!(outcome, SubAgentOutcome::Error);
            assert_eq!(error.as_deref(), Some("Subagent timed out"));
            assert_eq!(model.as_deref(), Some("gpt-5"));
            assert_eq!(duration_ms, Some(2_000));
        }
        _ => panic!("expected completion"),
    }
    assert!(m.finish("tester", 3, 0).is_none());
}
