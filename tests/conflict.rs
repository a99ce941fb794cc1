use subagents::conflict::{ConflictDetectionResult, PatchRequest, SubagentConflictTracker};

fn patch(call: &str, agent: Option<&str>, files: &[&str]) -> PatchRequest {
    PatchRequest {
        call_id: call.to_string(),
        agent_name: agent.map(|a| a.to_string()),
        conversation_id: None,
        files: files.iter().map(|f| f.to_string()).collect(),
    }
}

#[test]
fn concurrent_edit_blocks_then_warns() {
    let mut tracker = SubagentConflictTracker::new();
    let first = patch("call-1", Some("code-writer"), &["src/lib.rs"]);
    tracker.record_patch_begin(&first, 100);
    let second = patch("call-2", Some("tester"), &["src/lib.rs"]);
    match tracker.check_conflicts(&second) {
        ConflictDetectionResult::Blocked { conflicting_files, blocking_agent, message } => {
            assert_eq!(conflicting_files, vec!["src/lib.rs".to_string()]);
            assert_eq!(blocking_agent, "code-writer");
            assert_eq!(
                message,
                "Cannot apply patch: code-writer is currently modifying 1 files that tester is trying to edit"
            );
        }
        other => panic!("expected a block, got {other:?}"),
    }
    tracker.record_patch_end("call-1", true);
    let third = patch("call-3", Some("inspector"), &["src/lib.rs"]);
    match tracker.check_conflicts(&third) {
        ConflictDetectionResult::Warning { conflicting_files, message } => {
            assert_eq!(conflicting_files.len(), 1);
            assert_eq!(conflicting_files[0].previous_agent, "code-writer");
            assert_eq!(conflicting_files[0].previous_timestamp, 100);
            assert_eq!(
                message,
                "Warning: 1 files were previously modified by different subagents in this session"
            );
        }
        other => panic!("expected a warning, got {other:?}"),
    }
    let attribution = tracker.get_file_attribution("src/lib.rs").unwrap();
    assert_eq!(attribution.agent_name, "code-writer");
    assert_eq!(attribution.conversation_id, "main");
    assert_eq!(attribution.call_id, "call-1");
}

#[test]
fn same_agent_and_own_call_are_clear() {
    let mut tracker = SubagentConflictTracker::new();
    let p = patch("c1", Some("a"), &["x"]);
    tracker.record_patch_begin(&p, 1);
    assert!(matches!(tracker.check_conflicts(&p), ConflictDetectionResult::Clear));
    assert!(matches!(
        tracker.check_conflicts(&patch("c2", Some("a"), &["x"])),
        ConflictDetectionResult::Clear
    ));
    assert!(matches!(
        tracker.check_conflicts(&patch("c3", Some("b"), &["y"])),
        ConflictDetectionResult::Clear
    ));
}

#[test]
fn failed_patch_leaves_no_attribution() {
    let mut tracker = SubagentConflictTracker::new();
    tracker.record_patch_begin(&patch("c1", Some("a"), &["x"]), 5);
    tracker.record_patch_end("c1", false);
    assert!(tracker.get_file_attribution("x").is_none());
    let summary = tracker.get_summary();
    assert_eq!(summary.active_patches, 0);
    assert_eq!(summary.total_patches_applied, 1);
    assert_eq!(summary.successful_patches, 0);
    tracker.record_patch_end("unknown", true);
    assert_eq!(tracker.get_summary().total_patches_applied, 1);
    tracker.clear();
    assert_eq!(tracker.get_summary().total_patches_applied, 0);
}

#[test]
fn history_by_agent() {
    let mut tracker = SubagentConflictTracker::default();
    tracker.record_patch_begin(&patch("c1", Some("a"), &["x"]), 1);
    tracker.record_patch_begin(&patch("c2", Some("b"), &["y"]), 2);
    tracker.record_patch_begin(&patch("c3", Some("a"), &["z"]), 3);
    tracker.record_patch_end("c1", true);
    tracker.record_patch_end("c2", true);
    tracker.record_patch_end("c3", false);
    let mine = tracker.get_patches_by_agent("a");
    assert_eq!(mine.len(), 2);
    assert_eq!(mine[0].call_id, "c1");
    assert!(mine[0].success);
    assert_eq!(mine[1].call_id, "c3");
    assert!(!mine[1].success);
    assert_eq!(tracker.get_summary().successful_patches, 2);
}
