use verlet_agent_loop::events::{ToolCallCancellation, VerletError};
use verlet_agent_loop::commands::ToolAppendOutcome;
use verlet_agent_loop::history::{CanonicalContent, CanonicalMessage, ProviderToolCall};
use verlet_agent_loop::recovery::ToolRecoveryAction;
use verlet_agent_loop::tools::{
    batch_append_outcome, batch_calls_to_run, cancelled_tool_call_outcome, check_unique_call_ids,
    context_receipt_static_segments, controlled_execution, failed_tool_call_outcome, merge_tool_definitions,
    panic_payload_message, recovery_preparation, resumed_tool_call_action, schedule_step,
    settle_prepared_for_cancellation, tool_completion_log, unexecuted_call_error, ToolLogLevel, ControlledExecution, PreparedToolCallOutcome,
    RecoveryPreparation, ResumedToolCallAction, ToolCallDecision, ToolDefinition, WitnessedToolCall,
};

fn call(id: &str, name: &str) -> ProviderToolCall {
    ProviderToolCall { id: id.to_string(), name: name.to_string(), arguments: serde_json::Value::Null }
}

fn witness(action: ToolRecoveryAction, source: Option<u64>, mismatch: bool) -> WitnessedToolCall {
    WitnessedToolCall {
        tool_call: ProviderToolCall {
            id: "call-1".to_string(),
            name: "thread_status".to_string(),
            arguments: serde_json::Value::Null,
        },
        snapshot_id: "snapshot-1".to_string(),
        args_fingerprint: Some("fp".to_string()),
        request_event_id: 42,
        recovery_action: action,
        recovery_source_event_id: source,
        recovery_fingerprint_mismatch: mismatch,
    }
}

fn tool(name: &str, description: &str) -> ToolDefinition {
    ToolDefinition { name: name.to_string(), description: description.to_string(), input_schema: serde_json::Value::Null }
}

fn error_text(outcome: &PreparedToolCallOutcome) -> (String, u64, Option<ToolCallCancellation>) {
    match outcome {
        PreparedToolCallOutcome::Completed { call_id, source_event_id, finish_order, cancellation, outcome, .. } => {
            assert_eq!(call_id, "call-1");
            assert_eq!(*source_event_id, 42);
            match &outcome.result {
                CanonicalMessage::ToolResult { content, is_error: true, .. } => match &content[..] {
                    [CanonicalContent::Text { text }] => (text.clone(), *finish_order, *cancellation),
                    other => panic!("unexpected content {other:?}"),
                },
                other => panic!("unexpected result {other:?}"),
            }
        },
        other => panic!("unexpected outcome {other:?}"),
    }
}

#[test]
fn duplicate_call_ids_are_rejected_with_the_quoted_id() {
    let calls = vec![call("call-1", "a"), call("call-\"2\"", "b"), call("call-\"2\"", "c")];
    match check_unique_call_ids(&calls) {
        Err(VerletError::RuntimeExecution(message)) => {
            assert_eq!(message, "duplicate tool call id \"call-\\\"2\\\"\" in one assistant batch")
        },
        other => panic!("unexpected {other:?}"),
    }
    assert!(check_unique_call_ids(&vec![call("a", "x"), call("b", "x")]).is_ok());
}

#[test]
fn lenient_routers_drop_calls_of_unadvertised_tools() {
    let advertised = vec!["read".to_string()];
    let calls = || vec![call("1", "read"), call("2", "write"), call("3", "read")];
    let kept = batch_calls_to_run(calls(), true, false, &advertised).unwrap();
    assert_eq!(kept.iter().map(|c| c.id.as_str()).collect::<Vec<_>>(), vec!["1", "3"]);
    let all = batch_calls_to_run(calls(), true, true, &advertised).unwrap();
    assert_eq!(all.len(), 3);
    assert!(batch_calls_to_run(calls(), false, true, &advertised).unwrap().is_empty());
    assert!(batch_calls_to_run(vec![call("1", "read"), call("1", "read")], true, true, &advertised).is_err());
}

#[test]
fn configured_tools_come_first_and_router_duplicates_are_dropped() {
    let merged = merge_tool_definitions(
        vec![tool("bash", "configured")],
        vec![tool("read", "router"), tool("bash", "router"), tool("read", "again"), tool("write", "router")],
    );
    assert_eq!(
        merged.iter().map(|t| (t.name.as_str(), t.description.as_str())).collect::<Vec<_>>(),
        vec![("bash", "configured"), ("read", "router"), ("write", "router")]
    );
}

#[test]
fn holds_launch_calls_whose_dependencies_completed() {
    let edges = vec![vec![], vec![0], vec![0, 1]];
    let step = schedule_step(&edges, &vec![false, false, false], &vec![false, false, false], false);
    assert_eq!(step.launch, vec![true, false, false]);
    assert_eq!(step.cancel, vec![false, false, false]);
    let step = schedule_step(&edges, &vec![true, false, false], &vec![true, false, false], false);
    assert_eq!(step.launch, vec![false, true, false]);
    let step = schedule_step(&edges, &vec![true, false, false], &vec![false, false, false], true);
    assert_eq!(step.launch, vec![false, false, false]);
    assert_eq!(step.cancel, vec![false, true, true]);
    match unexecuted_call_error(3) {
        VerletError::RuntimeExecution(message) => assert_eq!(message, "tool batch scheduler did not execute call 3"),
        other => panic!("unexpected {other:?}"),
    }
}

#[test]
fn cancelled_and_failed_calls_become_error_completions() {
    let w = witness(ToolRecoveryAction::Reexecute, None, false);
    let cancelled = cancelled_tool_call_outcome(&w, 3, ToolCallCancellation::CancelledExceededGrace, "gone");
    assert_eq!(error_text(&cancelled), ("gone".to_string(), 3, Some(ToolCallCancellation::CancelledExceededGrace)));
    let failed = failed_tool_call_outcome(&w, 5, "broken");
    assert_eq!(error_text(&failed), ("broken".to_string(), 5, None));
}

#[test]
fn cancellation_settles_prepared_outcomes() {
    let w = witness(ToolRecoveryAction::Reexecute, None, false);
    let (settled, used) = settle_prepared_for_cancellation(
        Ok(PreparedToolCallOutcome::Suspended {
            call_id: "call-1".to_string(),
            snapshot_id: "snapshot-1".to_string(),
            waiting_on_event_id: 9,
            approval_id: None,
            reason: None,
        }),
        &w,
        7,
        ToolCallCancellation::CancelledAcknowledged,
    );
    assert!(used);
    assert_eq!(
        error_text(&settled),
        (
            "tool call was cancelled while awaiting a controller decision".to_string(),
            7,
            Some(ToolCallCancellation::CancelledAcknowledged)
        )
    );
    let (settled, used) =
        settle_prepared_for_cancellation(Err("boom".to_string()), &w, 8, ToolCallCancellation::CancelledExceededGrace);
    assert!(used);
    assert_eq!(
        error_text(&settled),
        ("cancelled tool invocation failed: boom".to_string(), 8, Some(ToolCallCancellation::CancelledExceededGrace))
    );
    let (settled, used) = settle_prepared_for_cancellation(
        Ok(PreparedToolCallOutcome::Denied {
            call_id: "call-1".to_string(),
            tool_name: "thread_status".to_string(),
            snapshot_id: "snapshot-1".to_string(),
            args_fingerprint: None,
            source_event_id: 42,
            finish_order: 2,
            reason: "denied".to_string(),
        }),
        &w,
        8,
        ToolCallCancellation::CancelledAcknowledged,
    );
    assert!(!used);
    assert_eq!(error_text(&settled), ("denied".to_string(), 2, Some(ToolCallCancellation::CancelledAcknowledged)));
    let (settled, used) =
        settle_prepared_for_cancellation(Ok(PreparedToolCallOutcome::Abandoned), &w, 8, ToolCallCancellation::CancelledAcknowledged);
    assert!(!used);
    assert!(matches!(settled, PreparedToolCallOutcome::Abandoned));
}

#[test]
fn recovery_actions_prepare_reuse_failure_or_execution() {
    assert!(matches!(
        recovery_preparation(&witness(ToolRecoveryAction::Reuse, Some(9), false), "turn-1"),
        Ok(RecoveryPreparation::ReuseRecorded { source_event_id: 9 })
    ));
    match recovery_preparation(&witness(ToolRecoveryAction::Reuse, None, false), "turn-1") {
        Err(VerletError::History(message)) => {
            assert_eq!(message, "recorded tool outcome for turn-1/call-1 has no reusable canonical result")
        },
        other => panic!("unexpected {other:?}"),
    }
    match recovery_preparation(&witness(ToolRecoveryAction::ConservativeFailure, None, true), "turn-1") {
        Ok(RecoveryPreparation::FailConservatively { reason }) => assert_eq!(
            reason,
            "tool invocation recovery found a fingerprint mismatch; effect class at-most-once forbids automatic re-execution"
        ),
        other => panic!("unexpected {other:?}"),
    }
    match recovery_preparation(&witness(ToolRecoveryAction::ConservativeFailure, None, false), "turn-1") {
        Ok(RecoveryPreparation::FailConservatively { reason }) => assert_eq!(
            reason,
            "tool invocation was interrupted before a witnessed outcome; effect class at-most-once forbids automatic re-execution"
        ),
        other => panic!("unexpected {other:?}"),
    }
    assert!(matches!(
        recovery_preparation(&witness(ToolRecoveryAction::Reexecute, None, false), "turn-1"),
        Ok(RecoveryPreparation::Execute)
    ));
}

#[test]
fn controller_decisions_allow_rewrite_deny_or_suspend() {
    let args = serde_json::Value::Bool(true);
    match controlled_execution(ToolCallDecision::NoDecision, args.clone()) {
        ControlledExecution::Deny { reason } => assert_eq!(reason, "tool controller did not emit a terminal decision"),
        other => panic!("unexpected {other:?}"),
    }
    assert!(matches!(
        controlled_execution(ToolCallDecision::Allow { consumed_fact_id: 1 }, args.clone()),
        ControlledExecution::Run { arguments: serde_json::Value::Bool(true) }
    ));
    assert!(matches!(
        controlled_execution(
            ToolCallDecision::Rewrite { consumed_fact_id: 1, arguments: serde_json::Value::Bool(false) },
            args.clone()
        ),
        ControlledExecution::Run { arguments: serde_json::Value::Bool(false) }
    ));
    assert!(matches!(
        controlled_execution(
            ToolCallDecision::Wait { consumed_fact_id: 5, approval_id: None, reason: None },
            args.clone()
        ),
        ControlledExecution::Suspend { waiting_on_event_id: 5, .. }
    ));
    assert!(resumed_tool_call_action(ToolCallDecision::NoDecision, 3, args.clone()).is_none());
    assert!(matches!(
        resumed_tool_call_action(ToolCallDecision::Deny { consumed_fact_id: None, reason: "no".to_string() }, 3, args.clone()),
        Some((3, ResumedToolCallAction::Deny(_)))
    ));
    assert!(matches!(
        resumed_tool_call_action(ToolCallDecision::Allow { consumed_fact_id: 8 }, 3, args),
        Some((8, ResumedToolCallAction::Execute(serde_json::Value::Bool(true))))
    ));
}

#[test]
fn appending_a_batch_reports_the_first_failure_or_a_suspension() {
    let suspended = || {
        Ok(PreparedToolCallOutcome::Suspended {
            call_id: "c".to_string(),
            snapshot_id: "s".to_string(),
            waiting_on_event_id: 1,
            approval_id: None,
            reason: None,
        })
    };
    assert_eq!(batch_append_outcome(vec![Ok(PreparedToolCallOutcome::Abandoned)]).unwrap(), ToolAppendOutcome::AppendedResults);
    assert_eq!(batch_append_outcome(vec![Ok(PreparedToolCallOutcome::Abandoned), suspended()]).unwrap(), ToolAppendOutcome::Suspended);
    match batch_append_outcome(vec![
        suspended(),
        Err(VerletError::History("first".to_string())),
        Err(VerletError::History("second".to_string())),
    ]) {
        Err(VerletError::History(message)) => assert_eq!(message, "first"),
        other => panic!("unexpected {other:?}"),
    }
}

#[test]
fn receipts_list_static_then_skill_segments_and_panics_have_messages() {
    assert_eq!(context_receipt_static_segments(vec![1, 2], vec![3]), vec![1, 2, 3]);
    assert_eq!(panic_payload_message(Some("tool exploded".to_string())), "tool exploded");
    assert_eq!(panic_payload_message(None), "non-string panic payload");
}

#[test]
fn duplicate_id_errors_carry_the_rendered_id() {
    match verlet_agent_loop::tools::duplicate_call_id_error("\"call-7\"".to_string()) {
        VerletError::RuntimeExecution(message) => {
            assert_eq!(message, "duplicate tool call id \"call-7\" in one assistant batch")
        },
        other => panic!("unexpected {other:?}"),
    }
}

#[test]
fn tool_logs_report_success_of_non_error_results_only() {
    let result = |is_error| CanonicalMessage::ToolResult {
        tool_call_id: "c".to_string(),
        tool_name: "t".to_string(),
        content: Vec::new(),
        is_error,
    };
    assert_eq!(tool_completion_log(&result(false)), (true, ToolLogLevel::Info, "tool completed".to_string()));
    assert_eq!(tool_completion_log(&result(true)), (false, ToolLogLevel::Error, "tool failed".to_string()));
    assert_eq!(
        tool_completion_log(&CanonicalMessage::User { content: Vec::new() }),
        (false, ToolLogLevel::Error, "tool failed".to_string())
    );
}
