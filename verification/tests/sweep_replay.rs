use verlet_agent_loop::events::{
    EventKind, EventPayload, EventRecord, PendingRequestRef, ToolCallCompletedPayload, ToolCallRequestedPayload,
    ToolCallSubject, VerletError,
};
use verlet_agent_loop::history::{CanonicalMessage, ProviderToolCall, SessionEntry, SessionEntryKind};
use verlet_agent_loop::recovery::{EffectClass, ToolRecoveryAction};
use verlet_agent_loop::replay::{
    apply_recovery_verdict, assistant_batch_entry_id, existing_tool_result_message, prior_tool_call_request,
    recovery_effect_class, replay_needed, resume_preflight, tool_call_suspension_exists,
    tool_invocation_fingerprint_matches, witnessed_tool_batch_for_turn, ResumePreflight,
};
use verlet_agent_loop::sweep::{cancelled_turn_sweep, SweptRequest};
use verlet_agent_loop::tools::WitnessedToolCall;

fn payload() -> EventPayload {
    EventPayload {
        turn_id: None,
        entry_id: None,
        subject_turn_id: None,
        subject_call_id: None,
        session_entry_ids: Vec::new(),
        manifest_hash: None,
        child_thread_id: None,
        terminal_state: None,
        requested: None,
        completed: None,
        suspended: None,
        bind_receipt: None,
    }
}

fn event(id: u64, kind: EventKind, sources: Vec<u64>, payload: EventPayload) -> EventRecord {
    EventRecord { id, sequence: id, created_at_ms: id as i64, kind, source_event_ids: sources, payload }
}

fn submitted(id: u64, turn: &str) -> EventRecord {
    event(id, EventKind::TurnSubmitted, Vec::new(), EventPayload { turn_id: Some(turn.to_string()), ..payload() })
}

fn entry_event(id: u64, entry_id: &str) -> EventRecord {
    event(id, EventKind::SessionEntryAppended, Vec::new(), EventPayload { entry_id: Some(entry_id.to_string()), ..payload() })
}

fn request(id: u64, turn: &str, call: &str, fingerprint: &str, sources: Vec<u64>) -> EventRecord {
    event(
        id,
        EventKind::ToolCallRequested,
        sources,
        EventPayload {
            subject_turn_id: Some(turn.to_string()),
            subject_call_id: Some(call.to_string()),
            requested: Some(Ok(ToolCallRequestedPayload {
                subject: ToolCallSubject { turn_id: turn.to_string(), call_id: call.to_string() },
                snapshot_id: "snapshot-cancelled".to_string(),
                tool_name: "thread_status".to_string(),
                arguments: serde_json::Value::Null,
                args_fingerprint: Some(fingerprint.to_string()),
            })),
            ..payload()
        },
    )
}

fn completion(id: u64, turn: &str, call: &str, fingerprint: &str, finish_order: Option<u64>) -> EventRecord {
    event(
        id,
        EventKind::ToolCallCompleted,
        Vec::new(),
        EventPayload {
            subject_turn_id: Some(turn.to_string()),
            subject_call_id: Some(call.to_string()),
            completed: Some(Ok(ToolCallCompletedPayload {
                subject: ToolCallSubject { turn_id: turn.to_string(), call_id: call.to_string() },
                snapshot_id: "snapshot-cancelled".to_string(),
                tool_name: "thread_status".to_string(),
                success: true,
                args_fingerprint: Some(fingerprint.to_string()),
                duration_ms: Some(7),
                finish_order,
                cancellation: None,
            })),
            ..payload()
        },
    )
}

fn malformed(id: u64, kind: EventKind, turn: &str) -> EventRecord {
    let mut record = event(id, kind, Vec::new(), EventPayload { subject_turn_id: Some(turn.to_string()), ..payload() });
    if kind == EventKind::ToolCallRequested {
        record.payload.requested = Some(Err("missing field `subject`".to_string()));
    } else {
        record.payload.completed = Some(Err("missing field `subject`".to_string()));
    }
    record
}

fn join(id: u64, child: Option<&str>, state: &str, sources: Vec<u64>) -> EventRecord {
    event(id, EventKind::ThreadJoined, sources, EventPayload {
        child_thread_id: child.map(|c| c.to_string()),
        terminal_state: Some(state.to_string()),
        ..payload()
    })
}

fn history_message<T: std::fmt::Debug>(result: Result<T, VerletError>) -> String {
    match result {
        Err(VerletError::History(message)) => message,
        other => panic!("expected a history error, got {other:?}"),
    }
}

#[test]
fn sweep_settles_only_the_latest_dangling_request_of_the_cancelled_turn() {
    let child = vec![
        submitted(1, "turn-cancelled"),
        request(2, "turn-cancelled", "call-dangling", "old", vec![1]),
        request(3, "turn-cancelled", "call-dangling", "new", vec![1]),
        request(4, "turn-cancelled", "call-already-completed", "done", vec![1]),
        entry_event(5, "result-entry"),
        completion(6, "turn-cancelled", "call-already-completed", "done", Some(4)),
        malformed(7, EventKind::ToolCallRequested, "unrelated-turn"),
        malformed(8, EventKind::ToolCallCompleted, "unrelated-turn"),
    ];
    let parent = vec![
        event(20, EventKind::ThreadJoined, Vec::new(), payload()),
        join(21, Some("child-1"), "cancelled", vec![1]),
    ];
    let plan = cancelled_turn_sweep(&child, &parent, "child-1").unwrap();
    assert_eq!(plan, vec![SweptRequest { event_index: 2, finish_order: 5 }]);
}

#[test]
fn sweep_orders_by_subject_and_counts_finish_orders_per_turn() {
    let child = vec![
        submitted(1, "b"),
        submitted(2, "a"),
        request(3, "b", "z", "f", vec![]),
        request(4, "a", "y", "f", vec![]),
        request(5, "a", "x", "f", vec![]),
        request(6, "a", "xa", "f", vec![]),
        completion(7, "b", "other", "g", Some(u64::MAX)),
        completion(8, "a", "gone", "g", None),
    ];
    let parent = vec![join(30, Some("child"), "cancelled", vec![1, 2])];
    let plan = cancelled_turn_sweep(&child, &parent, "child").unwrap();
    assert_eq!(
        plan,
        vec![
            SweptRequest { event_index: 4, finish_order: 1 },
            SweptRequest { event_index: 5, finish_order: 2 },
            SweptRequest { event_index: 3, finish_order: 3 },
            SweptRequest { event_index: 2, finish_order: u64::MAX },
        ]
    );
}

#[test]
fn sweep_does_nothing_without_a_cancelled_join_of_this_child() {
    let child = vec![submitted(1, "t"), request(2, "t", "c", "f", vec![1])];
    for parent in [
        vec![],
        vec![join(9, Some("other-child"), "cancelled", vec![1])],
        vec![join(9, Some("child"), "completed", vec![1])],
        vec![join(9, Some("child"), "cancelled", vec![77])],
    ] {
        assert_eq!(cancelled_turn_sweep(&child, &parent, "child").unwrap(), Vec::new());
    }
}

#[test]
fn sweep_reports_an_undecodable_payload_of_a_cancelled_turn() {
    let child = vec![
        submitted(1, "t"),
        request(2, "t", "c", "f", vec![1]),
        malformed(3, EventKind::ToolCallRequested, "t"),
        malformed(4, EventKind::ToolCallCompleted, "t"),
    ];
    let parent = vec![join(9, Some("child"), "cancelled", vec![1])];
    assert_eq!(
        history_message(cancelled_turn_sweep(&child, &parent, "child")),
        "tool.call.requested 3 payload is invalid during cancellation recovery: missing field `subject`"
    );
}

#[test]
fn replay_keeps_one_request_per_call_in_call_order() {
    let mut tie = request(6, "turn-1", "c", "late", vec![1]);
    tie.sequence = 5;
    let events = vec![
        entry_event(1, "assistant-entry"),
        request(2, "turn-1", "b", "f1", vec![1]),
        request(3, "turn-1", "a", "fa", vec![1]),
        request(4, "turn-1", "b", "f2", vec![1]),
        request(5, "turn-1", "c", "early", vec![1]),
        tie,
        completion(7, "turn-1", "a", "fa", Some(0)),
        completion(8, "turn-1", "b", "f1", Some(1)),
        request(9, "turn-2", "z", "f", vec![1]),
    ];
    let batch = witnessed_tool_batch_for_turn(&events, "turn-1").unwrap().unwrap();
    assert_eq!(batch.assistant_source_event_id, 1);
    assert_eq!(batch.requests, vec![2, 3, 4]);
    assert_eq!(batch.completed, vec![true, false, false]);
    assert_eq!(assistant_batch_entry_id(&events, 1).unwrap(), "assistant-entry");
    assert!(replay_needed(&batch.completed, &vec![true, true, true]));
    assert!(!replay_needed(&vec![true, true], &vec![true, true]));
    assert!(replay_needed(&vec![true, true], &vec![true, false]));
}

#[test]
fn replay_errors_and_empty_cases() {
    let events = vec![entry_event(1, "assistant-entry")];
    assert!(witnessed_tool_batch_for_turn(&events, "turn-1").unwrap().is_none());
    let sourceless = vec![request(9, "turn-1", "a", "f", Vec::new())];
    assert_eq!(
        history_message(witnessed_tool_batch_for_turn(&sourceless, "turn-1")),
        "tool.call.requested 9 for turn turn-1 has no assistant source event"
    );
    let mut broken_request = malformed(3, EventKind::ToolCallRequested, "turn-9");
    broken_request.source_event_ids = vec![1];
    let broken = vec![entry_event(1, "e"), request(2, "turn-1", "a", "f", vec![1]), broken_request];
    assert_eq!(
        history_message(witnessed_tool_batch_for_turn(&broken, "turn-1")),
        "tool.call.requested 3 payload is invalid during turn replay: missing field `subject`"
    );
    let broken_completion =
        vec![entry_event(1, "e"), request(2, "turn-1", "a", "f", vec![1]), malformed(3, EventKind::ToolCallCompleted, "turn-1")];
    assert_eq!(
        history_message(witnessed_tool_batch_for_turn(&broken_completion, "turn-1")),
        "tool.call.completed 3 payload is invalid during turn replay: missing field `subject`"
    );
    assert_eq!(
        history_message(assistant_batch_entry_id(&events, 99)),
        "tool request batch source 99 is not an assistant session entry"
    );
    let nameless = vec![event(4, EventKind::SessionEntryAppended, Vec::new(), payload())];
    assert_eq!(history_message(assistant_batch_entry_id(&nameless, 4)), "assistant session event 4 has no entry_id");
}

#[test]
fn recovery_reads_the_latest_other_request_of_the_call() {
    let events = vec![
        request(2, "turn-1", "c1", "f", vec![1]),
        request(3, "turn-1", "c1", "g", vec![1]),
        request(4, "turn-1", "c2", "h", vec![1]),
    ];
    assert_eq!(prior_tool_call_request(&events, "turn-1", "c1", 3).unwrap(), Some(0));
    assert_eq!(prior_tool_call_request(&events, "turn-1", "c1", 2).unwrap(), Some(1));
    assert_eq!(prior_tool_call_request(&events, "turn-1", "c2", 4).unwrap(), None);
    let mut broken = malformed(5, EventKind::ToolCallRequested, "turn-1");
    broken.payload.subject_call_id = Some("c1".to_string());
    let with_broken = vec![request(2, "turn-1", "c1", "f", vec![1]), broken];
    assert_eq!(
        history_message(prior_tool_call_request(&with_broken, "turn-1", "c1", 2)),
        "tool.call.requested 5 payload is invalid during recovery: missing field `subject`"
    );
}

#[test]
fn rewritten_bash_calls_are_recovered_as_at_most_once() {
    assert_eq!(recovery_effect_class(EffectClass::Idempotent, "bash", true), EffectClass::AtMostOnce);
    assert_eq!(recovery_effect_class(EffectClass::Pure, "bash", true), EffectClass::AtMostOnce);
    assert_eq!(recovery_effect_class(EffectClass::Idempotent, "bash", false), EffectClass::Idempotent);
    assert_eq!(recovery_effect_class(EffectClass::Pure, "read", true), EffectClass::Pure);
}

#[test]
fn recovery_verdicts_are_recorded_on_the_call() {
    let mut call = WitnessedToolCall {
        tool_call: ProviderToolCall { id: "c1".to_string(), name: "read".to_string(), arguments: serde_json::Value::Null },
        snapshot_id: "s".to_string(),
        args_fingerprint: Some("f".to_string()),
        request_event_id: 10,
        recovery_action: ToolRecoveryAction::Reexecute,
        recovery_source_event_id: None,
        recovery_fingerprint_mismatch: false,
    };
    apply_recovery_verdict(&mut call, EffectClass::Idempotent, true, true, 7);
    assert_eq!(call.recovery_action, ToolRecoveryAction::Reuse);
    assert_eq!(call.recovery_source_event_id, Some(7));
    assert!(!call.recovery_fingerprint_mismatch);
    apply_recovery_verdict(&mut call, EffectClass::AtMostOnce, false, false, 7);
    assert_eq!(call.recovery_action, ToolRecoveryAction::ConservativeFailure);
    assert_eq!(call.recovery_source_event_id, None);
    assert!(call.recovery_fingerprint_mismatch);
    assert_eq!(call.request_event_id, 10);
    assert_eq!(call.tool_call.id, "c1");
}

fn suspension(id: u64, turn: &str, call: &str) -> EventRecord {
    event(id, EventKind::ToolCallSuspended, Vec::new(), EventPayload {
        suspended: Some(Ok(ToolCallSubject { turn_id: turn.to_string(), call_id: call.to_string() })),
        ..payload()
    })
}

#[test]
fn resuming_checks_router_request_completion_suspension_and_submission() {
    let thread = vec![
        submitted(1, "turn-1"),
        entry_event(2, "assistant"),
        request(3, "turn-1", "c1", "f", vec![2]),
    ];
    let control = vec![suspension(10, "turn-1", "c1")];
    match resume_preflight(false, &thread, &control, "turn-1", "c1") {
        Err(VerletError::RuntimeExecution(message)) => assert_eq!(message, "tool resume requires a tool router"),
        other => panic!("unexpected {other:?}"),
    }
    match resume_preflight(true, &thread, &control, "turn-1", "c1").unwrap() {
        ResumePreflight::Resume { request, submitted_index } => {
            assert_eq!(request, PendingRequestRef { event_index: 2, assistant_source_event_id: 2 });
            assert_eq!(submitted_index, 0);
        },
        other => panic!("unexpected {other:?}"),
    }
    match resume_preflight(true, &thread, &control, "turn-1", "c9") {
        Err(VerletError::RuntimeExecution(message)) => {
            assert_eq!(message, "missing tool.call.requested for pending call turn-1/c9")
        },
        other => panic!("unexpected {other:?}"),
    }
    match resume_preflight(true, &thread, &Vec::new(), "turn-1", "c1") {
        Err(VerletError::RuntimeExecution(message)) => assert_eq!(message, "no pending suspended tool call turn-1/c1"),
        other => panic!("unexpected {other:?}"),
    }
    let unsubmitted = vec![entry_event(2, "assistant"), request(3, "turn-1", "c1", "f", vec![2])];
    assert_eq!(
        history_message(resume_preflight(true, &unsubmitted, &control, "turn-1", "c1")),
        "turn turn-1 has no persisted context timestamp anchor"
    );
    let mut completed = thread;
    completed.push(completion(4, "turn-1", "c1", "f", Some(0)));
    assert!(matches!(
        resume_preflight(true, &completed, &control, "turn-1", "c1").unwrap(),
        ResumePreflight::AlreadyCompleted
    ));
}

#[test]
fn suspensions_are_found_by_subject() {
    let mut broken = event(11, EventKind::ToolCallSuspended, Vec::new(), payload());
    broken.payload.suspended = Some(Err("missing field `subject`".to_string()));
    let control = vec![suspension(10, "turn-1", "c1"), broken];
    assert_eq!(tool_call_suspension_exists(&control, "turn-1", "c1").unwrap(), true);
    assert_eq!(
        history_message(tool_call_suspension_exists(&control, "turn-1", "c2")),
        "tool.call.suspended payload is invalid: missing field `subject`"
    );
    assert_eq!(tool_call_suspension_exists(&Vec::new(), "turn-1", "c1").unwrap(), false);
}

#[test]
fn recorded_results_are_reused_only_for_the_same_invocation() {
    assert!(tool_invocation_fingerprint_matches("s", Some("f"), "s", Some("f")));
    assert!(tool_invocation_fingerprint_matches("s", None, "s", None));
    assert!(!tool_invocation_fingerprint_matches("s", None, "s", Some("f")));
    assert!(!tool_invocation_fingerprint_matches("s", Some("f"), "t", Some("f")));

    let mut result_entry = event(4, EventKind::SessionEntryAppended, vec![3], payload());
    result_entry.payload.entry_id = Some("result-1".to_string());
    let events = vec![request(3, "turn-1", "c1", "f", vec![2]), result_entry];
    let entries = vec![
        SessionEntry {
            entry_id: "other".to_string(),
            turn_id: None,
            kind: SessionEntryKind::Compaction { summary: "s".to_string() },
        },
        SessionEntry {
            entry_id: "result-1".to_string(),
            turn_id: Some("turn-1".to_string()),
            kind: SessionEntryKind::Message {
                message: CanonicalMessage::ToolResult {
                    tool_call_id: "c1".to_string(),
                    tool_name: "thread_status".to_string(),
                    content: Vec::new(),
                    is_error: false,
                },
            },
        },
    ];
    assert_eq!(existing_tool_result_message(&events, &entries, 3, "c1", "snapshot-cancelled", Some("f")).unwrap(), Some(1));
    assert_eq!(existing_tool_result_message(&events, &entries, 3, "c1", "snapshot-cancelled", Some("g")).unwrap(), None);
    assert_eq!(existing_tool_result_message(&events, &entries, 3, "c2", "snapshot-cancelled", Some("f")).unwrap(), None);
    assert_eq!(existing_tool_result_message(&events, &entries, 9, "c1", "snapshot-cancelled", Some("f")).unwrap(), None);
    let broken = vec![malformed(3, EventKind::ToolCallRequested, "turn-1")];
    assert_eq!(
        history_message(existing_tool_result_message(&broken, &entries, 3, "c1", "s", None)),
        "tool.call.requested 3 payload is invalid while reusing a result: missing field `subject`"
    );
}
