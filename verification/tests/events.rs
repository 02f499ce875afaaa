use verlet_agent_loop::events::{
    effect_class_for_request, existing_turn_submitted_event, intra_turn_steering_contexts_from_events,
    latest_thread_event_id, matching_tool_call_completed_exists, pending_tool_call_request,
    persisted_thread_anchor_timestamp_ms, persisted_tool_rounds_for_turn, session_entry_event_id,
    tool_call_batch_completed, EventKind, EventPayload, EventRecord, PendingRequestRef, ToolCallCompletedPayload,
    ToolCallRequestedPayload, ToolCallSubject, VerletError,
};
use verlet_agent_loop::history::{CanonicalContent, CanonicalMessage, SessionEntry, SessionEntryKind};
use verlet_agent_loop::recovery::{AgentManifestBindReceipt, DirectToolBinding, EffectClass, OperationBinding};

fn payload() -> EventPayload {
    EventPayload {
        turn_id: None,
        entry_id: None,
        subject_turn_id: None,
        subject_call_id: None,
        session_entry_ids: Vec::new(),
        manifest_hash: None,
        child_thread_id: None,
        terminal_state: None,
        requested: None,
        completed: None,
        suspended: None,
        bind_receipt: None,
    }
}

fn event(id: u64, sequence: u64, kind: EventKind, sources: Vec<u64>, payload: EventPayload) -> EventRecord {
    EventRecord { id, sequence, created_at_ms: 1000 + sequence as i64, kind, source_event_ids: sources, payload }
}

fn entry_event(id: u64, sequence: u64, entry_id: &str) -> EventRecord {
    event(id, sequence, EventKind::SessionEntryAppended, Vec::new(), EventPayload { entry_id: Some(entry_id.to_string()), ..payload() })
}

fn request(id: u64, turn: &str, call: &str, fingerprint: Option<&str>, sources: Vec<u64>) -> EventRecord {
    event(
        id,
        id,
        EventKind::ToolCallRequested,
        sources,
        EventPayload {
            subject_turn_id: Some(turn.to_string()),
            subject_call_id: Some(call.to_string()),
            requested: Some(Ok(ToolCallRequestedPayload {
                subject: ToolCallSubject { turn_id: turn.to_string(), call_id: call.to_string() },
                snapshot_id: "snapshot-1".to_string(),
                tool_name: "thread_status".to_string(),
                arguments: serde_json::Value::Null,
                args_fingerprint: fingerprint.map(|f| f.to_string()),
            })),
            ..payload()
        },
    )
}

fn completion(id: u64, turn: &str, call: &str, fingerprint: Option<&str>, finish_order: Option<u64>) -> EventRecord {
    event(
        id,
        id,
        EventKind::ToolCallCompleted,
        Vec::new(),
        EventPayload {
            subject_turn_id: Some(turn.to_string()),
            subject_call_id: Some(call.to_string()),
            completed: Some(Ok(ToolCallCompletedPayload {
                subject: ToolCallSubject { turn_id: turn.to_string(), call_id: call.to_string() },
                snapshot_id: "snapshot-1".to_string(),
                tool_name: "thread_status".to_string(),
                success: true,
                args_fingerprint: fingerprint.map(|f| f.to_string()),
                duration_ms: Some(7),
                finish_order,
                cancellation: None,
            })),
            ..payload()
        },
    )
}

fn user_entry(entry_id: &str, turn: &str, text: &str) -> SessionEntry {
    SessionEntry {
        entry_id: entry_id.to_string(),
        turn_id: Some(turn.to_string()),
        kind: SessionEntryKind::Message {
            message: CanonicalMessage::User { content: vec![CanonicalContent::Text { text: text.to_string() }] },
        },
    }
}

fn history_message(result: Result<impl std::fmt::Debug, VerletError>) -> String {
    match result {
        Err(VerletError::History(message)) => message,
        other => panic!("expected a history error, got {other:?}"),
    }
}

#[test]
fn completed_history_without_compile_receipt_is_not_reclassified_as_steering() {
    let old_entry = user_entry("entry-old", "turn-old", "completed historical input");
    let steer_entry = user_entry("entry-steer", "turn-steer", "new boundary steer");
    let events = vec![
        event(1, 1, EventKind::SessionEntryAppended, Vec::new(), EventPayload {
            entry_id: Some("entry-old".to_string()),
            turn_id: Some("turn-old".to_string()),
            ..payload()
        }),
        event(2, 2, EventKind::TurnCompleted, Vec::new(), EventPayload { turn_id: Some("turn-old".to_string()), ..payload() }),
        event(3, 3, EventKind::TurnSubmitted, Vec::new(), EventPayload { turn_id: Some("turn-active".to_string()), ..payload() }),
        event(4, 4, EventKind::SessionEntryAppended, Vec::new(), EventPayload {
            entry_id: Some("entry-steer".to_string()),
            turn_id: Some("turn-steer".to_string()),
            ..payload()
        }),
    ];

    let contexts = intra_turn_steering_contexts_from_events(&events, "turn-active", 3, &vec![old_entry, steer_entry]);

    assert_eq!(contexts.len(), 1);
    assert_eq!(contexts[0].entry_id, "entry-steer");
    assert!(contexts[0].context.contains("new boundary steer"));
    assert!(!contexts[0].context.contains("completed historical input"));
    assert_eq!(contexts[0].context, "Additional user steering for active turn turn-steer:\nnew boundary steer");
}

#[test]
fn steering_skips_delivered_blank_and_own_turn_inputs() {
    let entries = vec![
        user_entry("e1", "turn-b", "delivered already"),
        user_entry("e2", "turn-active", "own input"),
        user_entry("e3", "turn-c", "   "),
        user_entry("e4", "turn-d", "fresh"),
    ];
    let events = vec![
        entry_event(1, 5, "e1"),
        entry_event(2, 6, "e2"),
        entry_event(3, 7, "e3"),
        entry_event(4, 8, "e4"),
        event(5, 9, EventKind::ContextCompileCompleted, Vec::new(), EventPayload {
            session_entry_ids: vec!["e1".to_string()],
            ..payload()
        }),
    ];
    let contexts = intra_turn_steering_contexts_from_events(&events, "turn-active", 4, &entries);
    assert_eq!(contexts.iter().map(|c| c.entry_id.as_str()).collect::<Vec<_>>(), vec!["e4"]);
}

#[test]
fn latest_and_earliest_events_follow_sequence_numbers() {
    assert_eq!(latest_thread_event_id(&Vec::new()), None);
    let events = vec![
        event(10, 3, EventKind::Other, Vec::new(), payload()),
        event(11, 1, EventKind::Other, Vec::new(), payload()),
        event(12, 3, EventKind::Other, Vec::new(), payload()),
        event(13, 2, EventKind::TurnSubmitted, Vec::new(), EventPayload { turn_id: Some("t".to_string()), ..payload() }),
        event(14, 1, EventKind::TurnSubmitted, Vec::new(), EventPayload { turn_id: Some("t".to_string()), ..payload() }),
    ];
    assert_eq!(latest_thread_event_id(&events), Some(12));
    assert_eq!(persisted_thread_anchor_timestamp_ms(&events, "thread-1").unwrap(), 1001);
    assert_eq!(
        history_message(persisted_thread_anchor_timestamp_ms(&Vec::new(), "thread-1")),
        "thread thread-1 has no persisted context timestamp anchor"
    );
    assert_eq!(existing_turn_submitted_event(&events, "t"), Some(3));
    assert_eq!(existing_turn_submitted_event(&events, "u"), None);
    let entries = vec![entry_event(20, 1, "a"), entry_event(21, 2, "b"), entry_event(22, 3, "a")];
    assert_eq!(session_entry_event_id(&entries, "a"), Some(20));
    assert_eq!(session_entry_event_id(&entries, "c"), None);
}

#[test]
fn tool_rounds_count_distinct_assistant_batches() {
    let events = vec![
        entry_event(1, 1, "assistant-1"),
        request(2, "turn-1", "c1", None, vec![1]),
        request(3, "turn-1", "c2", None, vec![1]),
        entry_event(4, 4, "assistant-2"),
        request(5, "turn-1", "c3", None, vec![4]),
        request(6, "turn-2", "c4", None, vec![99]),
    ];
    assert_eq!(persisted_tool_rounds_for_turn(&events, "turn-1").unwrap(), 2);
    assert_eq!(persisted_tool_rounds_for_turn(&events, "turn-3").unwrap(), 0);
    assert_eq!(
        history_message(persisted_tool_rounds_for_turn(&events, "turn-2")),
        "tool.call.requested 6 for turn turn-2 references assistant source event 99 outside the active turn"
    );
    let sourceless = vec![request(7, "turn-1", "c1", None, Vec::new())];
    assert_eq!(
        history_message(persisted_tool_rounds_for_turn(&sourceless, "turn-1")),
        "tool.call.requested 7 for turn turn-1 has no assistant source event"
    );
}

#[test]
fn recorded_completions_match_snapshot_and_fingerprint() {
    let events = vec![completion(1, "turn-1", "c1", Some("fp"), Some(0))];
    assert_eq!(matching_tool_call_completed_exists(&events, "turn-1", "c1", "snapshot-1", Some("fp")).unwrap(), true);
    assert_eq!(matching_tool_call_completed_exists(&events, "turn-1", "c1", "snapshot-1", None).unwrap(), false);
    assert_eq!(matching_tool_call_completed_exists(&events, "turn-1", "c1", "snapshot-2", Some("fp")).unwrap(), false);
    assert_eq!(matching_tool_call_completed_exists(&events, "turn-1", "c2", "snapshot-1", Some("fp")).unwrap(), false);
    let broken = vec![event(9, 1, EventKind::ToolCallCompleted, Vec::new(), EventPayload {
        subject_turn_id: Some("turn-1".to_string()),
        subject_call_id: Some("c1".to_string()),
        completed: Some(Err("missing field `snapshot_id`".to_string())),
        ..payload()
    })];
    assert_eq!(
        history_message(matching_tool_call_completed_exists(&broken, "turn-1", "c1", "snapshot-1", None)),
        "tool.call.completed 9 payload is invalid: missing field `snapshot_id`"
    );
}

#[test]
fn a_batch_is_complete_when_every_request_has_its_completion() {
    let mut events = vec![
        entry_event(1, 1, "assistant"),
        request(2, "turn-1", "c1", Some("f1"), vec![1]),
        request(3, "turn-1", "c2", Some("f2"), vec![1]),
        completion(4, "turn-1", "c1", Some("f1"), Some(0)),
    ];
    assert_eq!(tool_call_batch_completed(&events, "turn-1", 1).unwrap(), false);
    events.push(completion(5, "turn-1", "c2", Some("f2"), Some(1)));
    assert_eq!(tool_call_batch_completed(&events, "turn-1", 1).unwrap(), true);
    assert_eq!(
        history_message(tool_call_batch_completed(&events, "turn-1", 77)),
        "assistant source event 77 has no tool request batch for turn turn-1"
    );
    events.push(request(6, "turn-1", "c1", Some("f3"), vec![1]));
    assert_eq!(
        history_message(tool_call_batch_completed(&events, "turn-1", 1)),
        "assistant source event 1 contains duplicate tool call subjects"
    );
}

#[test]
fn a_pending_call_has_at_most_one_witnessed_request() {
    let one = vec![request(1, "turn-1", "c1", None, vec![40])];
    assert_eq!(pending_tool_call_request(&one, "turn-1", "c9").unwrap(), None);
    assert_eq!(
        pending_tool_call_request(&one, "turn-1", "c1").unwrap(),
        Some(PendingRequestRef { event_index: 0, assistant_source_event_id: 40 })
    );
    let twice = vec![
        request(1, "turn-1", "c1", None, vec![40]),
        request(2, "turn-1", "c2", None, vec![41]),
        request(3, "turn-1", "c2", None, vec![42]),
    ];
    assert_eq!(
        history_message(pending_tool_call_request(&twice, "turn-1", "c2")),
        "found 2 tool.call.requested events for ambiguous subject turn-1/c2"
    );
    let sourceless = vec![request(4, "turn-1", "c3", None, Vec::new())];
    assert_eq!(
        history_message(pending_tool_call_request(&sourceless, "turn-1", "c3")),
        "tool.call.requested 4 for turn-1/c3 has no assistant source event"
    );
}

#[test]
fn the_latest_bind_receipt_of_the_snapshot_decides_the_effect_class() {
    let receipt = |class: EffectClass| AgentManifestBindReceipt {
        manifest_hash: "snapshot-1".to_string(),
        operation_bindings: vec![OperationBinding {
            name: "ops".to_string(),
            effect_class: class,
            operations: Vec::new(),
            direct_tools: vec![DirectToolBinding {
                tool_name: "thread_status".to_string(),
                operation: "status".to_string(),
                effect_class: class,
            }],
        }],
        tool_universes: Vec::new(),
    };
    let bind = |id: u64, class: EffectClass| {
        event(id, id, EventKind::ManifestBindCompleted, Vec::new(), EventPayload {
            manifest_hash: Some("snapshot-1".to_string()),
            bind_receipt: Some(Ok(receipt(class))),
            ..payload()
        })
    };
    let args = serde_json::Value::Null;
    assert_eq!(effect_class_for_request(&Vec::new(), "snapshot-1", "thread_status", &args).unwrap(), EffectClass::AtMostOnce);
    let events = vec![bind(1, EffectClass::Pure), bind(2, EffectClass::Idempotent)];
    assert_eq!(effect_class_for_request(&events, "snapshot-1", "thread_status", &args).unwrap(), EffectClass::Idempotent);
    assert_eq!(effect_class_for_request(&events, "snapshot-2", "thread_status", &args).unwrap(), EffectClass::AtMostOnce);
    let broken = vec![event(3, 3, EventKind::ManifestBindCompleted, Vec::new(), EventPayload {
        manifest_hash: Some("snapshot-1".to_string()),
        bind_receipt: Some(Err("expected a map".to_string())),
        ..payload()
    })];
    assert_eq!(
        history_message(effect_class_for_request(&broken, "snapshot-1", "thread_status", &args)),
        "manifest.bind.completed 3 payload is invalid: expected a map"
    );
}

#[test]
fn legacy_completion_does_not_swallow_a_new_fingerprinted_completion() {
    let legacy = vec![completion(1, "turn-recovery", "call-recovery", None, Some(0))];
    assert!(
        !matching_tool_call_completed_exists(&legacy, "turn-recovery", "call-recovery", "snapshot-1", Some("current"))
            .unwrap(),
        "a legacy completion must not terminate a new fingerprinted generation"
    );
    let mut both = legacy;
    both.push(completion(2, "turn-recovery", "call-recovery", Some("current"), Some(1)));
    assert!(
        matching_tool_call_completed_exists(&both, "turn-recovery", "call-recovery", "snapshot-1", Some("current"))
            .unwrap(),
        "the exact completion must terminate the current generation"
    );
}
