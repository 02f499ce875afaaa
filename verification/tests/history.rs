use verlet_agent_loop::events::{turn_assembly_entries, IntraTurnSteeringContext};
use verlet_agent_loop::history::{
    canonical_content_text_projection, reattach_late_tool_result_entries, response_content_text,
    runtime_usage_from_canonical, steering_context, text_from_message, tool_calls_from_message, usage_from_message,
    CanonicalContent, CanonicalMessage, CanonicalStopReason, CanonicalUsage, RuntimeUsage, SessionEntry,
    SessionEntryKind,
};
use verlet_agent_loop::retry::ProviderApi;

fn text(t: &str) -> CanonicalContent {
    CanonicalContent::Text { text: t.to_string() }
}

fn call(id: &str) -> CanonicalContent {
    CanonicalContent::ToolCall { id: id.to_string(), name: "read".to_string(), arguments: serde_json::Value::Null }
}

fn usage(n: u64) -> CanonicalUsage {
    CanonicalUsage { input_tokens: n, output_tokens: n + 1, cache_creation_input_tokens: n + 2, cache_read_input_tokens: n + 3 }
}

fn assistant(content: Vec<CanonicalContent>) -> CanonicalMessage {
    CanonicalMessage::Assistant {
        provider: "test".to_string(),
        api: ProviderApi::AnthropicMessages,
        model: "model".to_string(),
        content,
        usage: usage(1),
        stop_reason: CanonicalStopReason::ToolUse,
    }
}

fn entry(id: &str, turn: Option<&str>, kind: SessionEntryKind) -> SessionEntry {
    SessionEntry { entry_id: id.to_string(), turn_id: turn.map(|t| t.to_string()), kind }
}

fn assistant_entry(id: &str, calls: &[&str]) -> SessionEntry {
    entry(id, Some("turn-a"), SessionEntryKind::Message { message: assistant(calls.iter().map(|c| call(c)).collect()) })
}

fn user_entry(id: &str, turn: Option<&str>) -> SessionEntry {
    entry(id, turn, SessionEntryKind::Message { message: CanonicalMessage::User { content: vec![text("next")] } })
}

fn result_entry(id: &str, call_id: &str) -> SessionEntry {
    entry(
        id,
        Some("turn-a"),
        SessionEntryKind::Message {
            message: CanonicalMessage::ToolResult {
                tool_call_id: call_id.to_string(),
                tool_name: "read".to_string(),
                content: vec![text("done")],
                is_error: false,
            },
        },
    )
}

fn ids(entries: &[SessionEntry]) -> Vec<&str> {
    entries.iter().map(|e| e.entry_id.as_str()).collect()
}

#[test]
fn late_tool_result_moves_before_the_next_turn_input() {
    let entries = vec![
        assistant_entry("a", &["call-1", "call-2"]),
        result_entry("r2", "call-2"),
        user_entry("u", Some("turn-b")),
        entry("x", Some("turn-b"), SessionEntryKind::Message { message: assistant(vec![text("reply")]) }),
        result_entry("r1", "call-1"),
    ];
    let out = reattach_late_tool_result_entries(entries);
    assert_eq!(ids(&out), vec!["a", "r2", "r1", "u", "x"]);
}

#[test]
fn results_without_a_turn_input_between_stay_in_place() {
    let entries = vec![
        assistant_entry("a", &["call-1"]),
        user_entry("custom", None),
        result_entry("r1", "call-1"),
    ];
    let out = reattach_late_tool_result_entries(entries);
    assert_eq!(ids(&out), vec!["a", "custom", "r1"]);
}

#[test]
fn compaction_between_issuer_and_result_keeps_the_order() {
    let entries = vec![
        assistant_entry("a", &["call-1"]),
        entry("c", None, SessionEntryKind::Compaction { summary: "summary".to_string() }),
        user_entry("u", Some("turn-b")),
        result_entry("r1", "call-1"),
    ];
    let out = reattach_late_tool_result_entries(entries);
    assert_eq!(ids(&out), vec!["a", "c", "u", "r1"]);
}

#[test]
fn a_call_id_issued_twice_has_no_issuer_to_return_to() {
    let entries = vec![
        assistant_entry("a", &["call-1"]),
        assistant_entry("b", &["call-1"]),
        user_entry("u", Some("turn-b")),
        result_entry("r1", "call-1"),
    ];
    let out = reattach_late_tool_result_entries(entries);
    assert_eq!(ids(&out), vec!["a", "b", "u", "r1"]);
}

#[test]
fn several_late_results_keep_their_relative_order() {
    let entries = vec![
        assistant_entry("a", &["call-1", "call-2"]),
        user_entry("u1", Some("turn-b")),
        user_entry("u2", Some("turn-c")),
        result_entry("r2", "call-2"),
        result_entry("r1", "call-1"),
    ];
    let out = reattach_late_tool_result_entries(entries);
    assert_eq!(ids(&out), vec!["a", "r2", "r1", "u1", "u2"]);
}

#[test]
fn text_projections_pick_the_right_blocks() {
    let content = vec![
        text("a"),
        CanonicalContent::Thinking { text: "t".to_string() },
        call("call-1"),
        CanonicalContent::Image { data: "img".to_string() },
        text("b"),
    ];
    assert_eq!(response_content_text(&content), "atb");
    assert_eq!(canonical_content_text_projection(&content), "a\nb");
    assert_eq!(canonical_content_text_projection(&Vec::new()), "");
    assert_eq!(text_from_message(&assistant(vec![text("x"), CanonicalContent::Thinking { text: "y".to_string() }, text("z")])), "xz");
    assert_eq!(
        text_from_message(&CanonicalMessage::ToolResult {
            tool_call_id: "c".to_string(),
            tool_name: "n".to_string(),
            content: vec![text("p"), text("q")],
            is_error: true,
        }),
        "pq"
    );
    assert_eq!(text_from_message(&CanonicalMessage::User { content: vec![text("hidden")] }), "");
}

#[test]
fn steering_frames_non_blank_input_for_the_active_turn() {
    assert_eq!(
        steering_context("turn-7", "please stop".to_string()),
        Some("Additional user steering for active turn turn-7:\nplease stop".to_string())
    );
    assert_eq!(steering_context("turn-7", " \n\t ".to_string()), None);
    assert_eq!(steering_context("turn-7", String::new()), None);
}

#[test]
fn tool_calls_and_usage_come_from_assistant_messages_only() {
    let message = assistant(vec![text("a"), call("c1"), call("c2")]);
    let calls = tool_calls_from_message(&message);
    assert_eq!(calls.iter().map(|c| c.id.as_str()).collect::<Vec<_>>(), vec!["c1", "c2"]);
    assert!(calls.iter().all(|c| c.name == "read" && c.arguments == serde_json::Value::Null));
    assert_eq!(
        usage_from_message(&message),
        Some(RuntimeUsage { input_tokens: 1, output_tokens: 2, cache_creation_input_tokens: 3, cache_read_input_tokens: 4 })
    );
    assert!(tool_calls_from_message(&CanonicalMessage::User { content: vec![call("c3")] }).is_empty());
    assert_eq!(usage_from_message(&CanonicalMessage::User { content: Vec::new() }), None);
    assert_eq!(
        runtime_usage_from_canonical(&usage(10)),
        RuntimeUsage { input_tokens: 10, output_tokens: 11, cache_creation_input_tokens: 12, cache_read_input_tokens: 13 }
    );
}

#[test]
fn steering_inputs_leave_the_assembled_history() {
    let entries = vec![
        assistant_entry("a", &["call-1"]),
        user_entry("steer", Some("turn-b")),
        user_entry("u", Some("turn-c")),
        result_entry("r1", "call-1"),
    ];
    let steering = vec![IntraTurnSteeringContext { entry_id: "steer".to_string(), context: "ctx".to_string() }];
    let out = turn_assembly_entries(entries, &steering);
    assert_eq!(ids(&out), vec!["a", "r1", "u"]);
}

#[test]
fn reattaching_a_reattached_history_changes_nothing() {
    let entries = vec![
        assistant_entry("a", &["call-1", "call-2"]),
        user_entry("u1", Some("turn-b")),
        assistant_entry("b", &["call-3"]),
        user_entry("u2", Some("turn-c")),
        result_entry("r3", "call-3"),
        result_entry("r2", "call-2"),
        result_entry("r1", "call-1"),
    ];
    let once = reattach_late_tool_result_entries(entries);
    assert_eq!(ids(&once), vec!["a", "r2", "r1", "u1", "b", "r3", "u2"]);
    let once_ids: Vec<String> = ids(&once).iter().map(|s| s.to_string()).collect();
    let twice = reattach_late_tool_result_entries(once);
    assert_eq!(ids(&twice), once_ids.iter().map(|s| s.as_str()).collect::<Vec<_>>());
}
