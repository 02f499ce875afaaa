use verlet_agent_loop::events::{ToolCallRequestedPayload, ToolCallSubject, VerletError};
use verlet_agent_loop::history::ProviderToolCall;
use verlet_agent_loop::replay::{check_replayed_call, find_witnessed_call};

fn call(id: &str, name: &str, arguments: serde_json::Value) -> ProviderToolCall {
    ProviderToolCall { id: id.to_string(), name: name.to_string(), arguments }
}

fn request(call_id: &str, name: &str, arguments: serde_json::Value, fingerprint: Option<&str>) -> ToolCallRequestedPayload {
    ToolCallRequestedPayload {
        subject: ToolCallSubject { turn_id: "turn-1".to_string(), call_id: call_id.to_string() },
        snapshot_id: "snap".to_string(),
        tool_name: name.to_string(),
        arguments,
        args_fingerprint: fingerprint.map(|f| f.to_string()),
    }
}

fn args(path: &str) -> serde_json::Value {
    serde_json::from_str(&format!("{{\"path\":\"{path}\"}}")).unwrap()
}

#[test]
fn witnessed_call_is_found_by_its_id() {
    let calls = vec![call("a", "read", args("x")), call("b", "write", args("y")), call("b", "other", args("z"))];
    assert_eq!(find_witnessed_call("entry-1", &calls, "a").unwrap(), 0);
    assert_eq!(find_witnessed_call("entry-1", &calls, "b").unwrap(), 1);
}

#[test]
fn a_lost_witnessed_call_is_a_history_error() {
    let calls = vec![call("a", "read", args("x"))];
    match find_witnessed_call("entry-7", &calls, "missing") {
        Err(VerletError::History(message)) => {
            assert_eq!(message, "witnessed assistant batch entry-7 lost tool call missing")
        }
        other => panic!("unexpected {other:?}"),
    }
}

#[test]
fn an_agreeing_replayed_call_passes() {
    let c = call("a", "read", args("x"));
    assert!(check_replayed_call("entry-1", &c, &request("a", "read", args("x"), Some("fp")), "fp").is_ok());
    assert!(check_replayed_call("entry-1", &c, &request("a", "read", args("x"), None), "other").is_ok());
}

#[test]
fn a_disagreeing_replayed_call_is_a_history_error() {
    let c = call("a", "read", args("x"));
    let cases = vec![
        request("a", "write", args("x"), None),
        request("a", "read", args("y"), None),
        request("a", "read", args("x"), Some("recorded")),
    ];
    for r in cases {
        match check_replayed_call("entry-2", &c, &r, "replayed") {
            Err(VerletError::History(message)) => {
                assert_eq!(message, "witnessed assistant batch entry-2 disagrees with tool request a")
            }
            other => panic!("unexpected {other:?}"),
        }
    }
}
