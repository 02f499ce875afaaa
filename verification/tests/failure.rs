use verlet_agent_loop::failure::{cap_text_bytes, turn_failed_payload, TurnFailure, TurnFailureErrorClass};
use verlet_agent_loop::retry::ProviderErrorKind;
use verlet_agent_loop::turn::turn_endpoint;

#[test]
fn terminal_provider_http_error_journals_one_body_free_turn_failed() {
    let failure = TurnFailure::Provider {
        kind: ProviderErrorKind::HttpStatus { status: 400 },
        message: "provider HTTP status 400".to_string(),
    };
    let payload = turn_failed_payload("turn-1", &failure, "openai", 1);
    assert_eq!(payload.turn_id, "turn-1");
    assert_eq!(payload.error_class, TurnFailureErrorClass::ProviderHttp);
    assert_eq!(payload.provider_id.as_deref(), Some("openai"));
    assert_eq!(payload.http_status, Some(400));
    assert_eq!(payload.message, "provider HTTP status 400");
    assert_eq!(payload.retries_attempted, 0);
    assert!(!payload.message.contains("raw-response-body-must-not-be-journaled"));
}

#[test]
fn retry_exhaustion_journals_exactly_one_turn_failed() {
    let failure = TurnFailure::Provider {
        kind: ProviderErrorKind::Http,
        message: "provider HTTP request failed: outage-3".to_string(),
    };
    let payload = turn_failed_payload("turn-1", &failure, "openai", 3);
    assert_eq!(payload.error_class, TurnFailureErrorClass::ProviderTransport);
    assert_eq!(payload.provider_id.as_deref(), Some("openai"));
    assert_eq!(payload.http_status, None);
    assert!(payload.message.contains("outage-3"));
    assert_eq!(payload.retries_attempted, 2);
}

#[test]
fn terminal_provider_message_is_journaled_at_most_1024_bytes() {
    let failure = TurnFailure::Provider {
        kind: ProviderErrorKind::Http,
        message: format!("provider HTTP request failed: {}", "x".repeat(2_048)),
    };
    let payload = turn_failed_payload("turn-1", &failure, "openai", 1);
    assert_eq!(payload.message.as_bytes().len(), 1024);
    assert!(payload.message.is_char_boundary(payload.message.len()));
    assert!(payload.message.starts_with("provider HTTP request failed: "));
}

#[test]
fn capping_stops_before_a_character_that_would_cross_the_limit() {
    assert_eq!(cap_text_bytes("ééé", 5), "éé");
    assert_eq!(cap_text_bytes("aé€😀", 6), "aé€");
    assert_eq!(cap_text_bytes("aé€😀", 10), "aé€😀");
    assert_eq!(cap_text_bytes("abc", 0), "");
}

#[test]
fn runtime_failures_name_no_provider() {
    let payload = turn_failed_payload("turn-2", &TurnFailure::Runtime { message: "history broke".to_string() }, "openai", 0);
    assert_eq!(payload.error_class, TurnFailureErrorClass::Runtime);
    assert_eq!(payload.provider_id, None);
    assert_eq!(payload.http_status, None);
    assert_eq!(payload.retries_attempted, 0);
}

#[test]
fn a_turn_runs_on_the_routed_endpoint_or_the_launch_one() {
    assert_eq!(turn_endpoint(Some("provider-a"), "launch-provider"), "provider-a");
    assert_eq!(turn_endpoint(None, "launch-provider"), "launch-provider");
}
