use verlet_agent_loop::retry::{
    classify_provider_error, elapsed_ms, exhausted_request_error, model_request_id, next_model_request_step,
    provider_api_event_label, runtime_request_mode, stream_assembly_error, ModelRequestAttemptError,
    ModelRequestErrorClass, ModelRequestRetryPolicy, ModelRequestStep, ProviderApi, ProviderErrorKind,
    ProviderRequestMode, RuntimeModelRequestMode, RuntimeModelRequestPurpose,
};

fn error(class: ModelRequestErrorClass) -> ModelRequestAttemptError {
    ModelRequestAttemptError { class, message: "boom".to_string() }
}

#[test]
fn disabled_policy_makes_one_attempt_without_delay() {
    let policy = ModelRequestRetryPolicy::disabled();
    assert_eq!(policy, ModelRequestRetryPolicy { max_attempts: 1, initial_backoff_ms: 0, max_backoff_ms: 0 });
    assert_eq!(policy.attempts(), 1);
    assert_eq!(policy.delay_ms(1), 0);
    assert_eq!(ModelRequestRetryPolicy::default(), policy);
}

#[test]
fn fixed_policy_waits_the_same_delay_before_every_retry() {
    let policy = ModelRequestRetryPolicy::fixed(4, 250);
    assert_eq!(policy.attempts(), 4);
    for attempt in [0, 1, 2, 3, 10, 40, u32::MAX] {
        assert_eq!(policy.delay_ms(attempt), 250);
    }
}

#[test]
fn zero_attempts_still_make_one_attempt() {
    assert_eq!(ModelRequestRetryPolicy::fixed(0, 10).attempts(), 1);
}

#[test]
fn backoff_doubles_per_attempt_and_is_capped() {
    let policy = ModelRequestRetryPolicy { max_attempts: 10, initial_backoff_ms: 100, max_backoff_ms: 1000 };
    assert_eq!(policy.delay_ms(0), 100);
    assert_eq!(policy.delay_ms(1), 100);
    assert_eq!(policy.delay_ms(2), 200);
    assert_eq!(policy.delay_ms(3), 400);
    assert_eq!(policy.delay_ms(4), 800);
    assert_eq!(policy.delay_ms(5), 1000);
    assert_eq!(policy.delay_ms(9), 1000);
    let uncapped = ModelRequestRetryPolicy { max_attempts: 3, initial_backoff_ms: 3, max_backoff_ms: 0 };
    assert_eq!(uncapped.delay_ms(32), 3 * (1u64 << 31));
    assert_eq!(uncapped.delay_ms(100), 3 * (1u64 << 31));
    let huge = ModelRequestRetryPolicy { max_attempts: 3, initial_backoff_ms: u64::MAX / 2, max_backoff_ms: 0 };
    assert_eq!(huge.delay_ms(3), u64::MAX);
}

#[test]
fn provider_errors_are_classified_by_kind_and_status() {
    let cases = [
        (ProviderErrorKind::Cancelled, ModelRequestErrorClass::Cancelled),
        (ProviderErrorKind::UnsupportedCapability, ModelRequestErrorClass::UnsupportedCapability),
        (ProviderErrorKind::ApiMismatch, ModelRequestErrorClass::UnsupportedCapability),
        (ProviderErrorKind::Http, ModelRequestErrorClass::Retryable),
        (ProviderErrorKind::HttpStatus { status: 429 }, ModelRequestErrorClass::RateLimited),
        (ProviderErrorKind::HttpStatus { status: 500 }, ModelRequestErrorClass::Retryable),
        (ProviderErrorKind::HttpStatus { status: 599 }, ModelRequestErrorClass::Retryable),
        (ProviderErrorKind::HttpStatus { status: 408 }, ModelRequestErrorClass::Retryable),
        (ProviderErrorKind::HttpStatus { status: 409 }, ModelRequestErrorClass::Retryable),
        (ProviderErrorKind::HttpStatus { status: 425 }, ModelRequestErrorClass::Retryable),
        (ProviderErrorKind::HttpStatus { status: 400 }, ModelRequestErrorClass::Fatal),
        (ProviderErrorKind::HttpStatus { status: 600 }, ModelRequestErrorClass::Fatal),
        (ProviderErrorKind::Decode, ModelRequestErrorClass::Fatal),
    ];
    for (kind, class) in cases {
        let classified = classify_provider_error(kind, "provider said no".to_string());
        assert_eq!(classified.class, class, "{kind:?}");
        assert_eq!(classified.message, "provider said no");
    }
    let assembly = stream_assembly_error("bad stream".to_string());
    assert_eq!(assembly.class, ModelRequestErrorClass::StreamAssembly);
    assert_eq!(assembly.message, "bad stream");
}

#[test]
fn retryable_and_fallback_eligible_classes() {
    let retryable = [ModelRequestErrorClass::Retryable, ModelRequestErrorClass::RateLimited];
    for class in [
        ModelRequestErrorClass::Cancelled,
        ModelRequestErrorClass::UnsupportedCapability,
        ModelRequestErrorClass::Retryable,
        ModelRequestErrorClass::RateLimited,
        ModelRequestErrorClass::Fatal,
        ModelRequestErrorClass::StreamAssembly,
    ] {
        let e = error(class);
        assert_eq!(e.retryable(), retryable.contains(&class));
        assert_eq!(
            e.fallback_eligible(),
            retryable.contains(&class) || class == ModelRequestErrorClass::UnsupportedCapability
        );
        assert!(!e.retryable() || e.fallback_eligible());
    }
}

#[test]
fn failed_attempts_retry_then_fall_back_then_fail() {
    let policy = ModelRequestRetryPolicy { max_attempts: 2, initial_backoff_ms: 50, max_backoff_ms: 0 };
    let retryable = error(ModelRequestErrorClass::Retryable);
    assert_eq!(
        next_model_request_step(policy, 1, 0, 2, &retryable, false),
        ModelRequestStep::Retry { next_attempt: 2, delay_ms: 50 }
    );
    assert_eq!(next_model_request_step(policy, 2, 0, 2, &retryable, false), ModelRequestStep::Fallback { next_endpoint: 1 });
    assert_eq!(next_model_request_step(policy, 2, 1, 2, &retryable, false), ModelRequestStep::Fail);
    assert_eq!(next_model_request_step(policy, 1, 0, 2, &retryable, true), ModelRequestStep::Fail);
    let unsupported = error(ModelRequestErrorClass::UnsupportedCapability);
    assert_eq!(
        next_model_request_step(policy, 1, 0, 2, &unsupported, false),
        ModelRequestStep::Fallback { next_endpoint: 1 }
    );
    let fatal = error(ModelRequestErrorClass::Fatal);
    assert_eq!(next_model_request_step(policy, 1, 0, 2, &fatal, false), ModelRequestStep::Fail);
}

#[test]
fn exhausted_requests_report_the_last_error() {
    assert_eq!(exhausted_request_error(Some(error(ModelRequestErrorClass::Fatal))), "boom");
    assert_eq!(exhausted_request_error(None), "provider request did not run");
}

#[test]
fn model_request_ids_name_every_coordinate() {
    assert_eq!(
        model_request_id(
            "trace-7",
            "turn-3",
            RuntimeModelRequestPurpose::Turn,
            RuntimeModelRequestMode::Stream,
            12,
            0,
            2
        ),
        "trace-7:turn-3:turn:stream:12:candidate1:attempt2"
    );
    assert_eq!(
        model_request_id(
            "t",
            "u",
            RuntimeModelRequestPurpose::Compaction,
            RuntimeModelRequestMode::Complete,
            0,
            9,
            10
        ),
        "t:u:compaction:complete:0:candidate10:attempt10"
    );
}

#[test]
fn request_modes_and_api_labels() {
    assert_eq!(runtime_request_mode(ProviderRequestMode::Complete), RuntimeModelRequestMode::Complete);
    assert_eq!(runtime_request_mode(ProviderRequestMode::Stream), RuntimeModelRequestMode::Stream);
    assert_eq!(provider_api_event_label(&ProviderApi::OpenAIResponses), "openai_responses");
    assert_eq!(provider_api_event_label(&ProviderApi::OpenAIChatCompletions), "openai_chat_completions");
    assert_eq!(provider_api_event_label(&ProviderApi::AnthropicMessages), "anthropic_messages");
    assert_eq!(provider_api_event_label(&ProviderApi::Other("gemini".to_string())), "gemini");
}

#[test]
fn elapsed_milliseconds_saturate() {
    assert_eq!(elapsed_ms(1234), 1234);
    assert_eq!(elapsed_ms(u64::MAX as u128), u64::MAX);
    assert_eq!(elapsed_ms(u128::MAX), u64::MAX);
}

fn run_positions(policy: ModelRequestRetryPolicy, endpoints: usize, failures: &[(ModelRequestErrorClass, bool)]) -> Vec<(usize, u32)> {
    let mut positions = vec![(0usize, 1u32)];
    let (mut endpoint, mut attempt) = (0usize, 1u32);
    for (class, cancelled) in failures {
        match next_model_request_step(policy, attempt, endpoint, endpoints, &error(*class), *cancelled) {
            ModelRequestStep::Retry { next_attempt, .. } => attempt = next_attempt,
            ModelRequestStep::Fallback { next_endpoint } => {
                endpoint = next_endpoint;
                attempt = 1;
            }
            ModelRequestStep::Fail => break,
        }
        positions.push((endpoint, attempt));
    }
    positions
}

#[test]
fn a_failing_request_tries_each_endpoint_in_order_within_the_budget() {
    let policy = ModelRequestRetryPolicy::fixed(3, 0);
    let failures = vec![(ModelRequestErrorClass::Retryable, false); 10];
    let positions = run_positions(policy, 2, &failures);
    assert_eq!(positions, vec![(0, 1), (0, 2), (0, 3), (1, 1), (1, 2), (1, 3)]);
    assert!(positions.len() <= 2 * policy.attempts() as usize);
}

#[test]
fn no_attempt_follows_a_failure_seen_after_cancellation() {
    let policy = ModelRequestRetryPolicy::fixed(3, 0);
    let failures = vec![(ModelRequestErrorClass::Retryable, false), (ModelRequestErrorClass::Retryable, true)];
    assert_eq!(run_positions(policy, 2, &failures), vec![(0, 1), (0, 2)]);
}
