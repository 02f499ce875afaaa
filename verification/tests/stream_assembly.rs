use verlet_agent_loop::history::{CanonicalContent, CanonicalMessage, CanonicalStopReason, CanonicalUsage};
use verlet_agent_loop::retry::ProviderApi;
use verlet_agent_loop::retry::ModelRequestErrorClass;
use verlet_agent_loop::stream::{
    non_stream_content_events, response_from_stream_events, tool_call_id_aliases, ProviderResponse, ProviderStreamEvent, StreamAssembly,
    StreamRuntimeEvent,
};

fn json(text: &str) -> serde_json::Value {
    serde_json::from_str(text).unwrap()
}

fn delta(id: &str, name: Option<&str>, arguments: &str) -> ProviderStreamEvent {
    ProviderStreamEvent::ToolCallDelta {
        id: id.to_string(),
        name: name.map(|n| n.to_string()),
        arguments_delta: arguments.to_string(),
    }
}

fn completed_call(id: &str, name: &str, arguments: &str) -> ProviderStreamEvent {
    ProviderStreamEvent::Content {
        content: CanonicalContent::ToolCall { id: id.to_string(), name: name.to_string(), arguments: json(arguments) },
    }
}

fn done(stop_reason: CanonicalStopReason) -> ProviderStreamEvent {
    ProviderStreamEvent::Done { stop_reason }
}

fn response(assembly: StreamAssembly) -> (ProviderResponse, Vec<StreamRuntimeEvent>) {
    match assembly.response {
        Ok(response) => (response, assembly.events),
        Err(error) => panic!("stream assembly failed: {}", error.message),
    }
}

fn tool_call(content: &CanonicalContent) -> Option<(String, String, serde_json::Value)> {
    match content {
        CanonicalContent::ToolCall { id, name, arguments } => Some((id.clone(), name.clone(), arguments.clone())),
        _ => None,
    }
}

fn started(events: &[StreamRuntimeEvent]) -> Vec<(String, String, serde_json::Value)> {
    events
        .iter()
        .filter_map(|event| match event {
            StreamRuntimeEvent::ToolCallStarted { call_id, name, input } => {
                Some((call_id.clone(), name.clone(), input.clone()))
            },
            _ => None,
        })
        .collect()
}

#[test]
fn tool_call_id_aliases_split_only_once_and_omit_empty_components() {
    assert_eq!(tool_call_id_aliases("call_1"), vec!["call_1"]);
    assert_eq!(tool_call_id_aliases("call_1|fc_1"), vec!["call_1|fc_1", "call_1", "fc_1"]);
    assert_eq!(
        tool_call_id_aliases("call_1|namespace|fc_1"),
        vec!["call_1|namespace|fc_1", "call_1", "namespace|fc_1"]
    );
    assert_eq!(tool_call_id_aliases("|fc_1"), vec!["|fc_1", "fc_1"]);
    assert_eq!(tool_call_id_aliases("call_1|"), vec!["call_1|", "call_1"]);
}

#[test]
fn stream_assembly_merges_item_id_deltas_into_combined_completed_tool_call() {
    let (response, events) = response(response_from_stream_events(vec![
        delta("fc_1", None, "{\"path\":\"notes.txt\","),
        delta("fc_1", None, "\"content\":\"hello\"}"),
        completed_call("call_1|fc_1", "write", "{\"path\": \"notes.txt\", \"content\": \"hello\"}"),
        done(CanonicalStopReason::ToolUse),
    ]));

    assert_eq!(response.content.len(), 1);
    assert_eq!(
        tool_call(&response.content[0]),
        Some((
            "call_1|fc_1".to_string(),
            "write".to_string(),
            json("{\"path\": \"notes.txt\", \"content\": \"hello\"}")
        ))
    );
    let started_calls: Vec<(String, String)> =
        started(&events).into_iter().map(|(id, name, _)| (id, name)).collect();
    assert_eq!(started_calls, vec![("call_1|fc_1".to_string(), "write".to_string())]);
}

#[test]
fn stream_assembly_rejects_nameless_pending_tool_call() {
    let assembly = response_from_stream_events(vec![
        delta("fc_1", None, "{\"path\":\"notes.txt\"}"),
        done(CanonicalStopReason::ToolUse),
    ]);
    let error = match assembly.response {
        Err(error) => error,
        Ok(_) => panic!("a nameless pending call must fail"),
    };
    assert_eq!(error.class, ModelRequestErrorClass::StreamAssembly);
    assert_eq!(error.message, "streamed tool call fc_1 is missing a name");
}

#[test]
fn stream_assembly_ignores_item_id_deltas_after_completed_tool_call() {
    let (response, events) = response(response_from_stream_events(vec![
        completed_call("call_1|fc_1", "write", "{\"path\": \"notes.txt\"}"),
        delta("fc_1", None, "{\"path\":\"notes.txt\"}"),
        done(CanonicalStopReason::ToolUse),
    ]));

    assert_eq!(response.content.len(), 1);
    assert_eq!(
        tool_call(&response.content[0]),
        Some(("call_1|fc_1".to_string(), "write".to_string(), json("{\"path\": \"notes.txt\"}")))
    );
    assert_eq!(started(&events).len(), 1);
}

#[test]
fn stream_assembly_emits_one_started_event_for_delta_and_completed_call() {
    let (response, events) = response(response_from_stream_events(vec![
        delta("call_1", Some("bash"), "{\"command\":\"pwd\"}"),
        completed_call("call_1", "bash", "{\"command\": \"pwd\"}"),
        done(CanonicalStopReason::ToolUse),
    ]));

    assert_eq!(response.content.len(), 1);
    assert_eq!(
        started(&events),
        vec![("call_1".to_string(), "bash".to_string(), json("{\"command\": \"pwd\"}"))]
    );
}

#[test]
fn stream_assembly_preserves_named_call_that_collides_with_completed_id_component() {
    let (response, events) = response(response_from_stream_events(vec![
        delta("call_1", Some("read"), "{\"path\":\"input.txt\"}"),
        completed_call("call_1|fc_1", "write", "{\"path\": \"output.txt\"}"),
        done(CanonicalStopReason::ToolUse),
    ]));

    assert_eq!(response.content.len(), 2);
    let calls: Vec<_> = response.content.iter().filter_map(tool_call).collect();
    assert!(calls.contains(&("call_1".to_string(), "read".to_string(), json("{\"path\": \"input.txt\"}"))));
    assert!(calls.contains(&("call_1|fc_1".to_string(), "write".to_string(), json("{\"path\": \"output.txt\"}"))));
    let mut started_ids: Vec<String> = started(&events).into_iter().map(|(id, _, _)| id).collect();
    started_ids.sort();
    assert_eq!(started_ids, vec!["call_1".to_string(), "call_1|fc_1".to_string()]);
}

#[test]
fn stream_assembly_requires_terminal_done() {
    let assembly = response_from_stream_events(vec![ProviderStreamEvent::TextDelta { text: "partial".to_string() }]);
    match assembly.response {
        Err(error) => {
            assert_eq!(error.class, ModelRequestErrorClass::StreamAssembly);
            assert_eq!(error.message, "provider stream ended before done event");
        },
        Ok(_) => panic!("a stream without done must fail"),
    }
    assert_eq!(assembly.events.len(), 1);
}

#[test]
fn stream_error_event_fails_with_its_message_and_keeps_prior_events() {
    let assembly = response_from_stream_events(vec![
        ProviderStreamEvent::TextDelta { text: "a".to_string() },
        ProviderStreamEvent::Error { message: "upstream reset".to_string() },
        ProviderStreamEvent::TextDelta { text: "b".to_string() },
        done(CanonicalStopReason::EndTurn),
    ]);
    match assembly.response {
        Err(error) => {
            assert_eq!(error.class, ModelRequestErrorClass::StreamAssembly);
            assert_eq!(error.message, "upstream reset");
        },
        Ok(_) => panic!("an error event must fail the stream"),
    }
    assert_eq!(assembly.events.len(), 1);
}

#[test]
fn unparsable_pending_arguments_report_the_parser_error() {
    let assembly = response_from_stream_events(vec![
        delta("call_9", Some("write"), "{\"path\":"),
        done(CanonicalStopReason::ToolUse),
    ]);
    let parser_error = serde_json::from_str::<serde_json::Value>("{\"path\":").unwrap_err().to_string();
    match assembly.response {
        Err(error) => {
            assert_eq!(error.class, ModelRequestErrorClass::StreamAssembly);
            assert_eq!(error.message, format!("invalid streamed tool arguments for call_9: {parser_error}"));
        },
        Ok(_) => panic!("unparsable arguments must fail"),
    }
}

#[test]
fn pending_call_arguments_are_parsed_and_blank_arguments_become_an_empty_object() {
    let (response, events) = response(response_from_stream_events(vec![
        delta("call_a", Some("read"), "{\"path\":"),
        delta("call_a", None, "\"a.txt\"}"),
        delta("call_b", Some("list"), "  "),
        done(CanonicalStopReason::ToolUse),
    ]));
    assert_eq!(response.stop_reason, CanonicalStopReason::ToolUse);
    assert_eq!(
        response.content.iter().filter_map(tool_call).collect::<Vec<_>>(),
        vec![
            ("call_a".to_string(), "read".to_string(), json("{\"path\": \"a.txt\"}")),
            ("call_b".to_string(), "list".to_string(), json("{}")),
        ]
    );
    assert_eq!(started(&events).len(), 2);
}

#[test]
fn text_deltas_lead_the_content_and_a_repeated_completed_text_is_dropped() {
    let (response, events) = response(response_from_stream_events(vec![
        ProviderStreamEvent::TextDelta { text: "Hel".to_string() },
        ProviderStreamEvent::ThinkingDelta { text: "pondering".to_string() },
        ProviderStreamEvent::TextDelta { text: "lo".to_string() },
        ProviderStreamEvent::Content { content: CanonicalContent::Text { text: "Hello".to_string() } },
        ProviderStreamEvent::Usage {
            usage: CanonicalUsage {
                input_tokens: 3,
                output_tokens: 4,
                cache_creation_input_tokens: 0,
                cache_read_input_tokens: 1,
            },
        },
        ProviderStreamEvent::Usage {
            usage: CanonicalUsage {
                input_tokens: 2,
                output_tokens: 1,
                cache_creation_input_tokens: 5,
                cache_read_input_tokens: 0,
            },
        },
        done(CanonicalStopReason::EndTurn),
    ]));
    assert_eq!(response.content.len(), 2);
    assert!(matches!(&response.content[0], CanonicalContent::Text { text } if text == "Hello"));
    assert!(matches!(&response.content[1], CanonicalContent::Thinking { text } if text == "pondering"));
    assert_eq!(
        response.usage,
        CanonicalUsage { input_tokens: 5, output_tokens: 5, cache_creation_input_tokens: 5, cache_read_input_tokens: 1 }
    );
    assert_eq!(events.len(), 5);
}

#[test]
fn complete_responses_replay_their_non_empty_text_and_thinking_as_deltas() {
    let message = CanonicalMessage::Assistant {
        provider: "p".to_string(),
        api: ProviderApi::OpenAIResponses,
        model: "m".to_string(),
        content: vec![
            CanonicalContent::Text { text: "hi".to_string() },
            CanonicalContent::Text { text: String::new() },
            CanonicalContent::Thinking { text: "hmm".to_string() },
            CanonicalContent::ToolCall { id: "c".to_string(), name: "n".to_string(), arguments: json("{}") },
        ],
        usage: CanonicalUsage { input_tokens: 0, output_tokens: 0, cache_creation_input_tokens: 0, cache_read_input_tokens: 0 },
        stop_reason: CanonicalStopReason::EndTurn,
    };
    let events = non_stream_content_events(&message);
    assert_eq!(events.len(), 2);
    assert!(matches!(&events[0], StreamRuntimeEvent::TextDelta { text } if text == "hi"));
    assert!(matches!(&events[1], StreamRuntimeEvent::ThinkingDelta { text } if text == "hmm"));
    assert!(non_stream_content_events(&CanonicalMessage::User { content: vec![CanonicalContent::Text { text: "x".to_string() }] }).is_empty());
}

#[test]
fn unparsable_arguments_messages_name_the_call_and_the_parser_error() {
    assert_eq!(
        verlet_agent_loop::stream::invalid_arguments_message("call_2", "EOF while parsing".to_string()),
        "invalid streamed tool arguments for call_2: EOF while parsing"
    );
}

#[test]
fn a_named_delta_under_an_alias_id_stays_its_own_call() {
    let (response, events) = response(response_from_stream_events(vec![
        delta("fc_1", Some("write"), "{\"path\":\"a.txt\"}"),
        completed_call("call_1|fc_1", "write", "{\"path\": \"b.txt\"}"),
        done(CanonicalStopReason::ToolUse),
    ]));
    let calls: Vec<_> = response.content.iter().filter_map(tool_call).collect();
    assert_eq!(
        calls,
        vec![
            ("call_1|fc_1".to_string(), "write".to_string(), json("{\"path\": \"b.txt\"}")),
            ("fc_1".to_string(), "write".to_string(), json("{\"path\": \"a.txt\"}")),
        ]
    );
    assert_eq!(started(&events).len(), 2);
}

#[test]
fn deltas_under_the_exact_completed_id_fold_whatever_their_name() {
    let (response, events) = response(response_from_stream_events(vec![
        delta("call_1", Some("read"), "{\"path\":\"x\"}"),
        completed_call("call_1", "write", "{\"path\": \"y\"}"),
        delta("call_1", Some("read"), "{}"),
        done(CanonicalStopReason::ToolUse),
    ]));
    assert_eq!(response.content.len(), 1);
    assert_eq!(started(&events).len(), 1);
}
