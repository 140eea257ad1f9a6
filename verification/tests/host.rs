//! Logins, subscribers, drivers, streams, tools and stored sessions.
use carson::agent::block::Block;
use carson::bundle;
use carson::cli::{carson_home, Cli};
use carson::guest::time;
use carson::host::auth::AuthState;
use carson::host::builtin;
use carson::host::clock;
use carson::host::drivers::{
    DriverError, DriverEvent, DriverMessage, DriverToolCall, DriverToolDef, LlmRequest, SseDecoder,
    SseEventBatch, Usage,
};
use carson::host::echo::{split_words, EchoDriver};
use carson::host::grants;
use carson::host::hub::{frame_text, sse_frame, Hub, SseItem};
use carson::host::openai::{failure_of, request_body, status_failure, OpenAiCompatDriver, OpenAiStream};
use carson::host::registry::{AgentDef, AgentPool, AgentRegistry};
use carson::host::state::{
    cancelled, emit_event, event_item, resolve_model, to_llm_error, EventError, LlmError, LlmHost,
    Next, Request, StreamHandle,
};
use carson::host::store::{
    env_text, fold_sessions, list_text, message_rows, read_env_text, read_list_text, restored_state,
    snapshot, written, KeptColumns, MessageRow, PersistedSession, SessionRow, StoredBlock,
};
use carson::host::tools::{
    cap_output, command_env, invoke_outcome, invoke_target, list_tools, resolve_guest_cwd, sanitize,
    Capabilities, ToolDef, ToolError, ToolRunner, ToolSpec,
};
use carson::host::wiring::{build_drivers, default_provider, Driver, ProviderConfig};
use carson::json::{self, Json, Number};
use carson::shell::vars::Env;

// ---- logins ----

#[test]
fn session_issues_validates_and_revokes() {
    let mut auth = AuthState::new();
    let id = auth.issue();
    assert!(auth.validate(&id));
    assert!(auth.validate(&id));
    auth.revoke(&id);
    assert!(!auth.validate(&id));
}

#[test]
fn unknown_session_is_invalid() {
    let mut auth = AuthState::new();
    assert!(!auth.validate("nope"));
}

#[test]
fn throttle_blocks_after_max_failures() {
    let mut auth = AuthState::new();
    for _ in 0..5 {
        assert!(!auth.is_throttled());
        auth.record_failure();
    }
    assert!(auth.is_throttled());
    auth.clear_failures();
    assert!(!auth.is_throttled());
}

#[test]
fn failures_are_forgotten_after_the_window() {
    let mut auth = AuthState::new();
    for _ in 0..5 {
        auth.record_failure_at(1_000);
    }
    assert!(auth.is_throttled_at(1_000));
    let later = 1_000 + auth.failure_window_ms + 1;
    assert!(!auth.is_throttled_at(later));
}

#[test]
fn a_session_slides_and_then_expires() {
    let mut auth = AuthState::new();
    auth.issue_at("s".to_string(), 0);
    assert!(auth.validate_at("s", 1));
    assert!(!auth.validate_at("s", u64::MAX / 4));
    assert!(!auth.validate_at("s", u64::MAX / 4));
}

#[test]
fn issued_ids_differ() {
    let mut auth = AuthState::new();
    let a = auth.issue();
    let b = auth.issue();
    assert_ne!(a, b);
    assert_eq!(a.len(), 32);
}

// ---- the hub ----

fn item(event: &str) -> SseItem {
    SseItem { event: event.into(), data: json::obj1("k", json::string("v")) }
}

#[test]
fn hub_register_send_alive_unregister() {
    let mut hub = Hub::new();
    assert!(!hub.alive(1));
    hub.register(1, 10);
    assert!(hub.alive(1));
    assert_eq!(hub.recipients(1), vec![10]);
    assert!(hub.send(1, &vec![10]));
    let received = item("chunk");
    assert_eq!(received.event, "chunk");
    assert_eq!(sse_frame(&received), "event: chunk\ndata: {\"k\":\"v\"}\n\n");
    hub.unregister(1, 10);
    assert!(!hub.alive(1));
    assert!(!hub.send(1, &hub_nobody()));
}

fn hub_nobody() -> Vec<u64> {
    Vec::new()
}

#[test]
fn send_broadcasts_to_all_subscribers() {
    let mut hub = Hub::new();
    hub.register(3, 1);
    hub.register(3, 2);
    assert_eq!(hub.recipients(3), vec![1, 2]);
    assert!(hub.send(3, &vec![1, 2]));
    assert_eq!(hub.recipients(3), vec![1, 2]);
}

#[test]
fn unregister_removes_only_matching_channel() {
    let mut hub = Hub::new();
    hub.register(5, 1);
    hub.register(5, 2);
    hub.unregister(5, 1);
    assert!(hub.alive(5));
    assert_eq!(hub.recipients(5), vec![2]);
    assert!(hub.send(5, &vec![2]));
    hub.unregister(5, 2);
    assert!(!hub.alive(5));
}

#[test]
fn hub_send_to_unregistered_session_fails() {
    let mut hub = Hub::new();
    assert!(!hub.send(42, &hub_nobody()));
}

#[test]
fn send_prunes_dropped_receivers() {
    let mut hub = Hub::new();
    hub.register(9, 1);
    hub.register(9, 2);
    // The second receiver is gone: only the first takes the item.
    assert!(hub.send(9, &vec![1]));
    assert_eq!(hub.recipients(9), vec![1]);
    assert!(hub.alive(9));
}

#[test]
fn send_fails_after_receiver_dropped() {
    let mut hub = Hub::new();
    hub.register(7, 1);
    assert!(!hub.send(7, &hub_nobody()));
}

#[test]
fn a_frame_has_an_event_and_its_data() {
    assert_eq!(frame_text("done", "{}"), "event: done\ndata: {}\n\n");
}

// ---- drivers ----

fn user(content: &str) -> DriverMessage {
    DriverMessage {
        role: "user".into(),
        content: Some(content.into()),
        tool_calls: vec![],
        tool_call_id: None,
    }
}

fn request(messages: Vec<DriverMessage>, tools: Vec<DriverToolDef>) -> LlmRequest {
    LlmRequest {
        model: "mock".into(),
        messages,
        system_prompt: None,
        tools,
        temperature: None,
        max_tokens: None,
    }
}

fn time_tool() -> DriverToolDef {
    DriverToolDef { name: "time".into(), description: String::new(), parameters: Json::Null }
}

#[test]
fn echo_streams_text() {
    let (events, usage) = EchoDriver.stream(&request(vec![user("hi")], vec![]));
    assert!(usage.output_tokens > 0);
    assert!(matches!(events[0], DriverEvent::Text(_)));
}

#[test]
fn echo_triggers_tool_when_requested_and_available() {
    let (events, _) = EchoDriver.stream(&request(vec![user("what time is it")], vec![time_tool()]));
    assert!(matches!(events[0], DriverEvent::ToolCallStart(_)));
}

#[test]
fn echo_skips_tool_when_not_available() {
    let (events, _) = EchoDriver.stream(&request(vec![user("what time is it")], vec![]));
    assert!(matches!(events[0], DriverEvent::Text(_)));
}

#[test]
fn echo_skips_tool_when_result_already_present() {
    let tool_message = DriverMessage {
        role: "tool".into(),
        content: Some("{\"time\":\"2026-01-01T00:00:00.000Z\"}".into()),
        tool_calls: vec![],
        tool_call_id: Some("call_time".into()),
    };
    let req = request(vec![user("what time is it"), tool_message], vec![time_tool()]);
    let (events, _) = EchoDriver.stream(&req);
    assert!(matches!(events[0], DriverEvent::Text(_)));
}

#[test]
fn echo_reads_the_request_without_regard_to_case() {
    let (events, _) = EchoDriver.stream(&request(vec![user("What TIME is it")], vec![time_tool()]));
    assert!(matches!(events[0], DriverEvent::ToolCallStart(_)));
}

#[test]
fn words_of_an_answer_make_it_up() {
    let words = split_words("one two  three");
    assert_eq!(words.concat(), "one two  three");
    assert!(words.len() > 1);
}

fn data(payload: &str) -> String {
    payload.to_string()
}

#[test]
fn decoder_extracts_text_and_usage() {
    let mut decoder = SseDecoder::new();
    let batch = decoder
        .decode(&data(r#"{"choices":[{"delta":{"content":"Hel"}}]}"#))
        .unwrap();
    assert_eq!(batch, SseEventBatch::Events(vec![DriverEvent::Text("Hel".into())]));
    let batch = decoder
        .decode(&data(
            r#"{"choices":[{"delta":{"content":"lo"}}],"usage":{"prompt_tokens":7,"completion_tokens":9}}"#,
        ))
        .unwrap();
    assert_eq!(batch, SseEventBatch::Events(vec![DriverEvent::Text("lo".into())]));
    assert_eq!(
        decoder.usage(),
        &Usage { input_tokens: 7, output_tokens: 9, ..Default::default() }
    );
    assert_eq!(decoder.decode(&data("[DONE]")).unwrap(), SseEventBatch::Done);
}

#[test]
fn decoder_parses_cache_tokens() {
    let mut decoder = SseDecoder::new();
    let _ = decoder
        .decode(&data(
            r#"{"choices":[{"delta":{}}],"usage":{"prompt_tokens":100,"completion_tokens":5,"prompt_tokens_details":{"cached_tokens":60}}}"#,
        ))
        .unwrap();
    assert_eq!(
        decoder.usage(),
        &Usage {
            input_tokens: 100,
            cache_read_tokens: 60,
            cache_creation_tokens: 0,
            output_tokens: 5,
        }
    );

    let mut decoder = SseDecoder::new();
    let _ = decoder
        .decode(&data(
            r#"{"choices":[{"delta":{}}],"usage":{"input_tokens":100,"output_tokens":5,"cache_read_input_tokens":70,"cache_creation_input_tokens":20}}"#,
        ))
        .unwrap();
    assert_eq!(
        decoder.usage(),
        &Usage {
            input_tokens: 100,
            cache_read_tokens: 70,
            cache_creation_tokens: 20,
            output_tokens: 5,
        }
    );
}

#[test]
fn decoder_accumulates_tool_call_arguments() {
    let mut decoder = SseDecoder::new();
    let start = decoder
        .decode(&data(
            r#"{"choices":[{"delta":{"tool_calls":[{"index":0,"id":"c1","function":{"name":"time","arguments":""}}]}}]}"#,
        ))
        .unwrap();
    assert_eq!(
        start,
        SseEventBatch::Events(vec![DriverEvent::ToolCallStart(DriverToolCall {
            id: "c1".into(),
            name: "time".into(),
            arguments: String::new(),
        }),])
    );
    let delta = decoder
        .decode(&data(
            r#"{"choices":[{"delta":{"tool_calls":[{"index":0,"function":{"arguments":"{\"x\":"}}]}}]}"#,
        ))
        .unwrap();
    assert_eq!(delta, SseEventBatch::Events(vec![]));
    let _ = decoder
        .decode(&data(
            r#"{"choices":[{"delta":{"tool_calls":[{"index":0,"function":{"arguments":"1}"}}]}}]}"#,
        ))
        .unwrap();
    let end = decoder.finish();
    assert_eq!(
        end,
        vec![DriverEvent::ToolCallEnd(DriverToolCall {
            id: "c1".into(),
            name: "time".into(),
            arguments: "{\"x\":1}".into(),
        })]
    );
}

#[test]
fn decoder_handles_reasoning_and_multiple_tools() {
    let mut decoder = SseDecoder::new();
    let batch = decoder
        .decode(&data(r#"{"choices":[{"delta":{"reasoning_content":"hmm"}}]}"#))
        .unwrap();
    assert_eq!(batch, SseEventBatch::Events(vec![DriverEvent::Thinking("hmm".into())]));
    let batch = decoder
        .decode(&data(
            r#"{"choices":[{"delta":{"tool_calls":[
                    {"index":0,"id":"a","function":{"name":"f1","arguments":"{}"}},
                    {"index":1,"id":"b","function":{"name":"f2","arguments":"{}"}}
                ]}}]}"#,
        ))
        .unwrap();
    let SseEventBatch::Events(events) = batch else {
        panic!("expected events");
    };
    assert_eq!(
        events,
        vec![
            DriverEvent::ToolCallStart(DriverToolCall {
                id: "a".into(),
                name: "f1".into(),
                arguments: String::new(),
            }),
            DriverEvent::ToolCallStart(DriverToolCall {
                id: "b".into(),
                name: "f2".into(),
                arguments: String::new(),
            }),
        ]
    );
}

#[test]
fn decoder_ignores_non_data_and_invalid_json() {
    let mut decoder = SseDecoder::new();
    assert!(decoder.decode("not json").is_none());
    assert!(decoder.decode(r#"{"choices":[]}"#).is_none());
}

const OPENAI_BODY: &str = "data: {\"choices\":[{\"delta\":{\"role\":\"assistant\",\"content\":\"Hel\"}}]}\n\ndata: {\"choices\":[{\"delta\":{\"content\":\"lo\"}}]}\n\ndata: {\"choices\":[{\"delta\":{\"tool_calls\":[{\"index\":0,\"id\":\"c1\",\"function\":{\"name\":\"time\",\"arguments\":\"{}\"}}]}}]}\n\ndata: {\"choices\":[{\"delta\":{},\"finish_reason\":\"stop\"}],\"usage\":{\"prompt_tokens\":7,\"completion_tokens\":9,\"prompt_tokens_details\":{\"cached_tokens\":4}}}\n\ndata: [DONE]\n\n";

fn check_openai(mut stream: OpenAiStream, mut events: Vec<DriverEvent>) {
    events.extend(stream.close());
    assert_eq!(
        stream.usage(),
        Usage {
            input_tokens: 7,
            cache_read_tokens: 4,
            cache_creation_tokens: 0,
            output_tokens: 9,
        }
    );
    assert_eq!(
        events,
        vec![
            DriverEvent::Text("Hel".into()),
            DriverEvent::Text("lo".into()),
            DriverEvent::ToolCallStart(DriverToolCall {
                id: "c1".into(),
                name: "time".into(),
                arguments: String::new(),
            }),
            DriverEvent::ToolCallEnd(DriverToolCall {
                id: "c1".into(),
                name: "time".into(),
                arguments: "{}".into(),
            }),
        ]
    );
}

#[test]
fn openai_streams_text_and_tool_calls() {
    let driver = OpenAiCompatDriver { base_url: "http://host".into(), api_key: "test-key".into() };
    assert_eq!(driver.bearer(), Some("test-key"));
    assert_eq!(driver.url(), "http://host/chat/completions");
    let mut stream = OpenAiStream::new();
    let events = stream.feed(OPENAI_BODY.as_bytes());
    check_openai(stream, events);
}

#[test]
fn openai_chunks_may_be_cut_anywhere() {
    let mut stream = OpenAiStream::new();
    let mut events = Vec::new();
    for b in OPENAI_BODY.as_bytes() {
        events.extend(stream.feed(&[*b]));
    }
    check_openai(stream, events);
}

#[test]
fn openai_maps_http_status_errors() {
    for (status, expected) in [
        (401, DriverError::Auth),
        (429, DriverError::RateLimited),
        (500, DriverError::Internal("upstream status 500 Internal Server Error".into())),
    ] {
        assert_eq!(status_failure(status), Some(expected));
    }
    assert_eq!(status_failure(200), None);
}

#[test]
fn a_status_line_is_told_as_it_is_given() {
    assert_eq!(
        failure_of(502, "502 Bad Gateway"),
        Some(DriverError::Internal("upstream status 502 Bad Gateway".into()))
    );
}

#[test]
fn a_request_lists_its_messages_and_tools() {
    let mut req = request(vec![user("hi")], vec![time_tool()]);
    req.system_prompt = Some("be brief".into());
    req.temperature = Some(Number::Other("0.5".into()));
    req.max_tokens = Some(7);
    let body = json::write(&request_body(&req));
    let back = json::read(&body).unwrap();
    let messages = back.get("messages").unwrap().as_array().unwrap();
    assert_eq!(messages.len(), 2);
    assert_eq!(messages[0].get("role").unwrap().as_str(), Some("system"));
    assert_eq!(messages[1].get("content").unwrap().as_str(), Some("hi"));
    assert_eq!(back.get("max_tokens").unwrap().as_u64(), Some(7));
    assert_eq!(back.get("stream").unwrap().as_bool(), Some(true));
    let tools = back.get("tools").unwrap().as_array().unwrap();
    let f = tools[0].get("function").unwrap();
    assert_eq!(f.get("name").unwrap().as_str(), Some("time"));
}

// ---- streams ----

#[test]
fn resolve_model_with_provider() {
    assert_eq!(
        resolve_model("groq/llama-3"),
        Some(("groq".to_string(), "llama-3".to_string()))
    );
}

#[test]
fn resolve_model_requires_provider() {
    assert_eq!(resolve_model("mock"), None);
    assert_eq!(resolve_model("/model"), None);
    assert_eq!(resolve_model("provider/"), None);
}

#[test]
fn a_model_may_hold_a_slash_itself() {
    assert_eq!(resolve_model("a/b/c"), Some(("a".to_string(), "b/c".to_string())));
}

#[test]
fn emit_event_forwards_to_hub() {
    let mut hub = Hub::new();
    hub.register(1, 4);
    let to = hub.recipients(1);
    let result = emit_event(&mut hub, 1, &to);
    assert_eq!(result, Ok(()));
    let item = event_item("chunk".into(), "hello".into());
    assert_eq!(item.event, "chunk");
    assert_eq!(item.data, Json::Str("hello".into()));
    hub.unregister(1, 4);
}

#[test]
fn emit_event_closed_without_client() {
    let mut hub = Hub::new();
    let to = hub.recipients(99);
    let result = emit_event(&mut hub, 99, &to);
    assert_eq!(result, Err(EventError::Closed));
}

#[test]
fn now_ms_is_close_to_host_clock() {
    let before = clock::now_ms();
    let stamp = clock::now_ms();
    let after = clock::now_ms();
    assert!((before..=after).contains(&stamp));
}

#[test]
fn the_clock_saturates_and_starts_at_the_epoch() {
    assert_eq!(clock::ticks_of(None), 0);
    assert_eq!(clock::ticks_of(Some(12)), 12);
    assert_eq!(clock::stamp_of(None), 0);
    assert_eq!(clock::stamp_of(Some(12)), 12);
    assert!(clock::ms_since_epoch() > 0);
}

#[test]
fn cancelled_tracks_stop_flag_and_hub() {
    let mut hub = Hub::new();
    hub.register(3, 1);
    assert!(!cancelled(false, &hub, 3));
    assert!(cancelled(true, &hub, 3));
    assert!(!cancelled(false, &hub, 3));
    hub.unregister(3, 1);
    assert!(cancelled(false, &hub, 3));
}

fn stream_request() -> Request {
    Request {
        session_id: "s1".into(),
        model: "mock/mock".into(),
        messages: Vec::new(),
        system_prompt: None,
        tools: Vec::new(),
        temperature: None,
        max_tokens: None,
    }
}

#[test]
fn stream_lifecycle_with_echo_driver() {
    let mut state = LlmHost::new();
    state.register_driver("mock");
    let started = state.stream_start(stream_request()).unwrap();
    assert_eq!(started.provider, "mock");
    let handle = started.handle;
    let (events, usage) = EchoDriver.stream(&started.request);
    for e in events {
        assert!(state.deliver(handle, e));
    }
    state.settle(handle, Ok(usage));
    let mut saw_text = false;
    loop {
        match state.stream_next(handle) {
            Next::Chunk(chunk) => saw_text = saw_text || chunk.text.is_some(),
            Next::End => break,
            Next::Wait => panic!("everything has come"),
            Next::Failed(e) => panic!("{e:?}"),
        }
    }
    assert!(saw_text);
    let usage = state.stream_usage(handle).unwrap();
    assert!(usage.output_tokens > 0);
    state.stream_close(handle);
    assert!(!state.streams.contains_key(&handle));
}

#[test]
fn stream_next_unknown_handle_errors() {
    let mut state = LlmHost::new();
    assert!(matches!(state.stream_next(999), Next::Failed(LlmError::Internal(_))));
}

#[test]
fn stream_next_skips_empty_text_and_thinking() {
    let mut state = LlmHost::new();
    state.streams.insert(777, StreamHandle::new());
    // Empty text/thinking deltas are dropped; the next non-empty chunk is
    // the one the guest sees.
    state.deliver(777, DriverEvent::Text("".into()));
    state.deliver(777, DriverEvent::Thinking("".into()));
    state.deliver(777, DriverEvent::Text("hi".into()));
    match state.stream_next(777) {
        Next::Chunk(chunk) => assert_eq!(chunk.text.as_deref(), Some("hi")),
        _ => panic!("expected a chunk"),
    }
    assert!(matches!(state.stream_next(777), Next::Wait));
    // Stream closed afterwards.
    state.settle(777, Ok(Usage::default()));
    assert!(matches!(state.stream_next(777), Next::End));
}

#[test]
fn a_stream_needs_a_known_provider() {
    let mut state = LlmHost::new();
    assert!(state.stream_start(stream_request()).is_err());
    state.register_driver("mock");
    assert!(state.has_driver("mock"));
    assert!(state.remove_driver("mock"));
    assert!(!state.remove_driver("mock"));
    let mut bare = stream_request();
    bare.model = "mock".into();
    state.register_driver("mock");
    assert!(state.stream_start(bare).is_err());
}

#[test]
fn a_failed_driver_ends_its_stream_with_the_error() {
    let mut state = LlmHost::new();
    state.register_driver("mock");
    let handle = state.stream_start(stream_request()).unwrap().handle;
    state.settle(handle, Err(DriverError::Auth));
    assert!(matches!(state.stream_next(handle), Next::Failed(LlmError::Auth)));
}

#[test]
fn errors_keep_their_kind() {
    assert_eq!(to_llm_error(DriverError::Network), LlmError::Network);
    assert_eq!(to_llm_error(DriverError::Auth), LlmError::Auth);
    assert_eq!(to_llm_error(DriverError::RateLimited), LlmError::RateLimited);
    assert_eq!(to_llm_error(DriverError::Timeout), LlmError::Timeout);
    assert_eq!(to_llm_error(DriverError::Cancelled), LlmError::Cancelled);
    assert_eq!(to_llm_error(DriverError::Internal("x".into())), LlmError::Internal("x".into()));
}

#[test]
fn echo_cancels_when_receiver_dropped() {
    let mut state = LlmHost::new();
    state.register_driver("mock");
    let started = state.stream_start(stream_request()).unwrap();
    let (events, _) = EchoDriver.stream(&started.request);
    state.stream_close(started.handle);
    for e in events {
        assert!(!state.deliver(started.handle, e), "nobody takes the event");
    }
    assert_eq!(to_llm_error(DriverError::Cancelled), LlmError::Cancelled);
}

// ---- tools ----

fn time_spec(id: &str) -> ToolSpec {
    ToolSpec {
        id: id.into(),
        name: "time".into(),
        description: String::new(),
        parameters: Json::Obj(vec![]),
    }
}

#[test]
fn capabilities_resolve_bare_names_through_specs() {
    let caps = Capabilities::from_ids(vec!["id-1".into()]);
    let specs = vec![time_spec("id-1"), time_spec("other")];
    assert_eq!(caps.resolve_bare_name(&specs, "time"), Some("id-1"));

    // Two capabilities with the same bare name would be ambiguous and are
    // rejected at agent validation; resolution here simply picks none of
    // them rather than guessing.
    let caps = Capabilities::from_ids(vec!["id-1".into(), "id-2".into()]);
    let both = [time_spec("id-1"), time_spec("id-2")];
    let matches: Vec<_> = caps
        .ids
        .iter()
        .filter(|id| both.iter().any(|sp| sp.id == **id))
        .collect();
    assert_eq!(matches.len(), 2, "ambiguous selection is rejected upstream");
}

#[test]
fn tools_empty_capabilities_allow_nothing() {
    let caps = grants::Capabilities::default();
    assert!(!caps.allows_tool("time"));
    let caps = Capabilities::from_ids(vec![]);
    let specs = vec![time_spec("id-1")];
    assert!(caps.resolve_bare_name(&specs, "time").is_none());
}

#[test]
fn capabilities_filter_tools() {
    let caps = grants::Capabilities::from_names(vec!["time".into()]);
    assert!(caps.allows_tool("time"));
    assert!(!caps.allows_tool("echo"));
}

fn time_def(id: &str, name: &str) -> ToolDef {
    ToolDef {
        id: id.into(),
        name: name.into(),
        description: String::new(),
        parameters: Json::Obj(vec![]),
        env: Env::new(),
    }
}

fn time_runner() -> ToolRunner {
    let mut runner = ToolRunner::new();
    runner.register(&time_def(&builtin::builtin_id("time"), "time"), false);
    runner
}

#[test]
fn list_tools_advertises_bare_names() {
    let caps = Capabilities::from_ids(vec![builtin::builtin_id("time")]);
    let tools = list_tools(&caps, &time_runner().specs());
    assert_eq!(tools.len(), 1);
    assert_eq!(tools[0].name, "time");
}

#[test]
fn invoke_resolves_bare_names_through_capabilities() {
    let runner = time_runner();
    let specs = runner.specs();

    // No capabilities: bare name is not permitted at all.
    let none = Capabilities::from_ids(vec![]);
    assert_eq!(invoke_target(&none, &specs, "time"), Err(ToolError::PermissionDenied));

    // A capability id that resolves to nothing: still denied, never a
    // name-based fallback.
    let nope = Capabilities::from_ids(vec!["nope".into()]);
    assert_eq!(invoke_target(&nope, &specs, "time"), Err(ToolError::PermissionDenied));

    // Selected capability resolves the wire name to its sandbox.
    let caps = Capabilities::from_ids(vec![builtin::builtin_id("time")]);
    let id = invoke_target(&caps, &specs, "time").unwrap();
    assert!(runner.get(&id).is_some());
    let out = invoke_outcome(Some(Ok(time::run())));
    assert!(out.map(|out| out.contains("\"time\"")).unwrap_or(false));
}

#[test]
fn an_invocation_ends_well_or_says_why() {
    assert_eq!(invoke_outcome(None), Err(ToolError::NotFound));
    assert_eq!(invoke_outcome(Some(Err("x".into()))), Err(ToolError::Failed));
    assert_eq!(invoke_outcome(Some(Ok("x".into()))), Ok("x".to_string()));
}

#[test]
fn sandboxed_time_tool_returns_iso8601() {
    let value = json::read(&time::run()).unwrap();
    let time = value.get("time").unwrap().as_str().expect("time field");
    // 2026-08-24T09:01:24.123Z
    assert_eq!(time.len(), 24, "ISO 8601 with millis: {time}");
    assert_eq!(&time[4..5], "-");
    assert_eq!(&time[10..11], "T");
    assert!(time.ends_with('Z'), "{time}");
}

#[test]
fn sandboxed_time_tool_returns_unix_ms() {
    let now = || {
        std::time::SystemTime::now()
            .duration_since(std::time::UNIX_EPOCH)
            .unwrap()
            .as_millis()
    };
    let before = now();
    let out = time::run();
    let after = now();
    let value = json::read(&out).unwrap();
    let unix_ms = value.get("unix_ms").unwrap().as_u64().unwrap();
    assert!((before..=after).contains(&(unix_ms as u128)));
}

#[test]
fn moments_are_written_by_the_calendar() {
    assert_eq!(time::iso8601(0), "1970-01-01T00:00:00.000Z");
    assert_eq!(time::iso8601(1_756_026_084_123), "2025-08-24T09:01:24.123Z");
    assert_eq!(time::iso8601(951_782_400_000), "2000-02-29T00:00:00.000Z");
}

#[test]
fn tool_sandbox_unknown_tool_is_none() {
    assert!(time_runner().get("nope").is_none());
}

#[test]
fn remove_drops_a_tool() {
    let mut runner = time_runner();
    // Register a second tool so removing one leaves the other behind.
    runner.register(&time_def("custom-extra-id", "extra"), false);
    assert!(runner.remove(&builtin::builtin_id("time")));
    assert!(runner.get(&builtin::builtin_id("time")).is_none());
    assert!(!runner.remove(&builtin::builtin_id("time")));
    assert_eq!(
        runner.specs().iter().map(|s| s.name.as_str()).collect::<Vec<_>>(),
        ["extra"]
    );
}

#[test]
fn third_party_tool_registered_with_bytes() {
    let mut runner = ToolRunner::new();
    runner.register(&time_def("third-party-id", "tool"), false);
    let found = runner.get("third-party-id").unwrap();
    assert_eq!(found.spec.name, "tool");
    assert!(!found.shell);
    let out = time::run();
    let value = json::read(&out).unwrap();
    assert!(
        value
            .get("time")
            .and_then(|t| t.as_str())
            .is_some_and(|t| t.len() == 24 && t.ends_with('Z')),
        "expected ISO 8601 time, got {out}"
    );
}

#[test]
fn builtin_tools_have_fixed_ids() {
    let tools = builtin::builtin_tools();
    assert!(tools.len() >= 2);
    for t in &tools {
        assert_eq!(t.id, builtin::builtin_id(&t.name));
        assert_eq!(builtin::builtin_by_id(&t.id).unwrap().name, t.name);
        assert_eq!(t.id.len(), 36);
    }
    assert_ne!(builtin::builtin_id("time"), builtin::builtin_id("bash"));
    assert!(builtin::builtin_by_id("nope").is_none());
    assert_eq!(builtin::embedded_tool("time"), Some(builtin::Module::Time));
    assert_eq!(builtin::embedded_tool("nope"), None);
}

#[test]
fn sandboxes_get_plain_names_and_directories() {
    assert_eq!(sanitize("../a b/c-1_X"), "abc-1_X");
    assert_eq!(resolve_guest_cwd("/home/carson/../x/./y"), "/home/x/y");
    assert_eq!(resolve_guest_cwd("/home/.."), "/home");
    assert_eq!(resolve_guest_cwd(""), "/");
    assert_eq!(resolve_guest_cwd("../.."), "/");
}

#[test]
fn commands_know_their_directory() {
    let mut env = Env::new();
    env.set("A".into(), "1".into());
    let e = command_env(&env, "/tmp");
    assert_eq!(e.get("A").as_deref(), Some("1"));
    assert_eq!(e.get("CARSON_CWD").as_deref(), Some("/tmp"));
}

#[test]
fn long_output_is_cut() {
    let small = vec![1u8; 10];
    assert_eq!(cap_output(&small), small);
    let large = vec![1u8; 10_000_000];
    assert!(cap_output(&large).len() < large.len());
}

// ---- stored sessions ----

/// StoredBlock round-trips through the DB with its metadata intact.
#[test]
fn stored_block_metadata_roundtrip() {
    let block = StoredBlock {
        agent_version_id: "v9".into(),
        kind: "thinking".into(),
        text: Some("hmm".into()),
        input_tokens: 11,
        cache_read_tokens: 3,
        cache_creation_tokens: 1,
        output_tokens: 7,
        created_at_ms: 1234,
        finished_at_ms: 5678,
    };
    let wit: Block = block.to_block();
    assert_eq!(wit.created_at_ms, 1234);
    assert_eq!(wit.finished_at_ms, 5678);
    let back = StoredBlock::from_block(&wit);
    assert_eq!(back.input_tokens, 11);
    assert_eq!(back.cache_read_tokens, 3);
    assert_eq!(back.agent_version_id, "v9");
    assert_eq!(back, block);
    let row = MessageRow::from_block(&block);
    assert_eq!(row.into_block(), block);
}

fn stored(version: &str, kind: &str, text: &str) -> StoredBlock {
    StoredBlock {
        agent_version_id: version.into(),
        kind: kind.into(),
        text: Some(text.into()),
        input_tokens: 0,
        cache_read_tokens: 0,
        cache_creation_tokens: 0,
        output_tokens: 0,
        created_at_ms: 1,
        finished_at_ms: 2,
    }
}

fn row(id: &str, version: &str, message: Option<&StoredBlock>) -> SessionRow {
    SessionRow {
        id: id.into(),
        agent_name: "coder".into(),
        agent_version_id: version.into(),
        name: None,
        sandbox_id: None,
        summary: Some("summary".into()),
        usage: Usage { input_tokens: 10, ..Default::default() },
        updated_at: 5,
        message: message.map(MessageRow::from_block),
    }
}

fn session(id: &str, version: &str, messages: Vec<StoredBlock>) -> PersistedSession {
    PersistedSession {
        id: id.into(),
        agent_name: "coder".into(),
        agent_version_id: version.into(),
        name: None,
        sandbox_id: None,
        updated_at: 0,
        summary: Some("summary".into()),
        usage: Usage { input_tokens: 10, ..Default::default() },
        messages,
    }
}

/// The rows of sessions and messages, as tables hold them.
#[derive(Default)]
struct Tables {
    sessions: Vec<SessionRow>,
    messages: Vec<(String, Vec<MessageRow>)>,
}

impl Tables {
    fn upsert(&mut self, p: PersistedSession, now: i64) {
        let at = self.sessions.iter().position(|s| s.id == p.id);
        let had = at.map(|i| KeptColumns {
            name: self.sessions[i].name.clone(),
            sandbox_id: self.sessions[i].sandbox_id.clone(),
        });
        let p = written(had, p, now);
        self.messages.retain(|(id, _)| *id != p.id);
        self.messages.push((p.id.clone(), message_rows(&p)));
        let row = SessionRow {
            id: p.id,
            agent_name: p.agent_name,
            agent_version_id: p.agent_version_id,
            name: p.name,
            sandbox_id: p.sandbox_id,
            summary: p.summary,
            usage: p.usage,
            updated_at: p.updated_at,
            message: None,
        };
        match at {
            Some(i) => self.sessions[i] = row,
            None => self.sessions.push(row),
        }
    }

    fn load(self) -> Vec<PersistedSession> {
        let mut rows = Vec::new();
        let mut messages = self.messages;
        for s in self.sessions {
            let i = messages.iter().position(|(id, _)| *id == s.id).unwrap();
            let (_, own) = messages.remove(i);
            let joined = |message| SessionRow {
                id: s.id.clone(),
                agent_name: s.agent_name.clone(),
                agent_version_id: s.agent_version_id.clone(),
                name: s.name.clone(),
                sandbox_id: s.sandbox_id.clone(),
                summary: s.summary.clone(),
                usage: s.usage,
                updated_at: s.updated_at,
                message,
            };
            if own.is_empty() {
                rows.push(joined(None));
            }
            rows.extend(own.into_iter().map(|m| joined(Some(m))));
        }
        fold_sessions(rows)
    }
}

#[test]
fn upsert_session_replaces_blocks() {
    let mut db = Tables::default();
    db.upsert(session("s", "v", vec![stored("v", "user", "a")]), 1);
    db.upsert(session("s", "v", vec![stored("v", "user", "a"), stored("v", "user", "b")]), 2);
    let loaded = db.load();
    assert_eq!(loaded.len(), 1);
    assert_eq!(loaded[0].messages.len(), 2);
}

#[test]
fn written_sessions_come_back_in_order() {
    let mut db = Tables::default();
    db.upsert(session("b", "v1", vec![stored("v0", "user", "hi"), stored("v1", "text", "yo")]), 3);
    db.upsert(session("a", "v2", vec![]), 4);
    let loaded = db.load();
    let mut first = session("b", "v1", vec![stored("v0", "user", "hi"), stored("v1", "text", "yo")]);
    first.updated_at = 3;
    let mut second = session("a", "v2", vec![]);
    second.updated_at = 4;
    assert_eq!(loaded, vec![first, second]);
}

#[test]
fn a_session_written_again_keeps_its_name_and_sandbox() {
    let mut db = Tables::default();
    let mut named = session("s", "v1", vec![stored("v1", "user", "a")]);
    named.name = Some("mine".into());
    named.sandbox_id = Some("box".into());
    db.upsert(named, 1);
    db.upsert(session("t", "v1", vec![]), 2);
    db.upsert(session("s", "v2", vec![stored("v2", "user", "b")]), 7);
    let loaded = db.load();
    assert_eq!(loaded.len(), 2);
    assert_eq!(loaded[0].id, "s");
    assert_eq!(loaded[0].name.as_deref(), Some("mine"));
    assert_eq!(loaded[0].sandbox_id.as_deref(), Some("box"));
    assert_eq!(loaded[0].agent_version_id, "v2");
    assert_eq!(loaded[0].updated_at, 7);
    assert_eq!(loaded[0].messages, vec![stored("v2", "user", "b")]);
    assert_eq!(loaded[1].updated_at, 2);
}

#[test]
fn session_block_roundtrip() {
    let mut thinking = stored("v1", "thinking", "let me reason");
    thinking.input_tokens = 7;
    thinking.output_tokens = 3;
    let blocks = vec![
        stored("v0", "user", "hi"),
        thinking,
        stored("v1", "text", "hello"),
        stored("v1", "tool-use", r#"{"id":"c1","name":"time","arguments":"{}"}"#),
        stored(
            "v1",
            "tool-result",
            r#"{"id":"c1","name":"time","output":"{\"time\":\"2026-01-01T00:00:00.000Z\"}","is_error":false}"#,
        ),
    ];
    let mut db = Tables::default();
    db.upsert(session("sess-1", "v1", blocks), 5);
    let loaded = db.load();
    assert_eq!(loaded.len(), 1);
    let s = &loaded[0];
    assert_eq!(s.id, "sess-1");
    assert_eq!(s.agent_name, "coder");
    assert_eq!(s.agent_version_id, "v1");
    assert_eq!(s.summary.as_deref(), Some("summary"));
    assert_eq!(s.messages.len(), 5);
    assert_eq!(s.messages[0].kind, "user");
    assert_eq!(s.messages[0].text.as_deref(), Some("hi"));
    assert_eq!(s.messages[1].kind, "thinking");
    assert_eq!(s.messages[1].input_tokens, 7);
    // Per-block provenance: the "user" block kept its legacy stamp while
    // the assistant-side blocks carry the creating version.
    assert_eq!(s.messages[0].agent_version_id, "v0");
    assert_eq!(s.messages[1].agent_version_id, "v1");

    // Tool payloads decode out of the content JSON.
    let call_payload = json::read(s.messages[3].text.as_deref().unwrap()).unwrap();
    assert_eq!(call_payload.get("name").unwrap().as_str(), Some("time"));
    assert_eq!(call_payload.get("arguments").unwrap().as_str(), Some("{}"));
    let result_payload = json::read(s.messages[4].text.as_deref().unwrap()).unwrap();
    assert_eq!(result_payload.get("is_error").unwrap().as_bool(), Some(false));
    assert!(result_payload.get("output").unwrap().as_str().unwrap().contains("2026-"));
    assert_eq!(s.usage.input_tokens, 10);
}

#[test]
fn rows_of_several_sessions_are_kept_apart() {
    let a = stored("v", "user", "a");
    let b = stored("v", "user", "b");
    let loaded = fold_sessions(vec![
        row("s1", "v", Some(&a)),
        row("s1", "v", Some(&b)),
        row("s2", "v", None),
    ]);
    assert_eq!(loaded.len(), 2);
    assert_eq!(loaded[0].messages.len(), 2);
    assert_eq!(loaded[1].id, "s2");
    assert!(loaded[1].messages.is_empty());
}

#[test]
fn a_snapshot_is_restored() {
    let loaded = fold_sessions(vec![row("s", "v", Some(&stored("v", "user", "hi")))]);
    let state = restored_state(&loaded[0]);
    let again = snapshot("s", "coder", "v", &state, 5);
    assert_eq!(again.messages, loaded[0].messages);
    assert_eq!(again.summary, loaded[0].summary);
    assert_eq!(again.usage, loaded[0].usage);
}

#[test]
fn columns_that_cannot_be_read_are_empty() {
    assert_eq!(read_list_text(r#"["a","b"]"#), vec!["a".to_string(), "b".to_string()]);
    assert!(read_list_text("nonsense").is_empty());
}

// ---- pools and wiring ----

#[test]
fn a_pool_hands_out_its_instances_in_turn() {
    let mut def = AgentDef::named("coder".into(), "mock/m".into());
    def.instances = 3;
    let mut pool = AgentPool::from_def(&def);
    let taken: Vec<usize> = (0..6).map(|_| pool.next()).collect();
    assert_eq!(taken, vec![0, 1, 2, 0, 1, 2]);
}

#[test]
fn a_pool_is_built_once() {
    let def = AgentDef::named("coder".into(), "mock/m".into());
    let mut reg = AgentRegistry::new();
    assert!(reg.get(&def.id).is_none());
    assert!(reg.get_or_build(&def));
    assert!(!reg.get_or_build(&def));
    assert!(reg.get(&def.id).is_some());
}

fn provider(driver: &str, url: Option<&str>) -> ProviderConfig {
    ProviderConfig {
        name: "p".into(),
        driver: driver.into(),
        base_url: url.map(String::from),
        api_key: None,
    }
}

#[test]
fn providers_are_wired_to_their_drivers() {
    let found = build_drivers(&vec![provider("echo", None), provider("openai_compat", Some("http://u"))]);
    let drivers = found.ok().unwrap();
    assert!(matches!(drivers[0].1, Driver::Echo));
    match &drivers[1].1 {
        Driver::OpenAi(d) => {
            assert_eq!(d.base_url, "http://u");
            assert_eq!(d.api_key, "");
        }
        Driver::Echo => panic!("expected a provider"),
    }
    assert_eq!(
        build_drivers(&vec![provider("openai_compat", None)]).err().unwrap(),
        "openai_compat provider requires base_url"
    );
    assert_eq!(
        build_drivers(&vec![provider("x", None)]).err().unwrap(),
        "provider p: unknown driver x"
    );
    assert_eq!(default_provider(&None, &vec![provider("echo", None)]), "p");
    assert_eq!(default_provider(&Some("q".into()), &Vec::new()), "q");
    assert_eq!(default_provider(&None, &Vec::new()), "");
}

// ---- the program ----

#[test]
fn the_home_is_given_or_under_the_users() {
    let cli = Cli { home: Some("/x".into()) };
    assert_eq!(carson_home(&cli.home, &Some("/home/u".into())), "/x");
    assert_eq!(carson_home(&None, &Some("/home/u".into())), "/home/u/.carson");
    assert_eq!(carson_home(&None, &Some("/".into())), "/.carson");
    assert_eq!(carson_home(&None, &None), ".carson");
}

#[test]
fn digests_are_those_of_fnv() {
    assert_eq!(bundle::fnv1a(b""), "cbf29ce484222325");
    assert_eq!(bundle::fnv1a(b"a"), "af63dc4c8601ec8c");
    assert_eq!(bundle::fnv1a(b"foobar"), "85944171f73967e8");
}

#[test]
fn a_build_reports_its_modules() {
    let packages = vec!["carson-tools".to_string()];
    let line = r#"{"reason":"compiler-artifact","package_id":"path+file:///w/carson-tools#0.1.0","target":{"name":"time"},"filenames":["/t/deps/time.wasm","/t/time.wasm"]}"#;
    let a = bundle::artifact_in(line, &packages).unwrap();
    assert_eq!(a.name, "time");
    assert_eq!(a.file, "/t/time.wasm");
    assert!(bundle::artifact_in(r#"{"reason":"build-finished"}"#, &packages).is_none());
    assert!(bundle::artifact_in("plain text", &packages).is_none());
    assert!(bundle::build_var("CARGO_PKG_NAME"));
    assert!(!bundle::build_var("PATH"));
    for name in [
        "OUT_DIR", "PROFILE", "OPT_LEVEL", "DEBUG", "TARGET", "HOST", "RUSTC", "RUSTC_WRAPPER",
        "RUSTDOC", "NUM_JOBS", "CARGO", "CARGO_MANIFEST_DIR", "CARGO_MANIFEST_PATH",
        "CARGO_MANIFEST_LINKS", "CARGO_FEATURE_X", "CARGO_CFG_UNIX", "CARGO_CRATE_NAME",
    ] {
        assert!(bundle::build_var(name), "{name}");
    }
    for name in ["CARGO_HOME", "RUSTFLAGS", "HOSTNAME", "CARGO_PKG"] {
        assert!(!bundle::build_var(name), "{name}");
    }
}

#[test]
fn older_modules_are_built_again() {
    assert!(bundle::is_stale(Some(2), None));
    assert!(bundle::is_stale(Some(2), Some(1)));
    assert!(!bundle::is_stale(Some(2), Some(2)));
    assert!(bundle::up_to_date(Some(3), &[(Some(3), Some(4))]));
    assert!(!bundle::up_to_date(Some(3), &[(Some(3), None)]));
    assert!(!bundle::up_to_date(None, &[]));
}

#[test]
fn stored_columns_read_back() {
    let ids = vec!["b".to_string(), "a \"quoted\"".to_string(), "b".to_string()];
    assert_eq!(list_text(&ids), r#"["b","a \"quoted\"","b"]"#);
    assert_eq!(read_list_text(&list_text(&ids)), ids);
    let env = Env::from_pairs(vec![("Z".into(), "1".into()), ("A".into(), "x\ny".into())]);
    let text = env_text(&env);
    assert_eq!(text, r#"{"A":"x\ny","Z":"1"}"#);
    assert_eq!(read_env_text(&text).entries, env.entries);
    assert!(read_list_text("[1]").is_empty());
    assert!(read_env_text(r#"{"A":1}"#).entries.is_empty());
    assert!(read_env_text("nonsense").entries.is_empty());
}

#[test]
fn variables_of_any_name_read_back() {
    let key = "$serde_json::private::RawValue";
    let env = Env::from_pairs(vec![(key.into(), "1".into()), ("A".into(), "2".into())]);
    let alone = Env::from_pairs(vec![(key.into(), "[1]".into())]);
    assert_eq!(read_env_text(&env_text(&env)).entries, env.entries);
    assert_eq!(read_env_text(&env_text(&alone)).entries, alone.entries);
    let nested = format!("[{{\"{key}\":\"\\\"x\\\"\"}}]");
    assert!(read_list_text(&nested).is_empty());
}

#[test]
fn sweeping_drops_only_what_has_expired() {
    let mut auth = AuthState::new();
    auth.issue_at("old".into(), 0);
    let live = auth.issue();
    auth.sweep();
    assert_eq!(auth.sessions.entries.len(), 1);
    assert!(auth.validate(&live));
    assert!(!auth.validate("old"));
}

#[test]
fn a_shape_stands_for_a_definition() {
    let def = ToolDef::from_spec(&time_spec("t1"));
    assert_eq!(def.id, "t1");
    assert_eq!(def.name, "time");
    assert!(def.env.entries.is_empty());
}
