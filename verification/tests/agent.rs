//! Turns of an agent against the echo driver.
use carson::agent::block::{Block, TurnUsage};
use carson::agent::chat::blocks_to_chat;
use carson::agent::payload;
use carson::agent::seg::{self, Seg, What};
use carson::agent::session::{AgentError, AgentSessions, Session, SessionConfig};
use carson::agent::turn::{Answer, Ask, Turn};
use carson::guest::time;
use carson::host::drivers::{DriverToolCall, Usage};
use carson::host::echo::EchoDriver;
use carson::host::state::{LlmError, LlmHost, Next};
use carson::host::store::{restored_state, snapshot, PersistedSession};
use carson::host::tools::{ToolDefinition, ToolError};
use carson::json::{self, Json};

fn config(max_history: u32, compact_at: u64, auto_compact: bool) -> SessionConfig {
    SessionConfig {
        agent_version_id: "v1".into(),
        system_prompt: "You are a coding agent.".into(),
        model: "mock/mock".into(),
        capabilities_json: "[]".into(),
        max_history,
        compact_at,
        auto_compact,
    }
}

struct Event {
    event: String,
    data: String,
}

struct Rig {
    sessions: AgentSessions,
    llm: LlmHost,
    stop: bool,
    clock: u64,
}

impl Rig {
    fn new() -> Self {
        let mut llm = LlmHost::new();
        llm.register_driver("mock");
        Rig { sessions: AgentSessions::new(), llm, stop: false, clock: 1_000 }
    }

    fn create(&mut self, id: &str, config: SessionConfig) {
        self.sessions.create_session(id.to_string(), config).unwrap();
    }

    fn answer(&mut self, ask: Ask, events: &mut Vec<Event>) -> Answer {
        match ask {
            Ask::Cancelled => Answer::Flag(self.stop),
            Ask::ListTools => Answer::Tools(vec![ToolDefinition {
                name: "time".into(),
                description: String::new(),
                parameters_json: "{}".into(),
            }]),
            Ask::StreamStart(request) => match self.llm.stream_start(request) {
                Ok(started) => {
                    let (made, usage) = EchoDriver.stream(&started.request);
                    for e in made {
                        self.llm.deliver(started.handle, e);
                    }
                    self.llm.settle(started.handle, Ok(usage));
                    Answer::Opened(Ok(started.handle))
                }
                Err(e) => Answer::Opened(Err(e)),
            },
            Ask::StreamNext(handle) => Answer::Next(self.llm.stream_next(handle)),
            Ask::StreamUsage(handle) => Answer::Usage(self.llm.stream_usage(handle).ok()),
            Ask::StreamClose(handle) => {
                self.llm.stream_close(handle);
                Answer::Done
            }
            Ask::Emit { kind, data } => {
                events.push(Event { event: kind, data });
                Answer::Done
            }
            Ask::Invoke { name, .. } => Answer::Ran(if name == "time" {
                Ok(time::run())
            } else {
                Err(ToolError::NotFound)
            }),
            Ask::Nothing => Answer::Done,
        }
    }

    fn play(&mut self, mut turn: Turn, events: &mut Vec<Event>) -> Turn {
        while !turn.is_over() {
            let ask = turn.ask();
            let answer = self.answer(ask, events);
            self.clock += 1;
            turn = turn.step(answer, self.clock);
        }
        turn
    }

    fn send(&mut self, id: &str, content: &str) -> Result<Vec<Event>, AgentError> {
        let mut session = self.sessions.check_out(id)?;
        session.open_turn(content.to_string(), self.clock);
        let mut events = Vec::new();
        let turn = self.play(Turn::new(session), &mut events);
        let mut session = turn.session;
        session.conclude_turn(self.clock);
        self.sessions.check_in(id.to_string(), session);
        Ok(events)
    }

    fn compact(&mut self, id: &str) -> Result<Vec<Event>, AgentError> {
        let session = self.sessions.check_out(id)?;
        let mut events = Vec::new();
        let turn = self.play(Turn::compact(session), &mut events);
        let failed = turn.failed;
        self.sessions.check_in(id.to_string(), turn.session);
        if failed {
            return Err(AgentError::Internal);
        }
        Ok(events)
    }

    fn history(&self, id: &str) -> Vec<Block> {
        self.sessions.session_history(id).unwrap()
    }

    fn snapshot(&self, id: &str) -> PersistedSession {
        snapshot(id, "coder", "v1", &self.sessions.session_state(id).unwrap(), 7)
    }
}

fn chunk_text(items: &[Event]) -> String {
    items.iter().filter(|i| i.event == "chunk").map(|i| i.data.as_str()).collect()
}

#[test]
fn chat_streams_the_echo_reply() {
    let mut rig = Rig::new();
    rig.create("1", config(40, 102_400, true));
    let items = rig.send("1", "hello").unwrap();
    assert_eq!(chunk_text(&items), "Echo: hello");
    assert!(!items.iter().any(|i| i.event == "thinking"));
}

#[test]
fn tool_loop_invokes_time_and_continues() {
    let mut rig = Rig::new();
    rig.create("2", config(40, 102_400, true));
    let items = rig.send("2", "what time is it?").unwrap();

    let of = |event: &str| -> Vec<&str> {
        items.iter().filter(|i| i.event == event).map(|i| i.data.as_str()).collect()
    };
    let tool_use = of("tool_use");
    let tool_result = of("tool_result");
    assert_eq!(tool_use.len(), 1);
    assert!(tool_use[0].contains("\"name\":\"time\""), "{}", tool_use[0]);
    assert_eq!(tool_result.len(), 1);
    let payload = json::read(tool_result[0]).expect("tool_result json");
    let preview = payload.get("result_preview").unwrap().as_str().expect("preview");
    let parsed = json::read(preview).expect("preview carries the tool's JSON output");
    assert!(
        parsed
            .get("time")
            .and_then(|t| t.as_str())
            .is_some_and(|t| t.len() == 24 && t.ends_with('Z')),
        "expected ISO 8601 time in {preview}"
    );
    assert_eq!(chunk_text(&items), "Echo: what time is it?");
}

#[test]
fn history_records_the_conversation() {
    let mut rig = Rig::new();
    rig.create("3", config(40, 102_400, true));
    rig.send("3", "hi").unwrap();
    let blocks = rig.history("3");
    let kinds: Vec<_> = blocks.iter().map(|b| b.kind.as_str()).collect();
    assert_eq!(kinds, ["user", "text"]);
    assert_eq!(blocks[1].text.as_deref(), Some("Echo: hi"));
}

#[test]
fn reset_clears_history() {
    let mut rig = Rig::new();
    rig.create("4", config(40, 102_400, true));
    rig.send("4", "hi").unwrap();
    rig.sessions.reset_session("4").unwrap();
    assert!(rig.history("4").is_empty());
}

#[test]
fn destroy_removes_the_session() {
    let mut rig = Rig::new();
    rig.create("5", config(40, 102_400, true));
    rig.sessions.destroy_session("5").unwrap();
    assert_eq!(rig.send("5", "hi").err(), Some(AgentError::NotFound));
}

#[test]
fn stop_flag_aborts_a_turn() {
    let mut rig = Rig::new();
    rig.create("6", config(40, 102_400, true));
    rig.stop = true;
    let items = rig.send("6", "hi");
    assert!(items.is_ok());
    assert_eq!(rig.history("6").len(), 1);
    assert!(rig.llm.streams.is_empty());
}

#[test]
fn auto_compaction_trims_history() {
    let mut rig = Rig::new();
    rig.create("10", config(4, 80, true));
    let long = "lorem ipsum dolor sit amet ".repeat(20);
    let mut saw_compacted = false;
    for _ in 0..6 {
        let items = rig.send("10", &long).unwrap();
        if items.iter().any(|i| i.event == "status" && i.data.contains("compacted")) {
            saw_compacted = true;
        }
    }
    assert!(saw_compacted, "expected a compacted status event");
    assert!(rig.history("10").len() <= 8, "history was not bounded by compaction");
}

#[test]
fn manual_compaction_trims_history() {
    let mut rig = Rig::new();
    rig.create("11", config(4, 102_400, false));
    for _ in 0..6 {
        rig.send("11", "short message").unwrap();
    }
    let before = rig.history("11").len();
    assert!(before > 4, "manual mode should accumulate history");
    rig.compact("11").unwrap();
    assert_eq!(rig.history("11").len(), 4);
}

#[test]
fn session_usage_reports_real_tokens() {
    let mut rig = Rig::new();
    rig.create("12", config(40, 102_400, true));
    rig.send("12", "hello world").unwrap();
    let usage = rig.sessions.session_usage("12").unwrap();
    assert!(usage.input_tokens > 0);
    assert!(usage.output_tokens > 0);
}

#[test]
fn session_persists_and_restores() {
    let mut rig = Rig::new();
    rig.create("s-1", config(40, 102_400, true));
    rig.send("s-1", "hello world").unwrap();
    let loaded = rig.snapshot("s-1");
    assert_eq!(loaded.id, "s-1");
    assert_eq!(loaded.agent_name, "coder");
    assert_eq!(loaded.agent_version_id, "v1");
    // user block + assistant text block
    assert_eq!(loaded.messages.len(), 2);
    assert_eq!(loaded.messages[0].kind, "user");
    assert_eq!(loaded.messages[0].text.as_deref(), Some("hello world"));
    assert_eq!(loaded.messages[1].kind, "text");
    assert_eq!(loaded.messages[1].text.as_deref(), Some("Echo: hello world"));
    assert!(loaded.usage.output_tokens > 0, "usage persisted");
    assert!(loaded.usage.input_tokens > 0, "usage persisted");

    let mut other = Rig::new();
    other.sessions.restore_session(
        "s-1".into(),
        config(40, 102_400, true),
        restored_state(&loaded),
    );
    let blocks = other.history("s-1");
    assert_eq!(blocks.len(), 2);
    assert_eq!(blocks[0].kind, "user");
    assert_eq!(blocks[0].text.as_deref(), Some("hello world"));
    assert_eq!(blocks[1].text.as_deref(), Some("Echo: hello world"));
    let state = other.sessions.session_state("s-1").unwrap();
    assert_eq!(state.usage.input_tokens, loaded.usage.input_tokens);
    assert_eq!(state.usage.output_tokens, loaded.usage.output_tokens);
}

#[test]
fn summary_is_restored() {
    let mut rig = Rig::new();
    rig.create("s-2", config(4, 102_400, true));
    // Force a summary via compaction after a message.
    let long = "lorem ipsum dolor sit amet ".repeat(20);
    for _ in 0..4 {
        rig.send("s-2", &long).unwrap();
    }
    rig.compact("s-2").unwrap();
    let session = rig.snapshot("s-2");
    assert!(session.summary.is_some(), "summary persisted");

    let mut other = Rig::new();
    other.sessions.restore_session("s-2".into(), config(4, 102_400, true), restored_state(&session));
    let state = other.sessions.session_state("s-2").unwrap();
    assert!(state.summary.is_some(), "summary restored");
}

/// A tool-calling turn must persist thinking/text/tool-use/tool-result blocks
/// in stream order with metadata.
#[test]
fn tool_turn_persists_ordered_blocks() {
    let mut rig = Rig::new();
    rig.create("s-3", config(40, 102_400, true));
    rig.send("s-3", "what is the time?").unwrap();
    let session = rig.snapshot("s-3");
    let kinds: Vec<&str> = session.messages.iter().map(|b| b.kind.as_str()).collect();
    assert!(
        kinds == ["user", "tool-use", "tool-result", "text"]
            || kinds == ["user", "text", "tool-use", "tool-result"],
        "unexpected order: {kinds:?}"
    );
    let call = session.messages.iter().find(|b| b.kind == "tool-use").unwrap();
    let call_payload = json::read(call.text.as_deref().unwrap()).unwrap();
    assert_eq!(call_payload.get("name").unwrap().as_str(), Some("time"));
    assert_eq!(call_payload.get("arguments").unwrap().as_str(), Some("{}"));
    assert_eq!(call.agent_version_id, "v1", "provenance stamped");

    let result = session.messages.iter().find(|b| b.kind == "tool-result").unwrap();
    let result_payload = json::read(result.text.as_deref().unwrap()).unwrap();
    assert_eq!(result_payload.get("id"), call_payload.get("id"));
    let output = result_payload.get("output").unwrap().as_str().unwrap();
    assert!(output.contains("time"), "result output: {output}");
    // Assistant-side blocks carry the LLM usage of their turn.
    assert!(call.input_tokens > 0 || call.output_tokens > 0);
}

// ---- edges ----

#[test]
fn a_session_is_made_once() {
    let mut sessions = AgentSessions::new();
    assert!(sessions.create_session("a".into(), config(4, 1, true)).is_ok());
    assert_eq!(sessions.create_session("a".into(), config(4, 1, true)), Err(AgentError::Busy));
    assert_eq!(sessions.session_usage("b").err(), Some(AgentError::NotFound));
    assert_eq!(sessions.reset_session("b"), Err(AgentError::NotFound));
    assert_eq!(sessions.destroy_session("b"), Err(AgentError::NotFound));
}

#[test]
fn an_unknown_provider_is_told_and_ends_the_turn() {
    let mut rig = Rig::new();
    rig.llm.remove_driver("mock");
    rig.create("x", config(40, 102_400, true));
    let items = rig.send("x", "hi").unwrap();
    assert!(items.iter().any(|i| i.event == "error"), "an error is told");
    assert_eq!(rig.history("x").len(), 1);
}

#[test]
fn the_users_block_lasts_for_the_turn() {
    let mut rig = Rig::new();
    rig.create("y", config(40, 102_400, true));
    rig.send("y", "hi").unwrap();
    let blocks = rig.history("y");
    assert!(blocks[0].finished_at_ms >= blocks[1].finished_at_ms);
    assert!(blocks[0].finished_at_ms > blocks[0].created_at_ms);
}

fn call(id: &str) -> DriverToolCall {
    DriverToolCall { id: id.into(), name: "time".into(), arguments: "{}".into() }
}

#[test]
fn calls_and_results_become_messages() {
    let u = Usage::default();
    let mut segs: Vec<Seg> = Vec::new();
    seg::push_thinking(&mut segs, "hm", 1);
    seg::push_text(&mut segs, "a", 2);
    seg::push_text(&mut segs, "b", 3);
    segs.push(Seg { what: What::ToolUse(call("c1")), created: 4, finished: 5 });
    seg::close_last(&mut segs, 9);
    let mut blocks: Vec<Block> = segs.into_iter().map(|s| s.into_block("v", 9, &u)).collect();
    assert_eq!(blocks.len(), 3);
    assert_eq!(blocks[1].text.as_deref(), Some("ab"));
    blocks.push(seg::tool_result_block("v", &call("c1"), "noon", false, 6, 7));
    let chat = blocks_to_chat(&blocks);
    assert_eq!(chat.len(), 2);
    assert_eq!(chat[0].role, "assistant");
    assert_eq!(chat[0].content.as_deref(), Some("ab"));
    assert_eq!(chat[0].tool_calls, vec![call("c1")]);
    assert_eq!(chat[1].role, "tool");
    assert_eq!(chat[1].content.as_deref(), Some("noon"));
    assert_eq!(chat[1].tool_call_id.as_deref(), Some("c1"));
}

#[test]
fn payloads_are_json() {
    let c = call("c1");
    let j = json::read(&payload::tool_use_json(&c)).unwrap();
    assert_eq!(j.get("id").unwrap().as_str(), Some("c1"));
    let j = json::read(&payload::tool_args_json("c1", "{}")).unwrap();
    assert_eq!(j.get("arguments").unwrap().as_str(), Some("{}"));
    let j = json::read(&payload::tool_result_json(&c, "out", true, 1, 2)).unwrap();
    assert_eq!(j.get("is_error").unwrap().as_bool(), Some(true));
    assert_eq!(j.get("finished_at_ms").unwrap().as_u64(), Some(2));
    let j = json::read(&payload::kept_result_text(&c, "out", false)).unwrap();
    assert_eq!(j.get("output"), Some(&Json::Str("out".into())));
}

#[test]
fn long_previews_are_cut_at_a_character() {
    assert_eq!(payload::truncate("héllo", 2), "h\n…");
    assert_eq!(payload::truncate("héllo", 6), "héllo");
}

#[test]
fn every_error_is_described() {
    for e in [
        LlmError::Network,
        LlmError::Auth,
        LlmError::RateLimited,
        LlmError::Timeout,
        LlmError::Cancelled,
        LlmError::Internal("x".into()),
    ] {
        assert!(!payload::describe_llm_error(&e).is_empty());
    }
}

#[test]
fn usage_is_summed_and_kept_in_bounds() {
    let mut t = TurnUsage::new();
    let u = Usage { input_tokens: u32::MAX, ..Default::default() };
    t.add(&u);
    t.add(&u);
    assert_eq!(t.input, 2 * u32::MAX as u64);
    assert_eq!(t.to_usage().input_tokens, u32::MAX);
}

#[test]
fn a_stream_without_news_is_asked_again() {
    let mut session = Session::new("s".into(), config(40, 102_400, true));
    session.open_turn("hi".into(), 1);
    let mut turn = Turn::new(session);
    let mut waited = false;
    for now in 2..200 {
        if turn.is_over() {
            break;
        }
        let answer = match turn.ask() {
            Ask::Cancelled => Answer::Flag(false),
            Ask::ListTools => Answer::Tools(vec![]),
            Ask::StreamStart(_) => Answer::Opened(Ok(5)),
            Ask::StreamNext(_) if !waited => {
                waited = true;
                Answer::Next(Next::Wait)
            }
            Ask::StreamNext(_) => Answer::Next(Next::End),
            Ask::StreamUsage(_) => Answer::Usage(None),
            _ => Answer::Done,
        };
        turn = turn.step(answer, now);
    }
    assert!(turn.is_over());
    assert!(waited);
}
