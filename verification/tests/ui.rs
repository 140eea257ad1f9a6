//! The pages.
use carson::json::{self, Json, Number};
use carson::ui::admin::{self, AgentsPanel, Panel, Picked, ProvidersPanel, ToolsPanel};
use carson::ui::chat::{
    build_history, close_open_assistant, finish_user, fmt_duration, fmt_usage, scroll_update,
    short_id, stream_text, truncate, Chat, EventOutcome, MsgEntry, Streamed, UiBlock,
};
use carson::ui::login::{login_outcome, signed_in, submit_token, Entry};
use carson::ui::markdown::{render_md, sanitize_hrefs};
use carson::ui::page::{self, Intent, Mark, Setting};
use carson::ui::shell::{clamp_width, start_width};
use carson::ui::sse::{parse_frame, SseEvent, SseReader};
use carson::ui::types::{read_sandboxes, read_sessions, Method, SandboxSummary, SessionSummary};

fn parse(s: &str) -> Json {
    json::read(s).unwrap()
}

fn text_block() -> UiBlock {
    UiBlock::Text(String::new())
}

#[test]
fn stream_text_opens_blocks_on_kind_switch_and_appends_within_kind() {
    let mut messages: Vec<MsgEntry> = Vec::new();
    let mut next_id = 0u64; // first allocated id is 1
    stream_text(&mut messages, &mut next_id, 1000, Streamed::Thinking, "let me ");
    stream_text(&mut messages, &mut next_id, 1050, Streamed::Thinking, "think");
    stream_text(&mut messages, &mut next_id, 1100, Streamed::Text, "Hello");

    let entries = messages;
    assert_eq!(entries.len(), 2, "kind switch opens a new block");
    assert_eq!(entries[0].id, 1);
    match &entries[0].block {
        UiBlock::Thinking(text) => assert_eq!(text, "let me think"),
        other => panic!("expected thinking, got {other:?}"),
    }
    // The thinking block is closed when text begins (interval duration).
    assert_eq!((entries[0].created, entries[0].finished), (1000, 1100));
    assert_eq!(entries[1].id, 2);
    match &entries[1].block {
        UiBlock::Text(text) => assert_eq!(text, "Hello"),
        other => panic!("expected text, got {other:?}"),
    }
}

#[test]
fn close_open_assistant_and_finish_user_stamp_their_targets() {
    let mut messages = vec![
        MsgEntry { id: 1, created: 10, finished: 0, block: UiBlock::User("hi".into()) },
        MsgEntry { id: 2, created: 20, finished: 0, block: text_block() },
        MsgEntry { id: 3, created: 30, finished: 35, block: text_block() },
    ];

    // Closes only the open non-user block; leaves the finished one and the
    // user block alone.
    close_open_assistant(&mut messages, 50);
    assert_eq!((messages[0].created, messages[0].finished), (10, 0), "user untouched");
    assert_eq!((messages[1].created, messages[1].finished), (20, 50));
    assert_eq!((messages[2].created, messages[2].finished), (30, 35));

    // finish_user stamps the user block (turn duration).
    finish_user(&mut messages, 90);
    assert_eq!((messages[0].created, messages[0].finished), (10, 90));
}

const HISTORY: &str = r#"{
    "messages": [
        {"kind": "user", "text": "hi", "created_at_ms": 1000, "finished_at_ms": 1000},
        {"kind": "thinking", "text": "reasoning", "created_at_ms": 2000, "finished_at_ms": 2500},
        {"kind": "tool-use", "tool_call_id": "c1", "tool_name": "time",
         "arguments": "{}", "created_at_ms": 3000, "finished_at_ms": 3000},
        {"kind": "tool-result", "text": "12:00:00", "tool_call_id": "c1",
         "created_at_ms": 4000, "finished_at_ms": 4500},
        {"kind": "text", "text": "done", "created_at_ms": 5000, "finished_at_ms": 6000}
    ]
}"#;

#[test]
fn build_history_parses_blocks_payloads_and_links_results() {
    let mut next_id = 1u64;
    let entries = build_history(&parse(HISTORY), &mut next_id);

    // Each tool event becomes its own block: tool-use (name + arguments)
    // and tool-result, both plain text blocks like thinking/text.
    assert_eq!(entries.len(), 5);
    assert!(entries.iter().zip(entries.iter().skip(1)).all(|(a, b)| a.id < b.id));

    assert!(matches!(entries[0].block, UiBlock::User(ref content) if content == "hi"));
    assert_eq!((entries[0].created, entries[0].finished), (1000, 1000));

    match &entries[2].block {
        UiBlock::Tool(text) => assert_eq!(text, "time {}", "name + arguments"),
        other => panic!("expected tool block, got {other:?}"),
    }
    match &entries[3].block {
        UiBlock::Tool(text) => assert_eq!(text, "→ 12:00:00", "separate result block"),
        other => panic!("expected tool block, got {other:?}"),
    }
}

#[test]
fn build_history_marks_error_results() {
    let v = parse(&HISTORY.replace("\"12:00:00\"", "\"boom\", \"is_error\": true"));
    let mut next_id = 1u64;
    let entries = build_history(&v, &mut next_id);
    match &entries[3].block {
        UiBlock::Tool(text) => assert_eq!(text, "→ error: boom"),
        other => panic!("expected tool-result block, got {other:?}"),
    }
}

#[test]
fn scroll_update_ignores_suppressed_echoes() {
    // Our own pin echoing back inside the suppression window changes
    // nothing — this is the exact race that used to yank the user down.
    assert_eq!(scroll_update(500, 600, true, true, true), (true, true));
    assert_eq!(scroll_update(500, 600, true, false, false), (false, false));
}

#[test]
fn scroll_update_disengages_when_scrolled_away() {
    assert_eq!(scroll_update(1000, 0, false, true, true), (false, true));
}

#[test]
fn scroll_update_resumes_follow_on_genuine_bottom_hit() {
    assert_eq!(scroll_update(1000, 0, true, false, false), (true, true));
}

#[test]
fn scroll_update_never_resurrects_on_drag_start_at_bottom() {
    // Starting a touch drag while already at the latest (follow off, but
    // at_latest still true) must not re-engage follow on the first tiny
    // near-bottom scroll event.
    assert_eq!(scroll_update(1000, 0, true, false, true), (true, false));
}

#[test]
fn fmt_duration_renders_always_with_ms_precision() {
    assert_eq!(fmt_duration(0, 0), "0.000s");
    assert_eq!(fmt_duration(1000, 2500), "1.500s");
    assert_eq!(fmt_duration(1000, 2045), "1.045s");
    // finished before created is clamped to zero.
    assert_eq!(fmt_duration(2000, 1500), "0.000s");
}

#[test]
fn truncate_is_char_safe() {
    assert_eq!(truncate("hello", 4), "hell…");
    let multibyte = "héllo wörld";
    assert_eq!(truncate(multibyte, 6), "héllo…");
}

#[test]
fn sanitize_hrefs_blocks_script_and_data() {
    let html = r#"<a href="javascript:alert(1)">x</a><a href="https://ok">y</a>"#;
    let out = sanitize_hrefs(html);
    assert!(out.contains(r##"<a href="#">x</a>"##), "{out}");
    assert!(out.contains(r##"<a href="https://ok">y</a>"##), "{out}");
}

fn chat() -> Chat {
    let mut c = Chat::new();
    c.next_id = 0;
    c
}

fn ev(event: &str, data: &str) -> SseEvent {
    SseEvent { event: event.to_string(), data: data.to_string() }
}

fn tool_texts(st: &Chat) -> Vec<String> {
    st.messages
        .iter()
        .map(|e| match &e.block {
            UiBlock::Tool(text) => text.clone(),
            other => panic!("expected tool block, got {other:?}"),
        })
        .collect()
}

#[test]
fn apply_stream_event_creates_and_fills_tool_blocks() {
    let mut st = chat();
    assert!(matches!(
        st.apply_stream_event(1000, &ev("tool_use", r#"{"id":"c1","name":"time"}"#)),
        EventOutcome::Silent
    ));
    st.apply_stream_event(1100, &ev("tool_args", r#"{"id":"c1","arguments":"{}"}"#));
    st.apply_stream_event(
        1200,
        &ev(
            "tool_result",
            r#"{"id":"c1","result_preview":"12:00","is_error":true,"created_at_ms":1500,"finished_at_ms":1900}"#,
        ),
    );

    // tool_use + tool_args merge into one block; tool_result gets its own.
    assert_eq!(st.messages.len(), 2, "one block for use+args, one for result");
    // tool-use duration = time to yield (tool_use -> tool_args): 100ms.
    assert_eq!((st.messages[0].created, st.messages[0].finished), (1000, 1100));
    // tool-result duration = the server-measured invocation span: 400ms.
    assert_eq!((st.messages[1].created, st.messages[1].finished), (1500, 1900));
    assert_eq!(
        tool_texts(&st),
        vec!["time {}".to_string(), "→ error: 12:00".to_string()],
        "tool_use+tool_args share a block, tool_result is separate"
    );
}

/// The SSE layer double-encodes object payloads as a JSON string literal, so
/// the data is a JSON string whose content is the tool object.
#[test]
fn apply_stream_event_decodes_double_encoded_tool_payloads() {
    let wire = |obj: &str| json::write(&json::string(&json::write(&parse(obj))));
    let mut st = chat();
    st.apply_stream_event(1000, &ev("tool_use", &wire(r#"{"id": "c1", "name": "time"}"#)));
    st.apply_stream_event(1100, &ev("tool_args", &wire(r#"{"id": "c1", "arguments": "{}"}"#)));
    st.apply_stream_event(
        1200,
        &ev(
            "tool_result",
            &wire(r#"{"id": "c1", "result_preview": "12:00", "is_error": false}"#),
        ),
    );
    assert_eq!(st.messages.len(), 2, "one block for use+args, one for result");
    assert_eq!(
        tool_texts(&st),
        vec!["time {}".to_string(), "→ 12:00".to_string()],
        "double-encoded payloads still decode into readable blocks"
    );
}

#[test]
fn apply_stream_event_surfaces_status_error_and_done() {
    let mut st = chat();
    assert!(matches!(
        st.apply_stream_event(0, &ev("status", "\"compacted: 3 summarized\"")),
        EventOutcome::Status(text) if text == "compacted: 3 summarized"
    ));
    assert!(matches!(
        st.apply_stream_event(0, &ev("error", "{\"message\":\"boom\"}")),
        EventOutcome::Error(msg) if msg == "boom"
    ));
    // done stamps open blocks and returns usage text.
    st.apply_stream_event(900, &ev("chunk", "\"Hel\""));
    let out = st.apply_stream_event(
        2000,
        &ev(
            "done",
            r#"{"done":true,"usage":{"input_tokens":3,"cache_read_tokens":2,"cache_creation_tokens":1,"output_tokens":4}}"#,
        ),
    );
    let finished_ms = match out {
        EventOutcome::Done { finished_ms, usage_text } => {
            assert!(finished_ms > 0);
            assert_eq!(usage_text.as_deref(), Some("in 3 | cache read 2 + write 1 | out 4"));
            finished_ms
        }
        other => panic!("expected Done, got {other:?}"),
    };
    // send() performs the finishing pass after receiving Done.
    close_open_assistant(&mut st.messages, finished_ms);
    finish_user(&mut st.messages, finished_ms);
    assert_eq!(st.messages.len(), 1);
    assert!(st.messages[0].finished > 0, "open block stamped finished");
}

#[test]
fn fmt_usage_renders_all_fields() {
    let u = parse(
        r#"{"input_tokens": 3, "cache_read_tokens": 2, "cache_creation_tokens": 1, "output_tokens": 4}"#,
    );
    assert_eq!(fmt_usage(&u), "in 3 | cache read 2 + write 1 | out 4");
}

// ---- the chat page ----

#[test]
fn a_turn_is_sent_and_settled() {
    let mut st = Chat::new();
    assert_eq!(st.send("  ", 5), None);
    assert_eq!(st.send(" hello ", 5), Some("hello".to_string()));
    assert!(st.running);
    assert_eq!(st.send("again", 6), None, "one turn at a time");
    let out = st.apply_stream_event(7, &ev("chunk", "plain text"));
    st.settle(out);
    let out = st.apply_stream_event(9, &ev("done", "{}"));
    st.settle(out);
    assert!(!st.running);
    assert_eq!(st.messages[0].finished, 9);
    assert_eq!(st.messages[1].finished, 9);
    st.settle(EventOutcome::Status("s".into()));
    st.settle(EventOutcome::Error("e".into()));
    assert_eq!(st.status_line.as_deref(), Some("s"));
    assert_eq!(st.error.as_deref(), Some("e"));
    st.end_stream(Err("lost".into()));
    assert_eq!(st.error.as_deref(), Some("lost"));
    st.open(true);
    assert!(st.messages.is_empty());
    let log = parse(HISTORY);
    st.load_history(Some((200, &log)));
    assert_eq!(st.messages.len(), 5);
    let refused = parse(r#"{"error":"gone"}"#);
    st.load_history(Some((404, &refused)));
    assert_eq!(st.error.as_deref(), Some("gone"));
}

fn sessions() -> Vec<SessionSummary> {
    read_sessions(&parse(
        r#"{"sessions":[
            {"id":"0123456789ab","agent":"coder","name":"  notes ","sandbox_id":"b1"},
            {"id":"abcdefghijkl","agent":"","name":null},
            {"agent":"no id"}
        ]}"#,
    ))
    .unwrap()
}

fn sandboxes() -> Vec<SandboxSummary> {
    read_sandboxes(&parse(r#"{"sandboxes":[{"id":"b1","name":"box"},{"id":2,"name":"x"}]}"#)).unwrap()
}

#[test]
fn lists_leave_out_what_they_cannot_read() {
    assert_eq!(sessions().len(), 2);
    assert_eq!(sandboxes().len(), 1);
    assert!(read_sessions(&parse(r#"{"sessions":3}"#)).is_none());
}

#[test]
fn titles_name_the_session_and_its_agent() {
    let s = sessions();
    let at = |id: &str| Some(id.to_string());
    assert_eq!(page::active_title(&s, &at("0123456789ab")), "notes · 01234567 · coder");
    assert_eq!(page::active_title(&s, &at("abcdefghijkl")), "Session abcdefgh");
    assert_eq!(page::active_title(&s, &None), "");
    assert_eq!(page::session_label(&s, "0123456789ab"), "  notes ");
    assert_eq!(page::session_label(&s, "abcdefghijkl"), "abcdefgh · ");
    assert_eq!(page::name_draft(&s, "abcdefghijkl"), "");
    assert_eq!(short_id("0123456789"), "01234567");
}

#[test]
fn the_sandbox_is_shown_by_its_name() {
    let (s, b) = (sessions(), sandboxes());
    assert_eq!(page::current_sandbox_name(&s, &b, "0123456789ab"), "box");
    assert_eq!(page::current_sandbox_name(&s, &[], "0123456789ab"), "b1");
    assert_eq!(page::current_sandbox_name(&s, &b, "abcdefghijkl"), "(none)");
    let b1 = Some("b1".to_string());
    assert_eq!(page::sandbox_mark("b1", &b1, &None), Mark::Current);
    assert_eq!(page::sandbox_mark("b1", &None, &b1), Mark::Selected);
    assert_eq!(page::sandbox_mark("b1", &None, &None), Mark::Plain);
}

#[test]
fn calls_go_to_the_session_they_are_about() {
    let c = page::send_call("s", "hi");
    assert_eq!(c.method, Method::Post);
    assert_eq!(c.path, "/api/sessions/s/stream");
    assert_eq!(json::write(&c.body.unwrap()), r#"{"content":"hi"}"#);
    assert!(page::create_session("").is_none());
    let c = page::change_session(Setting::Name("n".into()), "s").unwrap();
    assert_eq!((c.method, c.path.as_str()), (Method::Put, "/api/sessions/s"));
    let c = page::change_session(Setting::Delete, "s").unwrap();
    assert_eq!((c.method, c.body), (Method::Delete, None));
    assert!(page::change_session(Setting::Reset, "").is_none());
    assert!(page::create_sandbox("s", "  ").is_none());
    assert!(page::rename_sandbox(&None, "x").is_none());
    let made = parse(r#"{"id":"b9"}"#);
    let c = page::adopt_sandbox("s", &made).unwrap();
    assert_eq!(json::write(&c.body.unwrap()), r#"{"sandbox_id":"b9"}"#);
    let created = parse(r#"{"session_id":"q"}"#);
    assert_eq!(page::after_create(201, &created).as_deref(), Some("/chat/q"));
    assert_eq!(page::after_create(500, &created), None);
    assert_eq!(page::after_delete("q", &Some("q".into())).as_deref(), Some("/chat"));
    assert_eq!(page::after_delete("q", &Some("p".into())), None);
    assert_eq!(page::settings_target(&None, &Some("a".into())), "a");
    assert_eq!(page::settings_target(&Some("b".into()), &Some("a".into())), "b");
}

#[test]
fn keys_and_clicks_are_understood() {
    assert_eq!(page::composer_key("Enter", false), Intent::Accept);
    assert_eq!(page::composer_key("Enter", true), Intent::Nothing);
    assert_eq!(page::rename_key("Escape"), Intent::Cancel);
    assert_eq!(page::toggled_menu(&Some("a".into()), "a"), None);
    assert_eq!(page::toggled_menu(&Some("a".into()), "b").as_deref(), Some("b"));
    assert!(page::is_near(100, 50, 198));
    assert!(!page::is_near(100, 50, 199));
    assert!(page::shows_jump(false, false));
    let agents = vec![parse(r#"{"name":"coder"}"#)];
    assert_eq!(page::choose_agent(&agents, ""), "coder");
    assert_eq!(page::choose_agent(&agents, "x"), "x");
    assert_eq!(page::label_of(&UiBlock::Tool(String::new())).as_deref(), Some("Tool"));
    assert_eq!(page::tail_text(0, 5), "");
    assert_eq!(page::tail_text(1000, 2500), "1.500s");
}

// ---- streams of events ----

#[test]
fn frames_are_read_however_they_are_cut() {
    let body = "event: chunk\ndata: \"a\"\n\nevent: done\ndata: {}\n\n";
    let mut whole = SseReader::new();
    let mut events = whole.feed(body);
    if let Some(e) = whole.finish() {
        events.push(e);
    }
    let mut cut = SseReader::new();
    let mut pieces = Vec::new();
    for c in body.chars() {
        pieces.extend(cut.feed(&c.to_string()));
    }
    assert_eq!(events, pieces);
    assert_eq!(events[0], ev("chunk", "\"a\""));
    assert_eq!(parse_frame("event: x\ndata: 1\ndata: 2"), Some(ev("x", "1\n2")));
}

// ---- answers as HTML ----

#[test]
fn answers_are_rendered_with_safe_links() {
    let html = render_md("**b** [x](javascript:alert) [y](http://ok)\n\n| a |\n|---|\n| 1 |\n\n~~s~~").unwrap();
    assert!(html.contains("<strong>b</strong>"), "{html}");
    assert!(html.contains("href=\"#\""), "{html}");
    assert!(html.contains("href=\"http://ok\""), "{html}");
    assert!(html.contains("<table>"), "{html}");
    assert!(html.contains("<del>s</del>"), "{html}");
    assert_eq!(sanitize_hrefs("no links"), "no links");
    assert_eq!(sanitize_hrefs("<a href=\"/x\">"), "<a href=\"#\">");
}

#[test]
fn html_with_an_open_link_is_not_shown() {
    assert_eq!(render_md("<a href=\"oops"), None);
}

// ---- signing in ----

#[test]
fn a_token_is_submitted_once() {
    assert!(submit_token("  ", false).is_none());
    assert!(submit_token("t", true).is_none());
    let c = submit_token(" t ", false).unwrap();
    assert_eq!(c.path, "/api/auth/login");
    assert_eq!(json::write(&c.body.unwrap()), r#"{"token":"t"}"#);
    assert_eq!(login_outcome(Ok((200, Json::Null))), Entry::Admitted);
    assert_eq!(
        login_outcome(Ok((429, Json::Null))),
        Entry::Refused("Too many attempts; try again later".into())
    );
    assert_eq!(login_outcome(Ok((401, parse(r#"{"error":"no"}"#)))), Entry::Refused("no".into()));
    assert_eq!(login_outcome(Ok((401, Json::Null))), Entry::Refused("Invalid token".into()));
    assert_eq!(login_outcome(Err("net".into())), Entry::Refused("net".into()));
    assert!(signed_in(Some(200)));
    assert!(!signed_in(Some(401)));
    assert!(!signed_in(None));
}

#[test]
fn the_sidebar_keeps_within_bounds() {
    assert_eq!(clamp_width(-5), 180);
    assert_eq!(clamp_width(300), 300);
    assert_eq!(clamp_width(900), 480);
    assert_eq!(start_width(None), 260);
    assert_eq!(start_width(Some(900)), 480);
}

// ---- administration ----

#[test]
fn providers_are_added_and_edited() {
    let mut p = ProvidersPanel::new();
    assert!(p.create().is_none());
    assert_eq!(p.notice.as_deref(), Some("error: name and base_url are required"));
    p.name = "groq".into();
    p.base_url = "http://g".into();
    let c = p.create().unwrap();
    assert_eq!(
        json::write(&c.body.unwrap()),
        r#"{"api_key":null,"base_url":"http://g","name":"groq"}"#
    );
    assert!(!p.created(409, &parse(r#"{"error":"taken"}"#)));
    assert_eq!(p.notice.as_deref(), Some("error: taken"));
    assert!(!p.created(0, &Json::Null));
    assert_eq!(p.notice.as_deref(), Some("error: request failed"));
    assert!(p.created(201, &Json::Null));
    assert_eq!((p.name.as_str(), p.notice.as_deref()), ("", Some("ok: provider created")));

    p.start_edit(parse(r#"{"name":"groq","base_url":"http://g","api_key":"k"}"#));
    assert!(p.is_editing("groq"));
    assert!(!p.is_editing("other"));
    let c = p.save_edit().unwrap();
    assert_eq!((c.method, c.path.as_str()), (Method::Put, "/api/providers/groq"));
    assert_eq!(
        json::write(&c.body.unwrap()),
        r#"{"api_key":"k","base_url":"http://g","name":"groq"}"#
    );
    assert!(p.edited(200, &Json::Null));
    assert!(p.save_edit().is_none());
    p.start_edit(Json::Null);
    p.cancel_edit();
    assert!(!p.is_editing(""));
    assert_eq!(admin::remove_call("/api/providers", "groq").path, "/api/providers/groq");
    assert_eq!(admin::removed_notice("groq"), "ok: deleted groq");
}

#[test]
fn agents_are_added_and_edited() {
    let mut p = AgentsPanel::new();
    assert!(p.create().is_none());
    assert_eq!(p.notice.as_deref(), Some("error: kind and model are required"));
    p.kind = "coder".into();
    p.model = "mock/m".into();
    p.caps = admin::tick(Vec::new(), "t1", true);
    let body = p.create().unwrap().body.unwrap();
    assert_eq!(
        json::write(&body),
        r#"{"auto_compact":false,"capabilities":["t1"],"compaction_ratio":0.8,"context_window":4000,"instances":1,"max_history":20,"model":"mock/m","name":"coder","system_prompt":""}"#
    );
    assert!(p.created(201, &Json::Null));

    let item = parse(
        r#"{"id":"0123456789","name":"coder","model":"mock/m","instances":2,"max_history":-1,"auto_compact":true,"capabilities":["a",1,"b"]}"#,
    );
    let card = admin::agent_card(&item);
    assert_eq!(card.version, "version 01234567");
    assert_eq!(card.limits, "instances 2 · max_history 0 · auto_compact true");
    assert_eq!(card.tools, "tools: a, b");
    p.start_edit(item, "0.5".into());
    assert_eq!(p.edit_instances, "2");
    assert_eq!(p.edit_max_history, "-1");
    assert_eq!(p.edit_context_window, "4000");
    assert_eq!(p.edit_caps, vec!["a".to_string(), "b".to_string()]);
    assert!(p.is_editing("coder"));
    p.edit_instances = "+7".into();
    let body = p.save_edit(Number::Other("0.5".into())).unwrap().body.unwrap();
    assert_eq!(body.get("instances").unwrap().as_u64(), Some(7));
    assert_eq!(body.get("max_history").unwrap().as_u64(), Some(20));
    assert!(p.edited(200, &Json::Null));
    assert_eq!(p.notice.as_deref(), Some("ok: agent updated"));
}

#[test]
fn ticks_are_set_and_taken_back() {
    let caps = admin::tick(Vec::new(), "a", true);
    let caps = admin::tick(caps, "b", true);
    assert_eq!(admin::tick(caps, "a", false), vec!["b".to_string()]);
}

#[test]
fn tools_are_uploaded_and_edited() {
    let mut p = ToolsPanel::new();
    assert!(p.create(Picked::Missing).is_none());
    assert_eq!(p.notice.as_deref(), Some("error: select a .wasm file"));
    assert!(p.create(Picked::Unreadable).is_none());
    assert_eq!(p.notice.as_deref(), Some("error: failed to read wasm file"));
    assert!(p.create(Picked::Data(String::new())).is_none());
    assert_eq!(p.notice.as_deref(), Some("error: wasm file was empty"));
    p.name = "x".into();
    let c = p.create(Picked::Data("AA==".into())).unwrap();
    assert_eq!(c.path, "/api/tools");
    assert_eq!(c.body.unwrap().get("wasm_b64").unwrap().as_str(), Some("AA=="));
    assert!(p.created(201, &Json::Null));

    p.start_edit(parse(r#"{"name":"x","description":"d","parameters":{"type":"object"},"wasm_b64":"AA=="}"#));
    assert_eq!(p.edit_parameters, r#"{"type":"object"}"#);
    assert_eq!(p.edit_env, "null");
    assert!(p.is_editing("x"));
    let body = p.save_edit(Picked::Missing).unwrap().body.unwrap();
    assert_eq!(body.get("wasm_b64").unwrap().as_str(), Some("AA=="));
    p.replace = true;
    assert!(p.save_edit(Picked::Missing).is_none());
    assert_eq!(p.notice.as_deref(), Some("error: select a .wasm file to replace with"));
    p.edit_env = "{".into();
    assert!(p.save_edit(Picked::Data("BB==".into())).is_none());
    assert!(p.notice.as_deref().unwrap().starts_with("error: invalid env JSON: "));
    p.edit_parameters = "nope".into();
    assert!(p.save_edit(Picked::Data("BB==".into())).is_none());
    assert!(p.notice.as_deref().unwrap().starts_with("error: invalid parameters JSON: "));
    assert!(!p.edited(400, &Json::Null));
    p.cancel_edit();
    assert!(p.save_edit(Picked::Missing).is_none());

    let card = admin::tool_card(&parse(r#"{"name":"core/time","description":"d"}"#));
    assert!(card.builtin);
    assert_eq!(card.parameters, "null");
    assert_eq!(admin::data_of_url("data:application/wasm;base64,AA=="), "AA==");
    assert_eq!(admin::data_of_url("no comma"), "");
}

#[test]
fn the_status_is_read() {
    let s = admin::read_status(&parse(r#"{"bind":"b","agent_count":2,"tool_count":3}"#));
    assert_eq!((s.bind.as_str(), s.agents, s.sessions, s.tools), ("b", 2, 0, 3));
    assert_eq!(admin::read_health(&parse(r#"{"status":"ok"}"#)), "ok");
    assert_eq!(admin::read_health(&Json::Null), "?");
    assert_eq!(admin::panel_of("tools"), Panel::Tools);
    assert_eq!(admin::panel_of("anything"), Panel::Status);
}
