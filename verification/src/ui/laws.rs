//! What the web client shows is what the server holds, and what it sends is what the
//! user has entered.
use crate::agent::block::BlockV;
use crate::agent::chat as agent_chat;
use crate::agent::payload;
use crate::api::agents;
use crate::api::reply;
use crate::api::sessions;
use crate::api::shapes;
use crate::host::drivers::{CallV, Usage};
use crate::host::registry::AgentDefV;
use crate::host::store::Sandbox;
use crate::json;
use crate::json::{JsonV, NumberV};
use crate::json_laws;
use crate::text;
use crate::text_laws;
use crate::ui::admin;
use crate::ui::admin::{AgentFormV, AgentsV, PickedV, ToolsV};
use crate::ui::chat;
use crate::ui::chat::{ChatV, EntryV, OutcomeV, Streamed, UiBlockV};
use crate::ui::page;
use crate::ui::page::Setting;
use crate::ui::types;
use crate::ui::types::{Method, SandboxV, SessionV};
use vstd::prelude::*;

verus! {

// ---- lists ----

/// A session that the server lists is the session that the client reads.
pub proof fn a_listed_session_is_read(
    id: Seq<char>,
    agent: Seq<char>,
    name: Option<Seq<char>>,
    sandbox: Seq<char>,
    before: Seq<JsonV>,
)
    ensures
        types::session_in(sessions::summary_value(id, agent, name, sandbox)) == Some(
            SessionV { id, agent, name, sandbox_id: Some(sandbox) },
        ),
        types::sessions_in(before.push(sessions::summary_value(id, agent, name, sandbox)))
            == types::sessions_in(before).push(
            SessionV { id, agent, name, sandbox_id: Some(sandbox) },
        ),
{
    shapes::a_session_is_listed_as_it_is(id, agent, name, sandbox);
    let v = sessions::summary_value(id, agent, name, sandbox);
    assert(before.push(v).drop_last() =~= before);
}

/// A sandbox that the server lists is the sandbox that the client reads.
pub proof fn a_listed_sandbox_is_read(s: Sandbox, before: Seq<JsonV>)
    ensures
        types::sandbox_in(sessions::sandbox_value(s)) == Some(
            SandboxV { id: s.id@, name: s.name@ },
        ),
        types::sandboxes_in(before.push(sessions::sandbox_value(s))) == types::sandboxes_in(
            before,
        ).push(SandboxV { id: s.id@, name: s.name@ }),
{
    shapes::a_sandbox_is_listed_as_it_is(s);
    assert(before.push(sessions::sandbox_value(s)).drop_last() =~= before);
}

// ---- the chat ----

proof fn lemma_kinds()
    ensures
        "user"@ != "thinking"@,
        "user"@ != "text"@,
        "user"@ != "tool-use"@,
        "user"@ != "tool-result"@,
        "thinking"@ != "text"@,
        "thinking"@ != "tool-use"@,
        "thinking"@ != "tool-result"@,
        "text"@ != "tool-use"@,
        "text"@ != "tool-result"@,
        "tool-use"@ != "tool-result"@,
{
    reveal_strlit("user");
    reveal_strlit("thinking");
    reveal_strlit("text");
    reveal_strlit("tool-use");
    reveal_strlit("tool-result");
    assert("user"@.len() == 4 && "thinking"@.len() == 8 && "text"@.len() == 4 && "tool-use"@.len() == 8 && "tool-result"@.len() == 11);
    assert("user"@[0] != "text"@[0]);
    assert("thinking"@[1] != "tool-use"@[1]);
}

/// What was said is what the chat shows when it is loaded: each block of the log as a
/// block of its kind, with its text.
pub proof fn a_loaded_chat_shows_what_was_said(blocks: Seq<BlockV>, k: int, t: Seq<char>)
    requires
        0 <= k < blocks.len(),
        blocks[k].text == Some(t),
    ensures
        ({
            let s = chat::shown(sessions::log_values(blocks)[k]);
            &&& blocks[k].kind == "user"@ ==> s == Some(UiBlockV::User(t))
            &&& blocks[k].kind == "text"@ ==> s == Some(UiBlockV::Text(t))
            &&& blocks[k].kind == "thinking"@ ==> s == Some(UiBlockV::Thinking(t))
        }),
{
    lemma_kinds();
    shapes::what_was_said_is_shown(blocks, k);
}

/// A call and what came of it are shown with the tool and its arguments, and with the
/// start of the output, marked where it failed.
pub proof fn a_loaded_chat_shows_its_tools(
    blocks: Seq<BlockV>,
    k: int,
    c: CallV,
    out: Seq<char>,
    is_error: bool,
)
    requires
        0 <= k < blocks.len(),
    ensures
        blocks[k].kind == "tool-use"@ && json::json_value(agent_chat::body(blocks[k])) == Some(
            payload::kept_call(c),
        ) ==> chat::shown(sessions::log_values(blocks)[k]) == Some(
            UiBlockV::Tool(
                if c.arguments.len() == 0 {
                    c.name
                } else {
                    c.name + " "@ + c.arguments
                },
            ),
        ),
        blocks[k].kind == "tool-result"@ && json::json_value(agent_chat::body(blocks[k]))
            == Some(payload::kept_result(c, out, is_error)) ==> chat::shown(
            sessions::log_values(blocks)[k],
        ) == Some(
            UiBlockV::Tool(
                (if is_error {
                    "→ error: "@
                } else {
                    "→ "@
                }) + chat::clipped(out, 500),
            ),
        ),
{
    lemma_kinds();
    shapes::what_was_said_is_shown(blocks, k);
    shapes::what_a_tool_gave_is_shown(blocks, k, c, out, is_error);
}

/// The messages of a log are shown in their order, each with its moments.
pub proof fn a_loaded_chat_keeps_the_order(v: Seq<JsonV>, m: JsonV, next: int)
    ensures
        chat::history(seq![], next).len() == 0,
        chat::shown(m) is None ==> chat::history(v.push(m), next) == chat::history(v, next),
        chat::shown(m) matches Some(b) ==> {
            let h = chat::history(v.push(m), next);
            &&& h.len() == chat::history(v, next).len() + 1
            &&& h.drop_last() == chat::history(v, next)
            &&& h.last().block == b
            &&& json::field(m, "created_at_ms"@) matches Some(
                JsonV::Num(NumberV::Unsigned(n)),
            ) ==> h.last().created == n
            &&& json::field(m, "finished_at_ms"@) matches Some(
                JsonV::Num(NumberV::Unsigned(n)),
            ) ==> h.last().finished == n
        },
{
    assert(v.push(m).drop_last() =~= v);
    if let Some(b) = chat::shown(m) {
        assert(chat::history(v.push(m), next).drop_last() =~= chat::history(v, next));
    }
}

/// A message of the user is shown at once, behind all others, and the chat waits for
/// its answer with nothing of the last turn left.
pub proof fn a_sent_message_is_shown(c: ChatV, said: Seq<char>, now: u64)
    ensures
        ({
            let n = chat::sent(c, said, now);
            &&& n.messages.drop_last() == c.messages
            &&& n.messages.last().block == UiBlockV::User(said)
            &&& n.messages.last().created == now
            &&& n.messages.last().finished == 0
            &&& n.running
            &&& n.usage is None && n.error is None && n.status_line is None
        }),
{
    assert(chat::sent(c, said, now).messages.drop_last() =~= c.messages);
}

/// A chat is loaded with the messages that the server answers; where it refuses, its
/// reason is shown and the messages stay.
pub proof fn a_chat_is_loaded_with_the_answer(c: ChatV, status: u16, items: Seq<JsonV>, why: Seq<char>)
    ensures
        ({
            let v = JsonV::Obj(seq![("messages"@, JsonV::Arr(items))]);
            let e = JsonV::Obj(seq![("error"@, JsonV::Str(why))]);
            &&& chat::loaded(c, Some((200, v))).messages == chat::history(items, c.next_id as int)
            &&& status != 200 ==> chat::loaded(c, Some((status, e))).error == Some(why)
                && chat::loaded(c, Some((status, e))).messages == c.messages
            &&& chat::loaded(c, None).messages == c.messages
        }),
{
    reveal_strlit("messages");
    reveal_strlit("error");
    json_laws::the_first_member_is_read(seq![("messages"@, JsonV::Arr(items))], 0);
    json_laws::the_first_member_is_read(seq![("error"@, JsonV::Str(why))], 0);
}

proof fn lemma_events()
    ensures
        "chunk"@ != "thinking"@,
        "chunk"@ != "tool_use"@,
        "chunk"@ != "tool_args"@,
        "chunk"@ != "tool_result"@,
        "thinking"@ != "tool_use"@,
        "thinking"@ != "tool_args"@,
        "thinking"@ != "tool_result"@,
        "tool_use"@ != "tool_args"@,
        "tool_use"@ != "tool_result"@,
        "tool_args"@ != "tool_result"@,
{
    reveal_strlit("chunk");
    reveal_strlit("thinking");
    reveal_strlit("tool_use");
    reveal_strlit("tool_args");
    reveal_strlit("tool_result");
    assert("chunk"@.len() == 5 && "thinking"@.len() == 8 && "tool_use"@.len() == 8 && "tool_args"@.len() == 9 && "tool_result"@.len() == 11);
    assert("thinking"@[1] != "tool_use"@[1]);
}

/// What streams in is shown as it comes: text and thinking go on in the last block of
/// their kind or start a new one, a call starts a block of its tool, and a result is
/// a block of its own with the moments that it tells.
pub proof fn a_stream_is_shown_as_it_comes(c: ChatV, now: u64, data: Seq<char>, t: Seq<char>)
    ensures
        ({
            let s = Some(JsonV::Str(t));
            let a = chat::applied(c, now, "chunk"@, data, s, None);
            let b = chat::applied(c, now, "thinking"@, data, s, None);
            &&& a.messages == chat::streamed(c.messages, c.next_id, now, Streamed::Text, t)
            &&& b.messages == chat::streamed(c.messages, c.next_id, now, Streamed::Thinking, t)
            &&& a.running == c.running && a.error == c.error
        }),
        c.messages.len() > 0 ==> (c.messages.last().block matches UiBlockV::Text(was) ==> {
            let n = chat::streamed(c.messages, c.next_id, now, Streamed::Text, t);
            &&& n.drop_last() == c.messages.drop_last()
            &&& n.last() == (EntryV { block: UiBlockV::Text(was + t), ..c.messages.last() })
        }),
        c.messages.len() > 0 ==> (c.messages.last().block matches UiBlockV::Thinking(was) ==> {
            let n = chat::streamed(c.messages, c.next_id, now, Streamed::Thinking, t);
            &&& n.drop_last() == c.messages.drop_last()
            &&& n.last() == (EntryV { block: UiBlockV::Thinking(was + t), ..c.messages.last() })
        }),
        c.messages.len() == 0 || !(c.messages.last().block is Text) ==> {
            let n = chat::streamed(c.messages, c.next_id, now, Streamed::Text, t);
            &&& n.len() == c.messages.len() + 1
            &&& n.last().block == UiBlockV::Text(t)
            &&& n.last().created == now
        },
        c.messages.len() == 0 || !(c.messages.last().block is Thinking) ==> {
            let n = chat::streamed(c.messages, c.next_id, now, Streamed::Thinking, t);
            &&& n.len() == c.messages.len() + 1
            &&& n.last().block == UiBlockV::Thinking(t)
            &&& n.last().created == now
        },
{
    lemma_events();
    let a = chat::streamed(c.messages, c.next_id, now, Streamed::Text, t);
    let b = chat::streamed(c.messages, c.next_id, now, Streamed::Thinking, t);
    lemma_stamped_len(c.messages, false, now);
    if c.messages.len() > 0 && c.messages.last().block is Text {
        assert(a.drop_last() =~= c.messages.drop_last());
    }
    if c.messages.len() > 0 && c.messages.last().block is Thinking {
        assert(b.drop_last() =~= c.messages.drop_last());
    }
}

proof fn lemma_stamped_len(s: Seq<EntryV>, user: bool, at: u64)
    ensures
        chat::stamped(s, user, at).len() == s.len(),
    decreases s.len(),
{
    if s.len() > 0 {
        lemma_stamped_len(s.drop_last(), user, at);
    }
}

/// A call that is told is shown under its tool's name, its arguments go behind that,
/// and its result is shown with its preview.
pub proof fn streamed_tools_are_shown(
    c: ChatV,
    now: u64,
    data: Seq<char>,
    call: CallV,
    preview: Seq<char>,
    is_error: bool,
    created: u64,
    finished: u64,
)
    requires
        call.name.len() > 0,
        call.arguments.len() > 0,
    ensures
        ({
            let n = chat::applied(
                c,
                now,
                "tool_use"@,
                data,
                Some(payload::use_value(call)),
                None,
            );
            &&& n.messages.len() == c.messages.len() + 1
            &&& n.messages.last().block == UiBlockV::Tool(call.name)
            &&& n.messages.last().created == now
        }),
        c.messages.len() > 0 ==> (c.messages.last().block matches UiBlockV::Tool(t) ==> {
            let n = chat::applied(
                c,
                now,
                "tool_args"@,
                data,
                Some(payload::args_value(call.id, call.arguments)),
                None,
            );
            n.messages.len() == c.messages.len() && n.messages.last().block == UiBlockV::Tool(
                t + (" "@ + call.arguments),
            )
        }),
        ({
            let n = chat::applied(
                c,
                now,
                "tool_result"@,
                data,
                Some(payload::result_value(call, preview, is_error, created, finished)),
                None,
            );
            &&& n.messages.drop_last() == c.messages
            &&& n.messages.last().block == UiBlockV::Tool(
                (if is_error {
                    "→ error: "@
                } else {
                    "→ "@
                }) + preview,
            )
            &&& n.messages.last().created == created
            &&& n.messages.last().finished == finished
        }),
{
    lemma_events();
    crate::agent::talk::a_result_is_told_as_it_is(call, preview, is_error, created, finished);
    reveal_strlit("id");
    reveal_strlit("name");
    reveal_strlit("arguments");
    assert("id"@.len() == 2 && "name"@.len() == 4 && "arguments"@.len() == 9);
    json_laws::the_first_member_is_read(payload::use_value(call)->Obj_0, 1);
    json_laws::the_first_member_is_read(
        payload::args_value(call.id, call.arguments)->Obj_0,
        0,
    );
    lemma_stamped_len(c.messages, false, now);
    let r = payload::result_value(call, preview, is_error, created, finished);
    assert(chat::applied(c, now, "tool_result"@, data, Some(r), None).messages.drop_last()
        =~= c.messages);
    if c.messages.len() > 0 && c.messages.last().block is Tool {
        let grown = chat::tool_grown(c.messages, " "@ + call.arguments);
        lemma_stamped_len(grown, false, now);
        lemma_stamped_last(grown, now);
    }
}

proof fn lemma_stamped_last(s: Seq<EntryV>, at: u64)
    requires
        s.len() > 0,
    ensures
        chat::stamped(s, false, at).last().block == s.last().block,
{
}

/// The end of a turn stops the waiting, ends what is open and shows the tokens; an
/// error and a status are shown as they are told.
pub proof fn the_end_of_a_turn_settles_the_chat(c: ChatV, now: u64, t: Seq<char>, u: Usage)
    ensures
        chat::settled(c, OutcomeV::Status(t)) == (ChatV { status_line: Some(t), ..c }),
        chat::settled(c, OutcomeV::Error(t)) == (ChatV { error: Some(t), ..c }),
        chat::settled(c, OutcomeV::Silent) == c,
        ({
            let n = chat::settled(
                c,
                OutcomeV::Done { finished_ms: now, usage_text: Some(t) },
            );
            !n.running && n.usage == Some(t) && n.messages.len() == c.messages.len() && n.error
                == c.error
        }),
        chat::outcome(now, "status"@, t, Some(JsonV::Str(t))) == OutcomeV::Status(t),
        chat::outcome(
            now,
            "error"@,
            t,
            Some(JsonV::Obj(seq![("message"@, JsonV::Str(t))])),
        ) == OutcomeV::Error(t),
        chat::outcome(now, "done"@, t, Some(crate::api::message::done_value(u))) == (
        OutcomeV::Done {
            finished_ms: now,
            usage_text: Some(chat::usage_line(reply::usage_value(u))),
        }),
{
    reveal_strlit("status");
    reveal_strlit("error");
    reveal_strlit("done");
    assert("status"@.len() == 6 && "error"@.len() == 5 && "done"@.len() == 4);
    reveal_strlit("message");
    json_laws::the_first_member_is_read(seq![("message"@, JsonV::Str(t))], 0);
    shapes::the_last_event_brings_the_usage(u);
    lemma_stamped_len(c.messages, false, now);
    lemma_stamped_len(chat::stamped(c.messages, false, now), true, now);
}

/// The line of tokens shows the counts that the server tells, each in its place.
pub proof fn the_usage_line_shows_the_counts(u: Usage)
    ensures
        chat::usage_line(reply::usage_value(u)) == "in "@ + text::decimal(u.input_tokens as int)
            + " | cache read "@ + text::decimal(u.cache_read_tokens as int) + " + write "@
            + text::decimal(u.cache_creation_tokens as int) + " | out "@ + text::decimal(
            u.output_tokens as int,
        ),
{
    shapes::usage_is_told_as_it_is(u);
}

/// A duration is shown in seconds with three places: the number before the point and
/// the one behind it are the thousandths that passed.
pub proof fn a_duration_is_what_passed(created: u64, finished: u64)
    requires
        created <= finished,
    ensures
        ({
            let ms = (finished - created) as int;
            &&& chat::duration_text(created, finished) == text::decimal(ms / 1000) + "."@
                + chat::three(ms % 1000) + "s"@
            &&& text::natural(chat::three(ms % 1000)) == Some(ms % 1000)
            &&& chat::three(ms % 1000).len() == 3
        }),
        chat::duration_text(finished, created) == text::decimal(0) + "."@ + chat::three(0)
            + "s"@,
{
    lemma_three((finished - created) as int % 1000);
}

proof fn lemma_three(n: int)
    requires
        0 <= n < 1000,
    ensures
        text::natural(chat::three(n)) == Some(n),
{
    let s = chat::three(n);
    let a = n / 100 % 10;
    let b = n / 10 % 10;
    let c = n % 10;
    assert(a * 100 + b * 10 + c == n);
    assert(s.drop_last() =~= seq![text::digit_char(a), text::digit_char(b)]);
    assert(s.drop_last().drop_last() =~= seq![text::digit_char(a)]);
    assert(s.drop_last().drop_last().drop_last() =~= seq![]);
    assert(text::digits_value(s.drop_last().drop_last().drop_last()) == 0);
    assert(text::digits_value(s.drop_last().drop_last()) == a);
    assert(text::digits_value(s.drop_last()) == a * 10 + b);
    assert(text::digits_value(s) == n);
    assert(text::all_digits(s));
}

/// A long text is shown up to its limit, with a mark; a long id by its first eight
/// characters.
pub proof fn long_texts_are_shortened(s: Seq<char>, limit: nat)
    ensures
        payload::width(s) <= limit ==> chat::clipped(s, limit) == s,
        ({
            let n = payload::fitting(s, limit as int);
            n < s.len() ==> chat::clipped(s, limit) == s.take(n) + "…"@
        }),
        s.len() <= 8 ==> chat::short(s) == s,
        s.len() > 8 ==> chat::short(s) == s.take(8),
{
    if payload::width(s) <= limit {
        crate::agent::talk::a_preview_is_the_longest_that_fits(s, limit);
        let n = payload::fitting(s, limit as int);
        if n < s.len() {
            lemma_width_grows(s, n + 1);
        }
    }
}

proof fn lemma_width_grows(s: Seq<char>, n: int)
    requires
        0 <= n <= s.len(),
    ensures
        0 <= payload::width(s.take(n)) <= payload::width(s),
    decreases s.len(),
{
    if n > 0 {
        let t = s.skip(1);
        lemma_width_grows(t, n - 1);
        assert(s.take(n)[0] == s[0]);
        assert(s.take(n).skip(1) =~= t.take(n - 1));
    } else {
        assert(s.take(0) =~= seq![]);
        if s.len() > 0 {
            lemma_width_grows(s.skip(1), 0);
        }
    }
}

// ---- requests ----

/// Each setting of a session is asked of that session: what it does, and with what.
pub proof fn settings_ask_for_what_they_say(id: Seq<char>, n: String)
    ensures
        page::setting_call(Setting::Reset, id).path == "/api/sessions/"@ + id + "/reset"@,
        page::setting_call(Setting::Compact, id).path == "/api/sessions/"@ + id + "/compact"@,
        page::setting_call(Setting::Stop, id).path == "/api/sessions/"@ + id + "/stop"@,
        page::setting_call(Setting::Delete, id).path == "/api/sessions/"@ + id,
        page::setting_call(Setting::Name(n), id).path == "/api/sessions/"@ + id,
        page::setting_call(Setting::Sandbox(n), id).path == "/api/sessions/"@ + id,
        page::setting_call(Setting::Reset, id).method == Method::Post,
        page::setting_call(Setting::Compact, id).method == Method::Post,
        page::setting_call(Setting::Stop, id).method == Method::Post,
        page::setting_call(Setting::Delete, id).method == Method::Delete,
        page::setting_call(Setting::Name(n), id).method == Method::Put,
        page::setting_call(Setting::Sandbox(n), id).method == Method::Put,
        page::setting_call(Setting::Name(n), id).body matches Some(v) && json::field(v, "name"@)
            == Some(JsonV::Str(n@)) && json::field(v, "sandbox_id"@) is None,
        page::setting_call(Setting::Sandbox(n), id).body matches Some(v) && json::field(
            v,
            "sandbox_id"@,
        ) == Some(JsonV::Str(n@)) && json::field(v, "name"@) is None,
{
    reveal_strlit("name");
    reveal_strlit("sandbox_id");
    assert("name"@.len() == 4 && "sandbox_id"@.len() == 10);
    let p = "/api/sessions/"@ + id;
    assert(p + seq![] =~= p);
    let a = seq![("name"@, JsonV::Str(n@))];
    let b = seq![("sandbox_id"@, JsonV::Str(n@))];
    json_laws::the_first_member_is_read(a, 0);
    json_laws::the_first_member_is_read(b, 0);
    json_laws::a_missing_member_is_not_read(a, "sandbox_id"@, JsonV::Null);
    json_laws::a_missing_member_is_not_read(b, "name"@, JsonV::Null);
}

/// A form is sent with what was entered, each part under its own name; an empty key
/// is no key.
pub proof fn forms_are_sent_as_entered(
    f: AgentFormV,
    name: Seq<char>,
    url: Seq<char>,
    key: Seq<char>,
    params: JsonV,
    env: JsonV,
    module: Seq<char>,
)
    ensures
        ({
            let v = admin::agent_body(f);
            &&& json::field(v, "name"@) == Some(JsonV::Str(f.name))
            &&& json::field(v, "model"@) == Some(JsonV::Str(f.model))
            &&& json::field(v, "system_prompt"@) == Some(JsonV::Str(f.system_prompt))
            &&& json::field(v, "auto_compact"@) == Some(JsonV::Bool(f.auto_compact))
            &&& json::field(v, "compaction_ratio"@) == Some(JsonV::Num(f.compaction_ratio))
            &&& json::field(v, "context_window"@) == Some(
                JsonV::Num(NumberV::Unsigned(f.context_window as u64)),
            )
            &&& json::field(v, "instances"@) == Some(
                JsonV::Num(NumberV::Unsigned(f.instances as u64)),
            )
            &&& json::field(v, "max_history"@) == Some(
                JsonV::Num(NumberV::Unsigned(f.max_history as u64)),
            )
            &&& json::field(v, "capabilities"@) == Some(
                JsonV::Arr(f.caps.map_values(|s: Seq<char>| JsonV::Str(s))),
            )
        }),
        ({
            let v = admin::provider_body(name, url, key);
            &&& json::field(v, "name"@) == Some(JsonV::Str(name))
            &&& json::field(v, "base_url"@) == Some(JsonV::Str(url))
            &&& json::field(v, "api_key"@) == Some(
                if key.len() == 0 {
                    JsonV::Null
                } else {
                    JsonV::Str(key)
                },
            )
        }),
        ({
            let v = admin::tool_body(name, url, params, env, module);
            &&& json::field(v, "name"@) == Some(JsonV::Str(name))
            &&& json::field(v, "description"@) == Some(JsonV::Str(url))
            &&& json::field(v, "parameters"@) == Some(params)
            &&& json::field(v, "env"@) == Some(env)
            &&& json::field(v, "wasm_b64"@) == Some(JsonV::Str(module))
        }),
{
    reveal_strlit("auto_compact");
    reveal_strlit("capabilities");
    reveal_strlit("compaction_ratio");
    reveal_strlit("context_window");
    reveal_strlit("instances");
    reveal_strlit("max_history");
    reveal_strlit("model");
    reveal_strlit("name");
    reveal_strlit("system_prompt");
    assert("auto_compact"@.len() == 12 && "capabilities"@.len() == 12 && "compaction_ratio"@.len() == 16 && "context_window"@.len() == 14 && "instances"@.len() == 9 && "max_history"@.len() == 11 && "model"@.len() == 5 && "name"@.len() == 4 && "system_prompt"@.len() == 13);
    assert("auto_compact"@[0] != "capabilities"@[0]);
    reveal_strlit("api_key");
    reveal_strlit("base_url");
    reveal_strlit("name");
    assert("api_key"@.len() == 7 && "base_url"@.len() == 8 && "name"@.len() == 4);
    reveal_strlit("description");
    reveal_strlit("env");
    reveal_strlit("name");
    reveal_strlit("parameters");
    reveal_strlit("wasm_b64");
    assert("description"@.len() == 11 && "env"@.len() == 3 && "name"@.len() == 4 && "parameters"@.len() == 10 && "wasm_b64"@.len() == 8);
    let a = admin::agent_body(f)->Obj_0;
    json_laws::the_first_member_is_read(a, 0);
    json_laws::the_first_member_is_read(a, 1);
    json_laws::the_first_member_is_read(a, 2);
    json_laws::the_first_member_is_read(a, 3);
    json_laws::the_first_member_is_read(a, 4);
    json_laws::the_first_member_is_read(a, 5);
    json_laws::the_first_member_is_read(a, 6);
    json_laws::the_first_member_is_read(a, 7);
    json_laws::the_first_member_is_read(a, 8);
    let p = admin::provider_body(name, url, key)->Obj_0;
    json_laws::the_first_member_is_read(p, 0);
    json_laws::the_first_member_is_read(p, 1);
    json_laws::the_first_member_is_read(p, 2);
    let t = admin::tool_body(name, url, params, env, module)->Obj_0;
    json_laws::the_first_member_is_read(t, 0);
    json_laws::the_first_member_is_read(t, 1);
    json_laws::the_first_member_is_read(t, 2);
    json_laws::the_first_member_is_read(t, 3);
    json_laws::the_first_member_is_read(t, 4);
}

/// A form that is opened on an agent shows what the server has of it, and a size that
/// is shown and sent again is the same size.
pub proof fn an_opened_form_shows_the_agent(c: AgentsV, d: AgentDefV, ratio: Seq<char>)
    requires
        d.instances <= i64::MAX,
        d.max_history <= i64::MAX,
        d.context_window <= i64::MAX,
        d.instances <= usize::MAX,
        d.max_history <= usize::MAX,
        d.context_window <= usize::MAX,
    ensures
        ({
            let n = admin::agents_edit(c, agents::agent_value(d), ratio);
            &&& n.edit_system_prompt == d.system_prompt
            &&& n.edit_model == d.model
            &&& n.edit_auto_compact == d.auto_compact
            &&& n.edit_caps == d.capabilities
            &&& n.edit_compaction_ratio == ratio
            &&& admin::size_or(n.edit_instances, 1) == d.instances
            &&& admin::size_or(n.edit_max_history, 20) == d.max_history
            &&& admin::size_or(n.edit_context_window, 4000) == d.context_window
            &&& n.editing == Some(agents::agent_value(d))
            &&& admin::name_in(agents::agent_value(d)) == d.name
        }),
{
    shapes::an_agent_is_listed_as_it_is(d);
    text_laws::a_written_number_reads_back(d.instances as int);
    text_laws::a_written_number_reads_back(d.max_history as int);
    text_laws::a_written_number_reads_back(d.context_window as int);
    let items = d.capabilities.map_values(|s: Seq<char>| JsonV::Str(s));
    lemma_texts_in(d.capabilities, items);
    lemma_no_sign(d.instances as int);
    lemma_no_sign(d.max_history as int);
    lemma_no_sign(d.context_window as int);
}

proof fn lemma_no_sign(n: int)
    requires
        n >= 0,
    ensures
        text::decimal(n).len() > 0 ==> text::decimal(n)[0] != '-',
{
    text_laws::a_written_number_reads_back(n);
    assert(text::all_digits(text::decimal(n)));
    if text::decimal(n).len() > 0 {
        assert(text::is_digit(text::decimal(n)[0]));
    }
}

proof fn lemma_texts_in(texts: Seq<Seq<char>>, items: Seq<JsonV>)
    requires
        items.len() == texts.len(),
        forall|i: int| 0 <= i < items.len() ==> #[trigger] items[i] == JsonV::Str(texts[i]),
    ensures
        admin::texts_in(items) == texts,
    decreases items.len(),
{
    if items.len() > 0 {
        let f = items.drop_last();
        let t = texts.drop_last();
        assert forall|i: int| 0 <= i < f.len() implies #[trigger] f[i] == JsonV::Str(t[i]) by {
            assert(items[i] == JsonV::Str(texts[i]));
        }
        lemma_texts_in(t, f);
        assert(items[items.len() - 1] == JsonV::Str(texts[items.len() - 1]));
        assert(t.push(texts.last()) =~= texts);
    } else {
        assert(texts =~= seq![]);
    }
}

/// Ticking a tool adds it behind the others, and unticking takes out just that one.
pub proof fn ticks_change_one_tool(caps: Seq<Seq<char>>, name: Seq<char>)
    ensures
        admin::ticked(caps, name, true) == caps.push(name),
        admin::ticked(caps, name, false) == caps.filter(|c: Seq<char>| c != name),
    decreases caps.len(),
{
    reveal(Seq::filter);
    if caps.len() > 0 {
        ticks_change_one_tool(caps.drop_last(), name);
    } else {
        assert(caps.filter(|c: Seq<char>| c != name) =~= seq![]);
    }
}

/// A notice says whether it went well: the wanted status does, with what was done, and
/// any other does not, with the server's reason.
pub proof fn notices_say_how_it_went(status: u16, wanted: u16, done: Seq<char>, why: Seq<char>)
    ensures
        ({
            let v = JsonV::Obj(seq![("error"@, JsonV::Str(why))]);
            &&& status == wanted ==> admin::verdict(status, wanted, done, v) == (
                true,
                "ok"@ + ": "@ + done,
            )
            &&& status != wanted ==> admin::verdict(status, wanted, done, v) == (
                false,
                "error"@ + ": "@ + why,
            )
        }),
{
    reveal_strlit("error");
    json_laws::the_first_member_is_read(seq![("error"@, JsonV::Str(why))], 0);
}

/// The module that a change of a tool sends is the picked file where it is replaced,
/// and else the one that the tool has; an empty one is never sent.
pub proof fn a_tool_keeps_or_replaces_its_module(item: JsonV, b64: Seq<char>, old: Seq<char>)
    requires
        b64.len() > 0,
        old.len() > 0,
        json::field(item, "wasm_b64"@) == Some(JsonV::Str(old)),
    ensures
        admin::edit_module(item, true, PickedV::Data(b64)) == Ok::<Seq<char>, Seq<char>>(b64),
        admin::edit_module(item, false, PickedV::Data(b64)) == Ok::<Seq<char>, Seq<char>>(old),
        admin::edit_module(item, true, PickedV::Missing) is Err,
        admin::edit_module(item, true, PickedV::Unreadable) is Err,
        admin::edit_module(item, true, PickedV::Data(seq![])) is Err,
        admin::upload_fault(PickedV::Data(b64)) is None,
        admin::upload_fault(PickedV::Data(seq![])) is Some,
        admin::upload_fault(PickedV::Missing) is Some,
        admin::upload_fault(PickedV::Unreadable) is Some,
{
}

/// The data of a file is what follows the first comma of its address.
pub proof fn file_data_follows_the_comma(head: Seq<char>, data: Seq<char>)
    requires
        !head.contains(','),
        !data.contains(','),
    ensures
        admin::url_data(head + seq![','] + data) == data,
        admin::url_data(head).len() == 0,
{
    let s = head + seq![','] + data;
    let n = head.len() as int;
    text::lemma_index_from(s, ',', 0);
    let first = text::index_from(s, ',', 0);
    assert(s[n] == ',');
    assert(first == n) by {
        if first < n {
            assert(s[first] == head[first]);
            assert(head.contains(head[first]));
        }
    }
    text::lemma_index_from(s, ',', n + 1);
    let second = text::index_from(s, ',', n + 1);
    assert(second == s.len()) by {
        if second < s.len() {
            assert(s[second] == data[second - n - 1]);
            assert(data.contains(data[second - n - 1]));
        }
    }
    assert(s.subrange(n + 1, s.len() as int) =~= data);
    text::lemma_index_from(head, ',', 0);
    if text::index_from(head, ',', 0) < head.len() {
        assert(head.contains(head[text::index_from(head, ',', 0)]));
    }
}

/// A session is shown under its own name where it has one, and always with the start
/// of its id and its agent; its sandbox under the sandbox's name.
pub proof fn sessions_are_shown_by_name(s: SessionV, n: Seq<char>, b: SandboxV, v: Seq<SandboxV>)
    ensures
        s.name == Some(n) && text::trim(n).len() > 0 && s.agent.len() > 0 ==> page::title_of(s)
            == text::trim(n) + " · "@ + chat::short(s.id) + " · "@ + s.agent,
        s.name is None && s.agent.len() > 0 ==> page::title_of(s) == "Session "@ + chat::short(
            s.id,
        ) + " · "@ + s.agent,
        s.name == Some(n) && n.len() > 0 ==> page::listed_as(Some(s), s.id) == n,
        b.id.len() > 0 ==> page::sandbox_label(seq![b] + v, Some(b.id)) == b.name,
        page::sandbox_label(v, None) == "(none)"@,
        page::target_of(Some(n), Some(s.id)) == n,
        page::target_of(None, Some(s.id)) == s.id,
{
    assert((seq![b] + v)[0] == b);
}

// ---- the end of a turn ----

/// Of the entries on one side the newest that is unfinished is ended, and nothing else
/// changes.
pub proof fn the_newest_unfinished_is_ended(s: Seq<EntryV>, user: bool, at: u64, k: int)
    requires
        0 <= k < s.len(),
        s[k].finished == 0,
        (s[k].block is User) == user,
        forall|i: int|
            k < i < s.len() ==> (#[trigger] s[i]).finished != 0 || (s[i].block is User) != user,
    ensures
        chat::stamped(s, user, at) == s.update(k, EntryV { finished: at, ..s[k] }),
    decreases s.len(),
{
    let n = s.len() - 1;
    if k == n {
        assert(s.drop_last().push(EntryV { finished: at, ..s[k] }) =~= s.update(
            k,
            EntryV { finished: at, ..s[k] },
        ));
    } else {
        assert(s[n].finished != 0 || (s[n].block is User) != user);
        let d = s.drop_last();
        assert(d[k] == s[k]);
        the_newest_unfinished_is_ended(d, user, at, k);
        assert(d.update(k, EntryV { finished: at, ..s[k] }).push(s[n]) =~= s.update(
            k,
            EntryV { finished: at, ..s[k] },
        ));
    }
}

/// When a turn is done it runs no longer, what the user said and what came last are
/// ended at that moment, and the tokens are shown where they were told.
pub proof fn a_finished_turn_is_ended(
    c: ChatV,
    at: u64,
    line: Seq<char>,
    j: int,
    k: int,
)
    requires
        0 <= j < c.messages.len(),
        0 <= k < c.messages.len(),
        c.messages[j].finished == 0 && c.messages[j].block is User,
        c.messages[k].finished == 0 && !(c.messages[k].block is User),
        forall|i: int|
            j < i < c.messages.len() ==> (#[trigger] c.messages[i]).finished != 0
                || !(c.messages[i].block is User),
        forall|i: int|
            k < i < c.messages.len() ==> (#[trigger] c.messages[i]).finished != 0
                || c.messages[i].block is User,
        at > 0,
    ensures
        ({
            let d = chat::settled(
                c,
                OutcomeV::Done { finished_ms: at, usage_text: Some(line) },
            );
            &&& !d.running
            &&& d.usage == Some(line)
            &&& d.error == c.error
            &&& d.messages == c.messages.update(
                k,
                EntryV { finished: at, ..c.messages[k] },
            ).update(j, EntryV { finished: at, ..c.messages[j] })
        }),
        chat::settled(
            c,
            OutcomeV::Done { finished_ms: at, usage_text: None },
        ).usage == c.usage,
{
    the_newest_unfinished_is_ended(c.messages, false, at, k);
    let m = c.messages.update(k, EntryV { finished: at, ..c.messages[k] });
    assert(m[j] == c.messages[j]);
    assert forall|i: int| j < i < m.len() implies (#[trigger] m[i]).finished != 0 || !(
    m[i].block is User) by {
        if i != k {
            assert(m[i] == c.messages[i]);
        }
    }
    the_newest_unfinished_is_ended(m, true, at, j);
}

/// An error is shown in its own words, or as it came where it has none; a status is
/// shown as it was told; the end of a turn tells its tokens.
pub proof fn outcomes_are_what_was_told(
    c: ChatV,
    v: JsonV,
    u: JsonV,
    m: Seq<char>,
    data: Seq<char>,
    now: u64,
)
    ensures
        json::field(v, "message"@) == Some(JsonV::Str(m)) ==> chat::settled(
            c,
            chat::outcome(now, "error"@, data, Some(v)),
        ) == (ChatV { error: Some(m), ..c }),
        chat::settled(c, chat::outcome(now, "error"@, data, None)) == (ChatV {
            error: Some(data),
            ..c
        }),
        chat::settled(c, chat::outcome(now, "status"@, data, Some(JsonV::Str(m)))) == (ChatV {
            status_line: Some(m),
            ..c
        }),
        json::field(v, "usage"@) == Some(u) ==> chat::outcome(now, "done"@, data, Some(v)) == (
        OutcomeV::Done { finished_ms: now, usage_text: Some(chat::usage_line(u)) }),
        chat::outcome(now, "done"@, data, None) == (OutcomeV::Done {
            finished_ms: now,
            usage_text: None,
        }),
        chat::outcome(now, "chunk"@, data, Some(v)) is Silent,
{
    reveal_strlit("error");
    reveal_strlit("status");
    reveal_strlit("done");
    reveal_strlit("chunk");
    assert("error"@.len() == 5 && "status"@.len() == 6 && "done"@.len() == 4 && "chunk"@.len() == 5);
    assert("error"@[0] != "chunk"@[0]);
}

} // verus!
