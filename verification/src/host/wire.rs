//! What goes over the wire to a provider and comes back.
use crate::host::drivers::{self, CallV, DecoderV, DriverErrorV, DriverEventV, MessageV, PendingV, RequestV, ToolDefV, Usage};
use crate::host::openai;
use crate::host::state::{self, AskV, ChunkV, LlmErrorV, NextV};
use crate::host::tools::DefinitionV;
use crate::json;
use crate::json::{JsonV, NumberV};
use crate::json_laws;
use crate::text;
use vstd::prelude::*;

verus! {

// ---- the request ----

/// A tool call is sent as it is: its id, and the name and the arguments of the
/// function it calls, each in its own place.
pub proof fn a_call_is_sent_as_it_is(c: CallV)
    ensures
        ({
            let v = openai::call_json(c);
            &&& json::field(v, "id"@) == Some(JsonV::Str(c.id))
            &&& json::field(v, "type"@) == Some(JsonV::Str("function"@))
            &&& json::field_of(json::field(v, "function"@), "name"@) == Some(JsonV::Str(c.name))
            &&& json::field_of(json::field(v, "function"@), "arguments"@) == Some(
                JsonV::Str(c.arguments),
            )
        }),
{
    reveal_strlit("id");
    reveal_strlit("type");
    reveal_strlit("function");
    reveal_strlit("name");
    reveal_strlit("arguments");
    assert("id"@.len() == 2 && "type"@.len() == 4 && "function"@.len() == 8 && "name"@.len() == 4 && "arguments"@.len() == 9);
    assert("type"@[0] != "name"@[0]);
    let m = openai::call_json(c)->Obj_0;
    json_laws::the_first_member_is_read(m, 0);
    json_laws::the_first_member_is_read(m, 1);
    json_laws::the_first_member_is_read(m, 2);
    let f = m[0].1->Obj_0;
    json_laws::the_first_member_is_read(f, 0);
    json_laws::the_first_member_is_read(f, 1);
}

/// A call that is sent reads back as itself: a decoder that gets it as a piece of an
/// answer has that very call under way, and ends with it.
pub proof fn a_sent_call_reads_back(c: CallV)
    ensures
        ({
            let d = drivers::with_call(drivers::fresh_decoder(), openai::call_json(c));
            &&& d.calls.len() == 1
            &&& d.calls[0].call == c
            &&& drivers::end_events(d.calls) == seq![DriverEventV::ToolCallEnd(c)]
        }),
{
    a_call_is_sent_as_it_is(c);
    let v = openai::call_json(c);
    let d = drivers::with_call(drivers::fresh_decoder(), v);
    assert(seq![] + c.arguments =~= c.arguments);
    drivers::lemma_place(drivers::fresh_decoder().calls, drivers::call_index(v));
    assert(d.calls.len() == 1);
    assert(d.calls[0].call == c);
    assert(drivers::end_events(d.calls) =~= seq![DriverEventV::ToolCallEnd(c)]);
}

/// A message is sent with its content and its role. One with tool calls is the
/// assistant's and has all of them, in their order; one that answers a call is the
/// tool's and names the call.
pub proof fn a_message_is_sent_as_it_is(m: MessageV, k: int)
    ensures
        ({
            let v = openai::message_json(m);
            &&& json::field(v, "content"@) == Some(
                match m.content {
                    Some(s) => JsonV::Str(s),
                    None => JsonV::Null,
                },
            )
            &&& m.tool_calls.len() == 0 && m.tool_call_id is None ==> json::field(v, "role"@)
                == Some(JsonV::Str(m.role))
            &&& m.tool_calls.len() == 0 ==> (m.tool_call_id matches Some(id) ==> json::field(
                v,
                "role"@,
            ) == Some(JsonV::Str("tool"@)) && json::field(v, "tool_call_id"@) == Some(
                JsonV::Str(id),
            ))
            &&& m.tool_calls.len() > 0 ==> {
                &&& json::field(v, "role"@) == Some(JsonV::Str("assistant"@))
                &&& json::field(v, "tool_calls"@) matches Some(JsonV::Arr(a)) && a.len()
                    == m.tool_calls.len() && (0 <= k < a.len() ==> a[k] == openai::call_json(
                    m.tool_calls[k],
                ))
            }
        }),
{
    reveal_strlit("content");
    reveal_strlit("role");
    reveal_strlit("tool_call_id");
    reveal_strlit("tool_calls");
    assert("content"@.len() == 7 && "role"@.len() == 4 && "tool_call_id"@.len() == 12 && "tool_calls"@.len() == 10);
    let f = openai::message_json(m)->Obj_0;
    json_laws::the_first_member_is_read(f, 0);
    json_laws::the_first_member_is_read(f, 1);
    if f.len() == 3 {
        json_laws::the_first_member_is_read(f, 2);
    }
}

/// The messages are sent in their order, behind the system prompt where there is one.
pub proof fn messages_are_sent_in_order(r: RequestV, k: int)
    requires
        0 <= k < r.messages.len(),
    ensures
        ({
            let v = openai::messages_json(r);
            match r.system_prompt {
                Some(p) => {
                    &&& v.len() == r.messages.len() + 1
                    &&& json::field(v[0], "role"@) == Some(JsonV::Str("system"@))
                    &&& json::field(v[0], "content"@) == Some(JsonV::Str(p))
                    &&& v[k + 1] == openai::message_json(r.messages[k])
                },
                None => v.len() == r.messages.len() && v[k] == openai::message_json(r.messages[k]),
            }
        }),
{
    reveal_strlit("content");
    reveal_strlit("role");
    assert("content"@.len() == 7 && "role"@.len() == 4);
    if let Some(p) = r.system_prompt {
        let f = openai::messages_json(r)[0]->Obj_0;
        json_laws::the_first_member_is_read(f, 0);
        json_laws::the_first_member_is_read(f, 1);
    }
}

/// A tool is offered under its name, with its description and its parameters.
pub proof fn a_tool_is_offered_as_it_is(t: ToolDefV)
    ensures
        ({
            let v = openai::tool_json(t);
            let f = json::field(v, "function"@);
            &&& json::field(v, "type"@) == Some(JsonV::Str("function"@))
            &&& json::field_of(f, "name"@) == Some(JsonV::Str(t.name))
            &&& json::field_of(f, "description"@) == Some(JsonV::Str(t.description))
            &&& json::field_of(f, "parameters"@) == Some(t.parameters)
        }),
{
    reveal_strlit("function");
    reveal_strlit("type");
    reveal_strlit("name");
    reveal_strlit("description");
    reveal_strlit("parameters");
    assert("function"@.len() == 8 && "type"@.len() == 4 && "name"@.len() == 4 && "description"@.len() == 11 && "parameters"@.len() == 10);
    assert("type"@[0] != "name"@[0]);
    let m = openai::tool_json(t)->Obj_0;
    json_laws::the_first_member_is_read(m, 0);
    json_laws::the_first_member_is_read(m, 1);
    let f = m[0].1->Obj_0;
    json_laws::the_first_member_is_read(f, 0);
    json_laws::the_first_member_is_read(f, 1);
    json_laws::the_first_member_is_read(f, 2);
}

/// The body of a request asks the model for a stream, with all the messages; a limit,
/// a temperature and tools are in it exactly where the request has them, and every
/// tool is offered, in its order.
pub proof fn a_body_holds_the_request(r: RequestV, k: int)
    ensures
        ({
            let v = JsonV::Obj(openai::body_members(r));
            &&& json::field(v, "model"@) == Some(JsonV::Str(r.model))
            &&& json::field(v, "stream"@) == Some(JsonV::Bool(true))
            &&& json::field(v, "messages"@) == Some(JsonV::Arr(openai::messages_json(r)))
            &&& json::field(v, "max_tokens"@) == match r.max_tokens {
                Some(n) => Some(JsonV::Num(NumberV::Unsigned(n as u64))),
                None => None,
            }
            &&& json::field(v, "temperature"@) == match r.temperature {
                Some(n) => Some(JsonV::Num(n)),
                None => None,
            }
            &&& r.tools.len() == 0 ==> json::field(v, "tools"@) is None && json::field(
                v,
                "tool_choice"@,
            ) is None
            &&& r.tools.len() > 0 ==> {
                &&& json::field(v, "tool_choice"@) == Some(JsonV::Str("auto"@))
                &&& json::field(v, "tools"@) matches Some(JsonV::Arr(a)) && a.len()
                    == r.tools.len() && (0 <= k < a.len() ==> a[k] == openai::tool_json(
                    r.tools[k],
                ))
            }
        }),
{
    reveal_strlit("max_tokens");
    reveal_strlit("messages");
    reveal_strlit("model");
    reveal_strlit("stream");
    reveal_strlit("temperature");
    reveal_strlit("tool_choice");
    reveal_strlit("tools");
    assert("max_tokens"@.len() == 10 && "messages"@.len() == 8 && "model"@.len() == 5 && "stream"@.len() == 6 && "temperature"@.len() == 11 && "tool_choice"@.len() == 11 && "tools"@.len() == 5);
    assert("model"@[0] != "tools"@[0]);
    assert("temperature"@[1] != "tool_choice"@[1]);
    let m = openai::body_members(r);
    let a = if r.max_tokens is Some {
        1int
    } else {
        0int
    };
    let b = if r.temperature is Some {
        1int
    } else {
        0int
    };
    if r.max_tokens is Some {
        assert(m[0].0 == "max_tokens"@);
        json_laws::the_first_member_is_read(m, 0);
    }
    assert(m[a].0 == "messages"@ && m[a + 1].0 == "model"@ && m[a + 2].0 == "stream"@);
    json_laws::the_first_member_is_read(m, a);
    json_laws::the_first_member_is_read(m, a + 1);
    json_laws::the_first_member_is_read(m, a + 2);
    if r.temperature is Some {
        assert(m[a + 3].0 == "temperature"@);
        json_laws::the_first_member_is_read(m, a + 3);
    }
    if r.tools.len() > 0 {
        assert(m[a + b + 3].0 == "tool_choice"@ && m[a + b + 4].0 == "tools"@);
        json_laws::the_first_member_is_read(m, a + b + 3);
        json_laws::the_first_member_is_read(m, a + b + 4);
    } else {
        json_laws::a_missing_member_is_not_read(m, "tools"@, JsonV::Null);
        json_laws::a_missing_member_is_not_read(m, "tool_choice"@, JsonV::Null);
    }
    if r.max_tokens is None {
        json_laws::a_missing_member_is_not_read(m, "max_tokens"@, JsonV::Null);
    }
    if r.temperature is None {
        json_laws::a_missing_member_is_not_read(m, "temperature"@, JsonV::Null);
    }
}

/// What the agent asks reaches the driver as it is, with the model's own name and
/// the tools' parameters read.
pub proof fn what_is_asked_reaches_the_driver(a: AskV, model: Seq<char>, k: int)
    ensures
        ({
            let r = state::driver_request(a, model);
            &&& r.model == model
            &&& r.messages == a.messages
            &&& r.system_prompt == a.system_prompt
            &&& r.temperature == a.temperature
            &&& r.max_tokens == a.max_tokens
            &&& r.tools.len() == a.tools.len()
            &&& 0 <= k < a.tools.len() ==> r.tools[k].name == a.tools[k].name
                && r.tools[k].description == a.tools[k].description && (json::json_value(
                a.tools[k].parameters_json,
            ) matches Some(v) ==> r.tools[k].parameters == v)
        }),
{
}

// ---- the answer ----

/// A status of success is no failure; an unauthorized one and one of too many
/// requests are told apart, and any other is told with its own line.
pub proof fn statuses_tell_what_went_wrong(code: u16, line: Seq<char>)
    ensures
        openai::failure(code, line) is None <==> 200 <= code <= 299,
        openai::failure(code, line) == Some(DriverErrorV::Auth) <==> code == 401,
        openai::failure(code, line) == Some(DriverErrorV::RateLimited) <==> code == 429,
        !(200 <= code <= 299) && code != 401 && code != 429 ==> openai::failure(code, line)
            == Some(DriverErrorV::Internal("upstream status "@ + line)),
{
}

/// The text of a delta is told as text and its reasoning as thinking, the text first.
pub proof fn a_delta_brings_its_text(delta: JsonV)
    ensures
        ({
            let e = drivers::text_events(delta);
            let said = json::field(delta, "content"@);
            let thought = json::field(delta, "reasoning_content"@);
            match (said, thought) {
                (Some(JsonV::Str(s)), Some(JsonV::Str(t))) => e == seq![
                    DriverEventV::Text(s),
                    DriverEventV::Thinking(t),
                ],
                (Some(JsonV::Str(s)), _) => e == seq![DriverEventV::Text(s)],
                (_, Some(JsonV::Str(t))) => e == seq![DriverEventV::Thinking(t)],
                _ => e.len() == 0,
            }
        }),
{
    let e = drivers::text_events(delta);
    match (json::field(delta, "content"@), json::field(delta, "reasoning_content"@)) {
        (Some(JsonV::Str(s)), Some(JsonV::Str(t))) => {
            assert(e =~= seq![DriverEventV::Text(s), DriverEventV::Thinking(t)]);
        },
        (Some(JsonV::Str(s)), _) => {
            assert(e =~= seq![DriverEventV::Text(s)]);
        },
        (_, Some(JsonV::Str(t))) => {
            assert(e =~= seq![DriverEventV::Thinking(t)]);
        },
        _ => {},
    }
}

/// A payload brings the events of the delta of its first choice, its text before its
/// calls, and notes the tokens it reports; a payload without a delta brings nothing.
pub proof fn a_payload_brings_its_delta(d: DecoderV, data: Seq<char>, v: JsonV, delta: JsonV)
    requires
        text::trim(data) != "[DONE]"@,
        json::json_value(text::trim(data)) == Some(v),
        json::field(v, "choices"@) matches Some(JsonV::Arr(c)) && c.len() > 0 && json::field(
            c[0],
            "delta"@,
        ) == Some(delta),
        json::field(v, "usage"@) is None,
    ensures
        drivers::payload_batch(d, data) matches Some(drivers::BatchV::Events(e)) && e
            == drivers::text_events(delta) + drivers::calls_events(d, drivers::call_pieces(delta)),
        drivers::after_payload(d, data) == drivers::with_calls(d, drivers::call_pieces(delta)),
        json::field(delta, "tool_calls"@) matches Some(JsonV::Arr(cs))
            ==> drivers::call_pieces(delta) == cs,
        drivers::after_payload(d, data).usage == d.usage,
{
    lemma_calls_keep_usage(d, drivers::call_pieces(delta));
}

proof fn lemma_calls_keep_usage(d: DecoderV, cs: Seq<JsonV>)
    ensures
        drivers::with_calls(d, cs).usage == d.usage,
    decreases cs.len(),
{
    if cs.len() > 0 {
        lemma_calls_keep_usage(d, cs.drop_last());
    }
}

/// The end of an answer ends every call that is under way, each once and in the order
/// of their indices, with the arguments it has by then.
pub proof fn the_end_brings_every_call(d: DecoderV, p: Seq<PendingV>, k: int)
    requires
        0 <= k < p.len(),
    ensures
        drivers::end_events(p).len() == p.len(),
        drivers::end_events(p)[k] == DriverEventV::ToolCallEnd(p[k].call),
        drivers::payload_batch(d, "[DONE]"@) == Some(drivers::BatchV::Done),
        drivers::after_payload(d, "[DONE]"@) == d,
{
    reveal_strlit("[DONE]");
    let s = "[DONE]"@;
    assert(text::trim_white_start(s) == s) by {
        assert(s[0] == '[');
        assert(!text::is_white('['));
    }
    assert(text::trim_white_end(s) == s) by {
        assert(s.last() == ']');
        assert(!text::is_white(']'));
    }
}

/// The tokens that a provider reports are the tokens that are counted, under either
/// of the names in use.
pub proof fn reported_tokens_are_counted(u: JsonV, n: u64)
    requires
        n <= u32::MAX,
    ensures
        json::field(u, "prompt_tokens"@) == Some(JsonV::Num(NumberV::Unsigned(n)))
            ==> drivers::usage_in(u).input_tokens == n,
        json::field(u, "prompt_tokens"@) is None && json::field(u, "input_tokens"@) == Some(
            JsonV::Num(NumberV::Unsigned(n)),
        ) ==> drivers::usage_in(u).input_tokens == n,
        json::field(u, "completion_tokens"@) == Some(JsonV::Num(NumberV::Unsigned(n)))
            ==> drivers::usage_in(u).output_tokens == n,
        json::field(u, "completion_tokens"@) is None && json::field(u, "output_tokens"@) == Some(
            JsonV::Num(NumberV::Unsigned(n)),
        ) ==> drivers::usage_in(u).output_tokens == n,
        json::field(u, "cache_creation_input_tokens"@) == Some(
            JsonV::Num(NumberV::Unsigned(n)),
        ) ==> drivers::usage_in(u).cache_creation_tokens == n,
        json::field(u, "prompt_tokens_details"@) is None && json::field(
            u,
            "cache_read_input_tokens"@,
        ) == Some(JsonV::Num(NumberV::Unsigned(n))) ==> drivers::usage_in(u).cache_read_tokens
            == n,
        json::field_of(json::field(u, "prompt_tokens_details"@), "cached_tokens"@) == Some(
            JsonV::Num(NumberV::Unsigned(n)),
        ) ==> drivers::usage_in(u).cache_read_tokens == n,
{
}

/// A line of the stream counts only where it is data; what follows the colon is the
/// payload, and the end of the answer ends the calls under way.
pub proof fn lines_of_data_are_read(d: DecoderV, line: Seq<u8>, data: Seq<char>)
    ensures
        ({
            let t = text::trim(text::utf8_lossy(line));
            let r = openai::line_read(d, line);
            &&& t == "data:"@ + data ==> match drivers::payload_batch(d, data) {
                Some(drivers::BatchV::Done) => r.done && r.events == drivers::end_events(
                    drivers::after_payload(d, data).calls,
                ),
                Some(drivers::BatchV::Events(e)) => !r.done && r.events == e && r.decoder
                    == drivers::after_payload(d, data),
                None => !r.done && r.events.len() == 0 && r.decoder == drivers::after_payload(
                    d,
                    data,
                ),
            }
            &&& !"data:"@.is_prefix_of(t) ==> !r.done && r.events.len() == 0 && r.decoder == d
        }),
{
    crate::text_laws::prefixes_come_off("data:"@, data);
    crate::text_laws::prefixes_come_off("data:"@, text::trim(text::utf8_lossy(line)));
}

/// An event of the driver is told as what it is, one by one: text as text, thinking
/// as thinking, the start and the end of a call with that call, a failure as the same
/// failure.
pub proof fn events_are_told_as_they_are(t: Seq<char>, c: CallV, e: DriverErrorV)
    ensures
        state::told(DriverEventV::Text(t)) == NextV::Chunk(
            ChunkV { text: Some(t), thinking: None, tool_call_start: None, tool_call_end: None },
        ),
        state::told(DriverEventV::Thinking(t)) == NextV::Chunk(
            ChunkV { text: None, thinking: Some(t), tool_call_start: None, tool_call_end: None },
        ),
        state::told(DriverEventV::ToolCallStart(c)) == NextV::Chunk(
            ChunkV { text: None, thinking: None, tool_call_start: Some(c), tool_call_end: None },
        ),
        state::told(DriverEventV::ToolCallEnd(c)) == NextV::Chunk(
            ChunkV { text: None, thinking: None, tool_call_start: None, tool_call_end: Some(c) },
        ),
        state::told(DriverEventV::Failed(DriverErrorV::Internal(t))) == NextV::Failed(
            LlmErrorV::Internal(t),
        ),
        state::told(DriverEventV::Failed(DriverErrorV::Auth)) == NextV::Failed(LlmErrorV::Auth),
        state::told(DriverEventV::Failed(DriverErrorV::RateLimited)) == NextV::Failed(
            LlmErrorV::RateLimited,
        ),
        state::told(DriverEventV::Failed(DriverErrorV::Network)) == NextV::Failed(
            LlmErrorV::Network,
        ),
        state::told(DriverEventV::Failed(DriverErrorV::Timeout)) == NextV::Failed(
            LlmErrorV::Timeout,
        ),
        state::told(DriverEventV::Failed(DriverErrorV::Cancelled)) == NextV::Failed(
            LlmErrorV::Cancelled,
        ),
{
}

/// The events of a stream are handed out one at a time, the oldest first, without the
/// blank ones; when none is left the stream waits, or is over where the driver is.
pub proof fn streams_hand_out_the_oldest(e: DriverEventV, rest: Seq<DriverEventV>, s: state::StreamV)
    requires
        s.pending == seq![e] + rest,
    ensures
        state::is_blank(e) ==> state::next_of(s) == state::next_of(
            state::StreamV { pending: rest, ..s },
        ),
        !state::is_blank(e) ==> state::next_of(s).0 == state::told(e) && state::next_of(s).1 == (
        state::StreamV { pending: rest, ..s }),
        state::next_of(state::StreamV { pending: seq![], finished: true, ..s }).0 is End,
        state::next_of(state::StreamV { pending: seq![], finished: false, ..s }).0 is Wait,
        state::is_blank(e) <==> e == DriverEventV::Text(seq![]) || e == DriverEventV::Thinking(
            seq![],
        ),
{
    assert(s.pending.skip(1) =~= rest);
    match e {
        DriverEventV::Text(t) => {
            if t.len() == 0 {
                assert(t =~= seq![]);
            }
        },
        DriverEventV::Thinking(t) => {
            if t.len() == 0 {
                assert(t =~= seq![]);
            }
        },
        _ => {},
    }
}

/// A request for a model without a provider, or with one that is not there, is
/// refused, and any other goes to that provider.
pub proof fn requests_need_a_known_provider(h: state::LlmHostV, p: Seq<char>, m: Seq<char>)
    requires
        p.len() > 0,
        m.len() > 0,
        !p.contains('/'),
    ensures
        state::refusal(h, p + seq!['/'] + m) is None <==> h.drivers.contains(p),
        state::refusal(h, p) is Some,
{
    state::parts_make_a_model(p, m);
    reveal_strlit("/");
    assert("/"@ =~= seq!['/']);
    text::lemma_index_from(p, '/', 0);
}

} // verus!
