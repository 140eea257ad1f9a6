//! A driver that answers with what it was told.
use crate::host::drivers::{
    self, CallV, DriverEvent, DriverEventV, DriverMessage, DriverToolCall, LlmRequest, MessageV,
    RequestV, ToolDefV, Usage,
};
use crate::text;
use vstd::prelude::*;

verus! {

broadcast use crate::text::views_push;

pub struct EchoDriver;

/// The content of the last message of a user; none where there is no such
/// message or it has no content.
pub open spec fn last_user(m: Seq<MessageV>) -> Option<Seq<char>>
    decreases m.len(),
{
    if m.len() == 0 {
        None
    } else if m.last().role == "user"@ {
        m.last().content
    } else {
        last_user(m.drop_last())
    }
}

pub open spec fn has_tool_result(m: Seq<MessageV>) -> bool {
    exists|i: int| 0 <= i < m.len() && (#[trigger] m[i]).role == "tool"@
}

pub open spec fn content_bytes(m: Seq<MessageV>) -> nat
    decreases m.len(),
{
    if m.len() == 0 {
        0
    } else {
        content_bytes(m.drop_last()) + opt_bytes(m.last().content)
    }
}

pub open spec fn opt_bytes(s: Option<Seq<char>>) -> nat {
    match s {
        Some(t) => text::byte_len(t),
        None => 0,
    }
}

/// A token for every four bytes of the prompt and the messages.
pub open spec fn input_tokens(r: RequestV) -> u32 {
    ((opt_bytes(r.system_prompt) + content_bytes(r.messages)) / 4) as u32
}

pub open spec fn tells_time(t: ToolDefV) -> bool {
    text::ends_with(t.name, "/time"@) || t.name == "time"@
}

/// The first tool that tells the time, or else the first.
pub open spec fn time_tool(t: Seq<ToolDefV>) -> Seq<char> {
    time_tool_from(t, 0)
}

pub open spec fn time_tool_from(t: Seq<ToolDefV>, i: int) -> Seq<char>
    decreases t.len() - i,
{
    if i >= t.len() {
        t[0].name
    } else if tells_time(t[i]) {
        t[i].name
    } else {
        time_tool_from(t, i + 1)
    }
}

/// The time is asked for, no tool has answered yet and there is a tool to ask.
pub open spec fn asks_tool(r: RequestV, lowered: Seq<char>) -> bool {
    &&& last_user(r.messages) is Some
    &&& text::occurs_in(lowered, "time"@)
    &&& !has_tool_result(r.messages)
    &&& r.tools.len() > 0
}

/// The words of a text, each with the white space that ends it.
pub open spec fn words(cur: Seq<char>, s: Seq<char>) -> Seq<Seq<char>>
    decreases s.len(),
{
    if s.len() == 0 {
        text::closed_piece(cur)
    } else if text::is_white(s[0]) {
        seq![cur.push(s[0])] + words(seq![], s.skip(1))
    } else {
        words(cur.push(s[0]), s.skip(1))
    }
}

pub open spec fn echo_text(content: Option<Seq<char>>) -> Seq<char> {
    match content {
        Some(c) => "Echo: "@ + c,
        None => "Echo: (no message)"@,
    }
}

pub open spec fn time_call(r: RequestV) -> CallV {
    CallV { id: "call_time"@, name: time_tool(r.tools), arguments: "{}"@ }
}

/// The events of the answer, `lowered` being the last user's words in lower case.
pub open spec fn echo_events(r: RequestV, lowered: Seq<char>) -> Seq<DriverEventV> {
    if asks_tool(r, lowered) {
        seq![
            DriverEventV::ToolCallStart(time_call(r)),
            DriverEventV::ToolCallEnd(time_call(r)),
        ]
    } else {
        words(seq![], echo_text(last_user(r.messages))).map_values(
            |w: Seq<char>| DriverEventV::Text(w),
        )
    }
}

pub open spec fn echo_usage(r: RequestV, lowered: Seq<char>) -> Usage {
    Usage {
        input_tokens: input_tokens(r),
        output_tokens: if asks_tool(r, lowered) {
            0
        } else {
            text::byte_len(echo_text(last_user(r.messages))) as u32
        },
        ..drivers::no_usage()
    }
}

/// The last user's words in lower case, or nothing.
pub open spec fn lowered_user(r: RequestV) -> Seq<char> {
    match last_user(r.messages) {
        Some(c) => text::lower_case(c),
        None => seq![],
    }
}

fn user_content(v: &Vec<DriverMessage>) -> (r: Option<&String>)
    ensures
        match r {
            Some(s) => last_user(drivers::message_views(v@)) == Some(s@),
            None => last_user(drivers::message_views(v@)) is None,
        },
{
    let ghost m = drivers::message_views(v@);
    let mut n: usize = v.len();
    assert(m.take(n as int) =~= m);
    while n > 0
        invariant
            n <= v@.len(),
            m == drivers::message_views(v@),
            last_user(m) == last_user(m.take(n as int)),
        decreases n,
    {
        assert(m.take(n as int).last() == v@[n - 1]@);
        assert(m.take(n as int).drop_last() =~= m.take(n - 1));
        if text::same(v[n - 1].role.as_str(), "user") {
            return match &v[n - 1].content {
                Some(c) => Some(c),
                None => None,
            };
        }
        n = n - 1;
    }
    None
}

fn tool_answered(v: &Vec<DriverMessage>) -> (r: bool)
    ensures
        r == has_tool_result(drivers::message_views(v@)),
{
    let ghost m = drivers::message_views(v@);
    let mut i: usize = 0;
    while i < v.len()
        invariant
            i <= v@.len(),
            m == drivers::message_views(v@),
            forall|k: int| 0 <= k < i ==> (#[trigger] m[k]).role != "tool"@,
        decreases v@.len() - i,
    {
        assert(m[i as int] == v@[i as int]@);
        if text::same(v[i].role.as_str(), "tool") {
            return true;
        }
        i = i + 1;
    }
    false
}

fn count_input(r: &LlmRequest) -> (n: u32)
    ensures
        n == input_tokens(r@),
{
    let ghost m = r@.messages;
    let mut total: u128 = match &r.system_prompt {
        Some(p) => text::bytes_in(p.as_str()) as u128,
        None => 0,
    };
    let mut i: usize = 0;
    assert(content_bytes(m.take(0)) == 0);
    while i < r.messages.len()
        invariant
            i <= r.messages@.len(),
            m == drivers::message_views(r.messages@),
            total == opt_bytes(text::opt_text(r.system_prompt)) + content_bytes(m.take(i as int)),
            total <= (i + 1) * 0xffff_ffff_ffff_ffff,
        decreases r.messages@.len() - i,
    {
        assert(m.take(i as int + 1).drop_last() =~= m.take(i as int));
        assert(m.take(i as int + 1).last() == r.messages@[i as int]@);
        if let Some(c) = &r.messages[i].content {
            total = total + text::bytes_in(c.as_str()) as u128;
        }
        i = i + 1;
    }
    assert(m.take(i as int) =~= m);
    #[verifier::truncate]
    ((total / 4) as u32)
}

fn pick_tool(r: &LlmRequest) -> (s: String)
    requires
        r@.tools.len() > 0,
    ensures
        s@ == time_tool(r@.tools),
{
    let ghost t = r@.tools;
    let mut i: usize = 0;
    while i < r.tools.len()
        invariant
            i <= r.tools@.len(),
            t == drivers::tool_views(r.tools@),
            time_tool(t) == time_tool_from(t, i as int),
        decreases r.tools@.len() - i,
    {
        assert(t[i as int] == r.tools@[i as int]@);
        let name = r.tools[i].name.as_str();
        if text::ends(name, "/time") || text::same(name, "time") {
            return r.tools[i].name.clone();
        }
        i = i + 1;
    }
    assert(t[0] == r.tools@[0]@);
    r.tools[0].name.clone()
}

/// The words of a text, each with the white space that ends it.
pub fn split_words(s: &str) -> (r: Vec<String>)
    ensures
        text::texts(r@) == words(seq![], s@),
{
    let v = text::chars_of(s);
    let mut out: Vec<String> = Vec::new();
    let mut cur = String::new();
    let mut i: usize = 0;
    assert(s@.skip(0) =~= s@);
    assert(text::texts(out@) =~= seq![]);
    assert(text::texts(out@) + words(cur@, s@.skip(0)) =~= words(cur@, s@.skip(0)));
    while i < v.len()
        invariant
            v@ == s@,
            i <= v@.len(),
            words(seq![], s@) == text::texts(out@) + words(cur@, s@.skip(i as int)),
        decreases v@.len() - i,
    {
        let c = v[i];
        assert(s@.skip(i as int).skip(1) =~= s@.skip(i as int + 1));
        assert(s@.skip(i as int)[0] == c);
        cur.push(c);
        if text::separates(text::Sep::White, c) {
            let ghost had = text::texts(out@);
            let ghost piece = cur@;
            out.push(cur);
            cur = String::new();
            assert(cur@ =~= seq![]);
            assert(text::texts(out@) =~= had + seq![piece]);
            assert(had + (seq![piece] + words(seq![], s@.skip(i as int + 1))) =~= text::texts(out@)
                + words(seq![], s@.skip(i as int + 1)));
        }
        i = i + 1;
    }
    let ghost had = text::texts(out@);
    let ghost piece = cur@;
    if !cur.as_str().is_empty() {
        out.push(cur);
    }
    assert(text::texts(out@) =~= had + text::closed_piece(piece));
    out
}

impl EchoDriver {
    /// The answer to a request, given the last user's words in lower case.
    pub fn answer(&self, r: &LlmRequest, lowered: &str) -> (out: (Vec<DriverEvent>, Usage))
        ensures
            drivers::event_views(out.0@) == echo_events(r@, lowered@),
            out.1 == echo_usage(r@, lowered@),
    {
        let content = user_content(&r.messages);
        let input: u32 = count_input(r);
        let mut events: Vec<DriverEvent> = Vec::new();
        if content.is_some() && text::has(lowered, "time") && !tool_answered(&r.messages)
            && r.tools.len() > 0 {
            let call = DriverToolCall {
                id: text::owned("call_time"),
                name: pick_tool(r),
                arguments: text::owned("{}"),
            };
            assert(call@ == time_call(r@));
            events.push(DriverEvent::ToolCallStart(call.copy()));
            events.push(DriverEvent::ToolCallEnd(call));
            assert(drivers::event_views(events@) =~= echo_events(r@, lowered@));
            return (events, Usage { input_tokens: input, ..Usage::default() });
        }
        let reply = match content {
            Some(c) => text::owned("Echo: ").concat(c.as_str()),
            None => text::owned("Echo: (no message)"),
        };
        assert(reply@ == echo_text(last_user(r@.messages)));
        let parts = split_words(reply.as_str());
        let ghost all = words(seq![], reply@).map_values(|w: Seq<char>| DriverEventV::Text(w));
        let mut i: usize = 0;
        while i < parts.len()
            invariant
                i <= parts@.len(),
                all == text::texts(parts@).map_values(|w: Seq<char>| DriverEventV::Text(w)),
                drivers::event_views(events@) == all.take(i as int),
            decreases parts@.len() - i,
        {
            let e = DriverEvent::Text(parts[i].clone());
            assert(e@ == all[i as int]);
            events.push(e);
            i = i + 1;
            assert(drivers::event_views(events@) =~= all.take(i as int));
        }
        assert(all.take(i as int) =~= all);
        let written: usize = text::bytes_in(reply.as_str());
        let usage = Usage {
            input_tokens: input,
            output_tokens: #[verifier::truncate] (written as u32),
            ..Usage::default()
        };
        (events, usage)
    }

    /// The answer to a request.
    pub fn stream(&self, r: &LlmRequest) -> (out: (Vec<DriverEvent>, Usage))
        ensures
            drivers::event_views(out.0@) == echo_events(r@, lowered_user(r@)),
            out.1 == echo_usage(r@, lowered_user(r@)),
    {
        let lowered = match user_content(&r.messages) {
            Some(c) => text::lowered(c.as_str()),
            None => String::new(),
        };
        assert(lowered@ =~= lowered_user(r@));
        self.answer(r, lowered.as_str())
    }
}

// ---- laws ----

pub open spec fn glued(parts: Seq<Seq<char>>) -> Seq<char>
    decreases parts.len(),
{
    if parts.len() == 0 {
        seq![]
    } else {
        parts[0] + glued(parts.skip(1))
    }
}

/// The words put together are the text.
pub proof fn words_make_the_text(cur: Seq<char>, s: Seq<char>)
    ensures
        glued(words(cur, s)) == cur + s,
    decreases s.len(),
{
    if s.len() == 0 {
        reveal_with_fuel(glued, 2);
        assert(cur + s =~= cur);
        if cur.len() > 0 {
            assert(seq![cur].skip(1) =~= seq![]);
            assert(glued(seq![cur]) =~= cur);
        } else {
            assert(cur + s =~= seq![]);
        }
    } else if text::is_white(s[0]) {
        let rest = words(seq![], s.skip(1));
        words_make_the_text(seq![], s.skip(1));
        let all = seq![cur.push(s[0])] + rest;
        assert(all.skip(1) =~= rest);
        assert(cur.push(s[0]) + (seq![] + s.skip(1)) =~= cur + s);
    } else {
        words_make_the_text(cur.push(s[0]), s.skip(1));
        assert(cur.push(s[0]) + s.skip(1) =~= cur + s);
    }
}

} // verus!
