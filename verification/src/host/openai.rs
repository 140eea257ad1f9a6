//! The request to an OpenAI-compatible provider and the reading of its answer.
use crate::host::drivers::{
    self, CallV, DecoderV, DriverError, DriverErrorV, DriverEvent, DriverEventV, DriverMessage,
    DriverToolCall, DriverToolDef, LlmRequest, MessageV, RequestV, SseDecoder, SseEventBatch,
    ToolDefV, Usage,
};
use crate::json::{self, Json, JsonV, NumberV};
use crate::text;
use vstd::prelude::*;

verus! {

broadcast use crate::text::views_push;

pub struct OpenAiCompatDriver {
    pub base_url: String,
    pub api_key: String,
}

// ---- the request ----

pub open spec fn call_json(c: CallV) -> JsonV {
    JsonV::Obj(
        seq![
            (
                "function"@,
                JsonV::Obj(
                    seq![("arguments"@, JsonV::Str(c.arguments)), ("name"@, JsonV::Str(c.name))],
                ),
            ),
            ("id"@, JsonV::Str(c.id)),
            ("type"@, JsonV::Str("function"@)),
        ],
    )
}

pub open spec fn message_json(m: MessageV) -> JsonV {
    if m.tool_calls.len() > 0 {
        JsonV::Obj(
            seq![
                ("content"@, json::opt_string(m.content)),
                ("role"@, JsonV::Str("assistant"@)),
                ("tool_calls"@, JsonV::Arr(m.tool_calls.map_values(|c: CallV| call_json(c)))),
            ],
        )
    } else {
        match m.tool_call_id {
            Some(id) => JsonV::Obj(
                seq![
                    ("content"@, json::opt_string(m.content)),
                    ("role"@, JsonV::Str("tool"@)),
                    ("tool_call_id"@, JsonV::Str(id)),
                ],
            ),
            None => JsonV::Obj(
                seq![
                    ("content"@, json::opt_string(m.content)),
                    ("role"@, JsonV::Str(m.role)),
                ],
            ),
        }
    }
}

/// The messages, after the system prompt where there is one.
pub open spec fn messages_json(r: RequestV) -> Seq<JsonV> {
    let system = match r.system_prompt {
        Some(p) => seq![
            JsonV::Obj(seq![("content"@, JsonV::Str(p)), ("role"@, JsonV::Str("system"@))]),
        ],
        None => seq![],
    };
    system + r.messages.map_values(|m: MessageV| message_json(m))
}

pub open spec fn tool_json(t: ToolDefV) -> JsonV {
    JsonV::Obj(
        seq![
            (
                "function"@,
                JsonV::Obj(
                    seq![
                        ("description"@, JsonV::Str(t.description)),
                        ("name"@, JsonV::Str(t.name)),
                        ("parameters"@, t.parameters),
                    ],
                ),
            ),
            ("type"@, JsonV::Str("function"@)),
        ],
    )
}

/// The members of the request body, ordered by key.
pub open spec fn body_members(r: RequestV) -> Seq<(Seq<char>, JsonV)> {
    let limit = match r.max_tokens {
        Some(n) => seq![("max_tokens"@, JsonV::Num(NumberV::Unsigned(n as u64)))],
        None => seq![],
    };
    let always = seq![
        ("messages"@, JsonV::Arr(messages_json(r))),
        ("model"@, JsonV::Str(r.model)),
        ("stream"@, JsonV::Bool(true)),
    ];
    let warmth = match r.temperature {
        Some(n) => seq![("temperature"@, JsonV::Num(n))],
        None => seq![],
    };
    let tools = if r.tools.len() > 0 {
        seq![
            ("tool_choice"@, JsonV::Str("auto"@)),
            ("tools"@, JsonV::Arr(r.tools.map_values(|t: ToolDefV| tool_json(t)))),
        ]
    } else {
        seq![]
    };
    limit + always + warmth + tools
}

fn call_value(c: &DriverToolCall) -> (r: Json)
    ensures
        r@ == call_json(c@),
{
    let mut f = json::object();
    json::put(&mut f, "arguments", json::string(c.arguments.as_str()));
    json::put(&mut f, "name", json::string(c.name.as_str()));
    let mut m = json::object();
    let ghost fv = json::members_view(f@);
    assert(fv =~= seq![
        ("arguments"@, JsonV::Str(c@.arguments)),
        ("name"@, JsonV::Str(c@.name)),
    ]);
    json::put(&mut m, "function", Json::Obj(f));
    json::put(&mut m, "id", json::string(c.id.as_str()));
    json::put(&mut m, "type", json::string("function"));
    assert(json::members_view(m@) =~= seq![
        ("function"@, JsonV::Obj(fv)),
        ("id"@, JsonV::Str(c@.id)),
        ("type"@, JsonV::Str("function"@)),
    ]);
    Json::Obj(m)
}

fn call_values(v: &Vec<DriverToolCall>) -> (r: Vec<Json>)
    ensures
        json::items_view(r@) == drivers::call_views(v@).map_values(|c: CallV| call_json(c)),
{
    let mut out: Vec<Json> = Vec::new();
    let mut i: usize = 0;
    let ghost all = drivers::call_views(v@).map_values(|c: CallV| call_json(c));
    assert(json::items_view(out@) =~= all.take(0));
    while i < v.len()
        invariant
            i <= v@.len(),
            all == drivers::call_views(v@).map_values(|c: CallV| call_json(c)),
            json::items_view(out@) == all.take(i as int),
        decreases v@.len() - i,
    {
        let j = call_value(&v[i]);
        proof {
            json::lemma_items_push(out@, j);
        }
        out.push(j);
        i = i + 1;
        assert(json::items_view(out@) =~= all.take(i as int));
    }
    assert(all.take(i as int) =~= all);
    out
}

fn message_value(m: &DriverMessage) -> (r: Json)
    ensures
        r@ == message_json(m@),
{
    let mut o = json::object();
    json::put(&mut o, "content", json::string_or_null(&m.content));
    if m.tool_calls.len() > 0 {
        json::put(&mut o, "role", json::string("assistant"));
        let calls = call_values(&m.tool_calls);
        let ghost cv = json::items_view(calls@);
        json::put(&mut o, "tool_calls", Json::Arr(calls));
        assert(json::members_view(o@) =~= seq![
            ("content"@, json::opt_string(m@.content)),
            ("role"@, JsonV::Str("assistant"@)),
            ("tool_calls"@, JsonV::Arr(cv)),
        ]);
    } else {
        match &m.tool_call_id {
            Some(id) => {
                json::put(&mut o, "role", json::string("tool"));
                json::put(&mut o, "tool_call_id", json::string(id.as_str()));
                assert(json::members_view(o@) =~= seq![
                    ("content"@, json::opt_string(m@.content)),
                    ("role"@, JsonV::Str("tool"@)),
                    ("tool_call_id"@, JsonV::Str(id@)),
                ]);
            },
            None => {
                json::put(&mut o, "role", json::string(m.role.as_str()));
                assert(json::members_view(o@) =~= seq![
                    ("content"@, json::opt_string(m@.content)),
                    ("role"@, JsonV::Str(m@.role)),
                ]);
            },
        }
    }
    Json::Obj(o)
}

fn message_values(r: &LlmRequest) -> (out: Vec<Json>)
    ensures
        json::items_view(out@) == messages_json(r@),
{
    let mut out: Vec<Json> = Vec::new();
    if let Some(p) = &r.system_prompt {
        let mut o = json::object();
        json::put(&mut o, "content", json::string(p.as_str()));
        json::put(&mut o, "role", json::string("system"));
        assert(json::members_view(o@) =~= seq![
            ("content"@, JsonV::Str(p@)),
            ("role"@, JsonV::Str("system"@)),
        ]);
        let j = Json::Obj(o);
        proof {
            json::lemma_items_push(out@, j);
        }
        out.push(j);
    }
    let ghost head = json::items_view(out@);
    let ghost all = r@.messages.map_values(|m: MessageV| message_json(m));
    assert(head + all =~= messages_json(r@));
    let mut i: usize = 0;
    assert(head =~= head + all.take(0));
    while i < r.messages.len()
        invariant
            i <= r.messages@.len(),
            all == drivers::message_views(r.messages@).map_values(|m: MessageV| message_json(m)),
            json::items_view(out@) == head + all.take(i as int),
        decreases r.messages@.len() - i,
    {
        let j = message_value(&r.messages[i]);
        proof {
            json::lemma_items_push(out@, j);
        }
        out.push(j);
        i = i + 1;
        assert(json::items_view(out@) =~= head + all.take(i as int));
    }
    assert(all.take(i as int) =~= all);
    out
}

fn tool_value(t: &DriverToolDef) -> (r: Json)
    ensures
        r@ == tool_json(t@),
{
    let mut f = json::object();
    json::put(&mut f, "description", json::string(t.description.as_str()));
    json::put(&mut f, "name", json::string(t.name.as_str()));
    json::put(&mut f, "parameters", t.parameters.copy());
    let ghost fv = json::members_view(f@);
    assert(fv =~= seq![
        ("description"@, JsonV::Str(t@.description)),
        ("name"@, JsonV::Str(t@.name)),
        ("parameters"@, t@.parameters),
    ]);
    let mut m = json::object();
    json::put(&mut m, "function", Json::Obj(f));
    json::put(&mut m, "type", json::string("function"));
    assert(json::members_view(m@) =~= seq![
        ("function"@, JsonV::Obj(fv)),
        ("type"@, JsonV::Str("function"@)),
    ]);
    Json::Obj(m)
}

fn tool_values(v: &Vec<DriverToolDef>) -> (r: Vec<Json>)
    ensures
        json::items_view(r@) == drivers::tool_views(v@).map_values(|t: ToolDefV| tool_json(t)),
{
    let mut out: Vec<Json> = Vec::new();
    let mut i: usize = 0;
    let ghost all = drivers::tool_views(v@).map_values(|t: ToolDefV| tool_json(t));
    assert(json::items_view(out@) =~= all.take(0));
    while i < v.len()
        invariant
            i <= v@.len(),
            all == drivers::tool_views(v@).map_values(|t: ToolDefV| tool_json(t)),
            json::items_view(out@) == all.take(i as int),
        decreases v@.len() - i,
    {
        let j = tool_value(&v[i]);
        proof {
            json::lemma_items_push(out@, j);
        }
        out.push(j);
        i = i + 1;
        assert(json::items_view(out@) =~= all.take(i as int));
    }
    assert(all.take(i as int) =~= all);
    out
}

/// The body of a streaming request.
pub fn request_body(r: &LlmRequest) -> (out: Json)
    ensures
        out@ == JsonV::Obj(body_members(r@)),
{
    let mut o = json::object();
    if let Some(n) = r.max_tokens {
        json::put(&mut o, "max_tokens", json::unsigned(n as u64));
    }
    let messages = message_values(r);
    json::put(&mut o, "messages", Json::Arr(messages));
    json::put(&mut o, "model", json::string(r.model.as_str()));
    json::put(&mut o, "stream", Json::Bool(true));
    if let Some(n) = &r.temperature {
        json::put(&mut o, "temperature", Json::Num(n.copy()));
    }
    if r.tools.len() > 0 {
        json::put(&mut o, "tool_choice", json::string("auto"));
        let tools = tool_values(&r.tools);
        json::put(&mut o, "tools", Json::Arr(tools));
    }
    assert(json::members_view(o@) =~= body_members(r@));
    Json::Obj(o)
}

impl OpenAiCompatDriver {
    /// Where the request goes.
    pub fn url(&self) -> (r: String)
        ensures
            r@ == text::trim_end(self.base_url@, '/') + "/chat/completions"@,
    {
        text::trimmed_end(self.base_url.as_str(), '/').concat("/chat/completions")
    }

    /// The token that authorises the request, where a key is set.
    pub fn bearer(&self) -> (r: Option<&str>)
        ensures
            match r {
                Some(k) => self.api_key@.len() > 0 && k@ == self.api_key@,
                None => self.api_key@.len() == 0,
            },
    {
        if self.api_key.as_str().is_empty() {
            None
        } else {
            Some(self.api_key.as_str())
        }
    }
}

// ---- the answer's status ----

/// How a status is written: its code and, where it has one, its reason.
pub uninterp spec fn status_text(code: u16) -> Seq<char>;

/// `reqwest::StatusCode` as text. What is no status code is written as the
/// error that says so.
#[verifier::external_body]
fn status_line(code: u16) -> (r: String)
    ensures
        r@ == status_text(code),
{
    match reqwest::StatusCode::from_u16(code) {
        Ok(s) => s.to_string(),
        Err(e) => e.to_string(),
    }
}

/// The failure that a status, written as `line`, stands for.
pub open spec fn failure(code: u16, line: Seq<char>) -> Option<DriverErrorV> {
    if 200 <= code < 300 {
        None
    } else if code == 401 {
        Some(DriverErrorV::Auth)
    } else if code == 429 {
        Some(DriverErrorV::RateLimited)
    } else {
        Some(DriverErrorV::Internal("upstream status "@ + line))
    }
}

pub open spec fn error_view(e: Option<DriverError>) -> Option<DriverErrorV> {
    match e {
        Some(x) => Some(x@),
        None => None,
    }
}

/// The failure that a status stands for, given how the status is written.
pub fn failure_of(code: u16, line: &str) -> (r: Option<DriverError>)
    ensures
        error_view(r) == failure(code, line@),
{
    if 200 <= code && code < 300 {
        None
    } else if code == 401 {
        Some(DriverError::Auth)
    } else if code == 429 {
        Some(DriverError::RateLimited)
    } else {
        Some(DriverError::Internal(text::owned("upstream status ").concat(line)))
    }
}

/// The failure that a status stands for.
pub fn status_failure(code: u16) -> (r: Option<DriverError>)
    ensures
        error_view(r) == failure(code, status_text(code)),
{
    let line = status_line(code);
    failure_of(code, line.as_str())
}

// ---- the answer's body ----

/// The place of the first line feed, or the length.
pub open spec fn line_feed(b: Seq<u8>) -> int
    decreases b.len(),
{
    if b.len() == 0 || b[0] == 10 {
        0
    } else {
        1 + line_feed(b.skip(1))
    }
}

/// What comes of one line or of many.
#[verifier::ext_equal]
pub struct ReadV {
    pub decoder: DecoderV,
    pub rest: Seq<u8>,
    pub done: bool,
    pub events: Seq<DriverEventV>,
}

/// One line of the stream, with its line feed.
pub open spec fn line_read(d: DecoderV, line: Seq<u8>) -> ReadV {
    let idle = ReadV { decoder: d, rest: seq![], done: false, events: seq![] };
    match text::after_prefix(text::trim(text::utf8_lossy(line)), "data:"@) {
        None => idle,
        Some(data) => {
            let next = drivers::after_payload(d, data);
            match drivers::payload_batch(d, data) {
                Some(drivers::BatchV::Done) => ReadV {
                    decoder: DecoderV { calls: seq![], ..next },
                    done: true,
                    events: drivers::end_events(next.calls),
                    ..idle
                },
                Some(drivers::BatchV::Events(events)) => ReadV { decoder: next, events, ..idle },
                None => ReadV { decoder: next, ..idle },
            }
        },
    }
}

/// All the complete lines in `b`, up to the end of the answer. What follows the
/// last complete line is left over; after the end nothing is.
pub open spec fn read(d: DecoderV, b: Seq<u8>) -> ReadV
    decreases b.len(),
{
    let n = line_feed(b);
    if n >= b.len() || n < 0 {
        ReadV { decoder: d, rest: b, done: false, events: seq![] }
    } else {
        let first = line_read(d, b.take(n + 1));
        if first.done {
            first
        } else {
            let others = read(first.decoder, b.skip(n + 1));
            ReadV { events: first.events + others.events, ..others }
        }
    }
}

/// The reader of one answer: its decoder, the start of a line that has come, and
/// whether the end has been seen.
pub struct OpenAiStream {
    pub decoder: SseDecoder,
    pub buffer: Vec<u8>,
    pub done: bool,
}

pub proof fn lemma_line_feed(b: Seq<u8>)
    ensures
        0 <= line_feed(b) <= b.len(),
        forall|k: int| 0 <= k < line_feed(b) ==> b[k] != 10,
        line_feed(b) < b.len() ==> b[line_feed(b)] == 10,
    decreases b.len(),
{
    if b.len() > 0 && b[0] != 10 {
        let c = b.skip(1);
        lemma_line_feed(c);
        assert forall|k: int| 0 <= k < line_feed(b) implies b[k] != 10 by {
            if k > 0 {
                assert(c[k - 1] == b[k]);
            }
        }
    }
}

fn find_line_feed(b: &[u8], from: usize) -> (r: usize)
    requires
        from <= b.len(),
    ensures
        r == from + line_feed(b@.skip(from as int)),
        from <= r <= b.len(),
{
    let n: usize = b.len();
    let ghost whole = b@.skip(from as int);
    let mut i: usize = from;
    proof {
        lemma_line_feed(whole);
    }
    while i < n && b[i] != 10
        invariant
            from <= i <= n,
            n == b@.len(),
            whole == b@.skip(from as int),
            line_feed(whole) == (i - from) + line_feed(b@.skip(i as int)),
        decreases n - i,
    {
        assert(b@.skip(i as int)[0] == b@[i as int]);
        assert(b@.skip(i as int).skip(1) =~= b@.skip(i as int + 1));
        i = i + 1;
    }
    if i < n {
        assert(b@.skip(i as int)[0] == b@[i as int]);
    }
    i
}

impl OpenAiStream {
    pub open spec fn wf(&self) -> bool {
        self.decoder.wf()
    }

    pub fn new() -> (r: OpenAiStream)
        ensures
            r.wf(),
            r.decoder@ == drivers::fresh_decoder(),
            r.buffer@ == Seq::<u8>::empty(),
            !r.done,
    {
        OpenAiStream { decoder: SseDecoder::new(), buffer: Vec::new(), done: false }
    }

    /// Takes in one line; its events go behind `out`.
    fn take_line(&mut self, line: &[u8], out: &mut Vec<DriverEvent>)
        requires
            old(self).wf(),
            !old(self).done,
        ensures
            final(self).wf(),
            final(self).decoder@ == line_read(old(self).decoder@, line@).decoder,
            final(self).done == line_read(old(self).decoder@, line@).done,
            final(self).buffer == old(self).buffer,
            drivers::event_views(final(out)@) == drivers::event_views(old(out)@) + line_read(
                old(self).decoder@,
                line@,
            ).events,
    {
        let ghost had = drivers::event_views(out@);
        let ghost d = self.decoder@;
        assert(had + seq![] =~= had);
        let whole = text::lossy(line);
        let trimmed = text::trimmed(whole.as_str());
        if let Some(data) = text::strip_prefix(trimmed.as_str(), "data:") {
            match self.decoder.decode(data.as_str()) {
                Some(SseEventBatch::Done) => {
                    let mut ends = self.decoder.finish();
                    let ghost es = ends@;
                    let ghost before = out@;
                    out.append(&mut ends);
                    assert(out@ =~= before + es);
                    assert(drivers::event_views(out@) =~= had + drivers::event_views(es));
                    self.done = true;
                },
                Some(SseEventBatch::Events(events)) => {
                    let mut events = events;
                    let ghost es = events@;
                    let ghost before = out@;
                    out.append(&mut events);
                    assert(out@ =~= before + es);
                    assert(drivers::event_views(out@) =~= had + drivers::event_views(es));
                },
                None => {},
            }
        }
    }

    /// Takes in the next bytes of the answer and gives the events they complete.
    /// After the end of the answer nothing more is taken in.
    pub fn feed(&mut self, chunk: &[u8]) -> (r: Vec<DriverEvent>)
        requires
            old(self).wf(),
        ensures
            final(self).wf(),
            old(self).done ==> *final(self) == *old(self) && r@.len() == 0,
            !old(self).done ==> ({
                let all = read(old(self).decoder@, old(self).buffer@ + chunk@);
                &&& final(self).decoder@ == all.decoder
                &&& final(self).buffer@ == all.rest
                &&& final(self).done == all.done
                &&& drivers::event_views(r@) == all.events
            }),
    {
        let mut out: Vec<DriverEvent> = Vec::new();
        if self.done {
            return out;
        }
        let mut b: Vec<u8> = Vec::new();
        b.append(&mut self.buffer);
        b.extend_from_slice(chunk);
        let ghost d = self.decoder@;
        let ghost all = read(d, b@);
        assert(b@ =~= old(self).buffer@ + chunk@);
        let n: usize = b.len();
        let mut i: usize = 0;
        assert(b@.skip(0) =~= b@);
        assert(drivers::event_views(out@) =~= seq![]);
        assert(seq![] + all.events =~= all.events);
        proof {
            lemma_line_feed(b@.skip(0));
        }
        let mut at: usize = find_line_feed(&b, 0);
        while at < n
            invariant_except_break
                !self.done,
                i <= at <= n,
                at == i + line_feed(b@.skip(i as int)),
                all == (ReadV {
                    events: drivers::event_views(out@) + read(
                        self.decoder@,
                        b@.skip(i as int),
                    ).events,
                    ..read(self.decoder@, b@.skip(i as int))
                }),
            invariant
                self.wf(),
                n == b@.len(),
                self.buffer@ == Seq::<u8>::empty(),
            ensures
                self.wf(),
                self.buffer@ == Seq::<u8>::empty(),
                if self.done {
                    all == (ReadV {
                        decoder: self.decoder@,
                        rest: seq![],
                        done: true,
                        events: drivers::event_views(out@),
                    })
                } else {
                    i <= n && all == (ReadV {
                        decoder: self.decoder@,
                        rest: b@.skip(i as int),
                        done: false,
                        events: drivers::event_views(out@),
                    })
                },
            decreases n - i,
        {
            let ghost rest = b@.skip(i as int);
            let ghost now = self.decoder@;
            let ghost had = drivers::event_views(out@);
            let line = vstd::slice::slice_subrange(b.as_slice(), i, at + 1);
            assert(line@ =~= rest.take(at - i + 1));
            self.take_line(line, &mut out);
            assert(rest.skip(at - i + 1) =~= b@.skip(at as int + 1));
            let ghost first = line_read(now, rest.take(at - i + 1));
            if self.done {
                assert(had + first.events =~= drivers::event_views(out@));
                break;
            }
            i = at + 1;
            let ghost others = read(self.decoder@, b@.skip(i as int));
            assert(had + (first.events + others.events) =~= drivers::event_views(out@)
                + others.events);
            at = find_line_feed(&b, i);
            proof {
                lemma_line_feed(b@.skip(i as int));
            }
            if at >= n {
                assert(drivers::event_views(out@) + seq![] =~= drivers::event_views(out@));
            }
        }
        if !self.done {
            let left = vstd::slice::slice_subrange(b.as_slice(), i, n);
            assert(left@ =~= b@.skip(i as int));
            self.buffer.extend_from_slice(left);
            assert(self.buffer@ =~= b@.skip(i as int));
        }
        out
    }

    /// The answer is over: what was under way ends.
    pub fn close(&mut self) -> (r: Vec<DriverEvent>)
        requires
            old(self).wf(),
        ensures
            final(self).wf(),
            drivers::event_views(r@) == drivers::end_events(old(self).decoder@.calls),
            final(self).decoder@ == (DecoderV { calls: seq![], ..old(self).decoder@ }),
            final(self).done,
    {
        self.done = true;
        self.decoder.finish()
    }

    /// The tokens that the answer reported last.
    pub fn usage(&self) -> (r: Usage)
        ensures
            r == self.decoder@.usage,
    {
        *self.decoder.usage()
    }
}

// ---- laws ----

/// How the answer is cut into chunks does not matter: feeding `a` and `b` one
/// after the other gives what feeding them together gives.
pub proof fn chunks_do_not_matter(d: DecoderV, a: Seq<u8>, b: Seq<u8>)
    ensures
        read(d, a).done ==> read(d, a + b) == read(d, a),
        !read(d, a).done ==> ({
            let one = read(d, a);
            let two = read(one.decoder, one.rest + b);
            read(d, a + b) == ReadV { events: one.events + two.events, ..two }
        }),
    decreases a.len(),
{
    let n = line_feed(a);
    lemma_line_feed(a);
    if n >= a.len() {
        let two = read(d, a + b);
        assert(seq![] + two.events =~= two.events);
    } else {
        lemma_line_feed(a + b);
        assert((a + b)[n] == 10) by {
            assert((a + b)[n] == a[n]);
        }
        assert(line_feed(a + b) == n) by {
            let m = line_feed(a + b);
            if m < n {
                assert((a + b)[m] == a[m]);
            }
            if m > n {
                assert((a + b)[n] != 10);
            }
        }
        assert((a + b).take(n + 1) =~= a.take(n + 1));
        assert((a + b).skip(n + 1) =~= a.skip(n + 1) + b);
        let first = line_read(d, a.take(n + 1));
        if !first.done {
            chunks_do_not_matter(first.decoder, a.skip(n + 1), b);
            let mid = read(first.decoder, a.skip(n + 1));
            let two = read(mid.decoder, mid.rest + b);
            assert(first.events + (mid.events + two.events) =~= (first.events + mid.events)
                + two.events);
        }
    }
}

/// No tool call is left under way once the end of the answer is seen.
pub proof fn the_end_settles_every_call(d: DecoderV, b: Seq<u8>)
    requires
        read(d, b).done,
    ensures
        read(d, b).decoder.calls.len() == 0,
    decreases b.len(),
{
    let n = line_feed(b);
    lemma_line_feed(b);
    if n < b.len() {
        let first = line_read(d, b.take(n + 1));
        if !first.done {
            the_end_settles_every_call(first.decoder, b.skip(n + 1));
        }
    }
}

} // verus!
