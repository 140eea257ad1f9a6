//! What goes to and comes from a language model, and the decoder of its event stream.
use crate::json::{self, Json, JsonV, Number, NumberV};
use crate::text;
use vstd::prelude::*;

verus! {

broadcast use crate::text::views_push;

/// A call of a tool that a model asks for.
#[derive(Debug, PartialEq)]
pub struct DriverToolCall {
    pub id: String,
    pub name: String,
    pub arguments: String,
}

#[verifier::ext_equal]
pub struct CallV {
    pub id: Seq<char>,
    pub name: Seq<char>,
    pub arguments: Seq<char>,
}

impl View for DriverToolCall {
    type V = CallV;

    open spec fn view(&self) -> CallV {
        CallV { id: self.id@, name: self.name@, arguments: self.arguments@ }
    }
}

impl DriverToolCall {
    pub fn copy(&self) -> (r: DriverToolCall)
        ensures
            r@ == self@,
    {
        DriverToolCall {
            id: self.id.clone(),
            name: self.name.clone(),
            arguments: self.arguments.clone(),
        }
    }
}

pub open spec fn call_views(v: Seq<DriverToolCall>) -> Seq<CallV> {
    v.map_values(|c: DriverToolCall| c@)
}

/// One message of a conversation.
#[derive(Debug)]
pub struct DriverMessage {
    pub role: String,
    pub content: Option<String>,
    pub tool_calls: Vec<DriverToolCall>,
    pub tool_call_id: Option<String>,
}

pub struct MessageV {
    pub role: Seq<char>,
    pub content: Option<Seq<char>>,
    pub tool_calls: Seq<CallV>,
    pub tool_call_id: Option<Seq<char>>,
}

impl View for DriverMessage {
    type V = MessageV;

    open spec fn view(&self) -> MessageV {
        MessageV {
            role: self.role@,
            content: text::opt_text(self.content),
            tool_calls: call_views(self.tool_calls@),
            tool_call_id: text::opt_text(self.tool_call_id),
        }
    }
}

pub open spec fn message_views(v: Seq<DriverMessage>) -> Seq<MessageV> {
    v.map_values(|m: DriverMessage| m@)
}

/// A tool that a model may call.
#[derive(Debug)]
pub struct DriverToolDef {
    pub name: String,
    pub description: String,
    pub parameters: Json,
}

pub struct ToolDefV {
    pub name: Seq<char>,
    pub description: Seq<char>,
    pub parameters: JsonV,
}

impl View for DriverToolDef {
    type V = ToolDefV;

    open spec fn view(&self) -> ToolDefV {
        ToolDefV { name: self.name@, description: self.description@, parameters: self.parameters@ }
    }
}

pub open spec fn tool_views(v: Seq<DriverToolDef>) -> Seq<ToolDefV> {
    v.map_values(|t: DriverToolDef| t@)
}

/// A request for a completion.
pub struct LlmRequest {
    pub model: String,
    pub messages: Vec<DriverMessage>,
    pub system_prompt: Option<String>,
    pub tools: Vec<DriverToolDef>,
    pub temperature: Option<Number>,
    pub max_tokens: Option<u32>,
}

pub struct RequestV {
    pub model: Seq<char>,
    pub messages: Seq<MessageV>,
    pub system_prompt: Option<Seq<char>>,
    pub tools: Seq<ToolDefV>,
    pub temperature: Option<NumberV>,
    pub max_tokens: Option<u32>,
}

pub open spec fn number_view(n: Option<Number>) -> Option<NumberV> {
    match n {
        Some(x) => Some(x@),
        None => None,
    }
}

impl View for LlmRequest {
    type V = RequestV;

    open spec fn view(&self) -> RequestV {
        RequestV {
            model: self.model@,
            messages: message_views(self.messages@),
            system_prompt: text::opt_text(self.system_prompt),
            tools: tool_views(self.tools@),
            temperature: number_view(self.temperature),
            max_tokens: self.max_tokens,
        }
    }
}

/// Why a request failed.
#[derive(Debug, PartialEq)]
pub enum DriverError {
    Network,
    Auth,
    RateLimited,
    Timeout,
    Cancelled,
    Internal(String),
}

pub enum DriverErrorV {
    Network,
    Auth,
    RateLimited,
    Timeout,
    Cancelled,
    Internal(Seq<char>),
}

impl View for DriverError {
    type V = DriverErrorV;

    open spec fn view(&self) -> DriverErrorV {
        match self {
            DriverError::Network => DriverErrorV::Network,
            DriverError::Auth => DriverErrorV::Auth,
            DriverError::RateLimited => DriverErrorV::RateLimited,
            DriverError::Timeout => DriverErrorV::Timeout,
            DriverError::Cancelled => DriverErrorV::Cancelled,
            DriverError::Internal(m) => DriverErrorV::Internal(m@),
        }
    }
}

impl DriverError {
    pub fn copy(&self) -> (r: DriverError)
        ensures
            r@ == self@,
    {
        match self {
            DriverError::Network => DriverError::Network,
            DriverError::Auth => DriverError::Auth,
            DriverError::RateLimited => DriverError::RateLimited,
            DriverError::Timeout => DriverError::Timeout,
            DriverError::Cancelled => DriverError::Cancelled,
            DriverError::Internal(m) => DriverError::Internal(m.clone()),
        }
    }
}

/// What a model streams.
#[derive(Debug, PartialEq)]
pub enum DriverEvent {
    Text(String),
    Thinking(String),
    ToolCallStart(DriverToolCall),
    ToolCallEnd(DriverToolCall),
    Failed(DriverError),
}

pub enum DriverEventV {
    Text(Seq<char>),
    Thinking(Seq<char>),
    ToolCallStart(CallV),
    ToolCallEnd(CallV),
    Failed(DriverErrorV),
}

impl View for DriverEvent {
    type V = DriverEventV;

    open spec fn view(&self) -> DriverEventV {
        match self {
            DriverEvent::Text(t) => DriverEventV::Text(t@),
            DriverEvent::Thinking(t) => DriverEventV::Thinking(t@),
            DriverEvent::ToolCallStart(c) => DriverEventV::ToolCallStart(c@),
            DriverEvent::ToolCallEnd(c) => DriverEventV::ToolCallEnd(c@),
            DriverEvent::Failed(e) => DriverEventV::Failed(e@),
        }
    }
}

pub open spec fn event_views(v: Seq<DriverEvent>) -> Seq<DriverEventV> {
    v.map_values(|e: DriverEvent| e@)
}

/// Tokens spent.
#[derive(Debug, Clone, Copy, PartialEq, Eq, Structural)]
pub struct Usage {
    pub input_tokens: u32,
    pub cache_read_tokens: u32,
    pub cache_creation_tokens: u32,
    pub output_tokens: u32,
}

pub open spec fn no_usage() -> Usage {
    Usage { input_tokens: 0, cache_read_tokens: 0, cache_creation_tokens: 0, output_tokens: 0 }
}

impl Default for Usage {
    fn default() -> (r: Usage)
        ensures
            r == no_usage(),
    {
        Usage { input_tokens: 0, cache_read_tokens: 0, cache_creation_tokens: 0, output_tokens: 0 }
    }
}

/// What one payload of the stream brings.
#[derive(Debug, PartialEq)]
pub enum SseEventBatch {
    Done,
    Events(Vec<DriverEvent>),
}

pub enum BatchV {
    Done,
    Events(Seq<DriverEventV>),
}

impl View for SseEventBatch {
    type V = BatchV;

    open spec fn view(&self) -> BatchV {
        match self {
            SseEventBatch::Done => BatchV::Done,
            SseEventBatch::Events(v) => BatchV::Events(event_views(v@)),
        }
    }
}

pub open spec fn batch_view(b: Option<SseEventBatch>) -> Option<BatchV> {
    match b {
        Some(x) => Some(x@),
        None => None,
    }
}

// ---- the decoder ----

/// A tool call under way, with its index in the response.
#[derive(Debug)]
pub struct Pending {
    pub index: usize,
    pub call: DriverToolCall,
}

#[verifier::ext_equal]
pub struct PendingV {
    pub index: usize,
    pub call: CallV,
}

impl View for Pending {
    type V = PendingV;

    open spec fn view(&self) -> PendingV {
        PendingV { index: self.index, call: self.call@ }
    }
}

pub open spec fn pending_views(v: Seq<Pending>) -> Seq<PendingV> {
    v.map_values(|p: Pending| p@)
}

/// Decodes the payloads of one response, in their order. A `ToolCallStart` is
/// announced once the call's id and name are both known.
#[derive(Debug)]
pub struct SseDecoder {
    pub tool_state: Vec<Pending>,
    pub announced: Vec<usize>,
    pub spent: Usage,
}

#[verifier::ext_equal]
pub struct DecoderV {
    pub calls: Seq<PendingV>,
    pub announced: Seq<usize>,
    pub usage: Usage,
}

impl View for SseDecoder {
    type V = DecoderV;

    open spec fn view(&self) -> DecoderV {
        DecoderV {
            calls: pending_views(self.tool_state@),
            announced: self.announced@,
            usage: self.spent,
        }
    }
}

pub open spec fn fresh_decoder() -> DecoderV {
    DecoderV { calls: seq![], announced: seq![], usage: no_usage() }
}

/// The calls stand in the order of their indices, each index once.
pub open spec fn ordered(p: Seq<PendingV>) -> bool {
    forall|i: int, j: int| 0 <= i < j < p.len() ==> (#[trigger] p[i]).index < (#[trigger] p[j]).index
}

/// Where the call `index` stands, or the place it belongs.
pub open spec fn place(p: Seq<PendingV>, index: usize) -> int
    decreases p.len(),
{
    if p.len() == 0 || p[0].index >= index {
        0
    } else {
        1 + place(p.skip(1), index)
    }
}

pub open spec fn is_known(p: Seq<PendingV>, index: usize) -> bool {
    place(p, index) < p.len() && p[place(p, index)].index == index
}

/// The calls with `call` at `index`.
pub open spec fn put(p: Seq<PendingV>, index: usize, call: CallV) -> Seq<PendingV> {
    let at = place(p, index);
    let it = PendingV { index, call };
    if is_known(p, index) {
        p.update(at, it)
    } else {
        p.insert(at, it)
    }
}

pub proof fn lemma_place(p: Seq<PendingV>, index: usize)
    ensures
        0 <= place(p, index) <= p.len(),
        forall|k: int| 0 <= k < place(p, index) ==> (#[trigger] p[k]).index < index,
        place(p, index) < p.len() ==> p[place(p, index)].index >= index,
    decreases p.len(),
{
    if p.len() > 0 && p[0].index < index {
        let q = p.skip(1);
        lemma_place(q, index);
        assert forall|k: int| 0 <= k < place(p, index) implies (#[trigger] p[k]).index < index by {
            if k > 0 {
                assert(q[k - 1] == p[k]);
            }
        }
    }
}

/// A number of tokens under one name or another.
pub open spec fn tokens(a: Option<JsonV>, b: Option<JsonV>) -> u32 {
    match json::u64_of(a) {
        Some(n) => n as u32,
        None => match json::u64_of(b) {
            Some(n) => n as u32,
            None => 0,
        },
    }
}

/// The tokens that a usage object reports, under either of two sets of names.
pub open spec fn usage_in(u: JsonV) -> Usage {
    Usage {
        input_tokens: tokens(json::field(u, "prompt_tokens"@), json::field(u, "input_tokens"@)),
        output_tokens: tokens(
            json::field(u, "completion_tokens"@),
            json::field(u, "output_tokens"@),
        ),
        cache_read_tokens: tokens(
            json::field_of(json::field(u, "prompt_tokens_details"@), "cached_tokens"@),
            json::field(u, "cache_read_input_tokens"@),
        ),
        cache_creation_tokens: tokens(json::field(u, "cache_creation_input_tokens"@), None),
    }
}

/// The decoder once the usage of a payload is noted.
pub open spec fn with_usage(d: DecoderV, v: JsonV) -> DecoderV {
    match json::field(v, "usage"@) {
        Some(u) => DecoderV { usage: usage_in(u), ..d },
        None => d,
    }
}

/// The delta of the first choice.
pub open spec fn delta_of(v: JsonV) -> Option<JsonV> {
    match json::items_of(json::field(v, "choices"@)) {
        Some(c) => if c.len() > 0 {
            json::field(c[0], "delta"@)
        } else {
            None
        },
        None => None,
    }
}

pub open spec fn text_events(delta: JsonV) -> Seq<DriverEventV> {
    let content = match json::str_of(json::field(delta, "content"@)) {
        Some(s) => seq![DriverEventV::Text(s)],
        None => seq![],
    };
    let reasoning = match json::str_of(json::field(delta, "reasoning_content"@)) {
        Some(s) => seq![DriverEventV::Thinking(s)],
        None => seq![],
    };
    content + reasoning
}

pub open spec fn call_index(c: JsonV) -> usize {
    match json::u64_of(json::field(c, "index"@)) {
        Some(n) => n as usize,
        None => 0,
    }
}

/// The call as far as it is known, with the id and name that the piece `c` brings.
pub open spec fn identified(p: Seq<PendingV>, c: JsonV) -> CallV {
    let i = call_index(c);
    let was = if is_known(p, i) {
        p[place(p, i)].call
    } else {
        CallV { id: seq![], name: seq![], arguments: seq![] }
    };
    CallV {
        id: match json::str_of(json::field(c, "id"@)) {
            Some(s) => s,
            None => was.id,
        },
        name: match json::str_of(json::field_of(json::field(c, "function"@), "name"@)) {
            Some(s) => s,
            None => was.name,
        },
        arguments: was.arguments,
    }
}

/// The piece `c` announces its call: id and name are known for the first time.
pub open spec fn announces(d: DecoderV, c: JsonV) -> bool {
    let call = identified(d.calls, c);
    !d.announced.contains(call_index(c)) && call.id.len() > 0 && call.name.len() > 0
}

/// The decoder after one piece of a tool call.
pub open spec fn with_call(d: DecoderV, c: JsonV) -> DecoderV {
    let i = call_index(c);
    let call = identified(d.calls, c);
    let more = json::text_or_empty(json::field_of(json::field(c, "function"@), "arguments"@));
    DecoderV {
        calls: put(d.calls, i, CallV { arguments: call.arguments + more, ..call }),
        announced: if announces(d, c) {
            d.announced.push(i)
        } else {
            d.announced
        },
        ..d
    }
}

pub open spec fn call_events(d: DecoderV, c: JsonV) -> Seq<DriverEventV> {
    if announces(d, c) {
        seq![DriverEventV::ToolCallStart(identified(d.calls, c))]
    } else {
        seq![]
    }
}

/// The decoder after the pieces `cs`, from the first on.
pub open spec fn with_calls(d: DecoderV, cs: Seq<JsonV>) -> DecoderV
    decreases cs.len(),
{
    if cs.len() == 0 {
        d
    } else {
        with_call(with_calls(d, cs.drop_last()), cs.last())
    }
}

pub open spec fn calls_events(d: DecoderV, cs: Seq<JsonV>) -> Seq<DriverEventV>
    decreases cs.len(),
{
    if cs.len() == 0 {
        seq![]
    } else {
        calls_events(d, cs.drop_last()) + call_events(with_calls(d, cs.drop_last()), cs.last())
    }
}

/// The pieces of tool calls in a delta.
pub open spec fn call_pieces(delta: JsonV) -> Seq<JsonV> {
    match json::items_of(json::field(delta, "tool_calls"@)) {
        Some(v) => v,
        None => seq![],
    }
}

/// The decoder after a payload that holds the value `v`.
pub open spec fn after_value(d: DecoderV, v: JsonV) -> DecoderV {
    match delta_of(v) {
        Some(delta) => with_calls(with_usage(d, v), call_pieces(delta)),
        None => with_usage(d, v),
    }
}

/// What a payload that holds the value `v` brings.
pub open spec fn value_batch(d: DecoderV, v: JsonV) -> Option<BatchV> {
    match delta_of(v) {
        Some(delta) => Some(
            BatchV::Events(text_events(delta) + calls_events(with_usage(d, v), call_pieces(delta))),
        ),
        None => None,
    }
}

pub open spec fn is_done(data: Seq<char>) -> bool {
    text::trim(data) == "[DONE]"@
}

pub open spec fn after_payload(d: DecoderV, data: Seq<char>) -> DecoderV {
    if is_done(data) {
        d
    } else {
        match json::json_value(text::trim(data)) {
            Some(v) => after_value(d, v),
            None => d,
        }
    }
}

pub open spec fn payload_batch(d: DecoderV, data: Seq<char>) -> Option<BatchV> {
    if is_done(data) {
        Some(BatchV::Done)
    } else {
        match json::json_value(text::trim(data)) {
            Some(v) => value_batch(d, v),
            None => None,
        }
    }
}

/// One `ToolCallEnd` for each call under way.
pub open spec fn end_events(p: Seq<PendingV>) -> Seq<DriverEventV> {
    p.map_values(|x: PendingV| DriverEventV::ToolCallEnd(x.call))
}

fn tokens_of(a: Option<&Json>, b: Option<&Json>) -> (r: u32)
    ensures
        r == tokens(json::opt_view(a), json::opt_view(b)),
{
    match json::u64_in(a) {
        Some(n) => #[verifier::truncate] (n as u32),
        None => match json::u64_in(b) {
            Some(n) => #[verifier::truncate] (n as u32),
            None => 0,
        },
    }
}

fn usage_of(u: &Json) -> (r: Usage)
    ensures
        r == usage_in(u@),
{
    Usage {
        input_tokens: tokens_of(u.get("prompt_tokens"), u.get("input_tokens")),
        output_tokens: tokens_of(u.get("completion_tokens"), u.get("output_tokens")),
        cache_read_tokens: tokens_of(
            json::get_in(u.get("prompt_tokens_details"), "cached_tokens"),
            u.get("cache_read_input_tokens"),
        ),
        cache_creation_tokens: tokens_of(u.get("cache_creation_input_tokens"), None),
    }
}

fn first_delta(v: &Json) -> (r: Option<&Json>)
    ensures
        json::opt_view(r) == delta_of(v@),
{
    match v.get("choices") {
        Some(c) => match c.as_array() {
            Some(items) => {
                proof {
                    json::lemma_items(items@);
                }
                if items.len() > 0 {
                    items[0].get("delta")
                } else {
                    None
                }
            },
            None => None,
        },
        None => None,
    }
}

impl SseDecoder {
    pub open spec fn wf(&self) -> bool {
        ordered(self@.calls)
    }

    pub fn new() -> (r: SseDecoder)
        ensures
            r.wf(),
            r@ == fresh_decoder(),
    {
        let d = SseDecoder {
            tool_state: Vec::new(),
            announced: Vec::new(),
            spent: Usage::default(),
        };
        assert(d@ =~= fresh_decoder());
        d
    }

    pub fn usage(&self) -> (r: &Usage)
        ensures
            *r == self@.usage,
    {
        &self.spent
    }

    /// Emits a `ToolCallEnd` for every tool call that never completed.
    pub fn finish(&mut self) -> (r: Vec<DriverEvent>)
        requires
            old(self).wf(),
        ensures
            final(self).wf(),
            event_views(r@) == end_events(old(self)@.calls),
            final(self)@ == (DecoderV { calls: seq![], ..old(self)@ }),
    {
        let mut out: Vec<DriverEvent> = Vec::new();
        let ghost before = self.tool_state@;
        let mut i: usize = 0;
        while i < self.tool_state.len()
            invariant
                i <= self.tool_state@.len(),
                self.tool_state@ == before,
                *self == *old(self),
                event_views(out@) == end_events(pending_views(before)).take(i as int),
            decreases self.tool_state@.len() - i,
        {
            let e = DriverEvent::ToolCallEnd(self.tool_state[i].call.copy());
            let ghost had = out@;
            out.push(e);
            i = i + 1;
            assert(event_views(out@) =~= event_views(had).push(e@));
            assert(event_views(out@) =~= end_events(pending_views(before)).take(i as int));
        }
        assert(end_events(pending_views(before)).take(i as int) =~= end_events(
            pending_views(before),
        ));
        self.tool_state = Vec::new();
        assert(self@.calls =~= seq![]);
        out
    }

    fn find(&self, index: usize) -> (r: usize)
        requires
            self.wf(),
        ensures
            r == place(self@.calls, index),
    {
        let ghost p = self@.calls;
        let mut i: usize = 0;
        assert(p.skip(0) =~= p);
        while i < self.tool_state.len() && self.tool_state[i].index < index
            invariant
                i <= self.tool_state@.len(),
                p == pending_views(self.tool_state@),
                place(p, index) == i + place(p.skip(i as int), index),
            decreases self.tool_state@.len() - i,
        {
            assert(p.skip(i as int)[0] == p[i as int]);
            assert(p.skip(i as int).skip(1) =~= p.skip(i as int + 1));
            i = i + 1;
        }
        assert(i < p.len() ==> p.skip(i as int)[0] == p[i as int]);
        i
    }

    /// Takes in one piece of a tool call.
    fn take_call(&mut self, c: &Json, events: &mut Vec<DriverEvent>)
        requires
            old(self).wf(),
        ensures
            final(self).wf(),
            final(self)@ == with_call(old(self)@, c@),
            event_views(final(events)@) == event_views(old(events)@) + call_events(old(self)@, c@),
    {
        let ghost d = self@;
        let index: usize = match json::u64_in(c.get("index")) {
            Some(n) => #[verifier::truncate] (n as usize),
            None => 0,
        };
        let at: usize = self.find(index);
        proof {
            lemma_place(d.calls, index);
        }
        let known: bool = at < self.tool_state.len() && self.tool_state[at].index == index;
        let mut call = if known {
            self.tool_state[at].call.copy()
        } else {
            DriverToolCall { id: String::new(), name: String::new(), arguments: String::new() }
        };
        let ghost was = call@;
        assert(known == is_known(d.calls, index));
        assert(!known ==> was =~= CallV { id: seq![], name: seq![], arguments: seq![] });
        let function = c.get("function");
        if let Some(id) = json::str_in(c.get("id")) {
            call.id = text::owned(id);
        }
        if let Some(name) = json::str_in(json::get_in(function, "name")) {
            call.name = text::owned(name);
        }
        assert(call@ =~= identified(d.calls, c@));
        if !holds(&self.announced, index) && !call.id.as_str().is_empty()
            && !call.name.as_str().is_empty() {
            self.announced.push(index);
            let e = DriverEvent::ToolCallStart(call.copy());
            let ghost had = events@;
            events.push(e);
            assert(event_views(events@) =~= event_views(had) + seq![e@]);
        } else {
            assert(event_views(events@) + seq![] =~= event_views(events@));
        }
        let more = json::string_in(json::get_in(function, "arguments"));
        call.arguments.append(more.as_str());
        let ghost whole = call@;
        let it = Pending { index, call };
        let ghost had = self.tool_state@;
        if known {
            self.tool_state.set(at, it);
            assert(pending_views(self.tool_state@) =~= put(d.calls, index, whole));
        } else {
            self.tool_state.insert(at, it);
            assert(pending_views(self.tool_state@) =~= put(d.calls, index, whole));
        }
        proof {
            lemma_put_ordered(d.calls, index, whole);
        }
    }

    /// Takes in a payload that holds the value `v`.
    pub fn decode_value(&mut self, v: &Json) -> (r: Option<SseEventBatch>)
        requires
            old(self).wf(),
        ensures
            final(self).wf(),
            final(self)@ == after_value(old(self)@, v@),
            batch_view(r) == value_batch(old(self)@, v@),
    {
        if let Some(u) = v.get("usage") {
            self.spent = usage_of(u);
        }
        let ghost d = self@;
        assert(d =~= with_usage(old(self)@, v@));
        let delta = match first_delta(v) {
            Some(delta) => delta,
            None => {
                return None;
            },
        };
        let mut events: Vec<DriverEvent> = Vec::new();
        if let Some(s) = json::str_in(delta.get("content")) {
            events.push(DriverEvent::Text(text::owned(s)));
        }
        if let Some(s) = json::str_in(delta.get("reasoning_content")) {
            events.push(DriverEvent::Thinking(text::owned(s)));
        }
        assert(event_views(events@) =~= text_events(delta@));
        let ghost first = event_views(events@);
        let ghost pieces = call_pieces(delta@);
        if let Some(list) = delta.get("tool_calls") {
            if let Some(items) = list.as_array() {
                proof {
                    json::lemma_items(items@);
                }
                let mut i: usize = 0;
                assert(pieces.take(0) =~= seq![]);
                assert(first + seq![] =~= first);
                while i < items.len()
                    invariant
                        self.wf(),
                        i <= items@.len(),
                        pieces == json::items_view(items@),
                        pieces.len() == items@.len(),
                        forall|k: int|
                            0 <= k < items@.len() ==> #[trigger] pieces[k] == json::json_view(items@[k]),
                        self@ == with_calls(d, pieces.take(i as int)),
                        event_views(events@) == first + calls_events(d, pieces.take(i as int)),
                    decreases items@.len() - i,
                {
                    let ghost now = self@;
                    self.take_call(&items[i], &mut events);
                    assert(pieces.take(i as int + 1).drop_last() =~= pieces.take(i as int));
                    assert(pieces.take(i as int + 1).last() == pieces[i as int]);
                    assert(event_views(events@) =~= first + calls_events(
                        d,
                        pieces.take(i as int + 1),
                    ));
                    i = i + 1;
                }
                assert(pieces.take(i as int) =~= pieces);
            }
        }
        assert(event_views(events@) =~= first + calls_events(d, pieces));
        Some(SseEventBatch::Events(events))
    }

    /// Decodes one payload. Gives `None` for what carries no event, such as a
    /// keep-alive or malformed JSON.
    pub fn decode(&mut self, data: &str) -> (r: Option<SseEventBatch>)
        requires
            old(self).wf(),
        ensures
            final(self).wf(),
            final(self)@ == after_payload(old(self)@, data@),
            batch_view(r) == payload_batch(old(self)@, data@),
    {
        let data = text::trimmed(data);
        if text::same(data.as_str(), "[DONE]") {
            return Some(SseEventBatch::Done);
        }
        match json::parse(data.as_str()) {
            Ok(v) => self.decode_value(&v),
            Err(_) => None,
        }
    }
}

impl Default for SseDecoder {
    fn default() -> (r: SseDecoder)
        ensures
            r.wf(),
            r@ == fresh_decoder(),
    {
        SseDecoder::new()
    }
}

fn holds(v: &Vec<usize>, x: usize) -> (r: bool)
    ensures
        r == v@.contains(x),
{
    let mut i: usize = 0;
    while i < v.len()
        invariant
            i <= v@.len(),
            forall|k: int| 0 <= k < i ==> v@[k] != x,
        decreases v@.len() - i,
    {
        if v[i] == x {
            return true;
        }
        i = i + 1;
    }
    false
}

proof fn lemma_put_ordered(p: Seq<PendingV>, index: usize, call: CallV)
    requires
        ordered(p),
    ensures
        ordered(put(p, index, call)),
{
    lemma_place(p, index);
    let at = place(p, index);
    let q = put(p, index, call);
    assert forall|i: int, j: int| 0 <= i < j < q.len() implies (#[trigger] q[i]).index < (
    #[trigger] q[j]).index by {
        if is_known(p, index) {
            assert(p[i].index < p[j].index);
        } else {
            let a = if i < at {
                i
            } else {
                i - 1
            };
            let b = if j < at {
                j
            } else {
                j - 1
            };
            if i != at && j != at {
                assert(p[a].index < p[b].index);
            } else if j == at {
                assert(p[a].index < index);
            } else if at < p.len() {
                if b > at {
                    assert(p[at].index < p[b].index);
                }
            }
        }
    }
}

// ---- laws ----

/// Consumers never see an announced call without an id or a name.
pub proof fn announced_calls_have_an_identity(d: DecoderV, cs: Seq<JsonV>, k: int)
    requires
        0 <= k < calls_events(d, cs).len(),
    ensures
        match calls_events(d, cs)[k] {
            DriverEventV::ToolCallStart(c) => c.id.len() > 0 && c.name.len() > 0,
            _ => false,
        },
    decreases cs.len(),
{
    if cs.len() > 0 {
        let p = cs.drop_last();
        if k < calls_events(d, p).len() {
            announced_calls_have_an_identity(d, p, k);
        }
    }
}

pub open spec fn once(s: Seq<usize>) -> bool {
    forall|i: int, j: int| 0 <= i < j < s.len() ==> s[i] != s[j]
}

/// Each index is announced at most once in a stream, and there is one event for
/// each index that is announced.
pub proof fn calls_are_announced_once(d: DecoderV, cs: Seq<JsonV>)
    requires
        once(d.announced),
    ensures
        once(with_calls(d, cs).announced),
        with_calls(d, cs).announced.len() == d.announced.len() + calls_events(d, cs).len(),
    decreases cs.len(),
{
    if cs.len() > 0 {
        calls_are_announced_once(d, cs.drop_last());
    }
}

/// The calls under way keep the order of their indices, so they end in that order.
pub proof fn calls_stay_ordered(d: DecoderV, cs: Seq<JsonV>)
    requires
        ordered(d.calls),
    ensures
        ordered(with_calls(d, cs).calls),
    decreases cs.len(),
{
    if cs.len() > 0 {
        let p = with_calls(d, cs.drop_last());
        calls_stay_ordered(d, cs.drop_last());
        let c = cs.last();
        let call = identified(p.calls, c);
        let more = json::text_or_empty(json::field_of(json::field(c, "function"@), "arguments"@));
        lemma_put_ordered(
            p.calls,
            call_index(c),
            CallV { arguments: call.arguments + more, ..call },
        );
    }
}

/// The arguments of a call are the pieces of it put together: one more piece
/// adds its text behind what was there, and touches no other call.
pub proof fn arguments_accumulate(d: DecoderV, c: JsonV, other: usize)
    requires
        ordered(d.calls),
        is_known(d.calls, call_index(c)),
    ensures
        is_known(with_call(d, c).calls, call_index(c)),
        with_call(d, c).calls[place(with_call(d, c).calls, call_index(c))].call.arguments
            == d.calls[place(d.calls, call_index(c))].call.arguments + json::text_or_empty(
            json::field_of(json::field(c, "function"@), "arguments"@),
        ),
        other != call_index(c) && is_known(d.calls, other) ==> is_known(
            with_call(d, c).calls,
            other,
        ) && with_call(d, c).calls[place(with_call(d, c).calls, other)] == d.calls[place(
            d.calls,
            other,
        )],
{
    let i = call_index(c);
    let q = with_call(d, c).calls;
    lemma_place(d.calls, i);
    lemma_place(d.calls, other);
    lemma_same_places(d.calls, q, i);
    lemma_same_places(d.calls, q, other);
}

proof fn lemma_same_places(p: Seq<PendingV>, q: Seq<PendingV>, index: usize)
    requires
        p.len() == q.len(),
        forall|k: int| 0 <= k < p.len() ==> (#[trigger] p[k]).index == (#[trigger] q[k]).index,
    ensures
        place(p, index) == place(q, index),
    decreases p.len(),
{
    if p.len() > 0 && p[0].index < index {
        let a = p.skip(1);
        let b = q.skip(1);
        assert forall|k: int| 0 <= k < a.len() implies (#[trigger] a[k]).index == (
        #[trigger] b[k]).index by {
            assert(p[k + 1].index == q[k + 1].index);
        }
        lemma_same_places(a, b, index);
    }
}

/// A call that is under way keeps its id and its name where a piece brings no others.
pub proof fn a_call_keeps_its_identity(d: DecoderV, c: JsonV)
    requires
        ordered(d.calls),
        is_known(d.calls, call_index(c)),
    ensures
        ({
            let was = d.calls[place(d.calls, call_index(c))].call;
            let now = with_call(d, c).calls[place(with_call(d, c).calls, call_index(c))].call;
            let called = json::field(c, "function"@);
            &&& json::field(c, "id"@) is None ==> now.id == was.id
            &&& called is None ==> now.name == was.name
            &&& json::field_of(called, "name"@) is None ==> now.name == was.name
            &&& json::field(c, "id"@) matches Some(JsonV::Str(id)) ==> now.id == id
            &&& json::field_of(called, "name"@) matches Some(JsonV::Str(name)) ==> now.name == name
        }),
{
    let i = call_index(c);
    let q = with_call(d, c).calls;
    lemma_place(d.calls, i);
    lemma_same_places(d.calls, q, i);
}

/// The first piece of a call begins it with what the piece brings, among the others in
/// the place of its index.
pub proof fn a_first_piece_begins_a_call(d: DecoderV, c: JsonV, f: JsonV)
    requires
        ordered(d.calls),
        !is_known(d.calls, call_index(c)),
        json::field(c, "function"@) == Some(f),
    ensures
        ({
            let q = with_call(d, c).calls;
            let at = place(d.calls, call_index(c));
            let now = q[at].call;
            &&& q.len() == d.calls.len() + 1
            &&& q[at].index == call_index(c)
            &&& q.remove(at) == d.calls
            &&& json::field(c, "id"@) matches Some(JsonV::Str(id)) ==> now.id == id
            &&& json::field(f, "name"@) matches Some(JsonV::Str(name)) ==> now.name == name
            &&& json::field(f, "arguments"@) matches Some(JsonV::Str(a)) ==> now.arguments == a
            &&& json::field(f, "arguments"@) is None ==> now.arguments.len() == 0
        }),
{
    let at = place(d.calls, call_index(c));
    lemma_place(d.calls, call_index(c));
    let q = with_call(d, c).calls;
    assert(q.remove(at) =~= d.calls);
    if let Some(JsonV::Str(a)) = json::field(f, "arguments"@) {
        assert(Seq::<char>::empty() + a =~= a);
    }
}

/// Each piece of a call is told in its turn, the first time that its call has an id and
/// a name, with both of them.
pub proof fn calls_are_told_in_order(d: DecoderV, cs: Seq<JsonV>, c: JsonV)
    ensures
        calls_events(d, seq![]).len() == 0,
        ({
            let before = with_calls(d, cs);
            let call = with_call(before, c).calls[place(before.calls, call_index(c))].call;
            let told = calls_events(d, cs.push(c));
            let first = !before.announced.contains(call_index(c)) && call.id.len() > 0
                && call.name.len() > 0;
            &&& with_calls(d, cs.push(c)) == with_call(before, c)
            &&& told.take(calls_events(d, cs).len() as int) == calls_events(d, cs)
            &&& told.len() == calls_events(d, cs).len() + if first {
                1int
            } else {
                0
            }
            &&& first ==> (told.last() matches DriverEventV::ToolCallStart(x) && x.id == call.id
                && x.name == call.name)
        }),
{
    let before = with_calls(d, cs);
    assert(cs.push(c).drop_last() =~= cs);
    lemma_place(before.calls, call_index(c));
    let told = calls_events(d, cs.push(c));
    assert(told.take(calls_events(d, cs).len() as int) =~= calls_events(d, cs));
}

} // verus!
