//! What an agent asks of its host: language model streams and events.
use crate::host::drivers::{
    self, CallV, DriverError, DriverErrorV, DriverEvent, DriverEventV, DriverMessage,
    DriverToolCall, DriverToolDef, LlmRequest, MessageV, RequestV, ToolDefV, Usage,
};
use crate::host::hub::{self, Hub};
use crate::host::tools::{self, ToolDefinition};
use crate::json::{self, Json, JsonV, Number, NumberV};
use crate::text;
use std::collections::HashMap;
use vstd::prelude::*;

verus! {

broadcast use {crate::text::views_push, vstd::std_specs::hash::group_hash_axioms};

// ---- errors ----

/// Why a stream failed, as an agent is told.
#[derive(Debug, PartialEq)]
pub enum LlmError {
    Network,
    Auth,
    RateLimited,
    Timeout,
    Cancelled,
    Internal(String),
}

pub enum LlmErrorV {
    Network,
    Auth,
    RateLimited,
    Timeout,
    Cancelled,
    Internal(Seq<char>),
}

impl View for LlmError {
    type V = LlmErrorV;

    open spec fn view(&self) -> LlmErrorV {
        match self {
            LlmError::Network => LlmErrorV::Network,
            LlmError::Auth => LlmErrorV::Auth,
            LlmError::RateLimited => LlmErrorV::RateLimited,
            LlmError::Timeout => LlmErrorV::Timeout,
            LlmError::Cancelled => LlmErrorV::Cancelled,
            LlmError::Internal(m) => LlmErrorV::Internal(m@),
        }
    }
}

/// The driver's failure, with its explanation.
pub open spec fn llm_error(e: DriverErrorV) -> LlmErrorV {
    match e {
        DriverErrorV::Network => LlmErrorV::Network,
        DriverErrorV::Auth => LlmErrorV::Auth,
        DriverErrorV::RateLimited => LlmErrorV::RateLimited,
        DriverErrorV::Timeout => LlmErrorV::Timeout,
        DriverErrorV::Cancelled => LlmErrorV::Cancelled,
        DriverErrorV::Internal(m) => LlmErrorV::Internal(m),
    }
}

pub fn to_llm_error(err: DriverError) -> (r: LlmError)
    ensures
        r@ == llm_error(err@),
{
    match err {
        DriverError::Network => LlmError::Network,
        DriverError::Auth => LlmError::Auth,
        DriverError::RateLimited => LlmError::RateLimited,
        DriverError::Timeout => LlmError::Timeout,
        DriverError::Cancelled => LlmError::Cancelled,
        DriverError::Internal(m) => LlmError::Internal(m),
    }
}

// ---- requests ----

/// The provider and the model of `provider/model`; neither may be empty.
pub open spec fn model_parts(s: Seq<char>) -> Option<(Seq<char>, Seq<char>)> {
    let i = text::index_from(s, '/', 0);
    if 0 < i < s.len() - 1 {
        Some((s.take(i), s.skip(i + 1)))
    } else {
        None
    }
}

pub open spec fn pair_view(p: Option<(String, String)>) -> Option<(Seq<char>, Seq<char>)> {
    match p {
        Some((a, b)) => Some((a@, b@)),
        None => None,
    }
}

pub fn resolve_model(model: &str) -> (r: Option<(String, String)>)
    ensures
        pair_view(r) == model_parts(model@),
{
    let v = text::chars_of(model);
    let n: usize = v.len();
    let i: usize = text::find_from(&v, '/', 0);
    if 0 < i && i < n && i + 1 < n {
        let provider = text::string_of(&v, 0, i);
        let rest = text::string_of(&v, i + 1, n);
        assert(provider@ =~= model@.take(i as int));
        assert(rest@ =~= model@.skip(i as int + 1));
        Some((provider, rest))
    } else {
        None
    }
}

/// A request as an agent makes it.
pub struct Request {
    pub session_id: String,
    pub model: String,
    pub messages: Vec<DriverMessage>,
    pub system_prompt: Option<String>,
    pub tools: Vec<ToolDefinition>,
    pub temperature: Option<Number>,
    pub max_tokens: Option<u32>,
}

pub struct AskV {
    pub session_id: Seq<char>,
    pub model: Seq<char>,
    pub messages: Seq<MessageV>,
    pub system_prompt: Option<Seq<char>>,
    pub tools: Seq<tools::DefinitionV>,
    pub temperature: Option<NumberV>,
    pub max_tokens: Option<u32>,
}

impl View for Request {
    type V = AskV;

    open spec fn view(&self) -> AskV {
        AskV {
            session_id: self.session_id@,
            model: self.model@,
            messages: drivers::message_views(self.messages@),
            system_prompt: text::opt_text(self.system_prompt),
            tools: tools::definition_views(self.tools@),
            temperature: drivers::number_view(self.temperature),
            max_tokens: self.max_tokens,
        }
    }
}

/// The tool's parameters as a value; null where their text is no JSON.
pub open spec fn tool_def(d: tools::DefinitionV) -> ToolDefV {
    ToolDefV {
        name: d.name,
        description: d.description,
        parameters: match json::json_value(d.parameters_json) {
            Some(v) => v,
            None => JsonV::Null,
        },
    }
}

/// What the driver is asked for `model`.
pub open spec fn driver_request(a: AskV, model: Seq<char>) -> RequestV {
    RequestV {
        model,
        messages: a.messages,
        system_prompt: a.system_prompt,
        tools: a.tools.map_values(|d: tools::DefinitionV| tool_def(d)),
        temperature: a.temperature,
        max_tokens: a.max_tokens,
    }
}

fn tool_defs(v: &Vec<ToolDefinition>) -> (r: Vec<DriverToolDef>)
    ensures
        drivers::tool_views(r@) == tools::definition_views(v@).map_values(
            |d: tools::DefinitionV| tool_def(d),
        ),
{
    let ghost all = tools::definition_views(v@).map_values(|d: tools::DefinitionV| tool_def(d));
    let mut out: Vec<DriverToolDef> = Vec::new();
    let mut i: usize = 0;
    while i < v.len()
        invariant
            i <= v@.len(),
            all == tools::definition_views(v@).map_values(|d: tools::DefinitionV| tool_def(d)),
            drivers::tool_views(out@) == all.take(i as int),
        decreases v@.len() - i,
    {
        let parameters = match json::parse(v[i].parameters_json.as_str()) {
            Ok(j) => j,
            Err(_) => Json::Null,
        };
        let d = DriverToolDef {
            name: v[i].name.clone(),
            description: v[i].description.clone(),
            parameters,
        };
        assert(d@ == all[i as int]);
        out.push(d);
        i = i + 1;
        assert(drivers::tool_views(out@) =~= all.take(i as int));
    }
    assert(all.take(i as int) =~= all);
    out
}

// ---- streams ----

/// One piece of an answer, as an agent gets it.
#[derive(Debug)]
pub struct Chunk {
    pub text: Option<String>,
    pub thinking: Option<String>,
    pub tool_call_start: Option<DriverToolCall>,
    pub tool_call_end: Option<DriverToolCall>,
}

pub struct ChunkV {
    pub text: Option<Seq<char>>,
    pub thinking: Option<Seq<char>>,
    pub tool_call_start: Option<CallV>,
    pub tool_call_end: Option<CallV>,
}

pub open spec fn call_view(c: Option<DriverToolCall>) -> Option<CallV> {
    match c {
        Some(x) => Some(x@),
        None => None,
    }
}

impl View for Chunk {
    type V = ChunkV;

    open spec fn view(&self) -> ChunkV {
        ChunkV {
            text: text::opt_text(self.text),
            thinking: text::opt_text(self.thinking),
            tool_call_start: call_view(self.tool_call_start),
            tool_call_end: call_view(self.tool_call_end),
        }
    }
}

pub open spec fn no_chunk() -> ChunkV {
    ChunkV { text: None, thinking: None, tool_call_start: None, tool_call_end: None }
}

/// A stream under way: the events that came and were not yet taken, whether the
/// driver is finished and what it spent.
pub struct StreamHandle {
    pub pending: Vec<DriverEvent>,
    pub finished: bool,
    pub usage: Option<Usage>,
}

pub struct StreamV {
    pub pending: Seq<DriverEventV>,
    pub finished: bool,
    pub usage: Option<Usage>,
}

impl View for StreamHandle {
    type V = StreamV;

    open spec fn view(&self) -> StreamV {
        StreamV {
            pending: drivers::event_views(self.pending@),
            finished: self.finished,
            usage: self.usage,
        }
    }
}

/// What the next event of a stream comes to.
pub enum Next {
    /// Nothing has come yet.
    Wait,
    /// The stream is over.
    End,
    Chunk(Chunk),
    Failed(LlmError),
}

pub enum NextV {
    Wait,
    End,
    Chunk(ChunkV),
    Failed(LlmErrorV),
}

impl View for Next {
    type V = NextV;

    open spec fn view(&self) -> NextV {
        match self {
            Next::Wait => NextV::Wait,
            Next::End => NextV::End,
            Next::Chunk(c) => NextV::Chunk(c@),
            Next::Failed(e) => NextV::Failed(e@),
        }
    }
}

/// A text or thinking event without text.
pub open spec fn is_blank(e: DriverEventV) -> bool {
    match e {
        DriverEventV::Text(t) => t.len() == 0,
        DriverEventV::Thinking(t) => t.len() == 0,
        _ => false,
    }
}

/// The events from the first that is not blank.
pub open spec fn unblanked(p: Seq<DriverEventV>) -> Seq<DriverEventV>
    decreases p.len(),
{
    if p.len() > 0 && is_blank(p[0]) {
        unblanked(p.skip(1))
    } else {
        p
    }
}

pub open spec fn told(e: DriverEventV) -> NextV {
    match e {
        DriverEventV::Text(t) => NextV::Chunk(ChunkV { text: Some(t), ..no_chunk() }),
        DriverEventV::Thinking(t) => NextV::Chunk(ChunkV { thinking: Some(t), ..no_chunk() }),
        DriverEventV::ToolCallStart(c) => NextV::Chunk(
            ChunkV { tool_call_start: Some(c), ..no_chunk() },
        ),
        DriverEventV::ToolCallEnd(c) => NextV::Chunk(
            ChunkV { tool_call_end: Some(c), ..no_chunk() },
        ),
        DriverEventV::Failed(e) => NextV::Failed(llm_error(e)),
    }
}

/// The next of a stream and what is left after it.
pub open spec fn next_of(s: StreamV) -> (NextV, StreamV) {
    let p = unblanked(s.pending);
    if p.len() == 0 {
        (
            if s.finished {
                NextV::End
            } else {
                NextV::Wait
            },
            StreamV { pending: p, ..s },
        )
    } else {
        (told(p[0]), StreamV { pending: p.skip(1), ..s })
    }
}

fn tell(e: DriverEvent) -> (r: Next)
    ensures
        r@ == told(e@),
{
    let blank = Chunk { text: None, thinking: None, tool_call_start: None, tool_call_end: None };
    match e {
        DriverEvent::Text(t) => Next::Chunk(Chunk { text: Some(t), ..blank }),
        DriverEvent::Thinking(t) => Next::Chunk(Chunk { thinking: Some(t), ..blank }),
        DriverEvent::ToolCallStart(c) => Next::Chunk(Chunk { tool_call_start: Some(c), ..blank }),
        DriverEvent::ToolCallEnd(c) => Next::Chunk(Chunk { tool_call_end: Some(c), ..blank }),
        DriverEvent::Failed(e) => Next::Failed(to_llm_error(e)),
    }
}

fn blank(e: &DriverEvent) -> (r: bool)
    ensures
        r == is_blank(e@),
{
    match e {
        DriverEvent::Text(t) => t.as_str().is_empty(),
        DriverEvent::Thinking(t) => t.as_str().is_empty(),
        _ => false,
    }
}

impl StreamHandle {
    pub fn new() -> (r: StreamHandle)
        ensures
            r@ == (StreamV { pending: seq![], finished: false, usage: None }),
    {
        let s = StreamHandle { pending: Vec::new(), finished: false, usage: None };
        assert(s@.pending =~= seq![]);
        s
    }

    /// Takes the next event. Empty text and thinking is passed over, so that an
    /// agent never sees an empty chunk.
    pub fn next(&mut self) -> (r: Next)
        ensures
            (r@, final(self)@) == next_of(old(self)@),
    {
        let ghost whole = self@.pending;
        while self.pending.len() > 0 && blank(&self.pending[0])
            invariant
                unblanked(drivers::event_views(self.pending@)) == unblanked(whole),
                self.finished == old(self).finished,
                self.usage == old(self).usage,
            decreases self.pending@.len(),
        {
            let ghost had = self.pending@;
            let _ = self.pending.remove(0);
            assert(drivers::event_views(self.pending@) =~= drivers::event_views(had).skip(1));
        }
        assert(self.pending@.len() > 0 ==> drivers::event_views(self.pending@)[0]
            == self.pending@[0]@);
        if self.pending.len() == 0 {
            if self.finished {
                Next::End
            } else {
                Next::Wait
            }
        } else {
            let ghost had = self.pending@;
            let e = self.pending.remove(0);
            assert(drivers::event_views(self.pending@) =~= drivers::event_views(had).skip(1));
            tell(e)
        }
    }
}

/// A request that may go to its driver.
pub struct Started {
    pub handle: u64,
    pub provider: String,
    pub request: LlmRequest,
}

/// The providers that are configured and the streams under way.
pub struct LlmHost {
    pub drivers: Vec<String>,
    pub streams: HashMap<u64, StreamHandle>,
    pub next_stream_id: u64,
}

pub struct LlmHostV {
    pub drivers: Seq<Seq<char>>,
    pub streams: Map<u64, StreamV>,
    pub next: u64,
}

impl View for LlmHost {
    type V = LlmHostV;

    open spec fn view(&self) -> LlmHostV {
        LlmHostV {
            drivers: text::texts(self.drivers@),
            streams: self.streams@.map_values(|s: StreamHandle| s@),
            next: self.next_stream_id,
        }
    }
}

/// Why a request is refused before it reaches a driver.
pub open spec fn refusal(h: LlmHostV, model: Seq<char>) -> Option<LlmErrorV> {
    match model_parts(model) {
        None => Some(
            LlmErrorV::Internal("model '"@ + model + "' must be in 'provider/model' form"@),
        ),
        Some((provider, _)) => if h.drivers.contains(provider) {
            None
        } else {
            Some(LlmErrorV::Internal("provider '"@ + provider + "' is not configured"@))
        },
    }
}

pub open spec fn fresh_stream() -> StreamV {
    StreamV { pending: seq![], finished: false, usage: None }
}

pub open spec fn unknown_stream() -> LlmErrorV {
    LlmErrorV::Internal("unknown stream handle"@)
}

impl LlmHost {
    pub fn new() -> (r: LlmHost)
        ensures
            r@.drivers == Seq::<Seq<char>>::empty(),
            r@.streams == Map::<u64, StreamV>::empty(),
            r@.next == 0,
    {
        let h = LlmHost { drivers: Vec::new(), streams: HashMap::new(), next_stream_id: 0 };
        assert(h@.drivers =~= Seq::<Seq<char>>::empty());
        assert(h@.streams =~= Map::<u64, StreamV>::empty());
        h
    }

    pub fn has_driver(&self, name: &str) -> (r: bool)
        ensures
            r == self@.drivers.contains(name@),
    {
        let ghost all = self@.drivers;
        let mut i: usize = 0;
        while i < self.drivers.len()
            invariant
                i <= self.drivers@.len(),
                all == text::texts(self.drivers@),
                forall|k: int| 0 <= k < i ==> all[k] != name@,
            decreases self.drivers@.len() - i,
        {
            assert(all[i as int] == self.drivers@[i as int]@);
            if text::same(self.drivers[i].as_str(), name) {
                return true;
            }
            i = i + 1;
        }
        false
    }

    /// Makes a driver known; one of that name stays known.
    pub fn register_driver(&mut self, name: &str)
        ensures
            final(self)@.streams == old(self)@.streams,
            final(self)@.next == old(self)@.next,
            forall|n: Seq<char>| #[trigger]
                final(self)@.drivers.contains(n) <==> old(self)@.drivers.contains(n) || n == name@,
    {
        let ghost before = self@.drivers;
        if !self.has_driver(name) {
            self.drivers.push(text::owned(name));
            let ghost after = self@.drivers;
            assert(after =~= before.push(name@));
            assert forall|n: Seq<char>| #[trigger] after.contains(n) <==> before.contains(n) || n
                == name@ by {
                if before.contains(n) {
                    let i = choose|i: int| 0 <= i < before.len() && before[i] == n;
                    assert(after[i] == n);
                }
                if n == name@ {
                    assert(after[before.len() as int] == n);
                }
            }
        }
    }

    /// Forgets a driver; whether it was known.
    pub fn remove_driver(&mut self, name: &str) -> (r: bool)
        ensures
            r == old(self)@.drivers.contains(name@),
            final(self)@.streams == old(self)@.streams,
            final(self)@.next == old(self)@.next,
            forall|n: Seq<char>| #[trigger]
                final(self)@.drivers.contains(n) <==> old(self)@.drivers.contains(n) && n != name@,
    {
        let ghost before = self@.drivers;
        let found: bool = self.has_driver(name);
        let mut left: Vec<String> = Vec::new();
        let mut i: usize = 0;
        while i < self.drivers.len()
            invariant
                *self == *old(self),
                i <= self.drivers@.len(),
                before == text::texts(self.drivers@),
                forall|k: int|
                    0 <= k < left@.len() ==> (#[trigger] left@[k])@ != name@ && before.contains(
                        left@[k]@,
                    ),
                forall|k: int|
                    0 <= k < i && before[k] != name@ ==> text::texts(left@).contains(
                        #[trigger] before[k],
                    ),
            decreases self.drivers@.len() - i,
        {
            assert(before[i as int] == self.drivers@[i as int]@);
            if !text::same(self.drivers[i].as_str(), name) {
                let ghost had = left@;
                left.push(self.drivers[i].clone());
                assert(text::texts(left@) =~= text::texts(had).push(before[i as int]));
                assert forall|k: int| 0 <= k < i + 1 && before[k] != name@ implies text::texts(
                    left@,
                ).contains(#[trigger] before[k]) by {
                    if k < i {
                        let j = choose|j: int|
                            0 <= j < text::texts(had).len() && text::texts(had)[j] == before[k];
                        assert(text::texts(left@)[j] == before[k]);
                    } else {
                        assert(text::texts(left@)[had.len() as int] == before[k]);
                    }
                }
            }
            i = i + 1;
        }
        self.drivers = left;
        let ghost after = self@.drivers;
        assert forall|n: Seq<char>| #[trigger] after.contains(n) implies before.contains(n) && n
            != name@ by {
            let k = choose|k: int| 0 <= k < after.len() && after[k] == n;
            assert(after[k] == left@[k]@);
        }
        found
    }

    /// Opens a stream for a request to a known provider.
    pub fn stream_start(&mut self, request: Request) -> (r: Result<Started, LlmError>)
        requires
            old(self)@.next < u64::MAX,
        ensures
            final(self)@.drivers == old(self)@.drivers,
            match r {
                Ok(s) => {
                    &&& refusal(old(self)@, request@.model) is None
                    &&& model_parts(request@.model) == Some((s.provider@, s.request@.model))
                    &&& s.request@ == driver_request(request@, s.request@.model)
                    &&& s.handle == old(self)@.next
                    &&& final(self)@.next == old(self)@.next + 1
                    &&& final(self)@.streams == old(self)@.streams.insert(s.handle, fresh_stream())
                },
                Err(e) => refusal(old(self)@, request@.model) == Some(e@) && *final(self) == *old(
                    self,
                ),
            },
    {
        let (provider, model) = match resolve_model(request.model.as_str()) {
            Some(p) => p,
            None => {
                return Err(
                    LlmError::Internal(
                        text::owned("model '").concat(request.model.as_str()).concat(
                            "' must be in 'provider/model' form",
                        ),
                    ),
                );
            },
        };
        if !self.has_driver(provider.as_str()) {
            return Err(
                LlmError::Internal(
                    text::owned("provider '").concat(provider.as_str()).concat(
                        "' is not configured",
                    ),
                ),
            );
        }
        let ghost before = self@.streams;
        let handle: u64 = self.next_stream_id;
        self.next_stream_id = handle + 1;
        let tools = tool_defs(&request.tools);
        let llm_request = LlmRequest {
            model,
            messages: request.messages,
            system_prompt: request.system_prompt,
            tools,
            temperature: request.temperature,
            max_tokens: request.max_tokens,
        };
        self.streams.insert(handle, StreamHandle::new());
        assert(self@.streams =~= before.insert(handle, fresh_stream()));
        Ok(Started { handle, provider, request: llm_request })
    }

    /// Hands an event of the driver to its stream; whether anyone still listens.
    pub fn deliver(&mut self, handle: u64, event: DriverEvent) -> (r: bool)
        ensures
            final(self)@.drivers == old(self)@.drivers,
            final(self)@.next == old(self)@.next,
            r == old(self)@.streams.dom().contains(handle),
            final(self)@.streams == if r {
                old(self)@.streams.insert(
                    handle,
                    StreamV {
                        pending: old(self)@.streams[handle].pending.push(event@),
                        ..old(self)@.streams[handle]
                    },
                )
            } else {
                old(self)@.streams
            },
    {
        let ghost before = self@.streams;
        match self.streams.remove(&handle) {
            Some(s) => {
                let mut s = s;
                let ghost was = s@;
                assert(was == before[handle]);
                s.pending.push(event);
                assert(s@.pending =~= was.pending.push(event@));
                self.streams.insert(handle, s);
                assert(self@.streams =~= before.insert(handle, s@));
                true
            },
            None => {
                assert(self@.streams =~= before);
                false
            },
        }
    }

    /// The driver is finished: what it spent is kept, or its failure is told.
    pub fn settle(&mut self, handle: u64, result: Result<Usage, DriverError>)
        ensures
            final(self)@.drivers == old(self)@.drivers,
            final(self)@.next == old(self)@.next,
            final(self)@.streams == if old(self)@.streams.dom().contains(handle) {
                let s = old(self)@.streams[handle];
                old(self)@.streams.insert(
                    handle,
                    match result {
                        Ok(u) => StreamV { finished: true, usage: Some(u), ..s },
                        Err(e) => StreamV {
                            pending: s.pending.push(DriverEventV::Failed(e@)),
                            finished: true,
                            ..s
                        },
                    },
                )
            } else {
                old(self)@.streams
            },
    {
        let ghost before = self@.streams;
        match self.streams.remove(&handle) {
            Some(s) => {
                let mut s = s;
                let ghost was = s@;
                assert(was == before[handle]);
                s.finished = true;
                match result {
                    Ok(u) => {
                        s.usage = Some(u);
                    },
                    Err(e) => {
                        let ev = DriverEvent::Failed(e);
                        s.pending.push(ev);
                        assert(s@.pending =~= was.pending.push(ev@));
                    },
                }
                self.streams.insert(handle, s);
                assert(self@.streams =~= before.insert(handle, s@));
            },
            None => {
                assert(self@.streams =~= before);
            },
        }
    }

    /// The next piece of a stream.
    pub fn stream_next(&mut self, handle: u64) -> (r: Next)
        ensures
            final(self)@.drivers == old(self)@.drivers,
            final(self)@.next == old(self)@.next,
            if old(self)@.streams.dom().contains(handle) {
                let (n, s) = next_of(old(self)@.streams[handle]);
                r@ == n && final(self)@.streams == old(self)@.streams.insert(handle, s)
            } else {
                r@ == NextV::Failed(unknown_stream()) && final(self)@.streams == old(self)@.streams
            },
    {
        let ghost before = self@.streams;
        match self.streams.remove(&handle) {
            Some(s) => {
                let mut s = s;
                assert(s@ == before[handle]);
                let n = s.next();
                self.streams.insert(handle, s);
                assert(self@.streams =~= before.insert(handle, s@));
                n
            },
            None => {
                assert(self@.streams =~= before);
                Next::Failed(LlmError::Internal(text::owned("unknown stream handle")))
            },
        }
    }

    /// What a stream spent, so far as that is known.
    pub fn stream_usage(&self, handle: u64) -> (r: Result<Usage, LlmError>)
        ensures
            match r {
                Ok(u) => self@.streams.dom().contains(handle) && u
                    == match self@.streams[handle].usage {
                    Some(x) => x,
                    None => drivers::no_usage(),
                },
                Err(e) => !self@.streams.dom().contains(handle) && e@ == unknown_stream(),
            },
    {
        match self.streams.get(&handle) {
            Some(s) => match s.usage {
                Some(u) => Ok(u),
                None => Ok(Usage::default()),
            },
            None => Err(LlmError::Internal(text::owned("unknown stream handle"))),
        }
    }

    /// Forgets a stream.
    pub fn stream_close(&mut self, handle: u64)
        ensures
            final(self)@.drivers == old(self)@.drivers,
            final(self)@.next == old(self)@.next,
            final(self)@.streams == old(self)@.streams.remove(handle),
    {
        let ghost before = self@.streams;
        let _ = self.streams.remove(&handle);
        assert(self@.streams =~= before.remove(handle));
    }
}

// ---- events ----

/// An event reached no one.
#[derive(Debug, Clone, Copy, PartialEq, Eq, Structural)]
pub enum EventError {
    Closed,
}

/// The item that carries an agent's event: its data as one JSON text.
pub fn event_item(kind: String, data: String) -> (r: hub::SseItem)
    ensures
        r.event == kind,
        r.data@ == JsonV::Str(data@),
{
    hub::SseItem { event: kind, data: Json::Str(data) }
}

/// Settles an agent's event, which the streams in `accepted` took.
pub fn emit_event(hub: &mut Hub, session_id: u64, accepted: &Vec<u64>) -> (r: Result<
    (),
    EventError,
>)
    ensures
        final(hub)@ == hub::delivered(old(hub)@, session_id, accepted@),
        r is Ok <==> hub::only(hub::subscribers(old(hub)@, session_id), accepted@).len() > 0,
        r is Err ==> r == Err::<(), EventError>(EventError::Closed),
{
    if hub.send(session_id, accepted) {
        Ok(())
    } else {
        Err(EventError::Closed)
    }
}

/// An agent should stop: it was told to, or no one listens any more.
pub fn cancelled(stop: bool, hub: &Hub, session_id: u64) -> (r: bool)
    ensures
        r == (stop || hub::subscribers(hub@, session_id).len() == 0),
{
    stop || !hub.alive(session_id)
}

// ---- laws ----

/// A model resolves to the parts that its name is made of.
pub proof fn a_model_is_its_parts(s: Seq<char>)
    ensures
        match model_parts(s) {
            Some((p, m)) => p.len() > 0 && m.len() > 0 && !p.contains('/') && s == p + "/"@ + m,
            None => true,
        },
{
    text::lemma_index_from(s, '/', 0);
    reveal_strlit("/");
    if model_parts(s) is Some {
        let i = text::index_from(s, '/', 0);
        assert(s.take(i) + "/"@ + s.skip(i + 1) =~= s);
    }
}

/// A provider without a slash and any model make a name that resolves to them.
pub proof fn parts_make_a_model(p: Seq<char>, m: Seq<char>)
    requires
        p.len() > 0,
        m.len() > 0,
        !p.contains('/'),
    ensures
        model_parts(p + "/"@ + m) == Some((p, m)),
{
    reveal_strlit("/");
    let s = p + "/"@ + m;
    text::lemma_index_from(s, '/', 0);
    let i = text::index_from(s, '/', 0);
    assert(s[p.len() as int] == '/');
    if i < p.len() {
        assert(s[i] == p[i]);
    }
    assert(i == p.len());
    assert(s.take(i) =~= p);
    assert(s.skip(i + 1) =~= m);
}

proof fn lemma_unblanked(p: Seq<DriverEventV>)
    ensures
        unblanked(p).len() > 0 ==> !is_blank(unblanked(p)[0]),
        unblanked(p).len() <= p.len(),
    decreases p.len(),
{
    if p.len() > 0 && is_blank(p[0]) {
        lemma_unblanked(p.skip(1));
    }
}

/// An agent never gets an empty chunk.
pub proof fn no_chunk_is_empty(s: StreamV)
    ensures
        match next_of(s).0 {
            NextV::Chunk(c) => {
                &&& c.text matches Some(t) ==> t.len() > 0
                &&& c.thinking matches Some(t) ==> t.len() > 0
            },
            _ => true,
        },
{
    lemma_unblanked(s.pending);
}

/// Taking from a stream and adding to it do not disturb each other: what is
/// added comes after everything that was there.
pub proof fn events_keep_their_order(s: StreamV, e: DriverEventV)
    requires
        unblanked(s.pending).len() > 0,
    ensures
        ({
            let more = StreamV { pending: s.pending.push(e), ..s };
            let (n, left) = next_of(s);
            next_of(more) == (n, StreamV { pending: left.pending.push(e), ..left })
        }),
{
    lemma_unblanked_push(s.pending, e);
    let p = unblanked(s.pending);
    assert(p.push(e).skip(1) =~= p.skip(1).push(e));
}

proof fn lemma_unblanked_push(p: Seq<DriverEventV>, e: DriverEventV)
    requires
        unblanked(p).len() > 0,
    ensures
        unblanked(p.push(e)) == unblanked(p).push(e),
    decreases p.len(),
{
    if p.len() > 0 && is_blank(p[0]) {
        assert(p.push(e).skip(1) =~= p.skip(1).push(e));
        lemma_unblanked_push(p.skip(1), e);
    }
}

} // verus!
