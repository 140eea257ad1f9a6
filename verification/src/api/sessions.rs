//! Requests about sessions and their sandboxes.
use crate::agent::block::{self, Block, BlockV};
use crate::agent::chat;
use crate::agent::payload;
use crate::agent::session::AgentError;
use crate::api::reply::{self, Reply, ReplyV};
use crate::host::drivers::Usage;
use crate::host::ids;
use crate::host::store::Sandbox;
use crate::json::{self, Json, JsonV, NumberV};
use crate::text;
use vstd::prelude::*;

verus! {

broadcast use crate::text::views_push;

/// A new session: of which agent and, if it is to share one, in which sandbox.
pub struct CreateSessionReq {
    pub agent: String,
    pub sandbox_id: Option<String>,
}

/// A new name or another sandbox for a session. What is missing stays as it is.
pub struct SessionUpdateReq {
    pub name: Option<String>,
    pub sandbox_id: Option<String>,
}

/// A sandbox by its display name.
pub struct SandboxReq {
    pub name: String,
}

/// A live session: the agent version it is pinned to, its name and its sandbox.
#[derive(Debug, PartialEq)]
pub struct SessionEntry {
    pub agent_name: String,
    pub agent_version_id: String,
    pub name: Option<String>,
    pub sandbox_id: String,
    pub updated_at: i64,
}

pub struct EntryV {
    pub agent_name: Seq<char>,
    pub agent_version_id: Seq<char>,
    pub name: Option<Seq<char>>,
    pub sandbox_id: Seq<char>,
    pub updated_at: i64,
}

impl View for SessionEntry {
    type V = EntryV;

    open spec fn view(&self) -> EntryV {
        EntryV {
            agent_name: self.agent_name@,
            agent_version_id: self.agent_version_id@,
            name: text::opt_text(self.name),
            sandbox_id: self.sandbox_id@,
            updated_at: self.updated_at,
        }
    }
}

impl SessionEntry {
    pub fn copy(&self) -> (r: SessionEntry)
        ensures
            r@ == self@,
    {
        SessionEntry {
            agent_name: self.agent_name.clone(),
            agent_version_id: self.agent_version_id.clone(),
            name: text::copy_opt(&self.name),
            sandbox_id: self.sandbox_id.clone(),
            updated_at: self.updated_at,
        }
    }
}

pub open spec fn not_found() -> ReplyV {
    reply::refused(404, "session not found"@)
}

/// The refusal of a session with an agent that no name points to.
pub fn agent_missing() -> (r: Reply)
    ensures
        r@ == reply::refused(404, "unknown agent name"@),
{
    Reply::error(404, "unknown agent name")
}

pub fn session_missing() -> (r: Reply)
    ensures
        r@ == not_found(),
{
    Reply::error(404, "session not found")
}

// ---- the list ----

/// One line of the list of sessions.
pub struct SessionSummary {
    pub id: String,
    pub agent: String,
    pub name: Option<String>,
    pub sandbox_id: String,
}

pub open spec fn summary_value(
    id: Seq<char>,
    agent: Seq<char>,
    name: Option<Seq<char>>,
    sandbox: Seq<char>,
) -> JsonV {
    JsonV::Obj(
        seq![
            ("agent"@, JsonV::Str(agent)),
            ("id"@, JsonV::Str(id)),
            ("name"@, json::opt_string(name)),
            ("sandbox_id"@, JsonV::Str(sandbox)),
        ],
    )
}

impl SessionSummary {
    pub open spec fn value(&self) -> JsonV {
        summary_value(self.id@, self.agent@, text::opt_text(self.name), self.sandbox_id@)
    }

    pub fn to_json(&self) -> (r: Json)
        ensures
            r@ == self.value(),
    {
        json::obj4(
            "agent",
            json::string(self.agent.as_str()),
            "id",
            json::string(self.id.as_str()),
            "name",
            json::string_or_null(&self.name),
            "sandbox_id",
            json::string(self.sandbox_id.as_str()),
        )
    }
}

pub open spec fn summary_values(v: Seq<SessionSummary>) -> Seq<JsonV> {
    v.map_values(|s: SessionSummary| s.value())
}

/// The live sessions, with their number.
pub struct SessionListResponse {
    pub sessions: Vec<SessionSummary>,
    pub total: usize,
}

impl SessionListResponse {
    pub fn to_json(&self) -> (r: Json)
        ensures
            r@ == JsonV::Obj(
                seq![
                    ("sessions"@, JsonV::Arr(summary_values(self.sessions@))),
                    ("total"@, reply::number(self.total as int)),
                ],
            ),
    {
        let ghost all = summary_values(self.sessions@);
        let mut out: Vec<Json> = Vec::new();
        let mut i: usize = 0;
        assert(json::items_view(out@) =~= all.take(0));
        while i < self.sessions.len()
            invariant
                i <= self.sessions@.len(),
                all == summary_values(self.sessions@),
                json::items_view(out@) == all.take(i as int),
            decreases self.sessions@.len() - i,
        {
            let j = self.sessions[i].to_json();
            assert(j@ == all[i as int]);
            proof {
                json::lemma_items_push(out@, j);
            }
            out.push(j);
            i = i + 1;
            assert(json::items_view(out@) =~= all.take(i as int));
        }
        assert(all.take(i as int) =~= all);
        json::obj2("sessions", Json::Arr(out), "total", json::unsigned(self.total as u64))
    }
}

pub open spec fn entry_values(v: Seq<(String, SessionEntry)>) -> Seq<JsonV> {
    v.map_values(
        |e: (String, SessionEntry)|
            summary_value(e.0@, e.1@.agent_name, e.1@.name, e.1@.sandbox_id),
    )
}

/// The answer that lists sessions.
pub open spec fn listed(entries: Seq<JsonV>) -> ReplyV {
    reply::said_ok(
        JsonV::Obj(
            seq![
                ("sessions"@, JsonV::Arr(entries)),
                ("total"@, reply::number(entries.len() as int)),
            ],
        ),
    )
}

pub fn list_sessions(entries: &Vec<(String, SessionEntry)>) -> (r: Reply)
    ensures
        r@ == listed(entry_values(entries@)),
{
    let ghost all = entry_values(entries@);
    let mut list: Vec<SessionSummary> = Vec::new();
    let mut i: usize = 0;
    while i < entries.len()
        invariant
            i <= entries@.len(),
            all == entry_values(entries@),
            summary_values(list@) == all.take(i as int),
        decreases entries@.len() - i,
    {
        let s = SessionSummary {
            id: entries[i].0.clone(),
            agent: entries[i].1.agent_name.clone(),
            name: text::copy_opt(&entries[i].1.name),
            sandbox_id: entries[i].1.sandbox_id.clone(),
        };
        assert(s.value() == all[i as int]);
        let ghost had = list@;
        list.push(s);
        i = i + 1;
        assert(summary_values(list@) =~= summary_values(had).push(s.value()));
        assert(summary_values(list@) =~= all.take(i as int));
    }
    assert(all.take(i as int) =~= all);
    let n: usize = entries.len();
    Reply::ok(SessionListResponse { sessions: list, total: n }.to_json())
}

// ---- creation ----

/// The first eight bytes of an id are whole characters.
pub open spec fn has_label(id: Seq<char>) -> bool {
    payload::width(id.take(payload::fitting(id, 8))) == 8
}

/// The display name of a sandbox that nobody named: the first eight bytes of its id.
pub open spec fn sandbox_label(id: Seq<char>) -> Seq<char> {
    "Sandbox "@ + id.take(payload::fitting(id, 8))
}

pub fn default_label(id: &str) -> (r: String)
    requires
        has_label(id@),
    ensures
        r@ == sandbox_label(id@),
{
    let v = text::chars_of(id);
    let n: usize = payload::fit(&v, 8);
    let head = text::string_of(&v, 0, n);
    assert(head@ =~= id@.take(n as int));
    text::owned("Sandbox ").concat(head.as_str())
}

/// An id of plain characters is labelled with eight of them.
pub proof fn plain_ids_have_a_label(id: Seq<char>)
    requires
        id.len() >= 8,
        forall|i: int| 0 <= i < 8 ==> payload::char_bytes(#[trigger] id[i]) == 1,
    ensures
        has_label(id),
        sandbox_label(id) == "Sandbox "@ + id.take(8),
{
    lemma_plain_prefix(id, 8);
}

proof fn lemma_plain_prefix(id: Seq<char>, n: int)
    requires
        0 <= n <= id.len(),
        forall|i: int| 0 <= i < n ==> payload::char_bytes(#[trigger] id[i]) == 1,
    ensures
        payload::fitting(id, n) == n,
        payload::width(id.take(n)) == n,
    decreases n,
{
    if n > 0 {
        let rest = id.skip(1);
        assert forall|i: int| 0 <= i < n - 1 implies payload::char_bytes(#[trigger] rest[i]) == 1 by {
            assert(rest[i] == id[i + 1]);
        }
        lemma_plain_prefix(rest, n - 1);
        assert(payload::char_bytes(id[0]) == 1);
        assert(id.take(n)[0] == id[0]);
        assert(id.take(n).skip(1) =~= rest.take(n - 1));
    } else {
        if id.len() > 0 {
            assert(payload::char_bytes(id[0]) > 0);
        }
    }
}

/// Where a session's tools work.
pub enum Place {
    /// In a sandbox that is there.
    Shared(String),
    /// In a new one, under an id and a name.
    Fresh { id: String, name: String },
}

/// The sandbox of a new session: the one asked for, if it is there, or a new one
/// under `fresh`.
pub fn place_session(wanted: &Option<String>, known: bool, fresh: String) -> (r: Result<Place, Reply>)
    requires
        has_label(fresh@),
    ensures
        match text::opt_text(*wanted) {
            Some(id) => if known {
                r matches Ok(Place::Shared(x)) && x@ == id
            } else {
                r matches Err(e) && e@ == reply::refused(404, "sandbox not found"@)
            },
            None => r matches Ok(Place::Fresh { id, name }) && id@ == fresh@ && name@
                == sandbox_label(fresh@),
        },
{
    match wanted {
        Some(id) => if known {
            Ok(Place::Shared(id.clone()))
        } else {
            Err(Reply::error(404, "sandbox not found"))
        },
        None => {
            let name = default_label(fresh.as_str());
            Ok(Place::Fresh { id: fresh, name })
        },
    }
}

/// A new id for a session or a sandbox.
pub fn new_id() -> (r: String)
    ensures
        ids::is_uuid(r@),
        has_label(r@),
{
    let id = ids::random_hyphenated();
    proof {
        assert forall|i: int| 0 <= i < 8 implies payload::char_bytes(#[trigger] id@[i]) == 1 by {
            assert(ids::is_hex(id@[i]));
        }
        plain_ids_have_a_label(id@);
    }
    id
}

/// A session was created.
pub struct SessionCreateResponse {
    pub session_id: String,
    pub agent: String,
    pub agent_version_id: String,
    pub sandbox_id: String,
}

impl SessionCreateResponse {
    pub open spec fn value(&self) -> JsonV {
        JsonV::Obj(
            seq![
                ("agent"@, JsonV::Str(self.agent@)),
                ("agent_version_id"@, JsonV::Str(self.agent_version_id@)),
                ("sandbox_id"@, JsonV::Str(self.sandbox_id@)),
                ("session_id"@, JsonV::Str(self.session_id@)),
            ],
        )
    }

    pub fn to_json(&self) -> (r: Json)
        ensures
            r@ == self.value(),
    {
        json::obj4(
            "agent",
            json::string(self.agent.as_str()),
            "agent_version_id",
            json::string(self.agent_version_id.as_str()),
            "sandbox_id",
            json::string(self.sandbox_id.as_str()),
            "session_id",
            json::string(self.session_id.as_str()),
        )
    }
}

/// How an agent's error is named.
pub open spec fn error_name(e: AgentError) -> Seq<char> {
    match e {
        AgentError::Busy => "Busy"@,
        AgentError::NotFound => "NotFound"@,
        AgentError::Internal => "Internal"@,
    }
}

pub fn agent_error_text(e: AgentError) -> (r: String)
    ensures
        r@ == "agent error: Error::"@ + error_name(e),
{
    let name = match e {
        AgentError::Busy => "Busy",
        AgentError::NotFound => "NotFound",
        AgentError::Internal => "Internal",
    };
    text::owned("agent error: Error::").concat(name)
}

/// The entry of a session that was just created: pinned to its version, in its
/// sandbox, and without a name.
pub open spec fn begun(
    agent_name: Seq<char>,
    version_id: Seq<char>,
    sandbox_id: Seq<char>,
    now: i64,
) -> EntryV {
    EntryV {
        agent_name,
        agent_version_id: version_id,
        name: None,
        sandbox_id,
        updated_at: now,
    }
}

/// What is told of a session that was created.
pub open spec fn creation(
    session_id: Seq<char>,
    agent_name: Seq<char>,
    version_id: Seq<char>,
    sandbox_id: Seq<char>,
) -> JsonV {
    JsonV::Obj(
        seq![
            ("agent"@, JsonV::Str(agent_name)),
            ("agent_version_id"@, JsonV::Str(version_id)),
            ("sandbox_id"@, JsonV::Str(sandbox_id)),
            ("session_id"@, JsonV::Str(session_id)),
        ],
    )
}

/// The answer to the creation of a session, given what the agent said. The entry
/// is kept where it succeeded.
pub fn session_created(
    session_id: &str,
    agent_name: &str,
    version_id: &str,
    sandbox_id: &str,
    made: Result<(), AgentError>,
    now: i64,
) -> (r: Result<(SessionEntry, Reply), Reply>)
    ensures
        match made {
            Ok(_) => r matches Ok(p) && p.0@ == begun(agent_name@, version_id@, sandbox_id@, now)
                && p.1@ == reply::said_created(
                creation(session_id@, agent_name@, version_id@, sandbox_id@),
            ),
            Err(e) => r matches Err(x) && x@ == reply::refused(
                500,
                "agent error: Error::"@ + error_name(e),
            ),
        },
{
    match made {
        Ok(_) => {
            let entry = SessionEntry {
                agent_name: text::owned(agent_name),
                agent_version_id: text::owned(version_id),
                name: None,
                sandbox_id: text::owned(sandbox_id),
                updated_at: now,
            };
            let body = SessionCreateResponse {
                session_id: text::owned(session_id),
                agent: text::owned(agent_name),
                agent_version_id: text::owned(version_id),
                sandbox_id: text::owned(sandbox_id),
            }.to_json();
            Ok((entry, Reply::created(body)))
        },
        Err(e) => {
            let m = agent_error_text(e);
            Err(Reply::error(500, m.as_str()))
        },
    }
}

// ---- the log of a session ----

/// One entry of a session's log as clients see it: what a tool's JSON payload
/// holds is laid open.
#[derive(Debug, PartialEq)]
pub struct BlockInfo {
    pub kind: String,
    pub text: Option<String>,
    pub tool_call_id: Option<String>,
    pub tool_name: Option<String>,
    pub arguments: Option<String>,
    pub is_error: bool,
    pub input_tokens: u32,
    pub cache_read_tokens: u32,
    pub cache_creation_tokens: u32,
    pub output_tokens: u32,
    pub created_at_ms: u64,
    pub finished_at_ms: u64,
}

pub struct InfoV {
    pub kind: Seq<char>,
    pub text: Option<Seq<char>>,
    pub tool_call_id: Option<Seq<char>>,
    pub tool_name: Option<Seq<char>>,
    pub arguments: Option<Seq<char>>,
    pub is_error: bool,
    pub usage: Usage,
    pub created_at_ms: u64,
    pub finished_at_ms: u64,
}

impl View for BlockInfo {
    type V = InfoV;

    open spec fn view(&self) -> InfoV {
        InfoV {
            kind: self.kind@,
            text: text::opt_text(self.text),
            tool_call_id: text::opt_text(self.tool_call_id),
            tool_name: text::opt_text(self.tool_name),
            arguments: text::opt_text(self.arguments),
            is_error: self.is_error,
            usage: Usage {
                input_tokens: self.input_tokens,
                cache_read_tokens: self.cache_read_tokens,
                cache_creation_tokens: self.cache_creation_tokens,
                output_tokens: self.output_tokens,
            },
            created_at_ms: self.created_at_ms,
            finished_at_ms: self.finished_at_ms,
        }
    }
}

/// A block as clients see it, `payload` being the value that its text holds.
pub open spec fn projected(b: BlockV, payload: Option<JsonV>) -> InfoV {
    InfoV {
        kind: b.kind,
        text: if b.kind == "tool-result"@ {
            json::str_of(json::field_of(payload, "output"@))
        } else {
            b.text
        },
        tool_call_id: json::str_of(json::field_of(payload, "id"@)),
        tool_name: json::str_of(json::field_of(payload, "name"@)),
        arguments: json::str_of(json::field_of(payload, "arguments"@)),
        is_error: json::bool_of(json::field_of(payload, "is_error"@)) == Some(true),
        usage: b.usage,
        created_at_ms: b.created_at_ms,
        finished_at_ms: b.finished_at_ms,
    }
}

fn owned_in(j: Option<&Json>) -> (r: Option<String>)
    ensures
        text::opt_text(r) == json::str_of(json::opt_view(j)),
{
    match json::str_in(j) {
        Some(s) => Some(text::owned(s)),
        None => None,
    }
}

pub fn project(b: &Block, payload: Option<&Json>) -> (r: BlockInfo)
    ensures
        r@ == projected(b@, json::opt_view(payload)),
{
    let body = if text::same(b.kind.as_str(), "tool-result") {
        owned_in(json::get_in(payload, "output"))
    } else {
        text::copy_opt(&b.text)
    };
    let is_error: bool = match json::bool_in(json::get_in(payload, "is_error")) {
        Some(x) => x,
        None => false,
    };
    BlockInfo {
        kind: b.kind.clone(),
        text: body,
        tool_call_id: owned_in(json::get_in(payload, "id")),
        tool_name: owned_in(json::get_in(payload, "name")),
        arguments: owned_in(json::get_in(payload, "arguments")),
        is_error,
        input_tokens: b.usage.input_tokens,
        cache_read_tokens: b.usage.cache_read_tokens,
        cache_creation_tokens: b.usage.cache_creation_tokens,
        output_tokens: b.usage.output_tokens,
        created_at_ms: b.created_at_ms,
        finished_at_ms: b.finished_at_ms,
    }
}

pub open spec fn info_value(i: InfoV) -> JsonV {
    JsonV::Obj(
        seq![
            ("arguments"@, json::opt_string(i.arguments)),
            ("cache_creation_tokens"@, reply::number(i.usage.cache_creation_tokens as int)),
            ("cache_read_tokens"@, reply::number(i.usage.cache_read_tokens as int)),
            ("created_at_ms"@, reply::number(i.created_at_ms as int)),
            ("finished_at_ms"@, reply::number(i.finished_at_ms as int)),
            ("input_tokens"@, reply::number(i.usage.input_tokens as int)),
            ("is_error"@, JsonV::Bool(i.is_error)),
            ("kind"@, JsonV::Str(i.kind)),
            ("output_tokens"@, reply::number(i.usage.output_tokens as int)),
            ("text"@, json::opt_string(i.text)),
            ("tool_call_id"@, json::opt_string(i.tool_call_id)),
            ("tool_name"@, json::opt_string(i.tool_name)),
        ],
    )
}

impl BlockInfo {
    pub fn to_json(&self) -> (r: Json)
        ensures
            r@ == info_value(self@),
    {
        let mut o = json::object();
        json::put(&mut o, "arguments", json::string_or_null(&self.arguments));
        json::put(
            &mut o,
            "cache_creation_tokens",
            json::unsigned(self.cache_creation_tokens as u64),
        );
        json::put(&mut o, "cache_read_tokens", json::unsigned(self.cache_read_tokens as u64));
        json::put(&mut o, "created_at_ms", json::unsigned(self.created_at_ms));
        json::put(&mut o, "finished_at_ms", json::unsigned(self.finished_at_ms));
        json::put(&mut o, "input_tokens", json::unsigned(self.input_tokens as u64));
        json::put(&mut o, "is_error", Json::Bool(self.is_error));
        json::put(&mut o, "kind", json::string(self.kind.as_str()));
        json::put(&mut o, "output_tokens", json::unsigned(self.output_tokens as u64));
        json::put(&mut o, "text", json::string_or_null(&self.text));
        json::put(&mut o, "tool_call_id", json::string_or_null(&self.tool_call_id));
        json::put(&mut o, "tool_name", json::string_or_null(&self.tool_name));
        assert(json::members_view(o@) =~= info_value(self@)->Obj_0);
        Json::Obj(o)
    }
}

/// A session with its log.
pub struct SessionResponse {
    pub session_id: String,
    pub agent: String,
    pub agent_version_id: String,
    pub name: Option<String>,
    pub sandbox_id: String,
    pub model: Option<String>,
    pub message_count: usize,
    pub messages: Vec<BlockInfo>,
}

pub open spec fn info_values(v: Seq<BlockInfo>) -> Seq<JsonV> {
    v.map_values(|i: BlockInfo| info_value(i@))
}

pub open spec fn session_value(
    id: Seq<char>,
    e: EntryV,
    model: Option<Seq<char>>,
    count: int,
    messages: Seq<JsonV>,
) -> JsonV {
    JsonV::Obj(
        seq![
            ("agent"@, JsonV::Str(e.agent_name)),
            ("agent_version_id"@, JsonV::Str(e.agent_version_id)),
            ("message_count"@, reply::number(count)),
            ("messages"@, JsonV::Arr(messages)),
            ("model"@, json::opt_string(model)),
            ("name"@, json::opt_string(e.name)),
            ("sandbox_id"@, JsonV::Str(e.sandbox_id)),
            ("session_id"@, JsonV::Str(id)),
        ],
    )
}

impl SessionResponse {
    pub open spec fn entry(&self) -> EntryV {
        EntryV {
            agent_name: self.agent@,
            agent_version_id: self.agent_version_id@,
            name: text::opt_text(self.name),
            sandbox_id: self.sandbox_id@,
            updated_at: 0,
        }
    }

    pub fn to_json(&self) -> (r: Json)
        ensures
            r@ == session_value(
                self.session_id@,
                self.entry(),
                text::opt_text(self.model),
                self.message_count as int,
                info_values(self.messages@),
            ),
    {
        let ghost all = info_values(self.messages@);
        let mut out: Vec<Json> = Vec::new();
        let mut i: usize = 0;
        assert(json::items_view(out@) =~= all.take(0));
        while i < self.messages.len()
            invariant
                i <= self.messages@.len(),
                all == info_values(self.messages@),
                json::items_view(out@) == all.take(i as int),
            decreases self.messages@.len() - i,
        {
            let j = self.messages[i].to_json();
            assert(j@ == all[i as int]);
            proof {
                json::lemma_items_push(out@, j);
            }
            out.push(j);
            i = i + 1;
            assert(json::items_view(out@) =~= all.take(i as int));
        }
        assert(all.take(i as int) =~= all);
        let mut o = json::object();
        json::put(&mut o, "agent", json::string(self.agent.as_str()));
        json::put(&mut o, "agent_version_id", json::string(self.agent_version_id.as_str()));
        json::put(&mut o, "message_count", json::unsigned(self.message_count as u64));
        json::put(&mut o, "messages", Json::Arr(out));
        json::put(&mut o, "model", json::string_or_null(&self.model));
        json::put(&mut o, "name", json::string_or_null(&self.name));
        json::put(&mut o, "sandbox_id", json::string(self.sandbox_id.as_str()));
        json::put(&mut o, "session_id", json::string(self.session_id.as_str()));
        assert(json::members_view(o@) =~= session_value(
            self.session_id@,
            self.entry(),
            text::opt_text(self.model),
            self.message_count as int,
            all,
        )->Obj_0);
        Json::Obj(o)
    }
}

/// The value that the text of a block holds.
pub open spec fn payload_of(b: BlockV) -> Option<JsonV> {
    json::json_value(chat::body(b))
}

pub open spec fn log_values(v: Seq<BlockV>) -> Seq<JsonV> {
    v.map_values(|b: BlockV| info_value(projected(b, payload_of(b))))
}

/// The answer that shows a session with its log.
pub open spec fn shown(
    id: Seq<char>,
    e: EntryV,
    model: Option<Seq<char>>,
    blocks: Seq<BlockV>,
) -> ReplyV {
    reply::said_ok(session_value(id, e, model, blocks.len() as int, log_values(blocks)))
}

/// A session's log. The model is that of the agent version it is pinned to.
pub fn get_session(id: &str, entry: &SessionEntry, model: Option<String>, blocks: &Vec<Block>) -> (r:
    Reply)
    ensures
        r@ == shown(id@, entry@, text::opt_text(model), block::block_views(blocks@)),
{
    let ghost bv = block::block_views(blocks@);
    let ghost all = log_values(bv);
    let mut messages: Vec<BlockInfo> = Vec::new();
    let mut i: usize = 0;
    while i < blocks.len()
        invariant
            i <= blocks@.len(),
            bv == block::block_views(blocks@),
            all == log_values(bv),
            messages@.len() == i,
            info_values(messages@) == all.take(i as int),
        decreases blocks@.len() - i,
    {
        let held = match &blocks[i].text {
            Some(t) => json::parse(t.as_str()),
            None => {
                let e = String::new();
                assert(e@ =~= seq![]);
                json::parse(e.as_str())
            },
        };
        let info = match &held {
            Ok(v) => project(&blocks[i], Some(v)),
            Err(_) => project(&blocks[i], None),
        };
        assert(info_value(info@) == all[i as int]) by {
            assert(bv[i as int] == blocks@[i as int]@);
        }
        let ghost had = messages@;
        messages.push(info);
        i = i + 1;
        assert(info_values(messages@) =~= info_values(had).push(info_value(info@)));
        assert(info_values(messages@) =~= all.take(i as int));
    }
    assert(all.take(i as int) =~= all);
    let n: usize = messages.len();
    let s = SessionResponse {
        session_id: text::owned(id),
        agent: entry.agent_name.clone(),
        agent_version_id: entry.agent_version_id.clone(),
        name: text::copy_opt(&entry.name),
        sandbox_id: entry.sandbox_id.clone(),
        model,
        message_count: n,
        messages,
    };
    Reply::ok(s.to_json())
}

// ---- changes ----

/// The name that a session gets: without white space around it, and none where
/// nothing is left.
pub open spec fn new_name(s: Seq<char>) -> Option<Seq<char>> {
    let t = text::trim(s);
    if t.len() == 0 {
        None
    } else {
        Some(t)
    }
}

pub fn clean_name(s: &str) -> (r: Option<String>)
    ensures
        text::opt_text(r) == new_name(s@),
{
    let t = text::trimmed(s);
    if t.as_str().is_empty() {
        None
    } else {
        Some(t)
    }
}

/// A session as a change leaves it.
pub open spec fn changed(e: EntryV, name: Option<Seq<char>>, sandbox: Option<Seq<char>>) -> EntryV {
    EntryV {
        name: match name {
            Some(n) => new_name(n),
            None => e.name,
        },
        sandbox_id: match sandbox {
            Some(s) => s,
            None => e.sandbox_id,
        },
        ..e
    }
}

/// How the storing of a change went.
pub struct ChangeOutcome {
    /// The name was stored, if one was given.
    pub renamed: bool,
    /// The sandbox that is asked for is there.
    pub sandbox_known: bool,
    /// It was stored, if one was given.
    pub moved: bool,
}

/// Why a change of a session is refused: what was asked for could not be done.
pub open spec fn change_fault(
    name_asked: bool,
    sandbox_asked: bool,
    renamed: bool,
    sandbox_known: bool,
    moved: bool,
) -> Option<ReplyV> {
    if name_asked && !renamed {
        Some(reply::refused(500, "failed to rename session"@))
    } else if sandbox_asked && !sandbox_known {
        Some(reply::refused(404, "sandbox not found"@))
    } else if sandbox_asked && !moved {
        Some(reply::refused(500, "failed to switch sandbox"@))
    } else {
        None
    }
}

/// What is told of a session that was changed.
pub open spec fn change_told(id: Seq<char>, e: EntryV) -> JsonV {
    JsonV::Obj(
        seq![
            ("name"@, json::opt_string(e.name)),
            ("sandbox_id"@, JsonV::Str(e.sandbox_id)),
            ("session_id"@, JsonV::Str(id)),
        ],
    )
}

/// The answer to a change of a session, with the entry as it is afterwards.
pub fn update_session(
    id: &str,
    entry: &SessionEntry,
    req: &SessionUpdateReq,
    done: &ChangeOutcome,
) -> (r: Result<(SessionEntry, Reply), Reply>)
    ensures
        ({
            let name = text::opt_text(req.name);
            let sandbox = text::opt_text(req.sandbox_id);
            match change_fault(
                name is Some,
                sandbox is Some,
                done.renamed,
                done.sandbox_known,
                done.moved,
            ) {
                Some(fault) => r matches Err(x) && x@ == fault,
                None => r matches Ok(p) && p.0@ == changed(entry@, name, sandbox) && p.1@
                    == reply::said_ok(change_told(id@, changed(entry@, name, sandbox))),
            }
        }),
{
    let mut e = entry.copy();
    if let Some(n) = &req.name {
        if !done.renamed {
            return Err(Reply::error(500, "failed to rename session"));
        }
        e.name = clean_name(n.as_str());
    }
    if let Some(s) = &req.sandbox_id {
        if !done.sandbox_known {
            return Err(Reply::error(404, "sandbox not found"));
        }
        if !done.moved {
            return Err(Reply::error(500, "failed to switch sandbox"));
        }
        e.sandbox_id = s.clone();
    }
    let body = json::obj3(
        "name",
        json::string_or_null(&e.name),
        "sandbox_id",
        json::string(e.sandbox_id.as_str()),
        "session_id",
        json::string(id),
    );
    Ok((e, Reply::ok(body)))
}

/// What was done with a session.
pub struct SessionCommandResponse {
    pub status: String,
    pub session_id: String,
}

pub open spec fn session_done(id: Seq<char>, status: Seq<char>) -> JsonV {
    JsonV::Obj(seq![("session_id"@, JsonV::Str(id)), ("status"@, JsonV::Str(status))])
}

impl SessionCommandResponse {
    pub fn to_json(&self) -> (r: Json)
        ensures
            r@ == session_done(self.session_id@, self.status@),
    {
        json::obj2(
            "session_id",
            json::string(self.session_id.as_str()),
            "status",
            json::string(self.status.as_str()),
        )
    }
}

fn command(id: &str, status: &str) -> (r: Reply)
    ensures
        r@ == reply::said_ok(session_done(id@, status@)),
{
    Reply::ok(
        SessionCommandResponse {
            status: text::owned(status),
            session_id: text::owned(id),
        }.to_json(),
    )
}

pub fn session_destroyed(id: &str) -> (r: Reply)
    ensures
        r@ == reply::said_ok(session_done(id@, "deleted"@)),
{
    command(id, "deleted")
}

pub fn session_stopped(id: &str) -> (r: Reply)
    ensures
        r@ == reply::said_ok(session_done(id@, "stopped"@)),
{
    command(id, "stopped")
}

pub fn session_reset(id: &str, done: Result<(), AgentError>) -> (r: Reply)
    ensures
        r@ == match done {
            Ok(_) => reply::said_ok(session_done(id@, "reset"@)),
            Err(_) => not_found(),
        },
{
    match done {
        Ok(_) => command(id, "reset"),
        Err(_) => session_missing(),
    }
}

pub fn session_compacted(id: &str, done: Result<(), AgentError>) -> (r: Reply)
    ensures
        r@ == match done {
            Ok(_) => reply::said_ok(session_done(id@, "compacted"@)),
            Err(AgentError::NotFound) => not_found(),
            Err(_) => reply::refused(500, "compaction failed"@),
        },
{
    match done {
        Ok(_) => command(id, "compacted"),
        Err(AgentError::NotFound) => session_missing(),
        Err(_) => Reply::error(500, "compaction failed"),
    }
}

// ---- moving to the current version ----

/// A session moves to the current version of its agent. Where the name is gone it
/// stays where it is pinned.
pub open spec fn moves(e: EntryV, current: Option<Seq<char>>) -> bool {
    match current {
        Some(c) => c != e.agent_version_id,
        None => false,
    }
}

/// The entry of a session that moved.
pub open spec fn moved(e: EntryV, agent_name: Seq<char>, version_id: Seq<char>) -> EntryV {
    EntryV { agent_name, agent_version_id: version_id, ..e }
}

/// Whether a session has to move to another version of its agent.
pub fn must_move(entry: &SessionEntry, current: &Option<String>) -> (r: bool)
    ensures
        r == moves(entry@, text::opt_text(*current)),
{
    match current {
        Some(c) => !text::same(c.as_str(), entry.agent_version_id.as_str()),
        None => false,
    }
}

/// The entry of a session that moved to another version.
pub fn moved_entry(entry: &SessionEntry, agent_name: &str, version_id: &str) -> (r: SessionEntry)
    ensures
        r@ == moved(entry@, agent_name@, version_id@),
{
    SessionEntry {
        agent_name: text::owned(agent_name),
        agent_version_id: text::owned(version_id),
        name: text::copy_opt(&entry.name),
        sandbox_id: entry.sandbox_id.clone(),
        updated_at: entry.updated_at,
    }
}

/// The sandbox of a session that is restored: its own, or one under its id.
pub fn restored_sandbox(id: &str, sandbox_id: &Option<String>) -> (r: String)
    ensures
        r@ == match text::opt_text(*sandbox_id) {
            Some(s) => s,
            None => id@,
        },
{
    match sandbox_id {
        Some(s) => s.clone(),
        None => text::owned(id),
    }
}

// ---- sandboxes ----

pub open spec fn stamp_value(n: i64) -> JsonV {
    if n >= 0 {
        JsonV::Num(NumberV::Unsigned(n as u64))
    } else {
        JsonV::Num(NumberV::Negative(n))
    }
}

pub open spec fn sandbox_value(s: Sandbox) -> JsonV {
    JsonV::Obj(
        seq![
            ("created_at"@, stamp_value(s.created_at)),
            ("id"@, JsonV::Str(s.id@)),
            ("name"@, JsonV::Str(s.name@)),
        ],
    )
}

pub open spec fn sandbox_values(v: Seq<Sandbox>) -> Seq<JsonV> {
    v.map_values(|s: Sandbox| sandbox_value(s))
}

fn sandbox_json(s: &Sandbox) -> (r: Json)
    ensures
        r@ == sandbox_value(*s),
{
    let at = if s.created_at >= 0 {
        Json::Num(json::Number::Unsigned(s.created_at as u64))
    } else {
        Json::Num(json::Number::Negative(s.created_at))
    };
    json::obj3(
        "created_at",
        at,
        "id",
        json::string(s.id.as_str()),
        "name",
        json::string(s.name.as_str()),
    )
}

pub fn list_sandboxes(found: Result<Vec<Sandbox>, String>) -> (r: Reply)
    ensures
        r@ == match found {
            Ok(v) => reply::said_ok(
                JsonV::Obj(
                    seq![
                        ("sandboxes"@, JsonV::Arr(sandbox_values(v@))),
                        ("total"@, reply::number(v@.len() as int)),
                    ],
                ),
            ),
            Err(e) => reply::refused(500, e@),
        },
{
    match found {
        Ok(v) => {
            let ghost all = sandbox_values(v@);
            let mut out: Vec<Json> = Vec::new();
            let mut i: usize = 0;
            assert(json::items_view(out@) =~= all.take(0));
            while i < v.len()
                invariant
                    i <= v@.len(),
                    all == sandbox_values(v@),
                    json::items_view(out@) == all.take(i as int),
                decreases v@.len() - i,
            {
                let j = sandbox_json(&v[i]);
                assert(j@ == all[i as int]);
                proof {
                    json::lemma_items_push(out@, j);
                }
                out.push(j);
                i = i + 1;
                assert(json::items_view(out@) =~= all.take(i as int));
            }
            assert(all.take(i as int) =~= all);
            let n: usize = v.len();
            Reply::ok(json::obj2("sandboxes", Json::Arr(out), "total", json::unsigned(n as u64)))
        },
        Err(e) => Reply::error(500, e.as_str()),
    }
}

pub open spec fn sandbox_done(id: Seq<char>, name: Seq<char>) -> JsonV {
    JsonV::Obj(seq![("id"@, JsonV::Str(id)), ("name"@, JsonV::Str(name))])
}

pub fn sandbox_created(id: &str, req: &SandboxReq, done: Result<(), String>) -> (r: Reply)
    ensures
        r@ == match done {
            Ok(_) => reply::said_created(sandbox_done(id@, req.name@)),
            Err(e) => reply::refused(500, e@),
        },
{
    match done {
        Ok(_) => Reply::created(
            json::obj2("id", json::string(id), "name", json::string(req.name.as_str())),
        ),
        Err(e) => Reply::error(500, e.as_str()),
    }
}

pub fn sandbox_renamed(id: &str, req: &SandboxReq, known: bool, done: bool) -> (r: Reply)
    ensures
        r@ == if !known {
            reply::refused(404, "sandbox not found"@)
        } else if !done {
            reply::refused(500, "failed to rename sandbox"@)
        } else {
            reply::said_ok(sandbox_done(id@, req.name@))
        },
{
    if !known {
        Reply::error(404, "sandbox not found")
    } else if !done {
        Reply::error(500, "failed to rename sandbox")
    } else {
        Reply::ok(json::obj2("id", json::string(id), "name", json::string(req.name.as_str())))
    }
}

// ---- laws ----

/// An update that asks for nothing changes nothing.
pub proof fn an_empty_update_changes_nothing(e: EntryV)
    ensures
        changed(e, None, None) == e,
{
}

/// A session that moves keeps its name and its sandbox, and does not move again
/// until the agent changes.
pub proof fn moving_settles(e: EntryV, name: Seq<char>, version: Seq<char>)
    ensures
        moved(e, name, version).name == e.name,
        moved(e, name, version).sandbox_id == e.sandbox_id,
        !moves(moved(e, name, version), Some(version)),
        !moves(e, None),
{
}

} // verus!
