//! Answers and their bodies.
use crate::host::drivers::Usage;
use crate::json::{self, Json, JsonV, NumberV};
use crate::text;
use vstd::prelude::*;

verus! {

/// A status and a JSON body.
#[derive(Debug, PartialEq)]
pub struct Reply {
    pub status: u16,
    pub body: Json,
}

pub struct ReplyV {
    pub status: u16,
    pub body: JsonV,
}

impl View for Reply {
    type V = ReplyV;

    open spec fn view(&self) -> ReplyV {
        ReplyV { status: self.status, body: self.body@ }
    }
}

pub open spec fn said_ok(body: JsonV) -> ReplyV {
    ReplyV { status: 200, body }
}

pub open spec fn said_created(body: JsonV) -> ReplyV {
    ReplyV { status: 201, body }
}

pub open spec fn error_body(message: Seq<char>) -> JsonV {
    JsonV::Obj(seq![("error"@, JsonV::Str(message))])
}

pub open spec fn refused(status: u16, message: Seq<char>) -> ReplyV {
    ReplyV { status, body: error_body(message) }
}

pub open spec fn db_refused(err: Seq<char>) -> ReplyV {
    refused(500, "db error: "@ + err)
}

pub open spec fn opt_reply(r: Option<Reply>) -> Option<ReplyV> {
    match r {
        Some(x) => Some(x@),
        None => None,
    }
}

impl Reply {
    pub fn ok(body: Json) -> (r: Reply)
        ensures
            r@ == said_ok(body@),
    {
        Reply { status: 200, body }
    }

    pub fn created(body: Json) -> (r: Reply)
        ensures
            r@ == said_created(body@),
    {
        Reply { status: 201, body }
    }

    pub fn error(status: u16, message: &str) -> (r: Reply)
        ensures
            r@ == refused(status, message@),
    {
        Reply { status, body: ErrorResponse { error: text::owned(message) }.to_json() }
    }

    pub fn db_error(err: &str) -> (r: Reply)
        ensures
            r@ == db_refused(err@),
    {
        let message = text::owned("db error: ").concat(err);
        Reply::error(500, message.as_str())
    }

    /// The text of the body.
    pub fn text(&self) -> (r: String)
        ensures
            r@ == json::json_text(self@.body),
    {
        json::render(&self.body)
    }
}

/// The headers that every answer of the API carries. Each request has an id of its
/// own.
pub fn response_headers(request_id: String) -> (r: Vec<(String, String)>)
    ensures
        r@.len() == 4,
        r@[0].0@ == "x-request-id"@ && r@[0].1@ == request_id@,
        r@[1].0@ == "x-content-type-options"@ && r@[1].1@ == "nosniff"@,
        r@[2].0@ == "x-frame-options"@ && r@[2].1@ == "DENY"@,
        r@[3].0@ == "content-security-policy"@ && r@[3].1@ == "default-src 'self'"@,
{
    let mut v: Vec<(String, String)> = Vec::new();
    v.push((text::owned("x-request-id"), request_id));
    v.push((text::owned("x-content-type-options"), text::owned("nosniff")));
    v.push((text::owned("x-frame-options"), text::owned("DENY")));
    v.push((text::owned("content-security-policy"), text::owned("default-src 'self'")));
    v
}

pub open spec fn number(n: int) -> JsonV {
    JsonV::Num(NumberV::Unsigned(n as u64))
}

pub open spec fn usage_value(u: Usage) -> JsonV {
    JsonV::Obj(
        seq![
            ("cache_creation_tokens"@, number(u.cache_creation_tokens as int)),
            ("cache_read_tokens"@, number(u.cache_read_tokens as int)),
            ("input_tokens"@, number(u.input_tokens as int)),
            ("output_tokens"@, number(u.output_tokens as int)),
        ],
    )
}

pub fn usage_json(u: &Usage) -> (r: Json)
    ensures
        r@ == usage_value(*u),
{
    json::obj4(
        "cache_creation_tokens",
        json::unsigned(u.cache_creation_tokens as u64),
        "cache_read_tokens",
        json::unsigned(u.cache_read_tokens as u64),
        "input_tokens",
        json::unsigned(u.input_tokens as u64),
        "output_tokens",
        json::unsigned(u.output_tokens as u64),
    )
}

// ---- bodies ----

/// What went wrong.
pub struct ErrorResponse {
    pub error: String,
}

impl ErrorResponse {
    pub fn to_json(&self) -> (r: Json)
        ensures
            r@ == error_body(self.error@),
    {
        json::obj1("error", json::string(self.error.as_str()))
    }
}

/// The service is up.
pub struct HealthResponse {
    pub status: String,
}

impl HealthResponse {
    pub fn to_json(&self) -> (r: Json)
        ensures
            r@ == JsonV::Obj(seq![("status"@, JsonV::Str(self.status@))]),
    {
        json::obj1("status", json::string(self.status.as_str()))
    }
}

pub fn health() -> (r: Reply)
    ensures
        r@ == said_ok(JsonV::Obj(seq![("status"@, JsonV::Str("ok"@))])),
{
    Reply::ok(HealthResponse { status: text::owned("ok") }.to_json())
}

/// What runs.
pub struct StatusResponse {
    pub status: String,
    pub agent_count: usize,
    pub session_count: usize,
    pub provider_count: usize,
    pub tool_count: usize,
    pub bind: String,
}

impl StatusResponse {
    pub open spec fn value(&self) -> JsonV {
        JsonV::Obj(
            seq![
                ("agent_count"@, number(self.agent_count as int)),
                ("bind"@, JsonV::Str(self.bind@)),
                ("provider_count"@, number(self.provider_count as int)),
                ("session_count"@, number(self.session_count as int)),
                ("status"@, JsonV::Str(self.status@)),
                ("tool_count"@, number(self.tool_count as int)),
            ],
        )
    }

    pub fn to_json(&self) -> (r: Json)
        ensures
            r@ == self.value(),
    {
        let mut o = json::object();
        json::put(&mut o, "agent_count", json::unsigned(self.agent_count as u64));
        json::put(&mut o, "bind", json::string(self.bind.as_str()));
        json::put(&mut o, "provider_count", json::unsigned(self.provider_count as u64));
        json::put(&mut o, "session_count", json::unsigned(self.session_count as u64));
        json::put(&mut o, "status", json::string(self.status.as_str()));
        json::put(&mut o, "tool_count", json::unsigned(self.tool_count as u64));
        assert(json::members_view(o@) =~= self.value()->Obj_0);
        Json::Obj(o)
    }
}

/// The runtime status of a server that runs.
pub fn status(
    agent_count: usize,
    session_count: usize,
    provider_count: usize,
    tool_count: usize,
    bind: &str,
) -> (r: Reply)
    ensures
        r@ == said_ok(
            JsonV::Obj(
                seq![
                    ("agent_count"@, number(agent_count as int)),
                    ("bind"@, JsonV::Str(bind@)),
                    ("provider_count"@, number(provider_count as int)),
                    ("session_count"@, number(session_count as int)),
                    ("status"@, JsonV::Str("running"@)),
                    ("tool_count"@, number(tool_count as int)),
                ],
            ),
        ),
{
    let s = StatusResponse {
        status: text::owned("running"),
        agent_count,
        session_count,
        provider_count,
        tool_count,
        bind: text::owned(bind),
    };
    Reply::ok(s.to_json())
}

/// Where the server listens.
pub struct ConfigResponse {
    pub bind: String,
}

impl ConfigResponse {
    pub fn to_json(&self) -> (r: Json)
        ensures
            r@ == JsonV::Obj(seq![("bind"@, JsonV::Str(self.bind@))]),
    {
        json::obj1("bind", json::string(self.bind.as_str()))
    }
}

pub fn config_info(bind: &str) -> (r: Reply)
    ensures
        r@ == said_ok(JsonV::Obj(seq![("bind"@, JsonV::Str(bind@))])),
{
    Reply::ok(ConfigResponse { bind: text::owned(bind) }.to_json())
}

/// The address a server listens at: host and port, the host of version 6 in brackets.
pub open spec fn bind_text(ip: Seq<char>, port: u16) -> Seq<char> {
    if ip.contains(':') {
        "["@ + ip + "]:"@ + text::decimal(port as int)
    } else {
        ip + ":"@ + text::decimal(port as int)
    }
}

/// Where the server listens, and the token that opens it.
pub struct Server {
    pub ip: String,
    pub port: u16,
    pub token: Option<String>,
}

impl Server {
    pub fn bind(&self) -> (r: String)
        ensures
            r@ == bind_text(self.ip@, self.port),
    {
        let port = text::u64_text(self.port as u64);
        let v = text::chars_of(self.ip.as_str());
        let n: usize = v.len();
        let at: usize = text::find_from(&v, ':', 0);
        proof {
            text::lemma_index_from(self.ip@, ':', 0);
        }
        if at < n {
            assert(self.ip@[at as int] == ':');
            text::owned("[").concat(self.ip.as_str()).concat("]:").concat(port.as_str())
        } else {
            self.ip.clone().concat(":").concat(port.as_str())
        }
    }
}

impl Default for Server {
    fn default() -> (r: Server)
        ensures
            r.ip@ == "127.0.0.1"@,
            r.port == 8000,
            r.token is None,
    {
        Server { ip: text::owned("127.0.0.1"), port: 8000, token: None }
    }
}

/// What the API is.
pub struct ApiDoc;

impl ApiDoc {
    pub fn info(&self) -> (r: Json)
        ensures
            r@ == JsonV::Obj(
                seq![
                    ("description"@, JsonV::Str("HTTP API for the carson wasm agent host"@)),
                    ("title"@, JsonV::Str("carson API"@)),
                    ("version"@, JsonV::Str("0.1.0"@)),
                ],
            ),
    {
        json::obj3(
            "description",
            json::string("HTTP API for the carson wasm agent host"),
            "title",
            json::string("carson API"),
            "version",
            json::string("0.1.0"),
        )
    }
}

} // verus!
