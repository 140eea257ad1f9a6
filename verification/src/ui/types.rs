//! What the pages know of sessions and sandboxes, and the calls they make.
use crate::json::{self, Json, JsonV};
use crate::text;
use vstd::prelude::*;

verus! {

broadcast use crate::text::views_push;

// ---- calls ----

#[derive(Debug, Clone, Copy, PartialEq, Eq, Structural)]
pub enum Method {
    Get,
    Post,
    Put,
    Delete,
}

/// One call of the server.
#[derive(Debug, PartialEq)]
pub struct Call {
    pub method: Method,
    pub path: String,
    pub body: Option<Json>,
}

pub struct CallV {
    pub method: Method,
    pub path: Seq<char>,
    pub body: Option<JsonV>,
}

pub open spec fn opt_json(b: Option<Json>) -> Option<JsonV> {
    match b {
        Some(j) => Some(j@),
        None => None,
    }
}

impl View for Call {
    type V = CallV;

    open spec fn view(&self) -> CallV {
        CallV { method: self.method, path: self.path@, body: opt_json(self.body) }
    }
}

pub open spec fn opt_call(c: Option<Call>) -> Option<CallV> {
    match c {
        Some(x) => Some(x@),
        None => None,
    }
}

pub open spec fn call_with(method: Method, path: Seq<char>, body: JsonV) -> CallV {
    CallV { method, path, body: Some(body) }
}

pub open spec fn bare_call(method: Method, path: Seq<char>) -> CallV {
    CallV { method, path, body: None }
}

impl Call {
    pub fn with(method: Method, path: String, body: Json) -> (r: Call)
        ensures
            r@ == call_with(method, path@, body@),
    {
        Call { method, path, body: Some(body) }
    }

    pub fn bare(method: Method, path: String) -> (r: Call)
        ensures
            r@ == bare_call(method, path@),
    {
        Call { method, path, body: None }
    }
}

/// The object without members.
pub open spec fn nothing() -> JsonV {
    JsonV::Obj(seq![])
}

pub fn empty_object() -> (r: Json)
    ensures
        r@ == nothing(),
{
    let o = json::object();
    assert(json::members_view(o@) =~= seq![]);
    Json::Obj(o)
}

// ---- summaries ----

/// A session in the list.
#[derive(Debug, PartialEq)]
pub struct SessionSummary {
    pub id: String,
    pub agent: String,
    pub name: Option<String>,
    pub sandbox_id: Option<String>,
}

pub struct SessionV {
    pub id: Seq<char>,
    pub agent: Seq<char>,
    pub name: Option<Seq<char>>,
    pub sandbox_id: Option<Seq<char>>,
}

impl View for SessionSummary {
    type V = SessionV;

    open spec fn view(&self) -> SessionV {
        SessionV {
            id: self.id@,
            agent: self.agent@,
            name: text::opt_text(self.name),
            sandbox_id: text::opt_text(self.sandbox_id),
        }
    }
}

pub open spec fn sessions_view(v: Seq<SessionSummary>) -> Seq<SessionV> {
    v.map_values(|s: SessionSummary| s@)
}

/// A sandbox in the list.
#[derive(Debug, PartialEq)]
pub struct SandboxSummary {
    pub id: String,
    pub name: String,
}

pub struct SandboxV {
    pub id: Seq<char>,
    pub name: Seq<char>,
}

impl View for SandboxSummary {
    type V = SandboxV;

    open spec fn view(&self) -> SandboxV {
        SandboxV { id: self.id@, name: self.name@ }
    }
}

pub open spec fn sandboxes_view(v: Seq<SandboxSummary>) -> Seq<SandboxV> {
    v.map_values(|s: SandboxSummary| s@)
}

/// The tokens of a session.
#[derive(Debug, Clone, Copy, PartialEq, Eq, Structural)]
pub struct Usage {
    pub input_tokens: u64,
    pub cache_read_tokens: u64,
    pub cache_creation_tokens: u64,
    pub output_tokens: u64,
}

impl Default for Usage {
    fn default() -> (r: Usage)
        ensures
            r == (Usage {
                input_tokens: 0,
                cache_read_tokens: 0,
                cache_creation_tokens: 0,
                output_tokens: 0,
            }),
    {
        Usage { input_tokens: 0, cache_read_tokens: 0, cache_creation_tokens: 0, output_tokens: 0 }
    }
}

/// A member that may be absent or null, and is a text otherwise; the outer
/// option tells whether it is one of these.
pub open spec fn text_or_none(j: Option<JsonV>) -> Option<Option<Seq<char>>> {
    match j {
        None => Some(None),
        Some(JsonV::Null) => Some(None),
        Some(JsonV::Str(s)) => Some(Some(s)),
        Some(_) => None,
    }
}

pub open spec fn session_from(
    id: Option<JsonV>,
    agent: Option<JsonV>,
    name: Option<JsonV>,
    sandbox: Option<JsonV>,
) -> Option<SessionV> {
    match (json::str_of(id), json::str_of(agent), text_or_none(name), text_or_none(sandbox)) {
        (Some(id), Some(agent), Some(name), Some(sandbox_id)) => Some(
            SessionV { id, agent, name, sandbox_id },
        ),
        _ => None,
    }
}

/// The session that a value describes: an object with its members, or an array
/// of all four in their order.
pub open spec fn session_in(j: JsonV) -> Option<SessionV> {
    match j {
        JsonV::Obj(m) => session_from(
            json::member(m, "id"@),
            json::member(m, "agent"@),
            json::member(m, "name"@),
            json::member(m, "sandbox_id"@),
        ),
        JsonV::Arr(v) => if v.len() == 4 {
            session_from(Some(v[0]), Some(v[1]), Some(v[2]), Some(v[3]))
        } else {
            None
        },
        _ => None,
    }
}

pub open spec fn sandbox_from(id: Option<JsonV>, name: Option<JsonV>) -> Option<SandboxV> {
    match (json::str_of(id), json::str_of(name)) {
        (Some(id), Some(name)) => Some(SandboxV { id, name }),
        _ => None,
    }
}

/// The sandbox that a value describes: an object, or an array of both members.
pub open spec fn sandbox_in(j: JsonV) -> Option<SandboxV> {
    match j {
        JsonV::Obj(m) => sandbox_from(json::member(m, "id"@), json::member(m, "name"@)),
        JsonV::Arr(v) => if v.len() == 2 {
            sandbox_from(Some(v[0]), Some(v[1]))
        } else {
            None
        },
        _ => None,
    }
}

/// The sessions that a list describes; what describes none is left out.
pub open spec fn sessions_in(v: Seq<JsonV>) -> Seq<SessionV>
    decreases v.len(),
{
    if v.len() == 0 {
        seq![]
    } else {
        let done = sessions_in(v.drop_last());
        match session_in(v.last()) {
            Some(s) => done.push(s),
            None => done,
        }
    }
}

pub open spec fn sandboxes_in(v: Seq<JsonV>) -> Seq<SandboxV>
    decreases v.len(),
{
    if v.len() == 0 {
        seq![]
    } else {
        let done = sandboxes_in(v.drop_last());
        match sandbox_in(v.last()) {
            Some(s) => done.push(s),
            None => done,
        }
    }
}

fn name_or_none(j: Option<&Json>) -> (r: Option<Option<String>>)
    ensures
        match r {
            Some(t) => text_or_none(json::opt_view(j)) == Some(text::opt_text(t)),
            None => text_or_none(json::opt_view(j)) is None,
        },
{
    match j {
        None => Some(None),
        Some(v) => match v {
            Json::Null => Some(None),
            Json::Str(s) => Some(Some(s.clone())),
            _ => None,
        },
    }
}

fn make_session(
    id: Option<&Json>,
    agent: Option<&Json>,
    name: Option<&Json>,
    sandbox: Option<&Json>,
) -> (r: Option<SessionSummary>)
    ensures
        (match r {
            Some(s) => Some(s@),
            None => None,
        }) == session_from(
            json::opt_view(id),
            json::opt_view(agent),
            json::opt_view(name),
            json::opt_view(sandbox),
        ),
{
    let id = match json::str_in(id) {
        Some(t) => t,
        None => {
            return None;
        },
    };
    let agent = match json::str_in(agent) {
        Some(t) => t,
        None => {
            return None;
        },
    };
    let name = match name_or_none(name) {
        Some(t) => t,
        None => {
            return None;
        },
    };
    let sandbox_id = match name_or_none(sandbox) {
        Some(t) => t,
        None => {
            return None;
        },
    };
    Some(SessionSummary { id: text::owned(id), agent: text::owned(agent), name, sandbox_id })
}

pub fn read_session(j: &Json) -> (r: Option<SessionSummary>)
    ensures
        (match r {
            Some(s) => Some(s@),
            None => None,
        }) == session_in(j@),
{
    match j {
        Json::Obj(_) => make_session(
            j.get("id"),
            j.get("agent"),
            j.get("name"),
            j.get("sandbox_id"),
        ),
        Json::Arr(v) => {
            proof {
                json::lemma_items(v@);
            }
            if v.len() == 4 {
                make_session(Some(&v[0]), Some(&v[1]), Some(&v[2]), Some(&v[3]))
            } else {
                None
            }
        },
        _ => None,
    }
}

pub fn read_sandbox(j: &Json) -> (r: Option<SandboxSummary>)
    ensures
        (match r {
            Some(s) => Some(s@),
            None => None,
        }) == sandbox_in(j@),
{
    let (id, name) = match j {
        Json::Obj(_) => (j.get("id"), j.get("name")),
        Json::Arr(v) => {
            proof {
                json::lemma_items(v@);
            }
            if v.len() != 2 {
                return None;
            }
            (Some(&v[0]), Some(&v[1]))
        },
        _ => {
            return None;
        },
    };
    match (json::str_in(id), json::str_in(name)) {
        (Some(id), Some(name)) => Some(
            SandboxSummary { id: text::owned(id), name: text::owned(name) },
        ),
        _ => None,
    }
}

/// The list under `key` of a reply.
pub open spec fn list_under(v: JsonV, key: Seq<char>) -> Option<Seq<JsonV>> {
    json::items_of(json::field(v, key))
}

/// The sessions of a reply; none where it holds no list.
pub fn read_sessions(v: &Json) -> (r: Option<Vec<SessionSummary>>)
    ensures
        match r {
            Some(s) => list_under(v@, "sessions"@) is Some && sessions_view(s@) == sessions_in(
                list_under(v@, "sessions"@)->0,
            ),
            None => list_under(v@, "sessions"@) is None,
        },
{
    let items = match v.get("sessions") {
        Some(j) => match j.as_array() {
            Some(items) => items,
            None => {
                return None;
            },
        },
        None => {
            return None;
        },
    };
    let ghost all = json::items_view(items@);
    proof {
        json::lemma_items(items@);
    }
    let mut out: Vec<SessionSummary> = Vec::new();
    let mut i: usize = 0;
    assert(all.take(0) =~= seq![]);
    assert(sessions_view(out@) =~= seq![]);
    while i < items.len()
        invariant
            i <= items@.len(),
            all == json::items_view(items@),
            all.len() == items@.len(),
            forall|k: int| 0 <= k < all.len() ==> #[trigger] all[k] == json::json_view(items@[k]),
            sessions_view(out@) == sessions_in(all.take(i as int)),
        decreases items@.len() - i,
    {
        assert(all.take(i as int + 1).drop_last() =~= all.take(i as int));
        assert(all.take(i as int + 1).last() == items@[i as int]@);
        if let Some(s) = read_session(&items[i]) {
            let ghost had = sessions_view(out@);
            out.push(s);
            assert(sessions_view(out@) =~= had.push(s@));
        }
        i = i + 1;
    }
    assert(all.take(i as int) =~= all);
    Some(out)
}

pub fn read_sandboxes(v: &Json) -> (r: Option<Vec<SandboxSummary>>)
    ensures
        match r {
            Some(s) => list_under(v@, "sandboxes"@) is Some && sandboxes_view(s@) == sandboxes_in(
                list_under(v@, "sandboxes"@)->0,
            ),
            None => list_under(v@, "sandboxes"@) is None,
        },
{
    let items = match v.get("sandboxes") {
        Some(j) => match j.as_array() {
            Some(items) => items,
            None => {
                return None;
            },
        },
        None => {
            return None;
        },
    };
    let ghost all = json::items_view(items@);
    proof {
        json::lemma_items(items@);
    }
    let mut out: Vec<SandboxSummary> = Vec::new();
    let mut i: usize = 0;
    assert(all.take(0) =~= seq![]);
    assert(sandboxes_view(out@) =~= seq![]);
    while i < items.len()
        invariant
            i <= items@.len(),
            all == json::items_view(items@),
            all.len() == items@.len(),
            forall|k: int| 0 <= k < all.len() ==> #[trigger] all[k] == json::json_view(items@[k]),
            sandboxes_view(out@) == sandboxes_in(all.take(i as int)),
        decreases items@.len() - i,
    {
        assert(all.take(i as int + 1).drop_last() =~= all.take(i as int));
        assert(all.take(i as int + 1).last() == items@[i as int]@);
        if let Some(s) = read_sandbox(&items[i]) {
            let ghost had = sandboxes_view(out@);
            out.push(s);
            assert(sandboxes_view(out@) =~= had.push(s@));
        }
        i = i + 1;
    }
    assert(all.take(i as int) =~= all);
    Some(out)
}

/// The values of the list under `key`; none where there is no list.
pub fn read_list(v: &Json, key: &str) -> (r: Option<Vec<Json>>)
    ensures
        match r {
            Some(s) => list_under(v@, key@) == Some(json::items_view(s@)),
            None => list_under(v@, key@) is None,
        },
{
    match v.get(key) {
        Some(j) => match j.copy() {
            Json::Arr(items) => Some(items),
            _ => None,
        },
        None => None,
    }
}

} // verus!
