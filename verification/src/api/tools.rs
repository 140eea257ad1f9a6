//! Requests about tools.
use crate::api::reply::{self, Reply, ReplyV};
use crate::host::builtin;
use crate::host::ids;
use crate::host::tools::{self, ToolDef, ToolRunner};
use crate::json::{self, Json, JsonV};
use crate::shell::vars::{self, Env, Pairs};
use crate::text;
use vstd::prelude::*;

verus! {

broadcast use crate::text::views_push;

/// A custom tool as it is sent. The module is in base64; an update without one
/// keeps the stored module.
pub struct ToolReq {
    pub name: String,
    pub description: String,
    pub parameters: Json,
    pub env: Env,
    pub wasm_b64: Option<String>,
}

// ---- the list ----

pub open spec fn env_value(p: Pairs) -> JsonV {
    JsonV::Obj(p.map_values(|e: (Seq<char>, Seq<char>)| (e.0, JsonV::Str(e.1))))
}

pub open spec fn tool_value(s: tools::SpecV, env: Pairs) -> JsonV {
    JsonV::Obj(
        seq![
            ("description"@, JsonV::Str(s.description)),
            ("env"@, env_value(env)),
            ("id"@, JsonV::Str(s.id)),
            ("name"@, JsonV::Str(s.name)),
            ("parameters"@, s.parameters),
        ],
    )
}

pub open spec fn tool_values(v: Seq<ToolDef>) -> Seq<JsonV> {
    v.map_values(|d: ToolDef| tool_value(tools::shape(d), d.env@))
}

fn env_json(e: &Env) -> (r: Json)
    ensures
        r@ == env_value(e@),
{
    let ghost all = e@.map_values(|x: (Seq<char>, Seq<char>)| (x.0, JsonV::Str(x.1)));
    let mut o = json::object();
    let mut i: usize = 0;
    assert(json::members_view(o@) =~= all.take(0));
    while i < e.entries.len()
        invariant
            i <= e.entries@.len(),
            all == vars::pairs_view(e.entries@).map_values(
                |x: (Seq<char>, Seq<char>)| (x.0, JsonV::Str(x.1)),
            ),
            json::members_view(o@) == all.take(i as int),
        decreases e.entries@.len() - i,
    {
        json::put(&mut o, e.entries[i].0.as_str(), json::string(e.entries[i].1.as_str()));
        i = i + 1;
        assert(json::members_view(o@) =~= all.take(i as int));
    }
    assert(all.take(i as int) =~= all);
    Json::Obj(o)
}

pub fn tool_json(d: &ToolDef) -> (r: Json)
    ensures
        r@ == tool_value(tools::shape(*d), d.env@),
{
    let mut o = json::object();
    json::put(&mut o, "description", json::string(d.description.as_str()));
    json::put(&mut o, "env", env_json(&d.env));
    json::put(&mut o, "id", json::string(d.id.as_str()));
    json::put(&mut o, "name", json::string(d.name.as_str()));
    json::put(&mut o, "parameters", d.parameters.copy());
    assert(json::members_view(o@) =~= tool_value(tools::shape(*d), d.env@)->Obj_0);
    Json::Obj(o)
}

fn tools_json(v: &Vec<ToolDef>) -> (r: Vec<Json>)
    ensures
        json::items_view(r@) == tool_values(v@),
{
    let ghost all = tool_values(v@);
    let mut out: Vec<Json> = Vec::new();
    let mut i: usize = 0;
    assert(json::items_view(out@) =~= all.take(0));
    while i < v.len()
        invariant
            i <= v@.len(),
            all == tool_values(v@),
            json::items_view(out@) == all.take(i as int),
        decreases v@.len() - i,
    {
        let j = tool_json(&v[i]);
        assert(j@ == all[i as int]);
        proof {
            json::lemma_items_push(out@, j);
        }
        out.push(j);
        i = i + 1;
        assert(json::items_view(out@) =~= all.take(i as int));
    }
    assert(all.take(i as int) =~= all);
    out
}

pub open spec fn counted_list(builtins: Seq<JsonV>, customs: Seq<JsonV>, total: int) -> JsonV {
    JsonV::Obj(
        seq![
            ("builtins"@, JsonV::Arr(builtins)),
            ("customs"@, JsonV::Arr(customs)),
            ("total"@, reply::number(total)),
        ],
    )
}

pub open spec fn tool_list(builtins: Seq<JsonV>, customs: Seq<JsonV>) -> JsonV {
    counted_list(builtins, customs, (builtins.len() + customs.len()) as int)
}

/// The bundled tools and the custom ones, with the number of both.
pub struct ToolListResponse {
    pub builtins: Vec<ToolDef>,
    pub customs: Vec<ToolDef>,
    pub total: usize,
}

impl ToolListResponse {
    pub fn to_json(&self) -> (r: Json)
        ensures
            r@ == counted_list(
                tool_values(self.builtins@),
                tool_values(self.customs@),
                self.total as int,
            ),
    {
        let b = tools_json(&self.builtins);
        let c = tools_json(&self.customs);
        json::obj3(
            "builtins",
            Json::Arr(b),
            "customs",
            Json::Arr(c),
            "total",
            json::unsigned(self.total as u64),
        )
    }
}

/// The bundled tools that the runner has, as values.
pub open spec fn bundled_values(running: Set<Seq<char>>) -> Seq<JsonV> {
    let time = builtin::tool_id("time"@);
    let bash = builtin::tool_id("bash"@);
    (if running.contains(time) {
        seq![tool_value(builtin::time_shape(time), seq![])]
    } else {
        seq![]
    }) + (if running.contains(bash) {
        seq![tool_value(builtin::bash_shape(bash), seq![])]
    } else {
        seq![]
    })
}

/// The tools: the bundled ones that run, which cannot be changed, and the custom
/// ones.
pub fn list_tools(runner: &ToolRunner, found: Result<Vec<ToolDef>, String>) -> (r: Reply)
    requires
        runner.wf(),
        match found {
            Ok(v) => v@.len() <= usize::MAX - 2,
            Err(_) => true,
        },
    ensures
        match found {
            Ok(v) => r@ == reply::said_ok(
                tool_list(bundled_values(runner@.dom()), tool_values(v@)),
            ),
            Err(e) => r@ == reply::db_refused(e@),
        },
{
    let v = match found {
        Ok(v) => v,
        Err(e) => {
            return Reply::db_error(e.as_str());
        },
    };
    let mut all = builtin::builtin_tools();
    assert(all@[0].env@ =~= seq![]);
    assert(all@[1].env@ =~= seq![]);
    let second = all.pop();
    let first = all.pop();
    let mut b: Vec<ToolDef> = Vec::new();
    assert(tool_values(b@) =~= seq![]);
    if let Some(d) = first {
        if runner.get(d.id.as_str()).is_some() {
            b.push(d);
        }
    }
    let ghost head = tool_values(b@);
    if let Some(d) = second {
        if runner.get(d.id.as_str()).is_some() {
            b.push(d);
            assert(tool_values(b@) =~= head.push(tool_value(tools::shape(d), d.env@)));
        }
    }
    assert(tool_values(b@) =~= bundled_values(runner@.dom()));
    let n: usize = b.len() + v.len();
    Reply::ok(ToolListResponse { builtins: b, customs: v, total: n }.to_json())
}

// ---- names ----

/// A provider takes names of letters, digits, underscores and hyphens only.
pub open spec fn is_tool_name(s: Seq<char>) -> bool {
    &&& s.len() > 0
    &&& forall|i: int| 0 <= i < s.len() ==> tools::is_safe(#[trigger] s[i])
}

pub fn valid_tool_name(name: &str) -> (r: bool)
    ensures
        r == is_tool_name(name@),
{
    let v = text::chars_of(name);
    let mut i: usize = 0;
    while i < v.len()
        invariant
            v@ == name@,
            i <= v@.len(),
            forall|k: int| 0 <= k < i ==> tools::is_safe(#[trigger] v@[k]),
        decreases v@.len() - i,
    {
        let c = v[i];
        if !(('a' <= c && c <= 'z') || ('A' <= c && c <= 'Z') || ('0' <= c && c <= '9') || c == '-'
            || c == '_') {
            assert(!tools::is_safe(name@[i as int]));
            return false;
        }
        i = i + 1;
    }
    v.len() > 0
}

pub fn invalid_tool_name(name: &str) -> (r: Option<&'static str>)
    ensures
        match r {
            Some(m) => !is_tool_name(name@) && m@ == "tool names may only contain [a-zA-Z0-9_-]"@,
            None => is_tool_name(name@),
        },
{
    if valid_tool_name(name) {
        None
    } else {
        Some("tool names may only contain [a-zA-Z0-9_-]")
    }
}

/// Another custom tool has that name.
pub open spec fn name_taken(customs: Seq<ToolDef>, name: Seq<char>, own_id: Option<Seq<char>>) -> bool {
    exists|i: int|
        0 <= i < customs.len() && (#[trigger] customs[i]).name@ == name && own_id != Some(
            customs[i].id@,
        )
}

fn is_taken(customs: &Vec<ToolDef>, name: &str, own_id: Option<&str>) -> (r: bool)
    ensures
        r == name_taken(
            customs@,
            name@,
            match own_id {
                Some(x) => Some(x@),
                None => None,
            },
        ),
{
    let mut i: usize = 0;
    while i < customs.len()
        invariant
            i <= customs@.len(),
            forall|k: int|
                0 <= k < i ==> !((#[trigger] customs@[k]).name@ == name@ && match own_id {
                    Some(x) => x@ != customs@[k].id@,
                    None => true,
                }),
        decreases customs@.len() - i,
    {
        if text::same(customs[i].name.as_str(), name) {
            let own: bool = match own_id {
                Some(x) => text::same(x, customs[i].id.as_str()),
                None => false,
            };
            if !own {
                return true;
            }
        }
        i = i + 1;
    }
    false
}

pub open spec fn bad_name() -> ReplyV {
    reply::refused(400, "tool names may only contain [a-zA-Z0-9_-]"@)
}

pub open spec fn name_conflict() -> ReplyV {
    reply::refused(409, "a custom tool with this name already exists"@)
}

/// Why a new tool is refused.
pub fn refuse_new_tool(name: &str, customs: &Vec<ToolDef>) -> (r: Option<Reply>)
    ensures
        reply::opt_reply(r) == if !is_tool_name(name@) {
            Some(bad_name())
        } else if name_taken(customs@, name@, None) {
            Some(name_conflict())
        } else {
            None
        },
{
    if let Some(m) = invalid_tool_name(name) {
        return Some(Reply::error(400, m));
    }
    if is_taken(customs, name, None) {
        return Some(Reply::error(409, "a custom tool with this name already exists"));
    }
    None
}

/// Why a change of a tool is refused, given whether it is bundled and the name
/// under which it is stored.
pub fn refuse_change(
    id: &str,
    name: &str,
    bundled: bool,
    stored_name: &Option<String>,
    customs: &Vec<ToolDef>,
) -> (r: Option<Reply>)
    ensures
        reply::opt_reply(r) == if bundled {
            Some(reply::refused(400, "bundled tools cannot be modified"@))
        } else {
            match text::opt_text(*stored_name) {
                None => Some(reply::refused(404, "unknown tool id"@)),
                Some(was) => if name@ != was && name_taken(customs@, name@, Some(id@)) {
                    Some(name_conflict())
                } else if !is_tool_name(name@) {
                    Some(bad_name())
                } else {
                    None
                },
            }
        },
{
    if bundled {
        return Some(Reply::error(400, "bundled tools cannot be modified"));
    }
    match stored_name {
        None => Some(Reply::error(404, "unknown tool id")),
        Some(was) => {
            if !text::same(name, was.as_str()) && is_taken(customs, name, Some(id)) {
                return Some(Reply::error(409, "a custom tool with this name already exists"));
            }
            match invalid_tool_name(name) {
                Some(m) => Some(Reply::error(400, m)),
                None => None,
            }
        },
    }
}

/// Whether a tool is bundled.
pub fn is_bundled(id: &str) -> (r: bool)
    ensures
        r == (id@ == builtin::tool_id("time"@) || id@ == builtin::tool_id("bash"@)),
{
    builtin::builtin_by_id(id).is_some()
}

// ---- modules ----

/// The bytes that a base64 text stands for, or why it stands for none.
pub uninterp spec fn base64_bytes(s: Seq<char>) -> Result<Seq<u8>, Seq<char>>;

/// `base64::Engine::decode` with the standard alphabet and padding. Which bytes
/// and which explanation come out is left to the name `base64_bytes`.
#[verifier::external_body]
fn base64_decode(s: &str) -> (r: Result<Vec<u8>, String>)
    ensures
        match r {
            Ok(b) => base64_bytes(s@) == Ok::<Seq<u8>, Seq<char>>(b@),
            Err(e) => base64_bytes(s@) == Err::<Seq<u8>, Seq<char>>(e@),
        },
{
    match base64::Engine::decode(&base64::engine::general_purpose::STANDARD, s) {
        Ok(b) => Ok(b),
        Err(e) => Err(e.to_string()),
    }
}

/// The module of a tool: what was sent, or on an update without one what is
/// stored. An empty module and one that does not decode are refused.
pub open spec fn module(
    sent: Option<Result<Seq<u8>, Seq<char>>>,
    is_new: bool,
    stored: Option<Seq<u8>>,
) -> Result<Seq<u8>, ReplyV> {
    match sent {
        Some(Ok(b)) => if b.len() == 0 {
            Err(reply::refused(400, "wasm must not be empty"@))
        } else {
            Ok(b)
        },
        Some(Err(e)) => Err(reply::refused(400, "invalid base64 wasm: "@ + e)),
        None => if is_new {
            Err(reply::refused(400, "wasm_b64 is required"@))
        } else {
            match stored {
                Some(b) => Ok(b),
                None => Err(reply::refused(404, "unknown tool id"@)),
            }
        },
    }
}

pub open spec fn bytes_view(b: Option<Vec<u8>>) -> Option<Seq<u8>> {
    match b {
        Some(v) => Some(v@),
        None => None,
    }
}

pub open spec fn decoded_view(d: Option<Result<Vec<u8>, String>>) -> Option<
    Result<Seq<u8>, Seq<char>>,
> {
    match d {
        Some(Ok(b)) => Some(Ok(b@)),
        Some(Err(e)) => Some(Err(e@)),
        None => None,
    }
}

/// The module of a tool, given what the text that was sent decodes to.
pub fn pick_module(
    sent: Option<Result<Vec<u8>, String>>,
    is_new: bool,
    stored: Option<Vec<u8>>,
) -> (r: Result<Vec<u8>, Reply>)
    ensures
        match r {
            Ok(b) => module(decoded_view(sent), is_new, bytes_view(stored)) == Ok::<
                Seq<u8>,
                ReplyV,
            >(b@),
            Err(e) => module(decoded_view(sent), is_new, bytes_view(stored)) == Err::<
                Seq<u8>,
                ReplyV,
            >(e@),
        },
{
    match sent {
        Some(Ok(b)) => if b.len() == 0 {
            Err(Reply::error(400, "wasm must not be empty"))
        } else {
            Ok(b)
        },
        Some(Err(e)) => {
            let m = text::owned("invalid base64 wasm: ").concat(e.as_str());
            Err(Reply::error(400, m.as_str()))
        },
        None => if is_new {
            Err(Reply::error(400, "wasm_b64 is required"))
        } else {
            match stored {
                Some(b) => Ok(b),
                None => Err(Reply::error(404, "unknown tool id")),
            }
        },
    }
}

pub open spec fn sent_module(b64: Option<Seq<char>>) -> Option<Result<Seq<u8>, Seq<char>>> {
    match b64 {
        Some(s) => Some(base64_bytes(s)),
        None => None,
    }
}

/// The module of a tool that is sent.
pub fn tool_module(wasm_b64: &Option<String>, is_new: bool, stored: Option<Vec<u8>>) -> (r: Result<
    Vec<u8>,
    Reply,
>)
    ensures
        match r {
            Ok(b) => module(
                sent_module(text::opt_text(*wasm_b64)),
                is_new,
                bytes_view(stored),
            ) == Ok::<Seq<u8>, ReplyV>(b@),
            Err(e) => module(
                sent_module(text::opt_text(*wasm_b64)),
                is_new,
                bytes_view(stored),
            ) == Err::<Seq<u8>, ReplyV>(e@),
        },
{
    let sent = match wasm_b64 {
        Some(s) => Some(base64_decode(s.as_str())),
        None => None,
    };
    pick_module(sent, is_new, stored)
}

/// The definition of a tool under an id.
pub fn tool_under(req: &ToolReq, id: String) -> (r: ToolDef)
    ensures
        tools::shape(r) == (tools::SpecV {
            id: id@,
            name: req.name@,
            description: req.description@,
            parameters: req.parameters@,
        }),
        r.env@ == req.env@,
{
    ToolDef {
        id,
        name: req.name.clone(),
        description: req.description.clone(),
        parameters: req.parameters.copy(),
        env: req.env.copy(),
    }
}

/// The definition of a tool that is sent: under its id, or a new one.
pub fn tool_of(req: &ToolReq, id: &Option<String>) -> (r: ToolDef)
    ensures
        match text::opt_text(*id) {
            Some(x) => tools::shape(r).id == x,
            None => ids::is_uuid(tools::shape(r).id),
        },
        tools::shape(r).name == req.name@,
        tools::shape(r).description == req.description@,
        tools::shape(r).parameters == req.parameters@,
        r.env@ == req.env@,
{
    let id = match id {
        Some(x) => x.clone(),
        None => ids::random_hyphenated(),
    };
    tool_under(req, id)
}

/// What was done with a tool.
pub struct ToolCommandResponse {
    pub id: String,
    pub name: String,
    pub status: String,
}

pub open spec fn tool_done(id: Seq<char>, name: Seq<char>, status: Seq<char>) -> JsonV {
    JsonV::Obj(
        seq![
            ("id"@, JsonV::Str(id)),
            ("name"@, JsonV::Str(name)),
            ("status"@, JsonV::Str(status)),
        ],
    )
}

impl ToolCommandResponse {
    pub fn to_json(&self) -> (r: Json)
        ensures
            r@ == tool_done(self.id@, self.name@, self.status@),
    {
        json::obj3(
            "id",
            json::string(self.id.as_str()),
            "name",
            json::string(self.name.as_str()),
            "status",
            json::string(self.status.as_str()),
        )
    }
}

/// How far a tool came: it was stored and compiled, or one of these failed.
pub enum Saved {
    Done,
    NotStored(String),
    NotCompiled(String),
}

pub fn tool_saved(id: &str, name: &str, is_new: bool, saved: Saved) -> (r: Reply)
    ensures
        r@ == match saved {
            Saved::Done => if is_new {
                reply::said_created(tool_done(id@, name@, "created"@))
            } else {
                reply::said_ok(tool_done(id@, name@, "updated"@))
            },
            Saved::NotStored(e) => reply::db_refused(e@),
            Saved::NotCompiled(e) => reply::refused(500, "tool compile failed: "@ + e@),
        },
{
    match saved {
        Saved::Done => {
            let status = if is_new {
                text::owned("created")
            } else {
                text::owned("updated")
            };
            let body = ToolCommandResponse {
                id: text::owned(id),
                name: text::owned(name),
                status,
            }.to_json();
            if is_new {
                Reply::created(body)
            } else {
                Reply::ok(body)
            }
        },
        Saved::NotStored(e) => Reply::db_error(e.as_str()),
        Saved::NotCompiled(e) => {
            let m = text::owned("tool compile failed: ").concat(e.as_str());
            Reply::error(500, m.as_str())
        },
    }
}

/// A tool was deleted. `removed` is how many were stored under its id.
pub fn tool_deleted(id: &str, bundled: bool, removed: Result<usize, String>) -> (r: Reply)
    ensures
        r@ == if bundled {
            reply::refused(400, "bundled tools cannot be deleted"@)
        } else {
            match removed {
                Ok(n) => if n == 0 {
                    reply::refused(404, "unknown tool id"@)
                } else {
                    reply::said_ok(
                        JsonV::Obj(
                            seq![("id"@, JsonV::Str(id@)), ("status"@, JsonV::Str("deleted"@))],
                        ),
                    )
                },
                Err(e) => reply::db_refused(e@),
            }
        },
{
    if bundled {
        return Reply::error(400, "bundled tools cannot be deleted");
    }
    match removed {
        Ok(n) => if n == 0 {
            Reply::error(404, "unknown tool id")
        } else {
            Reply::ok(json::obj2("id", json::string(id), "status", json::string("deleted")))
        },
        Err(e) => Reply::db_error(e.as_str()),
    }
}

// ---- laws ----

/// A tool that is stored always has a module that is not empty, and a name that
/// providers take.
pub proof fn stored_tools_are_usable(
    sent: Option<Result<Seq<u8>, Seq<char>>>,
    is_new: bool,
    stored: Option<Seq<u8>>,
)
    requires
        stored matches Some(b) ==> b.len() > 0,
    ensures
        module(sent, is_new, stored) matches Ok(b) ==> b.len() > 0,
{
}

/// A tool name that is accepted is its own directory name.
pub proof fn accepted_names_are_safe(s: Seq<char>)
    requires
        is_tool_name(s),
    ensures
        tools::sanitized(s) == s,
{
    lemma_sanitized(s);
}

proof fn lemma_sanitized(s: Seq<char>)
    requires
        forall|i: int| 0 <= i < s.len() ==> tools::is_safe(#[trigger] s[i]),
    ensures
        tools::sanitized(s) == s,
    decreases s.len(),
{
    if s.len() > 0 {
        let p = s.drop_last();
        assert forall|i: int| 0 <= i < p.len() implies tools::is_safe(#[trigger] p[i]) by {
            assert(tools::is_safe(s[i]));
        }
        lemma_sanitized(p);
        assert(p.push(s.last()) =~= s);
    }
}

} // verus!
