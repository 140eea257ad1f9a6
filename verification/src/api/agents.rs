//! Requests about agents.
use crate::api::reply::{self, Reply, ReplyV};
use crate::host::builtin;
use crate::host::registry::{self, AgentDef, AgentDefV};
use crate::host::state::{self, LlmHost};
use crate::host::tools;
use crate::json::{self, Json, JsonV};
use crate::text;
use vstd::prelude::*;

verus! {

broadcast use crate::text::views_push;

pub open spec fn agent_value(d: AgentDefV) -> JsonV {
    JsonV::Obj(
        seq![
            ("auto_compact"@, JsonV::Bool(d.auto_compact)),
            ("capabilities"@, registry::texts_json(d.capabilities)),
            ("compaction_ratio"@, JsonV::Num(d.compaction_ratio)),
            ("context_window"@, reply::number(d.context_window as int)),
            ("id"@, JsonV::Str(d.id)),
            ("instances"@, reply::number(d.instances as int)),
            ("max_history"@, reply::number(d.max_history as int)),
            ("model"@, JsonV::Str(d.model)),
            ("name"@, JsonV::Str(d.name)),
            ("system_prompt"@, JsonV::Str(d.system_prompt)),
        ],
    )
}

pub fn agent_json(d: &AgentDef) -> (r: Json)
    ensures
        r@ == agent_value(d@),
{
    let mut o = json::object();
    json::put(&mut o, "auto_compact", Json::Bool(d.auto_compact));
    json::put(&mut o, "capabilities", registry::texts_value(&d.capabilities));
    json::put(&mut o, "compaction_ratio", Json::Num(d.compaction_ratio.copy()));
    json::put(&mut o, "context_window", json::unsigned(d.context_window as u64));
    json::put(&mut o, "id", json::string(d.id.as_str()));
    json::put(&mut o, "instances", json::unsigned(d.instances as u64));
    json::put(&mut o, "max_history", json::unsigned(d.max_history as u64));
    json::put(&mut o, "model", json::string(d.model.as_str()));
    json::put(&mut o, "name", json::string(d.name.as_str()));
    json::put(&mut o, "system_prompt", json::string(d.system_prompt.as_str()));
    assert(json::members_view(o@) =~= agent_value(d@)->Obj_0);
    Json::Obj(o)
}

pub open spec fn agent_values(v: Seq<AgentDef>) -> Seq<JsonV> {
    v.map_values(|d: AgentDef| agent_value(d@))
}

fn agents_json(v: &Vec<AgentDef>) -> (r: Vec<Json>)
    ensures
        json::items_view(r@) == agent_values(v@),
{
    let ghost all = agent_values(v@);
    let mut out: Vec<Json> = Vec::new();
    let mut i: usize = 0;
    assert(json::items_view(out@) =~= all.take(0));
    while i < v.len()
        invariant
            i <= v@.len(),
            all == agent_values(v@),
            json::items_view(out@) == all.take(i as int),
        decreases v@.len() - i,
    {
        let j = agent_json(&v[i]);
        assert(j@ == all[i as int]);
        proof {
            json::lemma_items_push(out@, j);
        }
        out.push(j);
        i = i + 1;
        assert(json::items_view(out@) =~= all.take(i as int));
    }
    assert(all.take(i as int) =~= all);
    out
}

/// The agents, with their number.
pub struct AgentListResponse {
    pub agents: Vec<AgentDef>,
    pub total: usize,
}

impl AgentListResponse {
    pub fn to_json(&self) -> (r: Json)
        ensures
            r@ == JsonV::Obj(
                seq![
                    ("agents"@, JsonV::Arr(agent_values(self.agents@))),
                    ("total"@, reply::number(self.total as int)),
                ],
            ),
    {
        let list = agents_json(&self.agents);
        json::obj2("agents", Json::Arr(list), "total", json::unsigned(self.total as u64))
    }
}

/// The current version of every named agent.
pub fn list_agents(found: Result<Vec<AgentDef>, String>) -> (r: Reply)
    ensures
        r@ == match found {
            Ok(v) => reply::said_ok(
                JsonV::Obj(
                    seq![
                        ("agents"@, JsonV::Arr(agent_values(v@))),
                        ("total"@, reply::number(v@.len() as int)),
                    ],
                ),
            ),
            Err(e) => reply::db_refused(e@),
        },
{
    match found {
        Ok(v) => {
            let n: usize = v.len();
            Reply::ok(AgentListResponse { agents: v, total: n }.to_json())
        },
        Err(e) => Reply::db_error(e.as_str()),
    }
}

/// Every version of one agent, oldest first.
pub fn list_agent_versions(found: Result<Vec<AgentDef>, String>) -> (r: Reply)
    ensures
        r@ == match found {
            Ok(v) => if v@.len() == 0 {
                reply::refused(404, "unknown agent name"@)
            } else {
                reply::said_ok(
                    JsonV::Obj(
                        seq![
                            ("total"@, reply::number(v@.len() as int)),
                            ("versions"@, JsonV::Arr(agent_values(v@))),
                        ],
                    ),
                )
            },
            Err(e) => reply::db_refused(e@),
        },
{
    match found {
        Ok(v) => {
            if v.len() == 0 {
                return Reply::error(404, "unknown agent name");
            }
            let list = agents_json(&v);
            let n: usize = v.len();
            Reply::ok(json::obj2("total", json::unsigned(n as u64), "versions", Json::Arr(list)))
        },
        Err(e) => Reply::db_error(e.as_str()),
    }
}

// ---- validation ----

/// What is wrong with a model's name.
pub open spec fn model_fault(drivers: Seq<Seq<char>>, model: Seq<char>) -> Option<Seq<char>> {
    match state::model_parts(model) {
        None => Some("model must be in 'provider/model' form"@),
        Some((provider, _)) => if drivers.contains(provider) {
            None
        } else {
            Some("unknown provider in model"@)
        },
    }
}

/// The model has to be `provider/model` of a registered provider.
pub fn validate_agent_model(host: &LlmHost, model: &str) -> (r: Option<String>)
    ensures
        text::opt_text(r) == model_fault(host@.drivers, model@),
{
    match state::resolve_model(model) {
        None => Some(text::owned("model must be in 'provider/model' form")),
        Some((provider, _)) => if host.has_driver(provider.as_str()) {
            None
        } else {
            Some(text::owned("unknown provider in model"))
        },
    }
}

pub open spec fn names_view(v: Seq<Option<String>>) -> Seq<Option<Seq<char>>> {
    v.map_values(|n: Option<String>| text::opt_text(n))
}

/// What is wrong with a list of tools, `names` being the name of each where it is
/// known: one that is unknown, or two of one name.
pub open spec fn caps_fault(ids: Seq<Seq<char>>, names: Seq<Option<Seq<char>>>, i: int) -> Option<
    Seq<char>,
>
    decreases ids.len() - i,
{
    if i >= ids.len() || i < 0 {
        None
    } else {
        match names[i] {
            None => Some("unknown tool id '"@ + ids[i] + "'"@),
            Some(name) => if names.take(i).contains(Some(name)) {
                Some(
                    "duplicate tool '"@ + name
                        + "': bundled and custom tools with identical names cannot both be selected"@,
                )
            } else {
                caps_fault(ids, names, i + 1)
            },
        }
    }
}

/// Every entry has to be a known tool, and no two may share a name: a model
/// could not tell them apart.
pub fn validate_names(ids: &Vec<String>, names: &Vec<Option<String>>) -> (r: Option<String>)
    requires
        names@.len() == ids@.len(),
    ensures
        text::opt_text(r) == caps_fault(text::texts(ids@), names_view(names@), 0),
{
    let ghost iv = text::texts(ids@);
    let ghost nv = names_view(names@);
    let mut i: usize = 0;
    while i < ids.len()
        invariant
            i <= ids@.len(),
            names@.len() == ids@.len(),
            iv == text::texts(ids@),
            nv == names_view(names@),
            caps_fault(iv, nv, 0) == caps_fault(iv, nv, i as int),
        decreases ids@.len() - i,
    {
        assert(nv[i as int] == text::opt_text(names@[i as int]));
        match &names[i] {
            None => {
                return Some(
                    text::owned("unknown tool id '").concat(ids[i].as_str()).concat("'"),
                );
            },
            Some(name) => {
                let mut seen: bool = false;
                let mut k: usize = 0;
                while k < i
                    invariant
                        k <= i,
                        i < names@.len(),
                        nv == names_view(names@),
                        seen == nv.take(k as int).contains(Some(name@)),
                    decreases i - k,
                {
                    assert(nv[k as int] == text::opt_text(names@[k as int]));
                    assert(nv.take(k as int + 1) =~= nv.take(k as int).push(nv[k as int]));
                    let same: bool = match &names[k] {
                        Some(other) => text::same(other.as_str(), name.as_str()),
                        None => false,
                    };
                    proof {
                        lemma_push_contains(nv.take(k as int), nv[k as int], Some(name@));
                    }
                    if same {
                        seen = true;
                    }
                    k = k + 1;
                }
                if seen {
                    return Some(
                        text::owned("duplicate tool '").concat(name.as_str()).concat(
                            "': bundled and custom tools with identical names cannot both be selected",
                        ),
                    );
                }
            },
        }
        i = i + 1;
    }
    None
}

proof fn lemma_push_contains(s: Seq<Option<Seq<char>>>, y: Option<Seq<char>>, x: Option<Seq<char>>)
    ensures
        s.push(y).contains(x) <==> s.contains(x) || x == y,
{
    if s.contains(x) {
        let i = choose|i: int| 0 <= i < s.len() && s[i] == x;
        assert(s.push(y)[i] == x);
    }
    if x == y {
        assert(s.push(y)[s.len() as int] == x);
    }
}

/// The name of the tool of an id: that of the bundled tool, or else of the one stored.
pub open spec fn tool_name(id: Seq<char>, stored: Option<Seq<char>>) -> Option<Seq<char>> {
    if id == builtin::tool_id("time"@) {
        Some("time"@)
    } else if id == builtin::tool_id("bash"@) {
        Some("bash"@)
    } else {
        stored
    }
}

pub open spec fn tool_names(ids: Seq<Seq<char>>, stored: Seq<Option<Seq<char>>>) -> Seq<
    Option<Seq<char>>,
> {
    Seq::new(ids.len(), |i: int| tool_name(ids[i], stored[i]))
}

/// Validates a list of tools. `stored` holds the name of each where it is stored.
pub fn validate_agent_caps(ids: &Vec<String>, stored: &Vec<Option<String>>) -> (r: Option<String>)
    requires
        stored@.len() == ids@.len(),
    ensures
        text::opt_text(r) == caps_fault(
            text::texts(ids@),
            tool_names(text::texts(ids@), names_view(stored@)),
            0,
        ),
{
    let ghost all = tool_names(text::texts(ids@), names_view(stored@));
    let mut names: Vec<Option<String>> = Vec::new();
    let mut i: usize = 0;
    while i < ids.len()
        invariant
            i <= ids@.len(),
            stored@.len() == ids@.len(),
            all == tool_names(text::texts(ids@), names_view(stored@)),
            names@.len() == i,
            names_view(names@) == all.take(i as int),
        decreases ids@.len() - i,
    {
        assert(all[i as int] == tool_name(ids@[i as int]@, text::opt_text(stored@[i as int])));
        let name = match builtin::builtin_by_id(ids[i].as_str()) {
            Some(t) => Some(t.name),
            None => text::copy_opt(&stored[i]),
        };
        assert(text::opt_text(name) == all[i as int]);
        let ghost had = names@;
        names.push(name);
        i = i + 1;
        assert(names_view(names@) =~= names_view(had).push(text::opt_text(name)));
        assert(names_view(names@) =~= all.take(i as int));
    }
    assert(all.take(i as int) =~= all);
    validate_names(ids, &names)
}

pub open spec fn first_fault(model: Option<Seq<char>>, caps: Option<Seq<char>>) -> Option<ReplyV> {
    match model {
        Some(m) => Some(reply::refused(400, m)),
        None => match caps {
            Some(m) => Some(reply::refused(400, m)),
            None => None,
        },
    }
}

/// Why a new agent is refused: it has no name, its name is taken, or its model or
/// its tools are at fault.
pub fn refuse_new_agent(
    def: &AgentDef,
    taken: bool,
    host: &LlmHost,
    stored: &Vec<Option<String>>,
) -> (r: Option<Reply>)
    requires
        stored@.len() == def.capabilities@.len(),
    ensures
        reply::opt_reply(r) == if def@.name.len() == 0 {
            Some(reply::refused(400, "agent name is required"@))
        } else if taken {
            Some(reply::refused(409, "agent name already exists"@))
        } else {
            first_fault(
                model_fault(host@.drivers, def@.model),
                caps_fault(
                    def@.capabilities,
                    tool_names(def@.capabilities, names_view(stored@)),
                    0,
                ),
            )
        },
{
    if def.name.as_str().is_empty() {
        return Some(Reply::error(400, "agent name is required"));
    }
    if taken {
        return Some(Reply::error(409, "agent name already exists"));
    }
    refuse_agent(def, host, stored)
}

fn refuse_agent(def: &AgentDef, host: &LlmHost, stored: &Vec<Option<String>>) -> (r: Option<Reply>)
    requires
        stored@.len() == def.capabilities@.len(),
    ensures
        reply::opt_reply(r) == first_fault(
            model_fault(host@.drivers, def@.model),
            caps_fault(
                def@.capabilities,
                tool_names(def@.capabilities, names_view(stored@)),
                0,
            ),
        ),
{
    match validate_agent_model(host, def.model.as_str()) {
        Some(m) => Some(Reply::error(400, m.as_str())),
        None => match validate_agent_caps(&def.capabilities, stored) {
            Some(m) => Some(Reply::error(400, m.as_str())),
            None => None,
        },
    }
}

/// Why a new version is refused: its name is another, no agent has the name, or
/// its model or its tools are at fault.
pub fn refuse_new_version(
    def: &AgentDef,
    path_name: &str,
    known: bool,
    host: &LlmHost,
    stored: &Vec<Option<String>>,
) -> (r: Option<Reply>)
    requires
        stored@.len() == def.capabilities@.len(),
    ensures
        reply::opt_reply(r) == if def@.name != path_name@ {
            Some(reply::refused(400, "name in body must match path"@))
        } else if !known {
            Some(reply::refused(404, "unknown agent name"@))
        } else {
            first_fault(
                model_fault(host@.drivers, def@.model),
                caps_fault(
                    def@.capabilities,
                    tool_names(def@.capabilities, names_view(stored@)),
                    0,
                ),
            )
        },
{
    if !text::same(def.name.as_str(), path_name) {
        return Some(Reply::error(400, "name in body must match path"));
    }
    if !known {
        return Some(Reply::error(404, "unknown agent name"));
    }
    refuse_agent(def, host, stored)
}

/// What was done with an agent.
pub struct AgentCommandResponse {
    pub name: String,
    pub version_id: String,
    pub status: String,
}

impl AgentCommandResponse {
    pub open spec fn value(&self) -> JsonV {
        JsonV::Obj(
            seq![
                ("name"@, JsonV::Str(self.name@)),
                ("status"@, JsonV::Str(self.status@)),
                ("version_id"@, JsonV::Str(self.version_id@)),
            ],
        )
    }

    pub fn to_json(&self) -> (r: Json)
        ensures
            r@ == self.value(),
    {
        json::obj3(
            "name",
            json::string(self.name.as_str()),
            "status",
            json::string(self.status.as_str()),
            "version_id",
            json::string(self.version_id.as_str()),
        )
    }
}

pub open spec fn agent_done(name: Seq<char>, version: Seq<char>, status: Seq<char>) -> JsonV {
    JsonV::Obj(
        seq![
            ("name"@, JsonV::Str(name)),
            ("status"@, JsonV::Str(status)),
            ("version_id"@, JsonV::Str(version)),
        ],
    )
}

/// The answer to an agent or a version of one that was stored.
pub open spec fn saved(name: Seq<char>, version: Seq<char>, is_new: bool) -> ReplyV {
    if is_new {
        reply::said_created(agent_done(name, version, "created"@))
    } else {
        reply::said_ok(agent_done(name, version, "updated"@))
    }
}

/// A version was stored and its pool built, or that failed with an explanation.
pub fn agent_saved(name: &str, version_id: &str, is_new: bool, built: Result<(), String>) -> (r:
    Reply)
    ensures
        r@ == match built {
            Ok(_) => saved(name@, version_id@, is_new),
            Err(e) => reply::refused(500, e@),
        },
{
    match built {
        Ok(_) => {
            let done = AgentCommandResponse {
                name: text::owned(name),
                version_id: text::owned(version_id),
                status: if is_new {
                    text::owned("created")
                } else {
                    text::owned("updated")
                },
            };
            if is_new {
                Reply::created(done.to_json())
            } else {
                Reply::ok(done.to_json())
            }
        },
        Err(e) => Reply::error(500, e.as_str()),
    }
}

/// An agent's name was taken away.
pub struct AgentDeleteResponse {
    pub name: String,
    pub status: String,
}

impl AgentDeleteResponse {
    pub fn to_json(&self) -> (r: Json)
        ensures
            r@ == JsonV::Obj(
                seq![
                    ("name"@, JsonV::Str(self.name@)),
                    ("status"@, JsonV::Str(self.status@)),
                ],
            ),
    {
        json::obj2(
            "name",
            json::string(self.name.as_str()),
            "status",
            json::string(self.status.as_str()),
        )
    }
}

/// The answer to the deletion of an agent, of which `n` names were removed.
pub open spec fn deleted(name: Seq<char>, n: nat) -> ReplyV {
    if n == 0 {
        reply::refused(404, "unknown agent name"@)
    } else {
        reply::said_ok(
            JsonV::Obj(seq![("name"@, JsonV::Str(name)), ("status"@, JsonV::Str("deleted"@))]),
        )
    }
}

/// The reply to a deletion that removed the given number of names.
pub fn agent_deleted(name: &str, done: Result<usize, String>) -> (r: Reply)
    ensures
        r@ == match done {
            Ok(n) => deleted(name@, n as nat),
            Err(e) => reply::db_refused(e@),
        },
{
    match done {
        Ok(0) => Reply::error(404, "unknown agent name"),
        Ok(_) => Reply::ok(
            AgentDeleteResponse {
                name: text::owned(name),
                status: text::owned("deleted"),
            }.to_json(),
        ),
        Err(e) => Reply::db_error(e.as_str()),
    }
}

// ---- laws ----

/// A list of tools that is accepted never leaves a model in doubt: its tools are
/// known and their names differ.
pub proof fn accepted_tools_have_distinct_names(
    ids: Seq<Seq<char>>,
    names: Seq<Option<Seq<char>>>,
    i: int,
    j: int,
)
    requires
        names.len() == ids.len(),
        caps_fault(ids, names, 0) is None,
        0 <= i < j < ids.len(),
    ensures
        names[i] is Some,
        names[j] is Some,
        names[i] != names[j],
{
    lemma_accepted(ids, names, 0, i);
    lemma_accepted(ids, names, 0, j);
    if names[i] == names[j] {
        assert(names.take(j)[i] == names[i]);
        assert(names.take(j).contains(names[j]));
    }
}

proof fn lemma_accepted(ids: Seq<Seq<char>>, names: Seq<Option<Seq<char>>>, from: int, j: int)
    requires
        names.len() == ids.len(),
        caps_fault(ids, names, from) is None,
        0 <= from <= j < ids.len(),
    ensures
        names[j] is Some,
        !names.take(j).contains(names[j]),
    decreases j - from,
{
    if from < j {
        lemma_accepted(ids, names, from + 1, j);
    }
}

/// An agent that is accepted has a model whose stream can be opened.
pub proof fn accepted_models_can_be_asked(h: state::LlmHostV, model: Seq<char>)
    ensures
        model_fault(h.drivers, model) is None <==> state::refusal(h, model) is None,
{
}

} // verus!
