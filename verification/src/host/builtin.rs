//! The bundled tools.
use crate::host::ids;
use crate::host::tools::{self, ToolDef};
use crate::json::{self, Json, JsonV};
use crate::shell::vars::Env;
use crate::text;
use vstd::prelude::*;

verus! {

/// The namespace in which built-in tools get their ids.
pub const TOOL_ID_NAMESPACE: u128 = 0x6361_7273_6f6e_5f74_6f6f_6c5f_6964_7301;

/// A module that is baked into the program.
#[derive(Debug, Clone, Copy, PartialEq, Eq, Structural)]
pub enum Module {
    Time,
    Bash,
}

/// The module of a built-in tool, if any.
pub fn embedded_tool(name: &str) -> (r: Option<Module>)
    ensures
        r == (if name@ == "time"@ {
            Some(Module::Time)
        } else if name@ == "bash"@ {
            Some(Module::Bash)
        } else {
            None
        }),
{
    if text::same(name, "time") {
        Some(Module::Time)
    } else if text::same(name, "bash") {
        Some(Module::Bash)
    } else {
        None
    }
}

/// The id of the built-in tool of that name.
pub open spec fn tool_id(name: Seq<char>) -> Seq<char> {
    ids::uuid_v5(TOOL_ID_NAMESPACE, name)
}

/// The deterministic id of a built-in tool by its bare name.
pub fn builtin_id(name: &str) -> (r: String)
    ensures
        r@ == tool_id(name@),
        ids::is_uuid(r@),
{
    ids::named(TOOL_ID_NAMESPACE, name)
}

pub open spec fn time_parameters() -> JsonV {
    JsonV::Obj(seq![("type"@, JsonV::Str("object"@))])
}

pub open spec fn described(kind: Seq<char>, description: Seq<char>) -> JsonV {
    JsonV::Obj(seq![("description"@, JsonV::Str(description)), ("type"@, JsonV::Str(kind))])
}

pub open spec fn bash_parameters() -> JsonV {
    JsonV::Obj(
        seq![
            (
                "properties"@,
                JsonV::Obj(
                    seq![
                        (
                            "command"@,
                            described("string"@, "A bash one-liner or multi-line script"@),
                        ),
                        (
                            "cwd"@,
                            described(
                                "string"@,
                                "Working directory relative to the sandbox root"@,
                            ),
                        ),
                        (
                            "env"@,
                            described("object"@, "Extra environment variables for the script"@),
                        ),
                    ],
                ),
            ),
            ("required"@, JsonV::Arr(seq![JsonV::Str("command"@)])),
            ("type"@, JsonV::Str("object"@)),
        ],
    )
}

pub open spec fn time_shape(id: Seq<char>) -> tools::SpecV {
    tools::SpecV {
        id,
        name: "time"@,
        description: "Return the current UTC time in ISO 8601 format"@,
        parameters: time_parameters(),
    }
}

pub open spec fn bash_shape(id: Seq<char>) -> tools::SpecV {
    tools::SpecV {
        id,
        name: "bash"@,
        description: "Run bash scripts in a sandboxed virtual filesystem rooted at / with /bin (coreutils commands, runnable via /bin/<cmd> or PATH=/bin), /tmp and /home/carson (the home, also the default cwd). Builtins: cd, pwd, echo, printf, export, unset, set, env, test, true, false, exit. Commands: most GNU coreutils (ls, cat, cp, mv, rm, mkdir, touch, date, head, tail, sort, wc, ...). Arguments: {command, cwd?, env?}."@,
        parameters: bash_parameters(),
    }
}

fn described_value(kind: &str, description: &str) -> (r: Json)
    ensures
        r@ == described(kind@, description@),
{
    let mut o = json::object();
    json::put(&mut o, "description", json::string(description));
    json::put(&mut o, "type", json::string(kind));
    assert(json::members_view(o@) =~= seq![
        ("description"@, JsonV::Str(description@)),
        ("type"@, JsonV::Str(kind@)),
    ]);
    Json::Obj(o)
}

fn time_tool(id: String) -> (r: ToolDef)
    ensures
        tools::shape(r) == time_shape(id@),
        r.env@.len() == 0,
{
    let mut o = json::object();
    json::put(&mut o, "type", json::string("object"));
    assert(json::members_view(o@) =~= seq![("type"@, JsonV::Str("object"@))]);
    ToolDef {
        id,
        name: text::owned("time"),
        description: text::owned("Return the current UTC time in ISO 8601 format"),
        parameters: Json::Obj(o),
        env: Env::new(),
    }
}

fn bash_tool(id: String) -> (r: ToolDef)
    ensures
        tools::shape(r) == bash_shape(id@),
        r.env@.len() == 0,
{
    let mut p = json::object();
    json::put(
        &mut p,
        "command",
        described_value("string", "A bash one-liner or multi-line script"),
    );
    json::put(
        &mut p,
        "cwd",
        described_value("string", "Working directory relative to the sandbox root"),
    );
    json::put(
        &mut p,
        "env",
        described_value("object", "Extra environment variables for the script"),
    );
    let ghost pv = json::members_view(p@);
    assert(pv =~= seq![
        ("command"@, described("string"@, "A bash one-liner or multi-line script"@)),
        ("cwd"@, described("string"@, "Working directory relative to the sandbox root"@)),
        ("env"@, described("object"@, "Extra environment variables for the script"@)),
    ]);
    let mut required: Vec<Json> = Vec::new();
    let c = json::string("command");
    proof {
        json::lemma_items_push(required@, c);
    }
    required.push(c);
    let ghost rv = json::items_view(required@);
    assert(rv =~= seq![JsonV::Str("command"@)]);
    let mut o = json::object();
    json::put(&mut o, "properties", Json::Obj(p));
    json::put(&mut o, "required", Json::Arr(required));
    json::put(&mut o, "type", json::string("object"));
    assert(json::members_view(o@) =~= seq![
        ("properties"@, JsonV::Obj(pv)),
        ("required"@, JsonV::Arr(rv)),
        ("type"@, JsonV::Str("object"@)),
    ]);
    ToolDef {
        id,
        name: text::owned("bash"),
        description: text::owned(
            "Run bash scripts in a sandboxed virtual filesystem rooted at / with /bin (coreutils commands, runnable via /bin/<cmd> or PATH=/bin), /tmp and /home/carson (the home, also the default cwd). Builtins: cd, pwd, echo, printf, export, unset, set, env, test, true, false, exit. Commands: most GNU coreutils (ls, cat, cp, mv, rm, mkdir, touch, date, head, tail, sort, wc, ...). Arguments: {command, cwd?, env?}.",
        ),
        parameters: Json::Obj(o),
        env: Env::new(),
    }
}

/// The bundled tools, fixed by the code.
pub fn builtin_tools() -> (r: Vec<ToolDef>)
    ensures
        r@.len() == 2,
        tools::shape(r@[0]) == time_shape(tool_id("time"@)),
        tools::shape(r@[1]) == bash_shape(tool_id("bash"@)),
        r@[0].env@.len() == 0,
        r@[1].env@.len() == 0,
{
    let mut v: Vec<ToolDef> = Vec::new();
    v.push(time_tool(builtin_id("time")));
    v.push(bash_tool(builtin_id("bash")));
    v
}

/// The bundled tool of that id, the ids of the bundled tools being given.
pub fn builtin_among(id: &str, time_id: &str, bash_id: &str) -> (r: Option<ToolDef>)
    ensures
        match r {
            Some(t) => t.env@.len() == 0 && tools::shape(t) == (if id@ == time_id@ {
                time_shape(id@)
            } else {
                bash_shape(id@)
            }) && (id@ == time_id@ || id@ == bash_id@),
            None => id@ != time_id@ && id@ != bash_id@,
        },
{
    if text::same(id, time_id) {
        Some(time_tool(text::owned(id)))
    } else if text::same(id, bash_id) {
        Some(bash_tool(text::owned(id)))
    } else {
        None
    }
}

/// Looks up a built-in tool by its id.
pub fn builtin_by_id(id: &str) -> (r: Option<ToolDef>)
    ensures
        match r {
            Some(t) => t.env@.len() == 0 && tools::shape(t) == (if id@ == tool_id("time"@) {
                time_shape(id@)
            } else {
                bash_shape(id@)
            }) && (id@ == tool_id("time"@) || id@ == tool_id("bash"@)),
            None => id@ != tool_id("time"@) && id@ != tool_id("bash"@),
        },
{
    let time_id = builtin_id("time");
    let bash_id = builtin_id("bash");
    builtin_among(id, time_id.as_str(), bash_id.as_str())
}

} // verus!
