//! The tools an agent may use and the sandboxes they run in.
use crate::host::table::{self, Table};
use crate::json::{self, Json, JsonV};
use crate::shell::vars::{self, Env, Pairs};
use crate::text;
use vstd::prelude::*;

verus! {

broadcast use crate::text::views_push;

/// How much of a command's output is kept.
pub const SHELL_MAX_OUTPUT: usize = 32_768;

/// A registered tool's public shape. Its identity is the id, never the name.
#[derive(Debug)]
pub struct ToolSpec {
    pub id: String,
    pub name: String,
    pub description: String,
    pub parameters: Json,
}

pub struct SpecV {
    pub id: Seq<char>,
    pub name: Seq<char>,
    pub description: Seq<char>,
    pub parameters: JsonV,
}

impl View for ToolSpec {
    type V = SpecV;

    open spec fn view(&self) -> SpecV {
        SpecV {
            id: self.id@,
            name: self.name@,
            description: self.description@,
            parameters: self.parameters@,
        }
    }
}

impl ToolSpec {
    pub fn copy(&self) -> (r: ToolSpec)
        ensures
            r@ == self@,
    {
        ToolSpec {
            id: self.id.clone(),
            name: self.name.clone(),
            description: self.description.clone(),
            parameters: self.parameters.copy(),
        }
    }
}

pub open spec fn spec_views(v: Seq<ToolSpec>) -> Seq<SpecV> {
    v.map_values(|s: ToolSpec| s@)
}

/// A tool definition. Built-in tools carry an id made from their name, uploaded
/// ones a random id.
pub struct ToolDef {
    pub id: String,
    pub name: String,
    pub description: String,
    pub parameters: Json,
    pub env: Env,
}

/// The tool's public shape.
pub open spec fn shape(d: ToolDef) -> SpecV {
    SpecV {
        id: d.id@,
        name: d.name@,
        description: d.description@,
        parameters: d.parameters@,
    }
}

impl ToolDef {
    pub fn spec_of(&self) -> (r: ToolSpec)
        ensures
            r@ == shape(*self),
    {
        ToolSpec {
            id: self.id.clone(),
            name: self.name.clone(),
            description: self.description.clone(),
            parameters: self.parameters.copy(),
        }
    }

    pub fn copy(&self) -> (r: ToolDef)
        ensures
            shape(r) == shape(*self),
            r.env@ == self.env@,
    {
        ToolDef {
            id: self.id.clone(),
            name: self.name.clone(),
            description: self.description.clone(),
            parameters: self.parameters.copy(),
            env: self.env.copy(),
        }
    }

    /// The definition that a registered tool's shape stands for.
    pub fn from_spec(spec: &ToolSpec) -> (r: ToolDef)
        ensures
            shape(r) == spec@,
            r.env@ == Seq::<(Seq<char>, Seq<char>)>::empty(),
    {
        ToolDef {
            id: spec.id.clone(),
            name: spec.name.clone(),
            description: spec.description.clone(),
            parameters: spec.parameters.copy(),
            env: Env::new(),
        }
    }
}

// ---- capabilities ----

/// The tool ids an agent may use.
pub struct Capabilities {
    pub ids: Vec<String>,
}

/// A tool of that id and name is registered.
pub open spec fn named(specs: Seq<SpecV>, id: Seq<char>, name: Seq<char>) -> bool {
    exists|i: int| 0 <= i < specs.len() && (#[trigger] specs[i]).id == id && specs[i].name == name
}

/// The ids whose tool has that name, in their order.
pub open spec fn candidates(ids: Seq<Seq<char>>, specs: Seq<SpecV>, name: Seq<char>) -> Seq<
    Seq<char>,
>
    decreases ids.len(),
{
    if ids.len() == 0 {
        seq![]
    } else if named(specs, ids.last(), name) {
        candidates(ids.drop_last(), specs, name).push(ids.last())
    } else {
        candidates(ids.drop_last(), specs, name)
    }
}

/// The one id whose tool has that name.
pub open spec fn resolved(ids: Seq<Seq<char>>, specs: Seq<SpecV>, name: Seq<char>) -> Option<
    Seq<char>,
> {
    let c = candidates(ids, specs, name);
    if c.len() == 1 {
        Some(c[0])
    } else {
        None
    }
}

fn is_named(specs: &[ToolSpec], id: &str, name: &str) -> (r: bool)
    ensures
        r == named(spec_views(specs@), id@, name@),
{
    let ghost v = spec_views(specs@);
    let n: usize = specs.len();
    let mut i: usize = 0;
    while i < n
        invariant
            n == specs@.len(),
            i <= n,
            v == spec_views(specs@),
            forall|k: int| 0 <= k < i ==> !((#[trigger] v[k]).id == id@ && v[k].name == name@),
        decreases n - i,
    {
        assert(v[i as int] == specs@[i as int]@);
        if text::same(specs[i].id.as_str(), id) && text::same(specs[i].name.as_str(), name) {
            return true;
        }
        i = i + 1;
    }
    false
}

impl Capabilities {
    pub fn from_ids(ids: Vec<String>) -> (r: Capabilities)
        ensures
            r.ids == ids,
    {
        Capabilities { ids }
    }

    /// Resolves a bare name to the selected tool id. An ambiguous set resolves to
    /// nothing rather than to a guess.
    pub fn resolve_bare_name<'a>(&'a self, specs: &'a [ToolSpec], name: &str) -> (r: Option<&'a str>)
        ensures
            match r {
                Some(id) => resolved(text::texts(self.ids@), spec_views(specs@), name@) == Some(id@),
                None => resolved(text::texts(self.ids@), spec_views(specs@), name@) is None,
            },
    {
        let ghost ids = text::texts(self.ids@);
        let ghost v = spec_views(specs@);
        let mut only: Option<usize> = None;
        let mut many: bool = false;
        let mut i: usize = 0;
        assert(ids.take(0) =~= seq![]);
        while i < self.ids.len()
            invariant
                i <= self.ids@.len(),
                ids == text::texts(self.ids@),
                v == spec_views(specs@),
                match only {
                    Some(k) => k < self.ids@.len() && candidates(ids.take(i as int), v, name@).len()
                        >= 1 && candidates(ids.take(i as int), v, name@)[0] == self.ids@[k as int]@,
                    None => !many && candidates(ids.take(i as int), v, name@).len() == 0,
                },
                many == (candidates(ids.take(i as int), v, name@).len() > 1),
            decreases self.ids@.len() - i,
        {
            assert(ids.take(i as int + 1).drop_last() =~= ids.take(i as int));
            assert(ids.take(i as int + 1).last() == self.ids@[i as int]@);
            if is_named(specs, self.ids[i].as_str(), name) {
                if only.is_some() {
                    many = true;
                } else {
                    only = Some(i);
                }
            }
            i = i + 1;
        }
        assert(ids.take(i as int) =~= ids);
        if many {
            None
        } else {
            match only {
                Some(k) => Some(self.ids[k].as_str()),
                None => None,
            }
        }
    }
}

impl Default for Capabilities {
    fn default() -> (r: Capabilities)
        ensures
            r.ids@ == Seq::<String>::empty(),
    {
        Capabilities { ids: Vec::new() }
    }
}

/// A tool as a model sees it: known by its name, never by its id.
#[derive(Debug)]
pub struct ToolDefinition {
    pub name: String,
    pub description: String,
    pub parameters_json: String,
}

pub struct DefinitionV {
    pub name: Seq<char>,
    pub description: Seq<char>,
    pub parameters_json: Seq<char>,
}

impl View for ToolDefinition {
    type V = DefinitionV;

    open spec fn view(&self) -> DefinitionV {
        DefinitionV {
            name: self.name@,
            description: self.description@,
            parameters_json: self.parameters_json@,
        }
    }
}

pub open spec fn definition_views(v: Seq<ToolDefinition>) -> Seq<DefinitionV> {
    v.map_values(|d: ToolDefinition| d@)
}

/// The place of the first tool of that id, from `i` on, or the length.
pub open spec fn spec_at(specs: Seq<SpecV>, id: Seq<char>, i: int) -> int
    decreases specs.len() - i,
{
    if i >= specs.len() {
        specs.len() as int
    } else if specs[i].id == id {
        i
    } else {
        spec_at(specs, id, i + 1)
    }
}

pub open spec fn advertised(s: SpecV) -> DefinitionV {
    DefinitionV {
        name: s.name,
        description: s.description,
        parameters_json: json::json_text(s.parameters),
    }
}

/// The agent's tools that are registered, in the order of its capabilities.
pub open spec fn listed(ids: Seq<Seq<char>>, specs: Seq<SpecV>) -> Seq<DefinitionV>
    decreases ids.len(),
{
    if ids.len() == 0 {
        seq![]
    } else {
        let rest = listed(ids.drop_last(), specs);
        let at = spec_at(specs, ids.last(), 0);
        if at < specs.len() {
            rest.push(advertised(specs[at]))
        } else {
            rest
        }
    }
}

/// Advertises the agent's selected tools by their bare names.
pub fn list_tools(caps: &Capabilities, specs: &[ToolSpec]) -> (r: Vec<ToolDefinition>)
    ensures
        definition_views(r@) == listed(text::texts(caps.ids@), spec_views(specs@)),
{
    let ghost ids = text::texts(caps.ids@);
    let ghost v = spec_views(specs@);
    let n: usize = specs.len();
    let mut out: Vec<ToolDefinition> = Vec::new();
    let mut i: usize = 0;
    assert(ids.take(0) =~= seq![]);
    assert(definition_views(out@) =~= seq![]);
    while i < caps.ids.len()
        invariant
            i <= caps.ids@.len(),
            n == specs@.len(),
            ids == text::texts(caps.ids@),
            v == spec_views(specs@),
            definition_views(out@) == listed(ids.take(i as int), v),
        decreases caps.ids@.len() - i,
    {
        assert(ids.take(i as int + 1).drop_last() =~= ids.take(i as int));
        assert(ids.take(i as int + 1).last() == caps.ids@[i as int]@);
        let mut k: usize = 0;
        while k < n && !text::same(specs[k].id.as_str(), caps.ids[i].as_str())
            invariant
                i < caps.ids@.len(),
                k <= n,
                n == specs@.len(),
                v == spec_views(specs@),
                spec_at(v, caps.ids@[i as int]@, 0) == spec_at(v, caps.ids@[i as int]@, k as int),
            decreases n - k,
        {
            assert(v[k as int] == specs@[k as int]@);
            k = k + 1;
        }
        if k < n {
            assert(v[k as int] == specs@[k as int]@);
            let d = ToolDefinition {
                name: specs[k].name.clone(),
                description: specs[k].description.clone(),
                parameters_json: json::render(&specs[k].parameters),
            };
            let ghost had = out@;
            out.push(d);
            assert(definition_views(out@) =~= definition_views(had).push(d@));
        }
        i = i + 1;
    }
    assert(ids.take(i as int) =~= ids);
    out
}

/// Why a tool gave no result.
#[derive(Debug, Clone, Copy, PartialEq, Eq, Structural)]
pub enum ToolError {
    NotFound,
    PermissionDenied,
    Failed,
}

/// The id of the tool that a call by bare name goes to.
pub fn invoke_target(caps: &Capabilities, specs: &[ToolSpec], name: &str) -> (r: Result<
    String,
    ToolError,
>)
    ensures
        match r {
            Ok(id) => resolved(text::texts(caps.ids@), spec_views(specs@), name@) == Some(id@),
            Err(e) => e == ToolError::PermissionDenied && resolved(
                text::texts(caps.ids@),
                spec_views(specs@),
                name@,
            ) is None,
        },
{
    match caps.resolve_bare_name(specs, name) {
        Some(id) => Ok(text::owned(id)),
        None => Err(ToolError::PermissionDenied),
    }
}

/// What the caller is told of a run: none where the tool is gone.
pub fn invoke_outcome(ran: Option<Result<String, String>>) -> (r: Result<String, ToolError>)
    ensures
        r == match ran {
            Some(Ok(out)) => Ok(out),
            Some(Err(_)) => Err(ToolError::Failed),
            None => Err(ToolError::NotFound),
        },
{
    match ran {
        Some(Ok(out)) => Ok(out),
        Some(Err(_)) => Err(ToolError::Failed),
        None => Err(ToolError::NotFound),
    }
}

// ---- the registered tools ----

/// A registered tool: its shape, the variables it runs with and whether it is
/// the shell, which runs in a sandbox directory.
pub struct Registered {
    pub spec: ToolSpec,
    pub env: Env,
    pub shell: bool,
}

pub struct RegisteredV {
    pub spec: SpecV,
    pub env: Pairs,
    pub shell: bool,
}

impl View for Registered {
    type V = RegisteredV;

    open spec fn view(&self) -> RegisteredV {
        RegisteredV { spec: self.spec@, env: self.env@, shell: self.shell }
    }
}

/// The registered tools by id.
pub struct ToolRunner {
    pub tools: Table<Registered>,
}

impl View for ToolRunner {
    type V = Map<Seq<char>, RegisteredV>;

    open spec fn view(&self) -> Map<Seq<char>, RegisteredV> {
        self.tools@.map_values(|t: Registered| t@)
    }
}

/// The shapes of a list of registered tools.
pub open spec fn entry_specs(v: Seq<(String, Registered)>) -> Seq<SpecV> {
    v.map_values(|e: (String, Registered)| e.1.spec@)
}

impl ToolRunner {
    pub open spec fn wf(&self) -> bool {
        &&& self.tools.wf()
        &&& forall|i: int|
            0 <= i < self.tools.entries@.len() ==> (#[trigger] self.tools.entries@[i]).0@
                == self.tools.entries@[i].1.spec@.id
    }

    pub fn new() -> (r: ToolRunner)
        ensures
            r.wf(),
            r@ == Map::<Seq<char>, RegisteredV>::empty(),
    {
        let r = ToolRunner { tools: Table::new() };
        proof {
            table::lemma_dict(r.tools.entries@);
            if r.tools.entries@.len() > 0 {
                assert(r.tools@.dom().contains(r.tools.entries@[0].0@));
            }
            assert(r@ =~= Map::<Seq<char>, RegisteredV>::empty());
        }
        r
    }

    /// Registers a tool under its id, in place of one that had it.
    pub fn register(&mut self, def: &ToolDef, shell: bool)
        requires
            old(self).wf(),
        ensures
            final(self).wf(),
            final(self)@ == old(self)@.insert(
                def.id@,
                RegisteredV { spec: shape(*def), env: def.env@, shell },
            ),
    {
        let ghost before = self@;
        let t = Registered { spec: def.spec_of(), env: def.env.copy(), shell };
        let ghost held = self.tools.entries@;
        let ghost m = self.tools@;
        self.tools.insert(def.id.clone(), t);
        proof {
            table::lemma_dict(self.tools.entries@);
            table::lemma_dict(held);
            assert forall|i: int| 0 <= i < self.tools.entries@.len() implies (
            #[trigger] self.tools.entries@[i]).0@ == self.tools.entries@[i].1.spec@.id by {
                let e = self.tools.entries@[i];
                assert(self.tools@.dom().contains(e.0@));
                if e.0@ != def.id@ {
                    assert(m.dom().contains(e.0@));
                    let j = choose|j: int| 0 <= j < held.len() && (#[trigger] held[j]).0@ == e.0@;
                    assert(m[e.0@] == held[j].1);
                    assert(self.tools@[e.0@] == e.1);
                }
            }
            assert(self@ =~= before.insert(
                def.id@,
                RegisteredV { spec: shape(*def), env: def.env@, shell },
            ));
        }
    }

    /// Takes a tool out; whether it was there.
    pub fn remove(&mut self, id: &str) -> (r: bool)
        requires
            old(self).wf(),
        ensures
            final(self).wf(),
            final(self)@ == old(self)@.remove(id@),
            r == old(self)@.dom().contains(id@),
    {
        let ghost before = self@;
        let ghost held = self.tools.entries@;
        let ghost m = self.tools@;
        let r: bool = self.tools.remove(id);
        proof {
            table::lemma_dict(self.tools.entries@);
            table::lemma_dict(held);
            assert forall|i: int| 0 <= i < self.tools.entries@.len() implies (
            #[trigger] self.tools.entries@[i]).0@ == self.tools.entries@[i].1.spec@.id by {
                let e = self.tools.entries@[i];
                assert(self.tools@.dom().contains(e.0@));
                assert(m.dom().contains(e.0@));
                let j = choose|j: int| 0 <= j < held.len() && (#[trigger] held[j]).0@ == e.0@;
                assert(m[e.0@] == held[j].1);
                assert(self.tools@[e.0@] == e.1);
            }
            assert(self@ =~= before.remove(id@));
        }
        r
    }

    /// The tool that a run of `id` goes to.
    pub fn get(&self, id: &str) -> (r: Option<&Registered>)
        requires
            self.wf(),
        ensures
            match r {
                Some(t) => self@.dom().contains(id@) && self@[id@] == t@,
                None => !self@.dom().contains(id@),
            },
    {
        self.tools.get(id)
    }

    /// The shapes of all tools.
    pub fn specs(&self) -> (r: Vec<ToolSpec>)
        requires
            self.wf(),
        ensures
            spec_views(r@) == entry_specs(self.tools.entries@),
            forall|id: Seq<char>| #[trigger]
                self@.dom().contains(id) <==> exists|i: int|
                    0 <= i < r@.len() && (#[trigger] r@[i])@.id == id,
            forall|i: int|
                0 <= i < r@.len() ==> self@.dom().contains((#[trigger] r@[i])@.id)
                    && self@[r@[i]@.id].spec == r@[i]@,
    {
        let mut out: Vec<ToolSpec> = Vec::new();
        let ghost es = self.tools.entries@;
        let ghost all = entry_specs(es);
        let mut i: usize = 0;
        while i < self.tools.entries.len()
            invariant
                i <= self.tools.entries@.len(),
                all == entry_specs(self.tools.entries@),
                spec_views(out@) == all.take(i as int),
            decreases self.tools.entries@.len() - i,
        {
            let s = self.tools.entries[i].1.spec.copy();
            assert(s@ == all[i as int]);
            out.push(s);
            i = i + 1;
            assert(spec_views(out@) =~= all.take(i as int));
        }
        assert(all.take(i as int) =~= all);
        proof {
            table::lemma_dict(es);
            assert(out@.len() == es.len()) by {
                assert(spec_views(out@).len() == all.len());
            }
            assert forall|i: int| 0 <= i < out@.len() implies (#[trigger] out@[i])@ == es[i].1.spec@ by {
                assert(spec_views(out@)[i] == all[i]);
            }
            assert forall|id: Seq<char>| #[trigger] self@.dom().contains(id) implies exists|i: int|
                0 <= i < out@.len() && (#[trigger] out@[i])@.id == id by {
                let i = choose|i: int| 0 <= i < es.len() && (#[trigger] es[i]).0@ == id;
                assert(out@[i]@.id == id);
            }
            assert forall|i: int| 0 <= i < out@.len() implies self@.dom().contains(
                (#[trigger] out@[i])@.id,
            ) && self@[out@[i]@.id].spec == out@[i]@ by {
                assert(es[i].0@ == out@[i]@.id);
            }
        }
        out
    }
}

// ---- sandboxes ----

pub open spec fn is_safe(c: char) -> bool {
    ||| 'a' <= c && c <= 'z'
    ||| 'A' <= c && c <= 'Z'
    ||| '0' <= c && c <= '9'
    ||| c == '-'
    ||| c == '_'
}

/// The letters, digits, hyphens and underscores of an id.
pub open spec fn sanitized(s: Seq<char>) -> Seq<char>
    decreases s.len(),
{
    if s.len() == 0 {
        s
    } else if is_safe(s.last()) {
        sanitized(s.drop_last()).push(s.last())
    } else {
        sanitized(s.drop_last())
    }
}

/// An id as the name of a directory.
pub fn sanitize(id: &str) -> (r: String)
    ensures
        r@ == sanitized(id@),
{
    let v = text::chars_of(id);
    let mut out = String::new();
    let mut i: usize = 0;
    assert(out@ =~= sanitized(id@.take(0)));
    while i < v.len()
        invariant
            v@ == id@,
            i <= v@.len(),
            out@ == sanitized(id@.take(i as int)),
        decreases v@.len() - i,
    {
        assert(id@.take(i as int + 1).drop_last() =~= id@.take(i as int));
        let c = v[i];
        if ('a' <= c && c <= 'z') || ('A' <= c && c <= 'Z') || ('0' <= c && c <= '9') || c == '-'
            || c == '_' {
            out.push(c);
        }
        i = i + 1;
    }
    assert(id@.take(i as int) =~= id@);
    out
}

/// One step along a path: `.` stays, `..` goes back unless that would leave the
/// first directory, anything else goes down.
pub open spec fn walked(at: Seq<Seq<char>>, part: Seq<char>) -> Seq<Seq<char>> {
    if part == "."@ {
        at
    } else if part == ".."@ {
        if at.len() > 1 {
            at.drop_last()
        } else {
            at
        }
    } else {
        at.push(part)
    }
}

pub open spec fn walk(parts: Seq<Seq<char>>) -> Seq<Seq<char>>
    decreases parts.len(),
{
    if parts.len() == 0 {
        seq![]
    } else {
        walked(walk(parts.drop_last()), parts.last())
    }
}

/// The directories from the sandbox root down.
pub open spec fn guest_dirs(cwd: Seq<char>) -> Seq<Seq<char>> {
    walk(text::pieces(text::Sep::Slash, seq![], cwd))
}

/// A path under the sandbox root.
pub open spec fn guest_path(dirs: Seq<Seq<char>>) -> Seq<char> {
    if dirs.len() == 0 {
        "/"@
    } else {
        "/"@ + text::joined(dirs, "/"@)
    }
}

/// The working directory as a guest sees it: a path under the sandbox root.
pub fn resolve_guest_cwd(cwd: &str) -> (r: String)
    ensures
        r@ == guest_path(guest_dirs(cwd@)),
{
    let parts = text::split_pieces(text::Sep::Slash, cwd);
    let ghost p = text::texts(parts@);
    let mut dirs: Vec<String> = Vec::new();
    let mut i: usize = 0;
    assert(p.take(0) =~= seq![]);
    assert(text::texts(dirs@) =~= seq![]);
    while i < parts.len()
        invariant
            i <= parts@.len(),
            p == text::texts(parts@),
            text::texts(dirs@) == walk(p.take(i as int)),
        decreases parts@.len() - i,
    {
        assert(p.take(i as int + 1).drop_last() =~= p.take(i as int));
        assert(p.take(i as int + 1).last() == parts@[i as int]@);
        let ghost had = dirs@;
        let part = parts[i].as_str();
        if text::same(part, ".") {
        } else if text::same(part, "..") {
            if dirs.len() > 1 {
                let _ = dirs.pop();
                assert(text::texts(dirs@) =~= text::texts(had).drop_last());
            }
        } else {
            dirs.push(parts[i].clone());
            assert(text::texts(dirs@) =~= text::texts(had).push(part@));
        }
        i = i + 1;
    }
    assert(p.take(i as int) =~= p);
    if dirs.len() == 0 {
        text::owned("/")
    } else {
        let path = text::join(&dirs, 0, "/");
        assert(text::texts(dirs@).skip(0) =~= text::texts(dirs@));
        text::owned("/").concat(path.as_str())
    }
}

/// The variables every shell process starts with.
pub open spec fn default_env() -> Pairs {
    vars::with(
        vars::with(
            vars::with(
                vars::with(seq![], "HOME"@, "/home/carson"@),
                "USER"@,
                "carson"@,
            ),
            "LOGNAME"@,
            "carson"@,
        ),
        "PATH"@,
        "/bin"@,
    )
}

/// The variables of a shell process: the defaults, overridden by the tool's own.
pub fn process_env(env: &Env) -> (r: Env)
    ensures
        r@ == vars::with_all(default_env(), env@),
        vars::ordered(r@),
{
    let mut e = Env::new();
    e.set(text::owned("HOME"), text::owned("/home/carson"));
    e.set(text::owned("USER"), text::owned("carson"));
    e.set(text::owned("LOGNAME"), text::owned("carson"));
    e.set(text::owned("PATH"), text::owned("/bin"));
    e.set_all(env);
    e
}

/// The variables of one command: those of a shell process, and where it runs.
pub fn command_env(env: &Env, cwd: &str) -> (r: Env)
    ensures
        r@ == vars::with(
            vars::with_all(default_env(), env@),
            "CARSON_CWD"@,
            guest_path(guest_dirs(cwd@)),
        ),
        vars::ordered(r@),
{
    let mut e = process_env(env);
    e.set(text::owned("CARSON_CWD"), resolve_guest_cwd(cwd));
    e
}

/// The first `SHELL_MAX_OUTPUT` bytes.
pub open spec fn capped(b: Seq<u8>) -> Seq<u8> {
    if b.len() > SHELL_MAX_OUTPUT {
        b.take(SHELL_MAX_OUTPUT as int)
    } else {
        b
    }
}

pub fn cap_output(b: &[u8]) -> (r: Vec<u8>)
    ensures
        r@ == capped(b@),
{
    let n: usize = b.len();
    let to: usize = if n > SHELL_MAX_OUTPUT {
        SHELL_MAX_OUTPUT
    } else {
        n
    };
    let mut out: Vec<u8> = Vec::new();
    let head = vstd::slice::slice_subrange(b, 0, to);
    out.extend_from_slice(head);
    assert(out@ =~= capped(b@));
    out
}

// ---- laws ----

/// A bare name never reaches a tool that the agent was not given.
pub proof fn resolution_stays_within_the_grant(
    ids: Seq<Seq<char>>,
    specs: Seq<SpecV>,
    name: Seq<char>,
)
    ensures
        match resolved(ids, specs, name) {
            Some(id) => ids.contains(id) && named(specs, id, name),
            None => true,
        },
{
    lemma_candidates(ids, specs, name);
}

proof fn lemma_candidates(ids: Seq<Seq<char>>, specs: Seq<SpecV>, name: Seq<char>)
    ensures
        forall|i: int|
            0 <= i < candidates(ids, specs, name).len() ==> ids.contains(
                #[trigger] candidates(ids, specs, name)[i],
            ) && named(specs, candidates(ids, specs, name)[i], name),
    decreases ids.len(),
{
    if ids.len() > 0 {
        let p = ids.drop_last();
        lemma_candidates(p, specs, name);
        let c = candidates(ids, specs, name);
        assert forall|i: int| 0 <= i < c.len() implies ids.contains(#[trigger] c[i]) && named(
            specs,
            c[i],
            name,
        ) by {
            if i < candidates(p, specs, name).len() {
                assert(c[i] == candidates(p, specs, name)[i]);
                let k = choose|k: int| 0 <= k < p.len() && p[k] == c[i];
                assert(ids[k] == c[i]);
            } else {
                assert(ids[ids.len() - 1] == c[i]);
            }
        }
    }
}

/// Without capabilities nothing resolves and nothing is advertised.
pub proof fn no_capabilities_allow_nothing(specs: Seq<SpecV>, name: Seq<char>)
    ensures
        resolved(seq![], specs, name) is None,
        listed(seq![], specs).len() == 0,
{
}

/// Two granted tools of one name are not told apart by it.
pub proof fn an_ambiguous_name_resolves_to_nothing(
    ids: Seq<Seq<char>>,
    specs: Seq<SpecV>,
    name: Seq<char>,
    i: int,
    j: int,
)
    requires
        0 <= i < j < ids.len(),
        named(specs, ids[i], name),
        named(specs, ids[j], name),
    ensures
        resolved(ids, specs, name) is None,
    decreases ids.len(),
{
    lemma_counted(ids, specs, name, i, j);
}

proof fn lemma_counted(ids: Seq<Seq<char>>, specs: Seq<SpecV>, name: Seq<char>, i: int, j: int)
    requires
        0 <= i < j < ids.len(),
        named(specs, ids[i], name),
        named(specs, ids[j], name),
    ensures
        candidates(ids, specs, name).len() > 1,
    decreases ids.len(),
{
    let p = ids.drop_last();
    if j < ids.len() - 1 {
        lemma_counted(p, specs, name, i, j);
    } else {
        lemma_counted_one(p, specs, name, i);
    }
}

proof fn lemma_counted_one(ids: Seq<Seq<char>>, specs: Seq<SpecV>, name: Seq<char>, i: int)
    requires
        0 <= i < ids.len(),
        named(specs, ids[i], name),
    ensures
        candidates(ids, specs, name).len() > 0,
    decreases ids.len(),
{
    if i < ids.len() - 1 {
        lemma_counted_one(ids.drop_last(), specs, name, i);
    }
}

/// The name of a sandbox directory never leads out of its parent.
pub proof fn sanitized_names_no_path(s: Seq<char>)
    ensures
        forall|i: int| 0 <= i < sanitized(s).len() ==> is_safe(#[trigger] sanitized(s)[i]),
        !sanitized(s).contains('/'),
        !sanitized(s).contains('.'),
    decreases s.len(),
{
    if s.len() > 0 {
        sanitized_names_no_path(s.drop_last());
    }
}

/// A guest's directory is spelled without `.` and `..`, so it stays under the root.
pub proof fn guest_dirs_are_plain(cwd: Seq<char>, i: int)
    requires
        0 <= i < guest_dirs(cwd).len(),
    ensures
        guest_dirs(cwd)[i] != "."@,
        guest_dirs(cwd)[i] != ".."@,
{
    lemma_walk_is_plain(text::pieces(text::Sep::Slash, seq![], cwd), i);
}

proof fn lemma_walk_is_plain(parts: Seq<Seq<char>>, i: int)
    requires
        0 <= i < walk(parts).len(),
    ensures
        walk(parts)[i] != "."@,
        walk(parts)[i] != ".."@,
    decreases parts.len(),
{
    let p = parts.drop_last();
    if i < walk(p).len() {
        lemma_walk_is_plain(p, i);
    }
}

} // verus!
