//! Agent definitions and the pools of instances that run them.
use crate::agent::session::SessionConfig;
use crate::host::table::Table;
use crate::json::{self, Json, JsonV, Number, NumberV};
use crate::text;
use vstd::prelude::*;

verus! {

broadcast use crate::text::views_push;

/// One immutable version of an agent. Every edit makes a new version with an id
/// of its own; the name points at the current one.
pub struct AgentDef {
    pub id: String,
    pub name: String,
    pub system_prompt: String,
    pub model: String,
    pub instances: usize,
    pub max_history: usize,
    pub context_window: usize,
    pub compaction_ratio: Number,
    pub auto_compact: bool,
    pub capabilities: Vec<String>,
}

pub struct AgentDefV {
    pub id: Seq<char>,
    pub name: Seq<char>,
    pub system_prompt: Seq<char>,
    pub model: Seq<char>,
    pub instances: nat,
    pub max_history: nat,
    pub context_window: nat,
    pub compaction_ratio: NumberV,
    pub auto_compact: bool,
    pub capabilities: Seq<Seq<char>>,
}

impl View for AgentDef {
    type V = AgentDefV;

    open spec fn view(&self) -> AgentDefV {
        AgentDefV {
            id: self.id@,
            name: self.name@,
            system_prompt: self.system_prompt@,
            model: self.model@,
            instances: self.instances as nat,
            max_history: self.max_history as nat,
            context_window: self.context_window as nat,
            compaction_ratio: self.compaction_ratio@,
            auto_compact: self.auto_compact,
            capabilities: text::texts(self.capabilities@),
        }
    }
}

pub fn copy_texts(v: &Vec<String>) -> (r: Vec<String>)
    ensures
        text::texts(r@) == text::texts(v@),
{
    let ghost all = text::texts(v@);
    let mut out: Vec<String> = Vec::new();
    let mut i: usize = 0;
    while i < v.len()
        invariant
            i <= v@.len(),
            all == text::texts(v@),
            text::texts(out@) == all.take(i as int),
        decreases v@.len() - i,
    {
        let s = v[i].clone();
        assert(s@ == all[i as int]);
        out.push(s);
        i = i + 1;
        assert(text::texts(out@) =~= all.take(i as int));
    }
    assert(all.take(i as int) =~= all);
    out
}

/// What an agent has where nothing else is said. The ratio at which its history
/// is summarized is four fifths.
pub open spec fn default_agent(name: Seq<char>, model: Seq<char>) -> AgentDefV {
    AgentDefV {
        id: seq![],
        name,
        system_prompt: seq![],
        model,
        instances: 1,
        max_history: 40,
        context_window: 128_000,
        compaction_ratio: NumberV::Other("0.8"@),
        auto_compact: true,
        capabilities: seq![],
    }
}

impl AgentDef {
    /// An agent of which only the name and the model are said.
    pub fn named(name: String, model: String) -> (r: AgentDef)
        ensures
            r@ == default_agent(name@, model@),
    {
        let none: Vec<String> = Vec::new();
        let empty = String::new();
        assert(text::texts(none@) =~= seq![]);
        assert(empty@ =~= seq![]);
        AgentDef {
            id: empty.clone(),
            name,
            system_prompt: empty,
            model,
            instances: 1,
            max_history: 40,
            context_window: 128_000,
            compaction_ratio: Number::Other(text::owned("0.8")),
            auto_compact: true,
            capabilities: none,
        }
    }

    pub fn copy(&self) -> (r: AgentDef)
        ensures
            r@ == self@,
    {
        AgentDef {
            id: self.id.clone(),
            name: self.name.clone(),
            system_prompt: self.system_prompt.clone(),
            model: self.model.clone(),
            instances: self.instances,
            max_history: self.max_history,
            context_window: self.context_window,
            compaction_ratio: self.compaction_ratio.copy(),
            auto_compact: self.auto_compact,
            capabilities: copy_texts(&self.capabilities),
        }
    }
}

/// A provider of models. The key comes back to the one who edits it.
#[derive(Debug, PartialEq)]
pub struct ProviderDef {
    pub name: String,
    pub base_url: String,
    pub api_key: Option<String>,
}

pub struct ProviderDefV {
    pub name: Seq<char>,
    pub base_url: Seq<char>,
    pub api_key: Option<Seq<char>>,
}

impl View for ProviderDef {
    type V = ProviderDefV;

    open spec fn view(&self) -> ProviderDefV {
        ProviderDefV {
            name: self.name@,
            base_url: self.base_url@,
            api_key: text::opt_text(self.api_key),
        }
    }
}

/// A list of texts as JSON.
pub open spec fn texts_json(v: Seq<Seq<char>>) -> JsonV {
    JsonV::Arr(v.map_values(|s: Seq<char>| JsonV::Str(s)))
}

pub fn texts_value(v: &Vec<String>) -> (r: Json)
    ensures
        r@ == texts_json(text::texts(v@)),
{
    let ghost all = text::texts(v@).map_values(|s: Seq<char>| JsonV::Str(s));
    let mut out: Vec<Json> = Vec::new();
    let mut i: usize = 0;
    assert(json::items_view(out@) =~= all.take(0));
    while i < v.len()
        invariant
            i <= v@.len(),
            all == text::texts(v@).map_values(|s: Seq<char>| JsonV::Str(s)),
            json::items_view(out@) == all.take(i as int),
        decreases v@.len() - i,
    {
        let j = json::string(v[i].as_str());
        assert(j@ == all[i as int]);
        proof {
            json::lemma_items_push(out@, j);
        }
        out.push(j);
        i = i + 1;
        assert(json::items_view(out@) =~= all.take(i as int));
    }
    assert(all.take(i as int) =~= all);
    Json::Arr(out)
}

// ---- pools ----

/// The instances of one version of an agent, and whose turn is next.
pub struct AgentPool {
    pub def: AgentDef,
    pub instances: usize,
    pub turn: usize,
}

/// The number in 32 bits, the low ones.
pub open spec fn low32(n: usize) -> u32 {
    n as u32
}

/// How many instances a pool gets: at least one.
pub open spec fn pool_size(d: AgentDefV) -> nat {
    if d.instances == 0 {
        1
    } else {
        d.instances
    }
}

impl AgentPool {
    pub fn from_def(def: &AgentDef) -> (r: AgentPool)
        ensures
            r.def@ == def@,
            r.instances == pool_size(def@),
            r.turn == 0,
    {
        let n: usize = if def.instances == 0 {
            1
        } else {
            def.instances
        };
        AgentPool { def: def.copy(), instances: n, turn: 0 }
    }

    /// The configuration of a session of this version. `compact_at` is the number
    /// of tokens that the version's window and ratio come to.
    pub fn config(&self, compact_at: u64) -> (r: SessionConfig)
        ensures
            r.agent_version_id@ == self.def@.id,
            r.system_prompt@ == self.def@.system_prompt,
            r.model@ == self.def@.model,
            r.capabilities_json@ == json::json_text(texts_json(self.def@.capabilities)),
            r.max_history == low32(self.def.max_history),
            r.compact_at == compact_at,
            r.auto_compact == self.def@.auto_compact,
    {
        let caps = texts_value(&self.def.capabilities);
        SessionConfig {
            agent_version_id: self.def.id.clone(),
            system_prompt: self.def.system_prompt.clone(),
            model: self.def.model.clone(),
            capabilities_json: json::render(&caps),
            max_history: #[verifier::truncate] (self.def.max_history as u32),
            compact_at,
            auto_compact: self.def.auto_compact,
        }
    }

    /// The instance whose turn it is.
    pub fn next(&mut self) -> (r: usize)
        requires
            old(self).instances > 0,
        ensures
            r == old(self).turn % old(self).instances,
            r < old(self).instances,
            final(self).def == old(self).def,
            final(self).instances == old(self).instances,
            final(self).turn == if old(self).turn == usize::MAX {
                0
            } else {
                (old(self).turn + 1) as usize
            },
    {
        let i: usize = self.turn % self.instances;
        self.turn = if self.turn == usize::MAX {
            0
        } else {
            self.turn + 1
        };
        i
    }
}

/// The pools by version id. A version that a session is pinned to stays, though
/// its name points elsewhere.
pub struct AgentRegistry {
    pub pools: Table<AgentPool>,
}

impl View for AgentRegistry {
    type V = Map<Seq<char>, AgentPool>;

    open spec fn view(&self) -> Map<Seq<char>, AgentPool> {
        self.pools@
    }
}

impl AgentRegistry {
    pub open spec fn wf(&self) -> bool {
        self.pools.wf()
    }

    pub fn new() -> (r: AgentRegistry)
        ensures
            r.wf(),
            r@ == Map::<Seq<char>, AgentPool>::empty(),
    {
        AgentRegistry { pools: Table::new() }
    }

    pub fn insert(&mut self, pool: AgentPool)
        requires
            old(self).wf(),
        ensures
            final(self).wf(),
            final(self)@ == old(self)@.insert(pool.def@.id, pool),
    {
        let id = pool.def.id.clone();
        self.pools.insert(id, pool);
    }

    pub fn get(&self, version_id: &str) -> (r: Option<&AgentPool>)
        requires
            self.wf(),
        ensures
            match r {
                Some(p) => self@.dom().contains(version_id@) && *p == self@[version_id@],
                None => !self@.dom().contains(version_id@),
            },
    {
        self.pools.get(version_id)
    }

    /// Makes a pool for a version that has none; whether it was made.
    pub fn get_or_build(&mut self, def: &AgentDef) -> (r: bool)
        requires
            old(self).wf(),
        ensures
            final(self).wf(),
            r == !old(self)@.dom().contains(def@.id),
            !r ==> final(self)@ == old(self)@,
            r ==> {
                &&& final(self)@.dom() == old(self)@.dom().insert(def@.id)
                &&& final(self)@[def@.id].def@ == def@
                &&& final(self)@[def@.id].instances == pool_size(def@)
                &&& final(self)@[def@.id].turn == 0
            },
            forall|k: Seq<char>|
                k != def@.id && old(self)@.dom().contains(k) ==> #[trigger] final(self)@[k] == old(
                    self,
                )@[k],
    {
        if self.get(def.id.as_str()).is_some() {
            return false;
        }
        let pool = AgentPool::from_def(def);
        self.insert(pool);
        true
    }
}

// ---- laws ----

/// As many takes in a row as there are instances reach every instance once.
pub proof fn turns_go_round(turn: nat, n: nat, i: nat)
    requires
        n > 0,
        i < n,
    ensures
        exists|k: nat| k < n && #[trigger] ((turn + k) % n) == i,
{
    let r = turn % n;
    let k = if i >= r {
        (i - r) as nat
    } else {
        (i + n - r) as nat
    };
    vstd::arithmetic::div_mod::lemma_fundamental_div_mod(turn as int, n as int);
    let q = turn / n;
    assert(n * q == q * n && (q + 1) * n == q * n + n) by (nonlinear_arith);
    if i >= r {
        assert(turn + k == q * n + i);
        vstd::arithmetic::div_mod::lemma_fundamental_div_mod_converse(
            (turn + k) as int,
            n as int,
            q as int,
            i as int,
        );
    } else {
        assert(turn + k == (q + 1) * n + i);
        vstd::arithmetic::div_mod::lemma_fundamental_div_mod_converse(
            (turn + k) as int,
            n as int,
            (q + 1) as int,
            i as int,
        );
    }
    assert((turn + k) % n == i);
}

} // verus!
