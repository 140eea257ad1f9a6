//! The forms of the administration page.
use crate::json::{self, Json, JsonV, Number, NumberV};
use crate::text;
use crate::ui::chat;
use crate::ui::types::{self, Call, Method};
use vstd::prelude::*;

verus! {

broadcast use crate::text::views_push;

// ---- shared ----

/// What a refusal says.
pub open spec fn error_text(v: JsonV) -> Seq<char> {
    match json::str_of(json::field(v, "error"@)) {
        Some(e) => e,
        None => "request failed"@,
    }
}

pub fn err_of(v: &Json) -> (r: String)
    ensures
        r@ == error_text(v@),
{
    match json::str_in(v.get("error")) {
        Some(e) => text::owned(e),
        None => text::owned("request failed"),
    }
}

pub open spec fn name_in(item: JsonV) -> Seq<char> {
    json::text_or_empty(json::field(item, "name"@))
}

pub fn item_name(item: &Json) -> (r: String)
    ensures
        r@ == name_in(item@),
{
    json::string_in(item.get("name"))
}

pub open spec fn notice(ok: bool, msg: Seq<char>) -> Seq<char> {
    (if ok {
        "ok"@
    } else {
        "error"@
    }) + ": "@ + msg
}

/// What is shown once something was done or refused.
pub fn show_notice(ok: bool, msg: &str) -> (r: String)
    ensures
        r@ == notice(ok, msg@),
{
    if ok {
        text::owned("ok").concat(": ").concat(msg)
    } else {
        text::owned("error").concat(": ").concat(msg)
    }
}

fn empty() -> (r: String)
    ensures
        r@ == Seq::<char>::empty(),
{
    let e = String::new();
    assert(e@ =~= Seq::<char>::empty());
    e
}

/// A key that is left blank is none.
pub open spec fn key_value(k: Seq<char>) -> JsonV {
    if k.len() == 0 {
        JsonV::Null
    } else {
        JsonV::Str(k)
    }
}

fn key_json(k: &str) -> (r: Json)
    ensures
        r@ == key_value(k@),
{
    if k.is_empty() {
        Json::Null
    } else {
        json::string(k)
    }
}

/// The names that are ticked once `name` was ticked or unticked.
pub open spec fn ticked(caps: Seq<Seq<char>>, name: Seq<char>, checked: bool) -> Seq<Seq<char>> {
    if checked {
        caps.push(name)
    } else {
        without(caps, name)
    }
}

pub open spec fn without(caps: Seq<Seq<char>>, name: Seq<char>) -> Seq<Seq<char>>
    decreases caps.len(),
{
    if caps.len() == 0 {
        seq![]
    } else {
        let rest = without(caps.drop_last(), name);
        if caps.last() == name {
            rest
        } else {
            rest.push(caps.last())
        }
    }
}

/// Ticks or unticks a tool.
pub fn tick(caps: Vec<String>, name: &str, checked: bool) -> (r: Vec<String>)
    ensures
        text::texts(r@) == ticked(text::texts(caps@), name@, checked),
{
    let ghost all = text::texts(caps@);
    if checked {
        let mut out = caps;
        out.push(text::owned(name));
        assert(text::texts(out@) =~= all.push(name@));
        return out;
    }
    let mut out: Vec<String> = Vec::new();
    let mut i: usize = 0;
    assert(all.take(0) =~= seq![]);
    assert(text::texts(out@) =~= seq![]);
    while i < caps.len()
        invariant
            i <= caps@.len(),
            all == text::texts(caps@),
            text::texts(out@) == without(all.take(i as int), name@),
        decreases caps@.len() - i,
    {
        assert(all.take(i as int + 1).drop_last() =~= all.take(i as int));
        assert(all.take(i as int + 1).last() == caps@[i as int]@);
        if !text::same(caps[i].as_str(), name) {
            let ghost had = text::texts(out@);
            let c = caps[i].clone();
            out.push(c);
            assert(text::texts(out@) =~= had.push(c@));
        }
        i = i + 1;
    }
    assert(all.take(i as int) =~= all);
    out
}

/// The texts among the items of a list; what is no text is left out.
pub open spec fn texts_in(v: Seq<JsonV>) -> Seq<Seq<char>>
    decreases v.len(),
{
    if v.len() == 0 {
        seq![]
    } else {
        let done = texts_in(v.drop_last());
        match v.last() {
            JsonV::Str(s) => done.push(s),
            _ => done,
        }
    }
}

pub open spec fn caps_in(item: JsonV) -> Seq<Seq<char>> {
    match types::list_under(item, "capabilities"@) {
        Some(v) => texts_in(v),
        None => seq![],
    }
}

fn read_caps(item: &Json) -> (r: Vec<String>)
    ensures
        text::texts(r@) == caps_in(item@),
{
    let mut out: Vec<String> = Vec::new();
    assert(text::texts(out@) =~= seq![]);
    let items = match types::read_list(item, "capabilities") {
        Some(v) => v,
        None => {
            return out;
        },
    };
    let ghost all = json::items_view(items@);
    proof {
        json::lemma_items(items@);
    }
    let mut i: usize = 0;
    assert(all.take(0) =~= seq![]);
    while i < items.len()
        invariant
            i <= items@.len(),
            all == json::items_view(items@),
            all.len() == items@.len(),
            forall|k: int| 0 <= k < all.len() ==> #[trigger] all[k] == json::json_view(items@[k]),
            text::texts(out@) == texts_in(all.take(i as int)),
        decreases items@.len() - i,
    {
        assert(all.take(i as int + 1).drop_last() =~= all.take(i as int));
        assert(all.take(i as int + 1).last() == items@[i as int]@);
        if let Json::Str(s) = &items[i] {
            let ghost had = text::texts(out@);
            let c = s.clone();
            out.push(c);
            assert(text::texts(out@) =~= had.push(c@));
        }
        i = i + 1;
    }
    assert(all.take(i as int) =~= all);
    out
}

/// A list of texts as a value.
pub open spec fn texts_value(v: Seq<Seq<char>>) -> JsonV {
    JsonV::Arr(v.map_values(|s: Seq<char>| JsonV::Str(s)))
}

fn texts_json(v: &Vec<String>) -> (r: Json)
    ensures
        r@ == texts_value(text::texts(v@)),
{
    let ghost all = text::texts(v@).map_values(|s: Seq<char>| JsonV::Str(s));
    let mut out: Vec<Json> = Vec::new();
    let mut i: usize = 0;
    assert(json::items_view(out@) =~= all.take(0));
    while i < v.len()
        invariant
            i <= v@.len(),
            all == text::texts(v@).map_values(|s: Seq<char>| JsonV::Str(s)),
            json::items_view(out@) == all.take(i as int),
        decreases v@.len() - i,
    {
        let j = json::string(v[i].as_str());
        assert(j@ == all[i as int]);
        proof {
            json::lemma_items_push(out@, j);
        }
        out.push(j);
        i = i + 1;
        assert(json::items_view(out@) =~= all.take(i as int));
    }
    assert(all.take(i as int) =~= all);
    Json::Arr(out)
}

pub open spec fn path_under(base: Seq<char>, name: Seq<char>) -> Seq<char> {
    base + "/"@ + name
}

/// The call that deletes an item.
pub fn remove_call(base: &str, name: &str) -> (r: Call)
    ensures
        r@ == types::bare_call(Method::Delete, path_under(base@, name@)),
{
    Call::bare(Method::Delete, text::owned(base).concat("/").concat(name))
}

/// What is shown once an item was deleted.
pub fn removed_notice(name: &str) -> (r: String)
    ensures
        r@ == notice(true, "deleted "@ + name@),
{
    show_notice(true, text::owned("deleted ").concat(name).as_str())
}

/// Whether the item `name` is the one that is being edited.
pub open spec fn edits(editing: Option<JsonV>, name: Seq<char>) -> bool {
    match editing {
        Some(e) => name_in(e) == name,
        None => false,
    }
}

fn is_edited(editing: &Option<Json>, name: &str) -> (r: bool)
    ensures
        r == edits(types::opt_json(*editing), name@),
{
    match editing {
        Some(e) => text::same(item_name(e).as_str(), name),
        None => false,
    }
}

/// What comes of the answer to a form: whether it was accepted, and the notice.
pub open spec fn verdict(status: u16, wanted: u16, done: Seq<char>, v: JsonV) -> (bool, Seq<char>) {
    if status == wanted {
        (true, notice(true, done))
    } else {
        (false, notice(false, error_text(v)))
    }
}

fn judge(status: u16, wanted: u16, done: &str, v: &Json) -> (r: (bool, String))
    ensures
        (r.0, r.1@) == verdict(status, wanted, done@, v@),
{
    if status == wanted {
        (true, show_notice(true, done))
    } else {
        (false, show_notice(false, err_of(v).as_str()))
    }
}

// ---- the tabs ----

#[derive(Debug, Clone, Copy, PartialEq, Eq, Structural)]
pub enum Panel {
    Status,
    Providers,
    Agents,
    Tools,
}

/// The panel of a tab; the status for any other.
pub fn panel_of(tab: &str) -> (r: Panel)
    ensures
        r == if tab@ == "providers"@ {
            Panel::Providers
        } else if tab@ == "agents"@ {
            Panel::Agents
        } else if tab@ == "tools"@ {
            Panel::Tools
        } else {
            Panel::Status
        },
{
    if text::same(tab, "providers") {
        Panel::Providers
    } else if text::same(tab, "agents") {
        Panel::Agents
    } else if text::same(tab, "tools") {
        Panel::Tools
    } else {
        Panel::Status
    }
}

// ---- status ----

/// The counters of the status panel.
#[derive(Debug, PartialEq)]
pub struct Status {
    pub bind: String,
    pub agents: u64,
    pub sessions: u64,
    pub providers: u64,
    pub tools: u64,
}

pub open spec fn count_in(v: JsonV, key: Seq<char>) -> u64 {
    match json::u64_of(json::field(v, key)) {
        Some(n) => n,
        None => 0,
    }
}

fn count(v: &Json, key: &str) -> (r: u64)
    ensures
        r == count_in(v@, key@),
{
    match json::u64_in(v.get(key)) {
        Some(n) => n,
        None => 0,
    }
}

pub fn read_status(v: &Json) -> (r: Status)
    ensures
        r.bind@ == json::text_or_empty(json::field(v@, "bind"@)),
        r.agents == count_in(v@, "agent_count"@),
        r.sessions == count_in(v@, "session_count"@),
        r.providers == count_in(v@, "provider_count"@),
        r.tools == count_in(v@, "tool_count"@),
{
    Status {
        bind: json::string_in(v.get("bind")),
        agents: count(v, "agent_count"),
        sessions: count(v, "session_count"),
        providers: count(v, "provider_count"),
        tools: count(v, "tool_count"),
    }
}

pub fn read_health(v: &Json) -> (r: String)
    ensures
        r@ == match json::str_of(json::field(v@, "status"@)) {
            Some(s) => s,
            None => "?"@,
        },
{
    match json::str_in(v.get("status")) {
        Some(s) => text::owned(s),
        None => text::owned("?"),
    }
}

// ---- providers ----

/// The panel of the providers: the form for a new one and the edit of one.
pub struct ProvidersPanel {
    pub name: String,
    pub base_url: String,
    pub api_key: String,
    pub notice: Option<String>,
    pub editing: Option<Json>,
    pub edit_base_url: String,
    pub edit_api_key: String,
}

#[verifier::ext_equal]
pub struct ProvidersV {
    pub name: Seq<char>,
    pub base_url: Seq<char>,
    pub api_key: Seq<char>,
    pub notice: Option<Seq<char>>,
    pub editing: Option<JsonV>,
    pub edit_base_url: Seq<char>,
    pub edit_api_key: Seq<char>,
}

impl View for ProvidersPanel {
    type V = ProvidersV;

    open spec fn view(&self) -> ProvidersV {
        ProvidersV {
            name: self.name@,
            base_url: self.base_url@,
            api_key: self.api_key@,
            notice: text::opt_text(self.notice),
            editing: types::opt_json(self.editing),
            edit_base_url: self.edit_base_url@,
            edit_api_key: self.edit_api_key@,
        }
    }
}

pub open spec fn provider_body(name: Seq<char>, base_url: Seq<char>, key: Seq<char>) -> JsonV {
    JsonV::Obj(
        seq![
            ("api_key"@, key_value(key)),
            ("base_url"@, JsonV::Str(base_url)),
            ("name"@, JsonV::Str(name)),
        ],
    )
}

fn provider_json(name: &str, base_url: &str, key: &str) -> (r: Json)
    ensures
        r@ == provider_body(name@, base_url@, key@),
{
    json::obj3(
        "api_key",
        key_json(key),
        "base_url",
        json::string(base_url),
        "name",
        json::string(name),
    )
}

impl ProvidersPanel {
    pub fn new() -> (r: ProvidersPanel)
        ensures
            r@ == (ProvidersV {
                name: Seq::empty(),
                base_url: Seq::empty(),
                api_key: Seq::empty(),
                notice: None,
                editing: None,
                edit_base_url: Seq::empty(),
                edit_api_key: Seq::empty(),
            }),
    {
        ProvidersPanel {
            name: empty(),
            base_url: empty(),
            api_key: empty(),
            notice: None,
            editing: None,
            edit_base_url: empty(),
            edit_api_key: empty(),
        }
    }

    /// The call that adds the provider of the form; without a name or an address
    /// there is a notice instead.
    pub fn create(&mut self) -> (r: Option<Call>)
        ensures
            types::opt_call(r) == if old(self)@.name.len() == 0 || old(self)@.base_url.len() == 0 {
                None
            } else {
                Some(
                    types::call_with(
                        Method::Post,
                        "/api/providers"@,
                        provider_body(old(self)@.name, old(self)@.base_url, old(self)@.api_key),
                    ),
                )
            },
            final(self)@ == if old(self)@.name.len() == 0 || old(self)@.base_url.len() == 0 {
                ProvidersV {
                    notice: Some(notice(false, "name and base_url are required"@)),
                    ..old(self)@
                }
            } else {
                old(self)@
            },
    {
        if self.name.as_str().is_empty() || self.base_url.as_str().is_empty() {
            self.notice = Some(show_notice(false, "name and base_url are required"));
            return None;
        }
        Some(
            Call::with(
                Method::Post,
                text::owned("/api/providers"),
                provider_json(self.name.as_str(), self.base_url.as_str(), self.api_key.as_str()),
            ),
        )
    }

    /// The answer to a new provider; the form is cleared where it was accepted.
    pub fn created(&mut self, status: u16, v: &Json) -> (r: bool)
        ensures
            r == (status == 201),
            final(self)@ == if status == 201 {
                ProvidersV {
                    name: Seq::empty(),
                    base_url: Seq::empty(),
                    api_key: Seq::empty(),
                    notice: Some(notice(true, "provider created"@)),
                    ..old(self)@
                }
            } else {
                ProvidersV { notice: Some(notice(false, error_text(v@))), ..old(self)@ }
            },
    {
        let (ok, n) = judge(status, 201, "provider created", v);
        self.notice = Some(n);
        if ok {
            self.name = empty();
            self.base_url = empty();
            self.api_key = empty();
        }
        ok
    }

    /// Starts to edit a provider, with its address and key in the fields.
    pub fn start_edit(&mut self, item: Json)
        ensures
            final(self)@ == (ProvidersV {
                editing: Some(item@),
                edit_base_url: json::text_or_empty(json::field(item@, "base_url"@)),
                edit_api_key: json::text_or_empty(json::field(item@, "api_key"@)),
                ..old(self)@
            }),
    {
        self.edit_base_url = json::string_in(item.get("base_url"));
        self.edit_api_key = json::string_in(item.get("api_key"));
        self.editing = Some(item);
    }

    pub fn cancel_edit(&mut self)
        ensures
            final(self)@ == (ProvidersV { editing: None, ..old(self)@ }),
    {
        self.editing = None;
    }

    /// The call that keeps the edit; a blank key clears the one that was kept.
    pub fn save_edit(&self) -> (r: Option<Call>)
        ensures
            types::opt_call(r) == match self@.editing {
                Some(item) => Some(
                    types::call_with(
                        Method::Put,
                        path_under("/api/providers"@, name_in(item)),
                        provider_body(name_in(item), self@.edit_base_url, self@.edit_api_key),
                    ),
                ),
                None => None,
            },
    {
        match &self.editing {
            Some(item) => {
                let n = item_name(item);
                Some(
                    Call::with(
                        Method::Put,
                        text::owned("/api/providers").concat("/").concat(n.as_str()),
                        provider_json(
                            n.as_str(),
                            self.edit_base_url.as_str(),
                            self.edit_api_key.as_str(),
                        ),
                    ),
                )
            },
            None => None,
        }
    }

    /// The answer to an edit, which ends where it was accepted.
    pub fn edited(&mut self, status: u16, v: &Json) -> (r: bool)
        ensures
            r == (status == 200),
            final(self)@ == if status == 200 {
                ProvidersV {
                    editing: None,
                    notice: Some(notice(true, "provider updated"@)),
                    ..old(self)@
                }
            } else {
                ProvidersV { notice: Some(notice(false, error_text(v@))), ..old(self)@ }
            },
    {
        let (ok, n) = judge(status, 200, "provider updated", v);
        self.notice = Some(n);
        if ok {
            self.editing = None;
        }
        ok
    }

    /// Whether the card of `name` shows its edit.
    pub fn is_editing(&self, name: &str) -> (r: bool)
        ensures
            r == edits(self@.editing, name@),
    {
        is_edited(&self.editing, name)
    }
}

// ---- agents ----

/// The panel of the agents.
pub struct AgentsPanel {
    pub kind: String,
    pub system_prompt: String,
    pub model: String,
    pub caps: Vec<String>,
    pub notice: Option<String>,
    pub editing: Option<Json>,
    pub edit_system_prompt: String,
    pub edit_model: String,
    pub edit_instances: String,
    pub edit_max_history: String,
    pub edit_context_window: String,
    pub edit_compaction_ratio: String,
    pub edit_auto_compact: bool,
    pub edit_caps: Vec<String>,
}

#[verifier::ext_equal]
pub struct AgentsV {
    pub kind: Seq<char>,
    pub system_prompt: Seq<char>,
    pub model: Seq<char>,
    pub caps: Seq<Seq<char>>,
    pub notice: Option<Seq<char>>,
    pub editing: Option<JsonV>,
    pub edit_system_prompt: Seq<char>,
    pub edit_model: Seq<char>,
    pub edit_instances: Seq<char>,
    pub edit_max_history: Seq<char>,
    pub edit_context_window: Seq<char>,
    pub edit_compaction_ratio: Seq<char>,
    pub edit_auto_compact: bool,
    pub edit_caps: Seq<Seq<char>>,
}

impl View for AgentsPanel {
    type V = AgentsV;

    open spec fn view(&self) -> AgentsV {
        AgentsV {
            kind: self.kind@,
            system_prompt: self.system_prompt@,
            model: self.model@,
            caps: text::texts(self.caps@),
            notice: text::opt_text(self.notice),
            editing: types::opt_json(self.editing),
            edit_system_prompt: self.edit_system_prompt@,
            edit_model: self.edit_model@,
            edit_instances: self.edit_instances@,
            edit_max_history: self.edit_max_history@,
            edit_context_window: self.edit_context_window@,
            edit_compaction_ratio: self.edit_compaction_ratio@,
            edit_auto_compact: self.edit_auto_compact,
            edit_caps: text::texts(self.edit_caps@),
        }
    }
}

/// What a form says of an agent.
pub struct AgentFormV {
    pub name: Seq<char>,
    pub system_prompt: Seq<char>,
    pub model: Seq<char>,
    pub instances: int,
    pub max_history: int,
    pub context_window: int,
    pub compaction_ratio: NumberV,
    pub auto_compact: bool,
    pub caps: Seq<Seq<char>>,
}

pub open spec fn number(n: int) -> JsonV {
    JsonV::Num(NumberV::Unsigned(n as u64))
}

pub open spec fn agent_body(f: AgentFormV) -> JsonV {
    JsonV::Obj(
        seq![
            ("auto_compact"@, JsonV::Bool(f.auto_compact)),
            ("capabilities"@, texts_value(f.caps)),
            ("compaction_ratio"@, JsonV::Num(f.compaction_ratio)),
            ("context_window"@, number(f.context_window)),
            ("instances"@, number(f.instances)),
            ("max_history"@, number(f.max_history)),
            ("model"@, JsonV::Str(f.model)),
            ("name"@, JsonV::Str(f.name)),
            ("system_prompt"@, JsonV::Str(f.system_prompt)),
        ],
    )
}

fn agent_json(
    name: &str,
    system_prompt: &str,
    model: &str,
    instances: usize,
    max_history: usize,
    context_window: usize,
    compaction_ratio: Number,
    auto_compact: bool,
    caps: &Vec<String>,
) -> (r: Json)
    ensures
        r@ == agent_body(
            AgentFormV {
                name: name@,
                system_prompt: system_prompt@,
                model: model@,
                instances: instances as int,
                max_history: max_history as int,
                context_window: context_window as int,
                compaction_ratio: compaction_ratio@,
                auto_compact,
                caps: text::texts(caps@),
            },
        ),
{
    let mut o = json::object();
    json::put(&mut o, "auto_compact", Json::Bool(auto_compact));
    json::put(&mut o, "capabilities", texts_json(caps));
    json::put(&mut o, "compaction_ratio", Json::Num(compaction_ratio));
    json::put(&mut o, "context_window", json::unsigned(context_window as u64));
    json::put(&mut o, "instances", json::unsigned(instances as u64));
    json::put(&mut o, "max_history", json::unsigned(max_history as u64));
    json::put(&mut o, "model", json::string(model));
    json::put(&mut o, "name", json::string(name));
    json::put(&mut o, "system_prompt", json::string(system_prompt));
    let r = Json::Obj(o);
    proof {
        let want = agent_body(
            AgentFormV {
                name: name@,
                system_prompt: system_prompt@,
                model: model@,
                instances: instances as int,
                max_history: max_history as int,
                context_window: context_window as int,
                compaction_ratio: compaction_ratio@,
                auto_compact,
                caps: text::texts(caps@),
            },
        );
        assert(json::members_view(o@) =~= want->Obj_0);
    }
    r
}

/// A number in a form, or `d` where there is none.
pub open spec fn size_or(s: Seq<char>, d: int) -> int {
    if s.len() > 0 && s[0] == '-' {
        d
    } else {
        match text::within(text::integer(s), 0, usize::MAX as int) {
            Some(n) => n,
            None => d,
        }
    }
}

fn size_of_field(s: &str, d: usize) -> (r: usize)
    ensures
        r == size_or(s@, d as int),
{
    match text::parse_size(s) {
        Some(n) => n,
        None => d,
    }
}

/// The text of an integer member that a signed word holds, or of `d`.
pub open spec fn integer_text(item: JsonV, key: Seq<char>, d: int) -> Seq<char> {
    match json::field(item, key) {
        Some(JsonV::Num(NumberV::Unsigned(n))) => if n <= i64::MAX {
            text::decimal(n as int)
        } else {
            text::decimal(d)
        },
        Some(JsonV::Num(NumberV::Negative(n))) => text::decimal(n as int),
        _ => text::decimal(d),
    }
}

fn integer_field(item: &Json, key: &str, d: i64) -> (r: String)
    ensures
        r@ == integer_text(item@, key@, d as int),
{
    if let Some(v) = item.get(key) {
        if let Json::Num(n) = v {
            match n {
                Number::Unsigned(u) => {
                    if *u <= 9223372036854775807u64 {
                        return text::u64_text(*u);
                    }
                },
                Number::Negative(i) => {
                    return text::i64_text(*i);
                },
                Number::Other(_) => {},
            }
        }
    }
    text::i64_text(d)
}

pub open spec fn auto_compact_in(item: JsonV) -> bool {
    json::bool_of(json::field(item, "auto_compact"@)) == Some(true)
}

fn flag(item: &Json, key: &str) -> (r: bool)
    ensures
        r == (json::bool_of(json::field(item@, key@)) == Some(true)),
{
    match json::bool_in(item.get(key)) {
        Some(b) => b,
        None => false,
    }
}

pub open spec fn agents_edit(c: AgentsV, item: JsonV, ratio: Seq<char>) -> AgentsV {
    AgentsV {
        editing: Some(item),
        edit_system_prompt: json::text_or_empty(json::field(item, "system_prompt"@)),
        edit_model: json::text_or_empty(json::field(item, "model"@)),
        edit_instances: integer_text(item, "instances"@, 1),
        edit_max_history: integer_text(item, "max_history"@, 20),
        edit_context_window: integer_text(item, "context_window"@, 4000),
        edit_compaction_ratio: ratio,
        edit_auto_compact: auto_compact_in(item),
        edit_caps: caps_in(item),
        ..c
    }
}

impl AgentsPanel {
    pub fn new() -> (r: AgentsPanel)
        ensures
            r@ == (AgentsV {
                kind: Seq::empty(),
                system_prompt: Seq::empty(),
                model: Seq::empty(),
                caps: Seq::empty(),
                notice: None,
                editing: None,
                edit_system_prompt: Seq::empty(),
                edit_model: Seq::empty(),
                edit_instances: Seq::empty(),
                edit_max_history: Seq::empty(),
                edit_context_window: Seq::empty(),
                edit_compaction_ratio: Seq::empty(),
                edit_auto_compact: false,
                edit_caps: Seq::empty(),
            }),
    {
        let p = AgentsPanel {
            kind: empty(),
            system_prompt: empty(),
            model: empty(),
            caps: Vec::new(),
            notice: None,
            editing: None,
            edit_system_prompt: empty(),
            edit_model: empty(),
            edit_instances: empty(),
            edit_max_history: empty(),
            edit_context_window: empty(),
            edit_compaction_ratio: empty(),
            edit_auto_compact: false,
            edit_caps: Vec::new(),
        };
        assert(p@.caps =~= Seq::empty());
        assert(p@.edit_caps =~= Seq::empty());
        p
    }

    /// The call that adds the agent of the form, with the usual limits.
    pub fn create(&mut self) -> (r: Option<Call>)
        ensures
            types::opt_call(r) == if old(self)@.kind.len() == 0 || old(self)@.model.len() == 0 {
                None
            } else {
                Some(
                    types::call_with(
                        Method::Post,
                        "/api/agents"@,
                        agent_body(
                            AgentFormV {
                                name: old(self)@.kind,
                                system_prompt: old(self)@.system_prompt,
                                model: old(self)@.model,
                                instances: 1,
                                max_history: 20,
                                context_window: 4000,
                                compaction_ratio: NumberV::Other("0.8"@),
                                auto_compact: false,
                                caps: old(self)@.caps,
                            },
                        ),
                    ),
                )
            },
            final(self)@ == if old(self)@.kind.len() == 0 || old(self)@.model.len() == 0 {
                AgentsV {
                    notice: Some(notice(false, "kind and model are required"@)),
                    ..old(self)@
                }
            } else {
                old(self)@
            },
    {
        if self.kind.as_str().is_empty() || self.model.as_str().is_empty() {
            self.notice = Some(show_notice(false, "kind and model are required"));
            return None;
        }
        let body = agent_json(
            self.kind.as_str(),
            self.system_prompt.as_str(),
            self.model.as_str(),
            1,
            20,
            4000,
            Number::Other(text::owned("0.8")),
            false,
            &self.caps,
        );
        Some(Call::with(Method::Post, text::owned("/api/agents"), body))
    }

    pub fn created(&mut self, status: u16, v: &Json) -> (r: bool)
        ensures
            r == (status == 201),
            final(self)@ == if status == 201 {
                AgentsV {
                    kind: Seq::empty(),
                    system_prompt: Seq::empty(),
                    model: Seq::empty(),
                    notice: Some(notice(true, "agent created"@)),
                    ..old(self)@
                }
            } else {
                AgentsV { notice: Some(notice(false, error_text(v@))), ..old(self)@ }
            },
    {
        let (ok, n) = judge(status, 201, "agent created", v);
        self.notice = Some(n);
        if ok {
            self.kind = empty();
            self.system_prompt = empty();
            self.model = empty();
        }
        ok
    }

    /// Starts to edit an agent. `ratio` is the text of its compaction ratio.
    pub fn start_edit(&mut self, item: Json, ratio: String)
        ensures
            final(self)@ == agents_edit(old(self)@, item@, ratio@),
    {
        self.edit_system_prompt = json::string_in(item.get("system_prompt"));
        self.edit_model = json::string_in(item.get("model"));
        self.edit_instances = integer_field(&item, "instances", 1);
        self.edit_max_history = integer_field(&item, "max_history", 20);
        self.edit_context_window = integer_field(&item, "context_window", 4000);
        self.edit_compaction_ratio = ratio;
        self.edit_auto_compact = flag(&item, "auto_compact");
        self.edit_caps = read_caps(&item);
        self.editing = Some(item);
    }

    pub fn cancel_edit(&mut self)
        ensures
            final(self)@ == (AgentsV { editing: None, ..old(self)@ }),
    {
        self.editing = None;
    }

    /// The call that keeps the edit; a number that cannot be read becomes the
    /// usual one. `ratio` is what the field of the compaction ratio holds.
    pub fn save_edit(&self, ratio: Number) -> (r: Option<Call>)
        ensures
            types::opt_call(r) == match self@.editing {
                Some(item) => Some(
                    types::call_with(
                        Method::Put,
                        path_under("/api/agents"@, name_in(item)),
                        agent_body(
                            AgentFormV {
                                name: name_in(item),
                                system_prompt: self@.edit_system_prompt,
                                model: self@.edit_model,
                                instances: size_or(self@.edit_instances, 1),
                                max_history: size_or(self@.edit_max_history, 20),
                                context_window: size_or(self@.edit_context_window, 4000),
                                compaction_ratio: ratio@,
                                auto_compact: self@.edit_auto_compact,
                                caps: self@.edit_caps,
                            },
                        ),
                    ),
                ),
                None => None,
            },
    {
        match &self.editing {
            Some(item) => {
                let n = item_name(item);
                let body = agent_json(
                    n.as_str(),
                    self.edit_system_prompt.as_str(),
                    self.edit_model.as_str(),
                    size_of_field(self.edit_instances.as_str(), 1),
                    size_of_field(self.edit_max_history.as_str(), 20),
                    size_of_field(self.edit_context_window.as_str(), 4000),
                    ratio,
                    self.edit_auto_compact,
                    &self.edit_caps,
                );
                Some(
                    Call::with(
                        Method::Put,
                        text::owned("/api/agents").concat("/").concat(n.as_str()),
                        body,
                    ),
                )
            },
            None => None,
        }
    }

    pub fn edited(&mut self, status: u16, v: &Json) -> (r: bool)
        ensures
            r == (status == 200),
            final(self)@ == if status == 200 {
                AgentsV {
                    editing: None,
                    notice: Some(notice(true, "agent updated"@)),
                    ..old(self)@
                }
            } else {
                AgentsV { notice: Some(notice(false, error_text(v@))), ..old(self)@ }
            },
    {
        let (ok, n) = judge(status, 200, "agent updated", v);
        self.notice = Some(n);
        if ok {
            self.editing = None;
        }
        ok
    }

    /// Whether the card of `name` shows its edit; an item without a name is never
    /// edited.
    pub fn is_editing(&self, name: &str) -> (r: bool)
        ensures
            r == match self@.editing {
                Some(e) => json::str_of(json::field(e, "name"@)) == Some(name@),
                None => false,
            },
    {
        match &self.editing {
            Some(e) => match json::str_in(e.get("name")) {
                Some(n) => text::same(n, name),
                None => false,
            },
            None => false,
        }
    }
}

/// What the card of an agent says.
#[derive(Debug, PartialEq)]
pub struct AgentCard {
    pub name: String,
    pub model: String,
    pub version: String,
    pub limits: String,
    pub tools: String,
}

pub open spec fn bool_text(b: bool) -> Seq<char> {
    if b {
        "true"@
    } else {
        "false"@
    }
}

pub open spec fn limits_text(item: JsonV) -> Seq<char> {
    "instances "@ + text::decimal(count_in(item, "instances"@) as int) + " · max_history "@
        + text::decimal(count_in(item, "max_history"@) as int) + " · auto_compact "@ + bool_text(
        auto_compact_in(item),
    )
}

pub fn agent_card(item: &Json) -> (r: AgentCard)
    ensures
        r.name@ == name_in(item@),
        r.model@ == json::text_or_empty(json::field(item@, "model"@)),
        r.version@ == "version "@ + chat::short(json::text_or_empty(json::field(item@, "id"@))),
        r.limits@ == limits_text(item@),
        r.tools@ == "tools: "@ + text::joined(caps_in(item@), ", "@),
{
    let caps = read_caps(item);
    let auto = if flag(item, "auto_compact") {
        text::owned("true")
    } else {
        text::owned("false")
    };
    let id = json::string_in(item.get("id"));
    assert(text::texts(caps@).skip(0) =~= text::texts(caps@));
    AgentCard {
        name: item_name(item),
        model: json::string_in(item.get("model")),
        version: text::owned("version ").concat(chat::short_id(id.as_str()).as_str()),
        limits: text::owned("instances ").concat(
            text::u64_text(count(item, "instances")).as_str(),
        ).concat(" · max_history ").concat(text::u64_text(count(item, "max_history")).as_str()).concat(
            " · auto_compact ",
        ).concat(auto.as_str()),
        tools: text::owned("tools: ").concat(text::join(&caps, 0, ", ").as_str()),
    }
}

// ---- tools ----

/// A file that was to be read.
#[derive(Debug, PartialEq)]
pub enum Picked {
    Missing,
    Unreadable,
    Data(String),
}

pub enum PickedV {
    Missing,
    Unreadable,
    Data(Seq<char>),
}

impl View for Picked {
    type V = PickedV;

    open spec fn view(&self) -> PickedV {
        match self {
            Picked::Missing => PickedV::Missing,
            Picked::Unreadable => PickedV::Unreadable,
            Picked::Data(t) => PickedV::Data(t@),
        }
    }
}

/// What stands between the first comma of a data URL and the next, or nothing.
pub open spec fn url_data(s: Seq<char>) -> Seq<char> {
    let first = text::index_from(s, ',', 0);
    if first >= s.len() {
        seq![]
    } else {
        s.subrange(first + 1, text::index_from(s, ',', first + 1))
    }
}

pub fn data_of_url(url: &str) -> (r: String)
    ensures
        r@ == url_data(url@),
{
    let v = text::chars_of(url);
    let first: usize = text::find_from(&v, ',', 0);
    if first >= v.len() {
        let e = String::new();
        assert(e@ =~= seq![]);
        return e;
    }
    let next: usize = text::find_from(&v, ',', first + 1);
    text::string_of(&v, first + 1, next)
}

/// The panel of the tools.
pub struct ToolsPanel {
    pub name: String,
    pub description: String,
    pub notice: Option<String>,
    pub editing: Option<Json>,
    pub edit_description: String,
    pub edit_parameters: String,
    pub edit_env: String,
    pub replace: bool,
}

#[verifier::ext_equal]
pub struct ToolsV {
    pub name: Seq<char>,
    pub description: Seq<char>,
    pub notice: Option<Seq<char>>,
    pub editing: Option<JsonV>,
    pub edit_description: Seq<char>,
    pub edit_parameters: Seq<char>,
    pub edit_env: Seq<char>,
    pub replace: bool,
}

impl View for ToolsPanel {
    type V = ToolsV;

    open spec fn view(&self) -> ToolsV {
        ToolsV {
            name: self.name@,
            description: self.description@,
            notice: text::opt_text(self.notice),
            editing: types::opt_json(self.editing),
            edit_description: self.edit_description@,
            edit_parameters: self.edit_parameters@,
            edit_env: self.edit_env@,
            replace: self.replace,
        }
    }
}

pub open spec fn tool_body(
    name: Seq<char>,
    description: Seq<char>,
    parameters: JsonV,
    env: JsonV,
    module: Seq<char>,
) -> JsonV {
    JsonV::Obj(
        seq![
            ("description"@, JsonV::Str(description)),
            ("env"@, env),
            ("name"@, JsonV::Str(name)),
            ("parameters"@, parameters),
            ("wasm_b64"@, JsonV::Str(module)),
        ],
    )
}

fn tool_json(name: &str, description: &str, parameters: Json, env: Json, module: &str) -> (r: Json)
    ensures
        r@ == tool_body(name@, description@, parameters@, env@, module@),
{
    let mut o = json::object();
    json::put(&mut o, "description", json::string(description));
    json::put(&mut o, "env", env);
    json::put(&mut o, "name", json::string(name));
    json::put(&mut o, "parameters", parameters);
    json::put(&mut o, "wasm_b64", json::string(module));
    proof {
        let want = tool_body(name@, description@, parameters@, env@, module@);
        assert(json::members_view(o@) =~= want->Obj_0);
    }
    Json::Obj(o)
}

/// Why the module of a new tool cannot be sent.
pub open spec fn upload_fault(picked: PickedV) -> Option<Seq<char>> {
    match picked {
        PickedV::Missing => Some("select a .wasm file"@),
        PickedV::Unreadable => Some("failed to read wasm file"@),
        PickedV::Data(b64) => if b64.len() == 0 {
            Some("wasm file was empty"@)
        } else {
            None
        },
    }
}

/// The module that an edit sends, or why there is none.
pub open spec fn edit_module(item: JsonV, replace: bool, picked: PickedV) -> Result<
    Seq<char>,
    Seq<char>,
> {
    let module = if replace {
        match picked {
            PickedV::Missing => Err("select a .wasm file to replace with"@),
            PickedV::Unreadable => Err("failed to read wasm file"@),
            PickedV::Data(b64) => Ok(b64),
        }
    } else {
        Ok(json::text_or_empty(json::field(item, "wasm_b64"@)))
    };
    match module {
        Ok(b64) => if b64.len() == 0 {
            Err("wasm is required (keep the original or replace it with a file)"@)
        } else {
            Ok(b64)
        },
        Err(e) => Err(e),
    }
}

/// What an edit sends, given what its two fields of JSON hold, or why it does not.
pub open spec fn edit_request(
    c: ToolsV,
    item: JsonV,
    params: Result<JsonV, Seq<char>>,
    env: Result<JsonV, Seq<char>>,
    picked: PickedV,
) -> Result<JsonV, Seq<char>> {
    match params {
        Err(e) => Err("invalid parameters JSON: "@ + e),
        Ok(p) => match env {
            Err(e) => Err("invalid env JSON: "@ + e),
            Ok(v) => match edit_module(item, c.replace, picked) {
                Err(e) => Err(e),
                Ok(b64) => Ok(tool_body(name_in(item), c.edit_description, p, v, b64)),
            },
        },
    }
}

pub open spec fn result_view(r: Result<Json, String>) -> Result<JsonV, Seq<char>> {
    match r {
        Ok(j) => Ok(j@),
        Err(e) => Err(e@),
    }
}

/// A member, or null.
pub open spec fn member_or_null(item: JsonV, key: Seq<char>) -> JsonV {
    match json::field(item, key) {
        Some(v) => v,
        None => JsonV::Null,
    }
}

fn member_text_json(item: &Json, key: &str) -> (r: String)
    ensures
        r@ == json::json_text(member_or_null(item@, key@)),
{
    match item.get(key) {
        Some(v) => json::render(v),
        None => json::render(&Json::Null),
    }
}

fn module_for_edit(item: &Json, replace: bool, picked: Picked) -> (r: Result<String, String>)
    ensures
        (match r {
            Ok(b) => Ok::<Seq<char>, Seq<char>>(b@),
            Err(e) => Err::<Seq<char>, Seq<char>>(e@),
        }) == edit_module(item@, replace, picked@),
{
    let b64 = if replace {
        match picked {
            Picked::Missing => {
                return Err(text::owned("select a .wasm file to replace with"));
            },
            Picked::Unreadable => {
                return Err(text::owned("failed to read wasm file"));
            },
            Picked::Data(b64) => b64,
        }
    } else {
        json::string_in(item.get("wasm_b64"))
    };
    if b64.as_str().is_empty() {
        return Err(text::owned("wasm is required (keep the original or replace it with a file)"));
    }
    Ok(b64)
}

impl ToolsPanel {
    pub fn new() -> (r: ToolsPanel)
        ensures
            r@ == (ToolsV {
                name: Seq::empty(),
                description: Seq::empty(),
                notice: None,
                editing: None,
                edit_description: Seq::empty(),
                edit_parameters: Seq::empty(),
                edit_env: Seq::empty(),
                replace: false,
            }),
    {
        ToolsPanel {
            name: empty(),
            description: empty(),
            notice: None,
            editing: None,
            edit_description: empty(),
            edit_parameters: empty(),
            edit_env: empty(),
            replace: false,
        }
    }

    /// The call that adds the tool of the form with the module that was picked.
    pub fn create(&mut self, picked: Picked) -> (r: Option<Call>)
        ensures
            match upload_fault(picked@) {
                Some(why) => r is None && final(self)@ == (ToolsV {
                    notice: Some(notice(false, why)),
                    ..old(self)@
                }),
                None => final(self)@ == old(self)@ && types::opt_call(r) == Some(
                    types::call_with(
                        Method::Post,
                        "/api/tools"@,
                        tool_body(
                            old(self)@.name,
                            old(self)@.description,
                            types::nothing(),
                            types::nothing(),
                            picked@->Data_0,
                        ),
                    ),
                ),
            },
    {
        let b64 = match picked {
            Picked::Missing => {
                self.notice = Some(show_notice(false, "select a .wasm file"));
                return None;
            },
            Picked::Unreadable => {
                self.notice = Some(show_notice(false, "failed to read wasm file"));
                return None;
            },
            Picked::Data(b64) => b64,
        };
        if b64.as_str().is_empty() {
            self.notice = Some(show_notice(false, "wasm file was empty"));
            return None;
        }
        let body = tool_json(
            self.name.as_str(),
            self.description.as_str(),
            types::empty_object(),
            types::empty_object(),
            b64.as_str(),
        );
        Some(Call::with(Method::Post, text::owned("/api/tools"), body))
    }

    pub fn created(&mut self, status: u16, v: &Json) -> (r: bool)
        ensures
            r == (status == 201),
            final(self)@ == if status == 201 {
                ToolsV {
                    name: Seq::empty(),
                    description: Seq::empty(),
                    notice: Some(notice(true, "tool created"@)),
                    ..old(self)@
                }
            } else {
                ToolsV { notice: Some(notice(false, error_text(v@))), ..old(self)@ }
            },
    {
        let (ok, n) = judge(status, 201, "tool created", v);
        self.notice = Some(n);
        if ok {
            self.name = empty();
            self.description = empty();
        }
        ok
    }

    /// Starts to edit a tool; its module is kept unless another is picked.
    pub fn start_edit(&mut self, item: Json)
        ensures
            final(self)@ == (ToolsV {
                editing: Some(item@),
                edit_description: json::text_or_empty(json::field(item@, "description"@)),
                edit_parameters: json::json_text(member_or_null(item@, "parameters"@)),
                edit_env: json::json_text(member_or_null(item@, "env"@)),
                replace: false,
                ..old(self)@
            }),
    {
        self.edit_description = json::string_in(item.get("description"));
        self.edit_parameters = member_text_json(&item, "parameters");
        self.edit_env = member_text_json(&item, "env");
        self.replace = false;
        self.editing = Some(item);
    }

    pub fn cancel_edit(&mut self)
        ensures
            final(self)@ == (ToolsV { editing: None, ..old(self)@ }),
    {
        self.editing = None;
    }

    /// The call that keeps the edit, given what its fields of JSON hold.
    pub fn save_parsed(
        &mut self,
        params: Result<Json, String>,
        env: Result<Json, String>,
        picked: Picked,
    ) -> (r: Option<Call>)
        ensures
            match old(self)@.editing {
                None => r is None && final(self)@ == old(self)@,
                Some(item) => match edit_request(
                    old(self)@,
                    item,
                    result_view(params),
                    result_view(env),
                    picked@,
                ) {
                    Ok(body) => final(self)@ == old(self)@ && types::opt_call(r) == Some(
                        types::call_with(
                            Method::Put,
                            path_under("/api/tools"@, name_in(item)),
                            body,
                        ),
                    ),
                    Err(why) => r is None && final(self)@ == (ToolsV {
                        notice: Some(notice(false, why)),
                        ..old(self)@
                    }),
                },
            },
    {
        let item = match &self.editing {
            Some(item) => item,
            None => {
                return None;
            },
        };
        let p = match params {
            Ok(p) => p,
            Err(e) => {
                self.notice = Some(
                    show_notice(
                        false,
                        text::owned("invalid parameters JSON: ").concat(e.as_str()).as_str(),
                    ),
                );
                return None;
            },
        };
        let v = match env {
            Ok(v) => v,
            Err(e) => {
                self.notice = Some(
                    show_notice(
                        false,
                        text::owned("invalid env JSON: ").concat(e.as_str()).as_str(),
                    ),
                );
                return None;
            },
        };
        let n = item_name(item);
        match module_for_edit(item, self.replace, picked) {
            Ok(b64) => {
                let body = tool_json(
                    n.as_str(),
                    self.edit_description.as_str(),
                    p,
                    v,
                    b64.as_str(),
                );
                Some(
                    Call::with(
                        Method::Put,
                        text::owned("/api/tools").concat("/").concat(n.as_str()),
                        body,
                    ),
                )
            },
            Err(e) => {
                self.notice = Some(show_notice(false, e.as_str()));
                None
            },
        }
    }

    /// The call that keeps the edit.
    pub fn save_edit(&mut self, picked: Picked) -> (r: Option<Call>)
        ensures
            match old(self)@.editing {
                None => r is None && final(self)@ == old(self)@,
                Some(item) => match edit_request(
                    old(self)@,
                    item,
                    json::json_result(old(self)@.edit_parameters),
                    json::json_result(old(self)@.edit_env),
                    picked@,
                ) {
                    Ok(body) => final(self)@ == old(self)@ && types::opt_call(r) == Some(
                        types::call_with(
                            Method::Put,
                            path_under("/api/tools"@, name_in(item)),
                            body,
                        ),
                    ),
                    Err(why) => r is None && final(self)@ == (ToolsV {
                        notice: Some(notice(false, why)),
                        ..old(self)@
                    }),
                },
            },
    {
        let params = json::parse(self.edit_parameters.as_str());
        let env = json::parse(self.edit_env.as_str());
        self.save_parsed(params, env, picked)
    }

    pub fn edited(&mut self, status: u16, v: &Json) -> (r: bool)
        ensures
            r == (status == 200),
            final(self)@ == if status == 200 {
                ToolsV {
                    editing: None,
                    notice: Some(notice(true, "tool updated"@)),
                    ..old(self)@
                }
            } else {
                ToolsV { notice: Some(notice(false, error_text(v@))), ..old(self)@ }
            },
    {
        let (ok, n) = judge(status, 200, "tool updated", v);
        self.notice = Some(n);
        if ok {
            self.editing = None;
        }
        ok
    }

    /// Whether the card of `name` shows its edit; a built-in tool has none.
    pub fn is_editing(&self, name: &str) -> (r: bool)
        ensures
            r == (!text::starts_with(name@, "core/"@) && edits(self@.editing, name@)),
    {
        !text::begins(name, "core/") && is_edited(&self.editing, name)
    }
}

/// What the card of a tool says.
#[derive(Debug, PartialEq)]
pub struct ToolCard {
    pub name: String,
    pub description: String,
    pub parameters: String,
    pub builtin: bool,
}

pub fn tool_card(item: &Json) -> (r: ToolCard)
    ensures
        r.name@ == name_in(item@),
        r.description@ == json::text_or_empty(json::field(item@, "description"@)),
        r.parameters@ == json::json_text(member_or_null(item@, "parameters"@)),
        r.builtin == text::starts_with(name_in(item@), "core/"@),
{
    let name = item_name(item);
    let builtin = text::begins(name.as_str(), "core/");
    ToolCard {
        name,
        description: json::string_in(item.get("description")),
        parameters: member_text_json(item, "parameters"),
        builtin,
    }
}

// ---- laws ----

/// What was ticked once is ticked no more after it is unticked, and no other
/// tick is lost.
pub proof fn unticking_undoes_ticking(caps: Seq<Seq<char>>, name: Seq<char>)
    ensures
        !ticked(ticked(caps, name, true), name, false).contains(name),
        !caps.contains(name) ==> ticked(ticked(caps, name, true), name, false) == caps,
{
    let up = caps.push(name);
    assert(up.drop_last() =~= caps);
    lemma_without(caps, name);
}

proof fn lemma_without(caps: Seq<Seq<char>>, name: Seq<char>)
    ensures
        !without(caps, name).contains(name),
        !caps.contains(name) ==> without(caps, name) == caps,
    decreases caps.len(),
{
    if caps.len() > 0 {
        lemma_without(caps.drop_last(), name);
        let rest = without(caps.drop_last(), name);
        if caps.last() != name {
            assert forall|i: int| 0 <= i < rest.push(caps.last()).len() implies rest.push(
                caps.last(),
            )[i] != name by {
                if i < rest.len() {
                    assert(rest.push(caps.last())[i] == rest[i]);
                    assert(rest.contains(rest[i]));
                }
            }
        }
        if !caps.contains(name) {
            assert(caps.contains(caps.last())) by {
                assert(caps[caps.len() - 1] == caps.last());
            }
            assert(!caps.drop_last().contains(name)) by {
                if caps.drop_last().contains(name) {
                    let i = choose|i: int| 0 <= i < caps.drop_last().len() && caps.drop_last()[i] == name;
                    assert(caps[i] == name);
                }
            }
            assert(caps.drop_last().push(caps.last()) =~= caps);
        }
    }
}

/// An edit of a provider that changes nothing sends what is stored: its key
/// included.
pub proof fn an_untouched_edit_keeps_the_key(name: Seq<char>, url: Seq<char>, key: Seq<char>)
    requires
        key.len() > 0,
    ensures
        ({
            let item = provider_body(name, url, key);
            provider_body(
                name_in(item),
                json::text_or_empty(json::field(item, "base_url"@)),
                json::text_or_empty(json::field(item, "api_key"@)),
            ) == item
        }),
{
    reveal_strlit("api_key");
    reveal_strlit("base_url");
    reveal_strlit("name");
    reveal_with_fuel(json::member, 4);
    let item = provider_body(name, url, key);
    let m = item->Obj_0;
    assert("api_key"@.len() == 7 && "base_url"@.len() == 8 && "name"@.len() == 4);
    assert(m.skip(1)[0] == m[1]);
    assert(m.skip(1).skip(1)[0] == m[2]);
}

} // verus!
