//! What the chat page decides besides showing the conversation.
use crate::json::{self, Json, JsonV};
use crate::text;
use crate::ui::chat;
use crate::ui::types::{
    self, Call, Method, SandboxSummary, SandboxV, SessionSummary, SessionV,
};
use vstd::prelude::*;

verus! {

broadcast use crate::text::views_push;

// ---- looking up ----

/// The first session with that id.
pub open spec fn session_with(v: Seq<SessionV>, id: Seq<char>) -> Option<SessionV>
    decreases v.len(),
{
    if v.len() == 0 {
        None
    } else if v[0].id == id {
        Some(v[0])
    } else {
        session_with(v.skip(1), id)
    }
}

/// The first sandbox with that id.
pub open spec fn sandbox_with(v: Seq<SandboxV>, id: Seq<char>) -> Option<SandboxV>
    decreases v.len(),
{
    if v.len() == 0 {
        None
    } else if v[0].id == id {
        Some(v[0])
    } else {
        sandbox_with(v.skip(1), id)
    }
}

fn find_session<'a>(v: &'a [SessionSummary], id: &str) -> (r: Option<&'a SessionSummary>)
    ensures
        (match r {
            Some(s) => Some(s@),
            None => None,
        }) == session_with(types::sessions_view(v@), id@),
{
    let ghost all = types::sessions_view(v@);
    let mut i: usize = 0;
    assert(all.skip(0) =~= all);
    while i < v.len()
        invariant
            i <= v@.len(),
            all == types::sessions_view(v@),
            session_with(all, id@) == session_with(all.skip(i as int), id@),
        decreases v@.len() - i,
    {
        assert(all.skip(i as int)[0] == v@[i as int]@);
        assert(all.skip(i as int).skip(1) =~= all.skip(i as int + 1));
        if text::same(v[i].id.as_str(), id) {
            return Some(&v[i]);
        }
        i = i + 1;
    }
    None
}

fn find_sandbox<'a>(v: &'a [SandboxSummary], id: &str) -> (r: Option<&'a SandboxSummary>)
    ensures
        (match r {
            Some(s) => Some(s@),
            None => None,
        }) == sandbox_with(types::sandboxes_view(v@), id@),
{
    let ghost all = types::sandboxes_view(v@);
    let mut i: usize = 0;
    assert(all.skip(0) =~= all);
    while i < v.len()
        invariant
            i <= v@.len(),
            all == types::sandboxes_view(v@),
            sandbox_with(all, id@) == sandbox_with(all.skip(i as int), id@),
        decreases v@.len() - i,
    {
        assert(all.skip(i as int)[0] == v@[i as int]@);
        assert(all.skip(i as int).skip(1) =~= all.skip(i as int + 1));
        if text::same(v[i].id.as_str(), id) {
            return Some(&v[i]);
        }
        i = i + 1;
    }
    None
}

// ---- what is shown ----

/// The kind that is named above a block.
pub open spec fn kind_label(b: chat::UiBlockV) -> Option<Seq<char>> {
    match b {
        chat::UiBlockV::Thinking(_) => Some("Thinking"@),
        chat::UiBlockV::Tool(_) => Some("Tool"@),
        _ => None,
    }
}

pub fn label_of(b: &chat::UiBlock) -> (r: Option<String>)
    ensures
        text::opt_text(r) == kind_label(b@),
{
    match b {
        chat::UiBlock::Thinking(_) => Some(text::owned("Thinking")),
        chat::UiBlock::Tool(_) => Some(text::owned("Tool")),
        _ => None,
    }
}

/// How long a block took, below it; nothing where its start is not known.
pub fn tail_text(created: u64, finished: u64) -> (r: String)
    ensures
        r@ == if created == 0 {
            seq![]
        } else {
            chat::duration_text(created, finished)
        },
{
    if created == 0 {
        let e = String::new();
        assert(e@ =~= seq![]);
        e
    } else {
        chat::fmt_duration(created, finished)
    }
}

/// A name that is more than white space, without the white space around it.
pub open spec fn real_name(name: Option<Seq<char>>) -> Option<Seq<char>> {
    match name {
        Some(n) => if text::trim(n).len() == 0 {
            None
        } else {
            Some(text::trim(n))
        },
        None => None,
    }
}

/// The title of a session: its name if it has one, its id and its agent.
pub open spec fn title_of(s: SessionV) -> Seq<char> {
    let id = chat::short(s.id);
    let head = match real_name(s.name) {
        Some(name) => name + " · "@ + id,
        None => "Session "@ + id,
    };
    if s.agent.len() == 0 {
        head
    } else {
        head + " · "@ + s.agent
    }
}

/// The title above the conversation.
pub fn active_title(sessions: &[SessionSummary], active: &Option<String>) -> (r: String)
    ensures
        r@ == match active {
            Some(id) => match session_with(types::sessions_view(sessions@), id@) {
                Some(s) => title_of(s),
                None => seq![],
            },
            None => seq![],
        },
{
    let found = match active {
        Some(id) => find_session(sessions, id.as_str()),
        None => None,
    };
    let s = match found {
        Some(s) => s,
        None => {
            let e = String::new();
            assert(e@ =~= seq![]);
            return e;
        },
    };
    let id = chat::short_id(s.id.as_str());
    let name = match &s.name {
        Some(n) => {
            let t = text::trimmed(n.as_str());
            if t.as_str().is_empty() {
                None
            } else {
                Some(t)
            }
        },
        None => None,
    };
    let head = match name {
        Some(n) => n.concat(" · ").concat(id.as_str()),
        None => text::owned("Session ").concat(id.as_str()),
    };
    if s.agent.as_str().is_empty() {
        head
    } else {
        head.concat(" · ").concat(s.agent.as_str())
    }
}

/// How a session is listed: by its name, or by its id and agent.
pub open spec fn listed_as(found: Option<SessionV>, id: Seq<char>) -> Seq<char> {
    let named = match found {
        Some(s) => match s.name {
            Some(n) => if n.len() == 0 {
                None
            } else {
                Some(n)
            },
            None => None,
        },
        None => None,
    };
    match named {
        Some(n) => n,
        None => chat::short(id) + " · "@ + match found {
            Some(s) => s.agent,
            None => seq![],
        },
    }
}

pub fn session_label(sessions: &[SessionSummary], id: &str) -> (r: String)
    ensures
        r@ == listed_as(session_with(types::sessions_view(sessions@), id@), id@),
{
    let found = find_session(sessions, id);
    if let Some(s) = found {
        if let Some(n) = &s.name {
            if !n.as_str().is_empty() {
                return n.clone();
            }
        }
    }
    let head = chat::short_id(id).concat(" · ");
    match found {
        Some(s) => head.concat(s.agent.as_str()),
        None => {
            assert(head@ =~= head@ + seq![]);
            head
        },
    }
}

/// The name with which an edit of a session starts.
pub fn name_draft(sessions: &[SessionSummary], id: &str) -> (r: String)
    ensures
        r@ == match session_with(types::sessions_view(sessions@), id@) {
            Some(s) => match s.name {
                Some(n) => n,
                None => seq![],
            },
            None => seq![],
        },
{
    if let Some(s) = find_session(sessions, id) {
        if let Some(n) = &s.name {
            return n.clone();
        }
    }
    let e = String::new();
    assert(e@ =~= seq![]);
    e
}

/// The session that the settings are about: the one they were opened for, or
/// else the active one.
pub open spec fn target_of(chosen: Option<Seq<char>>, active: Option<Seq<char>>) -> Seq<char> {
    match chosen {
        Some(id) => id,
        None => match active {
            Some(id) => id,
            None => seq![],
        },
    }
}

pub fn settings_target(chosen: &Option<String>, active: &Option<String>) -> (r: String)
    ensures
        r@ == target_of(text::opt_text(*chosen), text::opt_text(*active)),
{
    match chosen {
        Some(id) => id.clone(),
        None => match active {
            Some(id) => id.clone(),
            None => {
                let e = String::new();
                assert(e@ =~= seq![]);
                e
            },
        },
    }
}

pub open spec fn sandbox_of(sessions: Seq<SessionV>, id: Seq<char>) -> Option<Seq<char>> {
    match session_with(sessions, id) {
        Some(s) => s.sandbox_id,
        None => None,
    }
}

/// The sandbox that a session uses.
pub fn current_sandbox_id(sessions: &[SessionSummary], id: &str) -> (r: Option<String>)
    ensures
        text::opt_text(r) == sandbox_of(types::sessions_view(sessions@), id@),
{
    match find_session(sessions, id) {
        Some(s) => text::copy_opt(&s.sandbox_id),
        None => None,
    }
}

pub open spec fn sandbox_label(v: Seq<SandboxV>, id: Option<Seq<char>>) -> Seq<char> {
    match id {
        Some(sid) => if sid.len() == 0 {
            "(none)"@
        } else {
            match sandbox_with(v, sid) {
                Some(b) => b.name,
                None => sid,
            }
        },
        None => "(none)"@,
    }
}

/// The name of the sandbox that a session uses, or its id where it has no name.
pub fn current_sandbox_name(
    sessions: &[SessionSummary],
    sandboxes: &[SandboxSummary],
    id: &str,
) -> (r: String)
    ensures
        r@ == sandbox_label(
            types::sandboxes_view(sandboxes@),
            sandbox_of(types::sessions_view(sessions@), id@),
        ),
{
    let sid = match current_sandbox_id(sessions, id) {
        Some(s) => s,
        None => {
            return text::owned("(none)");
        },
    };
    if sid.as_str().is_empty() {
        return text::owned("(none)");
    }
    match find_sandbox(sandboxes, sid.as_str()) {
        Some(b) => b.name.clone(),
        None => sid,
    }
}

/// How a sandbox is marked in the list.
#[derive(Debug, Clone, Copy, PartialEq, Eq, Structural)]
pub enum Mark {
    Current,
    Selected,
    Plain,
}

pub fn sandbox_mark(id: &str, current: &Option<String>, selected: &Option<String>) -> (r: Mark)
    ensures
        r == if text::opt_text(*current) == Some(id@) {
            Mark::Current
        } else if text::opt_text(*selected) == Some(id@) {
            Mark::Selected
        } else {
            Mark::Plain
        },
{
    if let Some(c) = current {
        if text::same(c.as_str(), id) {
            return Mark::Current;
        }
    }
    if let Some(s) = selected {
        if text::same(s.as_str(), id) {
            return Mark::Selected;
        }
    }
    Mark::Plain
}

/// The menu of a session after a click on its button: a second click closes it.
pub fn toggled_menu(open: &Option<String>, clicked: &str) -> (r: Option<String>)
    ensures
        text::opt_text(r) == if text::opt_text(*open) == Some(clicked@) {
            None
        } else {
            Some(clicked@)
        },
{
    if let Some(id) = open {
        if text::same(id.as_str(), clicked) {
            return None;
        }
    }
    Some(text::owned(clicked))
}

/// The agent that is chosen once the agents are known: the first, where none
/// was chosen and the first has a name.
pub open spec fn chosen_agent(agents: Seq<JsonV>, chosen: Seq<char>) -> Seq<char> {
    if agents.len() > 0 && chosen.len() == 0 {
        match json::str_of(json::field(agents[0], "name"@)) {
            Some(n) => n,
            None => chosen,
        }
    } else {
        chosen
    }
}

pub fn choose_agent(agents: &Vec<Json>, chosen: &str) -> (r: String)
    ensures
        r@ == chosen_agent(json::items_view(agents@), chosen@),
{
    proof {
        json::lemma_items(agents@);
    }
    if agents.len() > 0 && chosen.is_empty() {
        if let Some(n) = json::str_in(agents[0].get("name")) {
            return text::owned(n);
        }
    }
    text::owned(chosen)
}

/// The pill that leads to the latest message is shown.
pub fn shows_jump(follow: bool, at_latest: bool) -> (r: bool)
    ensures
        r == (!follow && !at_latest),
{
    !follow && !at_latest
}

/// The end of the conversation is in view, or nearly.
pub fn is_near(top: i32, height: i32, total: i32) -> (r: bool)
    ensures
        r == (top + height >= total - 48),
{
    top as i64 + height as i64 >= total as i64 - 48
}

// ---- what is sent ----

pub open spec fn session_path(id: Seq<char>, action: Seq<char>) -> Seq<char> {
    "/api/sessions/"@ + id + action
}

fn path_of(id: &str, action: &str) -> (r: String)
    ensures
        r@ == session_path(id@, action@),
{
    text::owned("/api/sessions/").concat(id).concat(action)
}

pub open spec fn said(name: Seq<char>, value: Seq<char>) -> JsonV {
    JsonV::Obj(seq![(name, JsonV::Str(value))])
}

/// The call that sends a message.
pub fn send_call(id: &str, content: &str) -> (r: Call)
    ensures
        r@ == types::call_with(Method::Post, session_path(id@, "/stream"@), said("content"@, content@)),
{
    Call::with(
        Method::Post,
        path_of(id, "/stream"),
        json::obj1("content", json::string(content)),
    )
}

/// The call that opens a session with an agent; none where no agent is chosen.
pub fn create_session(agent: &str) -> (r: Option<Call>)
    ensures
        types::opt_call(r) == if agent@.len() == 0 {
            None
        } else {
            Some(types::call_with(Method::Post, "/api/sessions"@, said("agent"@, agent@)))
        },
{
    if agent.is_empty() {
        return None;
    }
    Some(
        Call::with(
            Method::Post,
            text::owned("/api/sessions"),
            json::obj1("agent", json::string(agent)),
        ),
    )
}

/// Where the page goes once a session was asked for.
pub fn after_create(status: u16, v: &Json) -> (r: Option<String>)
    ensures
        text::opt_text(r) == match json::str_of(json::field(v@, "session_id"@)) {
            Some(id) => if status == 201 {
                Some("/chat/"@ + id)
            } else {
                None
            },
            None => None,
        },
{
    if status != 201 {
        return None;
    }
    match json::str_in(v.get("session_id")) {
        Some(id) => Some(text::owned("/chat/").concat(id)),
        None => None,
    }
}

/// Where the page goes once a session is gone: away from it, if it was shown.
pub fn after_delete(id: &str, active: &Option<String>) -> (r: Option<String>)
    ensures
        text::opt_text(r) == if text::opt_text(*active) == Some(id@) {
            Some("/chat"@)
        } else {
            None
        },
{
    if let Some(a) = active {
        if text::same(a.as_str(), id) {
            return Some(text::owned("/chat"));
        }
    }
    None
}

/// What the settings can ask of a session.
#[derive(Debug, PartialEq)]
pub enum Setting {
    Reset,
    Compact,
    Delete,
    Stop,
    Name(String),
    Sandbox(String),
}

pub open spec fn setting_call(s: Setting, id: Seq<char>) -> types::CallV {
    match s {
        Setting::Reset => types::call_with(
            Method::Post,
            session_path(id, "/reset"@),
            types::nothing(),
        ),
        Setting::Compact => types::call_with(
            Method::Post,
            session_path(id, "/compact"@),
            types::nothing(),
        ),
        Setting::Stop => types::call_with(
            Method::Post,
            session_path(id, "/stop"@),
            types::nothing(),
        ),
        Setting::Delete => types::bare_call(Method::Delete, session_path(id, seq![])),
        Setting::Name(n) => types::call_with(
            Method::Put,
            session_path(id, seq![]),
            said("name"@, n@),
        ),
        Setting::Sandbox(b) => types::call_with(
            Method::Put,
            session_path(id, seq![]),
            said("sandbox_id"@, b@),
        ),
    }
}

/// The call for a setting of the session `id`; none where there is no session.
pub fn change_session(s: Setting, id: &str) -> (r: Option<Call>)
    ensures
        types::opt_call(r) == if id@.len() == 0 {
            None
        } else {
            Some(setting_call(s, id@))
        },
{
    if id.is_empty() {
        return None;
    }
    proof {
        reveal_strlit("");
        assert(""@ =~= seq![]);
    }
    Some(
        match s {
            Setting::Reset => Call::with(
                Method::Post,
                path_of(id, "/reset"),
                types::empty_object(),
            ),
            Setting::Compact => Call::with(
                Method::Post,
                path_of(id, "/compact"),
                types::empty_object(),
            ),
            Setting::Stop => Call::with(
                Method::Post,
                path_of(id, "/stop"),
                types::empty_object(),
            ),
            Setting::Delete => Call::bare(Method::Delete, path_of(id, "")),
            Setting::Name(n) => Call::with(
                Method::Put,
                path_of(id, ""),
                json::obj1("name", json::string(n.as_str())),
            ),
            Setting::Sandbox(b) => Call::with(
                Method::Put,
                path_of(id, ""),
                json::obj1("sandbox_id", json::string(b.as_str())),
            ),
        },
    )
}

/// The call that makes a sandbox for the session `target`; none without a
/// session, or for a blank name.
pub fn create_sandbox(target: &str, name: &str) -> (r: Option<Call>)
    ensures
        types::opt_call(r) == if target@.len() == 0 || text::trim(name@).len() == 0 {
            None
        } else {
            Some(types::call_with(Method::Post, "/api/sandboxes"@, said("name"@, name@)))
        },
{
    if target.is_empty() || text::trimmed(name).as_str().is_empty() {
        return None;
    }
    Some(
        Call::with(
            Method::Post,
            text::owned("/api/sandboxes"),
            json::obj1("name", json::string(name)),
        ),
    )
}

/// The call that moves the session into the sandbox that was made.
pub fn adopt_sandbox(target: &str, made: &Json) -> (r: Option<Call>)
    ensures
        types::opt_call(r) == match json::str_of(json::field(made@, "id"@)) {
            Some(sid) => Some(
                types::call_with(
                    Method::Put,
                    session_path(target@, seq![]),
                    said("sandbox_id"@, sid),
                ),
            ),
            None => None,
        },
{
    proof {
        reveal_strlit("");
        assert(""@ =~= seq![]);
    }
    match json::str_in(made.get("id")) {
        Some(sid) => Some(
            Call::with(
                Method::Put,
                path_of(target, ""),
                json::obj1("sandbox_id", json::string(sid)),
            ),
        ),
        None => None,
    }
}

/// The call that renames the selected sandbox.
pub fn rename_sandbox(selected: &Option<String>, name: &str) -> (r: Option<Call>)
    ensures
        types::opt_call(r) == match selected {
            Some(sid) => Some(
                types::call_with(Method::Put, "/api/sandboxes/"@ + sid@, said("name"@, name@)),
            ),
            None => None,
        },
{
    match selected {
        Some(sid) => Some(
            Call::with(
                Method::Put,
                text::owned("/api/sandboxes/").concat(sid.as_str()),
                json::obj1("name", json::string(name)),
            ),
        ),
        None => None,
    }
}

/// What a key asks for in a text field.
#[derive(Debug, Clone, Copy, PartialEq, Eq, Structural)]
pub enum Intent {
    Accept,
    Cancel,
    Nothing,
}

/// Enter sends a message unless it is shifted.
pub fn composer_key(key: &str, shift: bool) -> (r: Intent)
    ensures
        r == if key@ == "Enter"@ && !shift {
            Intent::Accept
        } else {
            Intent::Nothing
        },
{
    if text::same(key, "Enter") && !shift {
        Intent::Accept
    } else {
        Intent::Nothing
    }
}

/// Enter keeps a new name, and Escape drops it.
pub fn rename_key(key: &str) -> (r: Intent)
    ensures
        r == if key@ == "Enter"@ {
            Intent::Accept
        } else if key@ == "Escape"@ {
            Intent::Cancel
        } else {
            Intent::Nothing
        },
{
    if text::same(key, "Enter") {
        Intent::Accept
    } else if text::same(key, "Escape") {
        Intent::Cancel
    } else {
        Intent::Nothing
    }
}

// ---- laws ----

/// A session that is listed can be found again by its id.
pub proof fn a_listed_session_is_found(v: Seq<SessionV>, i: int)
    requires
        0 <= i < v.len(),
        forall|j: int, k: int| 0 <= j < k < v.len() ==> (#[trigger] v[j]).id != (#[trigger] v[k]).id,
    ensures
        session_with(v, v[i].id) == Some(v[i]),
    decreases v.len(),
{
    if i > 0 {
        assert(v[0].id != v[i].id);
        assert(v.skip(1)[i - 1] == v[i]);
        assert forall|j: int, k: int| 0 <= j < k < v.skip(1).len() implies (#[trigger] v.skip(
            1,
        )[j]).id != (#[trigger] v.skip(1)[k]).id by {
            assert(v.skip(1)[j] == v[j + 1] && v.skip(1)[k] == v[k + 1]);
        }
        a_listed_session_is_found(v.skip(1), i - 1);
    }
}

} // verus!
