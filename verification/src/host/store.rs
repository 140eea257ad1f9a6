//! Sessions as they are stored: rows in, sessions out, and back.
use crate::agent::block::{self, Block, BlockV};
use crate::agent::session::{self, AgentState, AgentStateV};
use crate::host::drivers::Usage;
use crate::host::registry;
use crate::json::{self, Json, JsonV};
use crate::shell::vars::{self, Env, Pairs};
use crate::text;
use vstd::prelude::*;

verus! {

broadcast use crate::text::views_push;

/// One entry of a stored conversation. For tool kinds the text is a JSON payload.
#[derive(Debug, PartialEq)]
pub struct StoredBlock {
    pub agent_version_id: String,
    pub kind: String,
    pub text: Option<String>,
    pub input_tokens: u32,
    pub cache_read_tokens: u32,
    pub cache_creation_tokens: u32,
    pub output_tokens: u32,
    pub created_at_ms: u64,
    pub finished_at_ms: u64,
}

/// A stored entry is an entry of the log.
impl View for StoredBlock {
    type V = BlockV;

    open spec fn view(&self) -> BlockV {
        BlockV {
            agent_version_id: self.agent_version_id@,
            kind: self.kind@,
            text: text::opt_text(self.text),
            usage: Usage {
                input_tokens: self.input_tokens,
                cache_read_tokens: self.cache_read_tokens,
                cache_creation_tokens: self.cache_creation_tokens,
                output_tokens: self.output_tokens,
            },
            created_at_ms: self.created_at_ms,
            finished_at_ms: self.finished_at_ms,
        }
    }
}

pub open spec fn stored_views(v: Seq<StoredBlock>) -> Seq<BlockV> {
    v.map_values(|b: StoredBlock| b@)
}

impl StoredBlock {
    pub fn from_block(b: &Block) -> (r: StoredBlock)
        ensures
            r@ == b@,
    {
        StoredBlock {
            agent_version_id: b.agent_version_id.clone(),
            kind: b.kind.clone(),
            text: text::copy_opt(&b.text),
            input_tokens: b.usage.input_tokens,
            cache_read_tokens: b.usage.cache_read_tokens,
            cache_creation_tokens: b.usage.cache_creation_tokens,
            output_tokens: b.usage.output_tokens,
            created_at_ms: b.created_at_ms,
            finished_at_ms: b.finished_at_ms,
        }
    }

    pub fn to_block(&self) -> (r: Block)
        ensures
            r@ == self@,
    {
        Block {
            agent_version_id: self.agent_version_id.clone(),
            kind: self.kind.clone(),
            text: text::copy_opt(&self.text),
            usage: Usage {
                input_tokens: self.input_tokens,
                cache_read_tokens: self.cache_read_tokens,
                cache_creation_tokens: self.cache_creation_tokens,
                output_tokens: self.output_tokens,
            },
            created_at_ms: self.created_at_ms,
            finished_at_ms: self.finished_at_ms,
        }
    }
}

/// A stored session. The name is missing until the user gives one, the sandbox
/// where none was linked yet.
#[derive(Debug, PartialEq)]
pub struct PersistedSession {
    pub id: String,
    pub agent_name: String,
    pub agent_version_id: String,
    pub name: Option<String>,
    pub sandbox_id: Option<String>,
    pub updated_at: i64,
    pub summary: Option<String>,
    pub usage: Usage,
    pub messages: Vec<StoredBlock>,
}

/// What a session's own row holds.
pub struct HeadV {
    pub id: Seq<char>,
    pub agent_name: Seq<char>,
    pub agent_version_id: Seq<char>,
    pub name: Option<Seq<char>>,
    pub sandbox_id: Option<Seq<char>>,
    pub updated_at: i64,
    pub summary: Option<Seq<char>>,
    pub usage: Usage,
}

pub struct PersistedV {
    pub head: HeadV,
    pub messages: Seq<BlockV>,
}

impl View for PersistedSession {
    type V = PersistedV;

    open spec fn view(&self) -> PersistedV {
        PersistedV {
            head: HeadV {
                id: self.id@,
                agent_name: self.agent_name@,
                agent_version_id: self.agent_version_id@,
                name: text::opt_text(self.name),
                sandbox_id: text::opt_text(self.sandbox_id),
                updated_at: self.updated_at,
                summary: text::opt_text(self.summary),
                usage: self.usage,
            },
            messages: stored_views(self.messages@),
        }
    }
}

pub open spec fn persisted_views(v: Seq<PersistedSession>) -> Seq<PersistedV> {
    v.map_values(|s: PersistedSession| s@)
}

/// A directory that the tools of sessions work in.
#[derive(Debug, PartialEq)]
pub struct Sandbox {
    pub id: String,
    pub name: String,
    pub created_at: i64,
}

// ---- rows ----

/// One row of the stored messages, with numbers as the database holds them.
pub struct MessageRow {
    pub agent_version_id: Option<String>,
    pub kind: Option<String>,
    pub content: Option<String>,
    pub input_tokens: i64,
    pub cache_read_tokens: i64,
    pub cache_creation_tokens: i64,
    pub output_tokens: i64,
    pub created_at: Option<i64>,
    pub finished_at: Option<i64>,
}

pub struct MessageRowV {
    pub agent_version_id: Option<Seq<char>>,
    pub kind: Option<Seq<char>>,
    pub content: Option<Seq<char>>,
    pub input_tokens: i64,
    pub cache_read_tokens: i64,
    pub cache_creation_tokens: i64,
    pub output_tokens: i64,
    pub created_at: Option<i64>,
    pub finished_at: Option<i64>,
}

impl View for MessageRow {
    type V = MessageRowV;

    open spec fn view(&self) -> MessageRowV {
        MessageRowV {
            agent_version_id: text::opt_text(self.agent_version_id),
            kind: text::opt_text(self.kind),
            content: text::opt_text(self.content),
            input_tokens: self.input_tokens,
            cache_read_tokens: self.cache_read_tokens,
            cache_creation_tokens: self.cache_creation_tokens,
            output_tokens: self.output_tokens,
            created_at: self.created_at,
            finished_at: self.finished_at,
        }
    }
}

/// The row that a block is stored in.
pub open spec fn row_of(b: BlockV) -> MessageRowV {
    MessageRowV {
        agent_version_id: Some(b.agent_version_id),
        kind: Some(b.kind),
        content: b.text,
        input_tokens: b.usage.input_tokens as i64,
        cache_read_tokens: b.usage.cache_read_tokens as i64,
        cache_creation_tokens: b.usage.cache_creation_tokens as i64,
        output_tokens: b.usage.output_tokens as i64,
        created_at: Some(b.created_at_ms as i64),
        finished_at: Some(b.finished_at_ms as i64),
    }
}

pub open spec fn or_empty(s: Option<Seq<char>>) -> Seq<char> {
    match s {
        Some(t) => t,
        None => seq![],
    }
}

pub open spec fn moment(n: Option<i64>) -> u64 {
    match n {
        Some(x) => x as u64,
        None => 0,
    }
}

/// The block that a row holds. What is missing is empty or zero.
pub open spec fn block_of(r: MessageRowV) -> BlockV {
    BlockV {
        agent_version_id: or_empty(r.agent_version_id),
        kind: or_empty(r.kind),
        text: r.content,
        usage: Usage {
            input_tokens: r.input_tokens as u32,
            cache_read_tokens: r.cache_read_tokens as u32,
            cache_creation_tokens: r.cache_creation_tokens as u32,
            output_tokens: r.output_tokens as u32,
        },
        created_at_ms: moment(r.created_at),
        finished_at_ms: moment(r.finished_at),
    }
}

fn text_or_empty(s: Option<String>) -> (r: String)
    ensures
        r@ == or_empty(text::opt_text(s)),
{
    match s {
        Some(t) => t,
        None => {
            let e = String::new();
            assert(e@ =~= seq![]);
            e
        },
    }
}

fn moment_of(n: Option<i64>) -> (r: u64)
    ensures
        r == moment(n),
{
    match n {
        Some(x) => #[verifier::truncate] (x as u64),
        None => 0,
    }
}

impl MessageRow {
    pub fn from_block(b: &StoredBlock) -> (r: MessageRow)
        ensures
            r@ == row_of(b@),
    {
        MessageRow {
            agent_version_id: Some(b.agent_version_id.clone()),
            kind: Some(b.kind.clone()),
            content: text::copy_opt(&b.text),
            input_tokens: b.input_tokens as i64,
            cache_read_tokens: b.cache_read_tokens as i64,
            cache_creation_tokens: b.cache_creation_tokens as i64,
            output_tokens: b.output_tokens as i64,
            created_at: Some(#[verifier::truncate] (b.created_at_ms as i64)),
            finished_at: Some(#[verifier::truncate] (b.finished_at_ms as i64)),
        }
    }

    pub fn into_block(self) -> (r: StoredBlock)
        ensures
            r@ == block_of(self@),
    {
        StoredBlock {
            agent_version_id: text_or_empty(self.agent_version_id),
            kind: text_or_empty(self.kind),
            text: self.content,
            input_tokens: #[verifier::truncate] (self.input_tokens as u32),
            cache_read_tokens: #[verifier::truncate] (self.cache_read_tokens as u32),
            cache_creation_tokens: #[verifier::truncate] (self.cache_creation_tokens as u32),
            output_tokens: #[verifier::truncate] (self.output_tokens as u32),
            created_at_ms: moment_of(self.created_at),
            finished_at_ms: moment_of(self.finished_at),
        }
    }
}

/// One row of the sessions joined with their messages: a session without
/// messages has one row without a message.
pub struct SessionRow {
    pub id: String,
    pub agent_name: String,
    pub agent_version_id: String,
    pub name: Option<String>,
    pub sandbox_id: Option<String>,
    pub summary: Option<String>,
    pub usage: Usage,
    pub updated_at: i64,
    pub message: Option<MessageRow>,
}

pub struct SessionRowV {
    pub head: HeadV,
    pub message: Option<MessageRowV>,
}

pub open spec fn message_view(m: Option<MessageRow>) -> Option<MessageRowV> {
    match m {
        Some(r) => Some(r@),
        None => None,
    }
}

impl View for SessionRow {
    type V = SessionRowV;

    open spec fn view(&self) -> SessionRowV {
        SessionRowV {
            head: HeadV {
                id: self.id@,
                agent_name: self.agent_name@,
                agent_version_id: self.agent_version_id@,
                name: text::opt_text(self.name),
                sandbox_id: text::opt_text(self.sandbox_id),
                updated_at: self.updated_at,
                summary: text::opt_text(self.summary),
                usage: self.usage,
            },
            message: message_view(self.message),
        }
    }
}

pub open spec fn row_views(v: Seq<SessionRow>) -> Seq<SessionRowV> {
    v.map_values(|r: SessionRow| r@)
}

/// Where the session of that id stands, or the length.
pub open spec fn place(s: Seq<PersistedV>, id: Seq<char>) -> int
    decreases s.len(),
{
    if s.len() == 0 || s[0].head.id == id {
        0
    } else {
        1 + place(s.skip(1), id)
    }
}

pub open spec fn row_messages(m: Option<MessageRowV>) -> Seq<BlockV> {
    match m {
        Some(r) => seq![block_of(r)],
        None => seq![],
    }
}

/// The sessions after one more row: it starts a session of a new id, or adds its
/// message to the session of its id.
pub open spec fn with_row(s: Seq<PersistedV>, r: SessionRowV) -> Seq<PersistedV> {
    let at = place(s, r.head.id);
    if at < s.len() {
        s.update(
            at,
            PersistedV { messages: s[at].messages + row_messages(r.message), ..s[at] },
        )
    } else {
        s.push(PersistedV { head: r.head, messages: row_messages(r.message) })
    }
}

/// The sessions that rows hold, in the order in which they first come.
pub open spec fn folded(rows: Seq<SessionRowV>) -> Seq<PersistedV>
    decreases rows.len(),
{
    if rows.len() == 0 {
        seq![]
    } else {
        with_row(folded(rows.drop_last()), rows.last())
    }
}

pub proof fn lemma_place(s: Seq<PersistedV>, id: Seq<char>)
    ensures
        0 <= place(s, id) <= s.len(),
        forall|k: int| 0 <= k < place(s, id) ==> (#[trigger] s[k]).head.id != id,
        place(s, id) < s.len() ==> s[place(s, id)].head.id == id,
    decreases s.len(),
{
    if s.len() > 0 && s[0].head.id != id {
        let t = s.skip(1);
        lemma_place(t, id);
        assert forall|k: int| 0 <= k < place(s, id) implies (#[trigger] s[k]).head.id != id by {
            if k > 0 {
                assert(t[k - 1] == s[k]);
            }
        }
    }
}

fn find_session(v: &Vec<PersistedSession>, id: &str) -> (r: usize)
    ensures
        r == place(persisted_views(v@), id@),
{
    let ghost s = persisted_views(v@);
    let mut i: usize = 0;
    assert(s.skip(0) =~= s);
    while i < v.len() && !text::same(v[i].id.as_str(), id)
        invariant
            i <= v@.len(),
            s == persisted_views(v@),
            place(s, id@) == i + place(s.skip(i as int), id@),
        decreases v@.len() - i,
    {
        assert(s.skip(i as int)[0] == v@[i as int]@);
        assert(s.skip(i as int).skip(1) =~= s.skip(i as int + 1));
        i = i + 1;
    }
    assert(i < v@.len() ==> s.skip(i as int)[0] == v@[i as int]@);
    i
}

fn take_row(v: &mut Vec<PersistedSession>, row: SessionRow)
    ensures
        persisted_views(final(v)@) == with_row(persisted_views(old(v)@), row@),
{
    let ghost before = persisted_views(v@);
    let ghost rv = row@;
    let at: usize = find_session(v, row.id.as_str());
    proof {
        lemma_place(before, row.id@);
    }
    let mut messages: Vec<StoredBlock> = Vec::new();
    if let Some(m) = row.message {
        messages.push(m.into_block());
    }
    assert(stored_views(messages@) =~= row_messages(rv.message));
    if at < v.len() {
        let mut s = v.remove(at);
        let ghost was = s@;
        assert(was == before[at as int]);
        let ghost had = s.messages@;
        let ghost more = messages@;
        s.messages.append(&mut messages);
        assert(s.messages@ =~= had + more);
        assert(stored_views(s.messages@) =~= was.messages + row_messages(rv.message));
        v.insert(at, s);
        assert(persisted_views(v@) =~= with_row(before, rv));
    } else {
        let s = PersistedSession {
            id: row.id,
            agent_name: row.agent_name,
            agent_version_id: row.agent_version_id,
            name: row.name,
            sandbox_id: row.sandbox_id,
            updated_at: row.updated_at,
            summary: row.summary,
            usage: row.usage,
            messages,
        };
        v.push(s);
        assert(persisted_views(v@) =~= before.push(s@));
    }
}

/// The sessions that rows hold.
pub fn fold_sessions(rows: Vec<SessionRow>) -> (r: Vec<PersistedSession>)
    ensures
        persisted_views(r@) == folded(row_views(rows@)),
{
    let ghost all = row_views(rows@);
    let mut rest = rows;
    let mut out: Vec<PersistedSession> = Vec::new();
    let n: usize = rest.len();
    let mut i: usize = 0;
    assert(all.take(0) =~= seq![]);
    assert(persisted_views(out@) =~= seq![]);
    assert(all.skip(0) =~= all);
    while i < n
        invariant
            i <= n,
            n == all.len(),
            rest@.len() == n - i,
            row_views(rest@) == all.skip(i as int),
            persisted_views(out@) == folded(all.take(i as int)),
        decreases n - i,
    {
        let ghost had = rest@;
        let row = rest.remove(0);
        assert(row@ == all[i as int]) by {
            assert(row@ == row_views(had)[0]);
        }
        assert(row_views(rest@) =~= all.skip(i as int + 1)) by {
            assert(row_views(rest@) =~= row_views(had).skip(1));
            assert(all.skip(i as int).skip(1) =~= all.skip(i as int + 1));
        }
        assert(all.take(i as int + 1).drop_last() =~= all.take(i as int));
        assert(all.take(i as int + 1).last() == row@);
        take_row(&mut out, row);
        i = i + 1;
    }
    assert(all.take(i as int) =~= all);
    out
}

// ---- writing ----

/// What a session that is stored already keeps when it is written again: others
/// name it and link its sandbox.
pub struct KeptColumns {
    pub name: Option<String>,
    pub sandbox_id: Option<String>,
}

/// The session that stands in the store once `p` is written at the time `now` over
/// `had`, the session of its id that stood there, if any.
pub open spec fn merged(
    had: Option<(Option<Seq<char>>, Option<Seq<char>>)>,
    p: PersistedV,
    now: i64,
) -> PersistedV {
    let head = HeadV { updated_at: now, ..p.head };
    PersistedV {
        head: match had {
            Some((name, sandbox_id)) => HeadV { name, sandbox_id, ..head },
            None => head,
        },
        messages: p.messages,
    }
}

pub open spec fn kept_view(had: Option<KeptColumns>) -> Option<
    (Option<Seq<char>>, Option<Seq<char>>),
> {
    match had {
        Some(k) => Some((text::opt_text(k.name), text::opt_text(k.sandbox_id))),
        None => None,
    }
}

/// The rows of the messages of a session, in their order.
pub fn message_rows(p: &PersistedSession) -> (r: Vec<MessageRow>)
    ensures
        r@.map_values(|m: MessageRow| m@) == p@.messages.map_values(|b: BlockV| row_of(b)),
{
    let ghost all = p@.messages.map_values(|b: BlockV| row_of(b));
    let mut out: Vec<MessageRow> = Vec::new();
    let mut i: usize = 0;
    while i < p.messages.len()
        invariant
            i <= p.messages@.len(),
            all == p@.messages.map_values(|b: BlockV| row_of(b)),
            out@.map_values(|m: MessageRow| m@) == all.take(i as int),
        decreases p.messages@.len() - i,
    {
        let m = MessageRow::from_block(&p.messages[i]);
        assert(m@ == all[i as int]);
        out.push(m);
        i = i + 1;
        assert(out@.map_values(|m: MessageRow| m@) =~= all.take(i as int));
    }
    assert(all.take(i as int) =~= all);
    out
}

/// What is written for a session: all of it, but the name and the sandbox that a
/// stored session has already.
pub fn written(had: Option<KeptColumns>, p: PersistedSession, now: i64) -> (r: PersistedSession)
    ensures
        r@ == merged(kept_view(had), p@, now),
{
    let mut r = p;
    r.updated_at = now;
    if let Some(k) = had {
        r.name = k.name;
        r.sandbox_id = k.sandbox_id;
    }
    r
}

/// The stored sessions after `p` is written: the session of its id stays in its
/// place, a new one comes last.
pub open spec fn stored(table: Seq<PersistedV>, p: PersistedV, now: i64) -> Seq<PersistedV> {
    let at = place(table, p.head.id);
    if at < table.len() {
        table.update(
            at,
            merged(Some((table[at].head.name, table[at].head.sandbox_id)), p, now),
        )
    } else {
        table.push(merged(None, p, now))
    }
}

/// The stored sessions after all of `v` are written into an empty store, each at
/// its time.
pub open spec fn stored_all(v: Seq<PersistedV>, times: Seq<i64>) -> Seq<PersistedV>
    decreases v.len(),
{
    if v.len() == 0 {
        seq![]
    } else {
        stored(stored_all(v.drop_last(), times), v.last(), times[v.len() - 1])
    }
}

// ---- snapshots ----

/// What is stored of a session after a turn. Its name and sandbox are kept by
/// others and left alone.
pub fn snapshot(
    session_id: &str,
    agent_name: &str,
    agent_version: &str,
    state: &AgentState,
    now: i64,
) -> (r: PersistedSession)
    ensures
        r@ == (PersistedV {
            head: HeadV {
                id: session_id@,
                agent_name: agent_name@,
                agent_version_id: agent_version@,
                name: None,
                sandbox_id: None,
                updated_at: now,
                summary: state@.summary,
                usage: state@.usage,
            },
            messages: state@.blocks,
        }),
{
    let mut messages: Vec<StoredBlock> = Vec::new();
    let ghost all = state@.blocks;
    let mut i: usize = 0;
    while i < state.blocks.len()
        invariant
            i <= state.blocks@.len(),
            all == block::block_views(state.blocks@),
            stored_views(messages@) == all.take(i as int),
        decreases state.blocks@.len() - i,
    {
        let b = StoredBlock::from_block(&state.blocks[i]);
        assert(b@ == all[i as int]);
        messages.push(b);
        i = i + 1;
        assert(stored_views(messages@) =~= all.take(i as int));
    }
    assert(all.take(i as int) =~= all);
    PersistedSession {
        id: text::owned(session_id),
        agent_name: text::owned(agent_name),
        agent_version_id: text::owned(agent_version),
        name: None,
        sandbox_id: None,
        updated_at: now,
        summary: text::copy_opt(&state.summary),
        usage: state.usage,
        messages,
    }
}

/// What a stored session is restored from.
pub fn restored_state(p: &PersistedSession) -> (r: AgentState)
    ensures
        r@ == (AgentStateV {
            blocks: p@.messages,
            summary: p@.head.summary,
            usage: p@.head.usage,
        }),
{
    let mut blocks: Vec<Block> = Vec::new();
    let ghost all = p@.messages;
    let mut i: usize = 0;
    while i < p.messages.len()
        invariant
            i <= p.messages@.len(),
            all == stored_views(p.messages@),
            block::block_views(blocks@) == all.take(i as int),
        decreases p.messages@.len() - i,
    {
        let b = p.messages[i].to_block();
        assert(b@ == all[i as int]);
        blocks.push(b);
        i = i + 1;
        assert(block::block_views(blocks@) =~= all.take(i as int));
    }
    assert(all.take(i as int) =~= all);
    AgentState { blocks, summary: text::copy_opt(&p.summary), usage: p.usage }
}

// ---- columns of JSON ----

/// The texts in a column that holds a list of texts; none where it holds anything else.
pub open spec fn list_of(column: Seq<char>) -> Seq<Seq<char>> {
    match json::text_list(column) {
        Some(v) => v,
        None => seq![],
    }
}

/// Reads the text of a column that holds a list of texts.
pub fn read_list_text(column: &str) -> (r: Vec<String>)
    ensures
        text::texts(r@) == list_of(column@),
{
    match json::parse_list(column) {
        Some(v) => v,
        None => {
            let none: Vec<String> = Vec::new();
            assert(text::texts(none@) =~= seq![]);
            none
        },
    }
}

/// The variables in a column that holds an object of texts; none where it holds
/// anything else.
pub open spec fn env_of(column: Seq<char>) -> Pairs {
    match json::text_map(column) {
        Some(p) => vars::with_all(seq![], p),
        None => seq![],
    }
}

/// Reads the text of a column that holds variables.
pub fn read_env_text(column: &str) -> (r: Env)
    ensures
        r@ == env_of(column@),
        vars::ordered(r@),
{
    match json::parse_map(column) {
        Some(v) => Env::from_pairs(v),
        None => Env::new(),
    }
}

/// The text of a column that holds a list of texts, which reads back as the list.
pub fn list_text(v: &Vec<String>) -> (r: String)
    ensures
        r@ == json::json_text(registry::texts_json(text::texts(v@))),
        list_of(r@) == text::texts(v@),
{
    let j = registry::texts_value(v);
    proof {
        a_list_reads_back(text::texts(v@));
    }
    json::render(&j)
}

/// Variables as an object of texts.
pub open spec fn env_json(p: Pairs) -> JsonV {
    JsonV::Obj(p.map_values(|e: (Seq<char>, Seq<char>)| (e.0, JsonV::Str(e.1))))
}

/// The text of a column that holds variables, which reads back as the variables.
pub fn env_text(env: &Env) -> (r: String)
    ensures
        r@ == json::json_text(env_json(env@)),
        vars::ordered(env@) ==> env_of(r@) == env@,
{
    let ghost all = env_json(env@)->Obj_0;
    let mut out = json::object();
    let mut i: usize = 0;
    assert(json::members_view(out@) =~= all.take(0));
    while i < env.entries.len()
        invariant
            i <= env.entries@.len(),
            all == env_json(env@)->Obj_0,
            json::members_view(out@) == all.take(i as int),
        decreases env.entries@.len() - i,
    {
        let e = &env.entries[i];
        assert(all[i as int] == (e.0@, JsonV::Str(e.1@)));
        json::put(&mut out, e.0.as_str(), json::string(e.1.as_str()));
        i = i + 1;
        assert(json::members_view(out@) =~= all.take(i as int));
    }
    assert(all.take(i as int) =~= all);
    proof {
        if vars::ordered(env@) {
            variables_read_back(env@);
        }
    }
    json::render(&Json::Obj(out))
}

// ---- laws ----

/// The value that is stored for a list of texts holds that list.
pub proof fn a_list_reads_back(v: Seq<Seq<char>>)
    ensures
        json::texts_in(registry::texts_json(v)) == Some(v),
{
    let items = registry::texts_json(v)->Arr_0;
    assert(items.map_values(|j: JsonV| json::text_or_empty(Some(j))) =~= v);
}

/// The value that is stored for variables holds them, whatever their names, and
/// they are read as they were.
pub proof fn variables_read_back(p: Pairs)
    requires
        vars::ordered(p),
    ensures
        json::members_in(env_json(p)) == Some(p),
        vars::with_all(seq![], p) == p,
{
    let m = env_json(p)->Obj_0;
    assert(m.map_values(|e: (Seq<char>, JsonV)| (e.0, json::text_or_empty(Some(e.1)))) =~= p);
    assert forall|i: int, k: int| 0 <= i < k < m.len() implies text::text_lt(
        (#[trigger] m[i]).0,
        (#[trigger] m[k]).0,
    ) by {
        assert(text::text_lt(p[i].0, p[k].0));
    }
    lemma_set_in_order(p, 0);
    assert(p.take(0) =~= seq![]);
    assert(p.skip(0) =~= p);
}

/// Setting variables in their order puts each behind the ones before it.
proof fn lemma_set_in_order(p: Pairs, n: int)
    requires
        vars::ordered(p),
        0 <= n <= p.len(),
    ensures
        vars::with_all(p.take(n), p.skip(n)) == p,
    decreases p.len() - n,
{
    if n < p.len() {
        lemma_set_last(p.take(n), p[n].0, p[n].1);
        assert(p.take(n).push(p[n]) =~= p.take(n + 1));
        assert(p.skip(n)[0] == p[n]);
        assert(p.skip(n).skip(1) =~= p.skip(n + 1));
        lemma_set_in_order(p, n + 1);
    } else {
        assert(p.take(n) =~= p);
    }
}

proof fn lemma_set_last(p: Pairs, name: Seq<char>, value: Seq<char>)
    requires
        forall|i: int| 0 <= i < p.len() ==> text::text_lt((#[trigger] p[i]).0, name),
    ensures
        vars::with(p, name, value) == p.push((name, value)),
    decreases p.len(),
{
    if p.len() > 0 {
        assert(text::text_lt(p[0].0, name));
        text::text_order_is_total(p[0].0, name);
        assert forall|i: int| 0 <= i < p.skip(1).len() implies text::text_lt(
            (#[trigger] p.skip(1)[i]).0,
            name,
        ) by {
            assert(p.skip(1)[i] == p[i + 1]);
        }
        lemma_set_last(p.skip(1), name, value);
        assert(seq![p[0]] + p.skip(1).push((name, value)) =~= p.push((name, value)));
    } else {
        assert(vars::with(p, name, value) =~= p.push((name, value)));
    }
}

/// A block read back from its row is the block that was stored.
pub proof fn a_stored_block_reads_back(b: BlockV)
    ensures
        block_of(row_of(b)) == b,
{
    let c = b.created_at_ms;
    let f = b.finished_at_ms;
    assert(((c as i64) as u64) == c) by (bit_vector);
    assert(((f as i64) as u64) == f) by (bit_vector);
}

/// The rows that a stored session comes back in.
pub open spec fn rows_of(s: PersistedV) -> Seq<SessionRowV> {
    if s.messages.len() == 0 {
        seq![SessionRowV { head: s.head, message: None }]
    } else {
        s.messages.map_values(
            |b: BlockV| SessionRowV { head: s.head, message: Some(row_of(b)) },
        )
    }
}

pub open spec fn all_rows(v: Seq<PersistedV>) -> Seq<SessionRowV>
    decreases v.len(),
{
    if v.len() == 0 {
        seq![]
    } else {
        all_rows(v.drop_last()) + rows_of(v.last())
    }
}

pub open spec fn distinct(v: Seq<PersistedV>) -> bool {
    forall|i: int, j: int|
        0 <= i < j < v.len() ==> (#[trigger] v[i]).head.id != (#[trigger] v[j]).head.id
}

/// Sessions that are stored and loaded again are the sessions that were stored,
/// in their order, with their messages in their order.
pub proof fn stored_sessions_load_again(v: Seq<PersistedV>)
    requires
        distinct(v),
    ensures
        folded(all_rows(v)) == v,
    decreases v.len(),
{
    if v.len() > 0 {
        let p = v.drop_last();
        assert(distinct(p)) by {
            assert forall|i: int, j: int| 0 <= i < j < p.len() implies (#[trigger] p[i]).head.id
                != (#[trigger] p[j]).head.id by {
                assert(v[i].head.id != v[j].head.id);
            }
        }
        stored_sessions_load_again(p);
        let s = v.last();
        assert forall|k: int| 0 <= k < p.len() implies (#[trigger] p[k]).head.id != s.head.id by {
            assert(v[k].head.id != v[v.len() - 1].head.id);
        }
        lemma_rows_fold(all_rows(p), p, s, rows_of(s).len() as int);
        assert(all_rows(p) + rows_of(s).take(rows_of(s).len() as int) =~= all_rows(v));
        if s.messages.len() == 0 {
            assert(s.messages =~= seq![]);
        } else {
            assert(s.messages.take(s.messages.len() as int) =~= s.messages);
        }
        assert(p.push(s) =~= v);
    }
}

/// Whatever is stored, writing a session, new or stored already, leaves one session
/// for each id; what is loaded then is the session as written, with the name and
/// the sandbox it had, and all others as they were.
pub proof fn what_is_written_loads_again(table: Seq<PersistedV>, p: PersistedV, now: i64)
    requires
        distinct(table),
    ensures
        distinct(stored(table, p, now)),
        folded(all_rows(stored(table, p, now))) == stored(table, p, now),
{
    lemma_place(table, p.head.id);
    let s = stored(table, p, now);
    let at = place(table, p.head.id);
    assert forall|i: int, j: int| 0 <= i < j < s.len() implies (#[trigger] s[i]).head.id != (
    #[trigger] s[j]).head.id by {
        if at < table.len() {
            assert(table[i].head.id != table[j].head.id);
        } else if j < table.len() {
            assert(table[i].head.id != table[j].head.id);
        } else {
            assert(table[i].head.id != p.head.id);
        }
    }
    stored_sessions_load_again(s);
}

/// Sessions of different ids that are written one after the other into an empty
/// store come back when they are loaded: all of them, in the order in which they
/// were first written, in every field but the time, which is that of the writing,
/// and with their messages in their order.
pub proof fn written_sessions_load_again(v: Seq<PersistedV>, times: Seq<i64>)
    requires
        distinct(v),
        times.len() == v.len(),
    ensures
        folded(all_rows(stored_all(v, times))).len() == v.len(),
        forall|i: int|
            0 <= i < v.len() ==> #[trigger] folded(all_rows(stored_all(v, times)))[i] == (
            PersistedV {
                head: HeadV { updated_at: times[i], ..v[i].head },
                messages: v[i].messages,
            }),
{
    lemma_stored_all(v, times);
    let s = stored_all(v, times);
    assert forall|i: int, j: int| 0 <= i < j < s.len() implies (#[trigger] s[i]).head.id != (
    #[trigger] s[j]).head.id by {
        assert(v[i].head.id != v[j].head.id);
    }
    stored_sessions_load_again(s);
}

proof fn lemma_stored_all(v: Seq<PersistedV>, times: Seq<i64>)
    requires
        distinct(v),
        times.len() >= v.len(),
    ensures
        stored_all(v, times).len() == v.len(),
        forall|i: int|
            0 <= i < v.len() ==> #[trigger] stored_all(v, times)[i] == merged(None, v[i], times[i]),
    decreases v.len(),
{
    if v.len() > 0 {
        let p = v.drop_last();
        assert(distinct(p)) by {
            assert forall|i: int, j: int| 0 <= i < j < p.len() implies (#[trigger] p[i]).head.id
                != (#[trigger] p[j]).head.id by {
                assert(v[i].head.id != v[j].head.id);
            }
        }
        lemma_stored_all(p, times);
        let table = stored_all(p, times);
        let id = v.last().head.id;
        lemma_place(table, id);
        assert(place(table, id) >= table.len()) by {
            let at = place(table, id);
            if at < table.len() {
                assert(table[at] == merged(None, p[at], times[at]));
                assert(v[at].head.id != v[v.len() - 1].head.id);
            }
        }
        assert forall|i: int| 0 <= i < v.len() implies #[trigger] stored_all(v, times)[i] == merged(
            None,
            v[i],
            times[i],
        ) by {
            if i < p.len() {
                assert(stored_all(v, times)[i] == table[i]);
            }
        }
    }
}

/// The first `n` rows of a session, behind those of others, make the session with
/// its first `n` messages.
proof fn lemma_rows_fold(before: Seq<SessionRowV>, p: Seq<PersistedV>, s: PersistedV, n: int)
    requires
        folded(before) == p,
        forall|k: int| 0 <= k < p.len() ==> (#[trigger] p[k]).head.id != s.head.id,
        1 <= n <= rows_of(s).len(),
    ensures
        folded(before + rows_of(s).take(n)) == p.push(
            PersistedV {
                head: s.head,
                messages: if s.messages.len() == 0 {
                    seq![]
                } else {
                    s.messages.take(n)
                },
            },
        ),
    decreases n,
{
    let rows = rows_of(s);
    let all = before + rows.take(n);
    assert(all.last() == rows[n - 1]);
    assert(all.drop_last() =~= before + rows.take(n - 1));
    let done = if s.messages.len() == 0 {
        seq![]
    } else {
        s.messages.take(n - 1)
    };
    if n == 1 {
        assert(before + rows.take(0) =~= before);
        lemma_place(p, s.head.id);
        assert(place(p, s.head.id) == p.len());
        if s.messages.len() > 0 {
            a_stored_block_reads_back(s.messages[0]);
            assert(row_messages(rows[0].message) =~= s.messages.take(1));
        }
    } else {
        lemma_rows_fold(before, p, s, n - 1);
        let mid = p.push(PersistedV { head: s.head, messages: done });
        lemma_place(mid, s.head.id);
        let at = place(mid, s.head.id);
        assert(mid[p.len() as int].head.id == s.head.id);
        if at < p.len() {
            assert(mid[at] == p[at]);
        }
        assert(at == p.len());
        a_stored_block_reads_back(s.messages[n - 1]);
        assert(done + row_messages(rows[n - 1].message) =~= s.messages.take(n));
        assert(mid.update(
            at,
            PersistedV { messages: done + row_messages(rows[n - 1].message), ..mid[at] },
        ) =~= p.push(PersistedV { head: s.head, messages: s.messages.take(n) }));
    }
}

/// A session that was saved is restored with the log, the summary and the counts
/// that it was saved with.
pub proof fn a_snapshot_restores(head: HeadV, state: AgentStateV)
    ensures
        ({
            let p = PersistedV {
                head: HeadV { summary: state.summary, usage: state.usage, ..head },
                messages: state.blocks,
            };
            AgentStateV {
                blocks: folded(rows_of(p))[0].messages,
                summary: folded(rows_of(p))[0].head.summary,
                usage: folded(rows_of(p))[0].head.usage,
            } == state
        }),
{
    let p = PersistedV {
        head: HeadV { summary: state.summary, usage: state.usage, ..head },
        messages: state.blocks,
    };
    let v = seq![p];
    stored_sessions_load_again(v);
    assert(v.drop_last() =~= seq![]);
    assert(all_rows(v.drop_last()) =~= seq![]);
    assert(all_rows(v) =~= rows_of(p));
}

} // verus!
