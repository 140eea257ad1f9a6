//! The sessions of an agent.
use crate::agent::block::{self, Block, BlockV, TurnUsage};
use crate::host::drivers::Usage;
use crate::host::table::{self, Table};
use crate::text;
use vstd::prelude::*;

verus! {

broadcast use crate::text::views_push;

/// Why an agent did not do what it was asked.
#[derive(Debug, Clone, Copy, PartialEq, Eq, Structural)]
pub enum AgentError {
    Busy,
    NotFound,
    Internal,
}

/// What a session is made from. `compact_at` is the number of input tokens from
/// which the history is summarized.
pub struct SessionConfig {
    pub agent_version_id: String,
    pub system_prompt: String,
    pub model: String,
    pub capabilities_json: String,
    pub max_history: u32,
    pub compact_at: u64,
    pub auto_compact: bool,
}

/// What a session can be restored from.
pub struct AgentState {
    pub blocks: Vec<Block>,
    pub summary: Option<String>,
    pub usage: Usage,
}

pub struct AgentStateV {
    pub blocks: Seq<BlockV>,
    pub summary: Option<Seq<char>>,
    pub usage: Usage,
}

impl View for AgentState {
    type V = AgentStateV;

    open spec fn view(&self) -> AgentStateV {
        AgentStateV {
            blocks: block::block_views(self.blocks@),
            summary: text::opt_text(self.summary),
            usage: self.usage,
        }
    }
}

/// A conversation with an agent.
pub struct Session {
    pub id: String,
    pub agent_version_id: String,
    pub system_prompt: String,
    pub model: String,
    pub blocks: Vec<Block>,
    pub max_history: usize,
    pub compact_at: u64,
    pub auto_compact: bool,
    pub summary: Option<String>,
    pub turn_usage: TurnUsage,
    pub total_usage: TurnUsage,
    pub last_input_tokens: u64,
}

#[verifier::ext_equal]
pub struct SessionV {
    pub id: Seq<char>,
    pub agent_version_id: Seq<char>,
    pub system_prompt: Seq<char>,
    pub model: Seq<char>,
    pub blocks: Seq<BlockV>,
    pub max_history: nat,
    pub compact_at: u64,
    pub auto_compact: bool,
    pub summary: Option<Seq<char>>,
    pub turn_usage: TurnUsage,
    pub total_usage: TurnUsage,
    pub last_input_tokens: u64,
}

impl View for Session {
    type V = SessionV;

    open spec fn view(&self) -> SessionV {
        SessionV {
            id: self.id@,
            agent_version_id: self.agent_version_id@,
            system_prompt: self.system_prompt@,
            model: self.model@,
            blocks: block::block_views(self.blocks@),
            max_history: self.max_history as nat,
            compact_at: self.compact_at,
            auto_compact: self.auto_compact,
            summary: text::opt_text(self.summary),
            turn_usage: self.turn_usage,
            total_usage: self.total_usage,
            last_input_tokens: self.last_input_tokens,
        }
    }
}

/// The window of history is at least one block.
pub open spec fn window(n: u32) -> nat {
    if n == 0 {
        1
    } else {
        n as nat
    }
}

/// A session that is begun anew.
pub open spec fn fresh(id: Seq<char>, c: SessionConfig) -> SessionV {
    SessionV {
        id,
        agent_version_id: c.agent_version_id@,
        system_prompt: c.system_prompt@,
        model: c.model@,
        blocks: seq![],
        max_history: window(c.max_history),
        compact_at: c.compact_at,
        auto_compact: c.auto_compact,
        summary: None,
        turn_usage: block::no_turn(),
        total_usage: block::no_turn(),
        last_input_tokens: 0,
    }
}

/// A session that goes on from where it was left.
pub open spec fn restored(id: Seq<char>, c: SessionConfig, s: AgentStateV) -> SessionV {
    SessionV {
        blocks: s.blocks,
        summary: s.summary,
        total_usage: TurnUsage {
            input: s.usage.input_tokens as u64,
            cache_read: s.usage.cache_read_tokens as u64,
            cache_creation: s.usage.cache_creation_tokens as u64,
            output: s.usage.output_tokens as u64,
        },
        last_input_tokens: s.usage.input_tokens as u64,
        ..fresh(id, c)
    }
}

/// What a session can be restored from.
pub open spec fn state_of(s: SessionV) -> AgentStateV {
    AgentStateV { blocks: s.blocks, summary: s.summary, usage: block::total(s.total_usage) }
}

/// The newest blocks, as many as the window holds.
pub open spec fn trimmed(s: SessionV) -> SessionV {
    if s.blocks.len() > s.max_history {
        SessionV { blocks: s.blocks.skip(s.blocks.len() - s.max_history), ..s }
    } else {
        s
    }
}

/// The session without what was said in it.
pub open spec fn forgotten(s: SessionV) -> SessionV {
    SessionV { blocks: seq![], ..s }
}

/// The session once a call's tokens are counted.
pub open spec fn counted(s: SessionV, u: Usage) -> SessionV {
    SessionV {
        turn_usage: block::added(s.turn_usage, u),
        last_input_tokens: u.input_tokens as u64,
        ..s
    }
}

pub open spec fn wants_compaction(s: SessionV) -> bool {
    s.last_input_tokens >= s.compact_at
}

/// The session at the start of a turn.
pub open spec fn opened(s: SessionV, said: Seq<char>, now: u64) -> SessionV {
    SessionV {
        turn_usage: block::no_turn(),
        blocks: s.blocks.push(block::user_said(s.agent_version_id, said, now)),
        ..s
    }
}

/// The blocks with the last of a user ending at `at`.
pub open spec fn stamped(b: Seq<BlockV>, at: u64) -> Seq<BlockV>
    decreases b.len(),
{
    if b.len() == 0 {
        b
    } else if b.last().kind == "user"@ {
        b.drop_last().push(BlockV { finished_at_ms: at, ..b.last() })
    } else {
        stamped(b.drop_last(), at).push(b.last())
    }
}

/// The session at the end of a turn: the user's message lasted as long as the
/// turn, and the turn's tokens count towards the session's.
pub open spec fn concluded(s: SessionV, at: u64) -> SessionV {
    SessionV {
        blocks: stamped(s.blocks, at),
        total_usage: block::added(s.total_usage, block::total(s.turn_usage)),
        ..s
    }
}

impl Session {
    pub fn new(id: String, config: SessionConfig) -> (r: Session)
        ensures
            r@ == fresh(id@, config),
    {
        let none: Vec<Block> = Vec::new();
        assert(block::block_views(none@) =~= seq![]);
        Session {
            id,
            agent_version_id: config.agent_version_id,
            system_prompt: config.system_prompt,
            model: config.model,
            blocks: none,
            max_history: if config.max_history == 0 {
                1
            } else {
                config.max_history as usize
            },
            compact_at: config.compact_at,
            auto_compact: config.auto_compact,
            summary: None,
            turn_usage: TurnUsage::new(),
            total_usage: TurnUsage::new(),
            last_input_tokens: 0,
        }
    }

    pub fn restore(id: String, config: SessionConfig, state: AgentState) -> (r: Session)
        ensures
            r@ == restored(id@, config, state@),
    {
        let mut s = Session::new(id, config);
        s.total_usage = TurnUsage::from_usage(&state.usage);
        s.last_input_tokens = state.usage.input_tokens as u64;
        s.blocks = state.blocks;
        s.summary = state.summary;
        s
    }

    pub fn state(&self) -> (r: AgentState)
        ensures
            r@ == state_of(self@),
    {
        AgentState {
            blocks: block::copy_blocks(&self.blocks),
            summary: text::copy_opt(&self.summary),
            usage: self.total_usage.to_usage(),
        }
    }

    /// Keeps the newest blocks only.
    pub fn trim_history(&mut self)
        ensures
            final(self)@ == trimmed(old(self)@),
    {
        let ghost before = self@;
        let n: usize = self.blocks.len();
        if n > self.max_history {
            let cut: usize = n - self.max_history;
            let ghost had = self.blocks@;
            let tail = self.blocks.split_off(cut);
            self.blocks = tail;
            assert(self.blocks@ =~= had.skip(cut as int));
            assert(self@ =~= trimmed(before));
        }
    }

    pub fn record_usage(&mut self, usage: Usage)
        ensures
            final(self)@ == counted(old(self)@, usage),
    {
        self.turn_usage.add(&usage);
        self.last_input_tokens = usage.input_tokens as u64;
    }

    pub fn should_compact(&self) -> (r: bool)
        ensures
            r == wants_compaction(self@),
    {
        self.last_input_tokens >= self.compact_at
    }

    /// Begins a turn with what the user says.
    pub fn open_turn(&mut self, said: String, now: u64)
        ensures
            final(self)@ == opened(old(self)@, said@, now),
    {
        let ghost before = self@;
        self.turn_usage = TurnUsage::new();
        let b = block::user_block(self.agent_version_id.as_str(), said, now);
        self.blocks.push(b);
        assert(self@.blocks =~= before.blocks.push(b@));
    }

    /// Ends a turn.
    pub fn conclude_turn(&mut self, at: u64)
        ensures
            final(self)@ == concluded(old(self)@, at),
    {
        let ghost before = self@;
        let n: usize = self.blocks.len();
        let mut i: usize = n;
        let ghost all = before.blocks;
        assert(all.take(n as int) =~= all);
        assert(all.skip(n as int) =~= seq![]);
        assert(stamped(all, at) =~= stamped(all.take(n as int), at) + all.skip(n as int));
        while i > 0
            invariant_except_break
                self.blocks@ == old(self).blocks@,
                stamped(all, at) == stamped(all.take(i as int), at) + all.skip(i as int),
            invariant
                i <= n,
                n == all.len(),
                all == block::block_views(old(self).blocks@),
                self@ == (SessionV { blocks: self@.blocks, ..before }),
                before == old(self)@,
            ensures
                self@ == (SessionV { blocks: stamped(all, at), ..before }),
            decreases i,
        {
            let ghost head = all.take(i as int);
            assert(head.last() == self.blocks@[i - 1]@);
            assert(head.drop_last() =~= all.take(i - 1));
            if text::same(self.blocks[i - 1].kind.as_str(), "user") {
                let mut b = self.blocks[i - 1].copy();
                b.finished_at_ms = at;
                let ghost bv = b@;
                self.blocks.set(i - 1, b);
                assert(self@.blocks =~= stamped(all, at));
                break;
            }
            i = i - 1;
            assert(stamped(all.take(i as int), at).push(all[i as int]) + all.skip(i + 1)
                =~= stamped(all.take(i as int), at) + all.skip(i as int));
            if i == 0 {
                assert(self@.blocks =~= stamped(all, at));
            }
        }
        let turn = self.turn_usage.to_usage();
        self.total_usage.add(&turn);
    }
}

/// The sessions by id.
pub struct AgentSessions {
    pub sessions: Table<Session>,
}

impl View for AgentSessions {
    type V = Map<Seq<char>, SessionV>;

    open spec fn view(&self) -> Map<Seq<char>, SessionV> {
        self.sessions@.map_values(|s: Session| s@)
    }
}

impl AgentSessions {
    pub open spec fn wf(&self) -> bool {
        self.sessions.wf()
    }

    pub fn new() -> (r: AgentSessions)
        ensures
            r.wf(),
            r@ == Map::<Seq<char>, SessionV>::empty(),
    {
        let a = AgentSessions { sessions: Table::new() };
        assert(a@ =~= Map::<Seq<char>, SessionV>::empty());
        a
    }

    /// Begins a session. An id that is taken is refused.
    pub fn create_session(&mut self, session_id: String, config: SessionConfig) -> (r: Result<
        (),
        AgentError,
    >)
        requires
            old(self).wf(),
        ensures
            final(self).wf(),
            match r {
                Ok(_) => !old(self)@.dom().contains(session_id@) && final(self)@ == old(
                    self,
                )@.insert(session_id@, fresh(session_id@, config)),
                Err(e) => e == AgentError::Busy && old(self)@.dom().contains(session_id@)
                    && final(self)@ == old(self)@,
            },
    {
        let ghost before = self@;
        if self.sessions.get(session_id.as_str()).is_some() {
            return Err(AgentError::Busy);
        }
        let key = session_id.clone();
        let ghost made = fresh(session_id@, config);
        self.sessions.insert(key, Session::new(session_id, config));
        assert(self@ =~= before.insert(session_id@, made));
        Ok(())
    }

    /// Puts a session back as it was left, in place of one that has its id.
    pub fn restore_session(
        &mut self,
        session_id: String,
        config: SessionConfig,
        state: AgentState,
    )
        requires
            old(self).wf(),
        ensures
            final(self).wf(),
            final(self)@ == old(self)@.insert(
                session_id@,
                restored(session_id@, config, state@),
            ),
    {
        let ghost before = self@;
        let key = session_id.clone();
        let ghost made = restored(session_id@, config, state@);
        self.sessions.insert(key, Session::restore(session_id, config, state));
        assert(self@ =~= before.insert(session_id@, made));
    }

    pub fn session_state(&self, session_id: &str) -> (r: Result<AgentState, AgentError>)
        requires
            self.wf(),
        ensures
            match r {
                Ok(s) => self@.dom().contains(session_id@) && s@ == state_of(self@[session_id@]),
                Err(e) => e == AgentError::NotFound && !self@.dom().contains(session_id@),
            },
    {
        match self.sessions.get(session_id) {
            Some(s) => Ok(s.state()),
            None => Err(AgentError::NotFound),
        }
    }

    pub fn session_history(&self, session_id: &str) -> (r: Result<Vec<Block>, AgentError>)
        requires
            self.wf(),
        ensures
            match r {
                Ok(b) => self@.dom().contains(session_id@) && block::block_views(b@)
                    == self@[session_id@].blocks,
                Err(e) => e == AgentError::NotFound && !self@.dom().contains(session_id@),
            },
    {
        match self.sessions.get(session_id) {
            Some(s) => Ok(block::copy_blocks(&s.blocks)),
            None => Err(AgentError::NotFound),
        }
    }

    /// The tokens of the last turn.
    pub fn session_usage(&self, session_id: &str) -> (r: Result<Usage, AgentError>)
        requires
            self.wf(),
        ensures
            match r {
                Ok(u) => self@.dom().contains(session_id@) && u == block::total(
                    self@[session_id@].turn_usage,
                ),
                Err(e) => e == AgentError::NotFound && !self@.dom().contains(session_id@),
            },
    {
        match self.sessions.get(session_id) {
            Some(s) => Ok(s.turn_usage.to_usage()),
            None => Err(AgentError::NotFound),
        }
    }

    /// Takes a session out to work on it.
    pub fn check_out(&mut self, session_id: &str) -> (r: Result<Session, AgentError>)
        requires
            old(self).wf(),
        ensures
            final(self).wf(),
            match r {
                Ok(s) => old(self)@.dom().contains(session_id@) && s@ == old(self)@[session_id@]
                    && final(self)@ == old(self)@.remove(session_id@),
                Err(e) => e == AgentError::NotFound && !old(self)@.dom().contains(session_id@)
                    && final(self)@ == old(self)@,
            },
    {
        let ghost before = self@;
        match self.sessions.position(session_id) {
            Some(i) => {
                let ghost held = self.sessions.entries@;
                let (_, s) = self.sessions.entries.remove(i);
                proof {
                    table::lemma_removed(held, i as int);
                    assert(self@ =~= before.remove(session_id@));
                }
                Ok(s)
            },
            None => Err(AgentError::NotFound),
        }
    }

    /// Puts a session back after work on it.
    pub fn check_in(&mut self, session_id: String, session: Session)
        requires
            old(self).wf(),
        ensures
            final(self).wf(),
            final(self)@ == old(self)@.insert(session_id@, session@),
    {
        let ghost before = self@;
        let ghost sv = session@;
        self.sessions.insert(session_id, session);
        assert(self@ =~= before.insert(session_id@, sv));
    }

    /// Forgets what was said in a session.
    pub fn reset_session(&mut self, session_id: &str) -> (r: Result<(), AgentError>)
        requires
            old(self).wf(),
        ensures
            final(self).wf(),
            match r {
                Ok(_) => old(self)@.dom().contains(session_id@) && final(self)@ == old(
                    self,
                )@.insert(
                    session_id@,
                    forgotten(old(self)@[session_id@]),
                ),
                Err(e) => e == AgentError::NotFound && !old(self)@.dom().contains(session_id@)
                    && final(self)@ == old(self)@,
            },
    {
        let ghost before = self@;
        match self.check_out(session_id) {
            Ok(s) => {
                let mut s = s;
                s.blocks = Vec::new();
                assert(s@ =~= SessionV { blocks: seq![], ..before[session_id@] });
                self.check_in(text::owned(session_id), s);
                assert(self@ =~= before.insert(session_id@, s@));
                Ok(())
            },
            Err(e) => Err(e),
        }
    }

    pub fn destroy_session(&mut self, session_id: &str) -> (r: Result<(), AgentError>)
        requires
            old(self).wf(),
        ensures
            final(self).wf(),
            match r {
                Ok(_) => old(self)@.dom().contains(session_id@) && final(self)@ == old(
                    self,
                )@.remove(session_id@),
                Err(e) => e == AgentError::NotFound && !old(self)@.dom().contains(session_id@)
                    && final(self)@ == old(self)@,
            },
    {
        let ghost before = self@;
        if self.sessions.remove(session_id) {
            assert(self@ =~= before.remove(session_id@));
            Ok(())
        } else {
            assert(self@ =~= before);
            Err(AgentError::NotFound)
        }
    }
}

// ---- laws ----

/// Saving a session and restoring it gives back its log, its summary and its
/// token counts, so far as those fit in 32 bits.
pub proof fn a_session_survives_a_restart(id: Seq<char>, c: SessionConfig, s: SessionV)
    requires
        s.total_usage.input <= u32::MAX,
        s.total_usage.cache_read <= u32::MAX,
        s.total_usage.cache_creation <= u32::MAX,
        s.total_usage.output <= u32::MAX,
    ensures
        restored(id, c, state_of(s)).blocks == s.blocks,
        restored(id, c, state_of(s)).summary == s.summary,
        restored(id, c, state_of(s)).total_usage == s.total_usage,
        state_of(restored(id, c, state_of(s))) == state_of(s),
{
}

/// Trimming keeps the newest blocks, never more than the window, and does
/// nothing a second time.
pub proof fn trimming_keeps_the_newest(s: SessionV)
    ensures
        trimmed(s).blocks.len() <= s.max_history,
        trimmed(s).blocks.len() == s.blocks.len() || trimmed(s).blocks.len() == s.max_history,
        trimmed(trimmed(s)) == trimmed(s),
        forall|i: int|
            0 <= i < trimmed(s).blocks.len() ==> #[trigger] trimmed(s).blocks[i]
                == s.blocks[s.blocks.len() - trimmed(s).blocks.len() + i],
{
}

/// Ending a turn changes when one block ended, and nothing else of the log.
pub proof fn stamping_changes_one_moment(b: Seq<BlockV>, at: u64)
    ensures
        stamped(b, at).len() == b.len(),
        forall|i: int|
            0 <= i < b.len() ==> (#[trigger] stamped(b, at)[i]) == b[i] || (b[i].kind == "user"@
                && stamped(b, at)[i] == BlockV { finished_at_ms: at, ..b[i] }),
    decreases b.len(),
{
    if b.len() > 0 && b.last().kind != "user"@ {
        stamping_changes_one_moment(b.drop_last(), at);
        let s = stamped(b.drop_last(), at);
        assert forall|i: int| 0 <= i < b.len() implies (#[trigger] stamped(b, at)[i]) == b[i] || (
        b[i].kind == "user"@ && stamped(b, at)[i] == BlockV { finished_at_ms: at, ..b[i] }) by {
            if i < b.len() - 1 {
                assert(stamped(b, at)[i] == s[i]);
                assert(b.drop_last()[i] == b[i]);
            }
        }
    }
}

} // verus!
