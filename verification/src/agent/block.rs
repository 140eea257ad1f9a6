//! Blocks: the ordered log of a conversation.
use crate::host::drivers::{self, Usage};
use crate::text;
use vstd::prelude::*;

verus! {

broadcast use crate::text::views_push;

/// One entry of the log. `kind` is one of user, system, text, thinking, tool-use
/// and tool-result.
#[derive(Debug, PartialEq)]
pub struct Block {
    pub agent_version_id: String,
    pub kind: String,
    pub text: Option<String>,
    pub usage: Usage,
    pub created_at_ms: u64,
    pub finished_at_ms: u64,
}

pub struct BlockV {
    pub agent_version_id: Seq<char>,
    pub kind: Seq<char>,
    pub text: Option<Seq<char>>,
    pub usage: Usage,
    pub created_at_ms: u64,
    pub finished_at_ms: u64,
}

impl View for Block {
    type V = BlockV;

    open spec fn view(&self) -> BlockV {
        BlockV {
            agent_version_id: self.agent_version_id@,
            kind: self.kind@,
            text: text::opt_text(self.text),
            usage: self.usage,
            created_at_ms: self.created_at_ms,
            finished_at_ms: self.finished_at_ms,
        }
    }
}

pub open spec fn block_views(v: Seq<Block>) -> Seq<BlockV> {
    v.map_values(|b: Block| b@)
}

impl Block {
    pub fn copy(&self) -> (r: Block)
        ensures
            r@ == self@,
    {
        Block {
            agent_version_id: self.agent_version_id.clone(),
            kind: self.kind.clone(),
            text: text::copy_opt(&self.text),
            usage: self.usage,
            created_at_ms: self.created_at_ms,
            finished_at_ms: self.finished_at_ms,
        }
    }
}

pub fn copy_blocks(v: &Vec<Block>) -> (r: Vec<Block>)
    ensures
        block_views(r@) == block_views(v@),
{
    let mut out: Vec<Block> = Vec::new();
    let mut i: usize = 0;
    while i < v.len()
        invariant
            i <= v@.len(),
            block_views(out@) == block_views(v@).take(i as int),
        decreases v@.len() - i,
    {
        let b = v[i].copy();
        assert(b@ == block_views(v@)[i as int]);
        out.push(b);
        i = i + 1;
        assert(block_views(out@) =~= block_views(v@).take(i as int));
    }
    assert(block_views(v@).take(i as int) =~= block_views(v@));
    out
}

/// What a user said at `now`.
pub open spec fn user_said(version: Seq<char>, said: Seq<char>, now: u64) -> BlockV {
    BlockV {
        agent_version_id: version,
        kind: "user"@,
        text: Some(said),
        usage: drivers::no_usage(),
        created_at_ms: now,
        finished_at_ms: now,
    }
}

pub fn user_block(version: &str, said: String, now: u64) -> (r: Block)
    ensures
        r@ == user_said(version@, said@, now),
{
    Block {
        agent_version_id: text::owned(version),
        kind: text::owned("user"),
        text: Some(said),
        usage: Usage::default(),
        created_at_ms: now,
        finished_at_ms: now,
    }
}

// ---- token counts of a turn ----

/// Tokens summed over the calls of a turn or of a session.
#[derive(Debug, Clone, Copy, PartialEq, Eq, Structural)]
pub struct TurnUsage {
    pub input: u64,
    pub cache_read: u64,
    pub cache_creation: u64,
    pub output: u64,
}

pub open spec fn no_turn() -> TurnUsage {
    TurnUsage { input: 0, cache_read: 0, cache_creation: 0, output: 0 }
}

pub open spec fn capped_sum(a: u64, b: u32) -> u64 {
    if a + b > u64::MAX {
        u64::MAX
    } else {
        (a + b) as u64
    }
}

pub open spec fn added(t: TurnUsage, u: Usage) -> TurnUsage {
    TurnUsage {
        input: capped_sum(t.input, u.input_tokens),
        cache_read: capped_sum(t.cache_read, u.cache_read_tokens),
        cache_creation: capped_sum(t.cache_creation, u.cache_creation_tokens),
        output: capped_sum(t.output, u.output_tokens),
    }
}

pub open spec fn capped(n: u64) -> u32 {
    if n > u32::MAX {
        u32::MAX
    } else {
        n as u32
    }
}

/// The counts in 32 bits, each at most the greatest of them.
pub open spec fn total(t: TurnUsage) -> Usage {
    Usage {
        input_tokens: capped(t.input),
        cache_read_tokens: capped(t.cache_read),
        cache_creation_tokens: capped(t.cache_creation),
        output_tokens: capped(t.output),
    }
}

fn cap(n: u64) -> (r: u32)
    ensures
        r == capped(n),
{
    if n > 0xffff_ffff {
        0xffff_ffff
    } else {
        n as u32
    }
}

impl TurnUsage {
    pub fn new() -> (r: TurnUsage)
        ensures
            r == no_turn(),
    {
        TurnUsage { input: 0, cache_read: 0, cache_creation: 0, output: 0 }
    }

    pub fn add(&mut self, usage: &Usage)
        ensures
            *final(self) == added(*old(self), *usage),
    {
        self.input = self.input.saturating_add(usage.input_tokens as u64);
        self.cache_read = self.cache_read.saturating_add(usage.cache_read_tokens as u64);
        self.cache_creation = self.cache_creation.saturating_add(
            usage.cache_creation_tokens as u64,
        );
        self.output = self.output.saturating_add(usage.output_tokens as u64);
    }

    pub fn to_usage(&self) -> (r: Usage)
        ensures
            r == total(*self),
    {
        Usage {
            input_tokens: cap(self.input),
            cache_read_tokens: cap(self.cache_read),
            cache_creation_tokens: cap(self.cache_creation),
            output_tokens: cap(self.output),
        }
    }

    /// Counts that stand where a session was left.
    pub fn from_usage(u: &Usage) -> (r: TurnUsage)
        ensures
            r == (TurnUsage {
                input: u.input_tokens as u64,
                cache_read: u.cache_read_tokens as u64,
                cache_creation: u.cache_creation_tokens as u64,
                output: u.output_tokens as u64,
            }),
    {
        TurnUsage {
            input: u.input_tokens as u64,
            cache_read: u.cache_read_tokens as u64,
            cache_creation: u.cache_creation_tokens as u64,
            output: u.output_tokens as u64,
        }
    }
}

/// Counts never go down.
pub proof fn counts_grow(t: TurnUsage, u: Usage)
    ensures
        added(t, u).input >= t.input,
        added(t, u).cache_read >= t.cache_read,
        added(t, u).cache_creation >= t.cache_creation,
        added(t, u).output >= t.output,
{
}

} // verus!
