//! One turn of a conversation, as a machine that asks its host one thing at a time.
use crate::agent::block::{self, Block, BlockV};
use crate::agent::chat;
use crate::agent::payload;
use crate::agent::seg::{self, Seg, SegV, What, WhatV};
use crate::agent::session::{self, Session, SessionV};
use crate::host::drivers::{self, CallV, DriverToolCall, Usage};
use crate::host::state::{
    AskV, Chunk, ChunkV, LlmError, LlmErrorV, Next, NextV, Request,
};
use crate::host::table::Table;
use crate::host::tools::{self, DefinitionV, ToolDefinition, ToolError};
use crate::json;
use crate::text;
use vstd::prelude::*;

verus! {

broadcast use crate::text::views_push;

/// How often a model is asked in one turn at most.
pub const MAX_ITERATIONS: usize = 10;

/// How often the same call of a tool is run in one turn at most.
pub const MAX_TOOL_REPEATS: usize = 5;

/// How many tokens a summary may take.
pub const SUMMARY_MAX_TOKENS: u32 = 512;

/// How many bytes of a tool's result are shown.
pub const PREVIEW_BYTES: usize = 500;

pub open spec fn summary_prompt() -> Seq<char> {
    "You are a conversation summarizer. Produce a concise summary of the conversation so far, preserving key facts, decisions, and unresolved tasks. Output only the summary."@
}

// ---- questions and answers ----

/// What the turn asks of its host.
pub enum Ask {
    /// Should the turn stop?
    Cancelled,
    ListTools,
    StreamStart(Request),
    StreamNext(u64),
    StreamUsage(u64),
    StreamClose(u64),
    Emit { kind: String, data: String },
    Invoke { name: String, arguments: String },
    /// Nothing: the turn is over.
    Nothing,
}

pub enum QuestionV {
    Cancelled,
    ListTools,
    StreamStart(AskV),
    StreamNext(u64),
    StreamUsage(u64),
    StreamClose(u64),
    Emit { kind: Seq<char>, data: Seq<char> },
    Invoke { name: Seq<char>, arguments: Seq<char> },
    Nothing,
}

impl View for Ask {
    type V = QuestionV;

    open spec fn view(&self) -> QuestionV {
        match self {
            Ask::Cancelled => QuestionV::Cancelled,
            Ask::ListTools => QuestionV::ListTools,
            Ask::StreamStart(r) => QuestionV::StreamStart(r@),
            Ask::StreamNext(h) => QuestionV::StreamNext(*h),
            Ask::StreamUsage(h) => QuestionV::StreamUsage(*h),
            Ask::StreamClose(h) => QuestionV::StreamClose(*h),
            Ask::Emit { kind, data } => QuestionV::Emit { kind: kind@, data: data@ },
            Ask::Invoke { name, arguments } => QuestionV::Invoke {
                name: name@,
                arguments: arguments@,
            },
            Ask::Nothing => QuestionV::Nothing,
        }
    }
}

/// What the host answers.
pub enum Answer {
    /// Whether the turn should stop.
    Flag(bool),
    Tools(Vec<ToolDefinition>),
    Opened(Result<u64, LlmError>),
    Next(Next),
    Usage(Option<Usage>),
    /// The event was taken, or the stream closed.
    Done,
    /// The event reached no one.
    Lost,
    Ran(Result<String, ToolError>),
}

pub enum AnswerV {
    Flag(bool),
    Tools(Seq<DefinitionV>),
    Opened(Result<u64, LlmErrorV>),
    Next(NextV),
    Usage(Option<Usage>),
    Done,
    Lost,
    Ran(Result<Seq<char>, ToolError>),
}

impl View for Answer {
    type V = AnswerV;

    open spec fn view(&self) -> AnswerV {
        match self {
            Answer::Flag(b) => AnswerV::Flag(*b),
            Answer::Tools(t) => AnswerV::Tools(tools::definition_views(t@)),
            Answer::Opened(Ok(h)) => AnswerV::Opened(Ok(*h)),
            Answer::Opened(Err(e)) => AnswerV::Opened(Err(e@)),
            Answer::Next(n) => AnswerV::Next(n@),
            Answer::Usage(u) => AnswerV::Usage(*u),
            Answer::Done => AnswerV::Done,
            Answer::Lost => AnswerV::Lost,
            Answer::Ran(Ok(s)) => AnswerV::Ran(Ok(s@)),
            Answer::Ran(Err(e)) => AnswerV::Ran(Err(*e)),
        }
    }
}

// ---- phases ----

/// Where the turn stands: which answer it waits for.
pub enum Phase {
    /// Before a model is asked.
    Top,
    /// The oldest blocks are being summarized.
    SumStart { old_blocks: Vec<Block> },
    SumNext { handle: u64, old_blocks: Vec<Block>, summary: String },
    SumUsage { handle: u64, old_blocks: Vec<Block>, summary: String },
    SumClosed { handle: u64, old_blocks: Vec<Block>, summary: Option<String> },
    SumTold { count: usize, summary: String },
    /// The model is asked.
    Tools,
    Starting { tools: Vec<ToolDefinition> },
    Poll { handle: u64 },
    Next { handle: u64 },
    /// A piece of its answer is passed on.
    Text { handle: u64, said: String, rest: Chunk },
    Thought { handle: u64, thought: String, rest: Chunk },
    UseTold { handle: u64, call: DriverToolCall, rest: Chunk },
    ArgsTold { handle: u64, call: DriverToolCall },
    FailTold { handle: Option<u64>, why: LlmError },
    /// The answer is over.
    Usage { handle: u64 },
    Closed { handle: u64 },
    /// The tools it called are run.
    Guard,
    Gate { call: DriverToolCall },
    Running { call: DriverToolCall, started: u64 },
    ResultTold { data: String },
    /// The stream is closed and the turn ends.
    LastClose { handle: u64 },
    End,
}

pub enum PhaseV {
    Top,
    SumStart { old_blocks: Seq<BlockV> },
    SumNext { handle: u64, old_blocks: Seq<BlockV>, summary: Seq<char> },
    SumUsage { handle: u64, old_blocks: Seq<BlockV>, summary: Seq<char> },
    SumClosed { handle: u64, old_blocks: Seq<BlockV>, summary: Option<Seq<char>> },
    SumTold { count: nat, summary: Seq<char> },
    Tools,
    Starting { tools: Seq<DefinitionV> },
    Poll { handle: u64 },
    Next { handle: u64 },
    Text { handle: u64, said: Seq<char>, rest: ChunkV },
    Thought { handle: u64, thought: Seq<char>, rest: ChunkV },
    UseTold { handle: u64, call: CallV, rest: ChunkV },
    ArgsTold { handle: u64, call: CallV },
    FailTold { handle: Option<u64>, why: LlmErrorV },
    Usage { handle: u64 },
    Closed { handle: u64 },
    Guard,
    Gate { call: CallV },
    Running { call: CallV, started: u64 },
    ResultTold { data: Seq<char> },
    LastClose { handle: u64 },
    End,
}

impl View for Phase {
    type V = PhaseV;

    open spec fn view(&self) -> PhaseV {
        match self {
            Phase::Top => PhaseV::Top,
            Phase::SumStart { old_blocks } => PhaseV::SumStart {
                old_blocks: block::block_views(old_blocks@),
            },
            Phase::SumNext { handle, old_blocks, summary } => PhaseV::SumNext {
                handle: *handle,
                old_blocks: block::block_views(old_blocks@),
                summary: summary@,
            },
            Phase::SumUsage { handle, old_blocks, summary } => PhaseV::SumUsage {
                handle: *handle,
                old_blocks: block::block_views(old_blocks@),
                summary: summary@,
            },
            Phase::SumClosed { handle, old_blocks, summary } => PhaseV::SumClosed {
                handle: *handle,
                old_blocks: block::block_views(old_blocks@),
                summary: text::opt_text(*summary),
            },
            Phase::SumTold { count, summary } => PhaseV::SumTold {
                count: *count as nat,
                summary: summary@,
            },
            Phase::Tools => PhaseV::Tools,
            Phase::Starting { tools } => PhaseV::Starting { tools: tools::definition_views(tools@) },
            Phase::Poll { handle } => PhaseV::Poll { handle: *handle },
            Phase::Next { handle } => PhaseV::Next { handle: *handle },
            Phase::Text { handle, said, rest } => PhaseV::Text {
                handle: *handle,
                said: said@,
                rest: rest@,
            },
            Phase::Thought { handle, thought, rest } => PhaseV::Thought {
                handle: *handle,
                thought: thought@,
                rest: rest@,
            },
            Phase::UseTold { handle, call, rest } => PhaseV::UseTold {
                handle: *handle,
                call: call@,
                rest: rest@,
            },
            Phase::ArgsTold { handle, call } => PhaseV::ArgsTold { handle: *handle, call: call@ },
            Phase::FailTold { handle, why } => PhaseV::FailTold { handle: *handle, why: why@ },
            Phase::Usage { handle } => PhaseV::Usage { handle: *handle },
            Phase::Closed { handle } => PhaseV::Closed { handle: *handle },
            Phase::Guard => PhaseV::Guard,
            Phase::Gate { call } => PhaseV::Gate { call: call@ },
            Phase::Running { call, started } => PhaseV::Running { call: call@, started: *started },
            Phase::ResultTold { data } => PhaseV::ResultTold { data: data@ },
            Phase::LastClose { handle } => PhaseV::LastClose { handle: *handle },
            Phase::End => PhaseV::End,
        }
    }
}

/// A turn under way: the session, the phase, how many rounds are over, what the
/// present stream has brought, the calls still to run and how often each call ran.
/// A turn may also be there to summarize the history only, and that may fail.
pub struct Turn {
    pub session: Session,
    pub phase: Phase,
    pub round: usize,
    pub segs: Vec<Seg>,
    pub tool_start: Option<u64>,
    pub calls: Vec<DriverToolCall>,
    pub repeats: Table<usize>,
    pub only_compact: bool,
    pub failed: bool,
}

#[verifier::ext_equal]
pub struct TurnV {
    pub session: SessionV,
    pub phase: PhaseV,
    pub round: nat,
    pub segs: Seq<SegV>,
    pub tool_start: Option<u64>,
    pub calls: Seq<CallV>,
    pub repeats: Map<Seq<char>, usize>,
    pub only_compact: bool,
    pub failed: bool,
}

impl View for Turn {
    type V = TurnV;

    open spec fn view(&self) -> TurnV {
        TurnV {
            session: self.session@,
            phase: self.phase@,
            round: self.round as nat,
            segs: seg::seg_views(self.segs@),
            tool_start: self.tool_start,
            calls: drivers::call_views(self.calls@),
            repeats: self.repeats@,
            only_compact: self.only_compact,
            failed: self.failed,
        }
    }
}

// ---- what is asked ----

/// The request for an answer to the conversation.
pub open spec fn request(s: SessionV, t: Seq<DefinitionV>) -> AskV {
    AskV {
        session_id: s.id,
        model: s.model,
        messages: chat::chat(s.blocks),
        system_prompt: Some(s.system_prompt),
        tools: t,
        temperature: None,
        max_tokens: None,
    }
}

/// The request for a summary of the oldest blocks.
pub open spec fn summary_request(s: SessionV, old_blocks: Seq<BlockV>) -> AskV {
    AskV {
        session_id: s.id,
        model: s.model,
        messages: chat::chat(old_blocks),
        system_prompt: Some(summary_prompt()),
        tools: seq![],
        temperature: None,
        max_tokens: Some(SUMMARY_MAX_TOKENS),
    }
}

pub open spec fn told(kind: Seq<char>, data: Seq<char>) -> QuestionV {
    QuestionV::Emit { kind, data }
}

pub open spec fn compacted_line(count: nat, kept: nat) -> Seq<char> {
    "compacted: "@ + text::decimal(count as int) + " messages summarized, "@ + text::decimal(
        kept as int,
    ) + " kept"@
}

pub open spec fn question(t: TurnV) -> QuestionV {
    match t.phase {
        PhaseV::Top => QuestionV::Cancelled,
        PhaseV::SumStart { old_blocks } => QuestionV::StreamStart(
            summary_request(t.session, old_blocks),
        ),
        PhaseV::SumNext { handle, .. } => QuestionV::StreamNext(handle),
        PhaseV::SumUsage { handle, .. } => QuestionV::StreamUsage(handle),
        PhaseV::SumClosed { handle, .. } => QuestionV::StreamClose(handle),
        PhaseV::SumTold { count, .. } => told(
            "status"@,
            compacted_line(count, t.session.max_history),
        ),
        PhaseV::Tools => QuestionV::ListTools,
        PhaseV::Starting { tools } => QuestionV::StreamStart(request(t.session, tools)),
        PhaseV::Poll { .. } => QuestionV::Cancelled,
        PhaseV::Next { handle } => QuestionV::StreamNext(handle),
        PhaseV::Text { said, .. } => told("chunk"@, said),
        PhaseV::Thought { thought, .. } => told("thinking"@, thought),
        PhaseV::UseTold { call, .. } => told(
            "tool_use"@,
            json::json_text(payload::use_value(call)),
        ),
        PhaseV::ArgsTold { call, .. } => told(
            "tool_args"@,
            json::json_text(payload::args_value(call.id, call.arguments)),
        ),
        PhaseV::FailTold { why, .. } => told("error"@, payload::explanation(why)),
        PhaseV::Usage { handle } => QuestionV::StreamUsage(handle),
        PhaseV::Closed { handle } => QuestionV::StreamClose(handle),
        PhaseV::Guard => told("error"@, "tool loop guard triggered"@),
        PhaseV::Gate { .. } => QuestionV::Cancelled,
        PhaseV::Running { call, .. } => QuestionV::Invoke {
            name: call.name,
            arguments: call.arguments,
        },
        PhaseV::ResultTold { data } => told("tool_result"@, data),
        PhaseV::LastClose { handle } => QuestionV::StreamClose(handle),
        PhaseV::End => QuestionV::Nothing,
    }
}

// ---- what follows ----

pub open spec fn at(t: TurnV, phase: PhaseV) -> TurnV {
    TurnV { phase, ..t }
}

/// The turn may go on: if the history is to be summarized and is longer than its
/// window, the oldest blocks are taken out for that.
pub open spec fn begun(t: TurnV) -> TurnV {
    let s = t.session;
    if s.auto_compact && session::wants_compaction(s) && s.blocks.len() > s.max_history {
        set_aside(t)
    } else {
        at(t, PhaseV::Tools)
    }
}

/// No summary came: the blocks go back. A turn that goes on keeps only the
/// newest; one that was there for the summary has failed.
pub open spec fn unsummarized(t: TurnV, old_blocks: Seq<BlockV>) -> TurnV {
    let whole = SessionV { blocks: old_blocks + t.session.blocks, ..t.session };
    if t.only_compact {
        TurnV { session: whole, phase: PhaseV::End, failed: true, ..t }
    } else {
        TurnV { session: session::trimmed(whole), phase: PhaseV::Tools, ..t }
    }
}

/// The summary is kept.
pub open spec fn summarized(t: TurnV, summary: Seq<char>) -> TurnV {
    TurnV {
        session: SessionV { summary: Some(summary), ..t.session },
        phase: if t.only_compact {
            PhaseV::End
        } else {
            PhaseV::Tools
        },
        ..t
    }
}

pub open spec fn opt_counted(s: SessionV, u: Option<Usage>) -> SessionV {
    match u {
        Some(u) => session::counted(s, u),
        None => s,
    }
}

/// A piece of the answer: its text first, then its thinking, then the start and
/// the end of a tool call.
pub open spec fn on_chunk(t: TurnV, handle: u64, c: ChunkV, now: u64) -> TurnV {
    match c.text {
        Some(said) => TurnV {
            segs: seg::with_text(t.segs, said, now),
            phase: PhaseV::Text { handle, said, rest: c },
            ..t
        },
        None => after_text(t, handle, c, now),
    }
}

pub open spec fn after_text(t: TurnV, handle: u64, c: ChunkV, now: u64) -> TurnV {
    match c.thinking {
        Some(thought) => TurnV {
            segs: seg::with_thinking(t.segs, thought, now),
            phase: PhaseV::Thought { handle, thought, rest: c },
            ..t
        },
        None => after_thought(t, handle, c, now),
    }
}

/// A tool call begins: what went before it is over.
pub open spec fn after_thought(t: TurnV, handle: u64, c: ChunkV, now: u64) -> TurnV {
    match c.tool_call_start {
        Some(call) => TurnV {
            segs: seg::closed_last(t.segs, now),
            tool_start: Some(now),
            phase: PhaseV::UseTold { handle, call, rest: c },
            ..t
        },
        None => after_use(t, handle, c, now),
    }
}

/// A tool call is complete. It took from its start until now to form.
pub open spec fn after_use(t: TurnV, handle: u64, c: ChunkV, now: u64) -> TurnV {
    match c.tool_call_end {
        Some(call) => TurnV {
            segs: t.segs.push(
                SegV {
                    what: WhatV::ToolUse(call),
                    created: match t.tool_start {
                        Some(s) => s,
                        None => now,
                    },
                    finished: now,
                },
            ),
            phase: PhaseV::ArgsTold { handle, call },
            ..t
        },
        None => at(t, PhaseV::Poll { handle }),
    }
}

/// The calls among the segments.
pub open spec fn calls_in(s: Seq<SegV>) -> Seq<CallV>
    decreases s.len(),
{
    if s.len() == 0 {
        seq![]
    } else {
        match s.last().what {
            WhatV::ToolUse(c) => calls_in(s.drop_last()).push(c),
            _ => calls_in(s.drop_last()),
        }
    }
}

pub open spec fn seg_blocks(s: Seq<SegV>, version: Seq<char>, end: u64, u: Usage) -> Seq<BlockV> {
    s.map_values(|x: SegV| seg::block_of(x, version, end, u))
}

/// The segments go to the log in the order they came, stamped with the tokens of
/// the turn.
pub open spec fn committed_log(t: TurnV, now: u64) -> TurnV {
    let s = t.session;
    TurnV {
        session: SessionV {
            blocks: s.blocks + seg_blocks(
                t.segs,
                s.agent_version_id,
                now,
                block::total(s.turn_usage),
            ),
            ..s
        },
        segs: seq![],
        calls: calls_in(t.segs),
        ..t
    }
}

/// The answer is logged. Without a tool call the turn is over.
pub open spec fn committed(t: TurnV, now: u64) -> TurnV {
    let next = committed_log(t, now);
    if next.calls.len() == 0 {
        at(next, PhaseV::End)
    } else {
        next_call(next)
    }
}

/// What tells one call from another.
pub open spec fn call_key(c: CallV) -> Seq<char> {
    c.name + "|"@ + c.arguments
}

pub open spec fn times(r: Map<Seq<char>, usize>, c: CallV) -> usize {
    if r.dom().contains(call_key(c)) {
        r[call_key(c)]
    } else {
        0
    }
}

/// The next call comes up, or else the next round. A call that has run too
/// often ends the turn.
pub open spec fn next_call(t: TurnV) -> TurnV {
    if t.calls.len() == 0 {
        if t.round + 1 < MAX_ITERATIONS {
            TurnV { round: t.round + 1, phase: PhaseV::Top, ..t }
        } else {
            at(t, PhaseV::End)
        }
    } else {
        let call = t.calls[0];
        let n = times(t.repeats, call);
        if n < MAX_TOOL_REPEATS {
            TurnV {
                calls: t.calls.skip(1),
                repeats: t.repeats.insert(call_key(call), (n + 1) as usize),
                phase: PhaseV::Gate { call },
                ..t
            }
        } else {
            at(t, PhaseV::Guard)
        }
    }
}

/// What the model is told of a call, and whether the call failed.
pub open spec fn outcome(c: CallV, r: Result<Seq<char>, ToolError>) -> (Seq<char>, bool) {
    match r {
        Ok(out) => (out, false),
        Err(ToolError::PermissionDenied) => ("permission denied"@, true),
        Err(ToolError::NotFound) => ("tool not found: "@ + c.name, true),
        Err(ToolError::Failed) => ("tool failed"@, true),
    }
}

pub open spec fn has_run(
    t: TurnV,
    c: CallV,
    started: u64,
    r: Result<Seq<char>, ToolError>,
    now: u64,
) -> TurnV {
    let (out, is_error) = outcome(c, r);
    let s = t.session;
    TurnV {
        session: SessionV {
            blocks: s.blocks.push(
                seg::result_of(s.agent_version_id, c, out, is_error, started, now),
            ),
            ..s
        },
        phase: PhaseV::ResultTold {
            data: json::json_text(
                payload::result_value(
                    c,
                    payload::shortened(out, PREVIEW_BYTES as nat),
                    is_error,
                    started,
                    now,
                ),
            ),
        },
        ..t
    }
}

pub open spec fn is_settled(a: AnswerV) -> bool {
    a is Done || a is Lost
}

/// The turn after an answer at `now`. An answer to another question leaves it as it was.
pub open spec fn stepped(t: TurnV, a: AnswerV, now: u64) -> TurnV {
    match (t.phase, a) {
        (PhaseV::Top, AnswerV::Flag(stop)) => if stop {
            at(t, PhaseV::End)
        } else {
            begun(t)
        },
        (PhaseV::SumStart { old_blocks }, AnswerV::Opened(r)) => match r {
            Ok(handle) => at(t, PhaseV::SumNext { handle, old_blocks, summary: seq![] }),
            Err(_) => unsummarized(t, old_blocks),
        },
        (PhaseV::SumNext { handle, old_blocks, summary }, AnswerV::Next(n)) => match n {
            NextV::Wait => t,
            NextV::Chunk(c) => at(
                t,
                PhaseV::SumNext {
                    handle,
                    old_blocks,
                    summary: match c.text {
                        Some(said) => summary + said,
                        None => summary,
                    },
                },
            ),
            NextV::End => at(t, PhaseV::SumUsage { handle, old_blocks, summary }),
            NextV::Failed(_) => at(t, PhaseV::SumClosed { handle, old_blocks, summary: None }),
        },
        (PhaseV::SumUsage { handle, old_blocks, summary }, AnswerV::Usage(u)) => TurnV {
            session: opt_counted(t.session, u),
            phase: PhaseV::SumClosed { handle, old_blocks, summary: Some(summary) },
            ..t
        },
        (PhaseV::SumClosed { handle, old_blocks, summary }, _) => if is_settled(a) {
            match summary {
                Some(summary) => at(t, PhaseV::SumTold { count: old_blocks.len(), summary }),
                None => unsummarized(t, old_blocks),
            }
        } else {
            t
        },
        (PhaseV::SumTold { count, summary }, _) => if is_settled(a) {
            summarized(t, summary)
        } else {
            t
        },
        (PhaseV::Tools, AnswerV::Tools(tools)) => at(t, PhaseV::Starting { tools }),
        (PhaseV::Starting { tools }, AnswerV::Opened(r)) => match r {
            Ok(handle) => TurnV {
                segs: seq![],
                tool_start: None,
                phase: PhaseV::Poll { handle },
                ..t
            },
            Err(why) => at(t, PhaseV::FailTold { handle: None, why }),
        },
        (PhaseV::Poll { handle }, AnswerV::Flag(stop)) => if stop {
            at(t, PhaseV::LastClose { handle })
        } else {
            at(t, PhaseV::Next { handle })
        },
        (PhaseV::Next { handle }, AnswerV::Next(n)) => match n {
            NextV::Wait => t,
            NextV::Chunk(c) => on_chunk(t, handle, c, now),
            NextV::End => at(t, PhaseV::Usage { handle }),
            NextV::Failed(LlmErrorV::Cancelled) => at(t, PhaseV::LastClose { handle }),
            NextV::Failed(why) => at(t, PhaseV::FailTold { handle: Some(handle), why }),
        },
        (PhaseV::Text { handle, said, rest }, AnswerV::Done) => after_text(t, handle, rest, now),
        (PhaseV::Text { handle, said, rest }, AnswerV::Lost) => at(
            t,
            PhaseV::LastClose { handle },
        ),
        (PhaseV::Thought { handle, thought, rest }, _) => if is_settled(a) {
            after_thought(t, handle, rest, now)
        } else {
            t
        },
        (PhaseV::UseTold { handle, call, rest }, _) => if is_settled(a) {
            after_use(t, handle, rest, now)
        } else {
            t
        },
        (PhaseV::ArgsTold { handle, call }, _) => if is_settled(a) {
            at(t, PhaseV::Poll { handle })
        } else {
            t
        },
        (PhaseV::FailTold { handle, why }, _) => if is_settled(a) {
            match handle {
                Some(handle) => at(t, PhaseV::LastClose { handle }),
                None => at(t, PhaseV::End),
            }
        } else {
            t
        },
        (PhaseV::Usage { handle }, AnswerV::Usage(u)) => TurnV {
            session: opt_counted(t.session, u),
            phase: PhaseV::Closed { handle },
            ..t
        },
        (PhaseV::Closed { handle }, _) => if is_settled(a) {
            committed(t, now)
        } else {
            t
        },
        (PhaseV::Guard, _) => if is_settled(a) {
            at(t, PhaseV::End)
        } else {
            t
        },
        (PhaseV::Gate { call }, AnswerV::Flag(stop)) => if stop {
            at(t, PhaseV::End)
        } else {
            at(t, PhaseV::Running { call, started: now })
        },
        (PhaseV::Running { call, started }, AnswerV::Ran(r)) => has_run(t, call, started, r, now),
        (PhaseV::ResultTold { data }, _) => if is_settled(a) {
            next_call(t)
        } else {
            t
        },
        (PhaseV::LastClose { handle }, _) => if is_settled(a) {
            at(t, PhaseV::End)
        } else {
            t
        },
        _ => t,
    }
}

/// The turn before its first answer.
pub open spec fn turn_of(s: SessionV) -> TurnV {
    TurnV {
        session: s,
        phase: PhaseV::Top,
        round: 0,
        segs: seq![],
        tool_start: None,
        calls: seq![],
        repeats: Map::empty(),
        only_compact: false,
        failed: false,
    }
}

/// The oldest blocks are taken out to be summarized.
pub open spec fn set_aside(t: TurnV) -> TurnV {
    let s = t.session;
    let split = s.blocks.len() - s.max_history;
    TurnV {
        session: SessionV { blocks: s.blocks.skip(split), ..s },
        phase: PhaseV::SumStart { old_blocks: s.blocks.take(split) },
        ..t
    }
}

/// A turn that only summarizes what is too long for the window.
pub open spec fn compaction_of(s: SessionV) -> TurnV {
    let t = TurnV { only_compact: true, ..turn_of(s) };
    if s.blocks.len() > s.max_history {
        set_aside(t)
    } else {
        at(t, PhaseV::End)
    }
}

// ---- the log ----

/// A logged call or result holds what was logged.
pub open spec fn readable(b: BlockV) -> bool {
    &&& b.kind == "tool-use"@ ==> exists|c: CallV|
        json::json_value(chat::body(b)) == Some(#[trigger] payload::kept_call(c))
    &&& b.kind == "tool-result"@ ==> exists|c: CallV, out: Seq<char>, is_error: bool|
        json::json_value(chat::body(b)) == Some(#[trigger] payload::kept_result(c, out, is_error))
}

pub open spec fn all_readable(b: Seq<BlockV>) -> bool {
    forall|i: int| 0 <= i < b.len() ==> readable(#[trigger] b[i])
}

/// The blocks that are taken out to be summarized.
pub open spec fn aside(p: PhaseV) -> Seq<BlockV> {
    match p {
        PhaseV::SumStart { old_blocks } => old_blocks,
        PhaseV::SumNext { old_blocks, .. } => old_blocks,
        PhaseV::SumUsage { old_blocks, .. } => old_blocks,
        PhaseV::SumClosed { old_blocks, .. } => old_blocks,
        _ => seq![],
    }
}

pub open spec fn log_readable(t: TurnV) -> bool {
    all_readable(t.session.blocks) && all_readable(aside(t.phase))
}

impl Turn {
    pub open spec fn wf(&self) -> bool {
        &&& self.repeats.wf()
        &&& self.round < MAX_ITERATIONS
    }

    /// A turn of a session that was opened with what the user said.
    pub fn new(session: Session) -> (r: Turn)
        ensures
            r.wf(),
            r@ == turn_of(session@),
    {
        let t = Turn {
            session,
            phase: Phase::Top,
            round: 0,
            segs: Vec::new(),
            tool_start: None,
            calls: Vec::new(),
            repeats: Table::new(),
            only_compact: false,
            failed: false,
        };
        assert(t@ =~= turn_of(session@));
        t
    }

    /// A turn that only summarizes the oldest blocks of a session, if it has more
    /// than its window holds.
    pub fn compact(session: Session) -> (r: Turn)
        ensures
            r.wf(),
            r@ == compaction_of(session@),
            all_readable(session@.blocks) ==> log_readable(r@),
    {
        let mut t = Turn::new(session);
        t.only_compact = true;
        if t.session.blocks.len() > t.session.max_history {
            t.put_aside()
        } else {
            t.phase = Phase::End;
            t
        }
    }

    fn put_aside(self) -> (r: Turn)
        requires
            self.wf(),
            self@.session.blocks.len() > self@.session.max_history,
        ensures
            r.wf(),
            r@ == set_aside(self@),
            all_readable(self@.session.blocks) ==> log_readable(r@),
    {
        let mut t = self;
        let ghost before = t@;
        let split: usize = t.session.blocks.len() - t.session.max_history;
        let tail = t.session.blocks.split_off(split);
        let mut old_blocks: Vec<Block> = Vec::new();
        old_blocks.append(&mut t.session.blocks);
        t.session.blocks = tail;
        assert(block::block_views(tail@) =~= before.session.blocks.skip(split as int));
        assert(block::block_views(old_blocks@) =~= before.session.blocks.take(split as int));
        t.phase = Phase::SumStart { old_blocks };
        t
    }

    pub fn is_over(&self) -> (r: bool)
        ensures
            r == (self@.phase is End),
    {
        matches!(self.phase, Phase::End)
    }

    /// What the turn asks now.
    pub fn ask(&self) -> (r: Ask)
        ensures
            r@ == question(self@),
    {
        match &self.phase {
            Phase::Top => Ask::Cancelled,
            Phase::SumStart { old_blocks } => {
                let none: Vec<ToolDefinition> = Vec::new();
                assert(tools::definition_views(none@) =~= seq![]);
                Ask::StreamStart(
                    Request {
                        session_id: self.session.id.clone(),
                        model: self.session.model.clone(),
                        messages: chat::blocks_to_chat(old_blocks.as_slice()),
                        system_prompt: Some(
                            text::owned(
                                "You are a conversation summarizer. Produce a concise summary of the conversation so far, preserving key facts, decisions, and unresolved tasks. Output only the summary.",
                            ),
                        ),
                        tools: none,
                        temperature: None,
                        max_tokens: Some(SUMMARY_MAX_TOKENS),
                    },
                )
            },
            Phase::SumNext { handle, .. } => Ask::StreamNext(*handle),
            Phase::SumUsage { handle, .. } => Ask::StreamUsage(*handle),
            Phase::SumClosed { handle, .. } => Ask::StreamClose(*handle),
            Phase::SumTold { count, .. } => {
                let data = text::owned("compacted: ").concat(
                    text::u64_text(*count as u64).as_str(),
                ).concat(" messages summarized, ").concat(
                    text::u64_text(self.session.max_history as u64).as_str(),
                ).concat(" kept");
                Ask::Emit { kind: text::owned("status"), data }
            },
            Phase::Tools => Ask::ListTools,
            Phase::Starting { tools } => Ask::StreamStart(
                Request {
                    session_id: self.session.id.clone(),
                    model: self.session.model.clone(),
                    messages: chat::blocks_to_chat(self.session.blocks.as_slice()),
                    system_prompt: Some(self.session.system_prompt.clone()),
                    tools: copy_tools(tools),
                    temperature: None,
                    max_tokens: None,
                },
            ),
            Phase::Poll { .. } => Ask::Cancelled,
            Phase::Next { handle } => Ask::StreamNext(*handle),
            Phase::Text { said, .. } => Ask::Emit {
                kind: text::owned("chunk"),
                data: said.clone(),
            },
            Phase::Thought { thought, .. } => Ask::Emit {
                kind: text::owned("thinking"),
                data: thought.clone(),
            },
            Phase::UseTold { call, .. } => Ask::Emit {
                kind: text::owned("tool_use"),
                data: payload::tool_use_json(call),
            },
            Phase::ArgsTold { call, .. } => Ask::Emit {
                kind: text::owned("tool_args"),
                data: payload::tool_args_json(call.id.as_str(), call.arguments.as_str()),
            },
            Phase::FailTold { why, .. } => Ask::Emit {
                kind: text::owned("error"),
                data: payload::describe_llm_error(why),
            },
            Phase::Usage { handle } => Ask::StreamUsage(*handle),
            Phase::Closed { handle } => Ask::StreamClose(*handle),
            Phase::Guard => Ask::Emit {
                kind: text::owned("error"),
                data: text::owned("tool loop guard triggered"),
            },
            Phase::Gate { .. } => Ask::Cancelled,
            Phase::Running { call, .. } => Ask::Invoke {
                name: call.name.clone(),
                arguments: call.arguments.clone(),
            },
            Phase::ResultTold { data } => Ask::Emit {
                kind: text::owned("tool_result"),
                data: data.clone(),
            },
            Phase::LastClose { handle } => Ask::StreamClose(*handle),
            Phase::End => Ask::Nothing,
        }
    }

    fn begin(self) -> (r: Turn)
        requires
            self.wf(),
        ensures
            r.wf(),
            r@ == begun(self@),
            log_readable(self@) ==> log_readable(r@),
    {
        let mut t = self;
        if t.session.auto_compact && t.session.should_compact() && t.session.blocks.len()
            > t.session.max_history {
            t.put_aside()
        } else {
            t.phase = Phase::Tools;
            t
        }
    }

    fn unsummarize(self, old_blocks: Vec<Block>) -> (r: Turn)
        requires
            self.wf(),
        ensures
            r.wf(),
            r@ == unsummarized(self@, block::block_views(old_blocks@)),
            all_readable(self@.session.blocks) && all_readable(block::block_views(old_blocks@))
                ==> log_readable(r@),
    {
        let mut t = self;
        let ghost before = t@;
        let ghost kept = block::block_views(old_blocks@);
        let mut all = old_blocks;
        all.append(&mut t.session.blocks);
        assert(block::block_views(all@) =~= kept + before.session.blocks);
        t.session.blocks = all;
        if t.only_compact {
            t.failed = true;
            t.phase = Phase::End;
        } else {
            t.session.trim_history();
            t.phase = Phase::Tools;
        }
        t
    }

    fn take_chunk(self, handle: u64, c: Chunk, now: u64) -> (r: Turn)
        requires
            self.wf(),
        ensures
            r.wf(),
            r@ == on_chunk(self@, handle, c@, now),
            all_readable(self@.session.blocks) ==> log_readable(r@),
    {
        match &c.text {
            Some(said) => {
                let said = said.clone();
                let mut t = self;
                seg::push_text(&mut t.segs, said.as_str(), now);
                t.phase = Phase::Text { handle, said, rest: c };
                t
            },
            None => self.pass_text(handle, c, now),
        }
    }

    fn pass_text(self, handle: u64, c: Chunk, now: u64) -> (r: Turn)
        requires
            self.wf(),
        ensures
            r.wf(),
            r@ == after_text(self@, handle, c@, now),
            all_readable(self@.session.blocks) ==> log_readable(r@),
    {
        match &c.thinking {
            Some(thought) => {
                let thought = thought.clone();
                let mut t = self;
                seg::push_thinking(&mut t.segs, thought.as_str(), now);
                t.phase = Phase::Thought { handle, thought, rest: c };
                t
            },
            None => self.pass_thought(handle, c, now),
        }
    }

    fn pass_thought(self, handle: u64, c: Chunk, now: u64) -> (r: Turn)
        requires
            self.wf(),
        ensures
            r.wf(),
            r@ == after_thought(self@, handle, c@, now),
            all_readable(self@.session.blocks) ==> log_readable(r@),
    {
        match &c.tool_call_start {
            Some(call) => {
                let call = call.copy();
                let mut t = self;
                seg::close_last(&mut t.segs, now);
                t.tool_start = Some(now);
                t.phase = Phase::UseTold { handle, call, rest: c };
                t
            },
            None => self.pass_use(handle, c, now),
        }
    }

    fn pass_use(self, handle: u64, c: Chunk, now: u64) -> (r: Turn)
        requires
            self.wf(),
        ensures
            r.wf(),
            r@ == after_use(self@, handle, c@, now),
            all_readable(self@.session.blocks) ==> log_readable(r@),
    {
        let mut t = self;
        match c.tool_call_end {
            Some(call) => {
                let s = Seg {
                    what: What::ToolUse(call.copy()),
                    created: match t.tool_start {
                        Some(s) => s,
                        None => now,
                    },
                    finished: now,
                };
                let ghost had = seg::seg_views(t.segs@);
                t.segs.push(s);
                assert(seg::seg_views(t.segs@) =~= had.push(s@));
                t.phase = Phase::ArgsTold { handle, call };
            },
            None => {
                t.phase = Phase::Poll { handle };
            },
        }
        t
    }

    fn commit(self, now: u64) -> (r: Turn)
        requires
            self.wf(),
        ensures
            r.wf(),
            r@ == committed(self@, now),
            all_readable(self@.session.blocks) ==> log_readable(r@),
    {
        let ghost start = self@;
        let mut t = self;
        let usage = t.session.turn_usage.to_usage();
        let ghost segs = start.segs;
        let ghost version = start.session.agent_version_id;
        let ghost blocks0 = start.session.blocks;
        let ghost all = seg_blocks(segs, version, now, usage);
        let mut calls: Vec<DriverToolCall> = Vec::new();
        let mut rest: Vec<Seg> = Vec::new();
        rest.append(&mut t.segs);
        assert(seg::seg_views(rest@) =~= segs);
        assert(seg::seg_views(t.segs@) =~= seq![]);
        let n: usize = rest.len();
        let mut i: usize = 0;
        assert(segs.take(0) =~= seq![]);
        assert(segs.skip(0) =~= segs);
        assert(drivers::call_views(calls@) =~= calls_in(segs.take(0)));
        assert(blocks0 + all.take(0) =~= blocks0);
        while i < n
            invariant
                i <= n,
                n == segs.len(),
                rest@.len() == n - i,
                seg::seg_views(rest@) == segs.skip(i as int),
                all == seg_blocks(segs, version, now, usage),
                t.wf(),
                t@ == (TurnV {
                    session: SessionV {
                        blocks: blocks0 + all.take(i as int),
                        ..start.session
                    },
                    segs: seq![],
                    ..start
                }),
                version == start.session.agent_version_id,
                drivers::call_views(calls@) == calls_in(segs.take(i as int)),
                all_readable(blocks0) ==> all_readable(t@.session.blocks),
            decreases n - i,
        {
            let ghost had = t@.session.blocks;
            let ghost before_rest = rest@;
            let s = rest.remove(0);
            assert(s@ == segs[i as int]) by {
                assert(s@ == seg::seg_views(before_rest)[0]);
            }
            assert(seg::seg_views(rest@) =~= segs.skip(i as int + 1)) by {
                assert(rest@ =~= before_rest.skip(1));
                assert(seg::seg_views(rest@) =~= seg::seg_views(before_rest).skip(1));
                assert(segs.skip(i as int).skip(1) =~= segs.skip(i as int + 1));
            }
            assert(segs.take(i as int + 1).drop_last() =~= segs.take(i as int));
            assert(segs.take(i as int + 1).last() == s@);
            if let What::ToolUse(c) = &s.what {
                let ghost had_calls = calls@;
                let c = c.copy();
                calls.push(c);
                assert(drivers::call_views(calls@) =~= drivers::call_views(had_calls).push(c@));
            }
            let ghost sv = s@;
            let b = s.into_block(t.session.agent_version_id.as_str(), now, &usage);
            t.session.blocks.push(b);
            proof {
                assert(b@ == all[i as int]);
                assert(t@.session.blocks =~= had.push(b@));
                assert(had.push(b@) =~= blocks0 + all.take(i as int + 1));
                lemma_seg_readable(sv, version, now, usage);
                if all_readable(blocks0) {
                    lemma_push_readable(had, b@);
                }
            }
            i = i + 1;
        }
        assert(segs.take(i as int) =~= segs);
        assert(all.take(i as int) =~= all);
        let none: bool = calls.len() == 0;
        t.calls = calls;
        if none {
            t.phase = Phase::End;
            t
        } else {
            let ghost mid = t@;
            assert(mid =~= TurnV {
                session: SessionV { blocks: blocks0 + all, ..start.session },
                segs: seq![],
                calls: calls_in(segs),
                ..start
            });
            t.advance()
        }
    }

    fn advance(self) -> (r: Turn)
        requires
            self.wf(),
        ensures
            r.wf(),
            r@ == next_call(self@),
            all_readable(self@.session.blocks) ==> log_readable(r@),
    {
        let mut t = self;
        let ghost before = t@;
        if t.calls.len() == 0 {
            if t.round + 1 < MAX_ITERATIONS {
                t.round = t.round + 1;
                t.phase = Phase::Top;
            } else {
                t.phase = Phase::End;
            }
            return t;
        }
        assert(t.calls@[0]@ == before.calls[0]);
        let key = t.calls[0].name.clone().concat("|").concat(t.calls[0].arguments.as_str());
        let n: usize = match t.repeats.get(key.as_str()) {
            Some(n) => *n,
            None => 0,
        };
        if n < MAX_TOOL_REPEATS {
            let ghost had = t.calls@;
            let call = t.calls.remove(0);
            assert(drivers::call_views(t.calls@) =~= drivers::call_views(had).skip(1));
            t.repeats.insert(key, n + 1);
            t.phase = Phase::Gate { call };
            assert(t@ =~= next_call(before));
        } else {
            t.phase = Phase::Guard;
        }
        t
    }

    fn finish_call(
        self,
        call: DriverToolCall,
        started: u64,
        ran: Result<String, ToolError>,
        now: u64,
    ) -> (r: Turn)
        requires
            self.wf(),
        ensures
            r.wf(),
            r@ == has_run(self@, call@, started, Answer::Ran(ran)@->Ran_0, now),
            all_readable(self@.session.blocks) ==> log_readable(r@),
    {
        let mut t = self;
        let ghost before = t@;
        let (out, is_error) = match ran {
            Ok(out) => (out, false),
            Err(ToolError::PermissionDenied) => (text::owned("permission denied"), true),
            Err(ToolError::NotFound) => (
                text::owned("tool not found: ").concat(call.name.as_str()),
                true,
            ),
            Err(ToolError::Failed) => (text::owned("tool failed"), true),
        };
        let preview = payload::truncate(out.as_str(), PREVIEW_BYTES);
        let data = payload::tool_result_json(&call, preview.as_str(), is_error, started, now);
        let b = seg::tool_result_block(
            t.session.agent_version_id.as_str(),
            &call,
            out.as_str(),
            is_error,
            started,
            now,
        );
        t.session.blocks.push(b);
        proof {
            assert(t@.session.blocks =~= before.session.blocks.push(b@));
            lemma_kinds();
            assert(chat::body(b@) == json::json_text(
                payload::kept_result(call@, out@, is_error),
            ));
            assert(readable(b@));
            if all_readable(before.session.blocks) {
                lemma_push_readable(before.session.blocks, b@);
            }
        }
        t.phase = Phase::ResultTold { data };
        t
    }

    /// The turn after the answer to its question, which came at `now`. The log
    /// stays readable: a call or result that is logged reads back as it was.
    pub fn step(self, answer: Answer, now: u64) -> (r: Turn)
        requires
            self.wf(),
        ensures
            r.wf(),
            r@ == stepped(self@, answer@, now),
            log_readable(self@) ==> log_readable(r@),
    {
        let ghost before = self@;
        let ghost av = answer@;
        let mut t = self;
        let settled: bool = matches!(answer, Answer::Done) || matches!(answer, Answer::Lost);
        let phase = t.phase;
        t.phase = Phase::End;
        match (phase, answer) {
            (Phase::Top, Answer::Flag(stop)) => {
                t.phase = Phase::Top;
                if stop {
                    t.phase = Phase::End;
                    t
                } else {
                    t.begin()
                }
            },
            (Phase::SumStart { old_blocks }, Answer::Opened(r)) => match r {
                Ok(handle) => {
                    let empty = String::new();
                    assert(empty@ =~= seq![]);
                    t.phase = Phase::SumNext { handle, old_blocks, summary: empty };
                    t
                },
                Err(_) => t.unsummarize(old_blocks),
            },
            (Phase::SumNext { handle, old_blocks, summary }, Answer::Next(n)) => {
                t.phase = match n {
                    Next::Wait => Phase::SumNext { handle, old_blocks, summary },
                    Next::Chunk(c) => {
                        let summary = match &c.text {
                            Some(said) => summary.concat(said.as_str()),
                            None => summary,
                        };
                        Phase::SumNext { handle, old_blocks, summary }
                    },
                    Next::End => Phase::SumUsage { handle, old_blocks, summary },
                    Next::Failed(_) => Phase::SumClosed { handle, old_blocks, summary: None },
                };
                t
            },
            (Phase::SumUsage { handle, old_blocks, summary }, Answer::Usage(u)) => {
                if let Some(u) = u {
                    t.session.record_usage(u);
                }
                t.phase = Phase::SumClosed { handle, old_blocks, summary: Some(summary) };
                t
            },
            (Phase::SumClosed { handle, old_blocks, summary }, _) => {
                if settled {
                    match summary {
                        Some(summary) => {
                            t.phase = Phase::SumTold { count: old_blocks.len(), summary };
                            t
                        },
                        None => t.unsummarize(old_blocks),
                    }
                } else {
                    t.phase = Phase::SumClosed { handle, old_blocks, summary };
                    t
                }
            },
            (Phase::SumTold { count, summary }, _) => {
                if settled {
                    t.session.summary = Some(summary);
                    t.phase = if t.only_compact {
                        Phase::End
                    } else {
                        Phase::Tools
                    };
                } else {
                    t.phase = Phase::SumTold { count, summary };
                }
                t
            },
            (Phase::Tools, Answer::Tools(tools)) => {
                t.phase = Phase::Starting { tools };
                t
            },
            (Phase::Starting { tools }, Answer::Opened(r)) => {
                match r {
                    Ok(handle) => {
                        t.segs = Vec::new();
                        assert(seg::seg_views(t.segs@) =~= seq![]);
                        t.tool_start = None;
                        t.phase = Phase::Poll { handle };
                    },
                    Err(why) => {
                        t.phase = Phase::FailTold { handle: None, why };
                    },
                }
                t
            },
            (Phase::Poll { handle }, Answer::Flag(stop)) => {
                t.phase = if stop {
                    Phase::LastClose { handle }
                } else {
                    Phase::Next { handle }
                };
                t
            },
            (Phase::Next { handle }, Answer::Next(n)) => match n {
                Next::Wait => {
                    t.phase = Phase::Next { handle };
                    t
                },
                Next::Chunk(c) => t.take_chunk(handle, c, now),
                Next::End => {
                    t.phase = Phase::Usage { handle };
                    t
                },
                Next::Failed(LlmError::Cancelled) => {
                    t.phase = Phase::LastClose { handle };
                    t
                },
                Next::Failed(why) => {
                    t.phase = Phase::FailTold { handle: Some(handle), why };
                    t
                },
            },
            (Phase::Text { handle, said, rest }, Answer::Done) => t.pass_text(handle, rest, now),
            (Phase::Text { handle, said, rest }, Answer::Lost) => {
                t.phase = Phase::LastClose { handle };
                t
            },
            (Phase::Thought { handle, thought, rest }, _) => {
                if settled {
                    t.pass_thought(handle, rest, now)
                } else {
                    t.phase = Phase::Thought { handle, thought, rest };
                    t
                }
            },
            (Phase::UseTold { handle, call, rest }, _) => {
                if settled {
                    t.pass_use(handle, rest, now)
                } else {
                    t.phase = Phase::UseTold { handle, call, rest };
                    t
                }
            },
            (Phase::ArgsTold { handle, call }, _) => {
                t.phase = if settled {
                    Phase::Poll { handle }
                } else {
                    Phase::ArgsTold { handle, call }
                };
                t
            },
            (Phase::FailTold { handle, why }, _) => {
                if settled {
                    t.phase = match handle {
                        Some(handle) => Phase::LastClose { handle },
                        None => Phase::End,
                    };
                } else {
                    t.phase = Phase::FailTold { handle, why };
                }
                t
            },
            (Phase::Usage { handle }, Answer::Usage(u)) => {
                if let Some(u) = u {
                    t.session.record_usage(u);
                }
                t.phase = Phase::Closed { handle };
                t
            },
            (Phase::Closed { handle }, _) => {
                t.phase = Phase::Closed { handle };
                if settled {
                    t.commit(now)
                } else {
                    t
                }
            },
            (Phase::Guard, _) => {
                t.phase = if settled {
                    Phase::End
                } else {
                    Phase::Guard
                };
                t
            },
            (Phase::Gate { call }, Answer::Flag(stop)) => {
                t.phase = if stop {
                    Phase::End
                } else {
                    Phase::Running { call, started: now }
                };
                t
            },
            (Phase::Running { call, started }, Answer::Ran(r)) => {
                t.finish_call(call, started, r, now)
            },
            (Phase::ResultTold { data }, _) => {
                t.phase = Phase::ResultTold { data };
                if settled {
                    t.advance()
                } else {
                    t
                }
            },
            (Phase::LastClose { handle }, _) => {
                t.phase = if settled {
                    Phase::End
                } else {
                    Phase::LastClose { handle }
                };
                t
            },
            (phase, _) => {
                t.phase = phase;
                t
            },
        }
    }
}

fn copy_tools(v: &Vec<ToolDefinition>) -> (r: Vec<ToolDefinition>)
    ensures
        tools::definition_views(r@) == tools::definition_views(v@),
{
    let ghost all = tools::definition_views(v@);
    let mut out: Vec<ToolDefinition> = Vec::new();
    let mut i: usize = 0;
    while i < v.len()
        invariant
            i <= v@.len(),
            all == tools::definition_views(v@),
            tools::definition_views(out@) == all.take(i as int),
        decreases v@.len() - i,
    {
        let d = ToolDefinition {
            name: v[i].name.clone(),
            description: v[i].description.clone(),
            parameters_json: v[i].parameters_json.clone(),
        };
        assert(d@ == all[i as int]);
        out.push(d);
        i = i + 1;
        assert(tools::definition_views(out@) =~= all.take(i as int));
    }
    assert(all.take(i as int) =~= all);
    out
}

proof fn lemma_kinds()
    ensures
        "tool-use"@ != "tool-result"@,
        "text"@ != "tool-use"@,
        "text"@ != "tool-result"@,
        "thinking"@ != "tool-use"@,
        "thinking"@ != "tool-result"@,
        "user"@ != "tool-use"@,
        "user"@ != "tool-result"@,
{
    reveal_strlit("tool-use");
    reveal_strlit("tool-result");
    reveal_strlit("text");
    reveal_strlit("thinking");
    reveal_strlit("user");
    assert("thinking"@[0] == 't' && "thinking"@[1] == 'h');
    assert("tool-use"@[1] == 'o');
    assert("tool-use"@.len() != "tool-result"@.len());
}

proof fn lemma_seg_readable(s: SegV, version: Seq<char>, end: u64, u: Usage)
    requires
        seg::reads_back(s),
    ensures
        readable(seg::block_of(s, version, end, u)),
{
    lemma_kinds();
}

proof fn lemma_push_readable(b: Seq<BlockV>, x: BlockV)
    requires
        all_readable(b),
        readable(x),
    ensures
        all_readable(b.push(x)),
{
}

} // verus!
