//! What a turn does from its start to its end, whatever its host answers.
use crate::agent::block::{self, BlockV};
use crate::agent::chat;
use crate::agent::payload;
use crate::agent::seg::{self, SegV, WhatV};
use crate::agent::session::{self, SessionV};
use crate::agent::turn::{self, AnswerV, PhaseV, QuestionV, TurnV, MAX_TOOL_REPEATS};
use crate::host::drivers::{CallV, Usage};
use crate::host::state::{ChunkV, LlmErrorV, NextV};
use crate::host::tools::{DefinitionV, ToolError};
use crate::json;
use crate::json::JsonV;
use crate::json_laws;
use crate::text;
use vstd::prelude::*;

verus! {

/// An answer and the moment it came.
pub type StepV = (AnswerV, u64);

/// The turn after the answers, one after the other.
#[verifier::opaque]
pub open spec fn after(t: TurnV, steps: Seq<StepV>) -> TurnV
    decreases steps.len(),
{
    if steps.len() == 0 {
        t
    } else {
        turn::stepped(after(t, steps.drop_last()), steps.last().0, steps.last().1)
    }
}

// ---- summaries ----

/// The text of a piece of a stream.
pub open spec fn piece(n: NextV) -> Seq<char> {
    match n {
        NextV::Chunk(c) => match c.text {
            Some(t) => t,
            None => seq![],
        },
        _ => seq![],
    }
}

/// The text of all pieces, one behind the other.
pub open spec fn all_pieces(ns: Seq<NextV>) -> Seq<char> {
    ns.map_values(|n: NextV| piece(n)).flatten()
}

/// The pieces as answers.
pub open spec fn as_steps(ns: Seq<NextV>, now: u64) -> Seq<StepV> {
    ns.map_values(|n: NextV| (AnswerV::Next(n), now))
}

proof fn lemma_summary_grows(t: TurnV, handle: u64, old: Seq<BlockV>, ns: Seq<NextV>, now: u64)
    requires
        t.phase == (PhaseV::SumNext { handle, old_blocks: old, summary: seq![] }),
        forall|i: int| 0 <= i < ns.len() ==> (#[trigger] ns[i]) is Chunk || ns[i] is Wait,
    ensures
        after(t, as_steps(ns, now)) == (TurnV {
            phase: PhaseV::SumNext { handle, old_blocks: old, summary: all_pieces(ns) },
            ..t
        }),
    decreases ns.len(),
{
    reveal(after);
    let steps = as_steps(ns, now);
    let texts = ns.map_values(|n: NextV| piece(n));
    if ns.len() == 0 {
        assert(texts =~= seq![]);
        assert(all_pieces(ns) =~= seq![]);
    } else {
        let front = ns.drop_last();
        assert forall|i: int| 0 <= i < front.len() implies (#[trigger] front[i]) is Chunk
            || front[i] is Wait by {
            assert(front[i] == ns[i]);
        }
        lemma_summary_grows(t, handle, old, front, now);
        assert(steps.drop_last() =~= as_steps(front, now));
        assert(steps.last() == (AnswerV::Next(ns.last()), now));
        let front_texts = front.map_values(|n: NextV| piece(n));
        assert(texts.drop_last() =~= front_texts);
        texts.lemma_flatten_and_flatten_alt_are_equivalent();
        front_texts.lemma_flatten_and_flatten_alt_are_equivalent();
        assert(all_pieces(ns) =~= all_pieces(front) + piece(ns.last()));
        assert(ns[ns.len() - 1] is Chunk || ns[ns.len() - 1] is Wait);
        assert(all_pieces(front) + Seq::<char>::empty() =~= all_pieces(front));
    }
}

/// The summary that is kept is all that the summary's stream has said: the texts of
/// all its pieces, in their order. The blocks that it stands for are gone, those
/// kept stay, and the stream's tokens are counted.
pub proof fn the_summary_is_all_that_was_said(
    t: TurnV,
    old: Seq<BlockV>,
    handle: u64,
    ns: Seq<NextV>,
    usage: Option<Usage>,
    now: u64,
)
    requires
        t.phase == (PhaseV::SumStart { old_blocks: old }),
        forall|i: int| 0 <= i < ns.len() ==> (#[trigger] ns[i]) is Chunk || ns[i] is Wait,
    ensures
        ({
            let opened = turn::stepped(t, AnswerV::Opened(Ok(handle)), now);
            let heard = after(opened, as_steps(ns, now));
            let ended = turn::stepped(heard, AnswerV::Next(NextV::End), now);
            let counted = turn::stepped(ended, AnswerV::Usage(usage), now);
            let closed = turn::stepped(counted, AnswerV::Done, now);
            let done = turn::stepped(closed, AnswerV::Done, now);
            &&& turn::question(opened) == QuestionV::StreamNext(handle)
            &&& turn::question(ended) == QuestionV::StreamUsage(handle)
            &&& turn::question(counted) == QuestionV::StreamClose(handle)
            &&& done.session.summary == Some(all_pieces(ns))
            &&& done.session.blocks == t.session.blocks
            &&& done.phase == if t.only_compact {
                PhaseV::End
            } else {
                PhaseV::Tools
            }
            &&& done.failed == t.failed
            &&& usage is None ==> done.session == (SessionV {
                summary: Some(all_pieces(ns)),
                ..t.session
            })
            &&& usage matches Some(u) ==> done.session.last_input_tokens == u.input_tokens
        }),
{
    let opened = turn::stepped(t, AnswerV::Opened(Ok(handle)), now);
    lemma_summary_grows(opened, handle, old, ns, now);
}

/// A compaction takes out all blocks but the newest, as many as the window holds, and
/// asks the session's model about those taken out; a history that fits is left alone.
pub proof fn a_compaction_asks_about_the_oldest(s: SessionV)
    ensures
        ({
            let t = turn::compaction_of(s);
            let n = s.max_history as int;
            if s.blocks.len() > n {
                let split = s.blocks.len() - n;
                &&& t.session == (SessionV { blocks: s.blocks.skip(split), ..s })
                &&& t.session.blocks.len() == n
                &&& turn::question(t) matches QuestionV::StreamStart(a) && a.messages
                    == chat::chat(s.blocks.take(split)) && a.model == s.model && a.session_id
                    == s.id && a.tools.len() == 0 && a.system_prompt is Some && a.max_tokens
                    == Some(512u32) && a.temperature is None
            } else {
                t.session == s && t.phase is End && !t.failed
            }
        }),
{
}

/// A turn summarizes before it asks the model exactly where the session wants that
/// by itself, the last request was as large as its limit or larger, and there is
/// more than the window holds.
pub proof fn a_turn_compacts_when_it_is_due(t: TurnV, now: u64)
    requires
        t.phase is Top,
    ensures
        ({
            let next = turn::stepped(t, AnswerV::Flag(false), now);
            let s = t.session;
            if s.auto_compact && s.last_input_tokens >= s.compact_at && s.blocks.len()
                > s.max_history {
                &&& next.phase == (PhaseV::SumStart {
                    old_blocks: s.blocks.take(s.blocks.len() - s.max_history),
                })
                &&& next.session.blocks == s.blocks.skip(s.blocks.len() - s.max_history)
            } else {
                next == (TurnV { phase: PhaseV::Tools, ..t })
            }
        }),
{
}

// ---- the model's answer ----

/// The model is asked with the conversation, the system prompt and the tools that
/// the host has listed, and with no other setting.
pub proof fn the_model_gets_the_conversation(t: TurnV, tools: Seq<DefinitionV>, now: u64)
    requires
        t.phase is Tools,
    ensures
        turn::question(t) == QuestionV::ListTools,
        ({
            let n = turn::stepped(t, AnswerV::Tools(tools), now);
            &&& turn::question(n) matches QuestionV::StreamStart(a) && a.messages == chat::chat(
                t.session.blocks,
            ) && a.system_prompt == Some(t.session.system_prompt) && a.tools == tools && a.model
                == t.session.model && a.session_id == t.session.id && a.temperature is None
                && a.max_tokens is None
            &&& n.session == t.session
        }),
{
}

/// What of a piece is still to be passed on.
pub open spec fn only_text(t: Seq<char>) -> ChunkV {
    ChunkV { text: Some(t), thinking: None, tool_call_start: None, tool_call_end: None }
}

/// A piece of text is told as it is and goes behind the text so far; a piece of
/// thinking likewise, and apart from it. Then the next piece is asked for.
pub proof fn pieces_are_told_and_kept(t: TurnV, handle: u64, said: Seq<char>, now: u64, later: u64)
    requires
        t.phase == (PhaseV::Next { handle }),
    ensures
        ({
            let c = only_text(said);
            let n = turn::stepped(t, AnswerV::Next(NextV::Chunk(c)), now);
            let m = turn::stepped(n, AnswerV::Done, later);
            &&& turn::question(n) == (QuestionV::Emit { kind: "chunk"@, data: said })
            &&& seg::all_text(n.segs) == seg::all_text(t.segs) + said
            &&& all_thinking(n.segs) == all_thinking(t.segs)
            &&& n.session == t.session
            &&& m == (TurnV { phase: PhaseV::Poll { handle }, ..n })
            &&& turn::question(m) == QuestionV::Cancelled
            &&& turn::question(turn::stepped(m, AnswerV::Flag(false), later))
                == QuestionV::StreamNext(handle)
        }),
        ({
            let c = ChunkV {
                text: None,
                thinking: Some(said),
                tool_call_start: None,
                tool_call_end: None,
            };
            let n = turn::stepped(t, AnswerV::Next(NextV::Chunk(c)), now);
            let m = turn::stepped(n, AnswerV::Done, later);
            &&& turn::question(n) == (QuestionV::Emit { kind: "thinking"@, data: said })
            &&& seg::all_text(n.segs) == seg::all_text(t.segs)
            &&& all_thinking(n.segs) == all_thinking(t.segs) + said
            &&& n.session == t.session
            &&& m == (TurnV { phase: PhaseV::Poll { handle }, ..n })
        }),
        turn::question(t) == QuestionV::StreamNext(handle),
        turn::stepped(t, AnswerV::Next(NextV::Wait), now) == t,
{
    seg::text_accumulates(t.segs, said, now);
    thinking_accumulates(t.segs, said, now);
}

/// The thinking of all segments, in their order.
pub open spec fn all_thinking(s: Seq<SegV>) -> Seq<char>
    decreases s.len(),
{
    if s.len() == 0 {
        seq![]
    } else {
        all_thinking(s.drop_last()) + match s.last().what {
            WhatV::Thinking(t) => t,
            _ => seq![],
        }
    }
}

proof fn lemma_closed_thinking(s: Seq<SegV>, at: u64)
    ensures
        all_thinking(seg::closed_last(s, at)) == all_thinking(s),
{
    if s.len() > 0 && s.last().finished == 0 {
        assert(seg::closed_last(s, at).drop_last() =~= s.drop_last());
    }
}

/// No thinking is lost or moved: a piece goes behind all the thinking so far, and
/// text leaves the thinking alone.
pub proof fn thinking_accumulates(s: Seq<SegV>, t: Seq<char>, at: u64)
    ensures
        all_thinking(seg::with_thinking(s, t, at)) == all_thinking(s) + t,
        all_thinking(seg::with_text(s, t, at)) == all_thinking(s),
{
    let a = seg::with_thinking(s, t, at);
    let b = seg::with_text(s, t, at);
    lemma_closed_thinking(s, at);
    if s.len() > 0 && s.last().what is Thinking {
        assert(a.drop_last() =~= s.drop_last());
        assert(all_thinking(s.drop_last()) + (s.last().what->Thinking_0 + t) =~= all_thinking(s)
            + t);
    } else {
        assert(a.drop_last() =~= seg::closed_last(s, at));
    }
    if s.len() > 0 && s.last().what is Text {
        assert(b.drop_last() =~= s.drop_last());
    } else {
        assert(b.drop_last() =~= seg::closed_last(s, at));
        assert(all_thinking(s) + seq![] =~= all_thinking(s));
    }
}

/// A piece that holds several things is passed on thing by thing, and none is lost:
/// once its text is told it goes on as if it had only the rest, once its thinking is
/// told as if it had only its call, and once the call's start is told as if it had
/// only its end.
pub proof fn no_part_of_a_piece_is_lost(t: TurnV, handle: u64, c: ChunkV, now: u64, later: u64)
    requires
        t.phase == (PhaseV::Next { handle }),
    ensures
        ({
            let n = turn::stepped(t, AnswerV::Next(NextV::Chunk(c)), now);
            let rest = if c.text is Some {
                ChunkV { text: None, ..c }
            } else if c.thinking is Some {
                ChunkV { text: None, thinking: None, ..c }
            } else {
                ChunkV { text: None, thinking: None, tool_call_start: None, ..c }
            };
            let plain = TurnV { phase: PhaseV::Next { handle }, ..n };
            let m = turn::stepped(n, AnswerV::Done, later);
            let o = turn::stepped(plain, AnswerV::Next(NextV::Chunk(rest)), later);
            c.text is Some || c.thinking is Some || c.tool_call_start is Some ==> same_but_rest(
                m,
                o,
            )
        }),
{
}

/// Two turns that differ at most in what they remember of the piece they pass on.
pub open spec fn same_but_rest(a: TurnV, b: TurnV) -> bool {
    &&& a == (TurnV { phase: a.phase, ..b })
    &&& turn::question(a) == turn::question(b)
    &&& match (a.phase, b.phase) {
        (
            PhaseV::Thought { handle: h, thought: x, rest: r },
            PhaseV::Thought { handle: k, thought: y, rest: s },
        ) => h == k && x == y && r.tool_call_start == s.tool_call_start && r.tool_call_end
            == s.tool_call_end,
        (
            PhaseV::UseTold { handle: h, call: x, rest: r },
            PhaseV::UseTold { handle: k, call: y, rest: s },
        ) => h == k && x == y && r.tool_call_end == s.tool_call_end,
        (p, q) => p == q,
    }
}

/// The tool calls among the segments, in their order.
pub open spec fn uses(s: Seq<SegV>) -> Seq<CallV> {
    s.filter(|x: SegV| x.what is ToolUse).map_values(|x: SegV| x.what->ToolUse_0)
}

/// A complete tool call becomes the newest segment, once, and is told with its id and
/// its arguments; the pieces of text and thinking so far stay, and no other call is
/// touched.
pub proof fn a_complete_call_is_kept(t: TurnV, handle: u64, call: CallV, now: u64)
    requires
        t.phase == (PhaseV::Next { handle }),
    ensures
        ({
            let c = ChunkV {
                text: None,
                thinking: None,
                tool_call_start: None,
                tool_call_end: Some(call),
            };
            let n = turn::stepped(t, AnswerV::Next(NextV::Chunk(c)), now);
            &&& uses(n.segs) == uses(t.segs).push(call)
            &&& n.segs.drop_last() == t.segs
            &&& n.session == t.session
            &&& turn::question(n) matches QuestionV::Emit { kind, data } && kind == "tool_args"@
                && exists|v: JsonV| data == #[trigger] json::json_text(v) && json::field(v, "id"@)
                == Some(JsonV::Str(call.id)) && json::field(v, "arguments"@) == Some(
                JsonV::Str(call.arguments),
            )
            &&& turn::stepped(n, AnswerV::Done, now).phase == (PhaseV::Poll { handle })
        }),
        ({
            let c = ChunkV {
                text: None,
                thinking: None,
                tool_call_start: Some(call),
                tool_call_end: None,
            };
            let n = turn::stepped(t, AnswerV::Next(NextV::Chunk(c)), now);
            &&& uses(n.segs) == uses(t.segs)
            &&& turn::question(n) matches QuestionV::Emit { kind, data } && kind == "tool_use"@
                && exists|v: JsonV| data == #[trigger] json::json_text(v) && json::field(v, "id"@)
                == Some(JsonV::Str(call.id)) && json::field(v, "name"@) == Some(
                JsonV::Str(call.name),
            )
            &&& n.session == t.session
        }),
{
    let c = ChunkV {
        text: None,
        thinking: None,
        tool_call_start: None,
        tool_call_end: Some(call),
    };
    let n = turn::stepped(t, AnswerV::Next(NextV::Chunk(c)), now);
    lemma_uses_push(t.segs, n.segs.last());
    assert(n.segs =~= t.segs.push(n.segs.last()));
    assert(n.segs.drop_last() =~= t.segs);
    lemma_args_fields(call.id, call.arguments);
    assert(turn::question(n)->Emit_data == json::json_text(
        payload::args_value(call.id, call.arguments),
    ));
    let c2 = ChunkV {
        text: None,
        thinking: None,
        tool_call_start: Some(call),
        tool_call_end: None,
    };
    let n2 = turn::stepped(t, AnswerV::Next(NextV::Chunk(c2)), now);
    lemma_uses_closed(t.segs, now);
    lemma_use_fields(call);
    assert(turn::question(n2)->Emit_data == json::json_text(payload::use_value(call)));
}

proof fn lemma_args_fields(id: Seq<char>, arguments: Seq<char>)
    ensures
        json::field(payload::args_value(id, arguments), "id"@) == Some(JsonV::Str(id)),
        json::field(payload::args_value(id, arguments), "arguments"@) == Some(
            JsonV::Str(arguments),
        ),
{
    reveal_strlit("id");
    reveal_strlit("arguments");
    assert("id"@.len() == 2 && "arguments"@.len() == 9);
    let m = payload::args_value(id, arguments)->Obj_0;
    json_laws::the_first_member_is_read(m, 0);
    json_laws::the_first_member_is_read(m, 1);
}

proof fn lemma_use_fields(c: CallV)
    ensures
        json::field(payload::use_value(c), "id"@) == Some(JsonV::Str(c.id)),
        json::field(payload::use_value(c), "name"@) == Some(JsonV::Str(c.name)),
{
    reveal_strlit("id");
    reveal_strlit("name");
    assert("id"@.len() == 2 && "name"@.len() == 4);
    let m = payload::use_value(c)->Obj_0;
    json_laws::the_first_member_is_read(m, 0);
    json_laws::the_first_member_is_read(m, 1);
}

proof fn lemma_uses_push(s: Seq<SegV>, x: SegV)
    ensures
        uses(s.push(x)) == if x.what is ToolUse {
            uses(s).push(x.what->ToolUse_0)
        } else {
            uses(s)
        },
{
    reveal(Seq::filter);
    assert(s.push(x).drop_last() =~= s);
    assert(uses(s.push(x)) =~= if x.what is ToolUse {
        uses(s).push(x.what->ToolUse_0)
    } else {
        uses(s)
    });
}

proof fn lemma_uses_closed(s: Seq<SegV>, at: u64)
    ensures
        uses(seg::closed_last(s, at)) == uses(s),
{
    if s.len() > 0 && s.last().finished == 0 {
        let front = s.drop_last();
        assert(front.push(s.last()) =~= s);
        lemma_uses_push(front, s.last());
        lemma_uses_push(front, SegV { finished: at, ..s.last() });
    }
}

proof fn lemma_calls(s: Seq<SegV>)
    ensures
        turn::calls_in(s) == uses(s),
    decreases s.len(),
{
    if s.len() == 0 {
        reveal(Seq::filter);
        assert(uses(s) =~= seq![]);
    } else {
        let front = s.drop_last();
        lemma_calls(front);
        assert(front.push(s.last()) =~= s);
        lemma_uses_push(front, s.last());
    }
}

/// The block that a segment is logged as: its own text, under its kind, from its
/// start to its end, with the tokens of the turn and the version that said it.
pub open spec fn logs(b: BlockV, x: SegV, version: Seq<char>, now: u64, u: Usage) -> bool {
    &&& b.agent_version_id == version
    &&& b.created_at_ms == x.created
    &&& b.finished_at_ms == (if x.finished == 0 {
        now
    } else {
        x.finished
    })
    &&& b.usage == u
    &&& match x.what {
        WhatV::Text(s) => b.kind == "text"@ && b.text == Some(s),
        WhatV::Thinking(s) => b.kind == "thinking"@ && b.text == Some(s),
        WhatV::ToolUse(c) => {
            &&& b.kind == "tool-use"@
            &&& exists|v: JsonV|
                b.text == Some(#[trigger] json::json_text(v)) && chat::call_in(v) == c
        },
    }
}

/// When the stream of an answer is closed, each segment is logged, once and in its
/// order, and all its tool calls, each once and in their order, are what is to be
/// run: there are as many as there are such segments, and the k-th is that of the
/// k-th such segment. Without any the turn is over.
pub proof fn an_answer_is_logged_and_all_its_calls_are_due(t: TurnV, a: AnswerV, now: u64)
    requires
        t.phase is Closed,
        a is Done || a is Lost,
    ensures
        ({
            let n = turn::stepped(t, a, now);
            let had = t.session.blocks;
            let due = uses(t.segs);
            &&& n.session.blocks.len() == had.len() + t.segs.len()
            &&& n.session.blocks.take(had.len() as int) == had
            &&& forall|k: int|
                0 <= k < t.segs.len() ==> logs(
                    #[trigger] n.session.blocks[had.len() + k],
                    t.segs[k],
                    t.session.agent_version_id,
                    now,
                    block::total(t.session.turn_usage),
                )
            &&& n.session == (SessionV { blocks: n.session.blocks, ..t.session })
            &&& due.len() == 0 ==> n.phase is End
            &&& due.len() > 0 ==> (n.phase == (PhaseV::Gate { call: due[0] }) && n.calls
                == due.skip(1)) || (n.phase is Guard && n.calls == due)
            &&& due.len() > 0 && turn::times(t.repeats, due[0]) < 5 ==> n.phase is Gate
        }),
{
    lemma_calls(t.segs);
    let n = turn::stepped(t, a, now);
    let had = t.session.blocks;
    let made = turn::seg_blocks(
        t.segs,
        t.session.agent_version_id,
        now,
        block::total(t.session.turn_usage),
    );
    assert(n.session.blocks == had + made);
    assert(n.session.blocks.take(had.len() as int) =~= had);
    assert forall|k: int| 0 <= k < t.segs.len() implies logs(
        #[trigger] n.session.blocks[had.len() + k],
        t.segs[k],
        t.session.agent_version_id,
        now,
        block::total(t.session.turn_usage),
    ) by {
        assert(n.session.blocks[had.len() + k] == made[k]);
        match t.segs[k].what {
            WhatV::ToolUse(c) => {
                chat::a_logged_call_reads_back(c);
                assert(made[k].text == Some(json::json_text(payload::kept_call(c))));
            },
            _ => {},
        }
    }
}

// ---- tools ----

/// What a tool gave, as the model is told of it: its output, or why there is none.
pub open spec fn output_for(c: CallV, r: Result<Seq<char>, ToolError>) -> Seq<char> {
    match r {
        Ok(out) => out,
        Err(ToolError::PermissionDenied) => "permission denied"@,
        Err(ToolError::NotFound) => "tool not found: "@ + c.name,
        Err(ToolError::Failed) => "tool failed"@,
    }
}

/// A block that logs what came of a call: under the call's id and name, with its
/// output, and marked where it failed.
pub open spec fn answers(
    b: BlockV,
    c: CallV,
    r: Result<Seq<char>, ToolError>,
    version: Seq<char>,
) -> bool {
    &&& b.kind == "tool-result"@
    &&& b.agent_version_id == version
    &&& exists|v: JsonV|
        {
            &&& b.text == Some(#[trigger] json::json_text(v))
            &&& json::field(v, "id"@) == Some(JsonV::Str(c.id))
            &&& json::field(v, "name"@) == Some(JsonV::Str(c.name))
            &&& json::field(v, "output"@) == Some(JsonV::Str(output_for(c, r)))
            &&& json::field(v, "is_error"@) == Some(JsonV::Bool(r is Err))
        }
}

proof fn lemma_result_fields(c: CallV, out: Seq<char>, is_error: bool)
    ensures
        ({
            let v = payload::kept_result(c, out, is_error);
            &&& json::field(v, "id"@) == Some(JsonV::Str(c.id))
            &&& json::field(v, "name"@) == Some(JsonV::Str(c.name))
            &&& json::field(v, "output"@) == Some(JsonV::Str(out))
            &&& json::field(v, "is_error"@) == Some(JsonV::Bool(is_error))
        }),
{
    reveal_strlit("id");
    reveal_strlit("name");
    reveal_strlit("output");
    reveal_strlit("is_error");
    assert("id"@.len() == 2 && "name"@.len() == 4 && "output"@.len() == 6 && "is_error"@.len()
        == 8);
    let m = payload::kept_result(c, out, is_error)->Obj_0;
    json_laws::the_first_member_is_read(m, 0);
    json_laws::the_first_member_is_read(m, 1);
    json_laws::the_first_member_is_read(m, 2);
    json_laws::the_first_member_is_read(m, 3);
}

/// A call that is due runs unless the turn is told to stop: the tool of its name is
/// asked with its arguments. What came of it is logged, once, with the moments at
/// which it started and ended, and the next call comes up, or else the next round.
pub proof fn a_call_is_run_and_answered(
    t: TurnV,
    call: CallV,
    r: Result<Seq<char>, ToolError>,
    started: u64,
    now: u64,
)
    requires
        t.phase == (PhaseV::Gate { call }),
    ensures
        ({
            let running = turn::stepped(t, AnswerV::Flag(false), started);
            let n = turn::stepped(running, AnswerV::Ran(r), now);
            let b = n.session.blocks.last();
            &&& turn::question(running) == (QuestionV::Invoke {
                name: call.name,
                arguments: call.arguments,
            })
            &&& n.session.blocks.len() == t.session.blocks.len() + 1
            &&& n.session.blocks.drop_last() == t.session.blocks
            &&& answers(b, call, r, t.session.agent_version_id)
            &&& b.created_at_ms == started
            &&& b.finished_at_ms == now
            &&& n.session == (SessionV { blocks: n.session.blocks, ..t.session })
            &&& n.calls == t.calls
            &&& n.phase is ResultTold
            &&& turn::question(n) matches QuestionV::Emit { kind, .. } && kind == "tool_result"@
        }),
{
    let running = turn::stepped(t, AnswerV::Flag(false), started);
    let n = turn::stepped(running, AnswerV::Ran(r), now);
    assert(n.session.blocks.drop_last() =~= t.session.blocks);
    lemma_answers(running, call, started, r, now);
}

proof fn lemma_answers(
    t: TurnV,
    call: CallV,
    started: u64,
    r: Result<Seq<char>, ToolError>,
    now: u64,
)
    ensures
        answers(
            turn::has_run(t, call, started, r, now).session.blocks.last(),
            call,
            r,
            t.session.agent_version_id,
        ),
{
    let out = output_for(call, r);
    let b = turn::has_run(t, call, started, r, now).session.blocks.last();
    lemma_result_fields(call, out, r is Err);
    assert(b.text == Some(json::json_text(payload::kept_result(call, out, r is Err))));
}

/// The answers of tools among the answers, in their order.
pub open spec fn results(steps: Seq<StepV>) -> Seq<Result<Seq<char>, ToolError>>
    decreases steps.len(),
{
    if steps.len() == 0 {
        seq![]
    } else {
        match steps.last().0 {
            AnswerV::Ran(r) => results(steps.drop_last()).push(r),
            _ => results(steps.drop_last()),
        }
    }
}

/// The tools that were asked and have answered, with their arguments, in their order.
pub open spec fn invoked(t: TurnV, steps: Seq<StepV>) -> Seq<(Seq<char>, Seq<char>)>
    decreases steps.len(),
{
    if steps.len() == 0 {
        seq![]
    } else {
        let before = invoked(t, steps.drop_last());
        match (turn::question(after(t, steps.drop_last())), steps.last().0) {
            (QuestionV::Invoke { name, arguments }, AnswerV::Ran(_)) => before.push(
                (name, arguments),
            ),
            _ => before,
        }
    }
}

/// Whether a turn is busy with the calls of one answer.
pub open spec fn running_calls(p: PhaseV) -> bool {
    p is Gate || p is Running || p is ResultTold
}

/// An answer of a tool comes only where a tool was asked.
pub open spec fn tools_answer_when_asked(t: TurnV, steps: Seq<StepV>) -> bool {
    forall|j: int|
        0 <= j < steps.len() && (#[trigger] steps[j]).0 is Ran ==> after(
            t,
            steps.take(j),
        ).phase is Running
}

/// How far the calls of an answer have come.
spec fn calls_so_far(t: TurnV, due: Seq<CallV>, log: Seq<BlockV>, steps: Seq<StepV>) -> bool {
    let u = after(t, steps);
    let done = invoked(t, steps).len() as int;
    &&& 0 <= done <= due.len()
    &&& results(steps).len() == done
    &&& forall|k: int|
        0 <= k < done ==> #[trigger] invoked(t, steps)[k] == (due[k].name, due[k].arguments)
    &&& u.session.agent_version_id == t.session.agent_version_id
    &&& u.session.blocks.len() == log.len() + done
    &&& u.session.blocks.take(log.len() as int) == log
    &&& forall|k: int|
        0 <= k < done ==> answers(
            #[trigger] u.session.blocks[log.len() + k],
            due[k],
            results(steps)[k],
            t.session.agent_version_id,
        )
    &&& match u.phase {
        PhaseV::Gate { call } => done < due.len() && call == due[done] && u.calls == due.skip(
            done + 1,
        ),
        PhaseV::Running { call, .. } => done < due.len() && call == due[done] && u.calls
            == due.skip(done + 1),
        PhaseV::ResultTold { .. } => u.calls == due.skip(done),
        PhaseV::Top => done == due.len(),
        _ => true,
    }
}

proof fn lemma_calls_go_on(
    t: TurnV,
    due: Seq<CallV>,
    log: Seq<BlockV>,
    steps: Seq<StepV>,
)
    requires
        steps.len() > 0,
        calls_so_far(t, due, log, steps.drop_last()),
        running_calls(after(t, steps.drop_last()).phase),
        steps.last().0 is Ran ==> after(t, steps.drop_last()).phase is Running,
        running_calls(after(t, steps).phase) || after(t, steps).phase is Top,
    ensures
        calls_so_far(t, due, log, steps),
{
    reveal(after);
    let front = steps.drop_last();
    let p = after(t, front);
    let u = after(t, steps);
    let done = invoked(t, front).len() as int;
    match p.phase {
        PhaseV::Running { call, started } => {
            if let AnswerV::Ran(r) = steps.last().0 {
                lemma_answers(p, call, started, r, steps.last().1);
                assert(u.session.blocks.take(log.len() as int) =~= p.session.blocks.take(
                    log.len() as int,
                ));
                assert forall|k: int| 0 <= k < done + 1 implies answers(
                    #[trigger] u.session.blocks[log.len() + k],
                    due[k],
                    results(steps)[k],
                    t.session.agent_version_id,
                ) by {
                    if k < done {
                        assert(u.session.blocks[log.len() + k] == p.session.blocks[log.len() + k]);
                        assert(results(steps)[k] == results(front)[k]);
                    }
                }
                assert forall|k: int| 0 <= k < done + 1 implies #[trigger] invoked(t, steps)[k]
                    == (due[k].name, due[k].arguments) by {
                    if k < done {
                        assert(invoked(t, steps)[k] == invoked(t, front)[k]);
                    }
                }
            }
        },
        PhaseV::ResultTold { .. } => {
            if turn::is_settled(steps.last().0) {
                if p.calls.len() > 0 {
                    assert(p.calls[0] == due[done]);
                    assert(p.calls.skip(1) =~= due.skip(done + 1));
                }
            }
        },
        _ => {},
    }
}

/// Between an answer of the model and the next question to it, every call of the
/// answer is run, each once and in its order, with its own arguments, and each is
/// answered in the log by exactly one result, under its id, in the same order;
/// nothing else goes to the log meanwhile. This is of a turn that comes to its next
/// round: one that is stopped, or that runs a call too often, ends instead.
pub proof fn every_call_is_answered_before_the_next_round(t: TurnV, steps: Seq<StepV>)
    requires
        t.phase is Closed,
        steps.len() > 1,
        turn::is_settled(steps[0].0),
        uses(t.segs).len() > 0,
        forall|j: int|
            0 < j < steps.len() ==> running_calls((#[trigger] after(t, steps.take(j))).phase),
        after(t, steps).phase is Top,
        tools_answer_when_asked(t, steps),
    ensures
        ({
            let due = uses(t.segs);
            let log = after(t, steps.take(1)).session.blocks;
            let end = after(t, steps).session.blocks;
            &&& invoked(t, steps) == due.map_values(|c: CallV| (c.name, c.arguments))
            &&& results(steps).len() == due.len()
            &&& end.len() == log.len() + due.len()
            &&& end.take(log.len() as int) == log
            &&& forall|k: int|
                0 <= k < due.len() ==> answers(
                    #[trigger] end[log.len() + k],
                    due[k],
                    results(steps)[k],
                    t.session.agent_version_id,
                )
        }),
{
    let due = uses(t.segs);
    let log = after(t, steps.take(1)).session.blocks;
    assert(steps.take(steps.len() as int) =~= steps);
    lemma_calls_all(t, steps, steps.len() as int);
    assert(invoked(t, steps) =~= due.map_values(|c: CallV| (c.name, c.arguments)));
}

proof fn lemma_calls_all(t: TurnV, steps: Seq<StepV>, i: int)
    requires
        t.phase is Closed,
        1 <= i <= steps.len(),
        turn::is_settled(steps[0].0),
        uses(t.segs).len() > 0,
        forall|j: int|
            0 < j < steps.len() ==> running_calls((#[trigger] after(t, steps.take(j))).phase),
        running_calls(after(t, steps.take(i)).phase) || after(t, steps.take(i)).phase is Top,
        tools_answer_when_asked(t, steps),
        steps.len() > 1,
    ensures
        calls_so_far(
            t,
            uses(t.segs),
            after(t, steps.take(1)).session.blocks,
            steps.take(i),
        ),
    decreases i,
{
    let due = uses(t.segs);
    let log = after(t, steps.take(1)).session.blocks;
    let now = steps.take(i);
    if i == 1 {
        reveal(after);
        let s = steps.take(1);
        assert(s.drop_last() =~= seq![]);
        assert(s.last() == steps[0]);
        assert(after(t, s.drop_last()) == t);
        lemma_calls(t.segs);
        assert(invoked(t, s.drop_last()) =~= seq![]);
        assert(results(s.drop_last()) =~= seq![]);
        assert(invoked(t, s).len() == 0);
        assert(results(s).len() == 0);
        assert(log.take(log.len() as int) =~= log);
        assert(running_calls(after(t, steps.take(1)).phase));
    } else {
        lemma_calls_all(t, steps, i - 1);
        assert(now.drop_last() =~= steps.take(i - 1));
        assert(now.last() == steps[i - 1]);
        assert(running_calls(after(t, steps.take(i - 1)).phase));
        lemma_calls_go_on(t, due, log, now);
    }
}

// ---- the end ----

/// A round more follows only where calls were made, and no more than ten rounds in
/// all; a turn that is told to stop before a call does not run it.
pub proof fn rounds_go_on_while_tools_are_called(t: TurnV, now: u64)
    requires
        t.phase is ResultTold,
        t.calls.len() == 0,
    ensures
        ({
            let n = turn::stepped(t, AnswerV::Done, now);
            &&& n.session == t.session
            &&& if t.round + 1 < 10 {
                n.phase is Top && n.round == t.round + 1
            } else {
                n.phase is End
            }
        }),
{
}

/// A failure of the model is told with its reason, and its stream is closed, and the
/// turn is over.
pub proof fn failures_are_told(t: TurnV, handle: u64, why: LlmErrorV, now: u64)
    requires
        t.phase == (PhaseV::Next { handle }),
        !(why is Cancelled),
    ensures
        ({
            let n = turn::stepped(t, AnswerV::Next(NextV::Failed(why)), now);
            let m = turn::stepped(n, AnswerV::Done, now);
            &&& turn::question(n) matches QuestionV::Emit { kind, data } && kind == "error"@ && (
            why matches LlmErrorV::Internal(said) ==> data == said)
            &&& turn::question(m) == QuestionV::StreamClose(handle)
            &&& turn::stepped(m, AnswerV::Done, now).phase is End
        }),
{
}

/// A summary that fails is dropped: the log is whole again, and what was said of older
/// messages stays as it was.
pub proof fn a_failed_summary_is_dropped(
    t: TurnV,
    handle: u64,
    old_blocks: Seq<BlockV>,
    part: Seq<char>,
    why: LlmErrorV,
    now: u64,
)
    requires
        t.phase == (PhaseV::SumNext { handle, old_blocks, summary: part }),
    ensures
        ({
            let n = turn::stepped(t, AnswerV::Next(NextV::Failed(why)), now);
            let m = turn::stepped(n, AnswerV::Done, now);
            &&& turn::question(n) == QuestionV::StreamClose(handle)
            &&& m.session.summary == t.session.summary
            &&& t.only_compact ==> m.failed && m.session.blocks == old_blocks + t.session.blocks
            &&& !t.only_compact && old_blocks.len() + t.session.blocks.len()
                <= t.session.max_history ==> m.session.blocks == old_blocks + t.session.blocks
            &&& !t.only_compact ==> m.phase is Tools
        }),
{
}

/// A compaction tells how many messages it has summarized and how many it keeps.
pub proof fn a_compaction_tells_what_it_did(
    t: TurnV,
    handle: u64,
    old_blocks: Seq<BlockV>,
    summary: Seq<char>,
    now: u64,
)
    requires
        t.phase == (PhaseV::SumClosed { handle, old_blocks, summary: Some(summary) }),
    ensures
        turn::question(turn::stepped(t, AnswerV::Done, now)) == (QuestionV::Emit {
            kind: "status"@,
            data: "compacted: "@ + text::decimal(old_blocks.len() as int)
                + " messages summarized, "@ + text::decimal(t.session.max_history as int)
                + " kept"@,
        }),
{
}

proof fn lemma_keys_differ(c: CallV, d: CallV)
    requires
        !c.name.contains('|'),
        !d.name.contains('|'),
        turn::call_key(c) == turn::call_key(d),
    ensures
        c.name == d.name,
        c.arguments == d.arguments,
{
    reveal_strlit("|");
    let k = turn::call_key(c);
    let a = c.name.len() as int;
    let b = d.name.len() as int;
    assert(k[a] == '|');
    assert(turn::call_key(d)[b] == '|');
    if a < b {
        assert(turn::call_key(d)[a] == d.name[a]);
        assert(d.name.contains(d.name[a]));
    }
    if b < a {
        assert(k[b] == c.name[b]);
        assert(c.name.contains(c.name[b]));
    }
    assert(k.take(a) =~= c.name);
    assert(turn::call_key(d).take(a) =~= d.name);
    assert(k.skip(a + 1) =~= c.arguments);
    assert(turn::call_key(d).skip(a + 1) =~= d.arguments);
}

/// A call counts as repeated only where the same tool is called with the same arguments:
/// running one leaves the count of every other as it was.
pub proof fn only_the_same_call_is_repeated(t: TurnV, d: CallV)
    requires
        t.calls.len() > 0,
        !t.calls[0].name.contains('|'),
        !d.name.contains('|'),
        turn::times(t.repeats, t.calls[0]) < MAX_TOOL_REPEATS,
    ensures
        ({
            let n = turn::next_call(t);
            let c = t.calls[0];
            &&& c.name == d.name && c.arguments == d.arguments ==> turn::times(n.repeats, d)
                == turn::times(t.repeats, d) + 1
            &&& c.name != d.name || c.arguments != d.arguments ==> turn::times(n.repeats, d)
                == turn::times(t.repeats, d)
        }),
{
    if turn::call_key(t.calls[0]) == turn::call_key(d) {
        lemma_keys_differ(t.calls[0], d);
    }
}

/// A request that the model refuses is told with its reason, and the turn is over.
pub proof fn refusals_are_told(t: TurnV, why: LlmErrorV, now: u64)
    requires
        t.phase is Starting,
    ensures
        ({
            let n = turn::stepped(t, AnswerV::Opened(Err(why)), now);
            &&& turn::question(n) == (QuestionV::Emit {
                kind: "error"@,
                data: payload::explanation(why),
            })
            &&& n.session == t.session
            &&& turn::stepped(n, AnswerV::Done, now).phase is End
        }),
{
}

/// A session that is reset has nothing said in it, and is else as it was.
pub proof fn a_reset_session_forgets_what_was_said(s: SessionV)
    ensures
        session::forgotten(s).blocks.len() == 0,
        session::forgotten(s) == (SessionV { blocks: seq![], ..s }),
        chat::chat(session::forgotten(s).blocks).len() == 0,
{
}

/// The tokens that a stream reports are added to those of the turn, and its input is
/// what the next decision to compact goes by.
pub proof fn tokens_are_counted(t: TurnV, handle: u64, u: Usage, now: u64)
    requires
        t.phase == (PhaseV::Usage { handle }),
        t.session.turn_usage.input + u.input_tokens <= u64::MAX,
        t.session.turn_usage.output + u.output_tokens <= u64::MAX,
        t.session.turn_usage.cache_read + u.cache_read_tokens <= u64::MAX,
        t.session.turn_usage.cache_creation + u.cache_creation_tokens <= u64::MAX,
    ensures
        ({
            let n = turn::stepped(t, AnswerV::Usage(Some(u)), now);
            let a = t.session.turn_usage;
            let b = n.session.turn_usage;
            &&& b.input == a.input + u.input_tokens
            &&& b.output == a.output + u.output_tokens
            &&& b.cache_read == a.cache_read + u.cache_read_tokens
            &&& b.cache_creation == a.cache_creation + u.cache_creation_tokens
            &&& n.session.last_input_tokens == u.input_tokens
            &&& n.session.blocks == t.session.blocks
            &&& turn::question(n) == QuestionV::StreamClose(handle)
            &&& turn::stepped(t, AnswerV::Usage(None), now).session == t.session
        }),
{
}

/// A turn opens with what the user said behind the log, and none of the turn's
/// tokens counted; it starts by asking whether to stop.
pub proof fn a_turn_opens_with_the_users_words(s: SessionV, said: Seq<char>, now: u64)
    ensures
        ({
            let o = session::opened(s, said, now);
            let b = o.blocks.last();
            &&& o.blocks.drop_last() == s.blocks
            &&& b.kind == "user"@ && b.text == Some(said) && b.created_at_ms == now
                && b.agent_version_id == s.agent_version_id
            &&& o.turn_usage.input == 0 && o.turn_usage.output == 0
            &&& o.turn_usage.cache_read == 0 && o.turn_usage.cache_creation == 0
            &&& o.summary == s.summary && o.total_usage == s.total_usage
            &&& turn::turn_of(o).session == o
            &&& turn::question(turn::turn_of(o)) == QuestionV::Cancelled
            &&& turn::turn_of(o).round == 0
        }),
{
    assert(session::opened(s, said, now).blocks.drop_last() =~= s.blocks);
}

/// At its end a turn's tokens count towards the session's, and its log is the log
/// but for the moment at which the user's message ended.
pub proof fn a_turn_counts_towards_its_session(s: SessionV, at: u64)
    requires
        s.turn_usage.input <= u32::MAX,
        s.turn_usage.output <= u32::MAX,
        s.total_usage.input + s.turn_usage.input <= u64::MAX,
        s.total_usage.output + s.turn_usage.output <= u64::MAX,
    ensures
        ({
            let c = session::concluded(s, at);
            &&& c.total_usage.input == s.total_usage.input + s.turn_usage.input
            &&& c.total_usage.output == s.total_usage.output + s.turn_usage.output
            &&& c.blocks.len() == s.blocks.len()
            &&& c.summary == s.summary && c.turn_usage == s.turn_usage
            &&& forall|i: int|
                0 <= i < s.blocks.len() ==> (#[trigger] c.blocks[i]).text == s.blocks[i].text
                    && c.blocks[i].kind == s.blocks[i].kind
        }),
    decreases s.blocks.len(),
{
    lemma_stamped(s.blocks, at);
}

proof fn lemma_stamped(b: Seq<BlockV>, at: u64)
    ensures
        session::stamped(b, at).len() == b.len(),
        forall|i: int|
            0 <= i < b.len() ==> (#[trigger] session::stamped(b, at)[i]).text == b[i].text
                && session::stamped(b, at)[i].kind == b[i].kind,
    decreases b.len(),
{
    if b.len() > 0 {
        lemma_stamped(b.drop_last(), at);
    }
}

/// A new session has what its agent says, and nothing said yet; its window holds at
/// least one block.
pub proof fn a_session_begins_as_its_agent_says(id: Seq<char>, c: session::SessionConfig)
    ensures
        ({
            let s = session::fresh(id, c);
            &&& s.id == id
            &&& s.agent_version_id == c.agent_version_id@
            &&& s.system_prompt == c.system_prompt@
            &&& s.model == c.model@
            &&& s.blocks.len() == 0
            &&& s.summary is None
            &&& s.compact_at == c.compact_at
            &&& s.auto_compact == c.auto_compact
            &&& s.max_history == (if c.max_history == 0 {
                1
            } else {
                c.max_history as nat
            })
            &&& s.last_input_tokens == 0
            &&& s.total_usage.input == 0 && s.total_usage.output == 0
        }),
{
}

/// A restored session goes on under its agent as it is now, with the log, the summary
/// and the tokens that were kept, and compacts by the input that was counted.
pub proof fn a_restored_session_goes_on(
    id: Seq<char>,
    c: session::SessionConfig,
    kept: session::AgentStateV,
)
    ensures
        ({
            let s = session::restored(id, c, kept);
            &&& s.id == id && s.model == c.model@ && s.system_prompt == c.system_prompt@
            &&& s.blocks == kept.blocks
            &&& s.summary == kept.summary
            &&& s.total_usage.input == kept.usage.input_tokens
            &&& s.total_usage.output == kept.usage.output_tokens
            &&& s.total_usage.cache_read == kept.usage.cache_read_tokens
            &&& s.total_usage.cache_creation == kept.usage.cache_creation_tokens
            &&& s.last_input_tokens == kept.usage.input_tokens
        }),
{
}

/// The newest message of a user ends with the turn, and no other block does.
pub proof fn the_newest_message_ends_with_the_turn(b: Seq<BlockV>, k: int, at: u64)
    requires
        0 <= k < b.len(),
        b[k].kind == "user"@,
        forall|i: int| k < i < b.len() ==> (#[trigger] b[i]).kind != "user"@,
    ensures
        session::stamped(b, at) == b.update(k, BlockV { finished_at_ms: at, ..b[k] }),
    decreases b.len(),
{
    let n = b.len() - 1;
    if k == n {
        assert(b.drop_last().push(BlockV { finished_at_ms: at, ..b.last() }) =~= b.update(
            k,
            BlockV { finished_at_ms: at, ..b[k] },
        ));
    } else {
        let f = b.drop_last();
        assert forall|i: int| k < i < f.len() implies (#[trigger] f[i]).kind != "user"@ by {
            assert(b[i].kind != "user"@);
        }
        assert(b[n].kind != "user"@);
        the_newest_message_ends_with_the_turn(f, k, at);
        assert(session::stamped(b, at) =~= b.update(k, BlockV { finished_at_ms: at, ..b[k] }));
    }
}

/// The tokens that are told are those that were counted, as far as 32 bits hold them.
pub proof fn counted_tokens_are_told(t: block::TurnUsage)
    ensures
        t.input <= u32::MAX ==> block::total(t).input_tokens == t.input,
        t.output <= u32::MAX ==> block::total(t).output_tokens == t.output,
        t.cache_read <= u32::MAX ==> block::total(t).cache_read_tokens == t.cache_read,
        t.cache_creation <= u32::MAX ==> block::total(t).cache_creation_tokens
            == t.cache_creation,
        t.input > u32::MAX ==> block::total(t).input_tokens == u32::MAX,
        t.output > u32::MAX ==> block::total(t).output_tokens == u32::MAX,
{
}

} // verus!
