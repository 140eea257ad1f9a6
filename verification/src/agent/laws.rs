//! What holds of every turn.
use crate::agent::session::{self, SessionV};
use crate::agent::turn::{self, AnswerV, PhaseV, QuestionV, TurnV};
use crate::host::drivers::CallV;
use crate::host::state::NextV;
use vstd::prelude::*;

verus! {

/// The stream that a phase holds open.
pub open spec fn stream(p: PhaseV) -> Option<u64> {
    match p {
        PhaseV::SumNext { handle, .. } => Some(handle),
        PhaseV::SumUsage { handle, .. } => Some(handle),
        PhaseV::SumClosed { handle, .. } => Some(handle),
        PhaseV::Poll { handle } => Some(handle),
        PhaseV::Next { handle } => Some(handle),
        PhaseV::Text { handle, .. } => Some(handle),
        PhaseV::Thought { handle, .. } => Some(handle),
        PhaseV::UseTold { handle, .. } => Some(handle),
        PhaseV::ArgsTold { handle, .. } => Some(handle),
        PhaseV::FailTold { handle, .. } => handle,
        PhaseV::Usage { handle } => Some(handle),
        PhaseV::Closed { handle } => Some(handle),
        PhaseV::LastClose { handle } => Some(handle),
        _ => None,
    }
}

/// Every stream that is opened is closed: a turn keeps hold of its stream until
/// it has asked for it to be closed, and opens no other meanwhile.
pub proof fn streams_are_closed(t: TurnV, a: AnswerV, now: u64)
    requires
        stream(t.phase) is Some,
    ensures
        ({
            let next = turn::stepped(t, a, now);
            ||| stream(next.phase) == stream(t.phase)
            ||| turn::question(t) == QuestionV::StreamClose(stream(t.phase)->0)
        }),
{
}

/// A turn that is over asks nothing and never changes.
pub proof fn the_end_is_stable(t: TurnV, a: AnswerV, now: u64)
    requires
        t.phase is End,
    ensures
        turn::stepped(t, a, now) == t,
        turn::question(t) == QuestionV::Nothing,
{
}

/// A turn that is told to stop asks no more of the model and runs no more tools:
/// it ends, once its stream is closed.
pub proof fn stopping_ends_the_turn(t: TurnV, now: u64)
    requires
        turn::question(t) == QuestionV::Cancelled,
    ensures
        turn::stepped(t, AnswerV::Flag(true), now).phase is End || turn::stepped(
            t,
            AnswerV::Flag(true),
            now,
        ).phase is LastClose,
        turn::stepped(t, AnswerV::Flag(true), now).session == t.session,
{
}

/// The log only grows, except where the oldest blocks are summarized.
pub proof fn the_log_only_grows(t: TurnV, a: AnswerV, now: u64)
    requires
        !(t.phase is Top),
        turn::aside(t.phase).len() == 0,
        !(t.phase is SumStart),
        !(t.phase is SumClosed),
    ensures
        t.session.blocks.is_prefix_of(turn::stepped(t, a, now).session.blocks),
{
    assert(t.session.blocks.is_prefix_of(t.session.blocks));
}

/// Summarizing loses nothing but what the summary stands for: the blocks taken
/// out are the oldest ones, and with those left they are the whole log.
pub proof fn summarizing_takes_the_oldest(t: TurnV, now: u64)
    requires
        t.phase is Top,
    ensures
        ({
            let next = turn::stepped(t, AnswerV::Flag(false), now);
            &&& turn::aside(next.phase) + next.session.blocks == t.session.blocks
            &&& turn::aside(next.phase).len() > 0 ==> next.session.blocks.len()
                == t.session.max_history
        }),
{
    let next = turn::stepped(t, AnswerV::Flag(false), now);
    assert(turn::aside(next.phase) + next.session.blocks =~= t.session.blocks);
}

/// Where no summary comes the blocks are back. A turn that goes on drops only
/// those too old for the window.
pub proof fn a_failed_summary_restores_the_log(t: TurnV, a: AnswerV, now: u64)
    requires
        match (t.phase, a) {
            (PhaseV::SumStart { .. }, AnswerV::Opened(Err(_))) => true,
            (PhaseV::SumClosed { summary: None, .. }, AnswerV::Done) => true,
            _ => false,
        },
    ensures
        ({
            let next = turn::stepped(t, a, now);
            let whole = SessionV {
                blocks: turn::aside(t.phase) + t.session.blocks,
                ..t.session
            };
            if t.only_compact {
                next.session == whole && next.phase is End && next.failed
            } else {
                next.session == session::trimmed(whole) && next.phase is Tools
            }
        }),
{
}

/// No call has run too often, and one that is about to run is counted.
pub open spec fn bounded(t: TurnV) -> bool {
    &&& t.round < turn::MAX_ITERATIONS
    &&& forall|k: Seq<char>|
        t.repeats.dom().contains(k) ==> #[trigger] t.repeats[k] <= turn::MAX_TOOL_REPEATS
    &&& match t.phase {
        PhaseV::Gate { call } => turn::times(t.repeats, call) >= 1,
        PhaseV::Running { call, .. } => turn::times(t.repeats, call) >= 1,
        _ => true,
    }
}

/// A turn asks the model a bounded number of times and runs the same call a
/// bounded number of times.
pub proof fn a_turn_is_bounded(s: SessionV, t: TurnV, a: AnswerV, now: u64)
    ensures
        bounded(turn::turn_of(s)),
        bounded(t) ==> bounded(turn::stepped(t, a, now)),
{
    if bounded(t) {
        let next = turn::stepped(t, a, now);
        match t.phase {
            PhaseV::Closed { .. } => {
                if turn::is_settled(a) {
                    let u = turn::committed_log(t, now);
                    lemma_next_call(u);
                }
            },
            PhaseV::ResultTold { .. } => {
                lemma_next_call(t);
            },
            _ => {
                assert(next.repeats == t.repeats);
                assert(next.round == t.round);
            },
        }
    }
}

proof fn lemma_next_call(t: TurnV)
    requires
        t.round < turn::MAX_ITERATIONS,
        forall|k: Seq<char>|
            t.repeats.dom().contains(k) ==> #[trigger] t.repeats[k] <= turn::MAX_TOOL_REPEATS,
    ensures
        bounded(turn::next_call(t)),
{
    let n = turn::next_call(t);
    assert forall|k: Seq<char>| n.repeats.dom().contains(k) implies #[trigger] n.repeats[k]
        <= turn::MAX_TOOL_REPEATS by {
        if t.calls.len() > 0 && k != turn::call_key(t.calls[0]) {
            assert(t.repeats.dom().contains(k));
        }
    }
}

/// One more run of a call is counted; the others keep their count.
pub proof fn runs_are_counted(t: TurnV, other: CallV)
    requires
        t.calls.len() > 0,
        turn::times(t.repeats, t.calls[0]) < turn::MAX_TOOL_REPEATS,
    ensures
        turn::next_call(t).phase == (PhaseV::Gate { call: t.calls[0] }),
        turn::times(turn::next_call(t).repeats, t.calls[0]) == turn::times(t.repeats, t.calls[0])
            + 1,
        turn::call_key(other) != turn::call_key(t.calls[0]) ==> turn::times(
            turn::next_call(t).repeats,
            other,
        ) == turn::times(t.repeats, other),
{
}

/// A call that has run as often as it may ends the turn instead of running again.
pub proof fn a_looping_call_ends_the_turn(t: TurnV, now: u64)
    requires
        t.calls.len() > 0,
        turn::times(t.repeats, t.calls[0]) >= turn::MAX_TOOL_REPEATS,
    ensures
        turn::next_call(t).phase is Guard,
        turn::stepped(turn::next_call(t), AnswerV::Done, now).phase is End,
{
}

/// Nothing of an answer that failed or was cut short goes to the log.
pub proof fn a_broken_answer_leaves_no_trace(t: TurnV, a: AnswerV, now: u64)
    requires
        match (t.phase, a) {
            (PhaseV::Next { .. }, AnswerV::Next(NextV::Failed(_))) => true,
            (PhaseV::Text { .. }, AnswerV::Lost) => true,
            (PhaseV::Poll { .. }, AnswerV::Flag(true)) => true,
            (PhaseV::FailTold { .. }, _) => true,
            (PhaseV::LastClose { .. }, _) => true,
            _ => false,
        },
    ensures
        turn::stepped(t, a, now).session == t.session,
{
}

} // verus!
