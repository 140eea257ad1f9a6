//! What the parts of a script do from their start to their end, whatever the
//! commands in them do and whatever the files and programs answer.
use crate::shell::ast::{CmdV, ElifV, SimpleV, WordV};
use crate::shell::laws;
use crate::shell::machine;
use crate::shell::machine::{CtlV, EventV, FrameV, GivenV, MachineV};
use crate::shell::state::{InV, IoV, OutV, SinksV, StateV};
use crate::shell::vars;
use crate::shell::vars::Pairs;
use crate::shell::words;
use crate::shell::words::FieldsV;
use vstd::prelude::*;

verus! {

// ---- the end of what is under way ----

/// What was under way above the first `h` frames has ended: its value is about to
/// be handed to the frame below, and no write is left to be done.
pub open spec fn ended(m: MachineV, h: int) -> bool {
    &&& m.stack.len() == h
    &&& m.ctl is Given
    &&& m.sinks.writes.len() == 0
}

/// The machine after the first `j` answers.
#[verifier::opaque]
pub open spec fn at(m: MachineV, es: Seq<EventV>, j: int) -> MachineV {
    laws::after(m, es.take(j))
}

/// What `m` is about to do above its first `h` frames ends with the `i`-th answer,
/// and not before.
pub open spec fn ends_after(m: MachineV, es: Seq<EventV>, h: int, i: int) -> bool {
    &&& 0 <= i <= es.len()
    &&& ended(at(m, es, i), h)
    &&& forall|j: int| 0 <= j < i ==> !ended(#[trigger] at(m, es, j), h)
}

/// The status that a machine hands on.
pub open spec fn status(m: MachineV) -> i32 {
    match m.ctl {
        CtlV::Given(GivenV::Status(s)) => s,
        _ => 0,
    }
}

/// The fields that a machine hands on.
pub open spec fn fields(m: MachineV) -> Seq<Seq<char>> {
    match m.ctl {
        CtlV::Given(GivenV::Fields(f)) => f,
        _ => seq![],
    }
}

/// The next machine, with an answer.
#[verifier::opaque]
pub open spec fn next(m: MachineV, e: EventV) -> MachineV {
    machine::stepped(m, e).0
}

proof fn lemma_at_next(m: MachineV, es: Seq<EventV>, j: int)
    requires
        0 <= j < es.len(),
    ensures
        at(m, es, j + 1) == next(at(m, es, j), es[j]),
{
    reveal(at);
    reveal(next);
    assert(es.take(j + 1).drop_last() =~= es.take(j));
    assert(es.take(j + 1).last() == es[j]);
}

proof fn lemma_at_start(m: MachineV, es: Seq<EventV>)
    ensures
        at(m, es, 0) == m,
{
    reveal(at);
    assert(es.take(0) =~= seq![]);
}

/// A step that hands nothing to the frame at `h - 1` leaves the first `h` frames.
proof fn lemma_step_keeps(m: MachineV, e: EventV, h: int)
    requires
        0 <= h <= m.stack.len(),
        !ended(m, h),
    ensures
        next(m, e).stack.len() >= h,
        next(m, e).stack.take(h) == m.stack.take(h),
{
    reveal(next);
    let n = next(m, e);
    if m.sinks.writes.len() > 0 {
    } else {
        assert(n.stack.take(h) =~= m.stack.take(h));
    }
}

/// Until what is under way has ended, the frames below stay.
proof fn lemma_frames_stay(m: MachineV, es: Seq<EventV>, h: int, i: int)
    requires
        0 <= h <= m.stack.len(),
        0 <= i <= es.len(),
        forall|j: int| 0 <= j < i ==> !ended(#[trigger] at(m, es, j), h),
    ensures
        at(m, es, i).stack.len() >= h,
        at(m, es, i).stack.take(h) == m.stack.take(h),
    decreases i,
{
    if i == 0 {
        lemma_at_start(m, es);
    } else {
        lemma_frames_stay(m, es, h, i - 1);
        lemma_at_next(m, es, i - 1);
        assert(!ended(at(m, es, i - 1), h));
        lemma_step_keeps(at(m, es, i - 1), es[i - 1], h);
    }
}

/// Where the stack comes down below `h`, what is under way there has ended before:
/// the time at which it first does, from `a` on.
proof fn first_end(m: MachineV, es: Seq<EventV>, h: int, a: int) -> (z: int)
    requires
        0 <= a <= es.len(),
        at(m, es, a).stack.len() >= h >= 0,
        at(m, es, es.len() as int).stack.len() < h,
    ensures
        a <= z < es.len(),
        ended(at(m, es, z), h),
        forall|j: int| a <= j < z ==> !ended(#[trigger] at(m, es, j), h),
        at(m, es, z).stack == at(m, es, a).stack.take(h),
    decreases es.len() - a,
{
    if ended(at(m, es, a), h) {
        assert(at(m, es, a).stack.take(h) =~= at(m, es, a).stack);
        a
    } else {
        assert(a < es.len());
        lemma_at_next(m, es, a);
        lemma_step_keeps(at(m, es, a), es[a], h);
        let z = first_end(m, es, h, a + 1);
        z
    }
}

// ---- buffers ----

/// The buffer that a frame closes.
pub open spec fn buffer_of(f: FrameV) -> Option<int> {
    match f {
        FrameV::Pipeline { buf, .. } => buf,
        FrameV::Sub { buf, .. } => Some(buf),
        _ => None,
    }
}

/// Buffers are opened and closed like brackets: each frame closes a buffer that is
/// open, behind those of the frames below.
pub open spec fn nested(m: MachineV) -> bool {
    &&& forall|i: int|
        0 <= i < m.stack.len() ==> (buffer_of(#[trigger] m.stack[i]) matches Some(b) ==> 0 <= b
            < m.sinks.buffers.len())
    &&& forall|i: int, j: int|
        0 <= i < j < m.stack.len() ==> (buffer_of(#[trigger] m.stack[i]) matches Some(b) ==> (
        buffer_of(#[trigger] m.stack[j]) matches Some(c) ==> b < c))
}

/// The frames that a step puts on close buffers that it opens, one at most.
spec fn opens_its_own(push: Seq<FrameV>, before: int, after: int) -> bool {
    &&& before <= after
    &&& forall|i: int|
        0 <= i < push.len() ==> (buffer_of(#[trigger] push[i]) matches Some(b) ==> before <= b
            < after)
    &&& forall|i: int, j: int|
        0 <= i < j < push.len() ==> buffer_of(#[trigger] push[i]) is None || buffer_of(
            #[trigger] push[j],
        ) is None
}

proof fn lemma_resume_buffers(state: StateV, sinks: SinksV, f: FrameV, v: GivenV)
    requires
        !(f is Pipeline),
        !(f is Sub),
    ensures
        ({
            let r = machine::resume(state, sinks, f, v);
            &&& r.sinks.buffers.len() == sinks.buffers.len()
            &&& opens_its_own(r.push, sinks.buffers.len() as int, sinks.buffers.len() as int)
        }),
{
}

proof fn lemma_expand_buffers(state: StateV, sinks: SinksV, parts: WordV, acc: FieldsV, join: bool)
    ensures
        ({
            let r = machine::expand(state, sinks, parts, acc, join);
            opens_its_own(r.push, sinks.buffers.len() as int, r.sinks.buffers.len() as int)
        }),
{
}

proof fn lemma_dispatch_buffers(
    state: StateV,
    sinks: SinksV,
    argv: Seq<Seq<char>>,
    io: IoV,
    local: Pairs,
)
    ensures
        ({
            let r = machine::dispatch(state, sinks, argv, io, local);
            opens_its_own(r.push, sinks.buffers.len() as int, r.sinks.buffers.len() as int)
        }),
{
}

proof fn lemma_transition_buffers(state: StateV, sinks: SinksV, ctl: CtlV, e: EventV)
    requires
        !(ctl is Given),
    ensures
        ({
            let r = machine::transition(state, sinks, ctl, None, e);
            opens_its_own(r.push, sinks.buffers.len() as int, r.sinks.buffers.len() as int)
        }),
{
    match ctl {
        CtlV::Expand { rest, acc, join } => {
            lemma_expand_buffers(state, sinks, rest, acc, join);
        },
        CtlV::Dispatch { argv, io, local } => {
            lemma_dispatch_buffers(state, sinks, argv, io, local);
        },
        _ => {},
    }
}

/// A script starts with its buffers nested, and every step keeps them so.
pub proof fn buffers_stay_nested(m: MachineV, e: EventV)
    requires
        nested(m),
    ensures
        nested(next(m, e)),
{
    reveal(next);
    let n = next(m, e);
    if m.sinks.writes.len() == 0 {
        if machine::pops(m) {
            let f = m.stack.last();
            let below = m.stack.drop_last();
            let v = m.ctl->Given_0;
            let r = machine::resume(m.state, m.sinks, f, v);
            assert(n.stack == below + r.push);
            assert(n.sinks == r.sinks);
            assert(n.stack.take(below.len() as int) =~= below);
            assert(below =~= m.stack.take(below.len() as int));
            if f is Pipeline || f is Sub {
                assert(m.stack[m.stack.len() - 1] == f);
                assert(buffer_of(m.stack[m.stack.len() - 1]) == buffer_of(f));
                lemma_pushes_one(m, n, below);
            } else {
                lemma_resume_buffers(m.state, m.sinks, f, v);
                assert forall|i: int| below.len() <= i < n.stack.len() implies buffer_of(
                    #[trigger] n.stack[i],
                ) is None by {
                    assert(n.stack[i] == r.push[i - below.len()]);
                }
                lemma_no_new_buffer(m, n, below);
            }
        } else if m.ctl is Given {
            assert(n.stack =~= m.stack);
        } else {
            let r = machine::transition(m.state, m.sinks, m.ctl, None, e);
            lemma_transition_buffers(m.state, m.sinks, m.ctl, e);
            assert(n.stack == m.stack + r.push);
            assert(n.stack.take(m.stack.len() as int) =~= m.stack);
            assert forall|i: int| m.stack.len() <= i < n.stack.len() implies #[trigger] n.stack[i]
                == r.push[i - m.stack.len()] by {}
            lemma_pushes_any(m, n, m.stack);
        }
    }
}

proof fn lemma_no_new_buffer(m: MachineV, n: MachineV, below: Seq<FrameV>)
    requires
        nested(m),
        below.len() <= m.stack.len(),
        below == m.stack.take(below.len() as int),
        n.stack.len() >= below.len(),
        n.stack.take(below.len() as int) == below,
        forall|i: int|
            below.len() <= i < n.stack.len() ==> buffer_of(#[trigger] n.stack[i]) is None,
        n.sinks.buffers.len() == m.sinks.buffers.len(),
    ensures
        nested(n),
{
    assert forall|i: int| 0 <= i < below.len() implies n.stack[i] == m.stack[i] by {
        assert(n.stack.take(below.len() as int)[i] == below[i]);
        assert(m.stack.take(below.len() as int)[i] == m.stack[i]);
    }
}

/// New frames close buffers from `n` on, the old ones keep theirs.
proof fn lemma_pushes_any(m: MachineV, n: MachineV, below: Seq<FrameV>)
    requires
        nested(m),
        below == m.stack,
        n.stack.len() >= below.len(),
        n.stack.take(below.len() as int) == below,
        n.sinks.buffers.len() >= m.sinks.buffers.len(),
        forall|i: int|
            below.len() <= i < n.stack.len() ==> (buffer_of(#[trigger] n.stack[i]) matches Some(b)
                ==> m.sinks.buffers.len() <= b < n.sinks.buffers.len()),
        forall|i: int, j: int|
            below.len() <= i < j < n.stack.len() ==> buffer_of(#[trigger] n.stack[i]) is None
                || buffer_of(#[trigger] n.stack[j]) is None,
    ensures
        nested(n),
{
    assert forall|i: int| 0 <= i < below.len() implies n.stack[i] == m.stack[i] by {
        assert(n.stack.take(below.len() as int)[i] == below[i]);
    }
}

/// A frame that closes a buffer is taken off, and at most one that opens it anew is
/// put on.
proof fn lemma_pushes_one(m: MachineV, n: MachineV, below: Seq<FrameV>)
    requires
        nested(m),
        m.stack.len() > 0,
        below == m.stack.drop_last(),
        below.len() <= n.stack.len() <= below.len() + 1,
        n.stack.take(below.len() as int) == below,
        match buffer_of(m.stack.last()) {
            Some(b) => n.sinks.buffers.len() >= b,
            None => n.sinks.buffers.len() >= m.sinks.buffers.len(),
        },
        n.stack.len() > below.len() ==> (buffer_of(n.stack.last()) matches Some(c) ==> c
            == n.sinks.buffers.len() - 1 && match buffer_of(m.stack.last()) {
            Some(b) => c >= b,
            None => c >= m.sinks.buffers.len(),
        }),
    ensures
        nested(n),
{
    let top = m.stack.len() - 1;
    assert forall|i: int| 0 <= i < below.len() implies n.stack[i] == m.stack[i] by {
        assert(n.stack.take(below.len() as int)[i] == below[i]);
    }
    assert(m.stack[top] == m.stack.last());
    assert forall|i: int| 0 <= i < n.stack.len() implies (buffer_of(
        #[trigger] n.stack[i],
    ) matches Some(b) ==> 0 <= b < n.sinks.buffers.len()) by {
        if i < below.len() {
            assert(buffer_of(m.stack[i]) == buffer_of(n.stack[i]));
        }
    }
    assert forall|i: int, j: int| 0 <= i < j < n.stack.len() implies (buffer_of(
        #[trigger] n.stack[i],
    ) matches Some(b) ==> (buffer_of(#[trigger] n.stack[j]) matches Some(c) ==> b < c)) by {
        assert(buffer_of(m.stack[i]) == buffer_of(n.stack[i]));
        if j < below.len() {
            assert(buffer_of(m.stack[j]) == buffer_of(n.stack[j]));
        } else {
            assert(buffer_of(m.stack[top]) == buffer_of(m.stack.last()));
        }
    }
}

proof fn lemma_nested_at(m: MachineV, es: Seq<EventV>, i: int)
    requires
        nested(m),
        0 <= i <= es.len(),
    ensures
        nested(at(m, es, i)),
    decreases i,
{
    if i == 0 {
        lemma_at_start(m, es);
    } else {
        lemma_nested_at(m, es, i - 1);
        lemma_at_next(m, es, i - 1);
        buffers_stay_nested(at(m, es, i - 1), es[i - 1]);
    }
}

// ---- pipelines ----

/// The machine at the start of a stage: its words are about to be expanded, with
/// `io`, above the frames `below` and the frame that waits for its status.
pub open spec fn starts_stage(m: MachineV, below: Seq<FrameV>, cmd: SimpleV, io: IoV) -> bool {
    &&& m.ctl == (CtlV::Words { cmd, argv: seq![], io })
    &&& m.stack.len() == below.len() + 1
    &&& m.stack.drop_last() == below
}

/// The status of a pipeline whose last stage gave `s`.
pub open spec fn pipeline_status(negated: bool, s: i32) -> i32 {
    if negated {
        if s == 0 {
            1
        } else {
            0
        }
    } else {
        s
    }
}

/// What a pipeline does with the status of a stage.
proof fn lemma_stage_ends(
    q: MachineV,
    e: EventV,
    below: Seq<FrameV>,
    negated: bool,
    rest: Seq<SimpleV>,
    io: IoV,
    buf: Option<int>,
)
    requires
        ended(q, below.len() as int + 1),
        q.stack == below.push(FrameV::Pipeline { negated, rest, io, buf }),
        buf matches Some(b) ==> 0 <= b < q.sinks.buffers.len(),
        rest.len() > 0 ==> buf is Some && q.state.exit_requested is None,
    ensures
        ({
            let n = next(q, e);
            let b = buf->0;
            if rest.len() == 0 {
                &&& n.stack == below
                &&& n.ctl == CtlV::Given(GivenV::Status(pipeline_status(negated, status(q))))
                &&& n.sinks.writes.len() == 0
            } else {
                &&& n.stack == below.push(
                    FrameV::Pipeline {
                        negated,
                        rest: rest.skip(1),
                        io,
                        buf: if rest.len() == 1 {
                            None
                        } else {
                            Some(b)
                        },
                    },
                )
                &&& n.ctl == (CtlV::Words {
                    cmd: rest[0],
                    argv: seq![],
                    io: IoV {
                        stdin: InV::Buffer(q.sinks.buffers[b]),
                        stdout: if rest.len() == 1 {
                            io.stdout
                        } else {
                            OutV::Buffer(b)
                        },
                        stderr: io.stderr,
                    },
                })
                &&& rest.len() > 1 ==> n.sinks.buffers.len() == b + 1 && n.sinks.buffers.last()
                    == Seq::<u8>::empty()
            }
        }),
{
    reveal(next);
    let n = next(q, e);
    assert(q.stack.drop_last() =~= below);
    assert(q.stack.last() == below.push(FrameV::Pipeline { negated, rest, io, buf }).last());
    if rest.len() == 0 {
        assert(n.stack =~= below);
    } else {
        assert(n.stack =~= below.push(n.stack.last()));
    }
}

/// What the command that starts in `p` has written to its standard output, a buffer,
/// once it has ended in `q`.
pub open spec fn output_of(p: MachineV, q: MachineV) -> Seq<u8> {
    match p.ctl {
        CtlV::Words { io, .. } => match io.stdout {
            OutV::Buffer(b) => q.sinks.buffers[b],
            _ => seq![],
        },
        _ => seq![],
    }
}

/// The time at which the `i`-th of the commands that start at `starts` ends: just
/// before the next one starts, or else before the end of all.
pub open spec fn end_of(es: Seq<EventV>, starts: Seq<int>, i: int) -> int {
    if i + 1 < starts.len() {
        starts[i + 1] - 1
    } else {
        es.len() - 1
    }
}

/// A command above `below` frames runs from the time `a` to the time `z`: it ends
/// at `z` and not before.
pub open spec fn runs_from(m: MachineV, es: Seq<EventV>, h: int, a: int, z: int) -> bool {
    &&& 0 < a <= z < es.len()
    &&& ended(at(m, es, z), h)
    &&& forall|j: int| a <= j < z ==> !ended(#[trigger] at(m, es, j), h)
}

/// Stage `k` runs, from its start to its end: it starts with its own words, with the
/// pipeline's standard error and, but for the last, with an empty buffer of its own
/// as its output. It reads what the pipeline reads where it is the first, and else
/// exactly what the stage before has written.
pub open spec fn stage_runs(
    m: MachineV,
    es: Seq<EventV>,
    stages: Seq<SimpleV>,
    io: IoV,
    starts: Seq<int>,
    k: int,
) -> bool {
    let p = at(m, es, starts[k]);
    let z = end_of(es, starts, k);
    &&& runs_from(m, es, m.stack.len() as int + 1, starts[k], z)
    &&& p.ctl is Words
    &&& starts_stage(p, m.stack, stages[k], p.ctl->Words_io)
    &&& p.ctl->Words_io.stderr == io.stderr
    &&& if k + 1 == stages.len() {
        p.ctl->Words_io.stdout == io.stdout
    } else {
        &&& p.sinks.buffers.len() > 0
        &&& p.sinks.buffers.last() == Seq::<u8>::empty()
        &&& p.ctl->Words_io.stdout == OutV::Buffer(p.sinks.buffers.len() - 1)
        &&& p.sinks.buffers.len() <= at(m, es, z).sinks.buffers.len()
    }
    &&& p.ctl->Words_io.stdin == if k == 0 {
        io.stdin
    } else {
        InV::Buffer(output_of(at(m, es, starts[k - 1]), at(m, es, starts[k] - 1)))
    }
}

/// The frame that waits for stage `k`, and the files of the stage.
spec fn stage_set_up(
    m: MachineV,
    p: MachineV,
    negated: bool,
    stages: Seq<SimpleV>,
    io: IoV,
    k: int,
    sio: IoV,
    buf: Option<int>,
) -> bool {
    &&& p.ctl == (CtlV::Words { cmd: stages[k], argv: seq![], io: sio })
    &&& p.stack == m.stack.push(
        FrameV::Pipeline { negated, rest: stages.skip(k + 1), io, buf },
    )
    &&& sio.stderr == io.stderr
    &&& if k + 1 == stages.len() {
        buf is None && sio.stdout == io.stdout
    } else {
        &&& buf == Some(p.sinks.buffers.len() - 1)
        &&& sio.stdout == OutV::Buffer(p.sinks.buffers.len() - 1)
        &&& p.sinks.buffers.len() > 0
        &&& p.sinks.buffers.last() == Seq::<u8>::empty()
    }
}

/// Given the starts of the stages before, the last of them the start of stage `k`:
/// the starts of all.
proof fn stages_from(
    m: MachineV,
    negated: bool,
    stages: Seq<SimpleV>,
    io: IoV,
    es: Seq<EventV>,
    had: Seq<int>,
    sio: IoV,
    buf: Option<int>,
) -> (starts: Seq<int>)
    requires
        nested(m),
        0 < had.len() <= stages.len(),
        0 < had.last() <= es.len(),
        stage_set_up(
            m,
            at(m, es, had.last()),
            negated,
            stages,
            io,
            had.len() - 1,
            sio,
            buf,
        ),
        sio.stdin == (if had.len() == 1 {
            io.stdin
        } else {
            InV::Buffer(
                output_of(at(m, es, had[had.len() - 2]), at(m, es, had.last() - 1)),
            )
        }),
        forall|k: int|
            0 <= k < had.len() - 1 ==> #[trigger] stage_runs(m, es, stages, io, had, k),
        ended(at(m, es, es.len() as int), m.stack.len() as int),
        forall|j: int| 0 <= j < es.len() ==> !ended(#[trigger] at(m, es, j), m.stack.len() as int),
        forall|j: int|
            0 <= j < es.len() && ended(#[trigger] at(m, es, j), m.stack.len() as int + 1)
                ==> at(m, es, j).state.exit_requested is None,
    ensures
        starts.len() == stages.len(),
        starts[0] == had[0],
        forall|k: int|
            0 <= k < stages.len() ==> #[trigger] stage_runs(m, es, stages, io, starts, k),
        at(m, es, es.len() as int).stack == m.stack,
        at(m, es, es.len() as int).ctl == CtlV::Given(
            GivenV::Status(pipeline_status(negated, status(at(m, es, es.len() - 1)))),
        ),
    decreases stages.len() - had.len(),
{
    let h = m.stack.len() as int;
    let k = had.len() - 1;
    let a = had.last();
    let p = at(m, es, a);
    let frame = FrameV::Pipeline { negated, rest: stages.skip(k + 1), io, buf };
    let z = first_end(m, es, h + 1, a);
    let q = at(m, es, z);
    assert(p.stack.take(h + 1) =~= p.stack);
    lemma_at_next(m, es, z);
    let n = at(m, es, z + 1);
    lemma_nested_at(m, es, z);
    assert(q.stack[h] == frame);
    assert(buffer_of(q.stack[h]) == buf);
    assert(p.stack.drop_last() =~= m.stack);
    lemma_stage_ends(q, es[z], m.stack, negated, stages.skip(k + 1), io, buf);
    if k + 1 == stages.len() {
        assert(ended(n, h));
        assert(z + 1 == es.len()) by {
            if z + 1 < es.len() {
                assert(!ended(at(m, es, z + 1), h));
            }
        }
        assert(end_of(es, had, k) == z);
        assert(stage_runs(m, es, stages, io, had, k));
        had
    } else {
        let rest = stages.skip(k + 1);
        assert(rest[0] == stages[k + 1]);
        assert(rest.skip(1) =~= stages.skip(k + 2));
        let b = buf->0;
        let more = had.push(z + 1);
        assert(end_of(es, more, k) == z);
        assert(z + 1 < es.len()) by {
            if z + 1 == es.len() {
                assert(n.stack.len() == h + 1);
            }
        }
        let sio2 = n.ctl->Words_io;
        let buf2 = if rest.len() == 1 {
            None
        } else {
            Some(b)
        };
        assert(more[k] == a && more[k + 1] == z + 1);
        assert(stage_runs(m, es, stages, io, more, k)) by {
            if k > 0 {
                assert(more[k - 1] == had[k - 1]);
            }
        }
        assert forall|i: int| 0 <= i < more.len() - 1 implies #[trigger] stage_runs(
            m,
            es,
            stages,
            io,
            more,
            i,
        ) by {
            if i < k {
                assert(stage_runs(m, es, stages, io, had, i));
                assert(more[i] == had[i] && more[i + 1] == had[i + 1]);
                if i > 0 {
                    assert(more[i - 1] == had[i - 1]);
                }
            }
        }
        assert(stage_set_up(m, n, negated, stages, io, k + 1, sio2, buf2));
        stages_from(m, negated, stages, io, es, more, sio2, buf2)
    }
}

/// A pipeline runs all its stages, each once and in their order, whatever status
/// each gives, unless one asks the shell to exit. The first reads what the pipeline
/// reads, each further one exactly what the one before has written, and the last
/// writes where the pipeline writes. The pipeline's status is that of its last
/// stage, turned round by `!`. `starts` are the times at which the stages start.
pub proof fn a_pipeline_runs_every_stage(
    m: MachineV,
    negated: bool,
    stages: Seq<SimpleV>,
    io: IoV,
    es: Seq<EventV>,
) -> (starts: Seq<int>)
    requires
        nested(m),
        m.ctl == (CtlV::Run { cmd: CmdV::Pipeline { negated, stages }, io }),
        m.sinks.writes.len() == 0,
        stages.len() > 0,
        ends_after(m, es, m.stack.len() as int, es.len() as int),
        forall|j: int|
            0 <= j < es.len() && ended(#[trigger] at(m, es, j), m.stack.len() as int + 1)
                ==> at(m, es, j).state.exit_requested is None,
    ensures
        starts.len() == stages.len(),
        starts[0] == 1,
        forall|k: int|
            0 <= k < stages.len() ==> #[trigger] stage_runs(m, es, stages, io, starts, k),
        at(m, es, es.len() as int).stack == m.stack,
        at(m, es, es.len() as int).ctl == CtlV::Given(
            GivenV::Status(pipeline_status(negated, status(at(m, es, es.len() - 1)))),
        ),
{
    lemma_at_start(m, es);
    assert(es.len() > 0);
    lemma_at_next(m, es, 0);
    lemma_pipeline_starts(m, es[0], negated, stages, io);
    let p = at(m, es, 1);
    let buf = p.stack.last()->Pipeline_buf;
    stages_from(m, negated, stages, io, es, seq![1int], p.ctl->Words_io, buf)
}

proof fn lemma_pipeline_starts(
    m: MachineV,
    e: EventV,
    negated: bool,
    stages: Seq<SimpleV>,
    io: IoV,
)
    requires
        m.ctl == (CtlV::Run { cmd: CmdV::Pipeline { negated, stages }, io }),
        m.sinks.writes.len() == 0,
        stages.len() > 0,
    ensures
        ({
            let p = next(m, e);
            &&& p.stack.len() > 0
            &&& p.stack.last() is Pipeline
            &&& p.ctl is Words
            &&& p.ctl->Words_io.stdin == io.stdin
            &&& stage_set_up(
                m,
                p,
                negated,
                stages,
                io,
                0,
                p.ctl->Words_io,
                p.stack.last()->Pipeline_buf,
            )
        }),
{
    reveal(next);
    let p = next(m, e);
    assert(p.stack =~= m.stack.push(p.stack.last()));
}

// ---- lists and loops over words ----

/// The `k`-th command of a list runs, from its start to its end: it starts with the
/// files of the list, in the state in which the one before has left the shell.
pub open spec fn command_runs(
    m: MachineV,
    es: Seq<EventV>,
    below: Seq<FrameV>,
    list: Seq<CmdV>,
    io: IoV,
    starts: Seq<int>,
    k: int,
) -> bool {
    let p = at(m, es, starts[k]);
    let before = at(m, es, starts[k] - 1);
    &&& runs_from(m, es, below.len() as int + 1, starts[k], end_of(es, starts, k))
    &&& p.ctl == (CtlV::Run { cmd: list[k], io })
    &&& p.stack.len() == below.len() + 1
    &&& p.stack.drop_last() == below
    &&& p.state == before.state
    &&& p.sinks == before.sinks
    &&& k == 0 ==> starts[k] == 1
}

proof fn lemma_list_goes_on(q: MachineV, e: EventV, below: Seq<FrameV>, rest: Seq<CmdV>, io: IoV)
    requires
        ended(q, below.len() as int + 1),
        q.stack == below.push(FrameV::List { rest, io }),
        q.state.exit_requested is None,
    ensures
        ({
            let n = next(q, e);
            &&& n.state == q.state
            &&& n.sinks == q.sinks
            &&& if rest.len() == 0 {
                n.stack == below && n.ctl == CtlV::Given(GivenV::Status(status(q)))
            } else {
                &&& n.stack == below.push(FrameV::List { rest: rest.skip(1), io })
                &&& n.ctl == (CtlV::Run { cmd: rest[0], io })
            }
        }),
{
    reveal(next);
    let n = next(q, e);
    assert(q.stack.drop_last() =~= below);
    assert(q.stack.last() == FrameV::List { rest, io });
    if rest.len() == 0 {
        assert(n.stack =~= below);
    } else {
        assert(n.stack =~= below.push(FrameV::List { rest: rest.skip(1), io }));
    }
}

proof fn list_from(
    m: MachineV,
    below: Seq<FrameV>,
    list: Seq<CmdV>,
    io: IoV,
    es: Seq<EventV>,
    had: Seq<int>,
) -> (starts: Seq<int>)
    requires
        0 < had.len() <= list.len(),
        had[0] == 1,
        0 < had.last() <= es.len(),
        ({
            let p = at(m, es, had.last());
            let before = at(m, es, had.last() - 1);
            &&& p.ctl == (CtlV::Run { cmd: list[had.len() - 1], io })
            &&& p.stack == below.push(FrameV::List { rest: list.skip(had.len() as int), io })
            &&& p.state == before.state
            &&& p.sinks == before.sinks
        }),
        forall|k: int|
            0 <= k < had.len() - 1 ==> #[trigger] command_runs(m, es, below, list, io, had, k),
        ended(at(m, es, es.len() as int), below.len() as int),
        forall|j: int| 0 <= j < es.len() ==> !ended(#[trigger] at(m, es, j), below.len() as int),
        forall|j: int|
            0 <= j < es.len() && ended(#[trigger] at(m, es, j), below.len() as int + 1)
                ==> at(m, es, j).state.exit_requested is None,
    ensures
        starts.len() == list.len(),
        forall|k: int|
            0 <= k < list.len() ==> #[trigger] command_runs(m, es, below, list, io, starts, k),
        at(m, es, es.len() as int).stack == below,
        at(m, es, es.len() as int).state == at(m, es, es.len() - 1).state,
        at(m, es, es.len() as int).sinks == at(m, es, es.len() - 1).sinks,
        at(m, es, es.len() as int).ctl == CtlV::Given(
            GivenV::Status(status(at(m, es, es.len() - 1))),
        ),
    decreases list.len() - had.len(),
{
    let h = below.len() as int;
    let k = had.len() - 1;
    let a = had.last();
    let p = at(m, es, a);
    let z = first_end(m, es, h + 1, a);
    let q = at(m, es, z);
    assert(p.stack.take(h + 1) =~= p.stack);
    assert(p.stack.drop_last() =~= below);
    assert(p.ctl is Run);
    lemma_at_next(m, es, z);
    let n = at(m, es, z + 1);
    lemma_list_goes_on(q, es[z], below, list.skip(k + 1), io);
    if k + 1 == list.len() {
        assert(ended(n, h));
        assert(z + 1 == es.len()) by {
            if z + 1 < es.len() {
                assert(!ended(at(m, es, z + 1), h));
            }
        }
        assert(end_of(es, had, k) == z);
        assert(command_runs(m, es, below, list, io, had, k));
        had
    } else {
        let rest = list.skip(k + 1);
        assert(rest[0] == list[k + 1]);
        assert(rest.skip(1) =~= list.skip(k + 2));
        let more = had.push(z + 1);
        assert(end_of(es, more, k) == z);
        assert(more[k] == a && more[k + 1] == z + 1);
        assert(command_runs(m, es, below, list, io, more, k));
        assert forall|i: int| 0 <= i < more.len() - 1 implies #[trigger] command_runs(
            m,
            es,
            below,
            list,
            io,
            more,
            i,
        ) by {
            if i < k {
                assert(command_runs(m, es, below, list, io, had, i));
                assert(more[i] == had[i] && more[i + 1] == had[i + 1]);
            }
        }
        list_from(m, below, list, io, es, more)
    }
}

/// A list runs all its commands, each once and in their order, whatever status each
/// gives, unless one asks the shell to exit. Each starts where the one before has
/// left off, and the list's status is that of the last one; an empty list hands on
/// the status that it was given. `starts` are the times at which the commands start.
pub proof fn a_list_runs_every_command(
    m: MachineV,
    below: Seq<FrameV>,
    list: Seq<CmdV>,
    io: IoV,
    es: Seq<EventV>,
) -> (starts: Seq<int>)
    requires
        m.stack == below.push(FrameV::List { rest: list, io }),
        m.ctl is Given,
        m.sinks.writes.len() == 0,
        ends_after(m, es, below.len() as int, es.len() as int),
        forall|j: int|
            0 <= j < es.len() && ended(#[trigger] at(m, es, j), below.len() as int + 1)
                ==> at(m, es, j).state.exit_requested is None,
    ensures
        starts.len() == list.len(),
        forall|k: int|
            0 <= k < list.len() ==> #[trigger] command_runs(m, es, below, list, io, starts, k),
        at(m, es, es.len() as int).stack == below,
        at(m, es, es.len() as int).state == at(m, es, es.len() - 1).state,
        at(m, es, es.len() as int).sinks == at(m, es, es.len() - 1).sinks,
        at(m, es, es.len() as int).ctl == CtlV::Given(
            GivenV::Status(status(at(m, es, es.len() - 1))),
        ),
        list.len() == 0 ==> es.len() == 1,
{
    let h = below.len() as int;
    lemma_at_start(m, es);
    assert(es.len() > 0);
    lemma_at_next(m, es, 0);
    assert(ended(at(m, es, 0), h + 1));
    lemma_list_goes_on(m, es[0], below, list, io);
    if list.len() == 0 {
        assert(es.len() == 1) by {
            if es.len() > 1 {
                assert(!ended(at(m, es, 1), h));
            }
        }
        seq![]
    } else {
        list_from(m, below, list, io, es, seq![1int])
    }
}

/// The `k`-th round of a `for` loop runs, from its start to its end: the variable
/// has the `k`-th value, all else is as the round before has left it, and the whole
/// body is about to run.
pub open spec fn round_runs(
    m: MachineV,
    es: Seq<EventV>,
    below: Seq<FrameV>,
    var: Seq<char>,
    values: Seq<Seq<char>>,
    body: Seq<CmdV>,
    io: IoV,
    starts: Seq<int>,
    k: int,
) -> bool {
    let p = at(m, es, starts[k]);
    let before = at(m, es, starts[k] - 1);
    &&& runs_from(m, es, below.len() as int + 1, starts[k], end_of(es, starts, k))
    &&& p.ctl == CtlV::Given(GivenV::Status(0))
    &&& p.stack.len() == below.len() + 2
    &&& p.stack.take(below.len() as int) == below
    &&& p.stack.last() == (FrameV::List { rest: body, io })
    &&& vars::value_of(p.state.env, var) == Some(values[k])
    &&& forall|other: Seq<char>|
        other != var ==> #[trigger] vars::value_of(p.state.env, other) == vars::value_of(
            before.state.env,
            other,
        )
    &&& p.state == (StateV { env: p.state.env, ..before.state })
    &&& p.sinks == before.sinks
    &&& k == 0 ==> starts[k] == 1
}

proof fn lemma_for_goes_on(
    q: MachineV,
    e: EventV,
    below: Seq<FrameV>,
    var: Seq<char>,
    rest: Seq<Seq<char>>,
    body: Seq<CmdV>,
    io: IoV,
)
    requires
        ended(q, below.len() as int + 1),
        q.stack == below.push(FrameV::ForBody { var, rest, body, io }),
        q.state.exit_requested is None,
    ensures
        ({
            let n = next(q, e);
            &&& n.sinks == q.sinks
            &&& if rest.len() == 0 {
                &&& n.stack == below
                &&& n.ctl == CtlV::Given(GivenV::Status(status(q)))
                &&& n.state == q.state
            } else {
                &&& n.stack == below.push(
                    FrameV::ForBody { var, rest: rest.skip(1), body, io },
                ).push(FrameV::List { rest: body, io })
                &&& n.ctl == CtlV::Given(GivenV::Status(0))
                &&& vars::value_of(n.state.env, var) == Some(rest[0])
                &&& forall|other: Seq<char>|
                    other != var ==> #[trigger] vars::value_of(n.state.env, other)
                        == vars::value_of(q.state.env, other)
                &&& n.state == (StateV { env: n.state.env, ..q.state })
            }
        }),
{
    reveal(next);
    let n = next(q, e);
    assert(q.stack.drop_last() =~= below);
    assert(q.stack.last() == FrameV::ForBody { var, rest, body, io });
    if rest.len() == 0 {
        assert(n.stack =~= below);
    } else {
        assert(n.stack =~= below.push(
            FrameV::ForBody { var, rest: rest.skip(1), body, io },
        ).push(FrameV::List { rest: body, io }));
        vars::set_then_get(q.state.env, var, rest[0], var);
        assert forall|other: Seq<char>| other != var implies #[trigger] vars::value_of(
            n.state.env,
            other,
        ) == vars::value_of(q.state.env, other) by {
            vars::set_then_get(q.state.env, var, rest[0], other);
        }
    }
}

proof fn rounds_from(
    m: MachineV,
    below: Seq<FrameV>,
    var: Seq<char>,
    values: Seq<Seq<char>>,
    body: Seq<CmdV>,
    io: IoV,
    es: Seq<EventV>,
    had: Seq<int>,
) -> (starts: Seq<int>)
    requires
        0 < had.len() <= values.len(),
        had[0] == 1,
        0 < had.last() <= es.len(),
        ({
            let p = at(m, es, had.last());
            let before = at(m, es, had.last() - 1);
            &&& p.ctl == CtlV::Given(GivenV::Status(0))
            &&& p.stack == below.push(
                FrameV::ForBody { var, rest: values.skip(had.len() as int), body, io },
            ).push(FrameV::List { rest: body, io })
            &&& vars::value_of(p.state.env, var) == Some(values[had.len() - 1])
            &&& forall|other: Seq<char>|
                other != var ==> #[trigger] vars::value_of(p.state.env, other) == vars::value_of(
                    before.state.env,
                    other,
                )
            &&& p.state == (StateV { env: p.state.env, ..before.state })
            &&& p.sinks == before.sinks
        }),
        forall|k: int|
            0 <= k < had.len() - 1 ==> #[trigger] round_runs(
                m,
                es,
                below,
                var,
                values,
                body,
                io,
                had,
                k,
            ),
        ended(at(m, es, es.len() as int), below.len() as int),
        forall|j: int| 0 <= j < es.len() ==> !ended(#[trigger] at(m, es, j), below.len() as int),
        forall|j: int|
            0 <= j < es.len() && ended(#[trigger] at(m, es, j), below.len() as int + 1)
                ==> at(m, es, j).state.exit_requested is None,
    ensures
        starts.len() == values.len(),
        forall|k: int|
            0 <= k < values.len() ==> #[trigger] round_runs(
                m,
                es,
                below,
                var,
                values,
                body,
                io,
                starts,
                k,
            ),
        at(m, es, es.len() as int).stack == below,
        at(m, es, es.len() as int).state == at(m, es, es.len() - 1).state,
        at(m, es, es.len() as int).ctl == CtlV::Given(
            GivenV::Status(status(at(m, es, es.len() - 1))),
        ),
    decreases values.len() - had.len(),
{
    let h = below.len() as int;
    let k = had.len() - 1;
    let a = had.last();
    let p = at(m, es, a);
    let frame = FrameV::ForBody { var, rest: values.skip(k + 1), body, io };
    let z = first_end(m, es, h + 1, a);
    let q = at(m, es, z);
    assert(p.stack.take(h + 1) =~= below.push(frame));
    assert(p.stack.take(h) =~= below);
    lemma_at_next(m, es, z);
    let n = at(m, es, z + 1);
    lemma_for_goes_on(q, es[z], below, var, values.skip(k + 1), body, io);
    if k + 1 == values.len() {
        assert(ended(n, h));
        assert(z + 1 == es.len()) by {
            if z + 1 < es.len() {
                assert(!ended(at(m, es, z + 1), h));
            }
        }
        assert(end_of(es, had, k) == z);
        assert(round_runs(m, es, below, var, values, body, io, had, k));
        had
    } else {
        let rest = values.skip(k + 1);
        assert(rest[0] == values[k + 1]);
        assert(rest.skip(1) =~= values.skip(k + 2));
        let more = had.push(z + 1);
        assert(end_of(es, more, k) == z);
        assert(more[k] == a && more[k + 1] == z + 1);
        assert(round_runs(m, es, below, var, values, body, io, more, k));
        assert forall|i: int| 0 <= i < more.len() - 1 implies #[trigger] round_runs(
            m,
            es,
            below,
            var,
            values,
            body,
            io,
            more,
            i,
        ) by {
            if i < k {
                assert(round_runs(m, es, below, var, values, body, io, had, i));
                assert(more[i] == had[i] && more[i + 1] == had[i + 1]);
            }
        }
        rounds_from(m, below, var, values, body, io, es, more)
    }
}

/// A `for` loop whose values are known runs its body once for each value, in their
/// order, with the variable set to that value and no other variable touched, unless
/// the body asks the shell to exit. Its status is that of the last round.
pub proof fn a_for_loop_takes_every_value(
    m: MachineV,
    below: Seq<FrameV>,
    var: Seq<char>,
    values: Seq<Seq<char>>,
    body: Seq<CmdV>,
    io: IoV,
    es: Seq<EventV>,
) -> (starts: Seq<int>)
    requires
        m.stack == below.push(FrameV::ForBody { var, rest: values, body, io }),
        m.ctl is Given,
        m.sinks.writes.len() == 0,
        ends_after(m, es, below.len() as int, es.len() as int),
        forall|j: int|
            0 <= j < es.len() && ended(#[trigger] at(m, es, j), below.len() as int + 1)
                ==> at(m, es, j).state.exit_requested is None,
    ensures
        starts.len() == values.len(),
        forall|k: int|
            0 <= k < values.len() ==> #[trigger] round_runs(
                m,
                es,
                below,
                var,
                values,
                body,
                io,
                starts,
                k,
            ),
        at(m, es, es.len() as int).stack == below,
        at(m, es, es.len() as int).state == at(m, es, es.len() - 1).state,
        at(m, es, es.len() as int).ctl == CtlV::Given(
            GivenV::Status(status(at(m, es, es.len() - 1))),
        ),
        values.len() == 0 ==> es.len() == 1,
{
    let h = below.len() as int;
    lemma_at_start(m, es);
    assert(es.len() > 0);
    lemma_at_next(m, es, 0);
    assert(ended(at(m, es, 0), h + 1));
    lemma_for_goes_on(m, es[0], below, var, values, body, io);
    if values.len() == 0 {
        assert(es.len() == 1) by {
            if es.len() > 1 {
                assert(!ended(at(m, es, 1), h));
            }
        }
        seq![]
    } else {
        rounds_from(m, below, var, values, body, io, es, seq![1int])
    }
}

// ---- what waits ----

/// Until what is under way has ended, whatever waits for it is left alone.
pub proof fn what_waits_is_left_alone(m: MachineV, es: Seq<EventV>, h: int, i: int)
    requires
        0 <= h <= m.stack.len(),
        ends_after(m, es, h, i),
    ensures
        at(m, es, i).stack == m.stack.take(h),
{
    lemma_frames_stay(m, es, h, i);
    assert(at(m, es, i).stack.take(h) =~= at(m, es, i).stack);
}

/// `m` goes on in the same state and with the same output, with `ctl` above `stack`.
pub open spec fn goes_on(m: MachineV, e: EventV, stack: Seq<FrameV>, ctl: CtlV) -> bool {
    next(m, e) == (MachineV { stack, ctl, ..m })
}

pub open spec fn hands_on(s: i32) -> CtlV {
    CtlV::Given(GivenV::Status(s))
}

proof fn lemma_top(q: MachineV, e: EventV, below: Seq<FrameV>, f: FrameV)
    requires
        ended(q, below.len() as int + 1),
        q.stack == below.push(f),
    ensures
        ({
            let r = machine::resume(q.state, q.sinks, f, q.ctl->Given_0);
            next(q, e) == (MachineV {
                state: r.state,
                sinks: r.sinks,
                stack: below + r.push,
                ctl: r.ctl,
            })
        }),
{
    reveal(next);
    assert(q.stack.drop_last() =~= below);
    assert(q.stack.last() == f);
}

/// `a && b` runs `a`, and then `b` exactly where `a` gave 0; `a || b` exactly where
/// it did not. Where `b` is not run the status is that of `a`, and where it is run
/// nothing is left of `a` but what it did.
pub proof fn and_or_chooses_by_status(
    m: MachineV,
    lhs: CmdV,
    and: bool,
    rhs: CmdV,
    io: IoV,
    first: EventV,
    es: Seq<EventV>,
    i: int,
    last: EventV,
)
    requires
        m.ctl == (CtlV::Run {
            cmd: CmdV::AndOr { lhs: Box::new(lhs), and, rhs: Box::new(rhs) },
            io,
        }),
        m.sinks.writes.len() == 0,
        ends_after(next(m, first), es, m.stack.len() as int + 1, i),
    ensures
        next(m, first).ctl == (CtlV::Run { cmd: lhs, io }),
        next(m, first).state == m.state,
        next(m, first).sinks == m.sinks,
        ({
            let q = at(next(m, first), es, i);
            let runs_rhs = if and {
                status(q) == 0
            } else {
                status(q) != 0
            };
            goes_on(
                q,
                last,
                m.stack,
                if runs_rhs {
                    CtlV::Run { cmd: rhs, io }
                } else {
                    hands_on(status(q))
                },
            )
        }),
{
    let s = next(m, first);
    let frame = FrameV::AndOr { and, rhs, io };
    assert(s.ctl == (CtlV::Run { cmd: lhs, io }) && s.stack == m.stack.push(frame) && s.state
        == m.state && s.sinks == m.sinks) by {
        reveal(next);
        assert(s.stack =~= m.stack.push(frame));
    }
    what_waits_is_left_alone(s, es, m.stack.len() as int + 1, i);
    assert(s.stack.take(m.stack.len() as int + 1) =~= s.stack);
    let q = at(s, es, i);
    lemma_top(q, last, m.stack, frame);
    assert(m.stack + seq![] =~= m.stack);
}

/// The machine that is about to run the whole of a list above `below`.
pub open spec fn list_ahead(below: Seq<FrameV>, list: Seq<CmdV>, io: IoV) -> Seq<FrameV> {
    below.push(FrameV::List { rest: list, io })
}

/// `if` runs its condition first.
pub proof fn an_if_starts_with_its_condition(
    m: MachineV,
    cond: Seq<CmdV>,
    body: Seq<CmdV>,
    elifs: Seq<ElifV>,
    els: Option<Seq<CmdV>>,
    io: IoV,
    e: EventV,
)
    requires
        m.ctl == (CtlV::Run { cmd: CmdV::If { cond, body, elifs, els }, io }),
        m.sinks.writes.len() == 0,
    ensures
        goes_on(
            m,
            e,
            list_ahead(m.stack.push(FrameV::If { body, elifs, els, io }), cond, io),
            hands_on(0),
        ),
{
    reveal(next);
    assert(next(m, e).stack =~= list_ahead(
        m.stack.push(FrameV::If { body, elifs, els, io }),
        cond,
        io,
    ));
}

/// When the condition of an `if` has ended: its body runs exactly where the
/// condition gave 0; else the condition of the first `elif` decides about its body,
/// with the other `elif`s behind it; without an `elif` the `else` runs; without any
/// of them the status is 0.
pub proof fn an_if_takes_the_first_true_branch(
    q: MachineV,
    below: Seq<FrameV>,
    body: Seq<CmdV>,
    elifs: Seq<ElifV>,
    els: Option<Seq<CmdV>>,
    io: IoV,
    e: EventV,
)
    requires
        ended(q, below.len() as int + 1),
        q.stack == below.push(FrameV::If { body, elifs, els, io }),
    ensures
        status(q) == 0 ==> goes_on(q, e, list_ahead(below, body, io), hands_on(0)),
        status(q) != 0 && elifs.len() > 0 ==> goes_on(
            q,
            e,
            list_ahead(
                below.push(FrameV::If { body: elifs[0].body, elifs: elifs.skip(1), els, io }),
                elifs[0].cond,
                io,
            ),
            hands_on(0),
        ),
        status(q) != 0 && elifs.len() == 0 ==> goes_on(
            q,
            e,
            match els {
                Some(l) => list_ahead(below, l, io),
                None => below,
            },
            hands_on(0),
        ),
{
    let f = FrameV::If { body, elifs, els, io };
    lemma_top(q, e, below, f);
    assert(next(q, e).stack =~= if status(q) == 0 {
        list_ahead(below, body, io)
    } else if elifs.len() > 0 {
        list_ahead(
            below.push(FrameV::If { body: elifs[0].body, elifs: elifs.skip(1), els, io }),
            elifs[0].cond,
            io,
        )
    } else {
        match els {
            Some(l) => list_ahead(below, l, io),
            None => below,
        }
    });
}

/// A loop runs its condition before each round; `while` runs the body exactly where
/// the condition gave 0, `until` exactly where it did not, and after the body comes
/// the condition again. A loop that is over gives 0. Only a requested exit keeps the
/// condition from running.
pub proof fn a_loop_checks_before_each_round(
    m: MachineV,
    q: MachineV,
    below: Seq<FrameV>,
    cond: Seq<CmdV>,
    body: Seq<CmdV>,
    until: bool,
    io: IoV,
    e: EventV,
)
    requires
        m.ctl == (CtlV::Run { cmd: CmdV::While { cond, body, until }, io }),
        m.sinks.writes.len() == 0,
    ensures
        goes_on(
            m,
            e,
            m.stack.push(FrameV::WhileBody { cond, body, until, io }),
            hands_on(0),
        ),
        ended(q, below.len() as int + 1) && q.stack == below.push(
            FrameV::WhileBody { cond, body, until, io },
        ) ==> if q.state.exit_requested is Some {
            goes_on(q, e, below, hands_on(0))
        } else {
            goes_on(
                q,
                e,
                list_ahead(below.push(FrameV::WhileCond { cond, body, until, io }), cond, io),
                hands_on(0),
            )
        },
        ended(q, below.len() as int + 1) && q.stack == below.push(
            FrameV::WhileCond { cond, body, until, io },
        ) ==> {
            let again = if until {
                status(q) != 0
            } else {
                status(q) == 0
            };
            if again {
                goes_on(
                    q,
                    e,
                    list_ahead(below.push(FrameV::WhileBody { cond, body, until, io }), body, io),
                    hands_on(0),
                )
            } else {
                goes_on(q, e, below, hands_on(0))
            }
        },
{
    let wb = FrameV::WhileBody { cond, body, until, io };
    let wc = FrameV::WhileCond { cond, body, until, io };
    assert(next(m, e) == (MachineV { stack: m.stack.push(wb), ctl: hands_on(0), ..m })) by {
        reveal(next);
        assert(next(m, e).stack =~= m.stack.push(wb));
    }
    if ended(q, below.len() as int + 1) {
        if q.stack == below.push(wb) {
            lemma_top(q, e, below, wb);
            assert(next(q, e).stack =~= if q.state.exit_requested is Some {
                below
            } else {
                list_ahead(below.push(wc), cond, io)
            });
        }
        if q.stack == below.push(wc) {
            lemma_top(q, e, below, wc);
            assert(next(q, e).stack =~= below || next(q, e).stack =~= list_ahead(
                below.push(wb),
                body,
                io,
            ));
        }
    }
}

/// `{ ... }` runs its list, and `( ... )` too, above what puts the state back.
pub proof fn groups_run_their_list(m: MachineV, body: Seq<CmdV>, io: IoV, e: EventV)
    requires
        m.sinks.writes.len() == 0,
    ensures
        m.ctl == (CtlV::Run { cmd: CmdV::Brace(body), io }) ==> goes_on(
            m,
            e,
            list_ahead(m.stack, body, io),
            hands_on(0),
        ),
        m.ctl == (CtlV::Run { cmd: CmdV::Subshell(body), io }) ==> goes_on(
            m,
            e,
            list_ahead(
                m.stack.push(
                    FrameV::Subshell {
                        env: m.state.env,
                        cwd: m.state.cwd,
                        exit: m.state.exit_requested,
                    },
                ),
                body,
                io,
            ),
            hands_on(0),
        ),
{
    reveal(next);
    if m.ctl is Run {
        match m.ctl->Run_cmd {
            CmdV::Brace(b) => {
                assert(next(m, e).stack =~= list_ahead(m.stack, b, m.ctl->Run_io));
            },
            CmdV::Subshell(b) => {
                assert(next(m, e).stack =~= list_ahead(
                    m.stack.push(
                        FrameV::Subshell {
                            env: m.state.env,
                            cwd: m.state.cwd,
                            exit: m.state.exit_requested,
                        },
                    ),
                    b,
                    m.ctl->Run_io,
                ));
            },
            _ => {},
        }
    }
}

} // verus!
