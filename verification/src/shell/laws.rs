//! What holds of every run of the shell.
use crate::shell::ast;
use crate::shell::ast::{CmdV, PartV, WordV};
use crate::shell::exec;
use crate::shell::exec::ExecRequestV;
use crate::shell::interp;
use crate::shell::lexer;
use crate::shell::lexer::{LexErrorV, LexemeV, TokV};
use crate::shell::machine;
use crate::shell::machine::{ActionV, CtlV, EventV, FrameV, MachineV, GivenV};
use crate::shell::parser;
use crate::shell::path;
use crate::shell::state;
use crate::shell::state::{IoV, SinksV, StateV};
use crate::shell::vars;
use crate::shell::vars::Pairs;
use crate::shell::words::FieldsV;
use crate::text;
use vstd::prelude::*;

verus! {

/// The machine after the answers `es`, one step for each.
pub open spec fn after(m: MachineV, es: Seq<EventV>) -> MachineV
    decreases es.len(),
{
    if es.len() == 0 {
        m
    } else {
        machine::stepped(after(m, es.drop_last()), es.last()).0
    }
}

/// The answers `es` bring the stack of `m` down to `h` frames, with the last one.
pub open spec fn first_reaches(m: MachineV, es: Seq<EventV>, h: int) -> bool {
    &&& after(m, es).stack.len() <= h
    &&& forall|j: int| 0 < j < es.len() ==> (#[trigger] after(m, es.take(j))).stack.len() > h
}

/// A step replaces at most the top frame; what is below it stays.
pub proof fn a_step_touches_only_the_top(m: MachineV, e: EventV, h: int)
    requires
        0 <= h < m.stack.len(),
    ensures
        m.stack.len() > h + 1 || !machine::pops(m) || m.sinks.writes.len() > 0 ==> {
            &&& machine::stepped(m, e).0.stack.len() > h
            &&& machine::stepped(m, e).0.stack.take(h + 1) == m.stack.take(h + 1)
        },
{
    let next = machine::stepped(m, e).0;
    if m.sinks.writes.len() > 0 {
    } else if machine::pops(m) {
        if m.stack.len() > h + 1 {
            assert(next.stack.take(h + 1) =~= m.stack.take(h + 1));
        }
    } else {
        assert(next.stack.take(h + 1) =~= m.stack.take(h + 1));
    }
}

/// A frame that puts a saved state back and leaves nothing on the stack.
pub open spec fn is_guard(f: FrameV) -> bool {
    f is Subshell || f is Sub
}

/// As long as the stack has not come down to `h`, the guard at `h` is in place.
proof fn lemma_guard_stays(m: MachineV, h: int, es: Seq<EventV>)
    requires
        0 <= h < m.stack.len(),
        is_guard(m.stack[h]),
        forall|j: int| 0 < j <= es.len() ==> (#[trigger] after(m, es.take(j))).stack.len() > h,
    ensures
        after(m, es).stack.len() > h,
        after(m, es).stack.take(h + 1) == m.stack.take(h + 1),
    decreases es.len(),
{
    if es.len() > 0 {
        let front = es.drop_last();
        assert forall|j: int| 0 < j <= front.len() implies (#[trigger] after(
            m,
            front.take(j),
        )).stack.len() > h by {
            assert(front.take(j) =~= es.take(j));
        }
        lemma_guard_stays(m, h, front);
        let p = after(m, front);
        assert(p.stack[h] == p.stack.take(h + 1)[h]);
        assert(m.stack[h] == m.stack.take(h + 1)[h]);
        a_step_touches_only_the_top(p, es.last(), h);
        assert(es.take(es.len() as int) =~= es);
        assert(after(m, es).stack.len() > h);
    }
}

/// What a guard does when the stack comes down to it.
proof fn lemma_guard_fires(m: MachineV, h: int, es: Seq<EventV>)
    requires
        0 <= h < m.stack.len(),
        is_guard(m.stack[h]),
        es.len() > 0,
        first_reaches(m, es, h),
    ensures
        ({
            let p = after(m, es.drop_last());
            &&& p.stack == m.stack.take(h + 1)
            &&& p.ctl is Given
            &&& p.sinks.writes.len() == 0
            &&& after(m, es) == machine::stepped(p, es.last()).0
        }),
{
    let front = es.drop_last();
    assert forall|j: int| 0 < j <= front.len() implies (#[trigger] after(m, front.take(j))).stack.len()
        > h by {
        assert(front.take(j) =~= es.take(j));
    }
    lemma_guard_stays(m, h, front);
    let p = after(m, front);
    a_step_touches_only_the_top(p, es.last(), h);
    assert(p.stack.len() == h + 1);
    assert(p.stack =~= p.stack.take(h + 1));
}

/// `( ... )` leaves no trace in the shell that runs it: when it has ended, the
/// variables, the working directory and a requested exit are what they were, and
/// the status is the one that the body ended with.
pub proof fn subshell_is_isolated(m: MachineV, body: Seq<CmdV>, io: IoV, first: EventV, es: Seq<EventV>)
    requires
        m.ctl == (CtlV::Run { cmd: CmdV::Subshell(body), io }),
        m.sinks.writes.len() == 0,
        es.len() > 0,
        first_reaches(machine::stepped(m, first).0, es, m.stack.len() as int),
    ensures
        ({
            let ended = after(machine::stepped(m, first).0, es.drop_last());
            let done = after(machine::stepped(m, first).0, es);
            &&& done.stack == m.stack
            &&& done.state.env == m.state.env
            &&& done.state.cwd == m.state.cwd
            &&& done.state.exit_requested == m.state.exit_requested
            &&& done.state.root == ended.state.root
            &&& done.state.last_status == ended.state.last_status
            &&& done.sinks == ended.sinks
            &&& ended.ctl is Given
            &&& done.ctl == CtlV::Given(GivenV::Status(machine::status_of(ended.ctl->Given_0)))
        }),
{
    let s = machine::stepped(m, first).0;
    let h = m.stack.len() as int;
    assert(s.stack.take(h + 1) =~= m.stack.push(
        FrameV::Subshell { env: m.state.env, cwd: m.state.cwd, exit: m.state.exit_requested },
    ));
    assert(s.stack[h] == s.stack.take(h + 1)[h]);
    lemma_guard_fires(s, h, es);
    let p = after(s, es.drop_last());
    assert(p.stack.drop_last() =~= m.stack);
    assert(p.stack.last() == s.stack.take(h + 1)[h]);
    assert(after(s, es).stack =~= m.stack);
}

/// `$( ... )` leaves no trace but its output: when it has ended, the variables,
/// the working directory and a requested exit are what they were, and the word
/// gets the output without the newlines at its end.
pub proof fn substitution_is_isolated(
    m: MachineV,
    src: Seq<char>,
    rest: WordV,
    acc: FieldsV,
    join: bool,
    quoted: bool,
    first: EventV,
    es: Seq<EventV>,
)
    requires
        m.ctl == (CtlV::Expand {
            rest: seq![lexer::sub_part(quoted, src)] + rest,
            acc,
            join,
        }),
        m.sinks.writes.len() == 0,
        parser::commands_of(src) is Ok,
        es.len() > 0,
        first_reaches(machine::stepped(m, first).0, es, m.stack.len() as int + 1),
    ensures
        ({
            let before = after(machine::stepped(m, first).0, es.drop_last());
            let done = after(machine::stepped(m, first).0, es);
            &&& done.stack == m.stack.push(FrameV::Word { rest, acc, join, quoted })
            &&& done.state.env == m.state.env
            &&& done.state.cwd == m.state.cwd
            &&& done.state.exit_requested == m.state.exit_requested
            &&& done.ctl == CtlV::Given(
                GivenV::Fields(
                    seq![
                        text::trim_end(
                            text::utf8_lossy(
                                state::closed(
                                    before.sinks,
                                    m.sinks.buffers.len() as int,
                                ).0,
                            ),
                            '\n',
                        ),
                    ],
                ),
            )
        }),
{
    let s = machine::stepped(m, first).0;
    let parts = seq![lexer::sub_part(quoted, src)] + rest;
    assert(parts.skip(1) =~= rest);
    let h = m.stack.len() as int + 1;
    let wait = FrameV::Word { rest, acc, join, quoted };
    let guard = FrameV::Sub {
        env: m.state.env,
        cwd: m.state.cwd,
        exit: m.state.exit_requested,
        buf: m.sinks.buffers.len() as int,
    };
    assert(s.stack.take(h + 1) =~= m.stack.push(wait).push(guard));
    assert(s.stack[h] == s.stack.take(h + 1)[h]);
    lemma_guard_fires(s, h, es);
    let p = after(s, es.drop_last());
    assert(p.stack.drop_last() =~= m.stack.push(wait));
    assert(p.stack.last() == s.stack.take(h + 1)[h]);
    assert(after(s, es).stack =~= m.stack.push(wait));
}

/// Nothing is asked of the files or of another program while a write that came
/// before is still to be done.
pub proof fn writes_come_first(m: MachineV, e: EventV)
    ensures
        ({
            let (next, action) = machine::stepped(m, e);
            (action is Read || action is Stat || action is Exec || action is Done)
                ==> next.sinks.writes.len() == 0
        }),
{
}

/// A file write is handed out exactly once, in the order in which it was made.
pub proof fn writes_keep_their_order(m: MachineV, e: EventV)
    requires
        m.sinks.writes.len() > 0,
    ensures
        machine::stepped(m, e).1 == ActionV::Write(m.sinks.writes[0]),
        machine::stepped(m, e).0 == (MachineV {
            sinks: SinksV { writes: m.sinks.writes.skip(1), ..m.sinks },
            ..m
        }),
{
}

/// A requested exit ends every list: no further command of it is run.
pub proof fn exit_ends_lists(m: MachineV, rest: Seq<CmdV>, io: IoV, status: i32, e: EventV)
    requires
        m.sinks.writes.len() == 0,
        m.state.exit_requested is Some,
        m.stack.len() > 0,
        m.stack.last() == (FrameV::List { rest, io }),
        m.ctl == CtlV::Given(GivenV::Status(status)),
    ensures
        machine::stepped(m, e).0 == (MachineV { stack: m.stack.drop_last(), ..m }),
{
    assert(machine::stepped(m, e).0.stack =~= m.stack.drop_last());
}

/// A script that has ended stays as it is.
pub proof fn the_end_is_stable(m: MachineV, e: EventV)
    requires
        machine::stepped(m, e).1 is Done,
    ensures
        machine::stepped(m, e).0 == m,
{
    assert(machine::stepped(m, e).0.stack =~= m.stack);
}

/// `[ args ]` is `test args`.
pub proof fn bracket_is_test(
    state: StateV,
    sinks: SinksV,
    args: Seq<Seq<char>>,
    io: IoV,
    local: Pairs,
)
    ensures
        machine::dispatch(state, sinks, seq!["["@] + args + seq!["]"@], io, local)
            == machine::dispatch(state, sinks, seq!["test"@] + args, io, local),
{
    reveal_strlit("[");
    reveal_strlit("test");
    reveal_strlit("echo");
    reveal_strlit("printf");
    reveal_strlit("cd");
    reveal_strlit("pwd");
    reveal_strlit("export");
    reveal_strlit("unset");
    reveal_strlit("set");
    reveal_strlit("env");
    reveal_strlit("exit");
    reveal_strlit("true");
    reveal_strlit("false");
    let a = seq!["["@] + args + seq!["]"@];
    let b = seq!["test"@] + args;
    assert(a.subrange(1, a.len() - 1) =~= args);
    assert(b.skip(1) =~= args);
    assert(a[0] == "["@ && a.last() == "]"@ && b[0] == "test"@);
    assert("["@.len() == 1 && "test"@.len() == 4 && "test"@[0] == 't' && "test"@[1] == 'e');
    assert("echo"@[0] == 'e' && "exit"@[0] == 'e' && "true"@[1] == 'r');
}

/// Assignments before a command do not reach the variables of the shell.
pub proof fn prefix_assignments_do_not_leak(
    state: StateV,
    sinks: SinksV,
    name: Seq<char>,
    cmd: crate::shell::ast::SimpleV,
    argv: Seq<Seq<char>>,
    io: IoV,
    local: Pairs,
    value: Seq<char>,
)
    requires
        argv.len() > 0,
    ensures
        machine::after_assign(state, sinks, name, cmd, argv, io, local, value).state == state,
        machine::simple_assign(state, sinks, cmd, argv, io, local).state == state,
{
}

proof fn lemma_with_all_other(p: Pairs, q: Pairs, name: Seq<char>)
    requires
        vars::value_of(q, name) is None,
    ensures
        vars::value_of(vars::with_all(p, q), name) == vars::value_of(p, name),
    decreases q.len(),
{
    if q.len() > 0 {
        vars::set_then_get(p, q[0].0, q[0].1, name);
        lemma_with_all_other(vars::with(p, q[0].0, q[0].1), q.skip(1), name);
    }
}

/// Putting saved values back: a name that is among them gets its old value.
proof fn lemma_restored(env: Pairs, now: Pairs, over: Pairs, name: Seq<char>)
    requires
        vars::ordered(now),
        vars::value_of(over, name) is None ==> vars::value_of(now, name) == vars::value_of(
            env,
            name,
        ),
    ensures
        vars::value_of(machine::restored(now, machine::saved_values(env, over)), name)
            == vars::value_of(env, name),
        vars::ordered(machine::restored(now, machine::saved_values(env, over))),
    decreases over.len(),
{
    let saved = machine::saved_values(env, over);
    if over.len() > 0 {
        let k = over[0].0;
        let rest = over.skip(1);
        assert(saved.skip(1) =~= machine::saved_values(env, rest));
        let next = match saved[0].1 {
            Some(v) => vars::with(now, k, v),
            None => vars::without(now, k),
        };
        match saved[0].1 {
            Some(v) => {
                vars::set_then_get(now, k, v, name);
                vars::set_keeps_order(now, k, v);
            },
            None => {
                vars::unset_then_get(now, k, name);
            },
        }
        lemma_restored(env, next, rest, name);
    }
}

/// `env NAME=value command` does not leak either: once the old values are put
/// back over what the command left alone, every variable reads as before.
pub proof fn env_overrides_do_not_leak(env: Pairs, over: Pairs, name: Seq<char>)
    requires
        vars::ordered(env),
    ensures
        vars::value_of(
            machine::restored(vars::with_all(env, over), machine::saved_values(env, over)),
            name,
        ) == vars::value_of(env, name),
{
    vars::set_all_keeps_order(env, over);
    if vars::value_of(over, name) is None {
        lemma_with_all_other(env, over, name);
    }
    lemma_restored(env, vars::with_all(env, over), over, name);
}

/// The commands that the shell runs itself.
pub open spec fn is_builtin(name: Seq<char>) -> bool {
    ||| name == "echo"@
    ||| name == "printf"@
    ||| name == "cd"@
    ||| name == "pwd"@
    ||| name == "export"@
    ||| name == "unset"@
    ||| name == "set"@
    ||| name == "env"@
    ||| name == "exit"@
    ||| name == "true"@
    ||| name == "false"@
    ||| name == "test"@
    ||| name == "["@
}

/// A command that waits for its stdin is a listed one.
spec fn waits_listed(m: MachineV) -> bool {
    m.ctl matches CtlV::AwaitStdin { argv, .. } ==> argv.len() > 0 && exec::is_external(argv[0])
}

/// A request for a listed command, under its own name.
pub open spec fn is_listed(req: ExecRequestV) -> bool {
    &&& exec::is_external(req.prog)
    &&& req.argv.len() > 0
    &&& req.argv[0] == req.prog
}

proof fn lemma_step_is_listed(m: MachineV, e: EventV)
    requires
        waits_listed(m),
    ensures
        waits_listed(machine::stepped(m, e).0),
        machine::stepped(m, e).1 matches ActionV::Exec(req) ==> is_listed(req),
{
    if m.sinks.writes.len() == 0 {
        match m.ctl {
            CtlV::Dispatch { argv, io, local } => {
                if argv.len() > 0 {
                    let base = path::base_name(argv[0]);
                    assert(argv.update(0, base)[0] == base);
                }
            },
            _ => {},
        }
    }
}

/// Whatever a script holds and whatever the answers are, every program that a run
/// asks for is a listed command, under its own name.
pub proof fn only_listed_commands_run(
    list: Seq<CmdV>,
    env: Pairs,
    root: Seq<char>,
    cwd: Seq<char>,
    es: Seq<EventV>,
    e: EventV,
)
    ensures
        machine::stepped(after(interp::started(list, env, root, cwd), es), e).1 matches ActionV::Exec(
            req,
        ) ==> is_listed(req),
{
    let m = interp::started(list, env, root, cwd);
    lemma_stays_listed(m, es);
    lemma_step_is_listed(after(m, es), e);
}

proof fn lemma_stays_listed(m: MachineV, es: Seq<EventV>)
    requires
        waits_listed(m),
    ensures
        waits_listed(after(m, es)),
    decreases es.len(),
{
    if es.len() > 0 {
        lemma_stays_listed(m, es.drop_last());
        lemma_step_is_listed(after(m, es.drop_last()), es.last());
    }
}

/// A command that is neither a builtin nor listed, by its name or by the last part
/// of its path, is not run: it is reported and gives 127.
pub proof fn unlisted_commands_are_not_found(
    m: MachineV,
    argv: Seq<Seq<char>>,
    io: IoV,
    local: Pairs,
    e: EventV,
)
    requires
        m.ctl == (CtlV::Dispatch { argv, io, local }),
        m.sinks.writes.len() == 0,
        argv.len() > 0,
        !is_builtin(argv[0]),
        !exec::is_external(argv[0]),
        !exec::is_external(path::base_name(argv[0])),
    ensures
        machine::stepped(m, e).0 == (MachineV {
            sinks: state::printed(
                m.sinks,
                io.stderr,
                "bash: "@ + argv[0] + ": command not found\n"@,
            ),
            ctl: CtlV::Given(GivenV::Status(127)),
            ..m
        }),
        !(machine::stepped(m, e).1 is Exec),
{
    assert(machine::stepped(m, e).0.stack =~= m.stack);
}

/// A redirect that cannot be done leaves the command undone: its status, and the
/// last status of the shell, is 1.
pub proof fn a_bad_redirect_fails(
    state: StateV,
    sinks: SinksV,
    head: ast::RedirectV,
    cmd: ast::SimpleV,
    argv: Seq<Seq<char>>,
    base: IoV,
    cur: IoV,
    target: Seq<char>,
)
    requires
        machine::redirected(state, cur, head, target) is Err,
    ensures
        ({
            let n = machine::after_redirect(state, sinks, head, cmd, argv, base, cur, target);
            &&& n.state == (StateV { last_status: 1, ..state })
            &&& n.ctl == CtlV::Given(GivenV::Status(1))
        }),
{
}

/// The word of a text in single quotes: its literal, behind an empty one where the
/// text would else be read as a reserved word or an assignment.
pub open spec fn in_single_quotes(t: Seq<char>) -> WordV {
    if lexer::hides(t, Some(0)) {
        seq![PartV::Lit(seq![]), PartV::Lit(t)]
    } else {
        seq![PartV::Lit(t)]
    }
}

/// Text in single quotes is one word and means itself, whatever it holds: no part
/// of it is expanded, and it is neither a reserved word nor an assignment.
pub proof fn single_quotes_are_literal(t: Seq<char>)
    requires
        forall|i: int| 0 <= i < t.len() ==> t[i] != '\'',
        t.len() > 0,
    ensures
        lexer::tokens_of(seq!['\''] + t + seq!['\'']) == Ok::<Seq<TokV>, LexErrorV>(
            seq![TokV::Word(in_single_quotes(t)), TokV::Eof],
        ),
        ast::plain_of(in_single_quotes(t)) matches Some(p) ==> p == t && !ast::is_reserved(t),
        parser::assignment_of(in_single_quotes(t)) is None,
{
    let s = seq!['\''] + t + seq!['\''];
    text::lemma_index_from(s, '\'', 1);
    text::lemma_index_from(t, '=', 0);
    let e = text::index_from(s, '\'', 1);
    assert(e == t.len() + 1) by {
        if e < t.len() + 1 {
            assert(s[e] == t[e - 1]);
        }
        assert(s[t.len() as int + 1] == '\'');
    }
    assert(s.subrange(1, e) =~= t);
    let none: Seq<char> = seq![];
    let parts: WordV = seq![];
    let w = in_single_quotes(t);
    assert(none + t =~= t);
    assert(lexer::flushed(t, parts, Some(0)) =~= w);
    assert(lexer::word_from(s, e + 1, t, parts, Some(0), None) == Ok::<(WordV, Option<Seq<char>>, int), LexErrorV>(
        (w, None, e + 1),
    ));
    assert(lexer::marked(None, none.len() as int) == Some(0int));
    assert(lexer::word_from(s, 0, none, parts, None, None) == Ok::<(WordV, Option<Seq<char>>, int), LexErrorV>(
        (w, None, e + 1),
    ));
    lemma_one_word(s, w);
    assert(text::index_from(none, '=', 0) >= none.len());
}

/// A text that starts with a quote and is one word has the tokens of that word.
proof fn lemma_one_word(s: Seq<char>, w: WordV)
    requires
        s.len() > 0,
        s[0] == '\'' || s[0] == '"',
        lexer::word_from(s, 0, seq![], seq![], None, None) == Ok::<(WordV, Option<Seq<char>>, int), LexErrorV>(
            (w, None, s.len() as int),
        ),
    ensures
        lexer::tokens_of(s) == Ok::<Seq<TokV>, LexErrorV>(seq![TokV::Word(w), TokV::Eof]),
{
    let e = s.len() as int;
    assert(lexer::blank_end(s, 0) == 0);
    assert(lexer::next_from(s, 0) == Ok::<(LexemeV, int), LexErrorV>(
        (LexemeV::Tok(TokV::Word(w)), e),
    ));
    let toks: Seq<TokV> = seq![];
    let one = toks.push(TokV::Word(w));
    assert(lexer::lex_from(s, e, one, seq![]) == Ok::<Seq<TokV>, LexErrorV>(one.push(TokV::Eof)));
    assert(one.push(TokV::Eof) =~= seq![TokV::Word(w), TokV::Eof]);
}

proof fn lemma_quoted_run(s: Seq<char>, pos: int, t: Seq<char>)
    requires
        forall|i: int| 0 <= i < t.len() ==> t[i] != '"' && t[i] != '\\' && t[i] != '$',
        s == seq!['"'] + t + seq!['"'],
        1 <= pos <= t.len() + 1,
    ensures
        lexer::dquote_from(s, pos, t.take(pos - 1), seq![], 0) == Ok::<(WordV, int), LexErrorV>(
            (seq![PartV::Quoted(t)], s.len() as int),
        ),
    decreases s.len() - pos,
{
    if pos == t.len() + 1 {
        assert(t.take(pos - 1) =~= t);
        let none: WordV = seq![];
        assert(none.push(PartV::Quoted(t)) =~= seq![PartV::Quoted(t)]);
    } else {
        assert(s[pos] == t[pos - 1]);
        assert(t.take(pos - 1).push(s[pos]) =~= t.take(pos));
        lemma_quoted_run(s, pos + 1, t);
    }
}

/// Text in double quotes, where it holds nothing that these expand, is one quoted
/// word: neither a reserved word nor an assignment, whatever else it holds.
pub proof fn double_quotes_are_quoted(t: Seq<char>)
    requires
        forall|i: int| 0 <= i < t.len() ==> t[i] != '"' && t[i] != '\\' && t[i] != '$',
    ensures
        lexer::tokens_of(seq!['"'] + t + seq!['"']) == Ok::<Seq<TokV>, LexErrorV>(
            seq![TokV::Word(seq![PartV::Quoted(t)]), TokV::Eof],
        ),
        ast::plain_of(seq![PartV::Quoted(t)]) is None,
        parser::assignment_of(seq![PartV::Quoted(t)]) is None,
{
    let s = seq!['"'] + t + seq!['"'];
    lemma_quoted_run(s, 1, t);
    assert(t.take(0) =~= seq![]);
    let e = s.len() as int;
    let w = seq![PartV::Quoted(t)];
    assert(lexer::flushed(seq![], seq![], None) =~= seq![]);
    assert(lexer::word_from(s, e, seq![], w, None, None) == Ok::<(WordV, Option<Seq<char>>, int), LexErrorV>(
        (w, None, e),
    ));
    lemma_one_word(s, w);
}

/// A comment is nothing: a line that starts with `#` has no tokens.
pub proof fn comments_are_skipped(t: Seq<char>)
    requires
        forall|i: int| 0 <= i < t.len() ==> t[i] != '\n',
    ensures
        parser::commands_of(seq!['#'] + t) == Ok::<Seq<CmdV>, Seq<char>>(seq![]),
{
    reveal(parser::commands_of);
    let s = seq!['#'] + t;
    text::lemma_index_from(s, '\n', 0);
    let e = text::index_from(s, '\n', 0);
    assert(e == s.len()) by {
        if e < s.len() && e > 0 {
            assert(s[e] == t[e - 1]);
        }
    }
    assert(lexer::blank_end(s, 0) == 0);
    let toks: Seq<TokV> = seq![];
    let one = toks.push(TokV::Eof);
    assert(lexer::next_from(s, 0) == Ok::<(LexemeV, int), LexErrorV>(
        (LexemeV::Tok(TokV::Eof), e),
    ));
    assert(lexer::lex_from(s, e, one, seq![]) == Ok::<Seq<TokV>, LexErrorV>(one.push(TokV::Eof)));
    assert(lexer::tokens_of(s) == Ok::<Seq<TokV>, LexErrorV>(one.push(TokV::Eof)));
    let all = one.push(TokV::Eof);
    assert(parser::at(all, 0) is Eof);
    assert(parser::separators_end(all, 0) == 0);
    assert(parser::g_list(all, 0, parser::Stop::Top, false, seq![]) == Ok::<
        (Seq<CmdV>, int),
        Seq<char>,
    >((seq![], 0)));
}

// ---- every value goes to a frame that waits for one of its kind ----

pub open spec fn wants_status(f: FrameV) -> bool {
    !(f is ForWords || f is Words || f is Redirs || f is Assigns || f is Word)
}

pub open spec fn gives_status(f: FrameV) -> bool {
    !(f is Word || f is Sub)
}

pub open spec fn will_give_status(c: CtlV) -> bool {
    match c {
        CtlV::Expand { .. } => false,
        CtlV::Given(GivenV::Fields(_)) => false,
        _ => true,
    }
}

pub open spec fn chained(stack: Seq<FrameV>) -> bool {
    &&& stack.len() > 0 ==> gives_status(stack[0])
    &&& forall|i: int|
        0 < i < stack.len() ==> wants_status(stack[i - 1]) == gives_status(#[trigger] stack[i])
}

/// Each frame waits for what the frame above it gives, the top frame for what the
/// machine is about to make, and the bottom gives a status.
pub open spec fn well_typed(m: MachineV) -> bool {
    &&& chained(m.stack)
    &&& will_give_status(m.ctl) == (m.stack.len() == 0 || wants_status(m.stack.last()))
}

proof fn lemma_chain_drop(stack: Seq<FrameV>)
    requires
        chained(stack),
        stack.len() > 0,
    ensures
        chained(stack.drop_last()),
        gives_status(stack.last()) == (stack.len() == 1 || wants_status(
            stack.drop_last().last(),
        )),
{
    let d = stack.drop_last();
    assert forall|i: int| 0 < i < d.len() implies wants_status(d[i - 1]) == gives_status(
        #[trigger] d[i],
    ) by {
        assert(d[i] == stack[i]);
    }
    if stack.len() > 1 {
        assert(gives_status(stack[stack.len() - 1]) == wants_status(stack[stack.len() - 2]));
    }
}

proof fn lemma_chain_push(stack: Seq<FrameV>, f: FrameV)
    requires
        chained(stack),
        gives_status(f) == (stack.len() == 0 || wants_status(stack.last())),
    ensures
        chained(stack.push(f)),
{
    let d = stack.push(f);
    assert forall|i: int| 0 < i < d.len() implies wants_status(d[i - 1]) == gives_status(
        #[trigger] d[i],
    ) by {
        if i < stack.len() {
            assert(d[i] == stack[i]);
        }
    }
}

/// What a transition pushes fits: it gives what was to be given, and its top gets
/// what the machine will make.
pub open spec fn fits(push: Seq<FrameV>, ctl: CtlV, status: bool) -> bool {
    if push.len() == 0 {
        will_give_status(ctl) == status
    } else {
        &&& gives_status(push[0]) == status
        &&& will_give_status(ctl) == wants_status(push.last())
        &&& push.len() >= 2 ==> wants_status(push[0]) == gives_status(push[1])
        &&& push.len() >= 3 ==> wants_status(push[1]) == gives_status(push[2])
        &&& push.len() <= 3
    }
}

proof fn lemma_transition_fits(m: MachineV, e: EventV)
    requires
        !(m.ctl is Given),
    ensures
        ({
            let n = machine::transition(m.state, m.sinks, m.ctl, None, e);
            fits(n.push, n.ctl, will_give_status(m.ctl))
        }),
{
}

proof fn lemma_resume_fits(m: MachineV, f: FrameV, v: GivenV)
    ensures
        ({
            let n = machine::resume(m.state, m.sinks, f, v);
            fits(n.push, n.ctl, gives_status(f))
        }),
{
}

/// No step ever hands a frame a value of the wrong kind: the chain of frames
/// stays well typed.
pub proof fn values_reach_their_frames(m: MachineV, e: EventV)
    requires
        well_typed(m),
    ensures
        well_typed(machine::stepped(m, e).0),
{
    let next = machine::stepped(m, e).0;
    if m.sinks.writes.len() > 0 {
    } else if machine::pops(m) {
        let v = m.ctl->Given_0;
        let f = m.stack.last();
        let below = m.stack.drop_last();
        lemma_chain_drop(m.stack);
        lemma_resume_fits(m, f, v);
        let n = machine::resume(m.state, m.sinks, f, v);
        lemma_stack_fits(below, n.push, n.ctl, gives_status(f));
    } else if m.ctl is Given {
        assert(next.stack =~= m.stack);
    } else {
        lemma_transition_fits(m, e);
        let n = machine::transition(m.state, m.sinks, m.ctl, None, e);
        lemma_stack_fits(m.stack, n.push, n.ctl, will_give_status(m.ctl));
    }
}

proof fn lemma_stack_fits(below: Seq<FrameV>, push: Seq<FrameV>, ctl: CtlV, status: bool)
    requires
        chained(below),
        fits(push, ctl, status),
        status == (below.len() == 0 || wants_status(below.last())),
    ensures
        chained(below + push),
        will_give_status(ctl) == ((below + push).len() == 0 || wants_status((below + push).last())),
{
    if push.len() == 0 {
        assert(below + push =~= below);
    } else {
        let a = below.push(push[0]);
        lemma_chain_push(below, push[0]);
        if push.len() == 1 {
            assert(below + push =~= a);
        } else {
            let b = a.push(push[1]);
            lemma_chain_push(a, push[1]);
            if push.len() == 2 {
                assert(below + push =~= b);
            } else {
                lemma_chain_push(b, push[2]);
                assert(below + push =~= b.push(push[2]));
            }
        }
    }
}

/// A script starts well typed, so it stays so.
pub proof fn scripts_start_well_typed(list: Seq<CmdV>, env: Pairs, root: Seq<char>, cwd: Seq<char>)
    ensures
        well_typed(crate::shell::interp::started(list, env, root, cwd)),
{
}

} // verus!
