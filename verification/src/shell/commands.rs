//! What simple commands do: their words, redirects and assignments, the builtins,
//! and the programs that they run.
use crate::shell::ast::{CmdV, OpV, PartV, RedirectV, SimpleV, WordV};
use crate::shell::exec;
use crate::shell::heredoc;
use crate::shell::grammar;
use crate::shell::interp;
use crate::shell::laws;
use crate::shell::lexer;
use crate::shell::lexer::{LexErrorV, LexemeV, TokV};
use crate::shell::machine;
use crate::shell::machine::{ActionV, CtlV, EventV, FrameV, GivenV, MachineV, NextV};
use crate::shell::parser;
use crate::shell::path;
use crate::shell::runs;
use crate::shell::state;
use crate::shell::state::{FileWriteV, InV, IoV, OutV, SinksV, StateV};
use crate::shell::vars;
use crate::shell::vars::Pairs;
use crate::shell::words;
use crate::shell::words::{FieldsV, FileCheck, TestPlanV};
use crate::text;
use crate::text::Sep;
use crate::text_laws;
use vstd::prelude::*;

verus! {

proof fn lemma_builtin_names()
    ensures
        "echo"@ != "printf"@,
        "echo"@ != "cd"@,
        "echo"@ != "pwd"@,
        "echo"@ != "export"@,
        "echo"@ != "unset"@,
        "echo"@ != "set"@,
        "echo"@ != "env"@,
        "echo"@ != "exit"@,
        "echo"@ != "true"@,
        "echo"@ != "false"@,
        "echo"@ != "test"@,
        "echo"@ != "["@,
        "printf"@ != "cd"@,
        "printf"@ != "pwd"@,
        "printf"@ != "export"@,
        "printf"@ != "unset"@,
        "printf"@ != "set"@,
        "printf"@ != "env"@,
        "printf"@ != "exit"@,
        "printf"@ != "true"@,
        "printf"@ != "false"@,
        "printf"@ != "test"@,
        "printf"@ != "["@,
        "cd"@ != "pwd"@,
        "cd"@ != "export"@,
        "cd"@ != "unset"@,
        "cd"@ != "set"@,
        "cd"@ != "env"@,
        "cd"@ != "exit"@,
        "cd"@ != "true"@,
        "cd"@ != "false"@,
        "cd"@ != "test"@,
        "cd"@ != "["@,
        "pwd"@ != "export"@,
        "pwd"@ != "unset"@,
        "pwd"@ != "set"@,
        "pwd"@ != "env"@,
        "pwd"@ != "exit"@,
        "pwd"@ != "true"@,
        "pwd"@ != "false"@,
        "pwd"@ != "test"@,
        "pwd"@ != "["@,
        "export"@ != "unset"@,
        "export"@ != "set"@,
        "export"@ != "env"@,
        "export"@ != "exit"@,
        "export"@ != "true"@,
        "export"@ != "false"@,
        "export"@ != "test"@,
        "export"@ != "["@,
        "unset"@ != "set"@,
        "unset"@ != "env"@,
        "unset"@ != "exit"@,
        "unset"@ != "true"@,
        "unset"@ != "false"@,
        "unset"@ != "test"@,
        "unset"@ != "["@,
        "set"@ != "env"@,
        "set"@ != "exit"@,
        "set"@ != "true"@,
        "set"@ != "false"@,
        "set"@ != "test"@,
        "set"@ != "["@,
        "env"@ != "exit"@,
        "env"@ != "true"@,
        "env"@ != "false"@,
        "env"@ != "test"@,
        "env"@ != "["@,
        "exit"@ != "true"@,
        "exit"@ != "false"@,
        "exit"@ != "test"@,
        "exit"@ != "["@,
        "true"@ != "false"@,
        "true"@ != "test"@,
        "true"@ != "["@,
        "false"@ != "test"@,
        "false"@ != "["@,
        "test"@ != "["@,
{
    reveal_strlit("echo");
    reveal_strlit("printf");
    reveal_strlit("cd");
    reveal_strlit("pwd");
    reveal_strlit("export");
    reveal_strlit("unset");
    reveal_strlit("set");
    reveal_strlit("env");
    reveal_strlit("exit");
    reveal_strlit("true");
    reveal_strlit("false");
    reveal_strlit("test");
    reveal_strlit("[");
    assert("echo"@.len() == 4);
    assert("printf"@.len() == 6);
    assert("cd"@.len() == 2);
    assert("pwd"@.len() == 3);
    assert("export"@.len() == 6);
    assert("unset"@.len() == 5);
    assert("set"@.len() == 3);
    assert("env"@.len() == 3);
    assert("exit"@.len() == 4);
    assert("true"@.len() == 4);
    assert("false"@.len() == 5);
    assert("test"@.len() == 4);
    assert("["@.len() == 1);
    assert("echo"@[1] != "exit"@[1]);
    assert("echo"@[0] != "true"@[0]);
    assert("echo"@[0] != "test"@[0]);
    assert("printf"@[0] != "export"@[0]);
    assert("pwd"@[0] != "set"@[0]);
    assert("pwd"@[0] != "env"@[0]);
    assert("unset"@[0] != "false"@[0]);
    assert("set"@[0] != "env"@[0]);
    assert("exit"@[0] != "true"@[0]);
    assert("exit"@[0] != "test"@[0]);
    assert("true"@[1] != "test"@[1]);
}


// ---- words ----

/// The words of a command are expanded one after the other, and the fields of each
/// go behind those of the ones before; then come the redirects, with all of them.
pub proof fn words_make_the_arguments(
    m: MachineV,
    q: MachineV,
    below: Seq<FrameV>,
    cmd: SimpleV,
    argv: Seq<Seq<char>>,
    io: IoV,
    e: EventV,
)
    requires
        m.ctl == (CtlV::Words { cmd, argv, io }),
        m.sinks.writes.len() == 0,
    ensures
        cmd.words.len() == 0 ==> runs::goes_on(
            m,
            e,
            m.stack,
            CtlV::Redirect { cmd, argv, base: io, cur: io },
        ),
        cmd.words.len() > 0 ==> runs::goes_on(
            m,
            e,
            m.stack.push(
                FrameV::Words {
                    cmd: SimpleV { words: cmd.words.skip(1), ..cmd },
                    argv,
                    io,
                },
            ),
            CtlV::Expand { rest: cmd.words[0], acc: words::no_fields(), join: false },
        ),
        runs::ended(q, below.len() as int + 1) && q.stack == below.push(
            FrameV::Words { cmd, argv, io },
        ) ==> runs::goes_on(
            q,
            e,
            below,
            CtlV::Words { cmd, argv: argv + runs::fields(q), io },
        ),
{
    reveal(runs::next);
    if cmd.words.len() == 0 {
        assert(runs::next(m, e).stack =~= m.stack);
    } else {
        assert(runs::next(m, e).stack =~= m.stack.push(
            FrameV::Words { cmd: SimpleV { words: cmd.words.skip(1), ..cmd }, argv, io },
        ));
    }
    let f = FrameV::Words { cmd, argv, io };
    if runs::ended(q, below.len() as int + 1) && q.stack == below.push(f) {
        assert(q.stack.drop_last() =~= below);
        assert(q.stack.last() == f);
        assert(runs::next(q, e).stack =~= below);
    }
}

/// The words of a `for` loop are expanded one after the other; the values are the
/// fields of all, in their order.
pub proof fn for_words_make_the_values(
    m: MachineV,
    q: MachineV,
    below: Seq<FrameV>,
    var: Seq<char>,
    rest: Seq<WordV>,
    values: Seq<Seq<char>>,
    body: Seq<CmdV>,
    io: IoV,
    e: EventV,
)
    requires
        m.sinks.writes.len() == 0,
    ensures
        m.ctl == (CtlV::Run {
            cmd: CmdV::For { var, words: rest, body },
            io,
        }) ==> runs::goes_on(
            m,
            e,
            m.stack,
            CtlV::ForWords { var, rest, values: seq![], body, io },
        ),
        m.ctl == (CtlV::ForWords { var, rest, values, body, io }) && rest.len() == 0
            ==> runs::goes_on(
            m,
            e,
            m.stack.push(FrameV::ForBody { var, rest: values, body, io }),
            runs::hands_on(0),
        ),
        m.ctl == (CtlV::ForWords { var, rest, values, body, io }) && rest.len() > 0
            ==> runs::goes_on(
            m,
            e,
            m.stack.push(FrameV::ForWords { var, rest: rest.skip(1), values, body, io }),
            CtlV::Expand { rest: rest[0], acc: words::no_fields(), join: false },
        ),
        runs::ended(q, below.len() as int + 1) && q.stack == below.push(
            FrameV::ForWords { var, rest, values, body, io },
        ) ==> runs::goes_on(
            q,
            e,
            below,
            CtlV::ForWords { var, rest, values: values + runs::fields(q), body, io },
        ),
{
    reveal(runs::next);
    assert(m.stack + seq![] =~= m.stack);
    assert(m.stack + seq![FrameV::ForBody { var, rest: values, body, io }] =~= m.stack.push(
        FrameV::ForBody { var, rest: values, body, io },
    ));
    assert(m.stack + seq![FrameV::ForWords { var, rest: rest.skip(1), values, body, io }]
        =~= m.stack.push(FrameV::ForWords { var, rest: rest.skip(1), values, body, io }));
    let f = FrameV::ForWords { var, rest, values, body, io };
    if runs::ended(q, below.len() as int + 1) && q.stack == below.push(f) {
        assert(q.stack.drop_last() =~= below);
        assert(q.stack.last() == f);
        assert(runs::next(q, e).stack =~= below);
    }
}

/// Text between an unquoted expansion and its neighbours: where the value has
/// several words, the first joins what stands before it and the last what stands
/// behind it; where it has one, all is one field; where it has none, it is as if it
/// were not there.
pub proof fn expansions_join_their_neighbours(
    a: Seq<char>,
    v: Seq<char>,
    b: Seq<char>,
)
    requires
        a.len() > 0,
        b.len() > 0,
    ensures
        ({
            let t = text::pieces(Sep::White, seq![], v);
            let n = t.len() as int;
            let f = words::finished(
                words::add_whole(
                    words::add_split(words::add_whole(words::no_fields(), a), v),
                    b,
                ),
            );
            if n == 0 {
                f == seq![a + b]
            } else if n == 1 {
                f == seq![a + t[0] + b]
            } else {
                f == seq![a + t[0]] + t.subrange(1, n - 1) + seq![t[n - 1] + b]
            }
        }),
{
    let t = text::pieces(Sep::White, seq![], v);
    let n = t.len() as int;
    let x = words::add_whole(words::no_fields(), a);
    assert(x.cur =~= a);
    let y = words::add_split(x, v);
    let z = words::add_whole(y, b);
    let f = words::finished(z);
    if n == 0 {
        assert(f =~= seq![a + b]);
    } else if n == 1 {
        assert(f =~= seq![a + t[0] + b]);
    } else {
        assert(y.done =~= seq![a + t[0]] + t.skip(1));
        assert(y.done.last() == t[n - 1]);
        assert(f =~= seq![a + t[0]] + t.subrange(1, n - 1) + seq![t[n - 1] + b]);
    }
}

/// The texts one behind the other.
pub open spec fn run_together(parts: Seq<Seq<char>>) -> Seq<char>
    decreases parts.len(),
{
    if parts.len() == 0 {
        seq![]
    } else {
        run_together(parts.drop_last()) + parts.last()
    }
}

pub open spec fn all_whole(parts: Seq<Seq<char>>) -> FieldsV
    decreases parts.len(),
{
    if parts.len() == 0 {
        words::no_fields()
    } else {
        words::add_whole(all_whole(parts.drop_last()), parts.last())
    }
}

/// A word of unsplit parts, at least one, is one field: its parts one behind the
/// other, though they be empty.
pub proof fn unsplit_parts_make_one_field(parts: Seq<Seq<char>>)
    requires
        parts.len() > 0,
    ensures
        words::finished(all_whole(parts)) == seq![run_together(parts)],
{
    lemma_all_whole(parts);
    if run_together(parts).len() == 0 {
        assert(run_together(parts) =~= seq![]);
    }
    assert(words::finished(all_whole(parts)) =~= seq![run_together(parts)]);
}

proof fn lemma_all_whole(parts: Seq<Seq<char>>)
    ensures
        all_whole(parts) == (FieldsV {
            done: seq![],
            cur: run_together(parts),
            after_expansion: false,
            saw_literal: parts.len() > 0,
        }),
    decreases parts.len(),
{
    if parts.len() > 0 {
        lemma_all_whole(parts.drop_last());
    }
}

/// The parts of a word are expanded one after the other. Literal and quoted text is
/// itself; a variable stands for its value, unset for nothing, `$?` for the last
/// status; the value is split at white space only where it is unquoted and the word
/// may be split. The fields of a finished word are handed on.
pub proof fn parts_are_expanded_in_order(
    m: MachineV,
    p: PartV,
    rest: WordV,
    acc: FieldsV,
    join: bool,
    e: EventV,
)
    requires
        m.sinks.writes.len() == 0,
    ensures
        m.ctl == (CtlV::Expand { rest: seq![], acc, join }) ==> runs::goes_on(
            m,
            e,
            m.stack,
            CtlV::Given(GivenV::Fields(words::finished(acc))),
        ),
        m.ctl == (CtlV::Expand { rest: seq![p] + rest, acc, join }) ==> match p {
            PartV::Lit(s) => runs::goes_on(
                m,
                e,
                m.stack,
                CtlV::Expand { rest, acc: words::add_whole(acc, s), join },
            ),
            PartV::Quoted(s) => runs::goes_on(
                m,
                e,
                m.stack,
                CtlV::Expand { rest, acc: words::add_whole(acc, s), join },
            ),
            PartV::VarQuoted(name) => runs::goes_on(
                m,
                e,
                m.stack,
                CtlV::Expand {
                    rest,
                    acc: words::add_whole(acc, machine::var_value(m.state, name)),
                    join,
                },
            ),
            PartV::Var(name) => runs::goes_on(
                m,
                e,
                m.stack,
                CtlV::Expand {
                    rest,
                    acc: if join {
                        words::add_whole(acc, machine::var_value(m.state, name))
                    } else {
                        words::add_split(acc, machine::var_value(m.state, name))
                    },
                    join,
                },
            ),
            _ => true,
        },
{
    reveal(runs::next);
    assert(m.stack + seq![] =~= m.stack);
    assert((seq![p] + rest).skip(1) =~= rest);
}

/// What a substitution gave goes into the word it stands in: whole where it is
/// quoted or the word is not split, else split at white space.
pub proof fn substitutions_join_their_word(
    q: MachineV,
    below: Seq<FrameV>,
    rest: WordV,
    acc: FieldsV,
    join: bool,
    quoted: bool,
    out: Seq<char>,
    e: EventV,
)
    requires
        runs::ended(q, below.len() as int + 1),
        q.stack == below.push(FrameV::Word { rest, acc, join, quoted }),
        q.ctl == CtlV::Given(GivenV::Fields(seq![out])),
    ensures
        runs::goes_on(
            q,
            e,
            below,
            CtlV::Expand {
                rest,
                acc: if quoted || join {
                    words::add_whole(acc, out)
                } else {
                    words::add_split(acc, out)
                },
                join,
            },
        ),
{
    reveal(runs::next);
    assert(q.stack.drop_last() =~= below);
    assert(q.stack.last() == FrameV::Word { rest, acc, join, quoted });
    assert(runs::next(q, e).stack =~= below);
}

/// A variable has the value it was set to, none where it is not set; `$?` is the
/// status of the last command, and `$#` is always 0.
pub proof fn variables_have_their_values(st: StateV, name: Seq<char>, value: Seq<char>)
    requires
        text::is_name(name),
    ensures
        machine::var_value(
            StateV { env: vars::with(st.env, name, value), ..st },
            name,
        ) == value,
        vars::value_of(st.env, name) is None ==> machine::var_value(st, name).len() == 0,
        text::integer(machine::var_value(st, "?"@)) == Some(st.last_status as int),
        text::integer(machine::var_value(st, "#"@)) == Some(0int),
{
    reveal_strlit("?");
    reveal_strlit("#");
    reveal_strlit("0");
    vars::set_then_get(st.env, name, value, name);
    assert(text::is_name_char(name[0]));
    assert("?"@[0] == '?' && "#"@[0] == '#');
    assert(name != "?"@ && name != "#"@);
    text_laws::a_written_number_reads_back(st.last_status as int);
    text_laws::a_written_number_reads_back(0);
    assert(text::decimal(0) =~= "0"@);
}

// ---- redirects ----

/// A redirect of an fd says where that fd goes from then on, and leaves the other
/// fds: `>` and `>>` to a file, from its start or at its end, `<` from a file, `N>&M`
/// to where `M` goes now. The file is the one that the word names from the working
/// directory on.
pub proof fn a_redirect_moves_one_fd(
    st: StateV,
    cur: IoV,
    fd: u32,
    word: WordV,
    target: Seq<char>,
    to: u32,
)
    ensures
        ({
            let file = path::resolved(st.root, st.cwd, target);
            let out = |r: RedirectV| machine::redirected(st, cur, r, target);
            &&& out(RedirectV { fd: 1, op: OpV::Out, target: word }) == Ok::<IoV, Seq<char>>(
                IoV { stdout: OutV::File { path: file, append: false }, ..cur },
            )
            &&& out(RedirectV { fd: 1, op: OpV::Append, target: word }) == Ok::<IoV, Seq<char>>(
                IoV { stdout: OutV::File { path: file, append: true }, ..cur },
            )
            &&& out(RedirectV { fd: 2, op: OpV::Out, target: word }) == Ok::<IoV, Seq<char>>(
                IoV { stderr: OutV::File { path: file, append: false }, ..cur },
            )
            &&& out(RedirectV { fd: 2, op: OpV::Append, target: word }) == Ok::<IoV, Seq<char>>(
                IoV { stderr: OutV::File { path: file, append: true }, ..cur },
            )
            &&& out(RedirectV { fd: 0, op: OpV::In, target: word }) == Ok::<IoV, Seq<char>>(
                IoV { stdin: InV::File(file), ..cur },
            )
            &&& out(RedirectV { fd: 2, op: OpV::Dup(1), target: word }) == Ok::<IoV, Seq<char>>(
                IoV { stderr: cur.stdout, ..cur },
            )
            &&& out(RedirectV { fd: 1, op: OpV::Dup(2), target: word }) == Ok::<IoV, Seq<char>>(
                IoV { stdout: cur.stderr, ..cur },
            )
            &&& out(RedirectV { fd, op: OpV::HereString, target: word }) == Ok::<IoV, Seq<char>>(
                IoV {
                    stdin: InV::Buffer(vstd::utf8::encode_utf8(target + seq!['\n'])),
                    ..cur
                },
            )
            &&& fd != 0 ==> out(RedirectV { fd, op: OpV::In, target: word }) is Err
            &&& fd != 1 && fd != 2 ==> out(RedirectV { fd, op: OpV::Out, target: word }) is Err
                && out(RedirectV { fd, op: OpV::Append, target: word }) is Err && out(
                RedirectV { fd, op: OpV::Dup(to), target: word },
            ) is Err
        }),
{
    assert(target + seq!['\n'] =~= target.push('\n'));
}

/// The redirects of a command are done one after the other, each on what the ones
/// before have made of the fds; the last of them come to the command. The word of a
/// redirect is expanded first; that of a here-string is not split.
pub proof fn redirects_are_done_in_order(
    m: MachineV,
    q: MachineV,
    below: Seq<FrameV>,
    cmd: SimpleV,
    r: RedirectV,
    argv: Seq<Seq<char>>,
    base: IoV,
    cur: IoV,
    e: EventV,
)
    requires
        m.ctl == (CtlV::Redirect { cmd, argv, base, cur }),
        m.sinks.writes.len() == 0,
    ensures
        cmd.redirects.len() == 0 ==> runs::goes_on(
            m,
            e,
            m.stack,
            CtlV::Assign { cmd, argv, io: cur, local: seq![] },
        ),
        cmd.redirects.len() > 0 && (cmd.redirects[0].op is Out || cmd.redirects[0].op is Append
            || cmd.redirects[0].op is In || cmd.redirects[0].op is HereString) ==> runs::goes_on(
            m,
            e,
            m.stack.push(
                FrameV::Redirs {
                    head: cmd.redirects[0],
                    cmd: SimpleV { redirects: cmd.redirects.skip(1), ..cmd },
                    argv,
                    base,
                    cur,
                },
            ),
            CtlV::Expand {
                rest: cmd.redirects[0].target,
                acc: words::no_fields(),
                join: cmd.redirects[0].op is HereString,
            },
        ),
        cmd.redirects.len() > 0 && cmd.redirects[0].op is Dup ==> (machine::redirected(
            m.state,
            cur,
            cmd.redirects[0],
            seq![],
        ) matches Ok(io) ==> runs::goes_on(
            m,
            e,
            m.stack,
            CtlV::Redirect {
                cmd: SimpleV { redirects: cmd.redirects.skip(1), ..cmd },
                argv,
                base,
                cur: io,
            },
        )),
        runs::ended(q, below.len() as int + 1) && q.stack == below.push(
            FrameV::Redirs { head: r, cmd, argv, base, cur },
        ) && runs::fields(q).len() > 0 ==> (machine::redirected(
            q.state,
            cur,
            r,
            runs::fields(q)[0],
        ) matches Ok(io) ==> runs::goes_on(
            q,
            e,
            below,
            CtlV::Redirect { cmd, argv, base, cur: io },
        )),
{
    reveal(runs::next);
    assert(m.stack + seq![] =~= m.stack);
    if cmd.redirects.len() > 0 {
        let w = FrameV::Redirs {
            head: cmd.redirects[0],
            cmd: SimpleV { redirects: cmd.redirects.skip(1), ..cmd },
            argv,
            base,
            cur,
        };
        assert(m.stack + seq![w] =~= m.stack.push(w));
    }
    let f = FrameV::Redirs { head: r, cmd, argv, base, cur };
    if runs::ended(q, below.len() as int + 1) && q.stack == below.push(f) {
        assert(q.stack.drop_last() =~= below);
        assert(q.stack.last() == f);
        assert(below + seq![] =~= below);
    }
}

// ---- assignments ----

/// Assignments are done one after the other, their values unsplit. Without a command
/// word each sets a variable of the shell; before a command each goes to that command
/// only. A command then runs with its arguments and its own variables, and its status
/// becomes `$?`.
pub proof fn assignments_are_done_in_order(
    m: MachineV,
    q: MachineV,
    below: Seq<FrameV>,
    name: Seq<char>,
    cmd: SimpleV,
    argv: Seq<Seq<char>>,
    io: IoV,
    local: Pairs,
    e: EventV,
)
    requires
        m.ctl == (CtlV::Assign { cmd, argv, io, local }),
        m.sinks.writes.len() == 0,
    ensures
        cmd.assignments.len() > 0 ==> runs::goes_on(
            m,
            e,
            m.stack.push(
                FrameV::Assigns {
                    name: cmd.assignments[0].0,
                    cmd: SimpleV { assignments: cmd.assignments.skip(1), ..cmd },
                    argv,
                    io,
                    local,
                },
            ),
            CtlV::Expand { rest: cmd.assignments[0].1, acc: words::no_fields(), join: true },
        ),
        cmd.assignments.len() == 0 && argv.len() == 0 ==> runs::goes_on(
            m,
            e,
            m.stack,
            runs::hands_on(0),
        ),
        cmd.assignments.len() == 0 && argv.len() > 0 ==> runs::goes_on(
            m,
            e,
            m.stack.push(FrameV::SetLast),
            CtlV::Dispatch { argv, io, local },
        ),
        runs::ended(q, below.len() as int + 1) && q.stack == below.push(
            FrameV::Assigns { name, cmd, argv, io, local },
        ) && runs::fields(q).len() > 0 ==> {
            let n = runs::next(q, e);
            &&& n.stack == below
            &&& n.sinks == q.sinks
            &&& if argv.len() == 0 {
                &&& vars::value_of(n.state.env, name) == Some(runs::fields(q)[0])
                &&& n.state == (StateV { env: n.state.env, ..q.state })
                &&& forall|other: Seq<char>|
                    other != name ==> #[trigger] vars::value_of(n.state.env, other)
                        == vars::value_of(q.state.env, other)
                &&& n.ctl == (CtlV::Assign { cmd, argv, io, local })
            } else {
                &&& n.state == q.state
                &&& n.ctl matches CtlV::Assign { cmd: c, argv: a, io: i, local: l } && c == cmd
                    && a == argv && i == io && vars::value_of(l, name) == Some(
                    runs::fields(q)[0],
                ) && (forall|other: Seq<char>|
                    other != name ==> #[trigger] vars::value_of(l, other) == vars::value_of(
                        local,
                        other,
                    ))
            }
        },
        runs::ended(q, below.len() as int + 1) && q.stack == below.push(FrameV::SetLast)
            ==> runs::next(q, e) == (MachineV {
            state: StateV { last_status: runs::status(q), ..q.state },
            stack: below,
            ctl: runs::hands_on(runs::status(q)),
            ..q
        }),
{
    reveal(runs::next);
    assert(m.stack + seq![] =~= m.stack);
    assert(m.stack + seq![FrameV::SetLast] =~= m.stack.push(FrameV::SetLast));
    if cmd.assignments.len() > 0 {
        let w = FrameV::Assigns {
            name: cmd.assignments[0].0,
            cmd: SimpleV { assignments: cmd.assignments.skip(1), ..cmd },
            argv,
            io,
            local,
        };
        assert(m.stack + seq![w] =~= m.stack.push(w));
    }
    assert(below + seq![] =~= below);
    if runs::ended(q, below.len() as int + 1) {
        if q.stack == below.push(FrameV::SetLast) {
            assert(q.stack.drop_last() =~= below);
            assert(q.stack.last() == FrameV::SetLast);
        }
        let f = FrameV::Assigns { name, cmd, argv, io, local };
        if q.stack == below.push(f) && runs::fields(q).len() > 0 {
            assert(q.stack.drop_last() =~= below);
            assert(q.stack.last() == f);
            let v = runs::fields(q)[0];
            vars::set_then_get(q.state.env, name, v, name);
            vars::set_then_get(local, name, v, name);
            assert forall|other: Seq<char>| other != name implies #[trigger] vars::value_of(
                vars::with(q.state.env, name, v),
                other,
            ) == vars::value_of(q.state.env, other) by {
                vars::set_then_get(q.state.env, name, v, other);
            }
            assert forall|other: Seq<char>| other != name implies #[trigger] vars::value_of(
                vars::with(local, name, v),
                other,
            ) == vars::value_of(local, other) by {
                vars::set_then_get(local, name, v, other);
            }
        }
    }
}

// ---- builtins ----

/// Nothing but the status.
pub open spec fn only_status(st: StateV, sinks: SinksV, s: i32) -> NextV {
    NextV {
        state: st,
        sinks,
        push: seq![],
        ctl: CtlV::Given(GivenV::Status(s)),
        action: ActionV::Continue,
    }
}

/// The bytes of a text behind what a sink holds already, and nothing else changed.
pub open spec fn gets(before: SinksV, after: SinksV, out: OutV, t: Seq<char>) -> bool {
    let data = vstd::utf8::encode_utf8(t);
    match out {
        OutV::Main => after == (SinksV { stdout: before.stdout + data, ..before }),
        OutV::Error => after == (SinksV { stderr: before.stderr + data, ..before }),
        OutV::Buffer(n) => 0 <= n < before.buffers.len() ==> after == (SinksV {
            buffers: before.buffers.update(n, before.buffers[n] + data),
            ..before
        }),
        OutV::File { path, append } => after == (SinksV {
            writes: before.writes.push(FileWriteV { path, append, data }),
            ..before
        }),
    }
}

/// `echo` prints its arguments with a blank between neighbours and a newline at the
/// end, which `-n` leaves out, and always gives 0.
pub proof fn echo_prints_its_arguments(
    st: StateV,
    sinks: SinksV,
    args: Seq<Seq<char>>,
    io: IoV,
    local: Pairs,
)
    ensures
        ({
            let r = machine::dispatch(st, sinks, seq!["echo"@] + args, io, local);
            &&& r == only_status(st, r.sinks, 0)
            &&& args.len() == 0 || (args[0] != "-n"@ && args[0] != "-e"@) ==> gets(
                sinks,
                r.sinks,
                io.stdout,
                text::joined(args, " "@) + seq!['\n'],
            )
        }),
        ({
            let r = machine::dispatch(st, sinks, seq!["echo"@, "-n"@] + args, io, local);
            &&& r == only_status(st, r.sinks, 0)
            &&& gets(sinks, r.sinks, io.stdout, text::joined(args, " "@))
        }),
        ({
            let r = machine::dispatch(st, sinks, seq!["echo"@, "-e"@] + args, io, local);
            &&& r == only_status(st, r.sinks, 0)
            &&& gets(
                sinks,
                r.sinks,
                io.stdout,
                words::unescaped(text::joined(args, " "@)) + seq!['\n'],
            )
        }),
{
    reveal_strlit("-n");
    reveal_strlit("-e");
    assert("-n"@[1] != "-e"@[1]);
    let a = seq!["echo"@] + args;
    assert(a.skip(1) =~= args);
    let b = seq!["echo"@, "-n"@] + args;
    assert(b.skip(1) =~= seq!["-n"@] + args);
    assert(b.skip(1).skip(1) =~= args);
    let c = seq!["echo"@, "-e"@] + args;
    assert(c.skip(1) =~= seq!["-e"@] + args);
    assert(c.skip(1).skip(1) =~= args);
    assert(text::joined(args, " "@) + seq!['\n'] =~= text::joined(args, " "@).push('\n'));
    assert(words::unescaped(text::joined(args, " "@)) + seq!['\n'] =~= words::unescaped(
        text::joined(args, " "@),
    ).push('\n'));
}

/// What `echo -e` makes of a text: an escape stands for its character, an unknown
/// one for itself, and what is no escape stays.
pub proof fn escapes_stand_for_their_characters(c: char, s: Seq<char>)
    ensures
        words::unescaped(seq![]).len() == 0,
        c != '\\' ==> words::unescaped(seq![c] + s) == seq![c] + words::unescaped(s),
        words::unescaped(seq!['\\', 'n'] + s) == seq!['\n'] + words::unescaped(s),
        words::unescaped(seq!['\\', 't'] + s) == seq!['\t'] + words::unescaped(s),
        words::unescaped(seq!['\\', 'r'] + s) == seq!['\r'] + words::unescaped(s),
        words::unescaped(seq!['\\', '\\'] + s) == seq!['\\'] + words::unescaped(s),
        words::unescaped(seq!['\\', '"'] + s) == seq!['"'] + words::unescaped(s),
        words::unescaped(seq!['\\', '\''] + s) == seq!['\''] + words::unescaped(s),
        words::unescaped(seq!['\\', 'x'] + s) == seq!['\\', 'x'] + words::unescaped(s),
{
    assert((seq![c] + s).skip(1) =~= s);
    assert((seq!['\\', 'n'] + s).skip(2) =~= s);
    assert((seq!['\\', 't'] + s).skip(2) =~= s);
    assert((seq!['\\', 'r'] + s).skip(2) =~= s);
    assert((seq!['\\', '\\'] + s).skip(2) =~= s);
    assert((seq!['\\', '"'] + s).skip(2) =~= s);
    assert((seq!['\\', '\''] + s).skip(2) =~= s);
    assert((seq!['\\', 'x'] + s).skip(2) =~= s);
}

/// `printf` without conversions prints its format; each `%s` takes the next
/// argument, each `%d` the next one as a number, and a missing one is empty or 0.
pub proof fn printf_fills_its_format(
    head: Seq<char>,
    a: Seq<char>,
    n: int,
)
    requires
        forall|i: int| 0 <= i < head.len() ==> head[i] != '%' && head[i] != '\\',
        i64::MIN <= n <= i64::MAX,
    ensures
        words::printf_text(head, seq![], seq![]) == head,
        words::printf_text(head + seq!['%', 's'], seq![a], seq![]) == head + a,
        words::printf_text(head + seq!['%', 's'], seq![], seq![]) == head,
        words::printf_text(head + seq!['%', 'd'], seq![text::decimal(n)], seq![]) == head
            + text::decimal(n),
        words::printf_text(head + seq!['%', '%'], seq![], seq![]) == head + seq!['%'],
        words::printf_text(head + seq!['\\', 'n'], seq![], seq![]) == head + seq!['\n'],
{
    let none: Seq<char> = seq![];
    text_laws::a_written_number_reads_back(n);
    let empty: Seq<Seq<char>> = seq![];
    lemma_plain_format(head, head, 0, empty, none);
    assert(head.take(0) =~= none);
    let f1 = head + seq!['%', 's'];
    lemma_plain_format(f1, head, 0, seq![a], none);
    lemma_plain_format(f1, head, 0, empty, none);
    let f2 = head + seq!['%', 'd'];
    lemma_plain_format(f2, head, 0, seq![text::decimal(n)], none);
    let f3 = head + seq!['%', '%'];
    lemma_plain_format(f3, head, 0, empty, none);
    let f4 = head + seq!['\\', 'n'];
    lemma_plain_format(f4, head, 0, empty, none);
    let k = head.len() as int;
    assert(f1[k] == '%' && f1[k + 1] == 's');
    assert(f2[k] == '%' && f2[k + 1] == 'd');
    assert(f3[k] == '%' && f3[k + 1] == '%');
    assert(f4[k] == '\\' && f4[k + 1] == 'n');
    assert(none + head =~= head);
    assert(words::format_pass(f1, k, seq![a], seq![], 0, head) == (1int, head + a)) by {
        assert(words::format_pass(f1, k + 2, seq![a], seq![], 1, head + a) == (1int, head + a));
    }
    assert(words::format_pass(f1, k, empty, seq![], 0, head) == (0int, head)) by {
        assert(head + none =~= head);
        assert(words::format_pass(f1, k + 2, empty, seq![], 0, head) == (0int, head));
    }
    let d = text::decimal(n);
    assert(words::format_pass(f2, k, seq![d], seq![], 0, head) == (1int, head + d)) by {
        assert(words::format_pass(f2, k + 2, seq![d], seq![], 1, head + d) == (1int, head + d));
    }
    assert(words::format_pass(f3, k, empty, seq![], 0, head) == (0int, head + seq!['%'])) by {
        assert(head + seq!['%'] =~= head.push('%'));
        assert(words::format_pass(f3, k + 2, empty, seq![], 0, head.push('%')) == (
            0int,
            head.push('%'),
        ));
    }
    assert(words::format_pass(f4, k, empty, seq![], 0, head) == (0int, head + seq!['\n'])) by {
        assert(words::format_pass(f4, k + 2, empty, seq![], 0, head + seq!['\n']) == (
            0int,
            head + seq!['\n'],
        ));
    }
    assert(words::format_pass(head, k, empty, seq![], 0, head) == (0int, head));
    assert(head.skip(0) =~= head);
    assert(words::format_pass(f1, 0, seq![a], seq![], 0, none) == (1int, head + a));
    assert(words::printf_from(f1, seq![a], seq![], 0, none) == head + a);
    assert(words::format_pass(f1, 0, empty, seq![], 0, none) == (0int, head));
    assert(words::printf_from(f1, empty, seq![], 0, none) == head);
}

/// Plain characters of a format are printed as they are.
proof fn lemma_plain_format(
    f: Seq<char>,
    head: Seq<char>,
    i: int,
    args: Seq<Seq<char>>,
    out: Seq<char>,
)
    requires
        0 <= i <= head.len() <= f.len(),
        forall|j: int| 0 <= j < head.len() ==> head[j] != '%' && head[j] != '\\',
        forall|j: int| 0 <= j < head.len() ==> f[j] == head[j],
    ensures
        words::format_pass(f, i, args, seq![], 0, out) == words::format_pass(
            f,
            head.len() as int,
            args,
            seq![],
            0,
            out + head.skip(i),
        ),
    decreases head.len() - i,
{
    if i == head.len() {
        assert(out + head.skip(i) =~= out);
    } else {
        lemma_plain_format(f, head, i + 1, args, out.push(f[i]));
        assert(out.push(f[i]) + head.skip(i + 1) =~= out + head.skip(i));
    }
}

/// `true` gives 0 and `false` 1; `pwd` prints the working directory below the root;
/// `exit` asks for the exit with its number, or else with the last status; none of
/// them touches anything else.
pub proof fn small_builtins_do_what_they_say(
    st: StateV,
    sinks: SinksV,
    n: i32,
    io: IoV,
    local: Pairs,
)
    ensures
        machine::dispatch(st, sinks, seq!["true"@], io, local) == only_status(st, sinks, 0),
        machine::dispatch(st, sinks, seq!["false"@], io, local) == only_status(st, sinks, 1),
        ({
            let r = machine::dispatch(st, sinks, seq!["pwd"@], io, local);
            r == only_status(st, r.sinks, 0) && gets(
                sinks,
                r.sinks,
                io.stdout,
                seq!['/'] + st.cwd + seq!['\n'],
            )
        }),
        machine::dispatch(st, sinks, seq!["exit"@, text::decimal(n as int)], io, local)
            == only_status(StateV { exit_requested: Some(n), ..st }, sinks, n),
        machine::dispatch(st, sinks, seq!["exit"@], io, local) == only_status(
            StateV { exit_requested: Some(st.last_status), ..st },
            sinks,
            st.last_status,
        ),
{
    lemma_builtin_names();
    reveal_strlit("/");
    reveal_strlit("\n");
    text_laws::a_written_number_reads_back(n as int);
    assert("/"@ + st.cwd + "\n"@ =~= seq!['/'] + st.cwd + seq!['\n']);
}

/// `cd` asks about the directory that its argument names, home without one. Only
/// where there is one does the working directory change, to it; else it is reported
/// and gives 1.
pub proof fn cd_goes_only_to_directories(
    m: MachineV,
    dir: Seq<char>,
    io: IoV,
    local: Pairs,
    info: machine::FileInfo,
    e: EventV,
)
    requires
        m.ctl == (CtlV::Dispatch { argv: seq!["cd"@, dir], io, local }),
        m.sinks.writes.len() == 0,
    ensures
        ({
            let (w, action) = machine::stepped(m, e);
            let n = machine::stepped(w, EventV::Info(info)).0;
            let p = path::resolved(m.state.root, m.state.cwd, dir);
            &&& action == ActionV::Stat(p)
            &&& w.state == m.state && w.sinks == m.sinks && w.stack == m.stack
            &&& n.stack == m.stack
            &&& if info.is_dir {
                &&& n.state.cwd == text::joined(path::shell_names(m.state.cwd, dir), "/"@)
                &&& n.state == (StateV { cwd: n.state.cwd, ..m.state })
                &&& n.sinks == m.sinks
                &&& n.ctl == runs::hands_on(0)
            } else {
                &&& n.state == m.state
                &&& n.ctl == runs::hands_on(1)
                &&& gets(
                    m.sinks,
                    n.sinks,
                    io.stderr,
                    "bash: cd: "@ + dir + ": No such file or directory\n"@,
                )
            }
        }),
{
    lemma_builtin_names();
    let (w, action) = machine::stepped(m, e);
    assert(seq!["cd"@, dir][0] == "cd"@);
    assert(m.stack + seq![] =~= m.stack);
    path::relative_undoes_resolve(m.state.root, m.state.cwd, dir);
}

/// `export NAME=value` sets the variable and `unset NAME` takes it away; the other
/// variables stay. What is no name is refused with 1.
pub proof fn export_sets_and_unset_removes(
    st: StateV,
    sinks: SinksV,
    name: Seq<char>,
    value: Seq<char>,
    bad: Seq<char>,
    io: IoV,
    local: Pairs,
    other: Seq<char>,
)
    requires
        text::is_name(name),
        vars::ordered(st.env),
        !text::is_name(bad),
        !bad.contains('='),
        other != name,
    ensures
        ({
            let r = machine::dispatch(
                st,
                sinks,
                seq!["export"@, name + seq!['='] + value],
                io,
                local,
            );
            &&& r == only_status(StateV { env: r.state.env, ..st }, sinks, 0)
            &&& vars::value_of(r.state.env, name) == Some(value)
            &&& vars::value_of(r.state.env, other) == vars::value_of(st.env, other)
        }),
        machine::dispatch(st, sinks, seq!["export"@, bad], io, local) == only_status(st, sinks, 1),
        ({
            let r = machine::dispatch(st, sinks, seq!["unset"@, name], io, local);
            &&& r == only_status(StateV { env: r.state.env, ..st }, sinks, 0)
            &&& vars::value_of(r.state.env, name) is None
            &&& vars::value_of(r.state.env, other) == vars::value_of(st.env, other)
        }),
{
    lemma_builtin_names();
    let a = name + seq!['='] + value;
    let none: Seq<Seq<char>> = seq![];
    exports_are_done_one_by_one(st.env, name, value, bad, none, 0);
    exports_are_done_one_by_one(vars::with(st.env, name, value), name, value, bad, none, 0);
    exports_are_done_one_by_one(st.env, name, value, bad, none, 1);
    exports_are_done_one_by_one(vars::without(st.env, name), name, value, bad, none, 0);
    assert(seq![a] + none =~= seq![a]);
    assert(seq![bad] + none =~= seq![bad]);
    assert(seq![name] + none =~= seq![name]);
    assert(seq!["export"@, a].skip(1) =~= seq![a]);
    assert(seq!["export"@, bad].skip(1) =~= seq![bad]);
    assert(seq!["unset"@, name].skip(1) =~= seq![name]);
    assert(machine::exported(st.env, seq![a], 0) == (vars::with(st.env, name, value), 0i32));
    assert(machine::exported(st.env, seq![bad], 0) == (st.env, 1i32));
    assert(machine::unset_all(st.env, seq![name]) == vars::without(st.env, name));
    vars::set_then_get(st.env, name, value, other);
    vars::unset_then_get(st.env, name, other);
}

/// `env` and a bare `set` print a line `NAME=value` for each variable, in the order
/// of the names.
pub proof fn the_environment_is_printed(
    st: StateV,
    sinks: SinksV,
    p: Pairs,
    name: Seq<char>,
    value: Seq<char>,
    io: IoV,
    local: Pairs,
)
    ensures
        ({
            let r = machine::dispatch(st, sinks, seq!["env"@], io, seq![]);
            r == only_status(st, r.sinks, 0) && gets(
                sinks,
                r.sinks,
                io.stdout,
                state::joined(vars::lines_of(st.env)),
            )
        }),
        ({
            let r = machine::dispatch(st, sinks, seq!["set"@], io, local);
            r == only_status(st, r.sinks, 0) && gets(
                sinks,
                r.sinks,
                io.stdout,
                state::joined(vars::lines_of(st.env)),
            )
        }),
        state::joined(vars::lines_of(seq![])).len() == 0,
        state::joined(vars::lines_of(seq![(name, value)] + p)) == name + seq!['='] + value + seq![
            '\n',
        ] + state::joined(vars::lines_of(p)),
{
    lemma_builtin_names();
    reveal_strlit("=");
    reveal_strlit("\n");
    let all = seq![(name, value)] + p;
    let l = vars::lines_of(all);
    assert(l[0] =~= name + seq!['='] + value + seq!['\n']);
    assert(l.skip(1) =~= vars::lines_of(p));
    assert(vars::with_all(st.env, seq![]) == st.env);
}

// ---- tests ----

/// `test` tells of a text whether it is empty, of two texts whether they are equal,
/// and asks of a file what the option says; what it does not know is false.
pub proof fn tests_ask_what_they_say(a: Seq<char>, b: Seq<char>)
    ensures
        words::test_of(seq![]) == TestPlanV::Known(false),
        words::test_of(seq![a]) == TestPlanV::Known(a.len() > 0),
        words::test_of(seq!["-n"@, a]) == TestPlanV::Known(a.len() > 0),
        words::test_of(seq!["-z"@, a]) == TestPlanV::Known(a.len() == 0),
        words::test_of(seq!["!"@, a]) == TestPlanV::Known(a.len() == 0),
        words::test_of(seq!["-e"@, a]) == (TestPlanV::File { path: a, check: FileCheck::Exists }),
        words::test_of(seq!["-f"@, a]) == (TestPlanV::File { path: a, check: FileCheck::IsFile }),
        words::test_of(seq!["-d"@, a]) == (TestPlanV::File { path: a, check: FileCheck::IsDir }),
        words::test_of(seq!["-s"@, a]) == (TestPlanV::File {
            path: a,
            check: FileCheck::NotEmpty,
        }),
        words::test_of(seq![a, "="@, b]) == TestPlanV::Known(a == b),
        words::test_of(seq![a, "=="@, b]) == TestPlanV::Known(a == b),
        words::test_of(seq![a, "!="@, b]) == TestPlanV::Known(a != b),
        words::test_of(seq!["!"@, a, "="@, b]) == TestPlanV::Known(a != b),
        words::test_of(seq!["!"@, a, "!="@, b]) == TestPlanV::Known(a == b),
        words::test_of(seq![a, "-nt"@, b]) == (TestPlanV::Age { a, b, older: false }),
        words::test_of(seq![a, "-ot"@, b]) == (TestPlanV::Age { a, b, older: true }),
{
    reveal_strlit("=");
    reveal_strlit("==");
    reveal_strlit("!=");
    reveal_strlit("!");
    reveal_strlit("-n");
    reveal_strlit("-z");
    reveal_strlit("-e");
    reveal_strlit("-f");
    reveal_strlit("-d");
    reveal_strlit("-s");
    reveal_strlit("-eq");
    reveal_strlit("-ne");
    reveal_strlit("-lt");
    reveal_strlit("-le");
    reveal_strlit("-gt");
    reveal_strlit("-ge");
    reveal_strlit("-nt");
    reveal_strlit("-ot");
    assert("!="@[0] == '!' && "=="@[0] == '=');
    assert("-n"@[1] == 'n' && "-z"@[1] == 'z' && "-e"@[1] == 'e' && "-f"@[1] == 'f' && "-d"@[1]
        == 'd' && "-s"@[1] == 's');
    assert("-eq"@[1] == 'e' && "-ne"@[1] == 'n' && "-ne"@[2] == 'e' && "-lt"@[1] == 'l' && "-le"@[1]
        == 'l' && "-gt"@[1] == 'g' && "-ge"@[1] == 'g' && "-nt"@[1] == 'n' && "-nt"@[2] == 't'
        && "-ot"@[1] == 'o');
}

/// Numbers are compared as numbers: what is written for two integers compares as
/// they do.
pub proof fn numbers_compare_as_numbers(x: int, y: int)
    requires
        i64::MIN <= x <= i64::MAX,
        i64::MIN <= y <= i64::MAX,
    ensures
        ({
            let a = text::decimal(x);
            let b = text::decimal(y);
            &&& words::binary_test(a, "-eq"@, b) == TestPlanV::Known(x == y)
            &&& words::binary_test(a, "-ne"@, b) == TestPlanV::Known(x != y)
            &&& words::binary_test(a, "-lt"@, b) == TestPlanV::Known(x < y)
            &&& words::binary_test(a, "-le"@, b) == TestPlanV::Known(x <= y)
            &&& words::binary_test(a, "-gt"@, b) == TestPlanV::Known(x > y)
            &&& words::binary_test(a, "-ge"@, b) == TestPlanV::Known(x >= y)
        }),
{
    text_laws::a_written_number_reads_back(x);
    text_laws::a_written_number_reads_back(y);
    words::comparisons_come_in_pairs(text::decimal(x), text::decimal(y));
}

/// The answer about a file decides a test: the status is 0 where the file is what
/// was asked, and else 1. Of two files the later or the earlier one counts, by their
/// times.
pub proof fn file_tests_go_by_the_answer(
    m: MachineV,
    check: FileCheck,
    first: i128,
    older: bool,
    info: machine::FileInfo,
)
    requires
        m.sinks.writes.len() == 0,
    ensures
        ({
            let n = machine::stepped(m, EventV::Info(info)).0;
            let yes = match check {
                FileCheck::Exists => info.exists,
                FileCheck::IsFile => info.is_file,
                FileCheck::IsDir => info.is_dir,
                FileCheck::NotEmpty => info.is_file && info.len > 0,
            };
            m.ctl == (CtlV::AwaitTest { check }) ==> n == (MachineV {
                ctl: runs::hands_on(
                    if yes {
                        0
                    } else {
                        1
                    },
                ),
                ..m
            })
        }),
        ({
            let n = machine::stepped(m, EventV::Info(info)).0;
            let yes = if older {
                first < info.mtime
            } else {
                first > info.mtime
            };
            m.ctl == (CtlV::AwaitSecondAge { first, older }) ==> n == (MachineV {
                ctl: runs::hands_on(
                    if yes {
                        0
                    } else {
                        1
                    },
                ),
                ..m
            })
        }),
{
    assert(m.stack + seq![] =~= m.stack);
}

// ---- programs ----

/// A listed command is run with all its arguments, in the working directory, with
/// the variables of the shell and its own over them, and with what its input holds:
/// a buffer as it is, a file as it was read.
pub proof fn programs_get_their_surroundings(
    m: MachineV,
    argv: Seq<Seq<char>>,
    io: IoV,
    local: Pairs,
    data: Seq<u8>,
    e: EventV,
    name: Seq<char>,
)
    requires
        m.ctl == (CtlV::Dispatch { argv, io, local }),
        m.sinks.writes.len() == 0,
        argv.len() > 0,
        exec::is_external(argv[0]),
        !laws::is_builtin(argv[0]),
        vars::ordered(local),
    ensures
        ({
            let (w, action) = machine::stepped(m, e);
            let (n, asked) = match io.stdin {
                InV::File(_) => machine::stepped(w, EventV::Bytes(data)),
                _ => (w, action),
            };
            &&& io.stdin matches InV::File(p) ==> action == ActionV::Read(p)
            &&& w.state == m.state && w.sinks == m.sinks && w.stack == m.stack
            &&& n.state == m.state && n.sinks == m.sinks && n.stack == m.stack
            &&& asked matches ActionV::Exec(req) && req.argv == argv && req.prog == argv[0]
                && req.cwd == m.state.cwd && req.stdin == (match io.stdin {
                InV::File(_) => data,
                InV::Buffer(b) => b,
                InV::Empty => seq![],
            }) && vars::value_of(req.env, name) == match vars::value_of(local, name) {
                Some(v) => Some(v),
                None => vars::value_of(m.state.env, name),
            }
            &&& n.ctl == (CtlV::AwaitExec { io })
        }),
{
    assert(m.stack + seq![] =~= m.stack);
    vars::set_all_then_get(m.state.env, local, name);
}

/// What a program has written goes to the outputs of the command, each to its own,
/// and its status is handed on.
pub proof fn programs_hand_back_their_output(
    m: MachineV,
    io: IoV,
    status: i32,
    stdout: Seq<u8>,
    stderr: Seq<u8>,
)
    requires
        m.ctl == (CtlV::AwaitExec { io }),
        m.sinks.writes.len() == 0,
    ensures
        ({
            let n = machine::stepped(m, EventV::Ran { status, stdout, stderr }).0;
            &&& n.ctl == runs::hands_on(status)
            &&& n.state == m.state && n.stack == m.stack
            &&& io.stdout == OutV::Main && io.stderr == OutV::Error ==> n.sinks == (SinksV {
                stdout: m.sinks.stdout + stdout,
                stderr: m.sinks.stderr + stderr,
                ..m.sinks
            })
            &&& io.stdout matches OutV::Buffer(b) ==> (io.stderr == OutV::Error && (0 <= b
                < m.sinks.buffers.len()) ==> n.sinks == (SinksV {
                buffers: m.sinks.buffers.update(b, m.sinks.buffers[b] + stdout),
                stderr: m.sinks.stderr + stderr,
                ..m.sinks
            }))
            &&& io.stdout matches OutV::File { path, append } ==> (io.stderr == OutV::Error
                ==> n.sinks == (SinksV {
                writes: m.sinks.writes.push(FileWriteV { path, append, data: stdout }),
                stderr: m.sinks.stderr + stderr,
                ..m.sinks
            }))
            &&& io.stdout == OutV::Main && io.stderr == OutV::Main ==> n.sinks == (SinksV {
                stdout: m.sinks.stdout + stdout + stderr,
                ..m.sinks
            })
        }),
{
    assert(m.stack + seq![] =~= m.stack);
    assert(m.sinks.stdout + (stdout + stderr) =~= m.sinks.stdout + stdout + stderr);
}

/// A script starts with its variables, in its directory, with nothing printed and
/// the status 0, on the main streams. When it has ended its status is that of `exit`
/// where it was asked for, and else that of the last command.
pub proof fn scripts_start_clean(
    list: Seq<CmdV>,
    env: Pairs,
    root: Seq<char>,
    cwd: Seq<char>,
    st: StateV,
    code: i32,
)
    requires
        cwd.len() > 0 ==> cwd[0] != '/',
    ensures
        ({
            let m = interp::started(list, env, root, cwd);
            &&& m.state == (StateV { env, root, cwd, last_status: 0, exit_requested: None })
            &&& m.sinks.stdout.len() == 0 && m.sinks.stderr.len() == 0
            &&& m.sinks.buffers.len() == 0 && m.sinks.writes.len() == 0
            &&& m.stack == runs::list_ahead(
                seq![],
                list,
                IoV { stdin: InV::Empty, stdout: OutV::Main, stderr: OutV::Error },
            )
            &&& m.ctl == runs::hands_on(0)
            &&& runs::nested(m)
        }),
        interp::started(list, env, root, seq!['/'] + cwd).state.cwd == cwd,
        interp::final_status(StateV { exit_requested: Some(code), ..st }) == code,
        interp::final_status(StateV { exit_requested: None, ..st }) == st.last_status,
{
    let m = interp::started(list, env, root, cwd);
    assert(m.stack =~= runs::list_ahead(
        seq![],
        list,
        IoV { stdin: InV::Empty, stdout: OutV::Main, stderr: OutV::Error },
    ));
    assert((seq!['/'] + cwd).skip(1) =~= cwd);
}

// ---- more of the builtins ----

/// `cd` without an argument goes home, to the root where there is no home.
pub proof fn cd_without_an_argument_goes_home(st: StateV, home: Seq<char>)
    ensures
        vars::value_of(st.env, "HOME"@) == Some(home) ==> machine::cd_target(st, seq!["cd"@])
            == home,
        vars::value_of(st.env, "HOME"@) is None ==> machine::cd_target(st, seq!["cd"@]) == "/"@,
        machine::cd_target(st, seq!["cd"@, home]) == home,
{
}

/// `export` and `unset` take their arguments one after the other; one that is no name
/// makes the status 1 and stops none of the others.
pub proof fn exports_are_done_one_by_one(
    env: Pairs,
    name: Seq<char>,
    value: Seq<char>,
    bad: Seq<char>,
    rest: Seq<Seq<char>>,
    s: i32,
)
    requires
        text::is_name(name),
        !text::is_name(bad),
        !bad.contains('='),
    ensures
        machine::exported(env, seq![name + seq!['='] + value] + rest, s) == machine::exported(
            vars::with(env, name, value),
            rest,
            s,
        ),
        machine::exported(env, seq![bad] + rest, s) == machine::exported(env, rest, 1),
        machine::exported(env, seq![], s) == (env, s),
        machine::unset_all(env, seq![name] + rest) == machine::unset_all(
            vars::without(env, name),
            rest,
        ),
        machine::unset_all(env, seq![]) == env,
{
    let a = name + seq!['='] + value;
    let n = name.len() as int;
    text::lemma_index_from(a, '=', 0);
    let eq = text::index_from(a, '=', 0);
    assert(a[n] == '=');
    assert(eq == n) by {
        if eq < n {
            assert(a[eq] == name[eq]);
            assert(text::is_name_char(name[eq]));
        }
    }
    assert(a.take(n) =~= name);
    assert(a.skip(n + 1) =~= value);
    assert((seq![a] + rest).skip(1) =~= rest);
    text::lemma_index_from(bad, '=', 0);
    let e = text::index_from(bad, '=', 0);
    if e < bad.len() {
        assert(bad.contains(bad[e]));
    }
    assert(bad.take(bad.len() as int) =~= bad);
    assert((seq![bad] + rest).skip(1) =~= rest);
    assert((seq![name] + rest).skip(1) =~= rest);
}

/// `env NAME=value command` runs the command with that variable, over the command's
/// own assignments and the shell's variables, and hands it no other assignments; the
/// frame that puts the old values back is below it.
pub proof fn env_runs_with_its_overrides(
    st: StateV,
    sinks: SinksV,
    name: Seq<char>,
    value: Seq<char>,
    cmd: Seq<char>,
    args: Seq<Seq<char>>,
    io: IoV,
    local: Pairs,
)
    requires
        text::is_name(name),
        !cmd.contains('='),
        vars::ordered(local),
    ensures
        ({
            let r = machine::run_env(
                st,
                sinks,
                seq!["env"@, name + seq!['='] + value, cmd] + args,
                io,
                local,
            );
            &&& r.ctl == (CtlV::Dispatch { argv: seq![cmd] + args, io, local: seq![] })
            &&& vars::value_of(r.state.env, name) == Some(value)
            &&& r.state == (StateV { env: r.state.env, ..st })
            &&& r.sinks == sinks
            &&& r.push.len() == 1
            &&& r.push[0] is EnvRestore
        }),
{
    let a = name + seq!['='] + value;
    let argv = seq!["env"@, a, cmd] + args;
    let n = name.len() as int;
    text::lemma_index_from(a, '=', 0);
    let eq = text::index_from(a, '=', 0);
    assert(a[n] == '=');
    assert(eq == n) by {
        if eq < n {
            assert(a[eq] == name[eq]);
            assert(text::is_name_char(name[eq]));
        }
    }
    assert(a.take(n) =~= name);
    assert(a.skip(n + 1) =~= value);
    text::lemma_index_from(cmd, '=', 0);
    let e = text::index_from(cmd, '=', 0);
    if e < cmd.len() {
        assert(cmd.contains(cmd[e]));
    }
    let over = vars::with(local, name, value);
    assert(argv[1] == a && argv[2] == cmd);
    assert(machine::overrides(argv, 2, over) == (over, 2int));
    assert(machine::overrides(argv, 1, local) == (over, 2int));
    assert(argv.skip(2) =~= seq![cmd] + args);
    vars::set_keeps_order(local, name, value);
    vars::set_all_then_get(st.env, over, name);
    vars::set_then_get(local, name, value, name);
}

/// What `env` had changed is put back when its command has ended, and its status is
/// handed on.
pub proof fn env_puts_the_old_values_back(
    q: MachineV,
    below: Seq<FrameV>,
    name: Seq<char>,
    was: Option<Seq<char>>,
    e: EventV,
)
    requires
        runs::ended(q, below.len() as int + 1),
        q.stack == below.push(FrameV::EnvRestore { saved: seq![(name, was)] }),
        vars::ordered(q.state.env),
    ensures
        ({
            let n = runs::next(q, e);
            &&& vars::value_of(n.state.env, name) == was
            &&& n.stack == below
            &&& n.sinks == q.sinks
            &&& n.ctl == runs::hands_on(runs::status(q))
            &&& n.state == (StateV { env: n.state.env, ..q.state })
        }),
{
    reveal(runs::next);
    let f = FrameV::EnvRestore { saved: seq![(name, was)] };
    assert(q.stack.drop_last() =~= below);
    assert(q.stack.last() == f);
    assert(below + seq![] =~= below);
    let saved = seq![(name, was)];
    assert(saved.skip(1) =~= seq![]);
    match was {
        Some(v) => {
            assert(machine::restored(q.state.env, saved) == vars::with(q.state.env, name, v)) by {
                assert(machine::restored(vars::with(q.state.env, name, v), saved.skip(1))
                    == vars::with(q.state.env, name, v));
            }
            vars::set_then_get(q.state.env, name, v, name);
        },
        None => {
            assert(machine::restored(q.state.env, saved) == vars::without(q.state.env, name)) by {
                assert(machine::restored(vars::without(q.state.env, name), saved.skip(1))
                    == vars::without(q.state.env, name));
            }
            vars::unset_then_get(q.state.env, name, name);
        },
    }
}

/// `printf %s` prints all its arguments, one behind the other: the format is used
/// again until none is left.
pub proof fn printf_uses_every_argument(args: Seq<Seq<char>>)
    requires
        args.len() > 0,
    ensures
        words::printf_text(seq!['%', 's'], args, seq![]) == run_together(args),
{
    assert(args.take(0) =~= seq![]);
    lemma_printf_all(args, 0);
    assert(args.take(args.len() as int) =~= args);
}

proof fn lemma_printf_all(args: Seq<Seq<char>>, k: int)
    requires
        0 <= k < args.len(),
    ensures
        words::printf_from(seq!['%', 's'], args, seq![], k, run_together(args.take(k)))
            == run_together(args.take(args.len() as int)),
    decreases args.len() - k,
{
    let f = seq!['%', 's'];
    let out = run_together(args.take(k));
    let next = args.take(k + 1);
    assert(next.drop_last() =~= args.take(k));
    assert(next.last() == args[k]);
    assert(words::format_pass(f, 2, args, seq![], k + 1, out + args[k]) == (
        k + 1,
        out + args[k],
    ));
    assert(words::format_pass(f, 0, args, seq![], k, out) == (k + 1, run_together(next)));
    if k + 1 < args.len() {
        lemma_printf_all(args, k + 1);
    }
}

/// `test` of a file asks about the file that its word names; of two files it asks
/// about the first, and then about the second with the first one's time.
pub proof fn file_tests_ask_about_their_files(
    m: MachineV,
    a: Seq<char>,
    b: Seq<char>,
    check: FileCheck,
    older: bool,
    info: machine::FileInfo,
    other: Seq<char>,
    args: Seq<Seq<char>>,
)
    requires
        m.sinks.writes.len() == 0,
    ensures
        words::test_of(args) == (TestPlanV::File { path: a, check }) ==> {
            let r = machine::run_test(m.state, m.sinks, args);
            &&& r.action == ActionV::Stat(path::resolved(m.state.root, m.state.cwd, a))
            &&& r.ctl == (CtlV::AwaitTest { check })
            &&& r.state == m.state && r.sinks == m.sinks
        },
        words::test_of(args) == (TestPlanV::Age { a, b, older }) ==> {
            let r = machine::run_test(m.state, m.sinks, args);
            &&& r.action == ActionV::Stat(path::resolved(m.state.root, m.state.cwd, a))
            &&& r.ctl == (CtlV::AwaitFirstAge {
                other: path::resolved(m.state.root, m.state.cwd, b),
                older,
            })
        },
        words::test_of(args) == TestPlanV::Known(true) ==> machine::run_test(
            m.state,
            m.sinks,
            args,
        ) == only_status(m.state, m.sinks, 0),
        words::test_of(args) == TestPlanV::Known(false) ==> machine::run_test(
            m.state,
            m.sinks,
            args,
        ) == only_status(m.state, m.sinks, 1),
        m.ctl == (CtlV::AwaitFirstAge { other, older }) ==> machine::stepped(
            m,
            EventV::Info(info),
        ) == (
            MachineV { ctl: CtlV::AwaitSecondAge { first: info.mtime, older }, ..m },
            ActionV::Stat(other),
        ),
{
    assert(m.stack + seq![] =~= m.stack);
}

// ---- paths and heredocs ----

/// The names of a path: one more name at its end is one more name.
proof fn lemma_names_end(p: Seq<char>, name: Seq<char>)
    requires
        name.len() > 0,
        !name.contains('/'),
    ensures
        path::names_of(p + seq!['/'] + name) == path::names_of(p).push(name),
{
    text_laws::texts_split_at_separators(Sep::Slash, p, '/', name);
    assert forall|i: int| 0 <= i < name.len() implies !text::is_sep(
        Sep::Slash,
        #[trigger] name[i],
    ) by {
        assert(name.contains(name[i]));
    }
    text_laws::texts_split_at_separators(Sep::Slash, name, '/', seq![]);
    assert(p + seq!['/'] + name =~= p.push('/') + name);
    assert(path::names_of(p + seq!['/'] + name) =~= path::names_of(p).push(name));
}

proof fn lemma_walk_end(base: Seq<Seq<char>>, names: Seq<Seq<char>>, name: Seq<char>)
    ensures
        path::walk(base, names.push(name)) == path::descend(path::walk(base, names), name),
    decreases names.len(),
{
    let all = names.push(name);
    if names.len() == 0 {
        assert(all.skip(1) =~= seq![]);
        assert(path::walk(path::descend(base, name), seq![]) == path::descend(base, name));
    } else {
        assert(all.skip(1) =~= names.skip(1).push(name));
        assert(all[0] == names[0]);
        lemma_walk_end(path::descend(base, names[0]), names.skip(1), name);
    }
}

/// A path is followed name by name: a name goes down, `.` stays, `..` goes up but not
/// above the root; an absolute path starts at the root and any other at the working
/// directory.
pub proof fn paths_are_followed_name_by_name(cwd: Seq<char>, p: Seq<char>, name: Seq<char>)
    requires
        p.len() > 0,
        name.len() > 0,
        !name.contains('/'),
    ensures
        ({
            let at = path::shell_names(cwd, p);
            let then_at = path::shell_names(cwd, p + seq!['/'] + name);
            &&& name != "."@ && name != ".."@ ==> then_at == at.push(name)
            &&& name == "."@ ==> then_at == at
            &&& name == ".."@ ==> then_at == if at.len() > 0 {
                at.drop_last()
            } else {
                at
            }
        }),
        path::shell_names(cwd, "/"@).len() == 0,
        path::is_absolute(p) ==> path::shell_names(cwd, p) == path::shell_names(seq![], p),
        path::shell_names(cwd, "."@) == path::shell_names(seq![], cwd) || path::is_absolute(cwd),
{
    reveal_strlit(".");
    reveal_strlit("..");
    reveal_strlit("/");
    let q = p + seq!['/'] + name;
    assert(q[0] == p[0]);
    lemma_names_end(p, name);
    lemma_walk_end(
        if path::is_absolute(p) {
            seq![]
        } else {
            path::walk(seq![], path::names_of(cwd))
        },
        path::names_of(p),
        name,
    );
    assert("."@.len() == 1 && ".."@.len() == 2);
    let root = "/"@;
    let none: Seq<char> = seq![];
    assert(root =~= none.push('/') + none);
    text_laws::texts_split_at_separators(Sep::Slash, none, '/', none);
    assert(path::names_of(root) =~= seq![]);
    assert(path::walk(seq![], path::names_of(root)).len() == 0);
    let dot = "."@;
    text_laws::texts_split_at_separators(Sep::Slash, dot, '/', none);
    assert(path::names_of(dot) =~= seq![dot]) by {
        assert(!text::is_sep(Sep::Slash, dot[0]));
    }
    lemma_walk_end(path::walk(seq![], path::names_of(cwd)), seq![], dot);
    let no_names: Seq<Seq<char>> = seq![];
    assert(no_names.push(dot) =~= seq![dot]);
    text_laws::texts_split_at_separators(Sep::Slash, none, '/', none);
    assert(path::names_of(none) =~= seq![]);
    assert(path::walk(seq![], path::names_of(none)) =~= seq![]);
}

/// A command given by a path is known by the last name of it.
pub proof fn commands_are_known_by_their_last_name(p: Seq<char>, name: Seq<char>)
    requires
        name.len() > 0,
        !name.contains('/'),
        name != "."@,
        name != ".."@,
    ensures
        path::base_name(p + seq!['/'] + name) == name,
        path::base_name(name) == name,
{
    lemma_names_end(p, name);
    let c = path::components(p + seq!['/'] + name);
    assert(path::names_of(p).push(name).drop_last() =~= path::names_of(p));
    assert(c.last() == name);
    assert forall|i: int| 0 <= i < name.len() implies !text::is_sep(
        Sep::Slash,
        #[trigger] name[i],
    ) by {
        assert(name.contains(name[i]));
    }
    text_laws::texts_split_at_separators(Sep::Slash, name, '/', seq![]);
    assert(path::names_of(name) =~= seq![name]);
    let one = seq![name];
    assert(one.drop_last() =~= seq![]);
    assert(path::drop_dots(one.drop_last()) =~= seq![]);
    assert(path::components(name) =~= seq![name]);
}

/// The text of a heredoc is itself, character by character, but for `$` and for a
/// backslash before `$`, a backquote or a backslash, which it takes away.
pub proof fn heredoc_text_is_itself(s: Seq<char>, i: int, had: WordV)
    requires
        0 <= i < s.len(),
    ensures
        s[i] != '$' && s[i] != '\\' ==> heredoc::doc_parts(s, i, had) == heredoc::doc_parts(
            s,
            i + 1,
            had.push(PartV::Lit(seq![s[i]])),
        ),
        s[i] == '\\' && i + 1 < s.len() && (s[i + 1] == '$' || s[i + 1] == '`' || s[i + 1] == '\\')
            ==> heredoc::doc_parts(s, i, had) == heredoc::doc_parts(
            s,
            i + 2,
            had.push(PartV::Lit(seq![s[i + 1]])),
        ),
        s[i] == '\\' && (i + 1 == s.len() || (s[i + 1] != '$' && s[i + 1] != '`' && s[i + 1]
            != '\\')) ==> heredoc::doc_parts(s, i, had) == heredoc::doc_parts(
            s,
            i + 1,
            had.push(PartV::Lit(seq!['\\'])),
        ),
        s[i] == '$' && i + 1 < s.len() && s[i + 1] == '?' ==> heredoc::doc_parts(s, i, had)
            == heredoc::doc_parts(s, i + 2, had.push(PartV::VarQuoted(seq!['?']))),
        heredoc::doc_parts(s, s.len() as int, had) == had,
{
}

/// A variable in a heredoc is the variable of that name, unsplit.
pub proof fn heredoc_variables_are_variables(name: Seq<char>, rest: Seq<char>)
    requires
        name.len() > 0,
        forall|i: int| 0 <= i < name.len() ==> text::is_name_char(#[trigger] name[i]),
        rest.len() == 0 || !text::is_name_char(rest[0]),
    ensures
        heredoc::doc_dollar(seq!['$'] + name + rest, 0) == (
            PartV::VarQuoted(name),
            name.len() as int + 1,
        ),
{
    let a = seq!['$'] + name + rest;
    grammar::dollars_name_their_variable(name, rest, true);
    assert(a[1] == name[0]);
    assert(text::is_name_char(name[0]));
}

/// A script that is accepted is the list that its tokens make.
pub proof fn a_script_is_the_list_of_its_tokens(
    src: Seq<char>,
    t: Seq<TokV>,
    l: Seq<CmdV>,
    q: int,
)
    requires
        parser::commands_of(src) is Ok,
        lexer::tokens_of(src) == Ok::<
            Seq<TokV>,
            LexErrorV,
        >(t),
        parser::g_list(t, 0, parser::Stop::Top, false, seq![]) == Ok::<
            (Seq<CmdV>, int),
            Seq<char>,
        >((l, q)),
    ensures
        parser::commands_of(src) == Ok::<
            Seq<CmdV>,
            Seq<char>,
        >(l),
{
    reveal(parser::commands_of);
}

/// The tokens of a script are read one after the other, each behind those before.
pub proof fn tokens_are_read_in_order(
    s: Seq<char>,
    pos: int,
    had: Seq<TokV>,
    t: TokV,
    p: int,
)
    requires
        0 <= pos < s.len(),
        lexer::next_from(s, pos) == Ok::<
            (LexemeV, int),
            LexErrorV,
        >((LexemeV::Tok(t), p)),
    ensures
        lexer::lex_from(s, pos, had, seq![]) == lexer::lex_from(
            s,
            p,
            had.push(t),
            seq![],
        ),
        lexer::lex_from(s, s.len() as int, had, seq![]) == Ok::<
            Seq<TokV>,
            LexErrorV,
        >(had.push(TokV::Eof)),
        lexer::tokens_of(s) == lexer::lex_from(s, 0, seq![], seq![]),
{
}

} // verus!
