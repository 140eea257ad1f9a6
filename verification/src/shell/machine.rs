//! What one step of the interpreter does, as functions on views.
//!
//! The interpreter is a machine with a stack of frames: each frame waits for the
//! status of a command or for the fields of a word. Files and external commands
//! are outside: a step hands out an action, and the driver hands the answer to
//! the next step. One step does a bounded amount of work, so a script that loops
//! forever is a driver that steps forever.
use crate::shell::ast::{CmdV, ElifV, OpV, PartV, RedirectV, SimpleV, WordV};
use crate::shell::exec;
use crate::shell::exec::ExecRequestV;
use crate::shell::heredoc;
use crate::shell::parser;
use crate::shell::path;
use crate::shell::state;
use crate::shell::state::{FileWriteV, InV, IoV, OutV, SinksV, StateV};
use crate::shell::vars;
use crate::shell::vars::Pairs;
use crate::shell::words;
use crate::shell::words::{FieldsV, FileCheck, TestPlanV};
use crate::text;
use vstd::prelude::*;

verus! {

/// What is known of a file. A file that is not there has none of it, and the
/// epoch as its time.
#[derive(Clone, Copy)]
pub struct FileInfo {
    pub exists: bool,
    pub is_file: bool,
    pub is_dir: bool,
    pub len: u64,
    pub mtime: i128,
}

/// What a finished command or word hands to the frame below it.
#[verifier::ext_equal]
pub enum GivenV {
    Status(i32),
    Fields(Seq<Seq<char>>),
}

/// A continuation.
pub enum FrameV {
    /// The commands of a list that are still to run.
    List { rest: Seq<CmdV>, io: IoV },
    /// `&&` or `||`, its left side running.
    AndOr { and: bool, rhs: CmdV, io: IoV },
    /// A pipeline, one stage running; `buf` takes its output unless it is the last.
    Pipeline { negated: bool, rest: Seq<SimpleV>, io: IoV, buf: Option<int> },
    /// `if`, a condition running; `body` belongs to it.
    If { body: Seq<CmdV>, elifs: Seq<ElifV>, els: Option<Seq<CmdV>>, io: IoV },
    /// `for`, a word of its list being expanded.
    ForWords {
        var: Seq<char>,
        rest: Seq<WordV>,
        values: Seq<Seq<char>>,
        body: Seq<CmdV>,
        io: IoV,
    },
    /// `for`, its body running; `rest` are the values still to come.
    ForBody { var: Seq<char>, rest: Seq<Seq<char>>, body: Seq<CmdV>, io: IoV },
    /// A loop, its condition running.
    WhileCond { cond: Seq<CmdV>, body: Seq<CmdV>, until: bool, io: IoV },
    /// A loop, its body running.
    WhileBody { cond: Seq<CmdV>, body: Seq<CmdV>, until: bool, io: IoV },
    /// A subshell: what is put back when it ends.
    Subshell { env: Pairs, cwd: Seq<char>, exit: Option<i32> },
    /// A simple command, one of its words being expanded.
    Words { cmd: SimpleV, argv: Seq<Seq<char>>, io: IoV },
    /// A simple command, the target of the redirect `head` being expanded.
    Redirs { head: RedirectV, cmd: SimpleV, argv: Seq<Seq<char>>, base: IoV, cur: IoV },
    /// A simple command, the value for `name` being expanded.
    Assigns { name: Seq<char>, cmd: SimpleV, argv: Seq<Seq<char>>, io: IoV, local: Pairs },
    /// A dispatched command, whose status becomes `$?`.
    SetLast,
    /// A word, a command substitution of it running.
    Word { rest: WordV, acc: FieldsV, join: bool, quoted: bool },
    /// A command substitution: what is put back, and the buffer of its output.
    Sub { env: Pairs, cwd: Seq<char>, exit: Option<i32>, buf: int },
    /// `env NAME=value command`: the values that the names had.
    EnvRestore { saved: Seq<(Seq<char>, Option<Seq<char>>)> },
}

/// What the machine is about to do.
pub enum CtlV {
    /// Run a command.
    Run { cmd: CmdV, io: IoV },
    /// Expand the next word of a simple command.
    Words { cmd: SimpleV, argv: Seq<Seq<char>>, io: IoV },
    /// Apply the next redirect of a simple command.
    Redirect { cmd: SimpleV, argv: Seq<Seq<char>>, base: IoV, cur: IoV },
    /// Do the next assignment of a simple command.
    Assign { cmd: SimpleV, argv: Seq<Seq<char>>, io: IoV, local: Pairs },
    /// Run a builtin or an external command.
    Dispatch { argv: Seq<Seq<char>>, io: IoV, local: Pairs },
    /// Expand the next word of a `for` list.
    ForWords {
        var: Seq<char>,
        rest: Seq<WordV>,
        values: Seq<Seq<char>>,
        body: Seq<CmdV>,
        io: IoV,
    },
    /// Expand the next part of a word; `join` means without splitting.
    Expand { rest: WordV, acc: FieldsV, join: bool },
    /// Hand a value to the top frame.
    Given(GivenV),
    AwaitCd { dir: Seq<char>, path: Seq<char>, io: IoV },
    AwaitTest { check: FileCheck },
    AwaitFirstAge { other: Seq<char>, older: bool },
    AwaitSecondAge { first: i128, older: bool },
    AwaitFloats { fmt: Seq<char>, args: Seq<Seq<char>>, io: IoV },
    AwaitStdin { argv: Seq<Seq<char>>, io: IoV, local: Pairs },
    AwaitExec { io: IoV },
}

/// What the driver is asked to do before the next step.
pub enum ActionV {
    /// Nothing; step again.
    Continue,
    Write(FileWriteV),
    /// Read a file; a file that cannot be read is empty.
    Read(Seq<char>),
    Stat(Seq<char>),
    Exec(ExecRequestV),
    /// Render texts as floating-point numbers, one by one.
    Floats(Seq<Seq<char>>),
    /// The script has ended.
    Done,
}

/// What the driver answers.
pub enum EventV {
    Ready,
    Bytes(Seq<u8>),
    Info(FileInfo),
    Texts(Seq<Seq<char>>),
    Ran { status: i32, stdout: Seq<u8>, stderr: Seq<u8> },
}

pub struct MachineV {
    pub state: StateV,
    pub sinks: SinksV,
    pub stack: Seq<FrameV>,
    pub ctl: CtlV,
}

/// The outcome of a step: the new state and output, the frames that take the
/// place of the top one, what comes next, and what the driver is asked to do.
pub struct NextV {
    pub state: StateV,
    pub sinks: SinksV,
    pub push: Seq<FrameV>,
    pub ctl: CtlV,
    pub action: ActionV,
}

pub open spec fn go(state: StateV, sinks: SinksV, push: Seq<FrameV>, ctl: CtlV) -> NextV {
    NextV { state, sinks, push, ctl, action: ActionV::Continue }
}

pub open spec fn ends(state: StateV, sinks: SinksV, status: i32) -> NextV {
    go(state, sinks, seq![], CtlV::Given(GivenV::Status(status)))
}

pub open spec fn asks(state: StateV, sinks: SinksV, ctl: CtlV, action: ActionV) -> NextV {
    NextV { state, sinks, push: seq![], ctl, action }
}

/// Running a list: it starts with status 0.
pub open spec fn runs_list(
    state: StateV,
    sinks: SinksV,
    below: Seq<FrameV>,
    list: Seq<CmdV>,
    io: IoV,
) -> NextV {
    go(
        state,
        sinks,
        below.push(FrameV::List { rest: list, io }),
        CtlV::Given(GivenV::Status(0)),
    )
}

pub open spec fn status_of(v: GivenV) -> i32 {
    match v {
        GivenV::Status(s) => s,
        GivenV::Fields(_) => 0,
    }
}

pub open spec fn fields_of(v: GivenV) -> Seq<Seq<char>> {
    match v {
        GivenV::Status(_) => seq![],
        GivenV::Fields(f) => f,
    }
}

/// The first field, or nothing.
pub open spec fn first_text(f: Seq<Seq<char>>) -> Seq<char> {
    if f.len() > 0 {
        f[0]
    } else {
        seq![]
    }
}

pub open spec fn negated_status(negated: bool, s: i32) -> i32 {
    if !negated {
        s
    } else if s == 0 {
        1
    } else {
        0
    }
}

// ---- commands ----

/// The next stage of a pipeline. All but the last write into a buffer.
pub open spec fn stage(
    state: StateV,
    sinks: SinksV,
    negated: bool,
    stages: Seq<SimpleV>,
    io: IoV,
    stdin: InV,
) -> NextV {
    let last = stages.len() <= 1;
    let n = sinks.buffers.len() as int;
    let stage_io = IoV {
        stdin,
        stdout: if last {
            io.stdout
        } else {
            OutV::Buffer(n)
        },
        stderr: io.stderr,
    };
    go(
        state,
        if last {
            sinks
        } else {
            SinksV { buffers: sinks.buffers.push(seq![]), ..sinks }
        },
        seq![
            FrameV::Pipeline {
                negated,
                rest: stages.skip(1),
                io,
                buf: if last {
                    None
                } else {
                    Some(n)
                },
            },
        ],
        CtlV::Words { cmd: stages[0], argv: seq![], io: stage_io },
    )
}

pub open spec fn run(state: StateV, sinks: SinksV, cmd: CmdV, io: IoV) -> NextV {
    match cmd {
        CmdV::Simple(s) => go(state, sinks, seq![], CtlV::Words { cmd: s, argv: seq![], io }),
        CmdV::AndOr { lhs, and, rhs } => go(
            state,
            sinks,
            seq![FrameV::AndOr { and, rhs: *rhs, io }],
            CtlV::Run { cmd: *lhs, io },
        ),
        CmdV::Pipeline { negated, stages } => if stages.len() == 0 {
            ends(state, sinks, negated_status(negated, 0))
        } else {
            stage(state, sinks, negated, stages, io, io.stdin)
        },
        CmdV::If { cond, body, elifs, els } => runs_list(
            state,
            sinks,
            seq![FrameV::If { body, elifs, els, io }],
            cond,
            io,
        ),
        CmdV::For { var, words, body } => go(
            state,
            sinks,
            seq![],
            CtlV::ForWords { var, rest: words, values: seq![], body, io },
        ),
        CmdV::While { cond, body, until } => go(
            state,
            sinks,
            seq![FrameV::WhileBody { cond, body, until, io }],
            CtlV::Given(GivenV::Status(0)),
        ),
        CmdV::Subshell(body) => runs_list(
            state,
            sinks,
            seq![
                FrameV::Subshell { env: state.env, cwd: state.cwd, exit: state.exit_requested },
            ],
            body,
            io,
        ),
        CmdV::Brace(body) => runs_list(state, sinks, seq![], body, io),
    }
}

pub open spec fn for_words(
    state: StateV,
    sinks: SinksV,
    var: Seq<char>,
    rest: Seq<WordV>,
    values: Seq<Seq<char>>,
    body: Seq<CmdV>,
    io: IoV,
) -> NextV {
    if rest.len() == 0 {
        go(
            state,
            sinks,
            seq![FrameV::ForBody { var, rest: values, body, io }],
            CtlV::Given(GivenV::Status(0)),
        )
    } else {
        go(
            state,
            sinks,
            seq![FrameV::ForWords { var, rest: rest.skip(1), values, body, io }],
            CtlV::Expand { rest: rest[0], acc: words::no_fields(), join: false },
        )
    }
}

// ---- simple commands ----

pub open spec fn simple_words(
    state: StateV,
    sinks: SinksV,
    cmd: SimpleV,
    argv: Seq<Seq<char>>,
    io: IoV,
) -> NextV {
    if cmd.words.len() == 0 {
        go(state, sinks, seq![], CtlV::Redirect { cmd, argv, base: io, cur: io })
    } else {
        go(
            state,
            sinks,
            seq![FrameV::Words { cmd: SimpleV { words: cmd.words.skip(1), ..cmd }, argv, io }],
            CtlV::Expand { rest: cmd.words[0], acc: words::no_fields(), join: false },
        )
    }
}

/// The fds after one redirect whose word has expanded to `target`.
pub open spec fn redirected(state: StateV, cur: IoV, r: RedirectV, target: Seq<char>) -> Result<
    IoV,
    Seq<char>,
> {
    let file = path::resolved(state.root, state.cwd, target);
    match r.op {
        OpV::In => if r.fd == 0 {
            Ok(IoV { stdin: InV::File(file), ..cur })
        } else {
            Err("fd "@ + text::decimal(r.fd as int) + ": bad input redirect"@)
        },
        OpV::Out | OpV::Append => {
            let o = OutV::File { path: file, append: r.op is Append };
            if r.fd == 1 {
                Ok(IoV { stdout: o, ..cur })
            } else if r.fd == 2 {
                Ok(IoV { stderr: o, ..cur })
            } else {
                Err("fd "@ + text::decimal(r.fd as int) + ": unsupported output redirect"@)
            }
        },
        OpV::Dup(to) => {
            let o = match state::fd_of(cur, to) {
                Some(o) => o,
                None => OutV::Error,
            };
            if r.fd == 1 {
                Ok(IoV { stdout: o, ..cur })
            } else if r.fd == 2 {
                Ok(IoV { stderr: o, ..cur })
            } else {
                Err("fd "@ + text::decimal(r.fd as int) + ": unsupported dup redirect"@)
            }
        },
        OpV::HereString => Ok(
            IoV { stdin: InV::Buffer(vstd::utf8::encode_utf8(target.push('\n'))), ..cur },
        ),
        OpV::Heredoc { .. } => Ok(
            IoV { stdin: InV::Buffer(vstd::utf8::encode_utf8(target)), ..cur },
        ),
    }
}

/// A redirect that cannot be done is reported on the stderr that the command had,
/// and the command counts as failed.
pub open spec fn after_redirect(
    state: StateV,
    sinks: SinksV,
    head: RedirectV,
    cmd: SimpleV,
    argv: Seq<Seq<char>>,
    base: IoV,
    cur: IoV,
    target: Seq<char>,
) -> NextV {
    match redirected(state, cur, head, target) {
        Ok(io) => go(state, sinks, seq![], CtlV::Redirect { cmd, argv, base, cur: io }),
        Err(msg) => ends(
            StateV { last_status: 1, ..state },
            state::printed(sinks, base.stderr, "bash: "@ + msg + "\n"@),
            1,
        ),
    }
}

pub open spec fn simple_redirect(
    state: StateV,
    sinks: SinksV,
    cmd: SimpleV,
    argv: Seq<Seq<char>>,
    base: IoV,
    cur: IoV,
) -> NextV {
    if cmd.redirects.len() == 0 {
        go(state, sinks, seq![], CtlV::Assign { cmd, argv, io: cur, local: seq![] })
    } else {
        let r = cmd.redirects[0];
        let rest = SimpleV { redirects: cmd.redirects.skip(1), ..cmd };
        let wait = seq![FrameV::Redirs { head: r, cmd: rest, argv, base, cur }];
        match r.op {
            OpV::Dup(_) => after_redirect(state, sinks, r, rest, argv, base, cur, seq![]),
            OpV::Heredoc { body, expand } => if expand {
                go(
                    state,
                    sinks,
                    wait,
                    CtlV::Expand {
                        rest: heredoc::doc_word(body),
                        acc: words::no_fields(),
                        join: true,
                    },
                )
            } else {
                go(state, sinks, wait, CtlV::Given(GivenV::Fields(seq![body])))
            },
            OpV::HereString => go(
                state,
                sinks,
                wait,
                CtlV::Expand { rest: r.target, acc: words::no_fields(), join: true },
            ),
            _ => go(
                state,
                sinks,
                wait,
                CtlV::Expand { rest: r.target, acc: words::no_fields(), join: false },
            ),
        }
    }
}

/// Assignments before a command are for that command alone; without a command
/// they set variables of the shell.
pub open spec fn simple_assign(
    state: StateV,
    sinks: SinksV,
    cmd: SimpleV,
    argv: Seq<Seq<char>>,
    io: IoV,
    local: Pairs,
) -> NextV {
    if cmd.assignments.len() > 0 {
        go(
            state,
            sinks,
            seq![
                FrameV::Assigns {
                    name: cmd.assignments[0].0,
                    cmd: SimpleV { assignments: cmd.assignments.skip(1), ..cmd },
                    argv,
                    io,
                    local,
                },
            ],
            CtlV::Expand { rest: cmd.assignments[0].1, acc: words::no_fields(), join: true },
        )
    } else if argv.len() == 0 {
        ends(state, sinks, 0)
    } else {
        go(state, sinks, seq![FrameV::SetLast], CtlV::Dispatch { argv, io, local })
    }
}

pub open spec fn after_assign(
    state: StateV,
    sinks: SinksV,
    name: Seq<char>,
    cmd: SimpleV,
    argv: Seq<Seq<char>>,
    io: IoV,
    local: Pairs,
    value: Seq<char>,
) -> NextV {
    if argv.len() == 0 {
        go(
            StateV { env: vars::with(state.env, name, value), ..state },
            sinks,
            seq![],
            CtlV::Assign { cmd, argv, io, local },
        )
    } else {
        go(
            state,
            sinks,
            seq![],
            CtlV::Assign { cmd, argv, io, local: vars::with(local, name, value) },
        )
    }
}

// ---- words ----

/// The value of a parameter: `$?`, `$#` (there are none) or a variable.
pub open spec fn var_value(state: StateV, name: Seq<char>) -> Seq<char> {
    if name == "?"@ {
        text::decimal(state.last_status as int)
    } else if name == "#"@ {
        "0"@
    } else {
        match vars::value_of(state.env, name) {
            Some(v) => v,
            None => seq![],
        }
    }
}

pub open spec fn add_value(acc: FieldsV, value: Seq<char>, unsplit: bool) -> FieldsV {
    if unsplit {
        words::add_whole(acc, value)
    } else {
        words::add_split(acc, value)
    }
}

/// A command substitution: the commands run with their own copy of the state
/// and write into a buffer. A script that does not parse counts as empty.
pub open spec fn substitute(
    state: StateV,
    sinks: SinksV,
    src: Seq<char>,
    rest: WordV,
    acc: FieldsV,
    join: bool,
    quoted: bool,
) -> NextV {
    let wait = FrameV::Word { rest, acc, join, quoted };
    match parser::commands_of(src) {
        Err(msg) => go(
            state,
            state::printed(
                sinks,
                OutV::Error,
                "bash: syntax error in $(): "@ + msg + "\n"@,
            ),
            seq![wait],
            CtlV::Given(GivenV::Fields(seq![seq![]])),
        ),
        Ok(list) => {
            let n = sinks.buffers.len() as int;
            runs_list(
                state,
                SinksV { buffers: sinks.buffers.push(seq![]), ..sinks },
                seq![
                    wait,
                    FrameV::Sub {
                        env: state.env,
                        cwd: state.cwd,
                        exit: state.exit_requested,
                        buf: n,
                    },
                ],
                list,
                IoV { stdin: InV::Empty, stdout: OutV::Buffer(n), stderr: OutV::Error },
            )
        },
    }
}

pub open spec fn expand(state: StateV, sinks: SinksV, parts: WordV, acc: FieldsV, join: bool) -> NextV {
    if parts.len() == 0 {
        go(state, sinks, seq![], CtlV::Given(GivenV::Fields(words::finished(acc))))
    } else {
        let rest = parts.skip(1);
        match parts[0] {
            PartV::Lit(s) | PartV::Quoted(s) => go(
                state,
                sinks,
                seq![],
                CtlV::Expand { rest, acc: words::add_whole(acc, s), join },
            ),
            PartV::Var(name) => go(
                state,
                sinks,
                seq![],
                CtlV::Expand { rest, acc: add_value(acc, var_value(state, name), join), join },
            ),
            PartV::VarQuoted(name) => go(
                state,
                sinks,
                seq![],
                CtlV::Expand { rest, acc: words::add_whole(acc, var_value(state, name)), join },
            ),
            PartV::SubRaw(src) => substitute(state, sinks, src, rest, acc, join, false),
            PartV::SubQuotedRaw(src) => substitute(state, sinks, src, rest, acc, join, true),
        }
    }
}

// ---- builtins ----

/// `export NAME=value ...`: sets what has a valid name; status 1 if some had none.
pub open spec fn exported(env: Pairs, args: Seq<Seq<char>>, status: i32) -> (Pairs, i32)
    decreases args.len(),
{
    if args.len() == 0 {
        (env, status)
    } else {
        let a = args[0];
        let eq = text::index_from(a, '=', 0);
        let name = a.take(eq);
        if !text::is_name(name) {
            exported(env, args.skip(1), 1)
        } else if eq < a.len() {
            exported(vars::with(env, name, a.skip(eq + 1)), args.skip(1), status)
        } else {
            exported(env, args.skip(1), status)
        }
    }
}

pub open spec fn unset_all(env: Pairs, names: Seq<Seq<char>>) -> Pairs
    decreases names.len(),
{
    if names.len() == 0 {
        env
    } else {
        unset_all(vars::without(env, names[0]), names.skip(1))
    }
}

/// The `NAME=value` arguments of `env` from `i` on, set over `acc`, and where they end.
pub open spec fn overrides(argv: Seq<Seq<char>>, i: int, acc: Pairs) -> (Pairs, int)
    decreases argv.len() - i,
{
    if i < 0 || i >= argv.len() {
        (acc, i)
    } else {
        let a = argv[i];
        let eq = text::index_from(a, '=', 0);
        if eq < a.len() && text::is_name(a.take(eq)) {
            overrides(argv, i + 1, vars::with(acc, a.take(eq), a.skip(eq + 1)))
        } else {
            (acc, i)
        }
    }
}

/// The values that the names of `over` have in `env`.
pub open spec fn saved_values(env: Pairs, over: Pairs) -> Seq<(Seq<char>, Option<Seq<char>>)> {
    over.map_values(|e: (Seq<char>, Seq<char>)| (e.0, vars::value_of(env, e.0)))
}

pub open spec fn restored(env: Pairs, saved: Seq<(Seq<char>, Option<Seq<char>>)>) -> Pairs
    decreases saved.len(),
{
    if saved.len() == 0 {
        env
    } else {
        restored(
            match saved[0].1 {
                Some(v) => vars::with(env, saved[0].0, v),
                None => vars::without(env, saved[0].0),
            },
            saved.skip(1),
        )
    }
}

/// `env` with a command runs it under the overridden environment, in which the
/// overrides of `env` come after the command's own assignments.
pub open spec fn run_env(
    state: StateV,
    sinks: SinksV,
    argv: Seq<Seq<char>>,
    io: IoV,
    local: Pairs,
) -> NextV {
    let (over, i) = overrides(argv, 1, local);
    if i >= argv.len() {
        ends(
            state,
            state::printed_all(
                sinks,
                io.stdout,
                vars::lines_of(vars::with_all(state.env, over)),
            ),
            0,
        )
    } else {
        go(
            StateV { env: vars::with_all(state.env, over), ..state },
            sinks,
            seq![FrameV::EnvRestore { saved: saved_values(state.env, over) }],
            CtlV::Dispatch { argv: argv.skip(i), io, local: seq![] },
        )
    }
}

pub open spec fn exit_status(state: StateV, argv: Seq<Seq<char>>) -> i32 {
    if argv.len() > 1 {
        match text::within(text::integer(argv[1]), i32::MIN as int, i32::MAX as int) {
            Some(n) => n as i32,
            None => state.last_status,
        }
    } else {
        state.last_status
    }
}

pub open spec fn cd_target(state: StateV, argv: Seq<Seq<char>>) -> Seq<char> {
    if argv.len() > 1 {
        argv[1]
    } else {
        match vars::value_of(state.env, "HOME"@) {
            Some(h) => h,
            None => "/"@,
        }
    }
}

pub open spec fn bool_status(b: bool) -> i32 {
    if b {
        0
    } else {
        1
    }
}

pub open spec fn run_test(state: StateV, sinks: SinksV, args: Seq<Seq<char>>) -> NextV {
    match words::test_of(args) {
        TestPlanV::Known(b) => ends(state, sinks, bool_status(b)),
        TestPlanV::File { path, check } => asks(
            state,
            sinks,
            CtlV::AwaitTest { check },
            ActionV::Stat(path::resolved(state.root, state.cwd, path)),
        ),
        TestPlanV::Age { a, b, older } => asks(
            state,
            sinks,
            CtlV::AwaitFirstAge { other: path::resolved(state.root, state.cwd, b), older },
            ActionV::Stat(path::resolved(state.root, state.cwd, a)),
        ),
    }
}

pub open spec fn request(
    state: StateV,
    argv: Seq<Seq<char>>,
    local: Pairs,
    stdin: Seq<u8>,
) -> ExecRequestV {
    ExecRequestV {
        prog: first_text(argv),
        argv,
        env: vars::with_all(state.env, local),
        cwd: state.cwd,
        stdin,
    }
}

/// An external command: its stdin is read first, if it is a file.
pub open spec fn run_external(
    state: StateV,
    sinks: SinksV,
    argv: Seq<Seq<char>>,
    io: IoV,
    local: Pairs,
) -> NextV {
    match io.stdin {
        InV::File(p) => asks(state, sinks, CtlV::AwaitStdin { argv, io, local }, ActionV::Read(p)),
        InV::Buffer(b) => asks(
            state,
            sinks,
            CtlV::AwaitExec { io },
            ActionV::Exec(request(state, argv, local, b)),
        ),
        InV::Empty => asks(
            state,
            sinks,
            CtlV::AwaitExec { io },
            ActionV::Exec(request(state, argv, local, seq![])),
        ),
    }
}

pub open spec fn run_printf(state: StateV, sinks: SinksV, argv: Seq<Seq<char>>, io: IoV) -> NextV {
    if argv.len() < 2 {
        ends(state, sinks, 0)
    } else if words::wants_float(argv[1], 0) {
        asks(
            state,
            sinks,
            CtlV::AwaitFloats { fmt: argv[1], args: argv.skip(2), io },
            ActionV::Floats(argv.skip(2)),
        )
    } else {
        ends(
            state,
            state::printed(
                sinks,
                io.stdout,
                words::printf_text(argv[1], argv.skip(2), seq![]),
            ),
            0,
        )
    }
}

pub open spec fn dispatch(
    state: StateV,
    sinks: SinksV,
    argv: Seq<Seq<char>>,
    io: IoV,
    local: Pairs,
) -> NextV {
    if argv.len() == 0 {
        ends(state, sinks, 0)
    } else {
        let name = argv[0];
        if name == "echo"@ {
            ends(state, state::printed(sinks, io.stdout, words::echo_text(argv.skip(1))), 0)
        } else if name == "printf"@ {
            run_printf(state, sinks, argv, io)
        } else if name == "cd"@ {
            let dir = cd_target(state, argv);
            let p = path::resolved(state.root, state.cwd, dir);
            asks(state, sinks, CtlV::AwaitCd { dir, path: p, io }, ActionV::Stat(p))
        } else if name == "pwd"@ {
            ends(
                state,
                state::printed(sinks, io.stdout, state::shown_cwd(state.cwd) + "\n"@),
                0,
            )
        } else if name == "export"@ {
            let (env, s) = exported(state.env, argv.skip(1), 0);
            ends(StateV { env, ..state }, sinks, s)
        } else if name == "unset"@ {
            ends(StateV { env: unset_all(state.env, argv.skip(1)), ..state }, sinks, 0)
        } else if name == "set"@ {
            if argv.len() == 1 {
                ends(
                    state,
                    state::printed_all(sinks, io.stdout, vars::lines_of(state.env)),
                    0,
                )
            } else {
                ends(
                    state,
                    state::printed(
                        sinks,
                        io.stderr,
                        "bash: set: only bare `set` is supported\n"@,
                    ),
                    2,
                )
            }
        } else if name == "env"@ {
            run_env(state, sinks, argv, io, local)
        } else if name == "exit"@ {
            let n = exit_status(state, argv);
            ends(StateV { exit_requested: Some(n), ..state }, sinks, n)
        } else if name == "true"@ {
            ends(state, sinks, 0)
        } else if name == "false"@ {
            ends(state, sinks, 1)
        } else if name == "test"@ {
            run_test(state, sinks, argv.skip(1))
        } else if name == "["@ {
            if argv.len() > 1 && argv.last() == "]"@ {
                run_test(state, sinks, argv.subrange(1, argv.len() - 1))
            } else {
                ends(state, state::printed(sinks, io.stderr, "bash: [: missing `]'\n"@), 2)
            }
        } else if exec::is_external(name) {
            run_external(state, sinks, argv, io, local)
        } else if exec::is_external(path::base_name(name)) {
            run_external(state, sinks, argv.update(0, path::base_name(name)), io, local)
        } else {
            ends(
                state,
                state::printed(sinks, io.stderr, "bash: "@ + name + ": command not found\n"@),
                127,
            )
        }
    }
}

// ---- frames ----

/// The top frame gets its value.
pub open spec fn resume(state: StateV, sinks: SinksV, f: FrameV, v: GivenV) -> NextV {
    let s = status_of(v);
    let fields = fields_of(v);
    match f {
        FrameV::List { rest, io } => if rest.len() > 0 && state.exit_requested is None {
            go(
                state,
                sinks,
                seq![FrameV::List { rest: rest.skip(1), io }],
                CtlV::Run { cmd: rest[0], io },
            )
        } else {
            ends(state, sinks, s)
        },
        FrameV::AndOr { and, rhs, io } => if and == (s == 0) {
            go(state, sinks, seq![], CtlV::Run { cmd: rhs, io })
        } else {
            ends(state, sinks, s)
        },
        FrameV::Pipeline { negated, rest, io, buf } => {
            let (data, after) = match buf {
                Some(n) => state::closed(sinks, n),
                None => (seq![], sinks),
            };
            if rest.len() > 0 && state.exit_requested is None {
                stage(state, after, negated, rest, io, InV::Buffer(data))
            } else {
                ends(state, after, negated_status(negated, s))
            }
        },
        FrameV::If { body, elifs, els, io } => if s == 0 {
            runs_list(state, sinks, seq![], body, io)
        } else if elifs.len() > 0 {
            runs_list(
                state,
                sinks,
                seq![FrameV::If { body: elifs[0].body, elifs: elifs.skip(1), els, io }],
                elifs[0].cond,
                io,
            )
        } else {
            match els {
                Some(e) => runs_list(state, sinks, seq![], e, io),
                None => ends(state, sinks, 0),
            }
        },
        FrameV::ForWords { var, rest, values, body, io } => go(
            state,
            sinks,
            seq![],
            CtlV::ForWords { var, rest, values: values + fields, body, io },
        ),
        FrameV::ForBody { var, rest, body, io } => if rest.len() > 0 && state.exit_requested is None {
            runs_list(
                StateV { env: vars::with(state.env, var, rest[0]), ..state },
                sinks,
                seq![FrameV::ForBody { var, rest: rest.skip(1), body, io }],
                body,
                io,
            )
        } else {
            ends(state, sinks, s)
        },
        FrameV::WhileCond { cond, body, until, io } => if until == (s != 0) {
            runs_list(
                state,
                sinks,
                seq![FrameV::WhileBody { cond, body, until, io }],
                body,
                io,
            )
        } else {
            ends(state, sinks, 0)
        },
        FrameV::WhileBody { cond, body, until, io } => if state.exit_requested is None {
            runs_list(
                state,
                sinks,
                seq![FrameV::WhileCond { cond, body, until, io }],
                cond,
                io,
            )
        } else {
            ends(state, sinks, 0)
        },
        FrameV::Subshell { env, cwd, exit } => ends(
            StateV { env, cwd, exit_requested: exit, ..state },
            sinks,
            s,
        ),
        FrameV::Words { cmd, argv, io } => go(
            state,
            sinks,
            seq![],
            CtlV::Words { cmd, argv: argv + fields, io },
        ),
        FrameV::Redirs { head, cmd, argv, base, cur } => after_redirect(
            state,
            sinks,
            head,
            cmd,
            argv,
            base,
            cur,
            first_text(fields),
        ),
        FrameV::Assigns { name, cmd, argv, io, local } => after_assign(
            state,
            sinks,
            name,
            cmd,
            argv,
            io,
            local,
            first_text(fields),
        ),
        FrameV::SetLast => ends(StateV { last_status: s, ..state }, sinks, s),
        FrameV::Word { rest, acc, join, quoted } => go(
            state,
            sinks,
            seq![],
            CtlV::Expand {
                rest,
                acc: add_value(acc, first_text(fields), join || quoted),
                join,
            },
        ),
        FrameV::Sub { env, cwd, exit, buf } => {
            let (data, after) = state::closed(sinks, buf);
            go(
                StateV { env, cwd, exit_requested: exit, ..state },
                after,
                seq![],
                CtlV::Given(
                    GivenV::Fields(seq![text::trim_end(text::utf8_lossy(data), '\n')]),
                ),
            )
        },
        FrameV::EnvRestore { saved } => ends(
            StateV { env: restored(state.env, saved), ..state },
            sinks,
            s,
        ),
    }
}

// ---- answers ----

pub open spec fn no_file() -> FileInfo {
    FileInfo { exists: false, is_file: false, is_dir: false, len: 0, mtime: 0 }
}

pub open spec fn info_of(e: EventV) -> FileInfo {
    match e {
        EventV::Info(i) => i,
        _ => no_file(),
    }
}

pub open spec fn bytes_of(e: EventV) -> Seq<u8> {
    match e {
        EventV::Bytes(b) => b,
        _ => seq![],
    }
}

pub open spec fn texts_of(e: EventV) -> Seq<Seq<char>> {
    match e {
        EventV::Texts(t) => t,
        _ => seq![],
    }
}

pub open spec fn passes(check: FileCheck, i: FileInfo) -> bool {
    match check {
        FileCheck::Exists => i.exists,
        FileCheck::IsFile => i.is_file,
        FileCheck::IsDir => i.is_dir,
        FileCheck::NotEmpty => i.is_file && i.len > 0,
    }
}

/// The output of a command; both streams go to one place in one piece, so that
/// a file takes both.
pub open spec fn both_written(sinks: SinksV, io: IoV, stdout: Seq<u8>, stderr: Seq<u8>) -> SinksV {
    if io.stdout == io.stderr {
        state::written(sinks, io.stdout, stdout + stderr)
    } else {
        state::written(state::written(sinks, io.stdout, stdout), io.stderr, stderr)
    }
}

pub open spec fn after_exec(state: StateV, sinks: SinksV, io: IoV, e: EventV) -> NextV {
    match e {
        EventV::Ran { status, stdout, stderr } => ends(
            state,
            both_written(sinks, io, stdout, stderr),
            status,
        ),
        _ => ends(state, both_written(sinks, io, seq![], seq![]), 127),
    }
}

// ---- the step ----

/// One step where no file write is pending. `top` is the top frame.
pub open spec fn transition(state: StateV, sinks: SinksV, ctl: CtlV, top: Option<FrameV>, e: EventV) -> NextV {
    match ctl {
        CtlV::Run { cmd, io } => run(state, sinks, cmd, io),
        CtlV::Words { cmd, argv, io } => simple_words(state, sinks, cmd, argv, io),
        CtlV::Redirect { cmd, argv, base, cur } => simple_redirect(
            state,
            sinks,
            cmd,
            argv,
            base,
            cur,
        ),
        CtlV::Assign { cmd, argv, io, local } => simple_assign(state, sinks, cmd, argv, io, local),
        CtlV::Dispatch { argv, io, local } => dispatch(state, sinks, argv, io, local),
        CtlV::ForWords { var, rest, values, body, io } => for_words(
            state,
            sinks,
            var,
            rest,
            values,
            body,
            io,
        ),
        CtlV::Expand { rest, acc, join } => expand(state, sinks, rest, acc, join),
        CtlV::Given(v) => match top {
            Some(f) => resume(state, sinks, f, v),
            None => asks(state, sinks, ctl, ActionV::Done),
        },
        CtlV::AwaitCd { dir, path, io } => if info_of(e).is_dir {
            ends(StateV { cwd: path::relative(state.root, path), ..state }, sinks, 0)
        } else {
            ends(
                state,
                state::printed(
                    sinks,
                    io.stderr,
                    "bash: cd: "@ + dir + ": No such file or directory\n"@,
                ),
                1,
            )
        },
        CtlV::AwaitTest { check } => ends(state, sinks, bool_status(passes(check, info_of(e)))),
        CtlV::AwaitFirstAge { other, older } => asks(
            state,
            sinks,
            CtlV::AwaitSecondAge { first: info_of(e).mtime, older },
            ActionV::Stat(other),
        ),
        CtlV::AwaitSecondAge { first, older } => ends(
            state,
            sinks,
            bool_status(
                if older {
                    first < info_of(e).mtime
                } else {
                    first > info_of(e).mtime
                },
            ),
        ),
        CtlV::AwaitFloats { fmt, args, io } => ends(
            state,
            state::printed(sinks, io.stdout, words::printf_text(fmt, args, texts_of(e))),
            0,
        ),
        CtlV::AwaitStdin { argv, io, local } => asks(
            state,
            sinks,
            CtlV::AwaitExec { io },
            ActionV::Exec(request(state, argv, local, bytes_of(e))),
        ),
        CtlV::AwaitExec { io } => after_exec(state, sinks, io, e),
    }
}

/// Whether a step takes the top frame off the stack.
pub open spec fn pops(m: MachineV) -> bool {
    m.ctl is Given && m.stack.len() > 0
}

/// One step of the machine.
pub open spec fn stepped(m: MachineV, e: EventV) -> (MachineV, ActionV) {
    if m.sinks.writes.len() > 0 {
        (
            MachineV { sinks: SinksV { writes: m.sinks.writes.skip(1), ..m.sinks }, ..m },
            ActionV::Write(m.sinks.writes[0]),
        )
    } else {
        let top = if pops(m) {
            Some(m.stack.last())
        } else {
            None
        };
        let below = if pops(m) {
            m.stack.drop_last()
        } else {
            m.stack
        };
        let n = transition(m.state, m.sinks, m.ctl, top, e);
        (
            MachineV { state: n.state, sinks: n.sinks, stack: below + n.push, ctl: n.ctl },
            n.action,
        )
    }
}

} // verus!
