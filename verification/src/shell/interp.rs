//! The interpreter: expansion, command execution, control flow, builtins.
use crate::shell::ast;
use crate::shell::ast::{Command, Elif, List, Redirect, RedirectOp, SimpleCommand, Word, WordPart};
use crate::shell::exec;
use crate::shell::exec::ExecRequest;
use crate::shell::heredoc;
use crate::shell::machine;
use crate::shell::machine::{ActionV, CtlV, EventV, FileInfo, FrameV, MachineV, NextV, GivenV};
use crate::shell::parser;
use crate::shell::path;
use crate::shell::state;
use crate::shell::state::{FileWrite, In, Io, IoV, Out, ShellState, Sinks, StateV};
use crate::shell::vars;
use crate::shell::vars::{Env, Pairs};
use crate::shell::words;
use crate::shell::words::{Fields, FileCheck};
use crate::text;
use vstd::prelude::*;

verus! {

broadcast use crate::text::views_push;

pub enum Given {
    Status(i32),
    Fields(Vec<String>),
}

impl View for Given {
    type V = GivenV;

    open spec fn view(&self) -> GivenV {
        match self {
            Given::Status(s) => GivenV::Status(*s),
            Given::Fields(f) => GivenV::Fields(text::texts(f@)),
        }
    }
}

pub open spec fn els_view(els: Option<List>) -> Option<Seq<ast::CmdV>> {
    match els {
        Some(l) => Some(ast::list_view(l@)),
        None => None,
    }
}

pub open spec fn saved_view(v: Seq<(String, Option<String>)>) -> Seq<(Seq<char>, Option<Seq<char>>)> {
    v.map_values(
        |e: (String, Option<String>)|
            (
                e.0@,
                match e.1 {
                    Some(s) => Some(s@),
                    None => None,
                },
            ),
    )
}

/// A continuation of the machine.
pub enum Frame {
    List { rest: List, io: Io },
    AndOr { and: bool, rhs: Command, io: Io },
    Pipeline { negated: bool, rest: Vec<SimpleCommand>, io: Io, buf: Option<usize> },
    If { body: List, elifs: Vec<Elif>, els: Option<List>, io: Io },
    ForWords { var: String, rest: Vec<Word>, values: Vec<String>, body: List, io: Io },
    ForBody { var: String, rest: Vec<String>, body: List, io: Io },
    WhileCond { cond: List, body: List, until: bool, io: Io },
    WhileBody { cond: List, body: List, until: bool, io: Io },
    Subshell { env: Env, cwd: String, exit: Option<i32> },
    Words { cmd: SimpleCommand, argv: Vec<String>, io: Io },
    Redirs { head: Redirect, cmd: SimpleCommand, argv: Vec<String>, base: Io, cur: Io },
    Assigns { name: String, cmd: SimpleCommand, argv: Vec<String>, io: Io, local: Env },
    SetLast,
    Word { rest: Word, acc: Fields, join: bool, quoted: bool },
    Sub { env: Env, cwd: String, exit: Option<i32>, buf: usize },
    EnvRestore { saved: Vec<(String, Option<String>)> },
}

impl View for Frame {
    type V = FrameV;

    open spec fn view(&self) -> FrameV {
        match self {
            Frame::List { rest, io } => FrameV::List { rest: ast::list_view(rest@), io: io@ },
            Frame::AndOr { and, rhs, io } => FrameV::AndOr { and: *and, rhs: rhs@, io: io@ },
            Frame::Pipeline { negated, rest, io, buf } => FrameV::Pipeline {
                negated: *negated,
                rest: ast::stages_view(rest@),
                io: io@,
                buf: match buf {
                    Some(n) => Some(*n as int),
                    None => None,
                },
            },
            Frame::If { body, elifs, els, io } => FrameV::If {
                body: ast::list_view(body@),
                elifs: ast::elifs_view(elifs@),
                els: els_view(*els),
                io: io@,
            },
            Frame::ForWords { var, rest, values, body, io } => FrameV::ForWords {
                var: var@,
                rest: ast::words_view(rest@),
                values: text::texts(values@),
                body: ast::list_view(body@),
                io: io@,
            },
            Frame::ForBody { var, rest, body, io } => FrameV::ForBody {
                var: var@,
                rest: text::texts(rest@),
                body: ast::list_view(body@),
                io: io@,
            },
            Frame::WhileCond { cond, body, until, io } => FrameV::WhileCond {
                cond: ast::list_view(cond@),
                body: ast::list_view(body@),
                until: *until,
                io: io@,
            },
            Frame::WhileBody { cond, body, until, io } => FrameV::WhileBody {
                cond: ast::list_view(cond@),
                body: ast::list_view(body@),
                until: *until,
                io: io@,
            },
            Frame::Subshell { env, cwd, exit } => FrameV::Subshell {
                env: env@,
                cwd: cwd@,
                exit: *exit,
            },
            Frame::Words { cmd, argv, io } => FrameV::Words {
                cmd: cmd@,
                argv: text::texts(argv@),
                io: io@,
            },
            Frame::Redirs { head, cmd, argv, base, cur } => FrameV::Redirs {
                head: head@,
                cmd: cmd@,
                argv: text::texts(argv@),
                base: base@,
                cur: cur@,
            },
            Frame::Assigns { name, cmd, argv, io, local } => FrameV::Assigns {
                name: name@,
                cmd: cmd@,
                argv: text::texts(argv@),
                io: io@,
                local: local@,
            },
            Frame::SetLast => FrameV::SetLast,
            Frame::Word { rest, acc, join, quoted } => FrameV::Word {
                rest: rest@,
                acc: acc@,
                join: *join,
                quoted: *quoted,
            },
            Frame::Sub { env, cwd, exit, buf } => FrameV::Sub {
                env: env@,
                cwd: cwd@,
                exit: *exit,
                buf: *buf as int,
            },
            Frame::EnvRestore { saved } => FrameV::EnvRestore { saved: saved_view(saved@) },
        }
    }
}

pub open spec fn frames_view(v: Seq<Frame>) -> Seq<FrameV> {
    v.map_values(|f: Frame| f@)
}

/// What the machine is about to do.
pub enum Ctl {
    Run { cmd: Command, io: Io },
    Words { cmd: SimpleCommand, argv: Vec<String>, io: Io },
    Redirect { cmd: SimpleCommand, argv: Vec<String>, base: Io, cur: Io },
    Assign { cmd: SimpleCommand, argv: Vec<String>, io: Io, local: Env },
    Dispatch { argv: Vec<String>, io: Io, local: Env },
    ForWords { var: String, rest: Vec<Word>, values: Vec<String>, body: List, io: Io },
    Expand { rest: Word, acc: Fields, join: bool },
    Given(Given),
    AwaitCd { dir: String, path: String, io: Io },
    AwaitTest { check: FileCheck },
    AwaitFirstAge { other: String, older: bool },
    AwaitSecondAge { first: i128, older: bool },
    AwaitFloats { fmt: String, args: Vec<String>, io: Io },
    AwaitStdin { argv: Vec<String>, io: Io, local: Env },
    AwaitExec { io: Io },
}

impl View for Ctl {
    type V = CtlV;

    open spec fn view(&self) -> CtlV {
        match self {
            Ctl::Run { cmd, io } => CtlV::Run { cmd: cmd@, io: io@ },
            Ctl::Words { cmd, argv, io } => CtlV::Words {
                cmd: cmd@,
                argv: text::texts(argv@),
                io: io@,
            },
            Ctl::Redirect { cmd, argv, base, cur } => CtlV::Redirect {
                cmd: cmd@,
                argv: text::texts(argv@),
                base: base@,
                cur: cur@,
            },
            Ctl::Assign { cmd, argv, io, local } => CtlV::Assign {
                cmd: cmd@,
                argv: text::texts(argv@),
                io: io@,
                local: local@,
            },
            Ctl::Dispatch { argv, io, local } => CtlV::Dispatch {
                argv: text::texts(argv@),
                io: io@,
                local: local@,
            },
            Ctl::ForWords { var, rest, values, body, io } => CtlV::ForWords {
                var: var@,
                rest: ast::words_view(rest@),
                values: text::texts(values@),
                body: ast::list_view(body@),
                io: io@,
            },
            Ctl::Expand { rest, acc, join } => CtlV::Expand {
                rest: rest@,
                acc: acc@,
                join: *join,
            },
            Ctl::Given(v) => CtlV::Given(v@),
            Ctl::AwaitCd { dir, path, io } => CtlV::AwaitCd { dir: dir@, path: path@, io: io@ },
            Ctl::AwaitTest { check } => CtlV::AwaitTest { check: *check },
            Ctl::AwaitFirstAge { other, older } => CtlV::AwaitFirstAge {
                other: other@,
                older: *older,
            },
            Ctl::AwaitSecondAge { first, older } => CtlV::AwaitSecondAge {
                first: *first,
                older: *older,
            },
            Ctl::AwaitFloats { fmt, args, io } => CtlV::AwaitFloats {
                fmt: fmt@,
                args: text::texts(args@),
                io: io@,
            },
            Ctl::AwaitStdin { argv, io, local } => CtlV::AwaitStdin {
                argv: text::texts(argv@),
                io: io@,
                local: local@,
            },
            Ctl::AwaitExec { io } => CtlV::AwaitExec { io: io@ },
        }
    }
}

/// What the driver is asked to do before the next step.
pub enum Action {
    /// Nothing; step again.
    Continue,
    Write(FileWrite),
    /// Read a file; a file that cannot be read is empty.
    Read(String),
    Stat(String),
    Exec(ExecRequest),
    /// Render texts as floating-point numbers, one by one.
    Floats(Vec<String>),
    /// The script has ended.
    Done,
}

impl View for Action {
    type V = ActionV;

    open spec fn view(&self) -> ActionV {
        match self {
            Action::Continue => ActionV::Continue,
            Action::Write(w) => ActionV::Write(w@),
            Action::Read(p) => ActionV::Read(p@),
            Action::Stat(p) => ActionV::Stat(p@),
            Action::Exec(r) => ActionV::Exec(r@),
            Action::Floats(t) => ActionV::Floats(text::texts(t@)),
            Action::Done => ActionV::Done,
        }
    }
}

/// What the driver answers.
pub enum Event {
    Ready,
    Bytes(Vec<u8>),
    Info(FileInfo),
    Texts(Vec<String>),
    Ran { status: i32, stdout: Vec<u8>, stderr: Vec<u8> },
}

impl View for Event {
    type V = EventV;

    open spec fn view(&self) -> EventV {
        match self {
            Event::Ready => EventV::Ready,
            Event::Bytes(b) => EventV::Bytes(b@),
            Event::Info(i) => EventV::Info(*i),
            Event::Texts(t) => EventV::Texts(text::texts(t@)),
            Event::Ran { status, stdout, stderr } => EventV::Ran {
                status: *status,
                stdout: stdout@,
                stderr: stderr@,
            },
        }
    }
}

/// A script that is being run.
pub struct Interp {
    pub state: ShellState,
    pub sinks: Sinks,
    pub stack: Vec<Frame>,
    pub ctl: Ctl,
}

impl View for Interp {
    type V = MachineV;

    open spec fn view(&self) -> MachineV {
        MachineV {
            state: self.state@,
            sinks: self.sinks@,
            stack: frames_view(self.stack@),
            ctl: self.ctl@,
        }
    }
}

/// The machine after `n`, its frames on top of the stack of `m`.
pub open spec fn landed(m: MachineV, n: NextV) -> MachineV {
    MachineV { state: n.state, sinks: n.sinks, stack: m.stack + n.push, ctl: n.ctl }
}

/// `r` and `action` are what `n` says.
pub open spec fn lands(m: MachineV, r: (Interp, Action), n: NextV) -> bool {
    r.0@ == landed(m, n) && r.1@ == n.action
}

fn value_status(v: &Given) -> (r: i32)
    ensures
        r == machine::status_of(v@),
{
    match v {
        Given::Status(s) => *s,
        Given::Fields(_) => 0,
    }
}

fn value_fields(v: Given) -> (r: Vec<String>)
    ensures
        text::texts(r@) == machine::fields_of(v@),
{
    match v {
        Given::Status(_) => {
            let none: Vec<String> = Vec::new();
            assert(text::texts(none@) =~= seq![]);
            none
        },
        Given::Fields(f) => f,
    }
}

pub fn first_field(f: &Vec<String>) -> (r: String)
    ensures
        r@ == machine::first_text(text::texts(f@)),
{
    if f.len() > 0 {
        assert(text::texts(f@)[0] == f@[0]@);
        f[0].clone()
    } else {
        let e = String::new();
        assert(e@ =~= seq![]);
        e
    }
}

pub fn no_strings() -> (r: Vec<String>)
    ensures
        text::texts(r@) == Seq::<Seq<char>>::empty(),
{
    let none: Vec<String> = Vec::new();
    assert(text::texts(none@) =~= Seq::<Seq<char>>::empty());
    none
}

pub fn copy_strings(v: &[String], from: usize) -> (r: Vec<String>)
    requires
        from <= v@.len(),
    ensures
        text::texts(r@) == text::texts(v@).skip(from as int),
{
    let mut out: Vec<String> = Vec::new();
    let ghost all = text::texts(v@).skip(from as int);
    let mut i: usize = from;
    assert(text::texts(out@) =~= all.take(0));
    while i < v.len()
        invariant
            from <= i <= v@.len(),
            all == text::texts(v@).skip(from as int),
            text::texts(out@) == all.take(i - from),
        decreases v@.len() - i,
    {
        assert(all[i - from] == v@[i as int]@);
        out.push(v[i].clone());
        i = i + 1;
        assert(text::texts(out@) =~= all.take(i - from));
    }
    assert(all.take(i - from) =~= all);
    out
}

impl Interp {
    /// A machine that is about to do `ctl`.
    pub(crate) fn goes(self, ctl: Ctl) -> (r: (Interp, Action))
        ensures
            lands(self@, r, machine::go(self@.state, self@.sinks, seq![], ctl@)),
    {
        let m = Interp { ctl, ..self };
        assert(m@.stack =~= self@.stack + seq![]);
        (m, Action::Continue)
    }

    pub(crate) fn pushes(self, f: Frame, ctl: Ctl) -> (r: (Interp, Action))
        ensures
            lands(self@, r, machine::go(self@.state, self@.sinks, seq![f@], ctl@)),
    {
        let ghost before = self@;
        let mut m = Interp { ctl, ..self };
        m.stack.push(f);
        assert(m@.stack =~= before.stack + seq![f@]);
        (m, Action::Continue)
    }

    pub(crate) fn ends(self, status: i32) -> (r: (Interp, Action))
        ensures
            lands(self@, r, machine::ends(self@.state, self@.sinks, status)),
    {
        self.goes(Ctl::Given(Given::Status(status)))
    }

    pub(crate) fn asks(self, ctl: Ctl, action: Action) -> (r: (Interp, Action))
        ensures
            lands(self@, r, machine::asks(self@.state, self@.sinks, ctl@, action@)),
    {
        let m = Interp { ctl, ..self };
        assert(m@.stack =~= self@.stack + seq![]);
        (m, action)
    }

    /// Print, then end with a status.
    pub(crate) fn says(self, out: &Out, msg: &str, status: i32) -> (r: (Interp, Action))
        ensures
            lands(
                self@,
                r,
                machine::ends(
                    self@.state,
                    state::printed(self@.sinks, out@, msg@),
                    status,
                ),
            ),
    {
        let mut m = self;
        m.sinks.print(out, msg);
        m.ends(status)
    }

    fn run_list(self, list: List, io: Io) -> (r: (Interp, Action))
        ensures
            lands(
                self@,
                r,
                machine::runs_list(
                    self@.state,
                    self@.sinks,
                    seq![],
                    ast::list_view(list@),
                    io@,
                ),
            ),
    {
        assert(Seq::<FrameV>::empty().push(
            FrameV::List { rest: ast::list_view(list@), io: io@ },
        ) =~= seq![FrameV::List { rest: ast::list_view(list@), io: io@ }]);
        self.pushes(Frame::List { rest: list, io }, Ctl::Given(Given::Status(0)))
    }

    /// Run a list on top of a frame that waits for it.
    fn run_list_on(self, f: Frame, list: List, io: Io) -> (r: (Interp, Action))
        ensures
            lands(
                self@,
                r,
                machine::runs_list(
                    self@.state,
                    self@.sinks,
                    seq![f@],
                    ast::list_view(list@),
                    io@,
                ),
            ),
    {
        let ghost before = self@;
        let mut m = self;
        m.stack.push(f);
        let r = m.run_list(list, io);
        assert(r.0@.stack =~= before.stack + seq![f@].push(
            FrameV::List { rest: ast::list_view(list@), io: io@ },
        ));
        r
    }

    fn run_stage(self, negated: bool, stages: Vec<SimpleCommand>, io: Io, stdin: In) -> (r: (
        Interp,
        Action,
    ))
        requires
            stages@.len() > 0,
        ensures
            lands(
                self@,
                r,
                machine::stage(
                    self@.state,
                    self@.sinks,
                    negated,
                    ast::stages_view(stages@),
                    io@,
                    stdin@,
                ),
            ),
    {
        let mut m = self;
        let mut rest = stages;
        let ghost sv = ast::stages_view(stages@);
        let last = rest.len() == 1;
        let first = rest.remove(0);
        assert(first@ == sv[0]);
        assert(ast::stages_view(rest@) =~= sv.skip(1));
        let argv = no_strings();
        let stderr = io.stderr.copy();
        if last {
            let stage_io = Io { stdin, stdout: io.stdout.copy(), stderr };
            m.pushes(
                Frame::Pipeline { negated, rest, io, buf: None },
                Ctl::Words { cmd: first, argv, io: stage_io },
            )
        } else {
            let n = m.sinks.open();
            let stage_io = Io { stdin, stdout: Out::Buffer(n), stderr };
            m.pushes(
                Frame::Pipeline { negated, rest, io, buf: Some(n) },
                Ctl::Words { cmd: first, argv, io: stage_io },
            )
        }
    }

    fn run_command(self, cmd: Command, io: Io) -> (r: (Interp, Action))
        ensures
            lands(self@, r, machine::run(self@.state, self@.sinks, cmd@, io@)),
    {
        match cmd {
            Command::Simple(s) => self.goes(Ctl::Words { cmd: s, argv: no_strings(), io }),
            Command::AndOr { lhs, and, rhs } => {
                let below = io.copy();
                self.pushes(Frame::AndOr { and, rhs: *rhs, io: below }, Ctl::Run { cmd: *lhs, io })
            },
            Command::Pipeline { negated, stages } => {
                if stages.len() == 0 {
                    self.ends(if negated { 1 } else { 0 })
                } else {
                    let stdin = io.stdin.copy();
                    self.run_stage(negated, stages, io, stdin)
                }
            },
            Command::If { cond, body, elifs, els } => {
                let below = io.copy();
                self.run_list_on(Frame::If { body, elifs, els, io: below }, cond, io)
            },
            Command::For { var, words, body } => self.goes(
                Ctl::ForWords { var, rest: words, values: no_strings(), body, io },
            ),
            Command::While { cond, body, until } => self.pushes(
                Frame::WhileBody { cond, body, until, io },
                Ctl::Given(Given::Status(0)),
            ),
            Command::Subshell(body) => {
                let f = Frame::Subshell {
                    env: self.state.env.copy(),
                    cwd: self.state.cwd.clone(),
                    exit: self.state.exit_requested,
                };
                self.run_list_on(f, body, io)
            },
            Command::Brace(body) => self.run_list(body, io),
        }
    }

    fn for_words(
        self,
        var: String,
        rest: Vec<Word>,
        values: Vec<String>,
        body: List,
        io: Io,
    ) -> (r: (Interp, Action))
        ensures
            lands(
                self@,
                r,
                machine::for_words(
                    self@.state,
                    self@.sinks,
                    var@,
                    ast::words_view(rest@),
                    text::texts(values@),
                    ast::list_view(body@),
                    io@,
                ),
            ),
    {
        let mut rest = rest;
        if rest.len() == 0 {
            self.pushes(
                Frame::ForBody { var, rest: values, body, io },
                Ctl::Given(Given::Status(0)),
            )
        } else {
            let ghost rv = ast::words_view(rest@);
            let w = rest.remove(0);
            assert(w@ == rv[0]);
            assert(ast::words_view(rest@) =~= rv.skip(1));
            self.pushes(
                Frame::ForWords { var, rest, values, body, io },
                Ctl::Expand { rest: w, acc: Fields::new(), join: false },
            )
        }
    }

    fn simple_words(self, cmd: SimpleCommand, argv: Vec<String>, io: Io) -> (r: (Interp, Action))
        ensures
            lands(
                self@,
                r,
                machine::simple_words(
                    self@.state,
                    self@.sinks,
                    cmd@,
                    text::texts(argv@),
                    io@,
                ),
            ),
    {
        let mut cmd = cmd;
        if cmd.words.len() == 0 {
            let base = io.copy();
            self.goes(Ctl::Redirect { cmd, argv, base, cur: io })
        } else {
            let ghost before = cmd@;
            let w = cmd.words.remove(0);
            assert(w@ == before.words[0]);
            assert(ast::words_view(cmd.words@) =~= before.words.skip(1));
            self.pushes(
                Frame::Words { cmd, argv, io },
                Ctl::Expand { rest: w, acc: Fields::new(), join: false },
            )
        }
    }

    fn fd_error(fd: u32, what: &str) -> (r: String)
        ensures
            r@ == "fd "@ + text::decimal(fd as int) + what@,
    {
        text::owned("fd ").concat(text::u64_text(fd as u64).as_str()).concat(what)
    }

    /// The fds after one redirect whose word has expanded to `target`.
    fn apply_redirect(&self, cur: Io, r: &Redirect, target: &str) -> (res: Result<Io, String>)
        ensures
            match res {
                Ok(io) => machine::redirected(self@.state, cur@, r@, target@) == Ok::<
                    IoV,
                    Seq<char>,
                >(io@),
                Err(msg) => machine::redirected(self@.state, cur@, r@, target@) == Err::<
                    IoV,
                    Seq<char>,
                >(msg@),
            },
    {
        let mut io = cur;
        match &r.op {
            RedirectOp::In => {
                if r.fd != 0 {
                    return Err(Self::fd_error(r.fd, ": bad input redirect"));
                }
                io.stdin = In::File(self.state.resolve(target));
            },
            RedirectOp::Out | RedirectOp::Append => {
                let append = matches!(r.op, RedirectOp::Append);
                let o = Out::File { path: self.state.resolve(target), append };
                if r.fd == 1 {
                    io.stdout = o;
                } else if r.fd == 2 {
                    io.stderr = o;
                } else {
                    return Err(Self::fd_error(r.fd, ": unsupported output redirect"));
                }
            },
            RedirectOp::Dup(to) => {
                let o = match io.out_fd(*to) {
                    Some(o) => o.copy(),
                    None => Out::Error,
                };
                if r.fd == 1 {
                    io.stdout = o;
                } else if r.fd == 2 {
                    io.stderr = o;
                } else {
                    return Err(Self::fd_error(r.fd, ": unsupported dup redirect"));
                }
            },
            RedirectOp::HereString => {
                let mut data = text::owned(target);
                data.push('\n');
                io.stdin = In::Buffer(data.as_str().as_bytes_vec());
            },
            RedirectOp::Heredoc { .. } => {
                io.stdin = In::Buffer(target.as_bytes_vec());
            },
        }
        Ok(io)
    }

    fn after_redirect(
        self,
        head: Redirect,
        cmd: SimpleCommand,
        argv: Vec<String>,
        base: Io,
        cur: Io,
        target: &str,
    ) -> (r: (Interp, Action))
        ensures
            lands(
                self@,
                r,
                machine::after_redirect(
                    self@.state,
                    self@.sinks,
                    head@,
                    cmd@,
                    text::texts(argv@),
                    base@,
                    cur@,
                    target@,
                ),
            ),
    {
        match self.apply_redirect(cur, &head, target) {
            Ok(io) => self.goes(Ctl::Redirect { cmd, argv, base, cur: io }),
            Err(msg) => {
                let line = text::owned("bash: ").concat(msg.as_str()).concat("\n");
                let mut m = self;
                m.state.last_status = 1;
                m.says(&base.stderr, line.as_str(), 1)
            },
        }
    }

    fn simple_redirect(self, cmd: SimpleCommand, argv: Vec<String>, base: Io, cur: Io) -> (r: (
        Interp,
        Action,
    ))
        ensures
            lands(
                self@,
                r,
                machine::simple_redirect(
                    self@.state,
                    self@.sinks,
                    cmd@,
                    text::texts(argv@),
                    base@,
                    cur@,
                ),
            ),
    {
        let mut cmd = cmd;
        if cmd.redirects.len() == 0 {
            let local = Env::new();
            assert(local@ =~= seq![]);
            return self.goes(Ctl::Assign { cmd, argv, io: cur, local });
        }
        let ghost before = cmd@;
        let head = cmd.redirects.remove(0);
        assert(head@ == before.redirects[0]);
        assert(ast::redirects_view(cmd.redirects@) =~= before.redirects.skip(1));
        match &head.op {
            RedirectOp::Dup(_) => {
                let none = String::new();
                assert(none@ =~= seq![]);
                self.after_redirect(head, cmd, argv, base, cur, none.as_str())
            },
            RedirectOp::Heredoc { body, expand } => {
                if *expand {
                    let rest = heredoc::heredoc_word(body.as_str());
                    self.pushes(
                        Frame::Redirs { head, cmd, argv, base, cur },
                        Ctl::Expand { rest, acc: Fields::new(), join: true },
                    )
                } else {
                    let mut one: Vec<String> = Vec::new();
                    one.push(body.clone());
                    assert(text::texts(one@) =~= seq![body@]);
                    self.pushes(
                        Frame::Redirs { head, cmd, argv, base, cur },
                        Ctl::Given(Given::Fields(one)),
                    )
                }
            },
            RedirectOp::HereString => {
                let rest = head.target.copy();
                self.pushes(
                    Frame::Redirs { head, cmd, argv, base, cur },
                    Ctl::Expand { rest, acc: Fields::new(), join: true },
                )
            },
            _ => {
                let rest = head.target.copy();
                self.pushes(
                    Frame::Redirs { head, cmd, argv, base, cur },
                    Ctl::Expand { rest, acc: Fields::new(), join: false },
                )
            },
        }
    }

    fn simple_assign(self, cmd: SimpleCommand, argv: Vec<String>, io: Io, local: Env) -> (r: (
        Interp,
        Action,
    ))
        ensures
            lands(
                self@,
                r,
                machine::simple_assign(
                    self@.state,
                    self@.sinks,
                    cmd@,
                    text::texts(argv@),
                    io@,
                    local@,
                ),
            ),
    {
        let mut cmd = cmd;
        if cmd.assignments.len() > 0 {
            let ghost before = cmd@;
            let (name, w) = cmd.assignments.remove(0);
            assert((name@, w@) == before.assignments[0]);
            assert(ast::assignments_view(cmd.assignments@) =~= before.assignments.skip(1));
            self.pushes(
                Frame::Assigns { name, cmd, argv, io, local },
                Ctl::Expand { rest: w, acc: Fields::new(), join: true },
            )
        } else if argv.len() == 0 {
            self.ends(0)
        } else {
            self.pushes(Frame::SetLast, Ctl::Dispatch { argv, io, local })
        }
    }

    fn after_assign(
        self,
        name: String,
        cmd: SimpleCommand,
        argv: Vec<String>,
        io: Io,
        local: Env,
        value: String,
    ) -> (r: (Interp, Action))
        ensures
            lands(
                self@,
                r,
                machine::after_assign(
                    self@.state,
                    self@.sinks,
                    name@,
                    cmd@,
                    text::texts(argv@),
                    io@,
                    local@,
                    value@,
                ),
            ),
    {
        let mut m = self;
        let mut local = local;
        if argv.len() == 0 {
            m.state.env.set(name, value);
        } else {
            local.set(name, value);
        }
        m.goes(Ctl::Assign { cmd, argv, io, local })
    }

    pub fn var_value(&self, name: &str) -> (r: String)
        ensures
            r@ == machine::var_value(self@.state, name@),
    {
        if text::same(name, "?") {
            text::i64_text(self.state.last_status as i64)
        } else if text::same(name, "#") {
            text::owned("0")
        } else {
            match self.state.env.get(name) {
                Some(v) => v,
                None => {
                    let e = String::new();
                    assert(e@ =~= seq![]);
                    e
                },
            }
        }
    }

    fn command_sub(self, src: &str, rest: Word, acc: Fields, join: bool, quoted: bool) -> (r: (
        Interp,
        Action,
    ))
        ensures
            lands(
                self@,
                r,
                machine::substitute(
                    self@.state,
                    self@.sinks,
                    src@,
                    rest@,
                    acc@,
                    join,
                    quoted,
                ),
            ),
    {
        let ghost before = self@;
        let mut m = self;
        let wait = Frame::Word { rest, acc, join, quoted };
        match parser::parse(src) {
            Err(e) => {
                let line = text::owned("bash: syntax error in $(): ").concat(
                    e.msg.as_str(),
                ).concat("\n");
                m.sinks.print(&Out::Error, line.as_str());
                let mut one: Vec<String> = Vec::new();
                let empty = String::new();
                assert(empty@ =~= seq![]);
                one.push(empty);
                assert(text::texts(one@) =~= seq![seq![]]);
                m.pushes(wait, Ctl::Given(Given::Fields(one)))
            },
            Ok(list) => {
                let n = m.sinks.open();
                let f = Frame::Sub {
                    env: m.state.env.copy(),
                    cwd: m.state.cwd.clone(),
                    exit: m.state.exit_requested,
                    buf: n,
                };
                m.stack.push(wait);
                let io = Io { stdin: In::Empty, stdout: Out::Buffer(n), stderr: Out::Error };
                let r = m.run_list_on(f, list, io);
                assert(r.0@.stack =~= before.stack + seq![wait@, f@].push(
                    FrameV::List { rest: ast::list_view(list@), io: io@ },
                ));
                r
            },
        }
    }

    fn expand_word(self, parts: Word, acc: Fields, join: bool) -> (r: (Interp, Action))
        ensures
            lands(self@, r, machine::expand(self@.state, self@.sinks, parts@, acc@, join)),
    {
        let mut rest = parts;
        let mut acc = acc;
        if rest.parts.len() == 0 {
            return self.goes(Ctl::Given(Given::Fields(acc.finish())));
        }
        let ghost before = rest@;
        let part = rest.parts.remove(0);
        assert(part@ == before[0]);
        assert(rest@ =~= before.skip(1));
        match part {
            WordPart::Lit(s) | WordPart::Quoted(s) => {
                acc.whole(s.as_str());
            },
            WordPart::Var(name) => {
                let v = self.var_value(name.as_str());
                if join {
                    acc.whole(v.as_str());
                } else {
                    acc.split(v.as_str());
                }
            },
            WordPart::VarQuoted(name) => {
                let v = self.var_value(name.as_str());
                acc.whole(v.as_str());
            },
            WordPart::SubRaw(src) => {
                return self.command_sub(src.as_str(), rest, acc, join, false);
            },
            WordPart::SubQuotedRaw(src) => {
                return self.command_sub(src.as_str(), rest, acc, join, true);
            },
        }
        self.goes(Ctl::Expand { rest, acc, join })
    }
}


impl Interp {
    fn resume_list(self, rest: List, io: Io, s: i32) -> (r: (Interp, Action))
        ensures
            lands(
                self@,
                r,
                machine::resume(
                    self@.state,
                    self@.sinks,
                    FrameV::List { rest: ast::list_view(rest@), io: io@ },
                    GivenV::Status(s),
                ),
            ),
    {
        let mut rest = rest;
        let ghost rv = ast::list_view(rest@);
        proof {
            ast::lemma_list_view(rest@);
        }
        if rest.len() > 0 && self.state.exit_requested.is_none() {
            let ghost before = rest@;
            let cmd = rest.remove(0);
            proof {
                ast::lemma_list_view(rest@);
                assert(ast::list_view(rest@) =~= rv.skip(1));
                assert(cmd@ == rv[0]);
            }
            let below = io.copy();
            self.pushes(Frame::List { rest, io: below }, Ctl::Run { cmd, io })
        } else {
            self.ends(s)
        }
    }

    fn resume_pipeline(
        self,
        negated: bool,
        rest: Vec<SimpleCommand>,
        io: Io,
        buf: Option<usize>,
        s: i32,
    ) -> (r: (Interp, Action))
        ensures
            lands(
                self@,
                r,
                machine::resume(
                    self@.state,
                    self@.sinks,
                    FrameV::Pipeline {
                        negated,
                        rest: ast::stages_view(rest@),
                        io: io@,
                        buf: match buf {
                            Some(n) => Some(n as int),
                            None => None,
                        },
                    },
                    GivenV::Status(s),
                ),
            ),
    {
        let mut m = self;
        let data: Vec<u8> = match buf {
            Some(n) => m.sinks.close(n),
            None => {
                let none: Vec<u8> = Vec::new();
                assert(none@ =~= seq![]);
                none
            },
        };
        if rest.len() > 0 && m.state.exit_requested.is_none() {
            m.run_stage(negated, rest, io, In::Buffer(data))
        } else {
            let status: i32 = if !negated {
                s
            } else if s == 0 {
                1
            } else {
                0
            };
            m.ends(status)
        }
    }

    fn resume_if(self, body: List, elifs: Vec<Elif>, els: Option<List>, io: Io, s: i32) -> (r: (
        Interp,
        Action,
    ))
        ensures
            lands(
                self@,
                r,
                machine::resume(
                    self@.state,
                    self@.sinks,
                    FrameV::If {
                        body: ast::list_view(body@),
                        elifs: ast::elifs_view(elifs@),
                        els: els_view(els),
                        io: io@,
                    },
                    GivenV::Status(s),
                ),
            ),
    {
        let mut elifs = elifs;
        let ghost ev = ast::elifs_view(elifs@);
        proof {
            ast::lemma_elifs_view(elifs@);
        }
        if s == 0 {
            self.run_list(body, io)
        } else if elifs.len() > 0 {
            let e = elifs.remove(0);
            proof {
                ast::lemma_elifs_view(elifs@);
                assert(ast::elifs_view(elifs@) =~= ev.skip(1));
                assert(ev[0] == (ast::ElifV {
                    cond: ast::list_view(e.cond@),
                    body: ast::list_view(e.body@),
                }));
            }
            let below = io.copy();
            self.run_list_on(Frame::If { body: e.body, elifs, els, io: below }, e.cond, io)
        } else {
            match els {
                Some(l) => self.run_list(l, io),
                None => self.ends(0),
            }
        }
    }

    fn resume_for(self, var: String, rest: Vec<String>, body: List, io: Io, s: i32) -> (r: (
        Interp,
        Action,
    ))
        ensures
            lands(
                self@,
                r,
                machine::resume(
                    self@.state,
                    self@.sinks,
                    FrameV::ForBody {
                        var: var@,
                        rest: text::texts(rest@),
                        body: ast::list_view(body@),
                        io: io@,
                    },
                    GivenV::Status(s),
                ),
            ),
    {
        let mut m = self;
        let mut rest = rest;
        if rest.len() > 0 && m.state.exit_requested.is_none() {
            let ghost rv = text::texts(rest@);
            let v = rest.remove(0);
            assert(v@ == rv[0]);
            assert(text::texts(rest@) =~= rv.skip(1));
            m.state.env.set(var.clone(), v);
            let again = ast::copy_list(&body);
            let below = io.copy();
            m.run_list_on(Frame::ForBody { var, rest, body, io: below }, again, io)
        } else {
            m.ends(s)
        }
    }

    /// `env NAME=value command` has ended: put the old values back.
    fn restore_env(self, saved: &Vec<(String, Option<String>)>, s: i32) -> (r: (Interp, Action))
        ensures
            lands(
                self@,
                r,
                machine::resume(
                    self@.state,
                    self@.sinks,
                    FrameV::EnvRestore { saved: saved_view(saved@) },
                    GivenV::Status(s),
                ),
            ),
    {
        let ghost sv = saved_view(saved@);
        let ghost whole = machine::restored(self@.state.env, sv);
        let mut m = self;
        let mut i: usize = 0;
        assert(sv.skip(0) =~= sv);
        while i < saved.len()
            invariant
                i <= saved@.len(),
                sv == saved_view(saved@),
                whole == machine::restored(m@.state.env, sv.skip(i as int)),
                m@ == (MachineV {
                    state: StateV { env: m@.state.env, ..self@.state },
                    ..self@
                }),
            decreases saved@.len() - i,
        {
            assert(sv.skip(i as int)[0].0 == saved@[i as int].0@);
            assert(sv.skip(i as int).skip(1) =~= sv.skip(i as int + 1));
            match &saved[i].1 {
                Some(v) => {
                    m.state.env.set(saved[i].0.clone(), v.clone());
                },
                None => {
                    m.state.env.remove(saved[i].0.as_str());
                },
            }
            i = i + 1;
        }
        m.ends(s)
    }

    fn resume(self, f: Frame, v: Given) -> (r: (Interp, Action))
        ensures
            lands(self@, r, machine::resume(self@.state, self@.sinks, f@, v@)),
    {
        let mut m = self;
        let s = value_status(&v);
        match f {
            Frame::List { rest, io } => m.resume_list(rest, io, s),
            Frame::AndOr { and, rhs, io } => {
                if and == (s == 0) {
                    m.goes(Ctl::Run { cmd: rhs, io })
                } else {
                    m.ends(s)
                }
            },
            Frame::Pipeline { negated, rest, io, buf } => m.resume_pipeline(
                negated,
                rest,
                io,
                buf,
                s,
            ),
            Frame::If { body, elifs, els, io } => m.resume_if(body, elifs, els, io, s),
            Frame::ForWords { var, rest, values, body, io } => {
                let mut more = value_fields(v);
                let mut values = values;
                let ghost a = text::texts(values@);
                let ghost b = text::texts(more@);
                values.append(&mut more);
                assert(text::texts(values@) =~= a + b);
                m.goes(Ctl::ForWords { var, rest, values, body, io })
            },
            Frame::ForBody { var, rest, body, io } => m.resume_for(var, rest, body, io, s),
            Frame::WhileCond { cond, body, until, io } => {
                if until == (s != 0) {
                    let again = ast::copy_list(&body);
                    let below = io.copy();
                    m.run_list_on(Frame::WhileBody { cond, body, until, io: below }, again, io)
                } else {
                    m.ends(0)
                }
            },
            Frame::WhileBody { cond, body, until, io } => {
                if m.state.exit_requested.is_none() {
                    let again = ast::copy_list(&cond);
                    let below = io.copy();
                    m.run_list_on(Frame::WhileCond { cond, body, until, io: below }, again, io)
                } else {
                    m.ends(0)
                }
            },
            Frame::Subshell { env, cwd, exit } => {
                m.state.env = env;
                m.state.cwd = cwd;
                m.state.exit_requested = exit;
                m.ends(s)
            },
            Frame::Words { cmd, argv, io } => {
                let mut more = value_fields(v);
                let mut argv = argv;
                let ghost a = text::texts(argv@);
                let ghost b = text::texts(more@);
                argv.append(&mut more);
                assert(text::texts(argv@) =~= a + b);
                m.goes(Ctl::Words { cmd, argv, io })
            },
            Frame::Redirs { head, cmd, argv, base, cur } => {
                let target = first_field(&value_fields(v));
                m.after_redirect(head, cmd, argv, base, cur, target.as_str())
            },
            Frame::Assigns { name, cmd, argv, io, local } => {
                let value = first_field(&value_fields(v));
                m.after_assign(name, cmd, argv, io, local, value)
            },
            Frame::SetLast => {
                m.state.last_status = s;
                m.ends(s)
            },
            Frame::Word { rest, acc, join, quoted } => {
                let value = first_field(&value_fields(v));
                let mut acc = acc;
                if join || quoted {
                    acc.whole(value.as_str());
                } else {
                    acc.split(value.as_str());
                }
                m.goes(Ctl::Expand { rest, acc, join })
            },
            Frame::Sub { env, cwd, exit, buf } => {
                let data = m.sinks.close(buf);
                m.state.env = env;
                m.state.cwd = cwd;
                m.state.exit_requested = exit;
                let t = text::trimmed_end(text::lossy(&data).as_str(), '\n');
                let mut one: Vec<String> = Vec::new();
                one.push(t);
                assert(text::texts(one@) =~= seq![t@]);
                m.goes(Ctl::Given(Given::Fields(one)))
            },
            Frame::EnvRestore { saved } => m.restore_env(&saved, s),
        }
    }

    fn file_info(e: &Event) -> (r: FileInfo)
        ensures
            r == machine::info_of(e@),
    {
        match e {
            Event::Info(i) => *i,
            _ => FileInfo { exists: false, is_file: false, is_dir: false, len: 0, mtime: 0 },
        }
    }

    fn after_cd(self, dir: String, path: String, io: Io, e: &Event) -> (r: (Interp, Action))
        ensures
            lands(
                self@,
                r,
                machine::transition(
                    self@.state,
                    self@.sinks,
                    CtlV::AwaitCd { dir: dir@, path: path@, io: io@ },
                    None,
                    e@,
                ),
            ),
    {
        if Self::file_info(e).is_dir {
            let mut m = self;
            m.state.cwd = m.state.rel_to_root(path.as_str());
            m.ends(0)
        } else {
            let line = text::owned("bash: cd: ").concat(dir.as_str()).concat(
                ": No such file or directory\n",
            );
            self.says(&io.stderr, line.as_str(), 1)
        }
    }

    fn after_stat(self, check: FileCheck, e: &Event) -> (r: (Interp, Action))
        ensures
            lands(
                self@,
                r,
                machine::transition(
                    self@.state,
                    self@.sinks,
                    CtlV::AwaitTest { check },
                    None,
                    e@,
                ),
            ),
    {
        let i = Self::file_info(e);
        let pass = match check {
            FileCheck::Exists => i.exists,
            FileCheck::IsFile => i.is_file,
            FileCheck::IsDir => i.is_dir,
            FileCheck::NotEmpty => i.is_file && i.len > 0,
        };
        self.ends(if pass { 0 } else { 1 })
    }

    fn after_exec(self, io: Io, e: Event) -> (r: (Interp, Action))
        ensures
            lands(self@, r, machine::after_exec(self@.state, self@.sinks, io@, e@)),
    {
        let mut m = self;
        let (status, out, err): (i32, Vec<u8>, Vec<u8>) = match e {
            Event::Ran { status, stdout, stderr } => (status, stdout, stderr),
            _ => {
                let a: Vec<u8> = Vec::new();
                let b: Vec<u8> = Vec::new();
                assert(a@ =~= seq![] && b@ =~= seq![]);
                (127, a, b)
            },
        };
        if io.stdout.same(&io.stderr) {
            let mut both = out;
            let mut err = err;
            both.append(&mut err);
            state::write_out(&io.stdout, &mut m.sinks, both);
        } else {
            state::write_out(&io.stdout, &mut m.sinks, out);
            state::write_out(&io.stderr, &mut m.sinks, err);
        }
        m.ends(status)
    }

    fn transition(self, ctl: Ctl, e: Event) -> (r: (Interp, Action))
        requires
            !(ctl is Given),
        ensures
            lands(self@, r, machine::transition(self@.state, self@.sinks, ctl@, None, e@)),
    {
        match ctl {
            Ctl::Run { cmd, io } => self.run_command(cmd, io),
            Ctl::Words { cmd, argv, io } => self.simple_words(cmd, argv, io),
            Ctl::Redirect { cmd, argv, base, cur } => self.simple_redirect(cmd, argv, base, cur),
            Ctl::Assign { cmd, argv, io, local } => self.simple_assign(cmd, argv, io, local),
            Ctl::Dispatch { argv, io, local } => self.dispatch(argv, io, local),
            Ctl::ForWords { var, rest, values, body, io } => self.for_words(
                var,
                rest,
                values,
                body,
                io,
            ),
            Ctl::Expand { rest, acc, join } => self.expand_word(rest, acc, join),
            Ctl::Given(v) => self.goes(Ctl::Given(v)),
            Ctl::AwaitCd { dir, path, io } => self.after_cd(dir, path, io, &e),
            Ctl::AwaitTest { check } => self.after_stat(check, &e),
            Ctl::AwaitFirstAge { other, older } => {
                let first: i128 = Self::file_info(&e).mtime;
                self.asks(Ctl::AwaitSecondAge { first, older }, Action::Stat(other))
            },
            Ctl::AwaitSecondAge { first, older } => {
                let second: i128 = Self::file_info(&e).mtime;
                let holds = if older {
                    first < second
                } else {
                    first > second
                };
                self.ends(if holds { 0 } else { 1 })
            },
            Ctl::AwaitFloats { fmt, args, io } => {
                let floats = match e {
                    Event::Texts(t) => t,
                    _ => {
                        let none = no_strings();
                        assert(text::texts(none@) =~= seq![]);
                        none
                    },
                };
                let out = words::printf(fmt.as_str(), &args, &floats);
                self.says(&io.stdout, out.as_str(), 0)
            },
            Ctl::AwaitStdin { argv, io, local } => {
                let stdin = match e {
                    Event::Bytes(b) => b,
                    _ => {
                        let none: Vec<u8> = Vec::new();
                        assert(none@ =~= seq![]);
                        none
                    },
                };
                self.exec_with(argv, io, local, stdin)
            },
            Ctl::AwaitExec { io } => self.after_exec(io, e),
        }
    }

    /// One step. `event` answers the action of the step before; it is only looked
    /// at where that action asked for something.
    pub fn step(self, event: Event) -> (r: (Interp, Action))
        ensures
            (r.0@, r.1@) == machine::stepped(self@, event@),
    {
        let ghost before = self@;
        let Interp { state, sinks, stack, ctl } = self;
        let mut sinks = sinks;
        let mut stack = stack;
        if sinks.writes.len() > 0 {
            let w = sinks.writes.remove(0);
            assert(w@ == before.sinks.writes[0]);
            assert(state::writes_view(sinks.writes@) =~= before.sinks.writes.skip(1));
            return (Interp { state, sinks, stack, ctl }, Action::Write(w));
        }
        match ctl {
            Ctl::Given(v) => {
                match stack.pop() {
                    Some(f) => {
                        assert(f@ == before.stack.last());
                        assert(frames_view(stack@) =~= before.stack.drop_last());
                        let m = Interp { state, sinks, stack, ctl: Ctl::Given(Given::Status(0)) };
                        m.resume(f, v)
                    },
                    None => {
                        let m = Interp { state, sinks, stack, ctl: Ctl::Given(v) };
                        assert(m@.stack =~= before.stack + seq![]);
                        (m, Action::Done)
                    },
                }
            },
            other => {
                let m = Interp { state, sinks, stack, ctl: Ctl::Given(Given::Status(0)) };
                m.transition(other, event)
            },
        }
    }

    /// The outcome of a script that has ended.
    pub fn result(&self) -> (r: ScriptResult)
        ensures
            r.stdout@ == text::utf8_lossy(self@.sinks.stdout),
            r.stderr@ == text::utf8_lossy(self@.sinks.stderr),
            r.status == final_status(self@.state),
    {
        ScriptResult {
            stdout: text::lossy(&self.sinks.streams.stdout),
            stderr: text::lossy(&self.sinks.streams.stderr),
            status: match self.state.exit_requested {
                Some(code) => code,
                None => self.state.last_status,
            },
        }
    }
}

/// The status of the script: that of `exit`, or else of the last command.
pub open spec fn final_status(st: StateV) -> i32 {
    match st.exit_requested {
        Some(code) => code,
        None => st.last_status,
    }
}

/// The outcome of one tool call.
pub struct ScriptResult {
    pub stdout: String,
    pub stderr: String,
    pub status: i32,
}

/// The machine before its first step: the commands of the script on the
/// standard streams.
pub open spec fn started(list: Seq<ast::CmdV>, env: Pairs, root: Seq<char>, cwd: Seq<char>) -> MachineV {
    MachineV {
        state: StateV {
            env,
            root,
            cwd: text::trim_start(cwd, '/'),
            last_status: 0,
            exit_requested: None,
        },
        sinks: state::no_output(),
        stack: seq![
            FrameV::List {
                rest: list,
                io: IoV {
                    stdin: state::InV::Empty,
                    stdout: state::OutV::Main,
                    stderr: state::OutV::Error,
                },
            },
        ],
        ctl: CtlV::Given(GivenV::Status(0)),
    }
}

/// A script ready to run in `cwd`, or the message why it does not parse.
pub open spec fn starts(script: Seq<char>, env: Pairs, root: Seq<char>, cwd: Seq<char>) -> Result<
    MachineV,
    Seq<char>,
> {
    match parser::commands_of(script) {
        Ok(list) => Ok(started(list, env, root, cwd)),
        Err(msg) => Err("bash: syntax error: "@ + msg),
    }
}

/// Parse `script` and make it ready to run. Returns an error for syntax errors;
/// runtime problems surface through the result (stderr + non-zero status).
pub fn run_script(script: &str, env: Env, root: String) -> (r: Result<Interp, String>)
    ensures
        match r {
            Ok(m) => starts(script@, env@, root@, "/"@) == Ok::<MachineV, Seq<char>>(m@),
            Err(msg) => starts(script@, env@, root@, "/"@) == Err::<MachineV, Seq<char>>(msg@),
        },
{
    run_script_with_cwd(script, env, root, "/")
}

/// Like [`run_script`] but starts in `cwd`, a shell path relative to `root`.
pub fn run_script_with_cwd(script: &str, env: Env, root: String, cwd: &str) -> (r: Result<
    Interp,
    String,
>)
    ensures
        match r {
            Ok(m) => starts(script@, env@, root@, cwd@) == Ok::<MachineV, Seq<char>>(m@),
            Err(msg) => starts(script@, env@, root@, cwd@) == Err::<MachineV, Seq<char>>(msg@),
        },
{
    let list = match parser::parse(script) {
        Ok(l) => l,
        Err(e) => {
            return Err(text::owned("bash: syntax error: ").concat(e.msg.as_str()));
        },
    };
    let mut state = ShellState::new(env, root);
    state.cwd = text::trimmed_start(cwd, '/');
    let mut stack: Vec<Frame> = Vec::new();
    let io = Io::standard();
    stack.push(Frame::List { rest: list, io });
    let m = Interp { state, sinks: Sinks::new(), stack, ctl: Ctl::Given(Given::Status(0)) };
    assert(m@.stack =~= started(ast::list_view(list@), env@, root@, cwd@).stack);
    Ok(m)
}

} // verus!
