//! Builtin commands. They run in-process so they can mutate shell state and
//! write to the active output sink.
use crate::shell::exec;
use crate::shell::exec::ExecRequest;
use crate::shell::interp;
use crate::shell::interp::{copy_strings, Action, Ctl, Frame, Interp};
use crate::shell::machine;
use crate::shell::machine::MachineV;
use crate::shell::path;
use crate::shell::state;
use crate::shell::state::{In, Io, Out, StateV};
use crate::shell::vars;
use crate::shell::vars::Env;
use crate::shell::words;
use crate::shell::words::TestPlan;
use crate::text;
use vstd::prelude::*;

verus! {

broadcast use crate::text::views_push;

/// A text split at its first `=`: the two sides, where there is one.
fn split_eq(s: &str) -> (r: Option<(String, String)>)
    ensures
        match r {
            Some((k, v)) => {
                let eq = text::index_from(s@, '=', 0);
                eq < s@.len() && k@ == s@.take(eq) && v@ == s@.skip(eq + 1)
            },
            None => text::index_from(s@, '=', 0) == s@.len(),
        },
{
    let c = text::chars_of(s);
    let eq = text::find_from(&c, '=', 0);
    if eq >= c.len() {
        return None;
    }
    let k = text::string_of(&c, 0, eq);
    let v = text::string_of(&c, eq + 1, c.len());
    assert(k@ =~= s@.take(eq as int));
    assert(v@ =~= s@.skip(eq + 1));
    Some((k, v))
}

/// Append the lines of an environment, in one piece: a file takes all of them.
fn print_env(m: &mut Interp, env: &Env, out: &Out)
    ensures
        final(m)@ == (MachineV {
            sinks: state::printed_all(old(m)@.sinks, out@, vars::lines_of(env@)),
            ..old(m)@
        }),
{
    let ghost lines = vars::lines_of(env@);
    let mut shown = String::new();
    let mut i: usize = 0;
    assert(lines.skip(0) =~= lines);
    while i < env.entries.len()
        invariant
            i <= env.entries@.len(),
            lines == vars::lines_of(env@),
            state::joined(lines) == shown@ + state::joined(lines.skip(i as int)),
        decreases env.entries@.len() - i,
    {
        let line = env.line(i);
        assert(lines.skip(i as int)[0] == line@);
        assert(lines.skip(i as int).skip(1) =~= lines.skip(i as int + 1));
        assert(shown@ + (line@ + state::joined(lines.skip(i as int + 1))) =~= (shown@ + line@)
            + state::joined(lines.skip(i as int + 1)));
        shown.append(line.as_str());
        i = i + 1;
    }
    assert(shown@ + state::joined(lines.skip(i as int)) =~= shown@);
    m.sinks.print(out, shown.as_str());
}

impl Interp {
    fn builtin_export(self, argv: &Vec<String>) -> (r: (Interp, Action))
        requires
            argv@.len() > 0,
        ensures
            ({
                let (env, s) = machine::exported(
                    self@.state.env,
                    text::texts(argv@).skip(1),
                    0,
                );
                interp::lands(
                    self@,
                    r,
                    machine::ends(StateV { env, ..self@.state }, self@.sinks, s),
                )
            }),
    {
        let mut m = self;
        let ghost a = text::texts(argv@);
        let ghost whole = machine::exported(self@.state.env, a.skip(1), 0);
        let mut status: i32 = 0;
        let mut i: usize = 1;
        while i < argv.len()
            invariant
                1 <= i <= argv@.len(),
                a == text::texts(argv@),
                whole == machine::exported(m@.state.env, a.skip(i as int), status),
                m@ == (MachineV {
                    state: StateV { env: m@.state.env, ..self@.state },
                    ..self@
                }),
            decreases argv@.len() - i,
        {
            let arg = argv[i].as_str();
            assert(a.skip(i as int)[0] == arg@);
            assert(a.skip(i as int).skip(1) =~= a.skip(i as int + 1));
            match split_eq(arg) {
                Some((k, v)) => {
                    if text::valid_name(k.as_str()) {
                        m.state.env.set(k, v);
                    } else {
                        status = 1;
                    }
                },
                None => {
                    assert(arg@.take(arg@.len() as int) =~= arg@);
                    if !text::valid_name(arg) {
                        status = 1;
                    }
                },
            }
            i = i + 1;
        }
        m.ends(status)
    }

    fn builtin_unset(self, argv: &Vec<String>) -> (r: (Interp, Action))
        requires
            argv@.len() > 0,
        ensures
            interp::lands(
                self@,
                r,
                machine::ends(
                    StateV {
                        env: machine::unset_all(
                            self@.state.env,
                            text::texts(argv@).skip(1),
                        ),
                        ..self@.state
                    },
                    self@.sinks,
                    0,
                ),
            ),
    {
        let mut m = self;
        let ghost a = text::texts(argv@);
        let ghost whole = machine::unset_all(self@.state.env, a.skip(1));
        let mut i: usize = 1;
        while i < argv.len()
            invariant
                1 <= i <= argv@.len(),
                a == text::texts(argv@),
                whole == machine::unset_all(m@.state.env, a.skip(i as int)),
                m@ == (MachineV {
                    state: StateV { env: m@.state.env, ..self@.state },
                    ..self@
                }),
            decreases argv@.len() - i,
        {
            assert(a.skip(i as int)[0] == argv@[i as int]@);
            assert(a.skip(i as int).skip(1) =~= a.skip(i as int + 1));
            m.state.env.remove(argv[i].as_str());
            i = i + 1;
        }
        m.ends(0)
    }

    fn builtin_set(self, argv: &Vec<String>, io: &Io) -> (r: (Interp, Action))
        ensures
            interp::lands(
                self@,
                r,
                if argv@.len() == 1 {
                    machine::ends(
                        self@.state,
                        state::printed_all(
                            self@.sinks,
                            io@.stdout,
                            vars::lines_of(self@.state.env),
                        ),
                        0,
                    )
                } else {
                    machine::ends(
                        self@.state,
                        state::printed(
                            self@.sinks,
                            io@.stderr,
                            "bash: set: only bare `set` is supported\n"@,
                        ),
                        2,
                    )
                },
            ),
    {
        if argv.len() == 1 {
            let env = self.state.env.copy();
            let mut m = self;
            print_env(&mut m, &env, &io.stdout);
            m.ends(0)
        } else {
            self.says(&io.stderr, "bash: set: only bare `set` is supported\n", 2)
        }
    }

    /// `env` prints the environment, optionally after applying `NAME=value`
    /// prefixes; with a command it runs that command under the overridden
    /// environment.
    fn builtin_env(self, argv: Vec<String>, io: Io, local: Env) -> (r: (Interp, Action))
        ensures
            interp::lands(
                self@,
                r,
                machine::run_env(
                    self@.state,
                    self@.sinks,
                    text::texts(argv@),
                    io@,
                    local@,
                ),
            ),
    {
        let ghost a = text::texts(argv@);
        let ghost whole = machine::overrides(a, 1, local@);
        let mut over = local.copy();
        let mut i: usize = 1;
        loop
            invariant
                1 <= i,
                i <= argv@.len() || i == 1,
                a == text::texts(argv@),
                whole == machine::overrides(a, i as int, over@),
            ensures
                1 <= i,
                whole == (over@, i as int),
            decreases argv@.len() - i,
        {
            if i >= argv.len() {
                break;
            }
            assert(a[i as int] == argv@[i as int]@);
            match split_eq(argv[i].as_str()) {
                Some((k, v)) => {
                    if !text::valid_name(k.as_str()) {
                        break;
                    }
                    over.set(k, v);
                },
                None => {
                    break;
                },
            }
            i = i + 1;
        }
        if i >= argv.len() {
            let mut env = self.state.env.copy();
            env.set_all(&over);
            let mut m = self;
            print_env(&mut m, &env, &io.stdout);
            return m.ends(0);
        }
        let ghost sv = machine::saved_values(self@.state.env, over@);
        let mut saved: Vec<(String, Option<String>)> = Vec::new();
        let mut k: usize = 0;
        while k < over.entries.len()
            invariant
                k <= over.entries@.len(),
                sv == machine::saved_values(self@.state.env, over@),
                interp::saved_view(saved@) == sv.take(k as int),
            decreases over.entries@.len() - k,
        {
            let name = over.entries[k].0.clone();
            let old_value = self.state.env.get(name.as_str());
            assert(over@[k as int].0 == name@);
            let e = (name, old_value);
            assert(sv[k as int] == (
                name@,
                match old_value {
                    Some(s) => Some(s@),
                    None => None,
                },
            ));
            saved.push(e);
            k = k + 1;
            assert(interp::saved_view(saved@) =~= sv.take(k as int));
        }
        assert(sv.take(k as int) =~= sv);
        let mut m = self;
        m.state.env.set_all(&over);
        let rest = copy_strings(&argv, i);
        m.pushes(
            Frame::EnvRestore { saved },
            Ctl::Dispatch { argv: rest, io, local: Env::new() },
        )
    }

    fn builtin_exit(self, argv: &Vec<String>) -> (r: (Interp, Action))
        ensures
            ({
                let n = machine::exit_status(self@.state, text::texts(argv@));
                interp::lands(
                    self@,
                    r,
                    machine::ends(
                        StateV { exit_requested: Some(n), ..self@.state },
                        self@.sinks,
                        n,
                    ),
                )
            }),
    {
        let mut m = self;
        let n: i32 = if argv.len() > 1 {
            assert(text::texts(argv@)[1] == argv@[1]@);
            match text::parse_i32(argv[1].as_str()) {
                Some(n) => n,
                None => m.state.last_status,
            }
        } else {
            m.state.last_status
        };
        m.state.exit_requested = Some(n);
        m.ends(n)
    }

    fn builtin_test(self, args: &[String]) -> (r: (Interp, Action))
        ensures
            interp::lands(
                self@,
                r,
                machine::run_test(self@.state, self@.sinks, text::texts(args@)),
            ),
    {
        match words::eval_test(args) {
            TestPlan::Known(b) => self.ends(if b { 0 } else { 1 }),
            TestPlan::File { path, check } => {
                let p = self.state.resolve(path.as_str());
                self.asks(Ctl::AwaitTest { check }, Action::Stat(p))
            },
            TestPlan::Age { a, b, older } => {
                let p = self.state.resolve(a.as_str());
                let other = self.state.resolve(b.as_str());
                self.asks(Ctl::AwaitFirstAge { other, older }, Action::Stat(p))
            },
        }
    }

    fn builtin_cd(self, argv: &Vec<String>, io: Io) -> (r: (Interp, Action))
        ensures
            ({
                let dir = machine::cd_target(self@.state, text::texts(argv@));
                let p = path::resolved(self@.state.root, self@.state.cwd, dir);
                interp::lands(
                    self@,
                    r,
                    machine::asks(
                        self@.state,
                        self@.sinks,
                        machine::CtlV::AwaitCd { dir, path: p, io: io@ },
                        machine::ActionV::Stat(p),
                    ),
                )
            }),
    {
        let dir = if argv.len() > 1 {
            assert(text::texts(argv@)[1] == argv@[1]@);
            argv[1].clone()
        } else {
            match self.state.env.get("HOME") {
                Some(h) => h,
                None => text::owned("/"),
            }
        };
        let p = self.state.resolve(dir.as_str());
        let asked = p.clone();
        self.asks(Ctl::AwaitCd { dir, path: p, io }, Action::Stat(asked))
    }

    fn builtin_printf(self, argv: &Vec<String>, io: Io) -> (r: (Interp, Action))
        ensures
            interp::lands(
                self@,
                r,
                machine::run_printf(self@.state, self@.sinks, text::texts(argv@), io@),
            ),
    {
        if argv.len() < 2 {
            return self.ends(0);
        }
        assert(text::texts(argv@)[1] == argv@[1]@);
        let args = copy_strings(argv, 2);
        if words::asks_for_float(argv[1].as_str()) {
            let asked = copy_strings(argv, 2);
            return self.asks(
                Ctl::AwaitFloats { fmt: argv[1].clone(), args, io },
                Action::Floats(asked),
            );
        }
        let none = interp::no_strings();
        assert(text::texts(none@) =~= seq![]);
        let out = words::printf(argv[1].as_str(), &args, &none);
        self.says(&io.stdout, out.as_str(), 0)
    }

    /// Run an external command with the given input.
    pub(crate) fn exec_with(self, argv: Vec<String>, io: Io, local: Env, stdin: Vec<u8>) -> (r: (
        Interp,
        Action,
    ))
        ensures
            interp::lands(
                self@,
                r,
                machine::asks(
                    self@.state,
                    self@.sinks,
                    machine::CtlV::AwaitExec { io: io@ },
                    machine::ActionV::Exec(
                        machine::request(
                            self@.state,
                            text::texts(argv@),
                            local@,
                            stdin@,
                        ),
                    ),
                ),
            ),
    {
        let mut env = self.state.env.copy();
        env.set_all(&local);
        let prog = interp::first_field(&argv);
        let cwd = self.state.cwd.clone();
        self.asks(
            Ctl::AwaitExec { io },
            Action::Exec(ExecRequest { prog, argv, env, cwd, stdin }),
        )
    }

    fn run_exec(self, argv: Vec<String>, io: Io, local: Env) -> (r: (Interp, Action))
        ensures
            interp::lands(
                self@,
                r,
                machine::run_external(
                    self@.state,
                    self@.sinks,
                    text::texts(argv@),
                    io@,
                    local@,
                ),
            ),
    {
        match io.stdin.copy() {
            In::File(p) => self.asks(Ctl::AwaitStdin { argv, io, local }, Action::Read(p)),
            In::Buffer(b) => self.exec_with(argv, io, local, b),
            In::Empty => {
                let none: Vec<u8> = Vec::new();
                assert(none@ =~= seq![]);
                self.exec_with(argv, io, local, none)
            },
        }
    }

    pub(crate) fn dispatch(self, argv: Vec<String>, io: Io, local: Env) -> (r: (Interp, Action))
        ensures
            interp::lands(
                self@,
                r,
                machine::dispatch(
                    self@.state,
                    self@.sinks,
                    text::texts(argv@),
                    io@,
                    local@,
                ),
            ),
    {
        if argv.len() == 0 {
            return self.ends(0);
        }
        let ghost a = text::texts(argv@);
        assert(a[0] == argv@[0]@);
        let name = argv[0].clone();
        let n = name.as_str();
        if text::same(n, "echo") {
            let out = words::echo(&argv);
            self.says(&io.stdout, out.as_str(), 0)
        } else if text::same(n, "printf") {
            self.builtin_printf(&argv, io)
        } else if text::same(n, "cd") {
            self.builtin_cd(&argv, io)
        } else if text::same(n, "pwd") {
            let out = self.state.cwd_display().concat("\n");
            self.says(&io.stdout, out.as_str(), 0)
        } else if text::same(n, "export") {
            self.builtin_export(&argv)
        } else if text::same(n, "unset") {
            self.builtin_unset(&argv)
        } else if text::same(n, "set") {
            self.builtin_set(&argv, &io)
        } else if text::same(n, "env") {
            self.builtin_env(argv, io, local)
        } else if text::same(n, "exit") {
            self.builtin_exit(&argv)
        } else if text::same(n, "true") {
            self.ends(0)
        } else if text::same(n, "false") {
            self.ends(1)
        } else if text::same(n, "test") {
            let args = copy_strings(&argv, 1);
            self.builtin_test(&args)
        } else if text::same(n, "[") {
            if argv.len() > 1 {
                assert(a.last() == argv@.last()@);
                if text::same(argv[argv.len() - 1].as_str(), "]") {
                    let mut args = copy_strings(&argv, 1);
                    let ghost all = text::texts(args@);
                    args.pop();
                    assert(text::texts(args@) =~= a.subrange(1, a.len() - 1));
                    return self.builtin_test(&args);
                }
            }
            self.says(&io.stderr, "bash: [: missing `]'\n", 2)
        } else if exec::external(n) {
            self.run_exec(argv, io, local)
        } else {
            // Path-based dispatch: `/bin/<cmd>` (and `<cmd>` reached through
            // `PATH=/bin`) runs the matching coreutils command.
            let base = path::file_name(n);
            if exec::external(base.as_str()) {
                let mut resolved = argv;
                let ghost b = base@;
                resolved.set(0, base);
                assert(text::texts(resolved@) =~= a.update(0, b));
                return self.run_exec(resolved, io, local);
            }
            let line = text::owned("bash: ").concat(n).concat(": command not found\n");
            self.says(&io.stderr, line.as_str(), 127)
        }
    }
}

} // verus!
