//! The bash tool: `{command, cwd?, env?}` in, `{exit_code, stderr, stdout}` out.
use crate::host::tools::ToolError;
use crate::json::{self, Json, JsonV, Number, NumberV};
use crate::shell::exec::ExecOutcome;
use crate::shell::interp::{self, Interp, ScriptResult};
use crate::shell::machine::MachineV;
use crate::shell::vars::{self, Env, Pairs};
use crate::text;
use vstd::prelude::*;

verus! {

broadcast use crate::text::views_push;

/// A script to run.
pub struct BashCall {
    pub command: String,
    pub cwd: String,
    pub env: Env,
}

pub struct BashCallV {
    pub command: Seq<char>,
    pub cwd: Seq<char>,
    pub env: Pairs,
}

impl View for BashCall {
    type V = BashCallV;

    open spec fn view(&self) -> BashCallV {
        BashCallV { command: self.command@, cwd: self.cwd@, env: self.env@ }
    }
}

/// The members of an object as variables; what is no text is empty.
pub open spec fn env_of(m: Seq<(Seq<char>, JsonV)>) -> Pairs {
    m.map_values(|e: (Seq<char>, JsonV)| (e.0, json::text_or_empty(Some(e.1))))
}

pub open spec fn extra_env(args: JsonV) -> Pairs {
    match json::field(args, "env"@) {
        Some(JsonV::Obj(m)) => env_of(m),
        _ => seq![],
    }
}

/// The script that the arguments ask for: none without a command.
pub open spec fn asked(args: JsonV, inherited: Pairs) -> Option<BashCallV> {
    match json::str_of(json::field(args, "command"@)) {
        Some(command) => Some(
            BashCallV {
                command,
                cwd: match json::str_of(json::field(args, "cwd"@)) {
                    Some(d) => d,
                    None => "/home/carson"@,
                },
                env: vars::with_all(inherited, extra_env(args)),
            },
        ),
        None => None,
    }
}

/// Reads the arguments of a call. The variables given with it override those inherited.
pub fn read_call(args: &Json, inherited: Env) -> (r: Result<BashCall, ToolError>)
    ensures
        match r {
            Ok(c) => asked(args@, inherited@) == Some(c@),
            Err(e) => e == ToolError::Failed && asked(args@, inherited@) is None,
        },
{
    let command = match json::str_in(args.get("command")) {
        Some(c) => text::owned(c),
        None => {
            return Err(ToolError::Failed);
        },
    };
    let cwd = match json::str_in(args.get("cwd")) {
        Some(d) => text::owned(d),
        None => text::owned("/home/carson"),
    };
    let mut env = inherited;
    let ghost start = env@;
    let mut extra: Vec<(String, String)> = Vec::new();
    if let Some(Json::Obj(m)) = args.get("env") {
        let ghost all = env_of(json::members_view(m@));
        proof {
            json::lemma_members(m@);
        }
        let mut i: usize = 0;
        while i < m.len()
            invariant
                i <= m@.len(),
                all == env_of(json::members_view(m@)),
                json::members_view(m@).len() == m@.len(),
                forall|k: int|
                    0 <= k < m@.len() ==> #[trigger] json::members_view(m@)[k] == (
                        m@[k].0@,
                        json::json_view(m@[k].1),
                    ),
                vars::pairs_view(extra@) == all.take(i as int),
            decreases m@.len() - i,
        {
            let e = (m[i].0.clone(), json::string_in(Some(&m[i].1)));
            assert(json::members_view(m@)[i as int] == (m@[i as int].0@, m@[i as int].1@));
            let ghost had = extra@;
            extra.push(e);
            i = i + 1;
            assert(vars::pairs_view(extra@) =~= vars::pairs_view(had).push((e.0@, e.1@)));
            assert(vars::pairs_view(extra@) =~= all.take(i as int));
        }
        assert(all.take(i as int) =~= all);
    }
    assert(vars::pairs_view(extra@) =~= extra_env(args@));
    let more = Env { entries: extra };
    env.set_all(&more);
    Ok(BashCall { command, cwd, env })
}

/// Reads the text of the arguments of a call.
pub fn parse_call(arguments_json: &str, inherited: Env) -> (r: Result<BashCall, ToolError>)
    ensures
        match r {
            Ok(c) => match json::json_value(arguments_json@) {
                Some(args) => asked(args, inherited@) == Some(c@),
                None => false,
            },
            Err(e) => e == ToolError::Failed && match json::json_value(arguments_json@) {
                Some(args) => asked(args, inherited@) is None,
                None => true,
            },
        },
{
    match json::parse(arguments_json) {
        Ok(args) => read_call(&args, inherited),
        Err(_) => Err(ToolError::Failed),
    }
}

impl BashCall {
    /// The machine that runs the script from the sandbox root, or the report of
    /// a script that cannot be read.
    pub fn start(self) -> (r: Result<Interp, ScriptResult>)
        ensures
            match r {
                Ok(m) => interp::starts(self@.command, self@.env, "/"@, self@.cwd) == Ok::<
                    MachineV,
                    Seq<char>,
                >(m@),
                Err(res) => res.status == 2 && res.stdout@.len() == 0 && interp::starts(
                    self@.command,
                    self@.env,
                    "/"@,
                    self@.cwd,
                ) == Err::<MachineV, Seq<char>>(res.stderr@),
            },
    {
        match interp::run_script_with_cwd(
            self.command.as_str(),
            self.env,
            text::owned("/"),
            self.cwd.as_str(),
        ) {
            Ok(m) => Ok(m),
            Err(msg) => Err(ScriptResult { stdout: String::new(), stderr: msg, status: 2 }),
        }
    }
}

pub open spec fn status_number(n: i32) -> NumberV {
    if n >= 0 {
        NumberV::Unsigned(n as u64)
    } else {
        NumberV::Negative(n as i64)
    }
}

/// What the tool reports of a script.
pub open spec fn report(stdout: Seq<char>, stderr: Seq<char>, status: i32) -> JsonV {
    JsonV::Obj(
        seq![
            ("exit_code"@, JsonV::Num(status_number(status))),
            ("stderr"@, JsonV::Str(stderr)),
            ("stdout"@, JsonV::Str(stdout)),
        ],
    )
}

/// The text of the report. It is read back as the report.
pub fn report_text(res: &ScriptResult) -> (r: String)
    ensures
        r@ == json::json_text(report(res.stdout@, res.stderr@, res.status)),
        json::json_value(r@) == Some(report(res.stdout@, res.stderr@, res.status)),
{
    let code = if res.status >= 0 {
        Number::Unsigned(res.status as u64)
    } else {
        Number::Negative(res.status as i64)
    };
    let mut o = json::object();
    json::put(&mut o, "exit_code", Json::Num(code));
    json::put(&mut o, "stderr", json::string(res.stderr.as_str()));
    json::put(&mut o, "stdout", json::string(res.stdout.as_str()));
    let ghost m = seq![
        ("exit_code"@, JsonV::Num(status_number(res.status))),
        ("stderr"@, JsonV::Str(res.stderr@)),
        ("stdout"@, JsonV::Str(res.stdout@)),
    ];
    assert(json::members_view(o@) =~= m);
    let j = Json::Obj(o);
    proof {
        assert(j@ == report(res.stdout@, res.stderr@, res.status));
        reveal_strlit("exit_code");
        reveal_strlit("stderr");
        reveal_strlit("stdout");
        reveal_with_fuel(text::text_lt, 5);
        assert(text::text_lt("exit_code"@, "stderr"@));
        assert(text::text_lt("stderr"@, "stdout"@)) by {
            let a = "stderr"@;
            let b = "stdout"@;
            assert(a[0] == b[0] && a[1] == b[1] && a[2] == 'd' && b[2] == 'd');
            assert(a.skip(1).skip(1).skip(1)[0] == 'e');
            assert(b.skip(1).skip(1).skip(1)[0] == 'o');
        }
        assert(text::text_lt("exit_code"@, "stdout"@));
        json::lemma_short_key("exit_code"@);
    }
    json::render(&j)
}

/// What a command that could not be run leaves behind.
pub fn exec_failed(prog: &str, why: &str) -> (r: ExecOutcome)
    ensures
        r.status == 126,
        r.stdout@.len() == 0,
        r.stderr@ == vstd::utf8::encode_utf8(
            "bash: "@ + prog@ + ": execution failed: "@ + why@ + "\n"@,
        ),
{
    let line = text::owned("bash: ").concat(prog).concat(": execution failed: ").concat(
        why,
    ).concat("\n");
    let mut err: Vec<u8> = Vec::new();
    err.extend_from_slice(line.as_str().as_bytes());
    assert(err@ =~= vstd::utf8::encode_utf8(line@));
    ExecOutcome { status: 126, stdout: Vec::new(), stderr: err }
}

} // verus!
