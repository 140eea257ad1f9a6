//! The interface for running non-builtin commands.
use crate::shell::vars::{Env, Pairs};
use crate::text;
use vstd::prelude::*;

verus! {

/// The utilities of the coreutils runner.
pub open spec fn coreutil_names() -> Seq<Seq<char>> {
    seq![
        "base32"@, "base64"@, "basename"@, "cat"@, "cksum"@, "comm"@, "cp"@, "csplit"@, "cut"@,
        "date"@, "dirname"@, "expand"@, "factor"@, "fmt"@, "fold"@, "head"@, "join"@, "link"@,
        "ln"@, "ls"@, "md5sum"@, "mkdir"@, "mktemp"@, "mv"@, "nl"@, "numfmt"@, "od"@, "paste"@,
        "pathchk"@, "pr"@, "printf"@, "ptx"@, "pwd"@, "readlink"@, "realpath"@, "rm"@,
        "rmdir"@, "seq"@, "sha1sum"@, "sha224sum"@, "sha256sum"@, "sha384sum"@, "sha512sum"@,
        "shuf"@, "sort"@, "split"@, "sum"@, "tail"@, "tee"@, "touch"@, "tr"@, "truncate"@,
        "tsort"@, "unexpand"@, "uniq"@, "wc"@, "yes"@,
    ]
}

/// The commands the shell may hand to [`Exec`]. Everything else is `command not
/// found`. These run as separate sandboxed programs with their own stdio.
pub open spec fn external_names() -> Seq<Seq<char>> {
    seq![
        "ls"@, "cat"@, "cp"@, "mv"@, "rm"@, "mkdir"@, "touch"@, "env"@, "date"@,
    ] + coreutil_names()
}

pub open spec fn is_coreutil(n: Seq<char>) -> bool {
    coreutil_names().contains(n)
}

pub open spec fn is_external(n: Seq<char>) -> bool {
    external_names().contains(n)
}

fn push_name(out: &mut Vec<String>, n: &str)
    ensures
        text::texts(final(out)@) == text::texts(old(out)@).push(n@),
{
    let ghost had = text::texts(out@);
    out.push(text::owned(n));
    assert(text::texts(out@) =~= had.push(n@));
}

/// The utilities of the coreutils runner.
pub fn coreutils() -> (r: Vec<String>)
    ensures
        text::texts(r@) == coreutil_names(),
{
    let mut out: Vec<String> = Vec::new();
    push_name(&mut out, "base32");
    push_name(&mut out, "base64");
    push_name(&mut out, "basename");
    push_name(&mut out, "cat");
    push_name(&mut out, "cksum");
    push_name(&mut out, "comm");
    push_name(&mut out, "cp");
    push_name(&mut out, "csplit");
    push_name(&mut out, "cut");
    push_name(&mut out, "date");
    push_name(&mut out, "dirname");
    push_name(&mut out, "expand");
    push_name(&mut out, "factor");
    push_name(&mut out, "fmt");
    push_name(&mut out, "fold");
    push_name(&mut out, "head");
    push_name(&mut out, "join");
    push_name(&mut out, "link");
    push_name(&mut out, "ln");
    push_name(&mut out, "ls");
    push_name(&mut out, "md5sum");
    push_name(&mut out, "mkdir");
    push_name(&mut out, "mktemp");
    push_name(&mut out, "mv");
    push_name(&mut out, "nl");
    push_name(&mut out, "numfmt");
    push_name(&mut out, "od");
    push_name(&mut out, "paste");
    push_name(&mut out, "pathchk");
    push_name(&mut out, "pr");
    push_name(&mut out, "printf");
    push_name(&mut out, "ptx");
    push_name(&mut out, "pwd");
    push_name(&mut out, "readlink");
    push_name(&mut out, "realpath");
    push_name(&mut out, "rm");
    push_name(&mut out, "rmdir");
    push_name(&mut out, "seq");
    push_name(&mut out, "sha1sum");
    push_name(&mut out, "sha224sum");
    push_name(&mut out, "sha256sum");
    push_name(&mut out, "sha384sum");
    push_name(&mut out, "sha512sum");
    push_name(&mut out, "shuf");
    push_name(&mut out, "sort");
    push_name(&mut out, "split");
    push_name(&mut out, "sum");
    push_name(&mut out, "tail");
    push_name(&mut out, "tee");
    push_name(&mut out, "touch");
    push_name(&mut out, "tr");
    push_name(&mut out, "truncate");
    push_name(&mut out, "tsort");
    push_name(&mut out, "unexpand");
    push_name(&mut out, "uniq");
    push_name(&mut out, "wc");
    push_name(&mut out, "yes");
    assert(text::texts(out@) =~= coreutil_names());
    out
}

/// The external commands, the shell's own and those of the runner.
pub fn external_commands() -> (r: Vec<String>)
    ensures
        text::texts(r@) == external_names(),
{
    let mut out: Vec<String> = Vec::new();
    push_name(&mut out, "ls");
    push_name(&mut out, "cat");
    push_name(&mut out, "cp");
    push_name(&mut out, "mv");
    push_name(&mut out, "rm");
    push_name(&mut out, "mkdir");
    push_name(&mut out, "touch");
    push_name(&mut out, "env");
    push_name(&mut out, "date");
    let ghost own = text::texts(out@);
    let mut more = coreutils();
    let ghost all = text::texts(more@);
    out.append(&mut more);
    assert(text::texts(out@) =~= own + all);
    assert(own =~= external_names().take(9));
    assert(text::texts(out@) =~= external_names());
    out
}

fn listed(names: &Vec<String>, n: &str) -> (r: bool)
    ensures
        r == text::texts(names@).contains(n@),
{
    let ghost all = text::texts(names@);
    let mut i: usize = 0;
    while i < names.len()
        invariant
            i <= names@.len(),
            all == text::texts(names@),
            forall|k: int| 0 <= k < i ==> #[trigger] all[k] != n@,
        decreases names@.len() - i,
    {
        if text::same(names[i].as_str(), n) {
            assert(all[i as int] == n@);
            return true;
        }
        assert(all[i as int] != n@);
        i = i + 1;
    }
    false
}

/// Whether the coreutils runner knows a utility.
pub fn coreutil(n: &str) -> (r: bool)
    ensures
        r == is_coreutil(n@),
{
    listed(&coreutils(), n)
}

/// Whether a name is that of an external command.
pub fn external(n: &str) -> (r: bool)
    ensures
        r == is_external(n@),
{
    listed(&external_commands(), n)
}

/// The exit code of a utility, given what it returned; 127 for one that is not known.
pub open spec fn runner_code(util: Seq<char>, returned: i32) -> u32 {
    if !is_coreutil(util) {
        127
    } else if returned > 0 {
        returned as u32
    } else {
        0
    }
}

/// How the runner of the utilities ends.
pub fn dispatch_code(util: &str, returned: i32) -> (r: u32)
    ensures
        r == runner_code(util@, returned),
{
    if !coreutil(util) {
        127
    } else if returned > 0 {
        returned as u32
    } else {
        0
    }
}

/// A non-builtin command that is to be run. `cwd` is the shell's current
/// directory relative to the sandbox root.
pub struct ExecRequest {
    pub prog: String,
    pub argv: Vec<String>,
    pub env: Env,
    pub cwd: String,
    pub stdin: Vec<u8>,
}

#[verifier::ext_equal]
pub struct ExecRequestV {
    pub prog: Seq<char>,
    pub argv: Seq<Seq<char>>,
    pub env: Pairs,
    pub cwd: Seq<char>,
    pub stdin: Seq<u8>,
}

impl View for ExecRequest {
    type V = ExecRequestV;

    open spec fn view(&self) -> ExecRequestV {
        ExecRequestV {
            prog: self.prog@,
            argv: text::texts(self.argv@),
            env: self.env@,
            cwd: self.cwd@,
            stdin: self.stdin@,
        }
    }
}

/// How a command ended and what it wrote.
pub struct ExecOutcome {
    pub status: i32,
    pub stdout: Vec<u8>,
    pub stderr: Vec<u8>,
}

/// A command runner that executes a program with its own captured stdio.
pub trait Exec {
    fn run(&mut self, req: &ExecRequest) -> ExecOutcome;
}

/// An [`Exec`] that knows no commands at all; useful where only builtins run.
pub struct NoExec;

impl Exec for NoExec {
    fn run(&mut self, req: &ExecRequest) -> (r: ExecOutcome)
        ensures
            r.status == 127,
            r.stdout@ == Seq::<u8>::empty(),
            r.stderr@ == Seq::<u8>::empty(),
    {
        ExecOutcome { status: 127, stdout: Vec::new(), stderr: Vec::new() }
    }
}

} // verus!
