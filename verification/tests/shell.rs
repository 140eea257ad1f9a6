//! The shell, driven over a filesystem in memory.
use std::collections::{BTreeMap, BTreeSet};

use carson::guest::bash;
use carson::json;
use carson::shell::ast::{Command, WordPart};
use carson::shell::exec::{self, Exec, ExecOutcome, ExecRequest, NoExec};
use carson::shell::interp::{run_script, Action, Event, Interp, ScriptResult};
use carson::shell::lexer::{lex, Tok};
use carson::shell::machine::FileInfo;
use carson::shell::parser::parse;
use carson::shell::state::ShellState;
use carson::shell::vars::Env;

#[derive(Clone, Default)]
struct Disk {
    files: BTreeMap<String, Vec<u8>>,
    dirs: BTreeSet<String>,
}

fn tidy(path: &str) -> String {
    let mut parts: Vec<&str> = Vec::new();
    for p in path.split('/') {
        match p {
            "" | "." => {}
            ".." => {
                parts.pop();
            }
            p => parts.push(p),
        }
    }
    format!("/{}", parts.join("/"))
}

fn parent(path: &str) -> String {
    match path.rfind('/') {
        Some(0) | None => "/".to_string(),
        Some(i) => path[..i].to_string(),
    }
}

impl Disk {
    fn is_dir(&self, path: &str) -> bool {
        path == "/" || self.dirs.contains(path)
    }

    fn make_dirs(&mut self, path: &str) {
        let mut at = tidy(path);
        while at != "/" {
            self.dirs.insert(at.clone());
            at = parent(&at);
        }
    }

    fn write(&mut self, path: &str, data: &[u8], append: bool) {
        let p = tidy(path);
        if !self.is_dir(&parent(&p)) || self.is_dir(&p) {
            return;
        }
        let file = self.files.entry(p).or_default();
        if !append {
            file.clear();
        }
        file.extend_from_slice(data);
    }

    fn read(&self, path: &str) -> Option<Vec<u8>> {
        self.files.get(&tidy(path)).cloned()
    }

    fn info(&self, path: &str) -> FileInfo {
        let p = tidy(path);
        let file = self.files.get(&p);
        let is_dir = self.is_dir(&p);
        FileInfo {
            exists: file.is_some() || is_dir,
            is_file: file.is_some(),
            is_dir,
            len: file.map(|f| f.len() as u64).unwrap_or(0),
            mtime: 0,
        }
    }

    fn list(&self, path: &str) -> Vec<String> {
        let dir = tidy(path);
        let mut names: Vec<String> = self
            .files
            .keys()
            .chain(self.dirs.iter())
            .filter(|p| parent(p) == dir)
            .map(|p| p.rsplit('/').next().unwrap().to_string())
            .collect();
        names.sort();
        names.dedup();
        names
    }
}

/// A few utilities over the disk.
struct Utils<'a> {
    root: &'a str,
    disk: &'a mut Disk,
}

impl Exec for Utils<'_> {
    fn run(&mut self, req: &ExecRequest) -> ExecOutcome {
        let mut stdout: Vec<u8> = Vec::new();
        let mut stderr: Vec<u8> = Vec::new();
        let base = format!("{}/{}", self.root, req.cwd.trim_start_matches('/'));
        let root = self.root.to_string();
        let at = |f: &str| -> String {
            if f.starts_with('/') {
                tidy(&format!("{root}/{f}"))
            } else {
                tidy(&format!("{base}/{f}"))
            }
        };
        let args: Vec<&String> = req.argv.iter().skip(1).filter(|a| !a.starts_with('-')).collect();
        let status = match req.prog.as_str() {
            "cat" => {
                let mut status = 0;
                if args.is_empty() {
                    stdout.extend_from_slice(&req.stdin);
                }
                for f in args {
                    match self.disk.read(&at(f)) {
                        Some(bytes) => stdout.extend_from_slice(&bytes),
                        None => {
                            stderr.extend_from_slice(format!("cat: {f}: no such file\n").as_bytes());
                            status = 1;
                            break;
                        }
                    }
                }
                status
            }
            "env" => {
                for (k, v) in &req.env.entries {
                    stdout.extend_from_slice(format!("{k}={v}\n").as_bytes());
                }
                0
            }
            "date" => {
                stdout.extend_from_slice(b"2026-08-29\n");
                0
            }
            "mkdir" => {
                for d in args {
                    self.disk.make_dirs(&at(d));
                }
                0
            }
            "touch" => {
                for f in args {
                    self.disk.write(&at(f), b"", true);
                }
                0
            }
            "ls" => {
                let dir = args.first().map(|s| s.as_str()).unwrap_or(".");
                let path = at(dir);
                if self.disk.is_dir(&path) {
                    for n in self.disk.list(&path) {
                        stdout.extend_from_slice(format!("{n}\n").as_bytes());
                    }
                    0
                } else if self.disk.read(&path).is_some() {
                    stdout.extend_from_slice(format!("{dir}\n").as_bytes());
                    0
                } else {
                    stderr.extend_from_slice(format!("ls: {dir}: no such file\n").as_bytes());
                    2
                }
            }
            "head" => {
                for line in String::from_utf8_lossy(&req.stdin).lines().take(2) {
                    stdout.extend_from_slice(format!("{line}\n").as_bytes());
                }
                0
            }
            prog => exec::dispatch_code(prog, 0) as i32,
        };
        ExecOutcome { status, stdout, stderr }
    }
}

fn drive(start: Interp, runner: &mut dyn FnMut(&ExecRequest, &mut Disk) -> ExecOutcome, disk: &mut Disk) -> ScriptResult {
    let mut machine = start;
    let mut event = Event::Ready;
    loop {
        let (next, action) = machine.step(event);
        machine = next;
        event = match action {
            Action::Continue => Event::Ready,
            Action::Write(w) => {
                disk.write(&w.path, &w.data, w.append);
                Event::Ready
            }
            Action::Read(p) => Event::Bytes(disk.read(&p).unwrap_or_default()),
            Action::Stat(p) => Event::Info(disk.info(&p)),
            Action::Exec(req) => {
                let out = runner(&req, disk);
                Event::Ran { status: out.status, stdout: out.stdout, stderr: out.stderr }
            }
            Action::Floats(texts) => Event::Texts(
                texts
                    .iter()
                    .map(|t| format!("{}", t.parse::<f64>().unwrap_or(0.0)))
                    .collect(),
            ),
            Action::Done => return machine.result(),
        };
    }
}

struct Harness {
    root: String,
    env: Vec<(String, String)>,
    disk: std::cell::RefCell<Disk>,
}

struct Out {
    stdout: String,
    stderr: String,
    status: i32,
}

impl Out {
    fn out(&self) -> &str {
        self.stdout.trim_end()
    }
}

impl Harness {
    fn new() -> Self {
        let mut disk = Disk::default();
        disk.make_dirs("/sandbox");
        Harness { root: "/sandbox".to_string(), env: Vec::new(), disk: std::cell::RefCell::new(disk) }
    }

    fn with_env(mut self, key: &str, val: &str) -> Self {
        self.env.push((key.to_string(), val.to_string()));
        self
    }

    fn write(&self, path: &str, content: &str) -> &Self {
        let p = format!("{}/{}", self.root, path);
        self.disk.borrow_mut().write(&p, content.as_bytes(), false);
        self
    }

    fn read(&self, path: &str) -> String {
        let p = format!("{}/{}", self.root, path);
        String::from_utf8(self.disk.borrow().read(&p).unwrap()).unwrap()
    }

    fn run(&self, script: &str) -> Out {
        let start = run_script(script, Env::from_pairs(self.env.clone()), self.root.clone()).unwrap();
        let root = self.root.clone();
        let mut disk = self.disk.borrow_mut();
        let res = drive(start, &mut |req, disk| Utils { root: &root, disk }.run(req), &mut disk);
        Out { stdout: res.stdout, stderr: res.stderr, status: res.status }
    }

    fn run_script_err(&self, script: &str) -> Option<String> {
        run_script(script, Env::from_pairs(self.env.clone()), self.root.clone()).err()
    }
}

#[test]
fn echo_and_printf() {
    let h = Harness::new();
    assert_eq!(h.run("echo hello world").out(), "hello world");
    assert_eq!(h.run("echo -n no-newline").out(), "no-newline");
    assert_eq!(h.run(r"echo -e 'a\nb'").out(), "a\nb");
    assert_eq!(h.run(r"printf '%s-%d\n' foo 42").out(), "foo-42");
}

#[test]
fn variables_and_expansion() {
    let h = Harness::new();
    assert_eq!(h.run("x=hello; echo $x").out(), "hello");
    assert_eq!(h.run("echo ${x}").out(), "");
    assert_eq!(h.run("x=hello; echo ${x}world").out(), "helloworld");
    assert_eq!(h.run("echo \"$x\"").out(), "");
    assert_eq!(h.run("x='a b'; echo $x").out(), "a b");
    assert_eq!(h.run("x='a b'; echo \"$x\"").out(), "a b");
    assert_eq!(h.run("x=a; y=b; echo $x$y").out(), "ab");
}

#[test]
fn word_splitting_and_quotes() {
    let h = Harness::new();
    assert_eq!(h.run("x='1 2 3'; printf '<%s> ' $x").out(), "<1> <2> <3>");
    assert_eq!(h.run("x='1 2 3'; printf '<%s> ' \"$x\"").out(), "<1 2 3>");
    assert_eq!(h.run("printf '<%s> ' a\"b\"c").out(), "<abc>");
}

#[test]
fn exit_status_dollar_question() {
    let h = Harness::new();
    let r = h.run("false; echo $?");
    assert_eq!(r.out(), "1");
    let r = h.run("true; echo $?");
    assert_eq!(r.out(), "0");
    let r = h.run("nosuchcmd; echo $?");
    assert_eq!(r.out(), "127");
    assert!(r.stderr.contains("command not found"));
    assert_eq!(h.run("exit 3").status, 3);
}

#[test]
fn and_or_short_circuit() {
    let h = Harness::new();
    assert_eq!(h.run("true && echo yes").out(), "yes");
    assert_eq!(h.run("false && echo no").out(), "");
    assert_eq!(h.run("false || echo fallback").out(), "fallback");
    assert_eq!(h.run("true || echo no").out(), "");
    assert_eq!(h.run("! false && echo negated").out(), "negated");
}

#[test]
fn if_elif_else() {
    let h = Harness::new();
    assert_eq!(h.run("if true; then echo a; fi").out(), "a");
    assert_eq!(h.run("if false; then echo a; else echo b; fi").out(), "b");
    assert_eq!(
        h.run("if false; then echo a; elif true; then echo b; else echo c; fi").out(),
        "b"
    );
    assert_eq!(
        h.run("if false; then echo a; elif false; then echo b; else echo c; fi").out(),
        "c"
    );
}

#[test]
fn for_loop() {
    let h = Harness::new();
    assert_eq!(h.run("for i in a b c; do echo $i; done").out(), "a\nb\nc");
    assert_eq!(h.run("for i in 1 2; do echo -n $i; done").out(), "12");
}

#[test]
fn while_loop() {
    let h = Harness::new();
    assert_eq!(h.run("n=2; while [ $n -gt 0 ]; do echo $n; n=0; done").out(), "2");
    assert_eq!(h.run("while false; do echo x; done").out(), "");
}

#[test]
fn pipeline_with_fake_exec() {
    let h = Harness::new();
    assert_eq!(h.run("echo hi | cat").out(), "hi");
    assert_eq!(h.run("echo -e 'a\nb\nc' | cat").out(), "a\nb\nc");
    // two-stage pipeline
    assert_eq!(h.run("echo hi | cat | cat").out(), "hi");
}

#[test]
fn command_substitution() {
    let h = Harness::new();
    assert_eq!(h.run("x=$(echo hi); echo $x").out(), "hi");
    assert_eq!(h.run("echo $(echo a)$(echo b)").out(), "ab");
    assert_eq!(h.run("echo \"$(echo a b)\"").out(), "a b");
    assert_eq!(h.run("echo $(echo -e 'x\ny')").out(), "x y");
}

#[test]
fn subshell_isolation() {
    let h = Harness::new();
    let r = h.run("x=outer; (x=inner; echo $x); echo $x");
    assert_eq!(r.out(), "inner\nouter");
    // status propagates
    let r = h.run("(exit 5); echo $?");
    assert_eq!(r.out(), "5");
}

#[test]
fn redirections() {
    let h = Harness::new();
    h.run("echo hi > f.txt");
    assert_eq!(h.read("f.txt"), "hi\n");
    h.run("echo more >> f.txt");
    assert_eq!(h.read("f.txt"), "hi\nmore\n");
    h.run("echo err >&2");
    let r = h.run("true");
    assert!(r.stderr.is_empty(), "no stderr from previous");
    // 2> redirects stderr to a file
    let r = h.run("nosuchcmd 2> err.txt");
    assert_eq!(r.stdout, "");
    assert_eq!(h.read("err.txt"), "bash: nosuchcmd: command not found\n");
}

#[test]
fn heredocs_and_here_strings() {
    let h = Harness::new();

    // Basic heredoc feeds the body to stdin.
    let r = h.run("cat <<EOF\nhello\nEOF\n");
    assert_eq!(r.out(), "hello");

    // Multi-line body, both expansion and quoted-delimiter literal forms.
    let r = h.run("x=world; cat <<EOF\na\nhi $x\nEOF\n");
    assert_eq!(r.out(), "a\nhi world");
    let r = h.run("x=world; cat <<'EOF'\nhi $x\nEOF\n");
    assert_eq!(r.out(), "hi $x");

    // <<- strips leading tabs from body and delimiter.
    let r = h.run("cat <<-EOF\n\thello\n\tEOF\n");
    assert_eq!(r.out(), "hello");

    // Command substitution and $? expand inside an unquoted heredoc.
    let r = h.run("cat <<EOF\n$(echo sub) $?\nEOF\n");
    assert_eq!(r.out(), "sub 0");

    // Heredoc feeding a pipeline.
    let r = h.run("cat <<EOF | cat\na\nb\nEOF\n");
    assert_eq!(r.out(), "a\nb");

    // Heredoc inside command substitution.
    let r = h.run("x=$(cat <<EOF\nhi\nEOF\n); echo $x");
    assert_eq!(r.out(), "hi");

    // Here-strings append a newline and expand the word.
    let r = h.run("cat <<< hello");
    assert_eq!(r.out(), "hello");
    let r = h.run("x=abc; cat <<< \"$x\"");
    assert_eq!(r.out(), "abc");
}

#[test]
fn test_builtin() {
    let h = Harness::new();
    h.write("a.txt", "x");
    assert_eq!(h.run("test -f a.txt && echo yes").out(), "yes");
    assert_eq!(h.run("[ -f a.txt ] && echo yes").out(), "yes");
    assert_eq!(h.run("test -d / && echo yes").out(), "yes");
    assert_eq!(h.run("test -e nope || echo no").out(), "no");
    assert_eq!(h.run("test -z '' && echo z").out(), "z");
    assert_eq!(h.run("test -n x && echo n").out(), "n");
    assert_eq!(h.run("test 3 -lt 5 && echo lt").out(), "lt");
    assert_eq!(h.run("test a = a && echo eq").out(), "eq");
    assert_eq!(h.run("test a != b && echo ne").out(), "ne");
}

#[test]
fn cd_and_pwd() {
    let h = Harness::new();
    h.run("mkdir sub");
    assert_eq!(h.run("cd sub; pwd").out(), "/sub");
    assert_eq!(h.run("cd /; pwd").out(), "/");
    assert_eq!(h.run("cd sub; cd ..; pwd").out(), "/");
    let r = h.run("cd nope; echo $?");
    assert_eq!(r.out(), "1");
}

#[test]
fn export_unset_env() {
    let h = Harness::new().with_env("START", "1");
    assert_eq!(h.run("export FOO=bar; env").out(), "FOO=bar\nSTART=1");
    assert_eq!(h.run("export FOO=bar; unset FOO; env").out(), "START=1");
    assert_eq!(h.run("unset START; echo $START").out(), "");
}

#[test]
fn env_override_prints_or_runs() {
    let h = Harness::new().with_env("BASE", "1");
    assert_eq!(h.run("env").out(), "BASE=1");
    assert_eq!(h.run("A=x env | cat").out(), "A=x\nBASE=1");
    // override does not leak into the parent shell
    assert_eq!(h.run("A=x env > /dev/null; echo $A").out(), "");
}

#[test]
fn assignments_and_commands() {
    let h = Harness::new();
    // bare assignment persists
    assert_eq!(h.run("A=1; echo $A").out(), "1");
    // assignment before a command does not persist
    assert_eq!(h.run("A=2 env; echo $A").out(), "A=2");
}

#[test]
fn brace_group() {
    let h = Harness::new();
    assert_eq!(h.run("{ echo a; echo b; }").out(), "a\nb");
    // braces share state
    assert_eq!(h.run("{ x=1; }; echo $x").out(), "1");
}

#[test]
fn comments_and_blank_lines() {
    let h = Harness::new();
    assert_eq!(h.run("echo a # comment\n# full line\n echo b").out(), "a\nb");
    assert_eq!(h.run("echo a\n\n\necho b").out(), "a\nb");
}

#[test]
fn parse_errors_are_loud() {
    let h = Harness::new();
    assert!(h.run_script_err("if true; then echo").is_some());
    assert!(h.run_script_err("for x in; do").is_some());
    assert!(h.run_script_err("echo \"unterminated").is_some());
}

#[test]
fn background_and_separators() {
    let h = Harness::new();
    assert_eq!(h.run("echo a; echo b").out(), "a\nb");
    assert_eq!(h.run("echo a && echo b & echo c").out(), "a\nb\nc");
    assert_eq!(h.run("echo a\necho b").out(), "a\nb");
}

// ---- edges ----

#[test]
fn a_syntax_error_names_the_shell() {
    let h = Harness::new();
    let msg = h.run_script_err("echo 'open").unwrap();
    assert!(msg.starts_with("bash: syntax error: "), "{msg}");
}

#[test]
fn standard_error_joins_standard_output() {
    let h = Harness::new();
    let r = h.run("nosuchcmd 2>&1");
    assert_eq!(r.stdout, "bash: nosuchcmd: command not found\n");
    assert_eq!(r.stderr, "");
    assert_eq!(r.status, 127);
}

#[test]
fn input_is_read_from_a_file() {
    let h = Harness::new();
    h.write("in.txt", "line\n");
    assert_eq!(h.run("cat < in.txt").out(), "line");
    assert_eq!(h.run("cat < missing.txt").out(), "");
}

#[test]
fn until_runs_while_its_condition_fails() {
    let h = Harness::new();
    assert_eq!(h.run("n=0; until [ $n = 1 ]; do echo $n; n=1; done").out(), "0");
}

#[test]
fn paths_stay_under_the_root() {
    let h = Harness::new();
    h.run("echo x > ../../escape.txt");
    assert_eq!(h.read("escape.txt"), "x\n");
    assert_eq!(h.run("cd ../..; pwd").out(), "/");
}

#[test]
fn printf_repeats_its_format_and_renders_numbers() {
    let h = Harness::new();
    assert_eq!(h.run(r"printf '%s\n' a b").out(), "a\nb");
    assert_eq!(h.run("printf '%f' 1.5").out(), "1.5");
    assert_eq!(h.run("printf '100%%'").out(), "100%");
}

#[test]
fn output_that_is_no_text_is_made_one() {
    let h = Harness::new();
    h.disk.borrow_mut().write("/sandbox/raw", &[104, 0xff, 105], false);
    assert_eq!(h.run("cat raw").stdout, "h\u{fffd}i");
}

#[test]
fn a_runner_that_knows_nothing_answers_127() {
    let mut none = NoExec;
    let start = run_script("ls; echo $?", Env::new(), "/".to_string()).unwrap();
    let mut disk = Disk::default();
    let res = drive(start, &mut |req, _| none.run(req), &mut disk);
    assert_eq!(res.stdout, "127\n");
}

#[test]
fn external_commands_are_those_of_the_runner_and_a_few_more() {
    let names = exec::external_commands();
    assert_eq!(names.len(), 9 + exec::coreutils().len());
    for n in ["ls", "env", "sort", "wc", "sha512sum"] {
        assert!(exec::external(n), "{n}");
    }
    assert!(!exec::external("gcc"));
    assert_eq!(exec::dispatch_code("wc", -3), 0);
    assert_eq!(exec::dispatch_code("wc", 4), 4);
    assert_eq!(exec::dispatch_code("gcc", 0), 127);
}

// ---- quoting, redirects and what is refused ----

#[test]
fn a_quoted_word_is_neither_reserved_nor_an_assignment() {
    let h = Harness::new();
    for script in ["echo \"if\"", "echo 'if'", "echo \\if", "echo i\"f\"", "echo \"\"if"] {
        let list = parse(script).unwrap_or_else(|e| panic!("{script}: {}", e.msg));
        assert_eq!(list.len(), 1);
        match &list[0] {
            Command::Simple(c) => assert_eq!(c.words.len(), 2, "{script}"),
            _ => panic!("{script}"),
        }
        assert_eq!(h.run(script).stdout, "if\n", "{script}");
    }
    for script in ["\"A=1\"; echo \"[$A]\"", "'A=1'; echo \"[$A]\"", "\"A\"=1; echo \"[$A]\"", "\\A=1; echo \"[$A]\""] {
        let r = h.run(script);
        assert_eq!(r.stdout, "[]\n", "{script}");
        assert_eq!(r.stderr, "bash: A=1: command not found\n", "{script}");
    }
    assert_eq!(h.run("A='x y'; echo \"$A\"").out(), "x y");
    assert_eq!(h.run("A=\"\"; echo \"[$A]\"").out(), "[]");
    assert!(h.run_script_err("echo if").is_some());
}

#[test]
fn double_quotes_keep_their_text_apart() {
    let toks = lex("a\"b c$X\"'d'").unwrap();
    match &toks[0] {
        Tok::Word(w) => {
            assert_eq!(w.parts.len(), 4);
            assert!(matches!(&w.parts[0], WordPart::Lit(s) if s == "a"));
            assert!(matches!(&w.parts[1], WordPart::Quoted(s) if s == "b c"));
            assert!(matches!(&w.parts[2], WordPart::VarQuoted(s) if s == "X"));
            assert!(matches!(&w.parts[3], WordPart::Lit(s) if s == "d"));
            assert!(w.plain().is_none());
        }
        _ => panic!("no word"),
    }
    let toks = lex("\"\"").unwrap();
    assert!(matches!(&toks[0], Tok::Word(w) if w.parts.len() == 1 && matches!(&w.parts[0], WordPart::Quoted(s) if s.is_empty())));
    let h = Harness::new();
    assert_eq!(h.run("printf '%s|' \"\" a \"$\" \"b\\\"c\"").stdout, "|a|$|b\"c|");
}

#[test]
fn a_bad_redirect_fails_the_script() {
    let h = Harness::new();
    let r = h.run("echo hi 3> f");
    assert_eq!(r.stdout, "");
    assert_eq!(r.stderr, "bash: fd 3: unsupported output redirect\n");
    assert_ne!(r.status, 0);
    assert_eq!(h.run("echo hi 3> f; echo $?").out(), "1");
    assert_eq!(h.run("echo hi 3> f || echo failed").out(), "failed");
}

#[test]
fn env_overrides_come_after_the_assignments_of_the_command() {
    let mut seen = Vec::new();
    let start = run_script("A=x env A=y date; echo \"[$A]\"", Env::new(), "/".to_string()).unwrap();
    let mut disk = Disk::default();
    let res = drive(
        start,
        &mut |req, _| {
            seen.push((req.prog.clone(), req.argv.clone(), req.env.get("A")));
            ExecOutcome { status: 0, stdout: Vec::new(), stderr: Vec::new() }
        },
        &mut disk,
    );
    assert_eq!(seen, vec![("date".to_string(), vec!["date".to_string()], Some("y".to_string()))]);
    assert_eq!(res.stdout, "[]\n");
}

#[test]
fn a_file_takes_all_the_variables() {
    let h = Harness::new().with_env("B", "2").with_env("A", "1");
    h.run("env C=3 > e.txt; set > s.txt");
    assert_eq!(h.read("e.txt"), "A=1\nB=2\nC=3\n");
    assert_eq!(h.read("s.txt"), "A=1\nB=2\n");
}

#[test]
fn a_file_takes_both_streams_of_a_command() {
    let h = Harness::new();
    h.write("a", "text\n");
    h.run("cat a missing > both.txt 2>&1");
    assert_eq!(h.read("both.txt"), "text\ncat: missing: no such file\n");
}

#[test]
fn forms_outside_the_subset_are_refused() {
    let h = Harness::new();
    for (script, why) in [
        ("echo *", "globbing is not supported"),
        ("ls *.txt", "globbing is not supported"),
        ("ls a?c", "globbing is not supported"),
        ("ls [ab]", "globbing and arrays are not supported"),
        ("a[0]=1", "globbing and arrays are not supported"),
        ("[[ -f x ]]", "[[ ]] is not supported"),
        ("echo $((1 + 2))", "$(( )) is not supported"),
        ("echo \"$((1 + 2))\"", "$(( )) is not supported"),
        ("echo \"${a[0]}\"", "${a[0]} is not supported"),
        ("echo ${A:-x}", "${A:-x} is not supported"),
        ("x=1 ls a*b", "globbing is not supported"),
        ("echo x=a*b", "globbing is not supported"),
        ("export x=a*b", "globbing is not supported"),
        ("echo hi > a*", "globbing is not supported"),
        ("cat < a?", "globbing is not supported"),
        ("for f in a *.txt; do echo $f; done", "globbing is not supported"),
        ("echo $(( (1 + 2) * 3 ))", "$(( )) is not supported"),
        ("echo $((x))", "$(( )) is not supported"),
        ("case", "case is not supported"),
        ("case $x in a) echo;; esac", "case is not supported"),
        ("function f { echo hi; }", "function is not supported"),
        ("echo $(echo $(ls *))", "syntax error in $(): syntax error in $(): globbing is not supported"),
        ("echo $(if)", "syntax error in $(): expected 'then'"),
        ("cat <<E\n$((1))\nE\n", "$(( )) is not supported"),
    ] {
        let msg = h.run_script_err(script).unwrap_or_else(|| panic!("{script} is accepted"));
        assert_eq!(msg, format!("bash: syntax error: {why}"), "{script}");
    }
    for script in ["f() { echo hi; }", "a=(1 2)", "echo (x)"] {
        assert!(h.run_script_err(script).is_some(), "{script}");
    }
}

#[test]
fn quoted_forms_outside_the_subset_are_text() {
    let h = Harness::new();
    assert_eq!(h.run("echo '*' \"a?c\" \\[x] 'case' \"[[\" $?").out(), "* a?c [x] case [[ 0");
    assert_eq!(h.run("[ 1 = 1 ] && echo ok").out(), "ok");
    assert_eq!(h.run("cat <<'E'\n$((1)) *\nE\n").out(), "$((1)) *");
    assert_eq!(h.run("echo $(echo \"$(echo deep)\")").out(), "deep");
}

#[test]
fn pattern_characters_are_text_where_none_is_expanded() {
    let h = Harness::new();
    assert_eq!(h.run("x=a*b; echo \"$x\"").out(), "a*b");
    assert_eq!(h.run("url=http://h/?q=1 y=[z]; echo \"$url $y\"").out(), "http://h/?q=1 [z]");
    assert_eq!(h.run("x=[[; echo \"$x\"").out(), "[[");
    assert_eq!(h.run("x=*$(echo a)?'b c'; echo \"$x\"").out(), "*a?b c");
    assert_eq!(h.run("cat <<< a*b").out(), "a*b");
    assert_eq!(h.run("cat <<<[x]?").out(), "[x]?");
    assert_eq!(h.run("x=a*b; echo $x").out(), "a*b");
    let list = parse("x=a*b").unwrap();
    match &list[0] {
        Command::Simple(c) => {
            assert_eq!(c.assignments.len(), 1);
            assert_eq!(c.assignments[0].0, "x");
            assert_eq!(c.assignments[0].1.plain(), Some("a*b"));
            assert!(c.words.is_empty());
        }
        _ => panic!("no simple command"),
    }
}

#[test]
fn a_substitution_may_start_with_a_subshell() {
    let h = Harness::new();
    assert_eq!(h.run("echo $((echo a); echo b)").out(), "a b");
    assert_eq!(h.run("echo \"$((echo a) && echo b)\"").out(), "a\nb");
    assert_eq!(h.run("echo $((echo a; echo b))").out(), "a b");
    assert_eq!(h.run("echo $( (echo c) )").out(), "c");
    assert_eq!(h.run("cat <<E\n$((echo a); echo b)\nE\n").out(), "a\nb");
}

#[test]
fn an_open_substitution_tells_where_it_ended() {
    assert_eq!(lex("echo $(a").err().unwrap().pos, 8);
    assert_eq!(lex("echo $(a\\").err().unwrap().pos, 10);
    assert_eq!(lex("echo $(\"a\\").err().unwrap().pos, 11);
    assert_eq!(lex("echo $(a").err().unwrap().msg, "unterminated $(");
}

#[test]
fn paths_come_back_relative_to_the_root() {
    let state = |root: &str| ShellState::new(Env::new(), root.to_string());
    assert_eq!(state("/a/../b").rel_to_root("/a/../b/x"), "x");
    assert_eq!(state("/a/../b").rel_to_root("/b/x/y"), "x/y");
    assert_eq!(state("/a/../b").rel_to_root("/a/../b"), "");
    assert_eq!(state("/r").rel_to_root("/r/x/./y"), "x/y");
    assert_eq!(state("/r").rel_to_root("/s/x"), "");
    assert_eq!(state("/r").rel_to_root("/rx"), "");
    assert_eq!(state("r").rel_to_root("/r/x"), "");
    let s = state("/a/../b");
    assert_eq!(s.rel_to_root(&s.resolve("c/../d")), "d");
}

#[test]
fn only_listed_commands_reach_the_runner() {
    let mut seen = Vec::new();
    let script = "gcc x; /usr/bin/gcc; /usr/bin/wc -l; ls; ./env; bash -c ls; echo $?";
    let start = run_script(script, Env::new(), "/".to_string()).unwrap();
    let mut disk = Disk::default();
    let res = drive(
        start,
        &mut |req, _| {
            assert!(exec::external(&req.prog));
            assert_eq!(req.argv[0], req.prog);
            seen.push(req.prog.clone());
            ExecOutcome { status: 0, stdout: Vec::new(), stderr: Vec::new() }
        },
        &mut disk,
    );
    assert_eq!(seen, vec!["wc", "ls", "env"]);
    assert_eq!(res.stdout, "127\n");
    assert_eq!(
        res.stderr,
        "bash: gcc: command not found\nbash: /usr/bin/gcc: command not found\nbash: bash: command not found\n"
    );
}

#[test]
fn a_subshell_hands_on_the_status_of_its_body() {
    let h = Harness::new();
    assert_eq!(h.run("(exit 3); echo $?").out(), "3");
    assert_eq!(h.run("(true; false) || echo no").out(), "no");
    assert_eq!(h.run("(false; true) && echo yes").out(), "yes");
}

// ---- the tool ----

struct Tool {
    disk: Disk,
}

fn process_env() -> Env {
    carson::host::tools::process_env(&Env::new())
}

impl Tool {
    fn new() -> Self {
        let mut disk = Disk::default();
        disk.make_dirs("/bin");
        disk.make_dirs("/tmp");
        disk.make_dirs("/home/carson");
        for cmd in exec::external_commands() {
            disk.write(&format!("/bin/{cmd}"), b"", false);
        }
        Tool { disk }
    }

    fn run_args(&mut self, args: &str) -> Result<json::Json, String> {
        let call = bash::parse_call(args, process_env()).map_err(|_| "bad call".to_string())?;
        let res = match call.start() {
            Ok(start) => drive(start, &mut |req, disk| Utils { root: "", disk }.run(req), &mut self.disk),
            Err(res) => res,
        };
        json::read(&bash::report_text(&res))
    }

    fn run(&mut self, script: &str) -> (String, String, i64) {
        let args = json::write(&json::obj1("command", json::string(script)));
        let v = self.run_args(&args).expect("bash json result");
        let field = |k: &str| v.get(k).and_then(|x| x.as_str()).unwrap_or_default().to_string();
        let code = v.get("exit_code").and_then(|x| x.as_u64()).map(|n| n as i64).unwrap_or(-1);
        (field("stdout"), field("stderr"), code)
    }
}

#[test]
fn echo_through_wasm() {
    let mut runner = Tool::new();
    let (out, err, code) = runner.run("echo hello world");
    assert_eq!(code, 0, "stderr: {err}");
    assert_eq!(out, "hello world\n");
    assert_eq!(err, "");
}

#[test]
fn builtins_work() {
    let mut runner = Tool::new();
    let (out, _, code) = runner.run("x=5; echo $x; exit 0");
    assert_eq!(code, 0);
    assert_eq!(out, "5\n");

    let (out, _, _) = runner.run("echo hi && echo there");
    assert_eq!(out, "hi\nthere\n");

    let (out, _, _) = runner.run("for i in a b; do echo $i; done");
    assert_eq!(out, "a\nb\n");
}

#[test]
fn coreutils_via_exec() {
    let mut runner = Tool::new();
    let (out, err, code) = runner.run("echo hi | cat");
    assert_eq!(code, 0, "echo|cat failed: out={out:?} err={err:?}");
    assert_eq!(out, "hi\n");

    let (out, err, code) = runner.run("touch u1.txt && ls u1.txt");
    assert_eq!(code, 0, "touch&ls failed: out={out:?} err={err:?}");
    assert_eq!(out, "u1.txt\n");

    let (out, err, code) = runner.run("mkdir -p a/b && echo made");
    assert_eq!(code, 0, "mkdir failed: out={out:?} err={err:?}");
    assert_eq!(out, "made\n");
}

#[test]
fn date_command_runs() {
    let mut runner = Tool::new();
    let (out, err, code) = runner.run("date");
    assert_eq!(code, 0, "stderr: {err}");
    assert!(!out.is_empty(), "date printed something: {out}");
}

#[test]
fn files_persist_across_calls() {
    let mut runner = Tool::new();
    assert_eq!(runner.run("echo data > notes.txt").0, "");
    let (out, _, code) = runner.run("cat notes.txt");
    assert_eq!(code, 0);
    assert_eq!(out, "data\n");
}

#[test]
fn command_not_found_is_127() {
    let mut runner = Tool::new();
    let (out, err, code) = runner.run("nosuchbinary123");
    assert_eq!(out, "");
    assert!(err.contains("command not found"), "stderr: {err}");
    assert_eq!(code, 127);
}

#[test]
fn env_and_cwd() {
    let mut runner = Tool::new();
    let v = runner
        .run_args(r#"{"command": "echo $GREETING; pwd", "env": {"GREETING": "hi"}, "cwd": "/"}"#)
        .unwrap();
    assert_eq!(v.get("stdout").unwrap().as_str().unwrap(), "hi\n/\n");
}

#[test]
fn sandbox_sharing_and_isolation() {
    let mut root_a = Tool::new();
    let mut root_b = Tool::new();

    // A shared sandbox: a file written in one call is visible in the next.
    assert_eq!(root_a.run("echo data > f.txt").0, "");
    let (out, _, code) = root_a.run("cat f.txt");
    assert_eq!(code, 0);
    assert_eq!(out, "data\n");

    // A different sandbox is isolated: the file is not there.
    let (_, err, code) = root_b.run("cat f.txt");
    assert_eq!(code, 1, "stderr: {err}");
    assert!(err.contains("f.txt"), "stderr: {err}");
}

#[test]
fn vfs_layout_bin_tmp_home() {
    let mut runner = Tool::new();
    let (out, err, code) = runner.run("ls /bin");
    assert_eq!(code, 0, "stderr: {err}");
    for cmd in ["ls", "cat", "sort", "wc", "date"] {
        assert!(out.lines().any(|l| l == cmd), "expected {cmd} in /bin, got:\n{out}");
    }

    let (out, err, code) = runner.run("test -d /tmp && test -d /home/carson && echo ok");
    assert_eq!(code, 0, "stderr: {err}");
    assert_eq!(out, "ok\n");

    // /tmp is an ordinary directory and persists across calls.
    assert_eq!(runner.run("echo x > /tmp/t.txt").0, "");
    let (out, _, code) = runner.run("cat /tmp/t.txt");
    assert_eq!(code, 0);
    assert_eq!(out, "x\n");
}

#[test]
fn bin_commands_runnable_by_path() {
    let mut runner = Tool::new();
    let (out, err, code) = runner.run("/bin/ls /bin | head -2");
    assert_eq!(code, 0, "stderr: {err}");
    assert!(!out.is_empty(), "expected listing, got {out:?}");

    let (out, err, code) = runner.run("echo hi | /bin/cat");
    assert_eq!(code, 0, "stderr: {err}");
    assert_eq!(out, "hi\n");
}

#[test]
fn env_defaults_and_home_cwd() {
    let mut runner = Tool::new();
    let (out, err, code) = runner.run("echo $HOME $USER $LOGNAME $PATH");
    assert_eq!(code, 0, "stderr: {err}");
    assert_eq!(out, "/home/carson carson carson /bin\n");

    // Default cwd is the carson home.
    let (out, err, code) = runner.run("pwd");
    assert_eq!(code, 0, "stderr: {err}");
    assert_eq!(out, "/home/carson\n");
}

#[test]
fn every_coreutils_command_runs_without_trapping() {
    let mut runner = Tool::new();
    for cmd in exec::external_commands() {
        let script = format!("{cmd} --version");
        let (out, err, code) = runner.run(&script);
        assert!(code != 126, "{cmd} trapped: out={out:?} err={err:?}");
    }
}

#[test]
fn a_call_without_a_command_fails() {
    assert!(bash::parse_call("{}", Env::new()).is_err());
    assert!(bash::parse_call("no json", Env::new()).is_err());
}

#[test]
fn a_script_that_does_not_parse_is_reported() {
    let mut runner = Tool::new();
    let (out, err, code) = runner.run("if true");
    assert_eq!(out, "");
    assert!(err.starts_with("bash: syntax error: "), "{err}");
    assert_eq!(code, 2);
}

#[test]
fn a_command_that_cannot_run_is_reported() {
    let out = bash::exec_failed("wc", "no memory");
    assert_eq!(out.status, 126);
    assert_eq!(out.stderr, b"bash: wc: execution failed: no memory\n".to_vec());
}
