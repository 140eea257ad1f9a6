//! Runtime state and stream plumbing of the shell.
use crate::shell::path;
use crate::shell::vars::{Env, Pairs};
use crate::text;
use vstd::prelude::*;

verus! {

/// Mutable state of one shell run. `cwd` is relative to the sandbox `root`.
pub struct ShellState {
    pub env: Env,
    pub root: String,
    pub cwd: String,
    pub last_status: i32,
    pub exit_requested: Option<i32>,
}

#[verifier::ext_equal]
pub struct StateV {
    pub env: Pairs,
    pub root: Seq<char>,
    pub cwd: Seq<char>,
    pub last_status: i32,
    pub exit_requested: Option<i32>,
}

impl View for ShellState {
    type V = StateV;

    open spec fn view(&self) -> StateV {
        StateV {
            env: self.env@,
            root: self.root@,
            cwd: self.cwd@,
            last_status: self.last_status,
            exit_requested: self.exit_requested,
        }
    }
}

/// The cwd as the shell prints it: absolute under the sandbox root.
pub open spec fn shown_cwd(cwd: Seq<char>) -> Seq<char> {
    "/"@ + cwd
}

impl ShellState {
    pub fn new(env: Env, root: String) -> (r: Self)
        ensures
            r@ == (StateV {
                env: env@,
                root: root@,
                cwd: seq![],
                last_status: 0,
                exit_requested: None,
            }),
    {
        let cwd = String::new();
        assert(cwd@ =~= seq![]);
        ShellState { env, root, cwd, last_status: 0, exit_requested: None }
    }

    /// Resolve a shell path (relative to cwd or absolute) to a filesystem path
    /// under the sandbox root.
    pub fn resolve(&self, p: &str) -> (r: String)
        ensures
            r@ == path::resolved(self.root@, self.cwd@, p@),
    {
        path::resolve(self.root.as_str(), self.cwd.as_str(), p)
    }

    /// Convert a resolved path back to a shell-relative cwd (`""` = root).
    pub fn rel_to_root(&self, path: &str) -> (r: String)
        ensures
            r@ == path::relative(self.root@, path@),
    {
        path::relative_to(self.root.as_str(), path)
    }

    /// The cwd as the shell prints it: absolute under the sandbox root.
    pub fn cwd_display(&self) -> (r: String)
        ensures
            r@ == shown_cwd(self.cwd@),
    {
        text::owned("/").concat(self.cwd.as_str())
    }
}

/// The collected output of a whole tool call.
pub struct Streams {
    pub stdout: Vec<u8>,
    pub stderr: Vec<u8>,
}

/// Where a command reads input from.
pub enum In {
    Empty,
    Buffer(Vec<u8>),
    File(String),
}

#[verifier::ext_equal]
pub enum InV {
    Empty,
    Buffer(Seq<u8>),
    File(Seq<char>),
}

impl View for In {
    type V = InV;

    open spec fn view(&self) -> InV {
        match self {
            In::Empty => InV::Empty,
            In::Buffer(b) => InV::Buffer(b@),
            In::File(p) => InV::File(p@),
        }
    }
}

impl In {
    pub fn copy(&self) -> (r: In)
        ensures
            r@ == self@,
    {
        match self {
            In::Empty => In::Empty,
            In::Buffer(b) => In::Buffer(vstd::slice::slice_to_vec(b.as_slice())),
            In::File(p) => In::File(p.clone()),
        }
    }
}

/// Where a command writes output to. A buffer is named by its place among the
/// open buffers.
pub enum Out {
    Main,
    Error,
    Buffer(usize),
    File { path: String, append: bool },
}

#[verifier::ext_equal]
pub enum OutV {
    Main,
    Error,
    Buffer(int),
    File { path: Seq<char>, append: bool },
}

impl Out {
    /// Whether two sinks are one place.
    pub fn same(&self, other: &Out) -> (r: bool)
        ensures
            r == (self@ == other@),
    {
        match (self, other) {
            (Out::Main, Out::Main) => true,
            (Out::Error, Out::Error) => true,
            (Out::Buffer(a), Out::Buffer(b)) => *a == *b,
            (Out::File { path: p, append: a }, Out::File { path: q, append: b }) => *a == *b
                && text::same(p.as_str(), q.as_str()),
            _ => false,
        }
    }
}

impl View for Out {
    type V = OutV;

    open spec fn view(&self) -> OutV {
        match self {
            Out::Main => OutV::Main,
            Out::Error => OutV::Error,
            Out::Buffer(n) => OutV::Buffer(*n as int),
            Out::File { path, append } => OutV::File { path: path@, append: *append },
        }
    }
}

impl Out {
    pub fn copy(&self) -> (r: Out)
        ensures
            r@ == self@,
    {
        match self {
            Out::Main => Out::Main,
            Out::Error => Out::Error,
            Out::Buffer(n) => Out::Buffer(*n),
            Out::File { path, append } => Out::File { path: path.clone(), append: *append },
        }
    }
}

/// The three standard fds for the command currently running.
pub struct Io {
    pub stdin: In,
    pub stdout: Out,
    pub stderr: Out,
}

#[verifier::ext_equal]
pub struct IoV {
    pub stdin: InV,
    pub stdout: OutV,
    pub stderr: OutV,
}

impl View for Io {
    type V = IoV;

    open spec fn view(&self) -> IoV {
        IoV { stdin: self.stdin@, stdout: self.stdout@, stderr: self.stderr@ }
    }
}

/// The output that an fd stands for.
pub open spec fn fd_of(io: IoV, fd: u32) -> Option<OutV> {
    if fd == 1 {
        Some(io.stdout)
    } else if fd == 2 {
        Some(io.stderr)
    } else {
        None
    }
}

impl Io {
    /// No input, output to the main streams.
    pub fn standard() -> (r: Io)
        ensures
            r@ == (IoV { stdin: InV::Empty, stdout: OutV::Main, stderr: OutV::Error }),
    {
        Io { stdin: In::Empty, stdout: Out::Main, stderr: Out::Error }
    }

    pub fn out_fd(&self, fd: u32) -> (r: Option<&Out>)
        ensures
            match r {
                Some(o) => fd_of(self@, fd) == Some(o@),
                None => fd_of(self@, fd) is None,
            },
    {
        if fd == 1 {
            Some(&self.stdout)
        } else if fd == 2 {
            Some(&self.stderr)
        } else {
            None
        }
    }

    pub fn copy(&self) -> (r: Io)
        ensures
            r@ == self@,
    {
        Io { stdin: self.stdin.copy(), stdout: self.stdout.copy(), stderr: self.stderr.copy() }
    }
}

/// A write to a file that the driver is asked to do.
pub struct FileWrite {
    pub path: String,
    pub append: bool,
    pub data: Vec<u8>,
}

#[verifier::ext_equal]
pub struct FileWriteV {
    pub path: Seq<char>,
    pub append: bool,
    pub data: Seq<u8>,
}

impl View for FileWrite {
    type V = FileWriteV;

    open spec fn view(&self) -> FileWriteV {
        FileWriteV { path: self.path@, append: self.append, data: self.data@ }
    }
}

/// Everything that output goes to: the final streams, the buffers that are open,
/// and the file writes that are still to be done, oldest first.
pub struct Sinks {
    pub streams: Streams,
    pub buffers: Vec<Vec<u8>>,
    pub writes: Vec<FileWrite>,
}

#[verifier::ext_equal]
pub struct SinksV {
    pub stdout: Seq<u8>,
    pub stderr: Seq<u8>,
    pub buffers: Seq<Seq<u8>>,
    pub writes: Seq<FileWriteV>,
}

pub open spec fn buffers_view(v: Seq<Vec<u8>>) -> Seq<Seq<u8>> {
    v.map_values(|b: Vec<u8>| b@)
}

pub open spec fn writes_view(v: Seq<FileWrite>) -> Seq<FileWriteV> {
    v.map_values(|w: FileWrite| w@)
}

impl View for Sinks {
    type V = SinksV;

    open spec fn view(&self) -> SinksV {
        SinksV {
            stdout: self.streams.stdout@,
            stderr: self.streams.stderr@,
            buffers: buffers_view(self.buffers@),
            writes: writes_view(self.writes@),
        }
    }
}

pub open spec fn no_output() -> SinksV {
    SinksV { stdout: seq![], stderr: seq![], buffers: seq![], writes: seq![] }
}

/// `data` appended to the given sink.
pub open spec fn written(s: SinksV, out: OutV, data: Seq<u8>) -> SinksV {
    match out {
        OutV::Main => SinksV { stdout: s.stdout + data, ..s },
        OutV::Error => SinksV { stderr: s.stderr + data, ..s },
        OutV::Buffer(n) => if 0 <= n < s.buffers.len() {
            SinksV { buffers: s.buffers.update(n, s.buffers[n] + data), ..s }
        } else {
            s
        },
        OutV::File { path, append } => SinksV {
            writes: s.writes.push(FileWriteV { path, append, data }),
            ..s
        },
    }
}

/// The text `t` appended to the given sink.
pub open spec fn printed(s: SinksV, out: OutV, t: Seq<char>) -> SinksV {
    written(s, out, vstd::utf8::encode_utf8(t))
}

/// The texts one after the other.
pub open spec fn joined(ts: Seq<Seq<char>>) -> Seq<char>
    decreases ts.len(),
{
    if ts.len() == 0 {
        seq![]
    } else {
        ts[0] + joined(ts.skip(1))
    }
}

/// All the texts appended to the given sink, in one piece.
pub open spec fn printed_all(s: SinksV, out: OutV, ts: Seq<Seq<char>>) -> SinksV {
    printed(s, out, joined(ts))
}

/// Append `data` to the given output sink, routing to the final streams.
pub fn write_out(out: &Out, sinks: &mut Sinks, data: Vec<u8>)
    ensures
        final(sinks)@ == written(old(sinks)@, out@, data@),
{
    let mut data = data;
    let ghost before = sinks@;
    match out {
        Out::Main => {
            sinks.streams.stdout.append(&mut data);
        },
        Out::Error => {
            sinks.streams.stderr.append(&mut data);
        },
        Out::Buffer(n) => {
            if *n < sinks.buffers.len() {
                let mut b = vstd::slice::slice_to_vec(sinks.buffers[*n].as_slice());
                assert(b@ == before.buffers[*n as int]);
                b.append(&mut data);
                sinks.buffers.set(*n, b);
                assert(buffers_view(sinks.buffers@) =~= before.buffers.update(*n as int, b@));
            }
        },
        Out::File { path, append } => {
            sinks.writes.push(FileWrite { path: path.clone(), append: *append, data });
            assert(writes_view(sinks.writes@) =~= before.writes.push(
                FileWriteV { path: path@, append: *append, data: data@ },
            ));
        },
    }
}

impl Sinks {
    pub fn new() -> (r: Sinks)
        ensures
            r@ == no_output(),
    {
        let s = Sinks {
            streams: Streams { stdout: Vec::new(), stderr: Vec::new() },
            buffers: Vec::new(),
            writes: Vec::new(),
        };
        assert(s@ =~= no_output());
        s
    }

    /// Append the text `t` to the given sink.
    pub fn print(&mut self, out: &Out, t: &str)
        ensures
            final(self)@ == printed(old(self)@, out@, t@),
    {
        write_out(out, self, vstd::slice::slice_to_vec(t.as_bytes()));
    }

    /// Open a buffer; its place is the number of buffers before.
    pub fn open(&mut self) -> (n: usize)
        ensures
            n == old(self)@.buffers.len(),
            final(self)@ == (SinksV {
                buffers: old(self)@.buffers.push(seq![]),
                ..old(self)@
            }),
    {
        let n: usize = self.buffers.len();
        let b: Vec<u8> = Vec::new();
        let ghost before = self@;
        assert(b@ =~= seq![]);
        self.buffers.push(b);
        assert(buffers_view(self.buffers@) =~= before.buffers.push(seq![]));
        n
    }

    /// Close buffer `n` and those behind it; what buffer `n` held.
    pub fn close(&mut self, n: usize) -> (r: Vec<u8>)
        ensures
            (r@, final(self)@) == closed(old(self)@, n as int),
    {
        let ghost before = self@;
        if n < self.buffers.len() {
            let b = vstd::slice::slice_to_vec(self.buffers[n].as_slice());
            self.buffers.truncate(n);
            assert(buffers_view(self.buffers@) =~= before.buffers.take(n as int));
            b
        } else {
            let b: Vec<u8> = Vec::new();
            assert(b@ =~= seq![]);
            b
        }
    }
}

/// What buffer `n` holds, and the sinks without it and the buffers behind it.
pub open spec fn closed(s: SinksV, n: int) -> (Seq<u8>, SinksV) {
    if 0 <= n < s.buffers.len() {
        (s.buffers[n], SinksV { buffers: s.buffers.take(n), ..s })
    } else {
        (seq![], s)
    }
}

/// Output goes where it is sent: writing to one sink leaves the others as they were.
pub proof fn sinks_are_separate(s: SinksV, out: OutV, data: Seq<u8>, other: int)
    ensures
        !(out is Main) ==> written(s, out, data).stdout == s.stdout,
        !(out is Error) ==> written(s, out, data).stderr == s.stderr,
        !(out is File) ==> written(s, out, data).writes == s.writes,
        0 <= other < s.buffers.len() && out != OutV::Buffer(other) ==> written(
            s,
            out,
            data,
        ).buffers[other] == s.buffers[other],
{
}

} // verus!
