//! Syntax tree of the shell.
//!
//! Only the subset of bash the tool needs is modelled here; anything outside
//! it is rejected at parse time with a clear message. Each type has a view made
//! of mathematical sequences, over which the contracts of the parser and of the
//! interpreter are written.
use crate::text;
use vstd::prelude::*;

verus! {

broadcast use crate::text::views_push;

/// One word as written in the script, made of literal and expandable parts.
pub struct Word {
    pub parts: Vec<WordPart>,
}

pub enum WordPart {
    /// Plain literal text (unquoted or single-quoted).
    Lit(String),
    /// Literal text inside double quotes: no word splitting / globbing.
    Quoted(String),
    /// `$NAME` (or `$?`) outside quotes: value is word-split.
    Var(String),
    /// `$NAME` inside double quotes: value is not split.
    VarQuoted(String),
    /// `$(...)`: raw inner source, parsed again when it is expanded.
    SubRaw(String),
    /// `$(...)` inside double quotes: no word splitting on the result.
    SubQuotedRaw(String),
}

#[verifier::ext_equal]
pub enum PartV {
    Lit(Seq<char>),
    Quoted(Seq<char>),
    Var(Seq<char>),
    VarQuoted(Seq<char>),
    SubRaw(Seq<char>),
    SubQuotedRaw(Seq<char>),
}

pub type WordV = Seq<PartV>;

impl View for WordPart {
    type V = PartV;

    open spec fn view(&self) -> PartV {
        match self {
            WordPart::Lit(s) => PartV::Lit(s@),
            WordPart::Quoted(s) => PartV::Quoted(s@),
            WordPart::Var(s) => PartV::Var(s@),
            WordPart::VarQuoted(s) => PartV::VarQuoted(s@),
            WordPart::SubRaw(s) => PartV::SubRaw(s@),
            WordPart::SubQuotedRaw(s) => PartV::SubQuotedRaw(s@),
        }
    }
}

impl WordPart {
    pub fn copy(&self) -> (r: WordPart)
        ensures
            r@ == self@,
    {
        match self {
            WordPart::Lit(s) => WordPart::Lit(s.clone()),
            WordPart::Quoted(s) => WordPart::Quoted(s.clone()),
            WordPart::Var(s) => WordPart::Var(s.clone()),
            WordPart::VarQuoted(s) => WordPart::VarQuoted(s.clone()),
            WordPart::SubRaw(s) => WordPart::SubRaw(s.clone()),
            WordPart::SubQuotedRaw(s) => WordPart::SubQuotedRaw(s.clone()),
        }
    }
}

pub open spec fn parts_view(v: Seq<WordPart>) -> WordV {
    v.map_values(|p: WordPart| p@)
}

impl View for Word {
    type V = WordV;

    open spec fn view(&self) -> WordV {
        parts_view(self.parts@)
    }
}

/// The reserved words of the grammar.
pub open spec fn is_keyword(w: Seq<char>) -> bool {
    w == "if"@ || w == "then"@ || w == "elif"@ || w == "else"@ || w == "fi"@ || w == "for"@ || w
        == "in"@ || w == "do"@ || w == "done"@ || w == "while"@ || w == "until"@ || w == "{"@ || w
        == "}"@
}

/// Words that open a form of bash which is not supported.
pub open spec fn is_unsupported(w: Seq<char>) -> bool {
    w == "case"@ || w == "function"@
}

/// Words that mean something of their own where they are not quoted.
pub open spec fn is_reserved(w: Seq<char>) -> bool {
    is_keyword(w) || is_unsupported(w) || w == "!"@
}

pub fn keyword(w: &str) -> (r: bool)
    ensures
        r == is_keyword(w@),
{
    text::same(w, "if") || text::same(w, "then") || text::same(w, "elif") || text::same(w, "else")
        || text::same(w, "fi") || text::same(w, "for") || text::same(w, "in") || text::same(w, "do")
        || text::same(w, "done") || text::same(w, "while") || text::same(w, "until") || text::same(
        w,
        "{",
    ) || text::same(w, "}")
}

pub fn unsupported(w: &str) -> (r: bool)
    ensures
        r == is_unsupported(w@),
{
    text::same(w, "case") || text::same(w, "function")
}

pub fn reserved(w: &str) -> (r: bool)
    ensures
        r == is_reserved(w@),
{
    keyword(w) || unsupported(w) || text::same(w, "!")
}

/// The text of a word that is a single unquoted literal.
pub open spec fn plain_of(w: WordV) -> Option<Seq<char>> {
    if w.len() == 1 && w[0] is Lit {
        Some(w[0]->Lit_0)
    } else {
        None
    }
}

impl Word {
    pub fn lit(s: String) -> (r: Self)
        ensures
            r@ == seq![PartV::Lit(s@)],
    {
        let mut parts: Vec<WordPart> = Vec::new();
        parts.push(WordPart::Lit(s));
        let w = Word { parts };
        assert(w@ =~= seq![PartV::Lit(s@)]);
        w
    }

    /// The text where the word is a single unquoted literal (assignments and
    /// reserved-word detection only apply to those).
    pub fn plain(&self) -> (r: Option<&str>)
        ensures
            match r {
                Some(t) => plain_of(self@) == Some(t@),
                None => plain_of(self@) is None,
            },
    {
        if self.parts.len() == 1 {
            assert(self@[0] == self.parts@[0]@);
            match &self.parts[0] {
                WordPart::Lit(s) => Some(s.as_str()),
                _ => None,
            }
        } else {
            None
        }
    }

    pub fn copy(&self) -> (r: Word)
        ensures
            r@ == self@,
    {
        let mut parts: Vec<WordPart> = Vec::new();
        let mut i: usize = 0;
        while i < self.parts.len()
            invariant
                i <= self.parts@.len(),
                parts_view(parts@) == self@.take(i as int),
            decreases self.parts@.len() - i,
        {
            let p = self.parts[i].copy();
            assert(p@ == self@[i as int]);
            parts.push(p);
            i = i + 1;
            assert(parts_view(parts@) =~= self@.take(i as int));
        }
        assert(self@.take(i as int) =~= self@);
        Word { parts }
    }
}

/// A redirect attached to a simple command. The fd defaults to 1 for output
/// and 0 for input when omitted.
pub struct Redirect {
    pub fd: u32,
    pub op: RedirectOp,
    pub target: Word,
}

pub enum RedirectOp {
    /// `fd<word`
    In,
    /// `fd>word`
    Out,
    /// `fd>>word`
    Append,
    /// `fd>&N`: duplicate to another fd.
    Dup(u32),
    /// `<<<word`: the expanded word and a newline become stdin.
    HereString,
    /// `<<DELIM`: the body becomes stdin, expanded unless the delimiter was quoted.
    Heredoc { body: String, expand: bool },
}

#[verifier::ext_equal]
pub enum OpV {
    In,
    Out,
    Append,
    Dup(u32),
    HereString,
    Heredoc { body: Seq<char>, expand: bool },
}

impl View for RedirectOp {
    type V = OpV;

    open spec fn view(&self) -> OpV {
        match self {
            RedirectOp::In => OpV::In,
            RedirectOp::Out => OpV::Out,
            RedirectOp::Append => OpV::Append,
            RedirectOp::Dup(n) => OpV::Dup(*n),
            RedirectOp::HereString => OpV::HereString,
            RedirectOp::Heredoc { body, expand } => OpV::Heredoc { body: body@, expand: *expand },
        }
    }
}

impl RedirectOp {
    pub fn copy(&self) -> (r: RedirectOp)
        ensures
            r@ == self@,
    {
        match self {
            RedirectOp::In => RedirectOp::In,
            RedirectOp::Out => RedirectOp::Out,
            RedirectOp::Append => RedirectOp::Append,
            RedirectOp::Dup(n) => RedirectOp::Dup(*n),
            RedirectOp::HereString => RedirectOp::HereString,
            RedirectOp::Heredoc { body, expand } => RedirectOp::Heredoc {
                body: body.clone(),
                expand: *expand,
            },
        }
    }
}

#[verifier::ext_equal]
pub struct RedirectV {
    pub fd: u32,
    pub op: OpV,
    pub target: WordV,
}

impl View for Redirect {
    type V = RedirectV;

    open spec fn view(&self) -> RedirectV {
        RedirectV { fd: self.fd, op: self.op@, target: self.target@ }
    }
}

impl Redirect {
    pub fn copy(&self) -> (r: Redirect)
        ensures
            r@ == self@,
    {
        Redirect { fd: self.fd, op: self.op.copy(), target: self.target.copy() }
    }
}

pub struct SimpleCommand {
    pub assignments: Vec<(String, Word)>,
    pub words: Vec<Word>,
    pub redirects: Vec<Redirect>,
}

#[verifier::ext_equal]
pub struct SimpleV {
    pub assignments: Seq<(Seq<char>, WordV)>,
    pub words: Seq<WordV>,
    pub redirects: Seq<RedirectV>,
}

pub open spec fn assignments_view(v: Seq<(String, Word)>) -> Seq<(Seq<char>, WordV)> {
    v.map_values(|a: (String, Word)| (a.0@, a.1@))
}

pub open spec fn words_view(v: Seq<Word>) -> Seq<WordV> {
    v.map_values(|w: Word| w@)
}

pub open spec fn redirects_view(v: Seq<Redirect>) -> Seq<RedirectV> {
    v.map_values(|r: Redirect| r@)
}

impl View for SimpleCommand {
    type V = SimpleV;

    open spec fn view(&self) -> SimpleV {
        SimpleV {
            assignments: assignments_view(self.assignments@),
            words: words_view(self.words@),
            redirects: redirects_view(self.redirects@),
        }
    }
}

pub fn copy_words(words: &Vec<Word>) -> (r: Vec<Word>)
    ensures
        words_view(r@) == words_view(words@),
{
    let mut out: Vec<Word> = Vec::new();
    let mut i: usize = 0;
    while i < words.len()
        invariant
            i <= words@.len(),
            words_view(out@) == words_view(words@).take(i as int),
        decreases words@.len() - i,
    {
        let w = words[i].copy();
        assert(w@ == words_view(words@)[i as int]);
        out.push(w);
        i = i + 1;
        assert(words_view(out@) =~= words_view(words@).take(i as int));
    }
    assert(words_view(words@).take(i as int) =~= words_view(words@));
    out
}

impl SimpleCommand {
    pub fn copy(&self) -> (r: SimpleCommand)
        ensures
            r@ == self@,
    {
        let words = copy_words(&self.words);
        let mut assignments: Vec<(String, Word)> = Vec::new();
        let mut i: usize = 0;
        while i < self.assignments.len()
            invariant
                i <= self.assignments@.len(),
                assignments_view(assignments@) == self@.assignments.take(i as int),
            decreases self.assignments@.len() - i,
        {
            let a = (self.assignments[i].0.clone(), self.assignments[i].1.copy());
            assert((a.0@, a.1@) == self@.assignments[i as int]);
            assignments.push(a);
            i = i + 1;
            assert(assignments_view(assignments@) =~= self@.assignments.take(i as int));
        }
        assert(self@.assignments.take(i as int) =~= self@.assignments);
        let mut redirects: Vec<Redirect> = Vec::new();
        let mut j: usize = 0;
        while j < self.redirects.len()
            invariant
                j <= self.redirects@.len(),
                redirects_view(redirects@) == self@.redirects.take(j as int),
            decreases self.redirects@.len() - j,
        {
            let d = self.redirects[j].copy();
            assert(d@ == self@.redirects[j as int]);
            redirects.push(d);
            j = j + 1;
            assert(redirects_view(redirects@) =~= self@.redirects.take(j as int));
        }
        assert(self@.redirects.take(j as int) =~= self@.redirects);
        SimpleCommand { assignments, words, redirects }
    }
}

/// A command. Compound bodies are lists; a list is a sequence of commands run
/// in order, separated by `;`, newlines or `&`.
pub enum Command {
    Simple(SimpleCommand),
    AndOr { lhs: Box<Command>, and: bool, rhs: Box<Command> },
    Pipeline { negated: bool, stages: Vec<SimpleCommand> },
    If { cond: Vec<Command>, body: Vec<Command>, elifs: Vec<Elif>, els: Option<Vec<Command>> },
    For { var: String, words: Vec<Word>, body: Vec<Command> },
    While { cond: Vec<Command>, body: Vec<Command>, until: bool },
    /// `( ... )`: run in a subshell (state snapshot).
    Subshell(Vec<Command>),
    /// `{ ...; }`: run in the current shell.
    Brace(Vec<Command>),
}

/// One `elif` branch: its condition and its body.
pub struct Elif {
    pub cond: Vec<Command>,
    pub body: Vec<Command>,
}

pub type List = Vec<Command>;

pub enum CmdV {
    Simple(SimpleV),
    AndOr { lhs: Box<CmdV>, and: bool, rhs: Box<CmdV> },
    Pipeline { negated: bool, stages: Seq<SimpleV> },
    If { cond: Seq<CmdV>, body: Seq<CmdV>, elifs: Seq<ElifV>, els: Option<Seq<CmdV>> },
    For { var: Seq<char>, words: Seq<WordV>, body: Seq<CmdV> },
    While { cond: Seq<CmdV>, body: Seq<CmdV>, until: bool },
    Subshell(Seq<CmdV>),
    Brace(Seq<CmdV>),
}

pub struct ElifV {
    pub cond: Seq<CmdV>,
    pub body: Seq<CmdV>,
}

pub open spec fn stages_view(v: Seq<SimpleCommand>) -> Seq<SimpleV> {
    v.map_values(|s: SimpleCommand| s@)
}

pub open spec fn cmd_view(c: Command) -> CmdV
    decreases c,
{
    match c {
        Command::Simple(s) => CmdV::Simple(s@),
        Command::AndOr { lhs, and, rhs } => CmdV::AndOr {
            lhs: Box::new(cmd_view(*lhs)),
            and,
            rhs: Box::new(cmd_view(*rhs)),
        },
        Command::Pipeline { negated, stages } => CmdV::Pipeline {
            negated,
            stages: stages_view(stages@),
        },
        Command::If { cond, body, elifs, els } => CmdV::If {
            cond: list_view(cond@),
            body: list_view(body@),
            elifs: elifs_view(elifs@),
            els: match els {
                Some(e) => Some(list_view(e@)),
                None => None,
            },
        },
        Command::For { var, words, body } => CmdV::For {
            var: var@,
            words: words_view(words@),
            body: list_view(body@),
        },
        Command::While { cond, body, until } => CmdV::While {
            cond: list_view(cond@),
            body: list_view(body@),
            until,
        },
        Command::Subshell(body) => CmdV::Subshell(list_view(body@)),
        Command::Brace(body) => CmdV::Brace(list_view(body@)),
    }
}

pub open spec fn list_view(l: Seq<Command>) -> Seq<CmdV>
    decreases l,
{
    if l.len() == 0 {
        seq![]
    } else {
        list_view(l.drop_last()).push(cmd_view(l.last()))
    }
}

pub open spec fn elifs_view(l: Seq<Elif>) -> Seq<ElifV>
    decreases l,
{
    if l.len() == 0 {
        seq![]
    } else {
        elifs_view(l.drop_last()).push(
            ElifV { cond: list_view(l.last().cond@), body: list_view(l.last().body@) },
        )
    }
}

/// The view of a list is the views of its commands.
pub proof fn lemma_list_view(l: Seq<Command>)
    ensures
        list_view(l).len() == l.len(),
        forall|i: int| 0 <= i < l.len() ==> #[trigger] list_view(l)[i] == cmd_view(l[i]),
    decreases l.len(),
{
    if l.len() > 0 {
        lemma_list_view(l.drop_last());
    }
}

pub proof fn lemma_elifs_view(l: Seq<Elif>)
    ensures
        elifs_view(l).len() == l.len(),
        forall|i: int|
            0 <= i < l.len() ==> #[trigger] elifs_view(l)[i] == (ElifV {
                cond: list_view(l[i].cond@),
                body: list_view(l[i].body@),
            }),
    decreases l.len(),
{
    if l.len() > 0 {
        lemma_elifs_view(l.drop_last());
    }
}

pub fn copy_list(l: &Vec<Command>) -> (r: Vec<Command>)
    ensures
        list_view(r@) == list_view(l@),
    decreases l,
{
    let mut out: Vec<Command> = Vec::new();
    let mut i: usize = 0;
    while i < l.len()
        invariant
            i <= l@.len(),
            list_view(out@) == list_view(l@.take(i as int)),
        decreases l@.len() - i,
    {
        let c = copy_command(&l[i]);
        proof {
            assert(out@.push(c).drop_last() =~= out@);
            assert(l@.take(i as int + 1).drop_last() =~= l@.take(i as int));
        }
        out.push(c);
        i = i + 1;
    }
    assert(l@.take(i as int) =~= l@);
    out
}

fn copy_elifs(l: &Vec<Elif>) -> (r: Vec<Elif>)
    ensures
        elifs_view(r@) == elifs_view(l@),
    decreases l,
{
    let mut out: Vec<Elif> = Vec::new();
    let mut i: usize = 0;
    while i < l.len()
        invariant
            i <= l@.len(),
            elifs_view(out@) == elifs_view(l@.take(i as int)),
        decreases l@.len() - i,
    {
        let e = Elif { cond: copy_list(&l[i].cond), body: copy_list(&l[i].body) };
        proof {
            assert(out@.push(e).drop_last() =~= out@);
            assert(l@.take(i as int + 1).drop_last() =~= l@.take(i as int));
        }
        out.push(e);
        i = i + 1;
    }
    assert(l@.take(i as int) =~= l@);
    out
}

fn copy_stages(l: &Vec<SimpleCommand>) -> (r: Vec<SimpleCommand>)
    ensures
        stages_view(r@) == stages_view(l@),
{
    let mut out: Vec<SimpleCommand> = Vec::new();
    let mut i: usize = 0;
    while i < l.len()
        invariant
            i <= l@.len(),
            stages_view(out@) == stages_view(l@).take(i as int),
        decreases l@.len() - i,
    {
        let s = l[i].copy();
        assert(s@ == stages_view(l@)[i as int]);
        out.push(s);
        i = i + 1;
        assert(stages_view(out@) =~= stages_view(l@).take(i as int));
    }
    assert(stages_view(l@).take(i as int) =~= stages_view(l@));
    out
}

pub fn copy_command(c: &Command) -> (r: Command)
    ensures
        cmd_view(r) == cmd_view(*c),
    decreases c,
{
    match c {
        Command::Simple(s) => Command::Simple(s.copy()),
        Command::AndOr { lhs, and, rhs } => Command::AndOr {
            lhs: Box::new(copy_command(lhs)),
            and: *and,
            rhs: Box::new(copy_command(rhs)),
        },
        Command::Pipeline { negated, stages } => Command::Pipeline {
            negated: *negated,
            stages: copy_stages(stages),
        },
        Command::If { cond, body, elifs, els } => Command::If {
            cond: copy_list(cond),
            body: copy_list(body),
            elifs: copy_elifs(elifs),
            els: match els {
                Some(e) => Some(copy_list(e)),
                None => None,
            },
        },
        Command::For { var, words, body } => Command::For {
            var: var.clone(),
            words: copy_words(words),
            body: copy_list(body),
        },
        Command::While { cond, body, until } => Command::While {
            cond: copy_list(cond),
            body: copy_list(body),
            until: *until,
        },
        Command::Subshell(body) => Command::Subshell(copy_list(body)),
        Command::Brace(body) => Command::Brace(copy_list(body)),
    }
}

impl View for Command {
    type V = CmdV;

    open spec fn view(&self) -> CmdV {
        cmd_view(*self)
    }
}

} // verus!
