//! Recursive-descent parser over the token stream of the lexer.
use crate::shell::ast;
use crate::shell::ast::{CmdV, Command, Elif, ElifV, List, OpV, PartV, Redirect, RedirectOp, RedirectV, SimpleCommand, SimpleV, Word, WordPart, WordV};
use crate::shell::heredoc;
use crate::shell::lexer;
use crate::shell::lexer::{RedirectTok, RedirectTokV, Tok, TokV};
use crate::text;
use vstd::prelude::*;

verus! {

broadcast use crate::text::views_push;

#[derive(Debug)]
pub struct ParseError {
    pub msg: String,
}

// ---- the grammar ----

/// The reserved words that end a list, by the construct that the list stands in.
#[derive(Clone, Copy)]
pub enum Stop {
    /// A script or a subshell: none.
    Top,
    /// A condition of `if` or `elif`: `then`.
    Cond,
    /// A branch of `if` or `elif`: `elif`, `else`, `fi`.
    Branch,
    /// The `else` branch: `fi`.
    Else,
    /// A loop condition: `do`.
    Loop,
    /// A loop body: `done`.
    Body,
    /// A brace group: `}`.
    Brace,
}

pub open spec fn stops_at(stop: Stop, word: Seq<char>) -> bool {
    match stop {
        Stop::Top => false,
        Stop::Cond => word == "then"@,
        Stop::Branch => word == "elif"@ || word == "else"@ || word == "fi"@,
        Stop::Else => word == "fi"@,
        Stop::Loop => word == "do"@,
        Stop::Body => word == "done"@,
        Stop::Brace => word == "}"@,
    }
}

/// The token at `p`; behind the stream there is only `Eof`.
pub open spec fn at(t: Seq<TokV>, p: int) -> TokV {
    if 0 <= p < t.len() {
        t[p]
    } else {
        TokV::Eof
    }
}

/// Whether a token is the plain word `s`.
pub open spec fn is_plain(tok: TokV, s: Seq<char>) -> bool {
    tok is Word && ast::plain_of(tok->Word_0) == Some(s)
}

/// Whether a token is a plain word that opens a form which is not supported.
pub open spec fn is_unsupported(tok: TokV) -> bool {
    tok is Word && (ast::plain_of(tok->Word_0) matches Some(w) && ast::is_unsupported(w))
}

/// A command boundary: the next token ends the enclosing construct.
pub open spec fn at_end(tok: TokV, stop: Stop, stop_rparen: bool) -> bool {
    match tok {
        TokV::Eof => true,
        TokV::RParen => stop_rparen,
        TokV::Word(w) => match ast::plain_of(w) {
            Some(s) => stops_at(stop, s),
            None => false,
        },
        _ => false,
    }
}

pub open spec fn separates(tok: TokV) -> bool {
    tok is Semi || tok is Newline || tok is Amp
}

pub open spec fn separators_end(t: Seq<TokV>, p: int) -> int
    decreases t.len() - p,
{
    if 0 <= p < t.len() && separates(t[p]) {
        separators_end(t, p + 1)
    } else {
        p
    }
}

pub type Parsed<X> = Result<(X, int), Seq<char>>;

pub open spec fn expected_command<X>() -> Parsed<X> {
    Err("expected a command"@)
}

/// `r`, which has read at least one token from `p` on: every production does.
pub open spec fn forward<X>(r: Parsed<X>, p: int, len: nat) -> Parsed<X> {
    match r {
        Ok((x, q)) => if p < q <= len && 0 <= p < len {
            Ok((x, q))
        } else {
            expected_command()
        },
        Err(e) => Err(e),
    }
}

pub open spec fn left(t: Seq<TokV>, p: int) -> nat {
    if 0 <= p <= t.len() {
        (t.len() - p) as nat
    } else {
        0
    }
}

/// `list: { andor separator } [andor]`
pub open spec fn g_list(t: Seq<TokV>, from: int, stop: Stop, rp: bool, acc: Seq<CmdV>) -> Parsed<
    Seq<CmdV>,
>
    decreases left(t, from), 5int,
{
    proof {
        lemma_separators(t, from);
    }
    let p = separators_end(t, from);
    if at_end(at(t, p), stop, rp) {
        Ok((acc, p))
    } else {
        match forward(g_andor(t, p, rp), p, t.len()) {
            Err(e) => Err(e),
            Ok((c, q)) => if separates(at(t, q)) {
                g_list(t, q + 1, stop, rp, acc.push(c))
            } else {
                Ok((acc.push(c), q))
            },
        }
    }
}

/// `andor: pipeline { (&& | ||) pipeline }`, left associative
pub open spec fn g_andor(t: Seq<TokV>, p: int, rp: bool) -> Parsed<CmdV>
    decreases left(t, p), 4int,
{
    match forward(g_pipeline(t, p, rp), p, t.len()) {
        Err(e) => Err(e),
        Ok((c, q)) => g_andor_rest(t, q, rp, c),
    }
}

pub open spec fn g_andor_rest(t: Seq<TokV>, p: int, rp: bool, lhs: CmdV) -> Parsed<CmdV>
    decreases left(t, p), 4int,
{
    let tok = at(t, p);
    if tok is And || tok is Or {
        match forward(g_pipeline(t, p + 1, rp), p + 1, t.len()) {
            Err(e) => Err(e),
            Ok((c, q)) => g_andor_rest(
                t,
                q,
                rp,
                CmdV::AndOr { lhs: Box::new(lhs), and: tok is And, rhs: Box::new(c) },
            ),
        }
    } else {
        Ok((lhs, p))
    }
}

pub open spec fn describes(c: CmdV) -> Seq<char> {
    match c {
        CmdV::Simple(_) => "simple command"@,
        CmdV::AndOr { .. } => "&&/|| chain"@,
        CmdV::Pipeline { .. } => "pipeline"@,
        CmdV::If { .. } => "if"@,
        CmdV::For { .. } => "for"@,
        CmdV::While { .. } => "while"@,
        CmdV::Subshell(_) => "( )"@,
        CmdV::Brace(_) => "{ }"@,
    }
}

/// `pipeline: [!] command { | command }`; only simple commands can be piped or
/// negated
pub open spec fn g_pipeline(t: Seq<TokV>, p: int, rp: bool) -> Parsed<CmdV>
    decreases left(t, p), 3int,
{
    let negated = is_plain(at(t, p), "!"@);
    let start = if negated {
        p + 1
    } else {
        p
    };
    match forward(g_command(t, start, rp), start, t.len()) {
        Err(e) => Err(e),
        Ok((first, q)) => if !(at(t, q) is Pipe) {
            if !negated {
                Ok((first, q))
            } else if first is Simple {
                Ok((CmdV::Pipeline { negated, stages: seq![first->Simple_0] }, q))
            } else {
                Err("cannot negate "@ + describes(first))
            }
        } else if first is Simple {
            g_stages(t, q, rp, negated, seq![first->Simple_0])
        } else {
            Err("unsupported command in pipeline: "@ + describes(first))
        },
    }
}

pub open spec fn g_stages(t: Seq<TokV>, p: int, rp: bool, negated: bool, stages: Seq<SimpleV>) -> Parsed<
    CmdV,
>
    decreases left(t, p), 3int,
{
    if at(t, p) is Pipe {
        match forward(g_command(t, p + 1, rp), p + 1, t.len()) {
            Err(e) => Err(e),
            Ok((c, q)) => if c is Simple {
                g_stages(t, q, rp, negated, stages.push(c->Simple_0))
            } else {
                Err("unsupported command in pipeline: "@ + describes(c))
            },
        }
    } else {
        Ok((CmdV::Pipeline { negated, stages }, p))
    }
}

pub open spec fn g_command(t: Seq<TokV>, p: int, rp: bool) -> Parsed<CmdV>
    decreases left(t, p), 2int,
{
    let tok = at(t, p);
    if is_plain(tok, "if"@) {
        g_if(t, p, rp)
    } else if is_plain(tok, "for"@) {
        g_for(t, p, rp)
    } else if is_plain(tok, "while"@) {
        g_while(t, p, rp, false)
    } else if is_plain(tok, "until"@) {
        g_while(t, p, rp, true)
    } else if is_plain(tok, "{"@) {
        g_brace(t, p, rp)
    } else if is_unsupported(tok) {
        Err(ast::plain_of(tok->Word_0)->0 + " is not supported"@)
    } else if tok is Word || tok is Pattern {
        g_simple(t, p, SimpleV { assignments: seq![], words: seq![], redirects: seq![] })
    } else if tok is LParen {
        match g_list(t, p + 1, Stop::Top, true, seq![]) {
            Err(e) => Err(e),
            Ok((body, q)) => if at(t, q) is RParen {
                Ok((CmdV::Subshell(body), q + 1))
            } else {
                Err("expected ')'"@)
            },
        }
    } else {
        expected_command()
    }
}

/// A list from `p + 1` on, then the reserved word `word`; the position behind it.
pub open spec fn g_block(t: Seq<TokV>, p: int, stop: Stop, rp: bool, word: Seq<char>, msg: Seq<char>) -> Parsed<
    Seq<CmdV>,
>
    decreases left(t, p), 0int,
{
    if !(0 <= p < t.len()) {
        expected_command()
    } else {
        match forward(g_list(t, p + 1, stop, rp, seq![]), p, t.len()) {
            Err(e) => Err(e),
            Ok((l, q)) => if is_plain(at(t, q), word) {
                Ok((l, q + 1))
            } else {
                Err(msg)
            },
        }
    }
}

/// `if: if list then list { elif list then list | else list } fi`
pub open spec fn g_if(t: Seq<TokV>, p: int, rp: bool) -> Parsed<CmdV>
    decreases left(t, p), 1int,
{
    match forward(g_block(t, p, Stop::Cond, rp, "then"@, "expected 'then'"@), p, t.len()) {
        Err(e) => Err(e),
        Ok((cond, q)) => match forward(
            g_list(t, q, Stop::Branch, rp, seq![]),
            q - 1,
            t.len(),
        ) {
            Err(e) => Err(e),
            Ok((body, q2)) => g_if_rest(t, q2, rp, cond, body, seq![], None),
        },
    }
}

pub open spec fn g_if_rest(
    t: Seq<TokV>,
    p: int,
    rp: bool,
    cond: Seq<CmdV>,
    body: Seq<CmdV>,
    elifs: Seq<ElifV>,
    els: Option<Seq<CmdV>>,
) -> Parsed<CmdV>
    decreases left(t, p), 1int,
{
    if is_plain(at(t, p), "elif"@) {
        match forward(g_block(t, p, Stop::Cond, rp, "then"@, "expected 'then'"@), p, t.len()) {
            Err(e) => Err(e),
            Ok((c, q)) => match forward(
                g_list(t, q, Stop::Branch, rp, seq![]),
                q - 1,
                t.len(),
            ) {
                Err(e) => Err(e),
                Ok((b, q2)) => g_if_rest(
                    t,
                    q2,
                    rp,
                    cond,
                    body,
                    elifs.push(ElifV { cond: c, body: b }),
                    els,
                ),
            },
        }
    } else if is_plain(at(t, p), "else"@) {
        match forward(g_list(t, p + 1, Stop::Else, rp, seq![]), p, t.len()) {
            Err(e) => Err(e),
            Ok((l, q)) => g_if_rest(t, q, rp, cond, body, elifs, Some(l)),
        }
    } else if is_plain(at(t, p), "fi"@) {
        Ok((CmdV::If { cond, body, elifs, els }, p + 1))
    } else {
        Err("expected 'fi'"@)
    }
}

pub open spec fn g_for_words(t: Seq<TokV>, p: int, acc: Seq<WordV>) -> Parsed<Seq<WordV>>
    decreases t.len() - p,
{
    match at(t, p) {
        TokV::Word(w) => g_for_words(t, p + 1, acc.push(w)),
        TokV::Pattern { word, why } => Err(why),
        TokV::Semi => Ok((acc, p)),
        TokV::Newline => Ok((acc, p)),
        TokV::Eof => Ok((acc, p)),
        _ => Err("unexpected token in 'for' word list"@),
    }
}

/// `for: for NAME [in { word }] separators do list done`
pub open spec fn g_for(t: Seq<TokV>, p: int, rp: bool) -> Parsed<CmdV>
    decreases left(t, p), 1int,
{
    let name = at(t, p + 1);
    let plain = if name is Word {
        ast::plain_of(name->Word_0)
    } else {
        None
    };
    if plain is None || !text::is_name(plain->0) {
        Err("expected a variable name after 'for'"@)
    } else {
        let listed = if is_plain(at(t, p + 2), "in"@) {
            g_for_words(t, p + 3, seq![])
        } else {
            Ok((seq![], p + 2))
        };
        match forward(listed, p, t.len()) {
            Err(e) => Err(e),
            Ok((words, q)) => {
                proof {
                    lemma_separators(t, q);
                }
                let d = separators_end(t, q);
                if !is_plain(at(t, d), "do"@) {
                    Err("expected 'do'"@)
                } else {
                    match g_block(t, d, Stop::Body, rp, "done"@, "expected 'done'"@) {
                        Err(e) => Err(e),
                        Ok((body, q2)) => Ok((CmdV::For { var: plain->0, words, body }, q2)),
                    }
                }
            },
        }
    }
}

/// `while: (while | until) list do list done`
pub open spec fn g_while(t: Seq<TokV>, p: int, rp: bool, until: bool) -> Parsed<CmdV>
    decreases left(t, p), 1int,
{
    match forward(g_block(t, p, Stop::Loop, rp, "do"@, "expected 'do'"@), p, t.len()) {
        Err(e) => Err(e),
        Ok((cond, q)) => match g_block(t, q - 1, Stop::Body, rp, "done"@, "expected 'done'"@) {
            Err(e) => Err(e),
            Ok((body, q2)) => Ok((CmdV::While { cond, body, until }, q2)),
        },
    }
}

pub open spec fn g_brace(t: Seq<TokV>, p: int, rp: bool) -> Parsed<CmdV>
    decreases left(t, p), 1int,
{
    match g_block(t, p, Stop::Brace, rp, "}"@, "expected '}'"@) {
        Err(e) => Err(e),
        Ok((body, q)) => Ok((CmdV::Brace(body), q)),
    }
}

/// A leading `NAME=value` of a word: the name and the word of the value.
pub open spec fn assignment_of(w: WordV) -> Option<(Seq<char>, WordV)> {
    if w.len() == 0 || !(w[0] is Lit) {
        None
    } else {
        let head = w[0]->Lit_0;
        let eq = text::index_from(head, '=', 0);
        if eq >= head.len() || !text::is_name(head.take(eq)) {
            None
        } else {
            let tail = head.skip(eq + 1);
            let first: WordV = if tail.len() > 0 {
                seq![PartV::Lit(tail)]
            } else {
                seq![]
            };
            Some((head.take(eq), first + w.skip(1)))
        }
    }
}

pub open spec fn redirect_of(r: RedirectTokV, target: WordV) -> RedirectV {
    match r {
        RedirectTokV::In { fd } => RedirectV { fd, op: OpV::In, target },
        RedirectTokV::Out { fd, append } => RedirectV {
            fd,
            op: if append {
                OpV::Append
            } else {
                OpV::Out
            },
            target,
        },
        RedirectTokV::Dup { fd, to } => RedirectV { fd, op: OpV::Dup(to), target },
        RedirectTokV::HereString { fd } => RedirectV { fd, op: OpV::HereString, target },
        RedirectTokV::Heredoc { fd, body, expand } => RedirectV {
            fd,
            op: OpV::Heredoc { body, expand },
            target,
        },
    }
}

/// Whether a word follows the redirect operator.
pub open spec fn takes_target(r: RedirectTokV) -> bool {
    !(r is Dup) && !(r is Heredoc)
}

pub open spec fn empty_word() -> WordV {
    seq![PartV::Lit(seq![])]
}

/// `simple: { assignment | word | redirect }`; assignments only count before the
/// first word, and a reserved word ends the command. No pattern is expanded in an
/// assignment and in a here-string, so a pattern character is text there; any other
/// word that holds one is refused.
pub open spec fn g_simple(t: Seq<TokV>, p: int, acc: SimpleV) -> Parsed<CmdV>
    decreases t.len() - p,
{
    let done: Parsed<CmdV> = if acc.assignments.len() == 0 && acc.words.len() == 0
        && acc.redirects.len() == 0 {
        expected_command()
    } else {
        Ok((CmdV::Simple(acc), p))
    };
    match at(t, p) {
        TokV::Word(w) => if acc.words.len() == 0 && assignment_of(w) is Some {
            g_simple(
                t,
                p + 1,
                SimpleV { assignments: acc.assignments.push(assignment_of(w)->0), ..acc },
            )
        } else if ast::plain_of(w) is Some && ast::is_keyword(ast::plain_of(w)->0) {
            done
        } else {
            g_simple(t, p + 1, SimpleV { words: acc.words.push(w), ..acc })
        },
        TokV::Pattern { word, why } => if acc.words.len() == 0 && assignment_of(word) is Some {
            g_simple(
                t,
                p + 1,
                SimpleV { assignments: acc.assignments.push(assignment_of(word)->0), ..acc },
            )
        } else {
            Err(why)
        },
        TokV::Redir(r) => if !takes_target(r) {
            g_simple(
                t,
                p + 1,
                SimpleV { redirects: acc.redirects.push(redirect_of(r, empty_word())), ..acc },
            )
        } else {
            match at(t, p + 1) {
                TokV::Word(w) => g_simple(
                    t,
                    p + 2,
                    SimpleV { redirects: acc.redirects.push(redirect_of(r, w)), ..acc },
                ),
                TokV::Pattern { word, why } => if r is HereString {
                    g_simple(
                        t,
                        p + 2,
                        SimpleV { redirects: acc.redirects.push(redirect_of(r, word)), ..acc },
                    )
                } else {
                    Err(why)
                },
                _ => Err("expected a file after redirect"@),
            }
        },
        _ => done,
    }
}

/// How `std::fmt::Debug` shows a string: quoted, with escapes.
pub uninterp spec fn debug_text(s: Seq<char>) -> Seq<char>;

pub open spec fn part_debug(p: PartV) -> Seq<char> {
    match p {
        PartV::Lit(s) => "Lit("@ + debug_text(s) + ")"@,
        PartV::Quoted(s) => "Quoted("@ + debug_text(s) + ")"@,
        PartV::Var(s) => "Var("@ + debug_text(s) + ")"@,
        PartV::VarQuoted(s) => "VarQuoted("@ + debug_text(s) + ")"@,
        PartV::SubRaw(s) => "SubRaw("@ + debug_text(s) + ")"@,
        PartV::SubQuotedRaw(s) => "SubQuotedRaw("@ + debug_text(s) + ")"@,
    }
}

pub open spec fn bool_text(b: bool) -> Seq<char> {
    if b {
        "true"@
    } else {
        "false"@
    }
}

pub open spec fn redirect_debug(r: RedirectTokV) -> Seq<char> {
    match r {
        RedirectTokV::In { fd } => "In { fd: "@ + text::decimal(fd as int) + " }"@,
        RedirectTokV::Out { fd, append } => "Out { fd: "@ + text::decimal(fd as int)
            + ", append: "@ + bool_text(append) + " }"@,
        RedirectTokV::Dup { fd, to } => "Dup { fd: "@ + text::decimal(fd as int) + ", to: "@
            + text::decimal(to as int) + " }"@,
        RedirectTokV::HereString { fd } => "HereString { fd: "@ + text::decimal(fd as int) + " }"@,
        RedirectTokV::Heredoc { fd, body, expand } => "Heredoc { fd: "@ + text::decimal(fd as int)
            + ", body: "@ + debug_text(body) + ", expand: "@ + bool_text(expand) + " }"@,
    }
}

pub open spec fn word_debug(w: WordV) -> Seq<char> {
    "Word { parts: ["@ + text::joined(w.map_values(|p: PartV| part_debug(p)), ", "@) + "] }"@
}

/// A token as messages show it.
pub open spec fn token_debug(t: TokV) -> Seq<char> {
    match t {
        TokV::Word(w) => "Word("@ + word_debug(w) + ")"@,
        TokV::Pattern { word, why } => "Pattern("@ + word_debug(word) + ")"@,
        TokV::Semi => "Semi"@,
        TokV::Amp => "Amp"@,
        TokV::Pipe => "Pipe"@,
        TokV::And => "And"@,
        TokV::Or => "Or"@,
        TokV::LParen => "LParen"@,
        TokV::RParen => "RParen"@,
        TokV::Newline => "Newline"@,
        TokV::Redir(r) => "Redir("@ + redirect_debug(r) + ")"@,
        TokV::Eof => "Eof"@,
    }
}

/// The names that `$NAME` and `${NAME}` stand for: variables, `$?` and `$#`.
pub open spec fn is_parameter(name: Seq<char>) -> bool {
    ||| name == "?"@
    ||| name == "#"@
    ||| name.len() > 0 && forall|i: int|
        0 <= i < name.len() ==> text::is_name_char(#[trigger] name[i])
}

pub open spec fn is_blank(c: char) -> bool {
    c == ' ' || c == '\t' || c == '\n'
}

/// What numbers and variables of arithmetic are made of.
pub open spec fn is_operand(c: char) -> bool {
    text::is_name_char(c) || c == '$' || c == '{' || c == '}' || c == '"'
}

pub open spec fn is_operator(c: char) -> bool {
    ||| c == '+' || c == '-' || c == '*' || c == '/' || c == '%'
    ||| c == '<' || c == '>' || c == '=' || c == '!' || c == '~'
    ||| c == '&' || c == '|' || c == '^' || c == '?' || c == ':' || c == ','
    ||| c == '(' || c == ')' || c == '[' || c == ']'
}

/// Nothing but blanks stands between `i` and `k`.
pub open spec fn only_blanks(s: Seq<char>, i: int, k: int) -> bool {
    forall|j: int| i < j < k ==> is_blank(#[trigger] s[j])
}

/// A text as arithmetic has it: operands, operators and blanks, and an operator
/// between any two operands.
pub open spec fn is_expression(s: Seq<char>) -> bool {
    &&& forall|i: int|
        0 <= i < s.len() ==> is_blank(#[trigger] s[i]) || is_operand(s[i]) || is_operator(s[i])
    &&& forall|i: int, k: int|
        0 <= i && i + 1 < k < s.len() && is_operand(#[trigger] s[i]) && is_operand(#[trigger] s[k])
            ==> !only_blanks(s, i, k)
}

/// Whether what stands in `$(...)` makes it a `$((...))`: a paren that opens it is
/// closed at its very end, around an expression. Else the paren opens a subshell.
pub open spec fn is_arithmetic(src: Seq<char>) -> bool {
    &&& src.len() >= 2
    &&& src[0] == '('
    &&& lexer::sub_end(src, 1, 1, None) == Ok::<int, int>(src.len() - 1)
    &&& is_expression(src.subrange(1, src.len() - 1))
}

/// Why a part of a word is refused, if it is: arithmetic, the forms of `${...}`
/// other than a name, and a `$(...)` that is no script. The part stands in a script
/// of `n` characters.
pub open spec fn part_fault(p: PartV, n: nat) -> Option<Seq<char>>
    decreases n, 0int, 1int,
{
    match p {
        PartV::Lit(_) => None,
        PartV::Quoted(_) => None,
        PartV::Var(name) => name_fault(name),
        PartV::VarQuoted(name) => name_fault(name),
        PartV::SubRaw(src) => sub_fault(src, n),
        PartV::SubQuotedRaw(src) => sub_fault(src, n),
    }
}

pub open spec fn name_fault(name: Seq<char>) -> Option<Seq<char>> {
    if is_parameter(name) {
        None
    } else {
        Some("${"@ + name + "} is not supported"@)
    }
}

pub open spec fn sub_fault(src: Seq<char>, n: nat) -> Option<Seq<char>>
    decreases n, 0int, 0int,
{
    if is_arithmetic(src) {
        Some("$(( )) is not supported"@)
    } else if src.len() >= n {
        Some("$() is longer than its script"@)
    } else {
        match commands_of(src) {
            Ok(_) => None,
            Err(e) => Some("syntax error in $(): "@ + e),
        }
    }
}

/// The first refusal among the parts of a word from the `i`-th on.
pub open spec fn word_fault(w: WordV, i: int, n: nat) -> Option<Seq<char>>
    decreases n, 1int, w.len() - i,
{
    if i < 0 || i >= w.len() {
        None
    } else {
        match part_fault(w[i], n) {
            Some(e) => Some(e),
            None => word_fault(w, i + 1, n),
        }
    }
}

pub open spec fn token_fault(tok: TokV, n: nat) -> Option<Seq<char>>
    decreases n, 2int, 0int,
{
    match tok {
        TokV::Word(w) => word_fault(w, 0, n),
        TokV::Pattern { word, why } => word_fault(word, 0, n),
        TokV::Redir(RedirectTokV::Heredoc { fd, body, expand }) => if expand {
            word_fault(heredoc::doc_word(body), 0, n)
        } else {
            None
        },
        _ => None,
    }
}

/// The first refusal among the tokens from the `i`-th on.
pub open spec fn tokens_fault(t: Seq<TokV>, i: int, n: nat) -> Option<Seq<char>>
    decreases n, 3int, t.len() - i,
{
    if i < 0 || i >= t.len() {
        None
    } else {
        match token_fault(t[i], n) {
            Some(e) => Some(e),
            None => tokens_fault(t, i + 1, n),
        }
    }
}

/// The commands of a script, or why it is none: its tokens, the grammar and the
/// expansions in its words must all be of the supported subset.
#[verifier::opaque]
pub open spec fn commands_of(src: Seq<char>) -> Result<Seq<CmdV>, Seq<char>>
    decreases src.len(), 4int, 0int,
{
    match lexer::tokens_of(src) {
        Err(e) => Err(e.msg),
        Ok(t) => match g_list(t, 0, Stop::Top, false, seq![]) {
            Err(e) => Err(e),
            Ok((l, q)) => if !(at(t, q) is Eof) {
                Err("unexpected token after command list: "@ + token_debug(at(t, q)))
            } else {
                match tokens_fault(t, 0, src.len()) {
                    Some(e) => Err(e),
                    None => Ok(l),
                }
            },
        },
    }
}

pub proof fn lemma_separators(t: Seq<TokV>, p: int)
    ensures
        p <= separators_end(t, p),
        0 <= p <= t.len() ==> separators_end(t, p) <= t.len(),
        p > t.len() ==> separators_end(t, p) == p,
    decreases t.len() - p,
{
    if 0 <= p < t.len() && separates(t[p]) {
        lemma_separators(t, p + 1);
    }
}

// ---- the parser ----

/// What a production read: the syntax tree and the position behind it.
pub open spec fn reads_cmd(r: Result<(Command, usize), ParseError>, g: Parsed<CmdV>, p: usize, len: usize) -> bool {
    match r {
        Ok((c, q)) => g == Ok::<(CmdV, int), Seq<char>>((c@, q as int)) && p < q < len,
        Err(e) => g == Err::<(CmdV, int), Seq<char>>(e.msg@),
    }
}

pub open spec fn reads_list(r: Result<(List, usize), ParseError>, g: Parsed<Seq<CmdV>>, p: usize, len: usize) -> bool {
    match r {
        Ok((l, q)) => g == Ok::<(Seq<CmdV>, int), Seq<char>>((ast::list_view(l@), q as int)) && p
            <= q < len,
        Err(e) => g == Err::<(Seq<CmdV>, int), Seq<char>>(e.msg@),
    }
}

/// A token stream that the lexer can have made: it ends with `Eof`.
pub open spec fn ends_with_eof(t: Seq<Tok>) -> bool {
    t.len() > 0 && t.last() is Eof
}

pub proof fn lemma_list_push(l: Seq<Command>, c: Command)
    ensures
        ast::list_view(l.push(c)) == ast::list_view(l).push(c@),
{
    assert(l.push(c).drop_last() =~= l);
}

pub proof fn lemma_elifs_push(l: Seq<Elif>, e: Elif)
    ensures
        ast::elifs_view(l.push(e)) == ast::elifs_view(l).push(
            ElifV { cond: ast::list_view(e.cond@), body: ast::list_view(e.body@) },
        ),
{
    assert(l.push(e).drop_last() =~= l);
}

fn parse_error<X>(msg: &str) -> (r: Result<X, ParseError>)
    ensures
        r matches Err(e) && e.msg@ == msg@,
{
    Err(ParseError { msg: text::owned(msg) })
}

fn stops(stop: Stop, word: &str) -> (r: bool)
    ensures
        r == stops_at(stop, word@),
{
    match stop {
        Stop::Top => false,
        Stop::Cond => text::same(word, "then"),
        Stop::Branch => text::same(word, "elif") || text::same(word, "else") || text::same(
            word,
            "fi",
        ),
        Stop::Else => text::same(word, "fi"),
        Stop::Loop => text::same(word, "do"),
        Stop::Body => text::same(word, "done"),
        Stop::Brace => text::same(word, "}"),
    }
}

fn unsupported_word(tok: &Tok) -> (r: Option<&str>)
    ensures
        match r {
            Some(w) => is_unsupported(tok@) && ast::plain_of(tok@->Word_0) == Some(w@),
            None => !is_unsupported(tok@),
        },
{
    match tok {
        Tok::Word(w) => match w.plain() {
            Some(p) => if ast::unsupported(p) {
                Some(p)
            } else {
                None
            },
            None => None,
        },
        _ => None,
    }
}

fn plain_is(tok: &Tok, s: &str) -> (r: bool)
    ensures
        r == is_plain(tok@, s@),
{
    match tok {
        Tok::Word(w) => match w.plain() {
            Some(p) => text::same(p, s),
            None => false,
        },
        _ => false,
    }
}

fn ends_list(tok: &Tok, stop: Stop, stop_rparen: bool) -> (r: bool)
    ensures
        r == at_end(tok@, stop, stop_rparen),
{
    match tok {
        Tok::Eof => true,
        Tok::RParen => stop_rparen,
        Tok::Word(w) => match w.plain() {
            Some(s) => stops(stop, s),
            None => false,
        },
        _ => false,
    }
}

fn is_separator(tok: &Tok) -> (r: bool)
    ensures
        r == separates(tok@),
{
    matches!(tok, Tok::Semi | Tok::Newline | Tok::Amp)
}

fn skip_separators(t: &Vec<Tok>, from: usize) -> (r: usize)
    requires
        ends_with_eof(t@),
        from < t.len(),
    ensures
        r == separators_end(lexer::toks_view(t@), from as int),
        from <= r < t.len(),
{
    let ghost v = lexer::toks_view(t@);
    let mut p: usize = from;
    while is_separator(&t[p])
        invariant
            ends_with_eof(t@),
            v == lexer::toks_view(t@),
            from <= p < t.len(),
            separators_end(v, from as int) == separators_end(v, p as int),
        decreases t.len() - p,
    {
        p = p + 1;
    }
    p
}

#[verifier::rlimit(40)]
fn parse_list(t: &Vec<Tok>, from: usize, stop: Stop, stop_rparen: bool) -> (r: Result<
    (List, usize),
    ParseError,
>)
    requires
        ends_with_eof(t@),
        from < t.len(),
    ensures
        reads_list(
            r,
            g_list(lexer::toks_view(t@), from as int, stop, stop_rparen, seq![]),
            from,
            t.len(),
        ),
    decreases t.len() - from, 5int,
{
    let ghost v = lexer::toks_view(t@);
    let ghost whole = g_list(v, from as int, stop, stop_rparen, seq![]);
    let mut list: Vec<Command> = Vec::new();
    let mut p: usize = from;
    loop
        invariant
            ends_with_eof(t@),
            v == lexer::toks_view(t@),
            from <= p < t.len(),
            whole == g_list(v, p as int, stop, stop_rparen, ast::list_view(list@)),
            whole == g_list(v, from as int, stop, stop_rparen, seq![]),
        decreases t.len() - p,
    {
        let q = skip_separators(t, p);
        assert(v[q as int] == t@[q as int]@);
        if ends_list(&t[q], stop, stop_rparen) {
            return Ok((list, q));
        }
        match parse_andor(t, q, stop_rparen) {
            Err(e) => {
                return Err(e);
            },
            Ok((c, e)) => {
                proof {
                    lemma_list_push(list@, c);
                }
                list.push(c);
                assert(v[e as int] == t@[e as int]@);
                if !is_separator(&t[e]) {
                    return Ok((list, e));
                }
                p = e + 1;
            },
        }
    }
}

#[verifier::rlimit(40)]
fn parse_andor(t: &Vec<Tok>, from: usize, stop_rparen: bool) -> (r: Result<
    (Command, usize),
    ParseError,
>)
    requires
        ends_with_eof(t@),
        from < t.len(),
    ensures
        reads_cmd(r, g_andor(lexer::toks_view(t@), from as int, stop_rparen), from, t.len()),
    decreases t.len() - from, 4int,
{
    let ghost v = lexer::toks_view(t@);
    let ghost whole = g_andor(v, from as int, stop_rparen);
    let (first, start) = match parse_pipeline(t, from, stop_rparen) {
        Err(e) => {
            return Err(e);
        },
        Ok(x) => x,
    };
    let mut lhs = first;
    let mut p: usize = start;
    loop
        invariant
            ends_with_eof(t@),
            v == lexer::toks_view(t@),
            from < p < t.len(),
            whole == g_andor(v, from as int, stop_rparen),
            whole == g_andor_rest(v, p as int, stop_rparen, lhs@),
        decreases t.len() - p,
    {
        assert(v[p as int] == t@[p as int]@);
        let and = matches!(t[p], Tok::And);
        if !and && !matches!(t[p], Tok::Or) {
            return Ok((lhs, p));
        }
        match parse_pipeline(t, p + 1, stop_rparen) {
            Err(e) => {
                return Err(e);
            },
            Ok((c, q)) => {
                lhs = Command::AndOr { lhs: Box::new(lhs), and, rhs: Box::new(c) };
                p = q;
            },
        }
    }
}

pub fn describe(cmd: &Command) -> (r: &'static str)
    ensures
        r@ == describes(cmd@),
{
    match cmd {
        Command::Simple(_) => "simple command",
        Command::AndOr { .. } => "&&/|| chain",
        Command::Pipeline { .. } => "pipeline",
        Command::If { .. } => "if",
        Command::For { .. } => "for",
        Command::While { .. } => "while",
        Command::Subshell(_) => "( )",
        Command::Brace(_) => "{ }",
    }
}

fn describe_error<X>(msg: &str, cmd: &Command) -> (r: Result<X, ParseError>)
    ensures
        r matches Err(e) && e.msg@ == msg@ + describes(cmd@),
{
    let mut s = text::owned(msg);
    s.append(describe(cmd));
    Err(ParseError { msg: s })
}

#[verifier::rlimit(40)]
fn parse_pipeline(t: &Vec<Tok>, from: usize, stop_rparen: bool) -> (r: Result<
    (Command, usize),
    ParseError,
>)
    requires
        ends_with_eof(t@),
        from < t.len(),
    ensures
        reads_cmd(r, g_pipeline(lexer::toks_view(t@), from as int, stop_rparen), from, t.len()),
    decreases t.len() - from, 3int,
{
    let ghost v = lexer::toks_view(t@);
    let ghost whole = g_pipeline(v, from as int, stop_rparen);
    assert(v[from as int] == t@[from as int]@);
    let negated = plain_is(&t[from], "!");
    let start: usize = if negated {
        from + 1
    } else {
        from
    };
    let (first, q) = match parse_command(t, start, stop_rparen) {
        Err(e) => {
            return Err(e);
        },
        Ok(x) => x,
    };
    assert(v[q as int] == t@[q as int]@);
    if !matches!(t[q], Tok::Pipe) {
        if !negated {
            return Ok((first, q));
        }
        match first {
            Command::Simple(s) => {
                let mut stages: Vec<SimpleCommand> = Vec::new();
                stages.push(s);
                assert(ast::stages_view(stages@) =~= seq![s@]);
                return Ok((Command::Pipeline { negated, stages }, q));
            },
            other => {
                return describe_error("cannot negate ", &other);
            },
        }
    }
    let mut stages: Vec<SimpleCommand> = Vec::new();
    match first {
        Command::Simple(s) => {
            stages.push(s);
            assert(ast::stages_view(stages@) =~= seq![s@]);
        },
        other => {
            return describe_error("unsupported command in pipeline: ", &other);
        },
    }
    let mut p: usize = q;
    while matches!(t[p], Tok::Pipe)
        invariant
            ends_with_eof(t@),
            v == lexer::toks_view(t@),
            from < p < t.len(),
            whole == g_pipeline(v, from as int, stop_rparen),
            whole == g_stages(v, p as int, stop_rparen, negated, ast::stages_view(stages@)),
        decreases t.len() - p,
    {
        assert(v[p as int] == t@[p as int]@);
        match parse_command(t, p + 1, stop_rparen) {
            Err(e) => {
                return Err(e);
            },
            Ok((Command::Simple(s), e)) => {
                stages.push(s);
                p = e;
            },
            Ok((other, _)) => {
                return describe_error("unsupported command in pipeline: ", &other);
            },
        }
    }
    assert(v[p as int] == t@[p as int]@);
    Ok((Command::Pipeline { negated, stages }, p))
}

#[verifier::rlimit(40)]
fn parse_command(t: &Vec<Tok>, from: usize, stop_rparen: bool) -> (r: Result<
    (Command, usize),
    ParseError,
>)
    requires
        ends_with_eof(t@),
        from < t.len(),
    ensures
        reads_cmd(r, g_command(lexer::toks_view(t@), from as int, stop_rparen), from, t.len()),
    decreases t.len() - from, 2int,
{
    let ghost v = lexer::toks_view(t@);
    assert(v[from as int] == t@[from as int]@);
    let tok = &t[from];
    if plain_is(tok, "if") {
        parse_if(t, from, stop_rparen)
    } else if plain_is(tok, "for") {
        parse_for(t, from, stop_rparen)
    } else if plain_is(tok, "while") {
        parse_while(t, from, stop_rparen, false)
    } else if plain_is(tok, "until") {
        parse_while(t, from, stop_rparen, true)
    } else if plain_is(tok, "{") {
        parse_brace(t, from, stop_rparen)
    } else if let Some(w) = unsupported_word(tok) {
        parse_error(text::owned(w).concat(" is not supported").as_str())
    } else if matches!(tok, Tok::Word(_)) || matches!(tok, Tok::Pattern { .. }) {
        parse_simple(t, from)
    } else if matches!(tok, Tok::LParen) {
        match parse_list(t, from + 1, Stop::Top, true) {
            Err(e) => Err(e),
            Ok((body, q)) => {
                assert(v[q as int] == t@[q as int]@);
                if !matches!(t[q], Tok::RParen) {
                    return parse_error("expected ')'");
                }
                Ok((Command::Subshell(body), q + 1))
            },
        }
    } else {
        parse_error("expected a command")
    }
}

/// A list from `from + 1` on, then the reserved word `word`.
#[verifier::rlimit(40)]
fn parse_block(t: &Vec<Tok>, from: usize, stop: Stop, stop_rparen: bool, word: &str, msg: &str) -> (r:
    Result<(List, usize), ParseError>)
    requires
        ends_with_eof(t@),
        from + 1 < t.len(),
    ensures
        reads_list(
            r,
            g_block(lexer::toks_view(t@), from as int, stop, stop_rparen, word@, msg@),
            from,
            t.len(),
        ),
        r matches Ok((_, q)) ==> from + 1 < q,
    decreases t.len() - from, 0int,
{
    let ghost v = lexer::toks_view(t@);
    match parse_list(t, from + 1, stop, stop_rparen) {
        Err(e) => Err(e),
        Ok((l, q)) => {
            assert(v[q as int] == t@[q as int]@);
            if plain_is(&t[q], word) {
                Ok((l, q + 1))
            } else {
                parse_error(msg)
            }
        },
    }
}

#[verifier::rlimit(40)]
fn parse_if(t: &Vec<Tok>, from: usize, stop_rparen: bool) -> (r: Result<
    (Command, usize),
    ParseError,
>)
    requires
        ends_with_eof(t@),
        from + 1 < t.len(),
    ensures
        reads_cmd(r, g_if(lexer::toks_view(t@), from as int, stop_rparen), from, t.len()),
    decreases t.len() - from, 1int,
{
    let ghost v = lexer::toks_view(t@);
    let ghost whole = g_if(v, from as int, stop_rparen);
    let (cond, q) = match parse_block(t, from, Stop::Cond, stop_rparen, "then", "expected 'then'") {
        Err(e) => {
            return Err(e);
        },
        Ok(x) => x,
    };
    let (body, q2) = match parse_list(t, q, Stop::Branch, stop_rparen) {
        Err(e) => {
            return Err(e);
        },
        Ok(x) => x,
    };
    let mut elifs: Vec<Elif> = Vec::new();
    let mut els: Option<List> = None;
    let mut p: usize = q2;
    assert(ast::elifs_view(elifs@) =~= seq![]);
    loop
        invariant
            ends_with_eof(t@),
            v == lexer::toks_view(t@),
            from < p < t.len(),
            whole == g_if(v, from as int, stop_rparen),
            whole == g_if_rest(
                v,
                p as int,
                stop_rparen,
                ast::list_view(cond@),
                ast::list_view(body@),
                ast::elifs_view(elifs@),
                match els {
                    Some(l) => Some(ast::list_view(l@)),
                    None => None,
                },
            ),
        decreases t.len() - p,
    {
        assert(v[p as int] == t@[p as int]@);
        if plain_is(&t[p], "elif") {
            let (c, q) = match parse_block(
                t,
                p,
                Stop::Cond,
                stop_rparen,
                "then",
                "expected 'then'",
            ) {
                Err(e) => {
                    return Err(e);
                },
                Ok(x) => x,
            };
            let (b, q2) = match parse_list(t, q, Stop::Branch, stop_rparen) {
                Err(e) => {
                    return Err(e);
                },
                Ok(x) => x,
            };
            let branch = Elif { cond: c, body: b };
            proof {
                lemma_elifs_push(elifs@, branch);
            }
            elifs.push(branch);
            p = q2;
        } else if plain_is(&t[p], "else") {
            let (l, q) = match parse_list(t, p + 1, Stop::Else, stop_rparen) {
                Err(e) => {
                    return Err(e);
                },
                Ok(x) => x,
            };
            els = Some(l);
            p = q;
        } else if plain_is(&t[p], "fi") {
            return Ok((Command::If { cond, body, elifs, els }, p + 1));
        } else {
            return parse_error("expected 'fi'");
        }
    }
}

fn parse_for_words(t: &Vec<Tok>, from: usize) -> (r: Result<(Vec<Word>, usize), ParseError>)
    requires
        ends_with_eof(t@),
        from < t.len(),
    ensures
        match r {
            Ok((w, q)) => g_for_words(lexer::toks_view(t@), from as int, seq![]) == Ok::<
                (Seq<WordV>, int),
                Seq<char>,
            >((ast::words_view(w@), q as int)) && from <= q < t.len(),
            Err(e) => g_for_words(lexer::toks_view(t@), from as int, seq![]) == Err::<
                (Seq<WordV>, int),
                Seq<char>,
            >(e.msg@),
        },
{
    let ghost v = lexer::toks_view(t@);
    let mut words: Vec<Word> = Vec::new();
    let mut p: usize = from;
    assert(ast::words_view(words@) =~= seq![]);
    loop
        invariant
            ends_with_eof(t@),
            v == lexer::toks_view(t@),
            from <= p < t.len(),
            g_for_words(v, from as int, seq![]) == g_for_words(
                v,
                p as int,
                ast::words_view(words@),
            ),
        decreases t.len() - p,
    {
        assert(v[p as int] == t@[p as int]@);
        match &t[p] {
            Tok::Word(w) => {
                words.push(w.copy());
                p = p + 1;
            },
            Tok::Pattern { word: _, why } => {
                return parse_error(why.as_str());
            },
            Tok::Semi | Tok::Newline | Tok::Eof => {
                return Ok((words, p));
            },
            _ => {
                return parse_error("unexpected token in 'for' word list");
            },
        }
    }
}

#[verifier::rlimit(40)]
fn parse_for(t: &Vec<Tok>, from: usize, stop_rparen: bool) -> (r: Result<
    (Command, usize),
    ParseError,
>)
    requires
        ends_with_eof(t@),
        from + 1 < t.len(),
    ensures
        reads_cmd(r, g_for(lexer::toks_view(t@), from as int, stop_rparen), from, t.len()),
    decreases t.len() - from, 1int,
{
    let ghost v = lexer::toks_view(t@);
    assert(v[from + 1] == t@[from + 1]@);
    let var = match &t[from + 1] {
        Tok::Word(w) => match w.plain() {
            Some(name) => {
                if !text::valid_name(name) {
                    return parse_error("expected a variable name after 'for'");
                }
                text::owned(name)
            },
            None => {
                return parse_error("expected a variable name after 'for'");
            },
        },
        _ => {
            return parse_error("expected a variable name after 'for'");
        },
    };
    let n: usize = from + 2;
    assert(v[n as int] == t@[n as int]@);
    let mut words: Vec<Word> = Vec::new();
    let mut q: usize = n;
    assert(ast::words_view(words@) =~= seq![]);
    if plain_is(&t[n], "in") {
        match parse_for_words(t, n + 1) {
            Err(e) => {
                return Err(e);
            },
            Ok((w, e)) => {
                words = w;
                q = e;
            },
        }
    }
    let d = skip_separators(t, q);
    assert(v[d as int] == t@[d as int]@);
    if !plain_is(&t[d], "do") {
        return parse_error("expected 'do'");
    }
    match parse_block(t, d, Stop::Body, stop_rparen, "done", "expected 'done'") {
        Err(e) => Err(e),
        Ok((body, e)) => Ok((Command::For { var, words, body }, e)),
    }
}

#[verifier::rlimit(40)]
fn parse_while(t: &Vec<Tok>, from: usize, stop_rparen: bool, until: bool) -> (r: Result<
    (Command, usize),
    ParseError,
>)
    requires
        ends_with_eof(t@),
        from + 1 < t.len(),
    ensures
        reads_cmd(r, g_while(lexer::toks_view(t@), from as int, stop_rparen, until), from, t.len()),
    decreases t.len() - from, 1int,
{
    match parse_block(t, from, Stop::Loop, stop_rparen, "do", "expected 'do'") {
        Err(e) => Err(e),
        Ok((cond, q)) => match parse_block(
            t,
            q - 1,
            Stop::Body,
            stop_rparen,
            "done",
            "expected 'done'",
        ) {
            Err(e) => Err(e),
            Ok((body, e)) => Ok((Command::While { cond, body, until }, e)),
        },
    }
}

#[verifier::rlimit(40)]
fn parse_brace(t: &Vec<Tok>, from: usize, stop_rparen: bool) -> (r: Result<
    (Command, usize),
    ParseError,
>)
    requires
        ends_with_eof(t@),
        from + 1 < t.len(),
    ensures
        reads_cmd(r, g_brace(lexer::toks_view(t@), from as int, stop_rparen), from, t.len()),
    decreases t.len() - from, 1int,
{
    match parse_block(t, from, Stop::Brace, stop_rparen, "}", "expected '}'") {
        Err(e) => Err(e),
        Ok((body, q)) => Ok((Command::Brace(body), q)),
    }
}

/// Split a leading `NAME=value` assignment word into (name, value-word).
pub fn split_assignment(word: &Word) -> (r: Option<(String, Word)>)
    ensures
        match r {
            Some((n, w)) => assignment_of(word@) == Some((n@, w@)),
            None => assignment_of(word@) is None,
        },
{
    if word.parts.len() == 0 {
        return None;
    }
    assert(word@[0] == word.parts@[0]@);
    let head = match &word.parts[0] {
        WordPart::Lit(s) => text::chars_of(s.as_str()),
        _ => {
            return None;
        },
    };
    let eq = text::find_from(&head, '=', 0);
    if eq >= head.len() {
        return None;
    }
    let name = text::string_of(&head, 0, eq);
    assert(name@ =~= head@.take(eq as int));
    if !text::valid_name(name.as_str()) {
        return None;
    }
    let mut parts: Vec<WordPart> = Vec::new();
    if eq + 1 < head.len() {
        let tail = text::string_of(&head, eq + 1, head.len());
        assert(tail@ =~= head@.skip(eq + 1));
        parts.push(WordPart::Lit(tail));
    }
    let ghost first = ast::parts_view(parts@);
    proof {
        if eq + 1 < head@.len() {
            assert(first =~= seq![PartV::Lit(head@.skip(eq + 1))]);
        } else {
            assert(first =~= seq![]);
        }
    }
    let mut i: usize = 1;
    assert(first + word@.subrange(1, 1) =~= first);
    while i < word.parts.len()
        invariant
            1 <= i <= word.parts@.len(),
            ast::parts_view(parts@) == first + word@.subrange(1, i as int),
        decreases word.parts@.len() - i,
    {
        let p = word.parts[i].copy();
        assert(p@ == word@[i as int]);
        parts.push(p);
        i = i + 1;
        assert(ast::parts_view(parts@) =~= first + word@.subrange(1, i as int));
    }
    assert(word@.subrange(1, i as int) =~= word@.skip(1));
    Some((name, Word { parts }))
}

pub fn make_redirect(r: &RedirectTok, target: Word) -> (d: Redirect)
    ensures
        d@ == redirect_of(r@, target@),
{
    match r {
        RedirectTok::In { fd } => Redirect { fd: *fd, op: RedirectOp::In, target },
        RedirectTok::Out { fd, append } => Redirect {
            fd: *fd,
            op: if *append {
                RedirectOp::Append
            } else {
                RedirectOp::Out
            },
            target,
        },
        RedirectTok::Dup { fd, to } => Redirect { fd: *fd, op: RedirectOp::Dup(*to), target },
        RedirectTok::HereString { fd } => Redirect { fd: *fd, op: RedirectOp::HereString, target },
        RedirectTok::Heredoc { fd, body, expand } => Redirect {
            fd: *fd,
            op: RedirectOp::Heredoc { body: body.clone(), expand: *expand },
            target,
        },
    }
}

#[verifier::rlimit(40)]
fn parse_simple(t: &Vec<Tok>, from: usize) -> (r: Result<(Command, usize), ParseError>)
    requires
        ends_with_eof(t@),
        from < t.len(),
    ensures
        reads_cmd(
            r,
            g_simple(
                lexer::toks_view(t@),
                from as int,
                SimpleV { assignments: seq![], words: seq![], redirects: seq![] },
            ),
            from,
            t.len(),
        ),
{
    let ghost v = lexer::toks_view(t@);
    let ghost none = SimpleV { assignments: seq![], words: seq![], redirects: seq![] };
    let mut cmd = SimpleCommand {
        assignments: Vec::new(),
        words: Vec::new(),
        redirects: Vec::new(),
    };
    let mut p: usize = from;
    assert(cmd@ =~= none);
    loop
        invariant
            ends_with_eof(t@),
            v == lexer::toks_view(t@),
            from <= p < t.len(),
            p == from ==> cmd@ == none,
            none == (SimpleV { assignments: seq![], words: seq![], redirects: seq![] }),
            g_simple(v, from as int, none) == g_simple(v, p as int, cmd@),
        ensures
            from <= p < t.len(),
            p == from ==> cmd@ == none,
            g_simple(v, from as int, none) == (if cmd@.assignments.len() == 0 && cmd@.words.len()
                == 0 && cmd@.redirects.len() == 0 {
                expected_command()
            } else {
                Ok((CmdV::Simple(cmd@), p as int))
            }),
        decreases t.len() - p,
    {
        assert(v[p as int] == t@[p as int]@);
        match &t[p] {
            Tok::Word(w) => {
                if cmd.words.len() == 0 {
                    if let Some(a) = split_assignment(w) {
                        cmd.assignments.push(a);
                        p = p + 1;
                        continue ;
                    }
                }
                // A reserved word here is a leftover terminator that the list
                // parser missed; treat it as the end of this command.
                if let Some(plain) = w.plain() {
                    if ast::keyword(plain) {
                        break;
                    }
                }
                cmd.words.push(w.copy());
                p = p + 1;
            },
            Tok::Pattern { word, why } => {
                if cmd.words.len() == 0 {
                    if let Some(a) = split_assignment(word) {
                        cmd.assignments.push(a);
                        p = p + 1;
                        continue ;
                    }
                }
                return parse_error(why.as_str());
            },
            Tok::Redir(r) => {
                let bare = matches!(r, RedirectTok::Dup { .. } | RedirectTok::Heredoc { .. });
                if bare {
                    let empty = String::new();
                    let target = Word::lit(empty);
                    assert(target@ =~= empty_word()) by {
                        assert(empty@ =~= seq![]);
                    }
                    cmd.redirects.push(make_redirect(r, target));
                    p = p + 1;
                } else {
                    assert(v[p + 1] == t@[p + 1]@);
                    match &t[p + 1] {
                        Tok::Word(w) => {
                            cmd.redirects.push(make_redirect(r, w.copy()));
                            p = p + 2;
                        },
                        Tok::Pattern { word, why } => {
                            if !matches!(r, RedirectTok::HereString { .. }) {
                                return parse_error(why.as_str());
                            }
                            cmd.redirects.push(make_redirect(r, word.copy()));
                            p = p + 2;
                        },
                        _ => {
                            return parse_error("expected a file after redirect");
                        },
                    }
                }
            },
            _ => {
                break;
            },
        }
    }
    if cmd.assignments.len() == 0 && cmd.words.len() == 0 && cmd.redirects.len() == 0 {
        return parse_error("expected a command");
    }
    Ok((Command::Simple(cmd), p))
}

/// `<str as std::fmt::Debug>::fmt`, through `format!`: the quoted and escaped
/// form of a string.
#[verifier::external_body]
fn debug_str(s: &str) -> (r: String)
    ensures
        r@ == debug_text(s@),
{
    format!("{s:?}")
}

fn part_text(p: &WordPart) -> (r: String)
    ensures
        r@ == part_debug(p@),
{
    let (head, s) = match p {
        WordPart::Lit(s) => ("Lit(", s),
        WordPart::Quoted(s) => ("Quoted(", s),
        WordPart::Var(s) => ("Var(", s),
        WordPart::VarQuoted(s) => ("VarQuoted(", s),
        WordPart::SubRaw(s) => ("SubRaw(", s),
        WordPart::SubQuotedRaw(s) => ("SubQuotedRaw(", s),
    };
    text::owned(head).concat(debug_str(s.as_str()).as_str()).concat(")")
}

fn bool_str(b: bool) -> (r: &'static str)
    ensures
        r@ == bool_text(b),
{
    if b {
        "true"
    } else {
        "false"
    }
}

fn redirect_text(r: &RedirectTok) -> (s: String)
    ensures
        s@ == redirect_debug(r@),
{
    match r {
        RedirectTok::In { fd } => text::owned("In { fd: ").concat(
            text::u64_text(*fd as u64).as_str(),
        ).concat(" }"),
        RedirectTok::Out { fd, append } => text::owned("Out { fd: ").concat(
            text::u64_text(*fd as u64).as_str(),
        ).concat(", append: ").concat(bool_str(*append)).concat(" }"),
        RedirectTok::Dup { fd, to } => text::owned("Dup { fd: ").concat(
            text::u64_text(*fd as u64).as_str(),
        ).concat(", to: ").concat(text::u64_text(*to as u64).as_str()).concat(" }"),
        RedirectTok::HereString { fd } => text::owned("HereString { fd: ").concat(
            text::u64_text(*fd as u64).as_str(),
        ).concat(" }"),
        RedirectTok::Heredoc { fd, body, expand } => text::owned("Heredoc { fd: ").concat(
            text::u64_text(*fd as u64).as_str(),
        ).concat(", body: ").concat(debug_str(body.as_str()).as_str()).concat(", expand: ").concat(
            bool_str(*expand),
        ).concat(" }"),
    }
}

fn word_text(w: &Word) -> (r: String)
    ensures
        r@ == word_debug(w@),
{
    let mut parts: Vec<String> = Vec::new();
    let ghost shown = w@.map_values(|p: PartV| part_debug(p));
    let mut i: usize = 0;
    assert(text::texts(parts@) =~= shown.take(0));
    while i < w.parts.len()
        invariant
            i <= w.parts@.len(),
            shown == w@.map_values(|p: PartV| part_debug(p)),
            text::texts(parts@) == shown.take(i as int),
        decreases w.parts@.len() - i,
    {
        let s = part_text(&w.parts[i]);
        assert(s@ == shown[i as int]);
        parts.push(s);
        i = i + 1;
        assert(text::texts(parts@) =~= shown.take(i as int));
    }
    assert(shown.take(i as int) =~= shown);
    assert(text::texts(parts@).skip(0) =~= shown);
    text::owned("Word { parts: [").concat(text::join(&parts, 0, ", ").as_str()).concat("] }")
}

fn token_text(t: &Tok) -> (r: String)
    ensures
        r@ == token_debug(t@),
{
    match t {
        Tok::Word(w) => text::owned("Word(").concat(word_text(w).as_str()).concat(")"),
        Tok::Pattern { word, why: _ } => text::owned("Pattern(").concat(
            word_text(word).as_str(),
        ).concat(")"),
        Tok::Semi => text::owned("Semi"),
        Tok::Amp => text::owned("Amp"),
        Tok::Pipe => text::owned("Pipe"),
        Tok::And => text::owned("And"),
        Tok::Or => text::owned("Or"),
        Tok::LParen => text::owned("LParen"),
        Tok::RParen => text::owned("RParen"),
        Tok::Newline => text::owned("Newline"),
        Tok::Redir(r) => text::owned("Redir(").concat(redirect_text(r).as_str()).concat(")"),
        Tok::Eof => text::owned("Eof"),
    }
}

fn parameter(name: &str) -> (r: bool)
    ensures
        r == is_parameter(name@),
{
    if text::same(name, "?") || text::same(name, "#") {
        return true;
    }
    let c = text::chars_of(name);
    let mut i: usize = 0;
    while i < c.len()
        invariant
            i <= c@.len(),
            c@ == name@,
            forall|j: int| 0 <= j < i ==> text::is_name_char(#[trigger] c@[j]),
            name@ != "?"@,
            name@ != "#"@,
        decreases c@.len() - i,
    {
        if !text::name_char(c[i]) {
            return false;
        }
        i = i + 1;
    }
    c.len() > 0
}

fn check_name(name: &str) -> (r: Option<String>)
    ensures
        text::opt_text(r) == name_fault(name@),
{
    if parameter(name) {
        None
    } else {
        Some(text::owned("${").concat(name).concat("} is not supported"))
    }
}

fn operand(c: char) -> (r: bool)
    ensures
        r == is_operand(c),
{
    text::name_char(c) || c == '$' || c == '{' || c == '}' || c == '"'
}

fn operator(c: char) -> (r: bool)
    ensures
        r == is_operator(c),
{
    c == '+' || c == '-' || c == '*' || c == '/' || c == '%' || c == '<' || c == '>' || c == '='
        || c == '!' || c == '~' || c == '&' || c == '|' || c == '^' || c == '?' || c == ':' || c
        == ',' || c == '(' || c == ')' || c == '[' || c == ']'
}

fn expression(s: &[char]) -> (r: bool)
    ensures
        r == is_expression(s@),
{
    // The place of the last character that is no blank.
    let mut last: Option<usize> = None;
    let mut k: usize = 0;
    while k < s.len()
        invariant
            k <= s@.len(),
            forall|i: int|
                0 <= i < k ==> is_blank(#[trigger] s@[i]) || is_operand(s@[i]) || is_operator(
                    s@[i],
                ),
            forall|i: int, j: int|
                0 <= i && i + 1 < j < k && is_operand(#[trigger] s@[i]) && is_operand(
                    #[trigger] s@[j],
                ) ==> !only_blanks(s@, i, j),
            match last {
                Some(l) => l < k && !is_blank(s@[l as int]) && only_blanks(s@, l as int, k as int),
                None => only_blanks(s@, -1, k as int),
            },
        decreases s@.len() - k,
    {
        let c = s[k];
        if c == ' ' || c == '\t' || c == '\n' {
            k = k + 1;
            continue ;
        }
        if !operand(c) && !operator(c) {
            return false;
        }
        if operand(c) {
            if let Some(l) = last {
                if l + 1 < k && operand(s[l]) {
                    assert(is_operand(s@[l as int]) && is_operand(s@[k as int]));
                    return false;
                }
            }
            assert forall|i: int|
                0 <= i && i + 1 < k && is_operand(#[trigger] s@[i]) implies !only_blanks(
                s@,
                i,
                k as int,
            ) by {
                match last {
                    Some(l) => {
                        if l > i {
                            assert(!is_blank(s@[l as int]));
                        } else if l < i {
                            assert(is_blank(s@[i]));
                        }
                    },
                    None => {
                        assert(is_blank(s@[i]));
                    },
                }
            }
        }
        last = Some(k);
        k = k + 1;
    }
    true
}

fn arithmetic(src: &Vec<char>) -> (r: bool)
    ensures
        r == is_arithmetic(src@),
{
    let n: usize = src.len();
    if n < 2 || src[0] != '(' {
        return false;
    }
    match lexer::scan_command_sub(src.as_slice(), 1) {
        Ok(e) => {
            if e != n - 1 {
                return false;
            }
        },
        Err(_) => {
            return false;
        },
    }
    let inside = vstd::slice::slice_subrange(src.as_slice(), 1, n - 1);
    expression(inside)
}

fn check_sub(src: &str, n: usize) -> (r: Option<String>)
    ensures
        text::opt_text(r) == sub_fault(src@, n as nat),
    decreases n, 0int, 0int,
{
    proof {
        reveal(commands_of);
    }
    let c = text::chars_of(src);
    if arithmetic(&c) {
        return Some(text::owned("$(( )) is not supported"));
    }
    if c.len() >= n {
        return Some(text::owned("$() is longer than its script"));
    }
    match parse(src) {
        Ok(_) => None,
        Err(e) => Some(text::owned("syntax error in $(): ").concat(e.msg.as_str())),
    }
}

fn check_word(w: &Word, n: usize) -> (r: Option<String>)
    ensures
        text::opt_text(r) == word_fault(w@, 0, n as nat),
    decreases n, 1int, 0int,
{
    let mut i: usize = 0;
    while i < w.parts.len()
        invariant
            i <= w.parts@.len(),
            word_fault(w@, 0, n as nat) == word_fault(w@, i as int, n as nat),
        decreases w.parts@.len() - i,
    {
        assert(w@[i as int] == w.parts@[i as int]@);
        let found = match &w.parts[i] {
            WordPart::Lit(_) => None,
            WordPart::Quoted(_) => None,
            WordPart::Var(name) => check_name(name.as_str()),
            WordPart::VarQuoted(name) => check_name(name.as_str()),
            WordPart::SubRaw(src) => check_sub(src.as_str(), n),
            WordPart::SubQuotedRaw(src) => check_sub(src.as_str(), n),
        };
        assert(text::opt_text(found) == part_fault(w@[i as int], n as nat));
        if found.is_some() {
            return found;
        }
        i = i + 1;
    }
    None
}

/// The first expansion in the tokens that is not supported, if there is one.
fn check_tokens(t: &Vec<Tok>, n: usize) -> (r: Option<String>)
    ensures
        text::opt_text(r) == tokens_fault(lexer::toks_view(t@), 0, n as nat),
    decreases n, 3int, 0int,
{
    let ghost v = lexer::toks_view(t@);
    let mut i: usize = 0;
    while i < t.len()
        invariant
            i <= t@.len(),
            v == lexer::toks_view(t@),
            tokens_fault(v, 0, n as nat) == tokens_fault(v, i as int, n as nat),
        decreases t@.len() - i,
    {
        assert(v[i as int] == t@[i as int]@);
        let found = match &t[i] {
            Tok::Word(w) => check_word(w, n),
            Tok::Pattern { word, why: _ } => check_word(word, n),
            Tok::Redir(RedirectTok::Heredoc { fd: _, body, expand }) => {
                if *expand {
                    check_word(&heredoc::heredoc_word(body.as_str()), n)
                } else {
                    None
                }
            },
            _ => None,
        };
        assert(text::opt_text(found) == token_fault(v[i as int], n as nat));
        if found.is_some() {
            return found;
        }
        i = i + 1;
    }
    None
}

/// Parse a complete script into a list of top-level commands. What is not of the
/// supported subset is refused: patterns, arrays, `[[ ]]`, `case` and functions by
/// the grammar, `$(( ))`, the forms of `${...}` other than a name and whatever a
/// `$(...)` holds of these by the expansions.
pub fn parse(src: &str) -> (r: Result<List, ParseError>)
    ensures
        match r {
            Ok(l) => commands_of(src@) == Ok::<Seq<CmdV>, Seq<char>>(ast::list_view(l@)),
            Err(e) => commands_of(src@) == Err::<Seq<CmdV>, Seq<char>>(e.msg@),
        },
    decreases src@.len(), 4int, 0int,
{
    proof {
        reveal(commands_of);
    }
    let toks = match lexer::lex(src) {
        Ok(t) => t,
        Err(e) => {
            return Err(ParseError { msg: e.msg });
        },
    };
    let ghost v = lexer::toks_view(toks@);
    match parse_list(&toks, 0, Stop::Top, false) {
        Err(e) => Err(e),
        Ok((list, q)) => {
            assert(v[q as int] == toks@[q as int]@);
            if !matches!(toks[q], Tok::Eof) {
                return Err(
                    ParseError {
                        msg: text::owned("unexpected token after command list: ").concat(
                            token_text(&toks[q]).as_str(),
                        ),
                    },
                );
            }
            let n: usize = text::chars_of(src).len();
            match check_tokens(&toks, n) {
                Some(msg) => Err(ParseError { msg }),
                None => Ok(list),
            }
        },
    }
}

} // verus!
