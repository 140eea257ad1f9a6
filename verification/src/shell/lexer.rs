//! Tokenizer of the shell.
//!
//! Produces a flat token stream; the parser walks it. Quoting, parameter
//! expansion and command substitution are resolved enough to split the input
//! into words, but the actual expansion happens later. Heredoc bodies are read
//! where the line of their `<<` ends.
use crate::shell::ast;
use crate::shell::ast::{PartV, Word, WordPart, WordV};
use crate::text;
use vstd::prelude::*;

verus! {

broadcast use crate::text::views_push;

pub enum RedirectTok {
    In { fd: u32 },
    Out { fd: u32, append: bool },
    Dup { fd: u32, to: u32 },
    /// `<<<word`: here-string feeding `word\n` to stdin.
    HereString { fd: u32 },
    /// `<<DELIM`: heredoc with its body.
    Heredoc { fd: u32, body: String, expand: bool },
}

#[verifier::ext_equal]
pub enum RedirectTokV {
    In { fd: u32 },
    Out { fd: u32, append: bool },
    Dup { fd: u32, to: u32 },
    HereString { fd: u32 },
    Heredoc { fd: u32, body: Seq<char>, expand: bool },
}

impl View for RedirectTok {
    type V = RedirectTokV;

    open spec fn view(&self) -> RedirectTokV {
        match self {
            RedirectTok::In { fd } => RedirectTokV::In { fd: *fd },
            RedirectTok::Out { fd, append } => RedirectTokV::Out { fd: *fd, append: *append },
            RedirectTok::Dup { fd, to } => RedirectTokV::Dup { fd: *fd, to: *to },
            RedirectTok::HereString { fd } => RedirectTokV::HereString { fd: *fd },
            RedirectTok::Heredoc { fd, body, expand } => RedirectTokV::Heredoc {
                fd: *fd,
                body: body@,
                expand: *expand,
            },
        }
    }
}

pub enum Tok {
    Word(Word),
    /// A word that holds an unquoted pattern character, which is text only where no
    /// pattern is expanded; `why` says why it is refused elsewhere.
    Pattern { word: Word, why: String },
    Semi,
    Amp,
    Pipe,
    And,
    Or,
    LParen,
    RParen,
    Newline,
    Redir(RedirectTok),
    Eof,
}

#[verifier::ext_equal]
pub enum TokV {
    Word(WordV),
    Pattern { word: WordV, why: Seq<char> },
    Semi,
    Amp,
    Pipe,
    And,
    Or,
    LParen,
    RParen,
    Newline,
    Redir(RedirectTokV),
    Eof,
}

impl View for Tok {
    type V = TokV;

    open spec fn view(&self) -> TokV {
        match self {
            Tok::Word(w) => TokV::Word(w@),
            Tok::Pattern { word, why } => TokV::Pattern { word: word@, why: why@ },
            Tok::Semi => TokV::Semi,
            Tok::Amp => TokV::Amp,
            Tok::Pipe => TokV::Pipe,
            Tok::And => TokV::And,
            Tok::Or => TokV::Or,
            Tok::LParen => TokV::LParen,
            Tok::RParen => TokV::RParen,
            Tok::Newline => TokV::Newline,
            Tok::Redir(r) => TokV::Redir(r@),
            Tok::Eof => TokV::Eof,
        }
    }
}

pub open spec fn toks_view(v: Seq<Tok>) -> Seq<TokV> {
    v.map_values(|t: Tok| t@)
}

/// A lexing error with a position and a human-readable message.
#[derive(Debug)]
pub struct LexError {
    pub pos: usize,
    pub msg: String,
}

#[verifier::ext_equal]
pub struct LexErrorV {
    pub pos: int,
    pub msg: Seq<char>,
}

impl View for LexError {
    type V = LexErrorV;

    open spec fn view(&self) -> LexErrorV {
        LexErrorV { pos: self.pos as int, msg: self.msg@ }
    }
}

// ---- the token grammar ----

pub open spec fn bad(pos: int, msg: Seq<char>) -> LexErrorV {
    LexErrorV { pos, msg }
}

/// The characters that end an unquoted word.
pub open spec fn ends_word(c: char) -> bool {
    c == ' ' || c == '\t' || c == '\n' || c == ';' || c == '&' || c == '|' || c == '(' || c == ')'
        || c == '<' || c == '>'
}

/// The first position from `i` on that holds no blank and no escaped newline.
pub open spec fn blank_end(s: Seq<char>, i: int) -> int
    decreases s.len() - i,
{
    if 0 <= i < s.len() && (s[i] == ' ' || s[i] == '\t') {
        blank_end(s, i + 1)
    } else if 0 <= i && i + 1 < s.len() && s[i] == '\\' && s[i + 1] == '\n' {
        blank_end(s, i + 2)
    } else {
        i
    }
}

pub open spec fn digits_end(s: Seq<char>, i: int) -> int
    decreases s.len() - i,
{
    if 0 <= i < s.len() && text::is_digit(s[i]) {
        digits_end(s, i + 1)
    } else {
        i
    }
}

pub open spec fn name_end(s: Seq<char>, i: int) -> int
    decreases s.len() - i,
{
    if 0 <= i < s.len() && text::is_name_char(s[i]) {
        name_end(s, i + 1)
    } else {
        i
    }
}

/// A file descriptor number; 0 where there are no digits or it does not fit.
pub open spec fn fd_number(s: Seq<char>) -> u32 {
    match text::within(text::natural(s), 0, u32::MAX as int) {
        Some(v) => v as u32,
        None => 0,
    }
}

/// The position of the `)` that closes a `$(` whose inside starts at `i`: parens
/// nest, quotes and backslashes hide them. Where none does, the position reached.
pub open spec fn sub_end(s: Seq<char>, i: int, depth: nat, quote: Option<char>) -> Result<int, int>
    decreases s.len() + 1 - i,
{
    if i < 0 || i >= s.len() {
        Err(i)
    } else {
        let c = s[i];
        match quote {
            Some(q) => if c == q {
                sub_end(s, i + 1, depth, None)
            } else if q == '"' && c == '\\' {
                sub_end(s, i + 2, depth, quote)
            } else {
                sub_end(s, i + 1, depth, quote)
            },
            None => if c == '\'' || c == '"' {
                sub_end(s, i + 1, depth, Some(c))
            } else if c == '(' {
                sub_end(s, i + 1, depth + 1, None)
            } else if c == ')' {
                if depth <= 1 {
                    Ok(i)
                } else {
                    sub_end(s, i + 1, (depth - 1) as nat, None)
                }
            } else if c == '\\' {
                sub_end(s, i + 2, depth, None)
            } else {
                sub_end(s, i + 1, depth, None)
            },
        }
    }
}

/// A position as an error tells it, which ends with the machine's numbers.
pub open spec fn position(i: int) -> int {
    if i <= usize::MAX {
        i
    } else {
        usize::MAX as int
    }
}

/// A `$` that stands for itself.
pub open spec fn dollar_sign(quoted: bool) -> PartV {
    if quoted {
        PartV::Quoted(seq!['$'])
    } else {
        PartV::Lit(seq!['$'])
    }
}

pub open spec fn var_part(quoted: bool, name: Seq<char>) -> PartV {
    if quoted {
        PartV::VarQuoted(name)
    } else {
        PartV::Var(name)
    }
}

pub open spec fn sub_part(quoted: bool, src: Seq<char>) -> PartV {
    if quoted {
        PartV::SubQuotedRaw(src)
    } else {
        PartV::SubRaw(src)
    }
}

/// A `$`-expansion, the `$` at `pos`: `$NAME`, `${NAME}`, `$?`, `$#` or `$(...)`;
/// any other `$` stands for itself.
pub open spec fn dollar_at(s: Seq<char>, pos: int, quoted: bool) -> Result<(PartV, int), LexErrorV> {
    let p = pos + 1;
    if p >= s.len() {
        Ok((dollar_sign(quoted), p))
    } else if s[p] == '(' {
        match sub_end(s, p + 1, 1, None) {
            Ok(e) => Ok((sub_part(quoted, s.subrange(p + 1, e)), e + 1)),
            Err(e) => Err(bad(position(e), "unterminated $("@)),
        }
    } else if s[p] == '{' {
        let e = text::index_from(s, '}', p + 1);
        if e < s.len() {
            Ok((var_part(quoted, s.subrange(p + 1, e)), e + 1))
        } else {
            Err(bad(s.len() as int, "unterminated ${...}"@))
        }
    } else if text::is_name_char(s[p]) {
        let e = name_end(s, p);
        Ok((var_part(quoted, s.subrange(p, e)), e))
    } else if s[p] == '?' || s[p] == '#' {
        Ok((var_part(quoted, seq![s[p]]), p + 1))
    } else {
        Ok((dollar_sign(quoted), p))
    }
}

/// Whether a literal, quoted from `cut` on or somewhere behind, would be taken for
/// a reserved word or an assignment if it stood alone: those are never quoted.
pub open spec fn hides(lit: Seq<char>, cut: Option<int>) -> bool {
    let eq = text::index_from(lit, '=', 0);
    match cut {
        Some(k) => ast::is_reserved(lit) || (k <= eq < lit.len() && text::is_name(lit.take(eq))),
        None => false,
    }
}

/// `parts` with the pending literal, if there is any. `cut` is the place in it of
/// the first quoting, if there is any. A literal that must not be read as a
/// reserved word or an assignment comes behind an empty one.
pub open spec fn flushed(lit: Seq<char>, parts: WordV, cut: Option<int>) -> WordV {
    if lit.len() == 0 {
        parts
    } else if parts.len() == 0 && hides(lit, cut) {
        seq![PartV::Lit(seq![]), PartV::Lit(lit)]
    } else {
        parts.push(PartV::Lit(lit))
    }
}

/// `parts` with the pending text of double quotes, if there is any.
pub open spec fn flushed_quoted(run: Seq<char>, parts: WordV) -> WordV {
    if run.len() == 0 {
        parts
    } else {
        parts.push(PartV::Quoted(run))
    }
}

/// The inside of double quotes from `pos` on, up to and with the closing quote,
/// after `parts` and the pending text. The first `had` parts stand before the
/// quotes; quotes around nothing are a part too.
pub open spec fn dquote_from(s: Seq<char>, pos: int, run: Seq<char>, parts: WordV, had: nat) -> Result<
    (WordV, int),
    LexErrorV,
>
    decreases s.len() - pos,
{
    if pos < 0 || pos >= s.len() {
        Err(bad(s.len() as int, "unterminated double quote"@))
    } else if s[pos] == '"' {
        Ok((
            if parts.len() > had {
                flushed_quoted(run, parts)
            } else {
                parts.push(PartV::Quoted(run))
            },
            pos + 1,
        ))
    } else if s[pos] == '\\' {
        if pos + 1 < s.len() && (s[pos + 1] == '"' || s[pos + 1] == '\\' || s[pos + 1] == '$') {
            dquote_from(s, pos + 2, run.push(s[pos + 1]), parts, had)
        } else if pos + 1 < s.len() && s[pos + 1] == '\n' {
            dquote_from(s, pos + 2, run, parts, had)
        } else {
            dquote_from(s, pos + 1, run.push('\\'), parts, had)
        }
    } else if s[pos] == '$' {
        match dollar_at(s, pos, true) {
            Ok((part, p)) => {
                proof {
                    lemma_dollar(s, pos, true);
                }
                dquote_from(s, p, seq![], flushed_quoted(run, parts).push(part), had)
            },
            Err(e) => Err(e),
        }
    } else {
        dquote_from(s, pos + 1, run.push(s[pos]), parts, had)
    }
}

/// Why a word with the unquoted character at `pos` is refused where patterns would
/// be expanded, if it is: patterns, arrays and `[[ ]]` are not supported. `fresh`
/// tells that the word starts here; a `[` that is a whole word is the command of
/// that name.
pub open spec fn refusal(s: Seq<char>, pos: int, fresh: bool) -> Option<Seq<char>> {
    if s[pos] == '*' || s[pos] == '?' {
        Some("globbing is not supported"@)
    } else if s[pos] != '[' {
        None
    } else if fresh && (pos + 1 >= s.len() || ends_word(s[pos + 1])) {
        None
    } else if pos + 1 < s.len() && s[pos + 1] == '[' {
        Some("[[ ]] is not supported"@)
    } else {
        Some("globbing and arrays are not supported"@)
    }
}

pub open spec fn marked(cut: Option<int>, at: int) -> Option<int> {
    match cut {
        Some(_) => cut,
        None => Some(at),
    }
}

/// The first of two reasons.
pub open spec fn first_why(why: Option<Seq<char>>, more: Option<Seq<char>>) -> Option<Seq<char>> {
    match why {
        Some(_) => why,
        None => more,
    }
}

/// A word, what its first unquoted pattern character is refused for, and the
/// position behind it.
pub type Scanned = Result<(WordV, Option<Seq<char>>, int), LexErrorV>;

/// The rest of a word from `pos` on, after `parts` and the pending literal, in
/// which the first quoting is at `cut`. `why` is what came of the pattern characters
/// so far.
pub open spec fn word_from(
    s: Seq<char>,
    pos: int,
    lit: Seq<char>,
    parts: WordV,
    cut: Option<int>,
    why: Option<Seq<char>>,
) -> Scanned
    decreases s.len() - pos,
{
    if pos < 0 || pos >= s.len() || ends_word(s[pos]) {
        let all = flushed(lit, parts, cut);
        Ok((
            if all.len() == 0 {
                seq![PartV::Lit(seq![])]
            } else {
                all
            },
            why,
            pos,
        ))
    } else if s[pos] == '\'' {
        let e = text::index_from(s, '\'', pos + 1);
        proof {
            text::lemma_index_from(s, '\'', pos + 1);
        }
        if e < s.len() {
            word_from(
                s,
                e + 1,
                lit + s.subrange(pos + 1, e),
                parts,
                marked(cut, lit.len() as int),
                why,
            )
        } else {
            Err(bad(s.len() as int, "unterminated single quote"@))
        }
    } else if s[pos] == '"' {
        let had = flushed(lit, parts, cut);
        match dquote_from(s, pos + 1, seq![], had, had.len()) {
            Ok((ps, p)) => {
                proof {
                    lemma_dquote(s, pos + 1, seq![], had, had.len());
                }
                word_from(s, p, seq![], ps, None, why)
            },
            Err(e) => Err(e),
        }
    } else if s[pos] == '\\' {
        if pos + 1 < s.len() && s[pos + 1] != '\n' {
            word_from(s, pos + 2, lit.push(s[pos + 1]), parts, marked(cut, lit.len() as int), why)
        } else {
            word_from(s, pos + 1, lit, parts, cut, why)
        }
    } else if s[pos] == '$' {
        match dollar_at(s, pos, false) {
            Ok((part, p)) => {
                proof {
                    lemma_dollar(s, pos, false);
                }
                word_from(s, p, seq![], flushed(lit, parts, cut).push(part), None, why)
            },
            Err(e) => Err(e),
        }
    } else {
        let more = refusal(s, pos, lit.len() == 0 && parts.len() == 0 && cut is None);
        word_from(s, pos + 1, lit.push(s[pos]), parts, cut, first_why(why, more))
    }
}

/// The delimiter of a heredoc from `pos` on, without its quotes, and whether
/// there were any.
pub open spec fn delim_from(s: Seq<char>, pos: int, acc: Seq<char>, quoted: bool) -> Result<
    (Seq<char>, bool, int),
    LexErrorV,
>
    decreases s.len() - pos,
{
    if pos < 0 || pos >= s.len() || ends_word(s[pos]) {
        Ok((acc, quoted, pos))
    } else if s[pos] == '\'' || s[pos] == '"' {
        let e = text::index_from(s, s[pos], pos + 1);
        proof {
            text::lemma_index_from(s, s[pos], pos + 1);
        }
        if e < s.len() {
            delim_from(s, e + 1, acc + s.subrange(pos + 1, e), true)
        } else {
            Err(
                bad(
                    s.len() as int,
                    if s[pos] == '"' {
                        "unterminated double quote"@
                    } else {
                        "unterminated single quote"@
                    },
                ),
            )
        }
    } else if s[pos] == '\\' {
        if pos + 1 < s.len() && s[pos + 1] != '\n' {
            delim_from(s, pos + 2, acc.push(s[pos + 1]), true)
        } else {
            delim_from(s, pos + 1, acc, true)
        }
    } else {
        delim_from(s, pos + 1, acc.push(s[pos]), quoted)
    }
}

/// One token, or the start of a heredoc whose body is still to be read.
#[verifier::ext_equal]
pub enum LexemeV {
    Tok(TokV),
    Doc { delim: Seq<char>, strip: bool, expand: bool },
}

/// What `pos` holds, `<<` behind it.
pub open spec fn heredoc_at(s: Seq<char>, pos: int) -> Result<(LexemeV, int), LexErrorV> {
    let strip = pos < s.len() && s[pos] == '-';
    let p = blank_end(
        s,
        if strip {
            pos + 1
        } else {
            pos
        },
    );
    match delim_from(s, p, seq![], false) {
        Ok((delim, quoted, e)) => if delim.len() == 0 && !quoted {
            Err(bad(e, "unterminated heredoc"@))
        } else {
            Ok((LexemeV::Doc { delim, strip, expand: !quoted }, e))
        },
        Err(e) => Err(e),
    }
}

pub open spec fn redir(r: RedirectTokV) -> LexemeV {
    LexemeV::Tok(TokV::Redir(r))
}

/// `fd>`, `fd>>` or `fd>&N`, the `>` at `pos`.
pub open spec fn output_redirect(s: Seq<char>, fd: u32, pos: int) -> (LexemeV, int) {
    if pos + 1 < s.len() && s[pos + 1] == '>' {
        (redir(RedirectTokV::Out { fd, append: true }), pos + 2)
    } else if pos + 1 < s.len() && s[pos + 1] == '&' {
        let e = digits_end(s, pos + 2);
        (redir(RedirectTokV::Dup { fd, to: fd_number(s.subrange(pos + 2, e)) }), e)
    } else {
        (redir(RedirectTokV::Out { fd, append: false }), pos + 1)
    }
}

/// A digit run at `pos` that is directly followed by a redirect operator.
pub open spec fn digit_redirect(s: Seq<char>, pos: int) -> Option<(LexemeV, int)> {
    let e = digits_end(s, pos);
    let fd = fd_number(s.subrange(pos, e));
    if e >= s.len() {
        None
    } else if s[e] == '>' {
        Some(output_redirect(s, fd, e))
    } else if s[e] == '<' {
        Some((redir(RedirectTokV::In { fd }), e + 1))
    } else if s[e] == '&' && e + 1 < s.len() && s[e + 1] == '>' {
        let f = digits_end(s, e + 2);
        Some((redir(RedirectTokV::Dup { fd, to: fd_number(s.subrange(e + 2, f)) }), f))
    } else {
        None
    }
}

pub open spec fn doubled(s: Seq<char>, p: int, one: TokV, two: TokV) -> (LexemeV, int) {
    if p + 1 < s.len() && s[p + 1] == s[p] {
        (LexemeV::Tok(two), p + 2)
    } else {
        (LexemeV::Tok(one), p + 1)
    }
}

/// The token at `p`, where no blank and no comment stands.
pub open spec fn token_at(s: Seq<char>, p: int) -> Result<(LexemeV, int), LexErrorV> {
    let c = s[p];
    if text::is_digit(c) && digit_redirect(s, p) is Some {
        Ok(digit_redirect(s, p)->0)
    } else if c == '\n' {
        Ok((LexemeV::Tok(TokV::Newline), p + 1))
    } else if c == ';' {
        Ok((LexemeV::Tok(TokV::Semi), p + 1))
    } else if c == '&' {
        Ok(doubled(s, p, TokV::Amp, TokV::And))
    } else if c == '|' {
        Ok(doubled(s, p, TokV::Pipe, TokV::Or))
    } else if c == '(' {
        Ok((LexemeV::Tok(TokV::LParen), p + 1))
    } else if c == ')' {
        Ok((LexemeV::Tok(TokV::RParen), p + 1))
    } else if c == '<' {
        if p + 1 < s.len() && s[p + 1] == '<' {
            if p + 2 < s.len() && s[p + 2] == '<' {
                Ok((redir(RedirectTokV::HereString { fd: 0 }), p + 3))
            } else {
                heredoc_at(s, p + 2)
            }
        } else {
            Ok((redir(RedirectTokV::In { fd: 0 }), p + 1))
        }
    } else if c == '>' {
        Ok(output_redirect(s, 1, p))
    } else {
        match word_from(s, p, seq![], seq![], None, None) {
            Ok((w, None, e)) => Ok((LexemeV::Tok(TokV::Word(w)), e)),
            Ok((word, Some(why), e)) => Ok((LexemeV::Tok(TokV::Pattern { word, why }), e)),
            Err(e) => Err(e),
        }
    }
}

/// The next token from `pos` on. A `#` where a token could start begins a
/// comment that reaches to the end of the line.
pub open spec fn next_from(s: Seq<char>, pos: int) -> Result<(LexemeV, int), LexErrorV> {
    let b = blank_end(s, pos);
    let p = if b < s.len() && s[b] == '#' {
        text::index_from(s, '\n', b)
    } else {
        b
    };
    if p >= s.len() {
        Ok((LexemeV::Tok(TokV::Eof), p))
    } else {
        token_at(s, p)
    }
}

/// A heredoc whose body is still to be read: `at` is the place of its token.
#[verifier::ext_equal]
pub struct PendingV {
    pub at: int,
    pub delim: Seq<char>,
    pub strip: bool,
    pub expand: bool,
}

/// The lines from `pos` on up to the line that is the delimiter; `<<-` drops
/// leading tabs of each line first. `None` where the delimiter never comes.
pub open spec fn doc_body(s: Seq<char>, pos: int, delim: Seq<char>, strip: bool, acc: Seq<char>) -> Option<
    (Seq<char>, int),
>
    decreases s.len() + 1 - pos,
{
    if pos < 0 || pos >= s.len() {
        None
    } else {
        let e = text::index_from(s, '\n', pos);
        proof {
            text::lemma_index_from(s, '\n', pos);
        }
        let raw = s.subrange(pos, e);
        let line = if strip {
            text::trim_start(raw, '\t')
        } else {
            raw
        };
        if line == delim {
            Some((
                acc,
                if e < s.len() {
                    e + 1
                } else {
                    e
                },
            ))
        } else {
            doc_body(s, e + 1, delim, strip, acc + line.push('\n'))
        }
    }
}

/// Read the bodies of the pending heredocs, in order, and put each into its token.
pub open spec fn docs_from(s: Seq<char>, pos: int, toks: Seq<TokV>, pend: Seq<PendingV>) -> Result<
    (Seq<TokV>, int),
    LexErrorV,
>
    decreases pend.len(),
{
    if pend.len() == 0 {
        Ok((toks, pos))
    } else {
        match doc_body(s, pos, pend[0].delim, pend[0].strip, seq![]) {
            Some((body, p)) => docs_from(
                s,
                p,
                toks.update(
                    pend[0].at,
                    TokV::Redir(RedirectTokV::Heredoc { fd: 0, body, expand: pend[0].expand }),
                ),
                pend.skip(1),
            ),
            None => Err(bad(s.len() as int, "unterminated heredoc"@)),
        }
    }
}

/// The token stream from `pos` on, behind `toks`.
pub open spec fn lex_from(s: Seq<char>, pos: int, toks: Seq<TokV>, pend: Seq<PendingV>) -> Result<
    Seq<TokV>,
    LexErrorV,
>
    decreases s.len() - pos,
{
    if pos < 0 || pos >= s.len() {
        if pend.len() == 0 {
            Ok(toks.push(TokV::Eof))
        } else {
            Err(bad(s.len() as int, "unterminated heredoc"@))
        }
    } else {
        proof {
            lemma_next(s, pos);
        }
        match next_from(s, pos) {
            Err(e) => Err(e),
            Ok((LexemeV::Doc { delim, strip, expand }, p)) => lex_from(
                s,
                p,
                toks.push(TokV::Redir(RedirectTokV::Heredoc { fd: 0, body: seq![], expand })),
                pend.push(PendingV { at: toks.len() as int, delim, strip, expand }),
            ),
            Ok((LexemeV::Tok(t), p)) => if t is Newline && pend.len() > 0 {
                proof {
                    lemma_docs(s, p, toks.push(t), pend);
                }
                match docs_from(s, p, toks.push(t), pend) {
                    Ok((patched, q)) => lex_from(s, q, patched, seq![]),
                    Err(e) => Err(e),
                }
            } else {
                lex_from(s, p, toks.push(t), pend)
            },
        }
    }
}

/// The token stream of a script, ending with `Eof`.
pub open spec fn tokens_of(s: Seq<char>) -> Result<Seq<TokV>, LexErrorV> {
    lex_from(s, 0, seq![], seq![])
}

// ---- positions only move forward ----

pub proof fn lemma_blank(s: Seq<char>, i: int)
    requires
        0 <= i <= s.len(),
    ensures
        i <= blank_end(s, i) <= s.len(),
        blank_end(s, i) < s.len() ==> s[blank_end(s, i)] != ' ' && s[blank_end(s, i)] != '\t',
    decreases s.len() - i,
{
    if i < s.len() && (s[i] == ' ' || s[i] == '\t') {
        lemma_blank(s, i + 1);
    } else if i + 1 < s.len() && s[i] == '\\' && s[i + 1] == '\n' {
        lemma_blank(s, i + 2);
    }
}

pub proof fn lemma_digits(s: Seq<char>, i: int)
    requires
        0 <= i <= s.len(),
    ensures
        i <= digits_end(s, i) <= s.len(),
        i < s.len() && text::is_digit(s[i]) ==> i < digits_end(s, i),
    decreases s.len() - i,
{
    if i < s.len() && text::is_digit(s[i]) {
        lemma_digits(s, i + 1);
    }
}

pub proof fn lemma_name_end(s: Seq<char>, i: int)
    requires
        0 <= i <= s.len(),
    ensures
        i <= name_end(s, i) <= s.len(),
        i < s.len() && text::is_name_char(s[i]) ==> i < name_end(s, i),
    decreases s.len() - i,
{
    if i < s.len() && text::is_name_char(s[i]) {
        lemma_name_end(s, i + 1);
    }
}

pub proof fn lemma_sub_end(s: Seq<char>, i: int, depth: nat, quote: Option<char>)
    requires
        0 <= i,
    ensures
        sub_end(s, i, depth, quote) matches Ok(e) ==> i <= e < s.len(),
    decreases s.len() + 1 - i,
{
    if i < s.len() {
        let c = s[i];
        lemma_sub_end(s, i + 1, depth, quote);
        lemma_sub_end(s, i + 1, depth, None);
        lemma_sub_end(s, i + 1, depth, Some(c));
        lemma_sub_end(s, i + 1, depth + 1, None);
        if depth > 1 {
            lemma_sub_end(s, i + 1, (depth - 1) as nat, None);
        }
        lemma_sub_end(s, i + 2, depth, None);
        lemma_sub_end(s, i + 2, depth, quote);
    }
}

pub proof fn lemma_dollar(s: Seq<char>, pos: int, quoted: bool)
    requires
        0 <= pos < s.len(),
    ensures
        dollar_at(s, pos, quoted) matches Ok((_, p)) ==> pos < p <= s.len(),
{
    let p = pos + 1;
    if p < s.len() {
        lemma_sub_end(s, p + 1, 1, None);
        text::lemma_index_from(s, '}', p + 1);
        lemma_name_end(s, p);
    }
}

pub proof fn lemma_dquote(s: Seq<char>, pos: int, run: Seq<char>, parts: WordV, had: nat)
    requires
        0 <= pos <= s.len(),
    ensures
        dquote_from(s, pos, run, parts, had) matches Ok((_, p)) ==> pos < p <= s.len(),
    decreases s.len() - pos,
{
    if pos < s.len() {
        if s[pos] == '"' {
        } else if s[pos] == '\\' {
            if pos + 1 < s.len() && (s[pos + 1] == '"' || s[pos + 1] == '\\' || s[pos + 1] == '$') {
                lemma_dquote(s, pos + 2, run.push(s[pos + 1]), parts, had);
            } else if pos + 1 < s.len() && s[pos + 1] == '\n' {
                lemma_dquote(s, pos + 2, run, parts, had);
            } else {
                lemma_dquote(s, pos + 1, run.push('\\'), parts, had);
            }
        } else if s[pos] == '$' {
            lemma_dollar(s, pos, true);
            if let Ok((part, p)) = dollar_at(s, pos, true) {
                lemma_dquote(s, p, seq![], flushed_quoted(run, parts).push(part), had);
            }
        } else {
            lemma_dquote(s, pos + 1, run.push(s[pos]), parts, had);
        }
    }
}

pub proof fn lemma_word(
    s: Seq<char>,
    pos: int,
    lit: Seq<char>,
    parts: WordV,
    cut: Option<int>,
    why: Option<Seq<char>>,
)
    requires
        0 <= pos <= s.len(),
    ensures
        word_from(s, pos, lit, parts, cut, why) matches Ok((_, _, p)) ==> {
            &&& pos <= p <= s.len()
            &&& pos < s.len() && !ends_word(s[pos]) ==> pos < p
        },
    decreases s.len() - pos,
{
    if pos < s.len() && !ends_word(s[pos]) {
        let mark = marked(cut, lit.len() as int);
        let all = flushed(lit, parts, cut);
        if s[pos] == '\'' {
            text::lemma_index_from(s, '\'', pos + 1);
            let e = text::index_from(s, '\'', pos + 1);
            if e < s.len() {
                lemma_word(s, e + 1, lit + s.subrange(pos + 1, e), parts, mark, why);
            }
        } else if s[pos] == '"' {
            lemma_dquote(s, pos + 1, seq![], all, all.len());
            if let Ok((ps, p)) = dquote_from(s, pos + 1, seq![], all, all.len()) {
                lemma_word(s, p, seq![], ps, None, why);
            }
        } else if s[pos] == '\\' {
            if pos + 1 < s.len() && s[pos + 1] != '\n' {
                lemma_word(s, pos + 2, lit.push(s[pos + 1]), parts, mark, why);
            } else {
                lemma_word(s, pos + 1, lit, parts, cut, why);
            }
        } else if s[pos] == '$' {
            lemma_dollar(s, pos, false);
            if let Ok((part, p)) = dollar_at(s, pos, false) {
                lemma_word(s, p, seq![], all.push(part), None, why);
            }
        } else {
            let more = refusal(s, pos, lit.len() == 0 && parts.len() == 0 && cut is None);
            lemma_word(s, pos + 1, lit.push(s[pos]), parts, cut, first_why(why, more));
        }
    }
}

pub proof fn lemma_delim(s: Seq<char>, pos: int, acc: Seq<char>, quoted: bool)
    requires
        0 <= pos <= s.len(),
    ensures
        delim_from(s, pos, acc, quoted) matches Ok((_, _, p)) ==> pos <= p <= s.len(),
    decreases s.len() - pos,
{
    if pos < s.len() && !ends_word(s[pos]) {
        if s[pos] == '\'' || s[pos] == '"' {
            text::lemma_index_from(s, s[pos], pos + 1);
            let e = text::index_from(s, s[pos], pos + 1);
            if e < s.len() {
                lemma_delim(s, e + 1, acc + s.subrange(pos + 1, e), true);
            }
        } else if s[pos] == '\\' {
            if pos + 1 < s.len() && s[pos + 1] != '\n' {
                lemma_delim(s, pos + 2, acc.push(s[pos + 1]), true);
            } else {
                lemma_delim(s, pos + 1, acc, true);
            }
        } else {
            lemma_delim(s, pos + 1, acc.push(s[pos]), quoted);
        }
    }
}

proof fn lemma_token(s: Seq<char>, p: int)
    requires
        0 <= p < s.len(),
        s[p] != ' ',
        s[p] != '\t',
    ensures
        token_at(s, p) matches Ok((_, e)) ==> p < e <= s.len(),
{
    lemma_digits(s, p);
    let e = digits_end(s, p);
    if e + 2 <= s.len() {
        lemma_digits(s, e + 2);
    }
    if p + 2 <= s.len() {
        lemma_digits(s, p + 2);
        let strip = p + 2 < s.len() && s[p + 2] == '-';
        let q = if strip {
            p + 3
        } else {
            p + 2
        };
        lemma_blank(s, q);
        lemma_delim(s, blank_end(s, q), seq![], false);
    }
    lemma_word(s, p, seq![], seq![], None, None);
}

/// Each token takes at least one character.
pub proof fn lemma_next(s: Seq<char>, pos: int)
    requires
        0 <= pos < s.len(),
    ensures
        next_from(s, pos) matches Ok((_, p)) ==> pos < p <= s.len(),
{
    lemma_blank(s, pos);
    let b = blank_end(s, pos);
    text::lemma_index_from(s, '\n', b);
    let p = if b < s.len() && s[b] == '#' {
        text::index_from(s, '\n', b)
    } else {
        b
    };
    if p < s.len() {
        lemma_token(s, p);
    }
}

proof fn lemma_doc_body(s: Seq<char>, pos: int, delim: Seq<char>, strip: bool, acc: Seq<char>)
    requires
        0 <= pos,
    ensures
        doc_body(s, pos, delim, strip, acc) matches Some((_, p)) ==> pos <= p <= s.len(),
    decreases s.len() + 1 - pos,
{
    if pos < s.len() {
        text::lemma_index_from(s, '\n', pos);
        let e = text::index_from(s, '\n', pos);
        let raw = s.subrange(pos, e);
        let line = if strip {
            text::trim_start(raw, '\t')
        } else {
            raw
        };
        lemma_doc_body(s, e + 1, delim, strip, acc + line.push('\n'));
    }
}

pub proof fn lemma_docs(s: Seq<char>, pos: int, toks: Seq<TokV>, pend: Seq<PendingV>)
    requires
        0 <= pos <= s.len(),
    ensures
        docs_from(s, pos, toks, pend) matches Ok((_, p)) ==> pos <= p <= s.len(),
    decreases pend.len(),
{
    if pend.len() > 0 {
        lemma_doc_body(s, pos, pend[0].delim, pend[0].strip, seq![]);
        if let Some((body, p)) = doc_body(s, pos, pend[0].delim, pend[0].strip, seq![]) {
            lemma_docs(
                s,
                p,
                toks.update(
                    pend[0].at,
                    TokV::Redir(RedirectTokV::Heredoc { fd: 0, body, expand: pend[0].expand }),
                ),
                pend.skip(1),
            );
        }
    }
}

// ---- the tokenizer ----

/// One token, or the start of a heredoc whose body is still to be read.
enum Lexeme {
    Tok(Tok),
    Doc { delim: Vec<char>, strip: bool, expand: bool },
}

impl View for Lexeme {
    type V = LexemeV;

    closed spec fn view(&self) -> LexemeV {
        match self {
            Lexeme::Tok(t) => LexemeV::Tok(t@),
            Lexeme::Doc { delim, strip, expand } => LexemeV::Doc {
                delim: delim@,
                strip: *strip,
                expand: *expand,
            },
        }
    }
}

struct Pending {
    at: usize,
    delim: Vec<char>,
    strip: bool,
    expand: bool,
}

impl View for Pending {
    type V = PendingV;

    closed spec fn view(&self) -> PendingV {
        PendingV { at: self.at as int, delim: self.delim@, strip: self.strip, expand: self.expand }
    }
}

spec fn pending_view(v: Seq<Pending>) -> Seq<PendingV> {
    v.map_values(|p: Pending| p@)
}

fn lex_error(pos: usize, msg: &str) -> (r: LexError)
    ensures
        r@ == bad(pos as int, msg@),
{
    LexError { pos, msg: text::owned(msg) }
}

fn word_ends(c: char) -> (r: bool)
    ensures
        r == ends_word(c),
{
    c == ' ' || c == '\t' || c == '\n' || c == ';' || c == '&' || c == '|' || c == '(' || c == ')'
        || c == '<' || c == '>'
}

fn skip_blank(src: &[char], from: usize) -> (r: usize)
    requires
        from <= src@.len(),
    ensures
        r == blank_end(src@, from as int),
        from <= r <= src@.len(),
{
    proof {
        lemma_blank(src@, from as int);
    }
    let mut i: usize = from;
    loop
        invariant
            from <= i <= src@.len(),
            blank_end(src@, from as int) == blank_end(src@, i as int),
        ensures
            i == blank_end(src@, from as int),
        decreases src@.len() - i,
    {
        if i < src.len() && (src[i] == ' ' || src[i] == '\t') {
            i = i + 1;
        } else if src.len() - i >= 2 && src[i] == '\\' && src[i + 1] == '\n' {
            i = i + 2;
        } else {
            break;
        }
    }
    i
}

fn skip_digits(src: &[char], from: usize) -> (r: usize)
    requires
        from <= src@.len(),
    ensures
        r == digits_end(src@, from as int),
        from <= r <= src@.len(),
{
    let mut i: usize = from;
    while i < src.len() && text::digit(src[i])
        invariant
            from <= i <= src@.len(),
            digits_end(src@, from as int) == digits_end(src@, i as int),
        decreases src@.len() - i,
    {
        i = i + 1;
    }
    i
}

pub fn skip_name(src: &[char], from: usize) -> (r: usize)
    requires
        from <= src@.len(),
    ensures
        r == name_end(src@, from as int),
        from <= r <= src@.len(),
{
    let mut i: usize = from;
    while i < src.len() && text::name_char(src[i])
        invariant
            from <= i <= src@.len(),
            name_end(src@, from as int) == name_end(src@, i as int),
        decreases src@.len() - i,
    {
        i = i + 1;
    }
    i
}

fn read_fd(src: &[char], from: usize, to: usize) -> (r: u32)
    requires
        from <= to <= src@.len(),
    ensures
        r == fd_number(src@.subrange(from as int, to as int)),
{
    let digits = vstd::slice::slice_subrange(src, from, to);
    assert(digits@.skip(0) =~= digits@);
    match text::parse_natural(digits, 0) {
        Some(v) => if v <= 4294967295 {
            v as u32
        } else {
            0
        },
        None => 0,
    }
}

/// The `)` that closes `$( ... )`, tracking nested parens and quotes, or the
/// position at which none was found.
pub fn scan_command_sub(src: &[char], from: usize) -> (r: Result<usize, usize>)
    requires
        1 <= from <= src@.len(),
    ensures
        match r {
            Ok(e) => sub_end(src@, from as int, 1, None) == Ok::<int, int>(e as int) && from <= e
                < src@.len(),
            Err(e) => sub_end(src@, from as int, 1, None) matches Err(i) && e == position(i),
        },
{
    let mut depth: usize = 1;
    let mut quote: Option<char> = None;
    let mut i: usize = from;
    while i < src.len()
        invariant
            1 <= from <= i <= src@.len(),
            1 <= depth <= i - from + 1,
            sub_end(src@, from as int, 1, None) == sub_end(src@, i as int, depth as nat, quote),
        decreases src@.len() - i,
    {
        let c = src[i];
        let mut step: usize = 1;
        match quote {
            Some(q) => {
                if c == q {
                    quote = None;
                } else if q == '"' && c == '\\' {
                    step = 2;
                }
            },
            None => {
                if c == '\'' || c == '"' {
                    quote = Some(c);
                } else if c == '(' {
                    depth = depth + 1;
                } else if c == ')' {
                    if depth == 1 {
                        return Ok(i);
                    }
                    depth = depth - 1;
                } else if c == '\\' {
                    step = 2;
                }
            },
        }
        assert(sub_end(src@, from as int, 1, None) == sub_end(
            src@,
            i + step,
            depth as nat,
            quote,
        ));
        if src.len() - i < step {
            return Err(src.len().saturating_add(1));
        }
        i = i + step;
    }
    Err(i)
}

/// Scan a `$`-expansion: `$NAME`, `${NAME}`, `$?` or `$(...)`.
fn scan_dollar(src: &[char], pos: usize, quoted: bool) -> (r: Result<(WordPart, usize), LexError>)
    requires
        pos < src@.len(),
    ensures
        match r {
            Ok((part, p)) => dollar_at(src@, pos as int, quoted) == Ok::<(PartV, int), LexErrorV>(
                (part@, p as int),
            ) && pos < p <= src@.len(),
            Err(e) => dollar_at(src@, pos as int, quoted) == Err::<(PartV, int), LexErrorV>(e@),
        },
{
    proof {
        lemma_dollar(src@, pos as int, quoted);
    }
    let n: usize = src.len();
    let p: usize = pos + 1;
    if p >= n || !(src[p] == '(' || src[p] == '{' || src[p] == '?' || src[p] == '#'
        || text::name_char(src[p])) {
        let mut s = String::new();
        s.push('$');
        assert(s@ =~= seq!['$']);
        return if quoted {
            Ok((WordPart::Quoted(s), p))
        } else {
            Ok((WordPart::Lit(s), p))
        };
    }
    let c = src[p];
    if c == '(' {
        match scan_command_sub(src, p + 1) {
            Ok(e) => {
                let inner = text::string_of(src, p + 1, e);
                if quoted {
                    Ok((WordPart::SubQuotedRaw(inner), e + 1))
                } else {
                    Ok((WordPart::SubRaw(inner), e + 1))
                }
            },
            Err(e) => Err(lex_error(e, "unterminated $(")),
        }
    } else {
        let name;
        let end: usize;
        if c == '{' {
            let e = text::find_from(src, '}', p + 1);
            if e >= src.len() {
                return Err(lex_error(src.len(), "unterminated ${...}"));
            }
            name = text::string_of(src, p + 1, e);
            end = e + 1;
        } else if c == '?' || c == '#' {
            name = text::string_of(src, p, p + 1);
            assert(name@ =~= seq![c]);
            end = p + 1;
        } else {
            let e = skip_name(src, p);
            name = text::string_of(src, p, e);
            end = e;
        }
        if quoted {
            Ok((WordPart::VarQuoted(name), end))
        } else {
            Ok((WordPart::Var(name), end))
        }
    }
}

pub open spec fn cut_view(cut: Option<usize>) -> Option<int> {
    match cut {
        Some(k) => Some(k as int),
        None => None,
    }
}

fn hidden(lit: &str, cut: Option<usize>) -> (r: bool)
    ensures
        r == hides(lit@, cut_view(cut)),
{
    match cut {
        None => false,
        Some(k) => {
            if ast::reserved(lit) {
                return true;
            }
            let c = text::chars_of(lit);
            let eq = text::find_from(&c, '=', 0);
            if eq >= c.len() || eq < k {
                return false;
            }
            let name = text::string_of(&c, 0, eq);
            assert(name@ =~= lit@.take(eq as int));
            text::valid_name(name.as_str())
        },
    }
}

fn flush(lit: String, cut: Option<usize>, parts: &mut Vec<WordPart>)
    ensures
        ast::parts_view(final(parts)@) == flushed(
            lit@,
            ast::parts_view(old(parts)@),
            cut_view(cut),
        ),
{
    if !lit.as_str().is_empty() {
        if parts.len() == 0 && hidden(lit.as_str(), cut) {
            let empty = String::new();
            assert(empty@ =~= seq![]);
            parts.push(WordPart::Lit(empty));
            parts.push(WordPart::Lit(lit));
            assert(ast::parts_view(parts@) =~= seq![PartV::Lit(seq![]), PartV::Lit(lit@)]);
        } else {
            parts.push(WordPart::Lit(lit));
        }
    }
}

/// Scan the inside of double quotes; returns the position behind the closing
/// quote.
fn scan_dquote(src: &[char], from: usize, parts: &mut Vec<WordPart>) -> (r: Result<usize, LexError>)
    requires
        from <= src@.len(),
    ensures
        ({
            let had = ast::parts_view(old(parts)@);
            match r {
                Ok(p) => dquote_from(src@, from as int, seq![], had, had.len()) == Ok::<
                    (WordV, int),
                    LexErrorV,
                >((ast::parts_view(final(parts)@), p as int)) && from < p <= src@.len(),
                Err(e) => dquote_from(src@, from as int, seq![], had, had.len()) == Err::<
                    (WordV, int),
                    LexErrorV,
                >(e@),
            }
        }),
{
    let n: usize = parts.len();
    let ghost had = ast::parts_view(parts@);
    let ghost whole = dquote_from(src@, from as int, seq![], had, had.len());
    proof {
        lemma_dquote(src@, from as int, seq![], had, had.len());
    }
    let mut run = String::new();
    assert(run@ =~= seq![]);
    let mut i: usize = from;
    while i < src.len()
        invariant
            from <= i <= src@.len(),
            n == had.len(),
            had == ast::parts_view(old(parts)@),
            whole == dquote_from(src@, i as int, run@, ast::parts_view(parts@), had.len()),
            whole matches Ok((_, p)) ==> from < p <= src@.len(),
            whole == dquote_from(src@, from as int, seq![], had, had.len()),
        decreases src@.len() - i,
    {
        let c = src[i];
        if c == '"' {
            if parts.len() <= n || !run.as_str().is_empty() {
                parts.push(WordPart::Quoted(run));
            }
            return Ok(i + 1);
        } else if c == '\\' {
            let two = src.len() - i >= 2;
            if two && (src[i + 1] == '"' || src[i + 1] == '\\' || src[i + 1] == '$') {
                run.push(src[i + 1]);
                i = i + 2;
            } else if two && src[i + 1] == '\n' {
                i = i + 2;
            } else {
                run.push('\\');
                i = i + 1;
            }
        } else if c == '$' {
            if !run.as_str().is_empty() {
                parts.push(WordPart::Quoted(run));
            }
            match scan_dollar(src, i, true) {
                Ok((part, p)) => {
                    parts.push(part);
                    i = p;
                },
                Err(e) => {
                    return Err(e);
                },
            }
            run = String::new();
            assert(run@ =~= seq![]);
        } else {
            run.push(c);
            i = i + 1;
        }
    }
    Err(lex_error(src.len(), "unterminated double quote"))
}

/// Why a word with this unquoted character is refused where patterns are expanded,
/// if it is.
fn refused(src: &[char], pos: usize, fresh: bool) -> (r: Option<&'static str>)
    requires
        pos < src@.len(),
    ensures
        match r {
            Some(msg) => refusal(src@, pos as int, fresh) == Some(msg@),
            None => refusal(src@, pos as int, fresh) is None,
        },
{
    let c = src[pos];
    if c == '*' || c == '?' {
        return Some("globbing is not supported");
    }
    if c != '[' {
        return None;
    }
    let last = src.len() - pos < 2;
    if fresh && (last || word_ends(src[pos + 1])) {
        return None;
    }
    if !last && src[pos + 1] == '[' {
        Some("[[ ]] is not supported")
    } else {
        Some("globbing and arrays are not supported")
    }
}

pub open spec fn why_view(why: Option<&'static str>) -> Option<Seq<char>> {
    match why {
        Some(msg) => Some(msg@),
        None => None,
    }
}

fn scan_word(src: &[char], from: usize) -> (r: Result<
    (Word, Option<&'static str>, usize),
    LexError,
>)
    requires
        from <= src@.len(),
    ensures
        match r {
            Ok((w, why, p)) => word_from(src@, from as int, seq![], seq![], None, None) == Ok::<
                (WordV, Option<Seq<char>>, int),
                LexErrorV,
            >((w@, why_view(why), p as int)) && from <= p <= src@.len(),
            Err(e) => word_from(src@, from as int, seq![], seq![], None, None) == Err::<
                (WordV, Option<Seq<char>>, int),
                LexErrorV,
            >(e@),
        },
{
    let ghost whole = word_from(src@, from as int, seq![], seq![], None, None);
    let mut parts: Vec<WordPart> = Vec::new();
    let mut lit = String::new();
    let mut size: usize = 0;
    let mut cut: Option<usize> = None;
    let mut why: Option<&'static str> = None;
    let mut i: usize = from;
    assert(ast::parts_view(parts@) =~= seq![]);
    assert(lit@ =~= seq![]);
    while i < src.len() && !word_ends(src[i])
        invariant
            from <= i <= src@.len(),
            size == lit@.len() <= i - from,
            whole == word_from(src@, from as int, seq![], seq![], None, None),
            whole == word_from(
                src@,
                i as int,
                lit@,
                ast::parts_view(parts@),
                cut_view(cut),
                why_view(why),
            ),
        decreases src@.len() - i,
    {
        let c = src[i];
        if c == '\'' {
            let e = text::find_from(src, '\'', i + 1);
            if e >= src.len() {
                return Err(lex_error(src.len(), "unterminated single quote"));
            }
            let content = text::string_of(src, i + 1, e);
            lit.append(content.as_str());
            if cut.is_none() {
                cut = Some(size);
            }
            size = size + (e - i - 1);
            i = e + 1;
        } else if c == '"' {
            flush(lit, cut, &mut parts);
            match scan_dquote(src, i + 1, &mut parts) {
                Ok(p) => {
                    i = p;
                },
                Err(e) => {
                    return Err(e);
                },
            }
            lit = String::new();
            assert(lit@ =~= seq![]);
            size = 0;
            cut = None;
        } else if c == '\\' {
            i = i + 1;
            if i < src.len() && src[i] != '\n' {
                lit.push(src[i]);
                if cut.is_none() {
                    cut = Some(size);
                }
                size = size + 1;
                i = i + 1;
            }
        } else if c == '$' {
            flush(lit, cut, &mut parts);
            match scan_dollar(src, i, false) {
                Ok((part, p)) => {
                    parts.push(part);
                    i = p;
                },
                Err(e) => {
                    return Err(e);
                },
            }
            lit = String::new();
            assert(lit@ =~= seq![]);
            size = 0;
            cut = None;
        } else {
            let more = refused(src, i, size == 0 && parts.len() == 0 && cut.is_none());
            if why.is_none() {
                why = more;
            }
            lit.push(c);
            size = size + 1;
            i = i + 1;
        }
    }
    flush(lit, cut, &mut parts);
    if parts.len() == 0 {
        // Only reachable for empty quoting like `''`.
        let empty = String::new();
        assert(empty@ =~= seq![]);
        parts.push(WordPart::Lit(empty));
        assert(ast::parts_view(parts@) =~= seq![PartV::Lit(seq![])]);
    }
    Ok((Word { parts }, why, i))
}

/// Scan the delimiter of a heredoc and drop its quotes.
fn scan_delim(src: &[char], from: usize) -> (r: Result<(Vec<char>, bool, usize), LexError>)
    requires
        from <= src@.len(),
    ensures
        match r {
            Ok((d, quoted, p)) => delim_from(src@, from as int, seq![], false) == Ok::<
                (Seq<char>, bool, int),
                LexErrorV,
            >((d@, quoted, p as int)) && from <= p <= src@.len(),
            Err(e) => delim_from(src@, from as int, seq![], false) == Err::<
                (Seq<char>, bool, int),
                LexErrorV,
            >(e@),
        },
{
    let ghost whole = delim_from(src@, from as int, seq![], false);
    let mut acc: Vec<char> = Vec::new();
    let mut quoted = false;
    let mut i: usize = from;
    assert(acc@ =~= seq![]);
    while i < src.len() && !word_ends(src[i])
        invariant
            from <= i <= src@.len(),
            whole == delim_from(src@, from as int, seq![], false),
            whole == delim_from(src@, i as int, acc@, quoted),
        decreases src@.len() - i,
    {
        let c = src[i];
        if c == '\'' || c == '"' {
            let e = text::find_from(src, c, i + 1);
            if e >= src.len() {
                if c == '"' {
                    return Err(lex_error(src.len(), "unterminated double quote"));
                }
                return Err(lex_error(src.len(), "unterminated single quote"));
            }
            let mut inner = vstd::slice::slice_to_vec(vstd::slice::slice_subrange(src, i + 1, e));
            acc.append(&mut inner);
            quoted = true;
            i = e + 1;
        } else if c == '\\' {
            quoted = true;
            i = i + 1;
            if i < src.len() && src[i] != '\n' {
                acc.push(src[i]);
                i = i + 1;
            }
        } else {
            acc.push(c);
            i = i + 1;
        }
    }
    Ok((acc, quoted, i))
}

fn scan_heredoc(src: &[char], pos: usize) -> (r: Result<(Lexeme, usize), LexError>)
    requires
        pos <= src@.len(),
    ensures
        match r {
            Ok((l, p)) => heredoc_at(src@, pos as int) == Ok::<(LexemeV, int), LexErrorV>(
                (l@, p as int),
            ) && p <= src@.len(),
            Err(e) => heredoc_at(src@, pos as int) == Err::<(LexemeV, int), LexErrorV>(e@),
        },
{
    let strip = pos < src.len() && src[pos] == '-';
    let from: usize = if strip {
        pos + 1
    } else {
        pos
    };
    let p = skip_blank(src, from);
    match scan_delim(src, p) {
        Ok((delim, quoted, e)) => {
            if delim.len() == 0 && !quoted {
                Err(lex_error(e, "unterminated heredoc"))
            } else {
                Ok((Lexeme::Doc { delim, strip, expand: !quoted }, e))
            }
        },
        Err(e) => Err(e),
    }
}

fn scan_output_redirect(src: &[char], fd: u32, pos: usize) -> (r: (RedirectTok, usize))
    requires
        pos < src@.len(),
    ensures
        (redir(r.0@), r.1 as int) == output_redirect(src@, fd, pos as int),
        pos < r.1 <= src@.len(),
{
    if src.len() - pos >= 2 && src[pos + 1] == '>' {
        (RedirectTok::Out { fd, append: true }, pos + 2)
    } else if src.len() - pos >= 2 && src[pos + 1] == '&' {
        let e = skip_digits(src, pos + 2);
        let to = read_fd(src, pos + 2, e);
        (RedirectTok::Dup { fd, to }, e)
    } else {
        (RedirectTok::Out { fd, append: false }, pos + 1)
    }
}

/// A leading digit run directly followed by a redirect operator becomes an
/// fd-qualified redirect (`2>`, `2>>`, `2>&1`); otherwise `None` and the
/// digit run is lexed as an ordinary word.
fn try_digit_redirect(src: &[char], pos: usize) -> (r: Option<(RedirectTok, usize)>)
    requires
        pos <= src@.len(),
    ensures
        match r {
            Some((t, p)) => digit_redirect(src@, pos as int) == Some((redir(t@), p as int)) && p
                <= src@.len(),
            None => digit_redirect(src@, pos as int) is None,
        },
{
    let e = skip_digits(src, pos);
    let fd = read_fd(src, pos, e);
    if e >= src.len() {
        None
    } else if src[e] == '>' {
        Some(scan_output_redirect(src, fd, e))
    } else if src[e] == '<' {
        Some((RedirectTok::In { fd }, e + 1))
    } else if src[e] == '&' && src.len() - e >= 2 && src[e + 1] == '>' {
        let f = skip_digits(src, e + 2);
        let to = read_fd(src, e + 2, f);
        Some((RedirectTok::Dup { fd, to }, f))
    } else {
        None
    }
}

fn next(src: &[char], pos: usize) -> (r: Result<(Lexeme, usize), LexError>)
    requires
        pos < src@.len(),
    ensures
        match r {
            Ok((l, p)) => next_from(src@, pos as int) == Ok::<(LexemeV, int), LexErrorV>(
                (l@, p as int),
            ) && pos < p <= src@.len(),
            Err(e) => next_from(src@, pos as int) == Err::<(LexemeV, int), LexErrorV>(e@),
        },
{
    proof {
        lemma_next(src@, pos as int);
    }
    let b = skip_blank(src, pos);
    let p: usize = if b < src.len() && src[b] == '#' {
        text::find_from(src, '\n', b)
    } else {
        b
    };
    if p >= src.len() {
        return Ok((Lexeme::Tok(Tok::Eof), p));
    }
    let c = src[p];
    if text::digit(c) {
        if let Some((t, e)) = try_digit_redirect(src, p) {
            return Ok((Lexeme::Tok(Tok::Redir(t)), e));
        }
    }
    let again = src.len() - p >= 2 && src[p + 1] == c;
    if c == '\n' {
        Ok((Lexeme::Tok(Tok::Newline), p + 1))
    } else if c == ';' {
        Ok((Lexeme::Tok(Tok::Semi), p + 1))
    } else if c == '&' {
        if again {
            Ok((Lexeme::Tok(Tok::And), p + 2))
        } else {
            Ok((Lexeme::Tok(Tok::Amp), p + 1))
        }
    } else if c == '|' {
        if again {
            Ok((Lexeme::Tok(Tok::Or), p + 2))
        } else {
            Ok((Lexeme::Tok(Tok::Pipe), p + 1))
        }
    } else if c == '(' {
        Ok((Lexeme::Tok(Tok::LParen), p + 1))
    } else if c == ')' {
        Ok((Lexeme::Tok(Tok::RParen), p + 1))
    } else if c == '<' {
        if again {
            if src.len() - p >= 3 && src[p + 2] == '<' {
                Ok((Lexeme::Tok(Tok::Redir(RedirectTok::HereString { fd: 0 })), p + 3))
            } else {
                scan_heredoc(src, p + 2)
            }
        } else {
            Ok((Lexeme::Tok(Tok::Redir(RedirectTok::In { fd: 0 })), p + 1))
        }
    } else if c == '>' {
        let (t, e) = scan_output_redirect(src, 1, p);
        Ok((Lexeme::Tok(Tok::Redir(t)), e))
    } else {
        match scan_word(src, p) {
            Ok((w, None, e)) => Ok((Lexeme::Tok(Tok::Word(w)), e)),
            Ok((word, Some(msg), e)) => Ok(
                (Lexeme::Tok(Tok::Pattern { word, why: text::owned(msg) }), e),
            ),
            Err(e) => Err(e),
        }
    }
}

fn read_doc(src: &[char], from: usize, delim: &[char], strip: bool) -> (r: Option<(String, usize)>)
    requires
        from <= src@.len(),
    ensures
        match r {
            Some((body, p)) => doc_body(src@, from as int, delim@, strip, seq![]) == Some(
                (body@, p as int),
            ) && from <= p <= src@.len(),
            None => doc_body(src@, from as int, delim@, strip, seq![]) is None,
        },
{
    let ghost whole = doc_body(src@, from as int, delim@, strip, seq![]);
    proof {
        lemma_doc_body(src@, from as int, delim@, strip, seq![]);
    }
    let mut acc = String::new();
    let mut i: usize = from;
    assert(acc@ =~= seq![]);
    while i < src.len()
        invariant
            from <= i <= src@.len(),
            whole == doc_body(src@, from as int, delim@, strip, seq![]),
            whole == doc_body(src@, i as int, delim@, strip, acc@),
            whole matches Some((_, p)) ==> from <= p <= src@.len(),
        decreases src@.len() - i,
    {
        let e = text::find_from(src, '\n', i);
        let raw = text::string_of(src, i, e);
        let line = if strip {
            text::trimmed_start(raw.as_str(), '\t')
        } else {
            raw
        };
        if text::same_chars(&text::chars_of(line.as_str()), delim) {
            return Some((
                acc,
                if e < src.len() {
                    e + 1
                } else {
                    e
                },
            ));
        }
        if e >= src.len() {
            assert(doc_body(src@, e + 1, delim@, strip, acc@ + line@.push('\n')) is None);
            return None;
        }
        let ghost before = acc@;
        acc.append(line.as_str());
        acc.push('\n');
        assert(acc@ =~= before + line@.push('\n'));
        i = e + 1;
    }
    None
}

/// Read the bodies of the pending heredocs into their tokens.
fn read_docs(src: &[char], from: usize, out: &mut Vec<Tok>, pend: &[Pending]) -> (r: Result<
    usize,
    LexError,
>)
    requires
        from <= src@.len(),
        forall|k: int| 0 <= k < pend@.len() ==> (#[trigger] pend@[k]).at < old(out)@.len(),
    ensures
        match r {
            Ok(p) => docs_from(src@, from as int, toks_view(old(out)@), pending_view(pend@)) == Ok::<
                (Seq<TokV>, int),
                LexErrorV,
            >((toks_view(final(out)@), p as int)) && from <= p <= src@.len(),
            Err(e) => docs_from(src@, from as int, toks_view(old(out)@), pending_view(pend@))
                == Err::<(Seq<TokV>, int), LexErrorV>(e@),
        },
{
    let ghost whole = docs_from(src@, from as int, toks_view(out@), pending_view(pend@));
    let mut k: usize = 0;
    let mut p: usize = from;
    assert(pending_view(pend@).skip(0) =~= pending_view(pend@));
    while k < pend.len()
        invariant
            k <= pend@.len(),
            from <= p <= src@.len(),
            out@.len() == old(out)@.len(),
            forall|j: int| 0 <= j < pend@.len() ==> (#[trigger] pend@[j]).at < old(out)@.len(),
            whole == docs_from(
                src@,
                from as int,
                toks_view(old(out)@),
                pending_view(pend@),
            ),
            whole == docs_from(
                src@,
                p as int,
                toks_view(out@),
                pending_view(pend@).skip(k as int),
            ),
        decreases pend@.len() - k,
    {
        let d = &pend[k];
        assert(pending_view(pend@).skip(k as int)[0] == pend@[k as int]@);
        assert(pending_view(pend@).skip(k as int).skip(1) =~= pending_view(pend@).skip(k + 1));
        match read_doc(src, p, &d.delim, d.strip) {
            Some((body, q)) => {
                let t = Tok::Redir(RedirectTok::Heredoc { fd: 0, body, expand: d.expand });
                let ghost before = toks_view(out@);
                out.set(d.at, t);
                assert(toks_view(out@) =~= before.update(d.at as int, t@));
                p = q;
            },
            None => {
                return Err(lex_error(src.len(), "unterminated heredoc"));
            },
        }
        k = k + 1;
    }
    Ok(p)
}

/// Tokenize `src` into a stream ending with `Eof`.
pub fn lex(src: &str) -> (r: Result<Vec<Tok>, LexError>)
    ensures
        match r {
            Ok(v) => {
                &&& tokens_of(src@) == Ok::<Seq<TokV>, LexErrorV>(toks_view(v@))
                &&& v@.len() > 0
                &&& v@.last() is Eof
            },
            Err(e) => tokens_of(src@) == Err::<Seq<TokV>, LexErrorV>(e@),
        },
{
    let chars = text::chars_of(src);
    let mut out: Vec<Tok> = Vec::new();
    let mut pend: Vec<Pending> = Vec::new();
    let mut pos: usize = 0;
    assert(toks_view(out@) =~= seq![]);
    assert(pending_view(pend@) =~= seq![]);
    while pos < chars.len()
        invariant
            chars@ == src@,
            pos <= chars@.len(),
            forall|k: int| 0 <= k < pend@.len() ==> (#[trigger] pend@[k]).at < out@.len(),
            tokens_of(src@) == lex_from(
                src@,
                pos as int,
                toks_view(out@),
                pending_view(pend@),
            ),
        decreases chars@.len() - pos,
    {
        match next(&chars, pos) {
            Err(e) => {
                return Err(e);
            },
            Ok((Lexeme::Doc { delim, strip, expand }, p)) => {
                let empty = String::new();
                assert(empty@ =~= seq![]);
                let at: usize = out.len();
                out.push(Tok::Redir(RedirectTok::Heredoc { fd: 0, body: empty, expand }));
                pend.push(Pending { at, delim, strip, expand });
                pos = p;
            },
            Ok((Lexeme::Tok(t), p)) => {
                let newline = matches!(t, Tok::Newline);
                out.push(t);
                if newline && pend.len() > 0 {
                    match read_docs(&chars, p, &mut out, &pend) {
                        Ok(q) => {
                            pos = q;
                        },
                        Err(e) => {
                            return Err(e);
                        },
                    }
                    pend = Vec::new();
                    assert(pending_view(pend@) =~= seq![]);
                } else {
                    pos = p;
                }
            },
        }
    }
    if pend.len() > 0 {
        return Err(lex_error(chars.len(), "unterminated heredoc"));
    }
    out.push(Tok::Eof);
    Ok(out)
}

} // verus!
