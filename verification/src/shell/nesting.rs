//! Scripts inside scripts: what a `$(...)` holds is shorter than the script that it
//! stands in, and a script parses exactly when its tokens, its grammar and all the
//! scripts inside it are of the supported subset.
use crate::shell::ast::{PartV, WordV};
use crate::shell::heredoc;
use crate::shell::lexer;
use crate::shell::lexer::{LexemeV, PendingV, RedirectTokV, TokV};
use crate::shell::parser;
use crate::text;
use vstd::prelude::*;

verus! {

/// The parts of a token that are expanded when the command runs.
pub open spec fn expansions(tok: TokV) -> WordV {
    match tok {
        TokV::Word(w) => w,
        TokV::Pattern { word, why } => word,
        TokV::Redir(RedirectTokV::Heredoc { fd, body, expand }) => if expand {
            heredoc::doc_word(body)
        } else {
            seq![]
        },
        _ => seq![],
    }
}

/// The script in a part, where it is a `$(...)`.
pub open spec fn inner_script(p: PartV) -> Option<Seq<char>> {
    match p {
        PartV::SubRaw(src) => Some(src),
        PartV::SubQuotedRaw(src) => Some(src),
        _ => None,
    }
}

/// The name in a part, where it is a variable.
pub open spec fn variable(p: PartV) -> Option<Seq<char>> {
    match p {
        PartV::Var(name) => Some(name),
        PartV::VarQuoted(name) => Some(name),
        _ => None,
    }
}

/// A part of the supported subset: a variable is a name, a `$(...)` is no
/// arithmetic and holds a script that parses.
pub open spec fn is_supported(p: PartV) -> bool {
    &&& variable(p) matches Some(name) ==> parser::is_parameter(name)
    &&& inner_script(p) matches Some(src) ==> {
        &&& !parser::is_arithmetic(src)
        &&& parser::commands_of(src) is Ok
    }
}

spec fn short(p: PartV, n: nat) -> bool {
    inner_script(p) matches Some(src) ==> src.len() < n
}

spec fn all_short(w: WordV, n: nat) -> bool {
    forall|i: int| 0 <= i < w.len() ==> short(#[trigger] w[i], n)
}

spec fn token_short(tok: TokV, n: nat) -> bool {
    match tok {
        TokV::Word(w) => all_short(w, n),
        TokV::Pattern { word, why } => all_short(word, n),
        TokV::Redir(RedirectTokV::Heredoc { fd, body, expand }) => body.len() <= n,
        _ => true,
    }
}

spec fn tokens_short(t: Seq<TokV>, n: nat) -> bool {
    forall|i: int| 0 <= i < t.len() ==> token_short(#[trigger] t[i], n)
}

/// The pending heredocs have their tokens among the first `n`.
spec fn placed(pend: Seq<PendingV>, n: nat) -> bool {
    forall|i: int| 0 <= i < pend.len() ==> 0 <= (#[trigger] pend[i]).at < n
}

proof fn lemma_dollar_short(s: Seq<char>, pos: int, quoted: bool)
    requires
        0 <= pos < s.len(),
    ensures
        lexer::dollar_at(s, pos, quoted) matches Ok((part, _)) ==> short(part, s.len()),
{
    if pos + 1 < s.len() {
        lexer::lemma_sub_end(s, pos + 2, 1, None);
    }
}

proof fn lemma_dquote_short(s: Seq<char>, pos: int, run: Seq<char>, parts: WordV, had: nat)
    requires
        0 <= pos <= s.len(),
        all_short(parts, s.len()),
    ensures
        lexer::dquote_from(s, pos, run, parts, had) matches Ok((w, _)) ==> all_short(w, s.len()),
    decreases s.len() - pos,
{
    if pos < s.len() {
        if s[pos] == '"' {
        } else if s[pos] == '\\' {
            if pos + 1 < s.len() && (s[pos + 1] == '"' || s[pos + 1] == '\\' || s[pos + 1] == '$') {
                lemma_dquote_short(s, pos + 2, run.push(s[pos + 1]), parts, had);
            } else if pos + 1 < s.len() && s[pos + 1] == '\n' {
                lemma_dquote_short(s, pos + 2, run, parts, had);
            } else {
                lemma_dquote_short(s, pos + 1, run.push('\\'), parts, had);
            }
        } else if s[pos] == '$' {
            lexer::lemma_dollar(s, pos, true);
            lemma_dollar_short(s, pos, true);
            if let Ok((part, p)) = lexer::dollar_at(s, pos, true) {
                let more = lexer::flushed_quoted(run, parts).push(part);
                assert(all_short(more, s.len()));
                lemma_dquote_short(s, p, seq![], more, had);
            }
        } else {
            lemma_dquote_short(s, pos + 1, run.push(s[pos]), parts, had);
        }
    }
}

proof fn lemma_word_short(
    s: Seq<char>,
    pos: int,
    lit: Seq<char>,
    parts: WordV,
    cut: Option<int>,
    why: Option<Seq<char>>,
)
    requires
        0 <= pos <= s.len(),
        all_short(parts, s.len()),
    ensures
        lexer::word_from(s, pos, lit, parts, cut, why) matches Ok((w, _, _)) ==> all_short(w, s.len()),
    decreases s.len() - pos,
{
    let all = lexer::flushed(lit, parts, cut);
    assert(all_short(all, s.len()));
    if pos < s.len() && !lexer::ends_word(s[pos]) {
        let mark = lexer::marked(cut, lit.len() as int);
        if s[pos] == '\'' {
            text::lemma_index_from(s, '\'', pos + 1);
            let e = text::index_from(s, '\'', pos + 1);
            if e < s.len() {
                lemma_word_short(s, e + 1, lit + s.subrange(pos + 1, e), parts, mark, why);
            }
        } else if s[pos] == '"' {
            lexer::lemma_dquote(s, pos + 1, seq![], all, all.len());
            lemma_dquote_short(s, pos + 1, seq![], all, all.len());
            if let Ok((ps, p)) = lexer::dquote_from(s, pos + 1, seq![], all, all.len()) {
                lemma_word_short(s, p, seq![], ps, None, why);
            }
        } else if s[pos] == '\\' {
            if pos + 1 < s.len() && s[pos + 1] != '\n' {
                lemma_word_short(s, pos + 2, lit.push(s[pos + 1]), parts, mark, why);
            } else {
                lemma_word_short(s, pos + 1, lit, parts, cut, why);
            }
        } else if s[pos] == '$' {
            lexer::lemma_dollar(s, pos, false);
            lemma_dollar_short(s, pos, false);
            if let Ok((part, p)) = lexer::dollar_at(s, pos, false) {
                assert(all_short(all.push(part), s.len()));
                lemma_word_short(s, p, seq![], all.push(part), None, why);
            }
        } else {
            let more = lexer::refusal(
                s,
                pos,
                lit.len() == 0 && parts.len() == 0 && cut is None,
            );
            lemma_word_short(
                s,
                pos + 1,
                lit.push(s[pos]),
                parts,
                cut,
                lexer::first_why(why, more),
            );
        }
    }
}

proof fn lemma_next_short(s: Seq<char>, pos: int)
    requires
        0 <= pos < s.len(),
    ensures
        lexer::next_from(s, pos) matches Ok((LexemeV::Tok(t), _)) ==> token_short(t, s.len()),
{
    lexer::lemma_blank(s, pos);
    let b = lexer::blank_end(s, pos);
    text::lemma_index_from(s, '\n', b);
    let p = if b < s.len() && s[b] == '#' {
        text::index_from(s, '\n', b)
    } else {
        b
    };
    if p < s.len() {
        lemma_word_short(s, p, seq![], seq![], None, None);
    }
}

proof fn lemma_trim_short(s: Seq<char>, c: char)
    ensures
        text::trim_start(s, c).len() <= s.len(),
    decreases s.len(),
{
    if s.len() > 0 && s[0] == c {
        lemma_trim_short(s.skip(1), c);
    }
}

proof fn lemma_body_short(s: Seq<char>, pos: int, delim: Seq<char>, strip: bool, acc: Seq<char>)
    requires
        0 <= pos,
    ensures
        lexer::doc_body(s, pos, delim, strip, acc) matches Some((body, p)) ==> {
            &&& pos <= p <= s.len()
            &&& body.len() <= acc.len() + (p - pos)
        },
    decreases s.len() + 1 - pos,
{
    if pos < s.len() {
        text::lemma_index_from(s, '\n', pos);
        let e = text::index_from(s, '\n', pos);
        let raw = s.subrange(pos, e);
        lemma_trim_short(raw, '\t');
        let line = if strip {
            text::trim_start(raw, '\t')
        } else {
            raw
        };
        lemma_body_short(s, e + 1, delim, strip, acc + line.push('\n'));
    }
}

proof fn lemma_docs_short(s: Seq<char>, pos: int, toks: Seq<TokV>, pend: Seq<PendingV>)
    requires
        0 <= pos <= s.len(),
        tokens_short(toks, s.len()),
        placed(pend, toks.len()),
    ensures
        lexer::docs_from(s, pos, toks, pend) matches Ok((t, _)) ==> tokens_short(t, s.len()),
    decreases pend.len(),
{
    if pend.len() > 0 {
        let first = pend[0];
        lemma_body_short(s, pos, first.delim, first.strip, seq![]);
        if let Some((body, p)) = lexer::doc_body(s, pos, first.delim, first.strip, seq![]) {
            let doc = TokV::Redir(RedirectTokV::Heredoc { fd: 0, body, expand: first.expand });
            let more = toks.update(first.at, doc);
            assert forall|i: int| 0 <= i < more.len() implies token_short(
                #[trigger] more[i],
                s.len(),
            ) by {
                assert(token_short(toks[i], s.len()));
                assert(more[i] == toks[i] || more[i] == doc);
            }
            assert forall|i: int| 0 <= i < pend.skip(1).len() implies 0 <= (
            #[trigger] pend.skip(1)[i]).at < more.len() by {
                assert(pend.skip(1)[i] == pend[i + 1]);
            }
            lemma_docs_short(s, p, more, pend.skip(1));
        }
    }
}

proof fn lemma_lex_short(s: Seq<char>, pos: int, toks: Seq<TokV>, pend: Seq<PendingV>)
    requires
        0 <= pos <= s.len(),
        tokens_short(toks, s.len()),
        placed(pend, toks.len()),
    ensures
        lexer::lex_from(s, pos, toks, pend) matches Ok(t) ==> tokens_short(t, s.len()),
    decreases s.len() - pos,
{
    if pos < s.len() {
        lexer::lemma_next(s, pos);
        lemma_next_short(s, pos);
        match lexer::next_from(s, pos) {
            Err(_) => {},
            Ok((LexemeV::Doc { delim, strip, expand }, p)) => {
                let more = toks.push(
                    TokV::Redir(RedirectTokV::Heredoc { fd: 0, body: seq![], expand }),
                );
                assert(tokens_short(more, s.len()));
                let waiting = pend.push(
                    PendingV { at: toks.len() as int, delim, strip, expand },
                );
                assert(placed(waiting, more.len()));
                lemma_lex_short(s, p, more, waiting);
            },
            Ok((LexemeV::Tok(t), p)) => {
                let more = toks.push(t);
                assert(tokens_short(more, s.len()));
                if t is Newline && pend.len() > 0 {
                    lexer::lemma_docs(s, p, more, pend);
                    lemma_docs_short(s, p, more, pend);
                    if let Ok((patched, q)) = lexer::docs_from(s, p, more, pend) {
                        lemma_lex_short(s, q, patched, seq![]);
                    }
                } else {
                    lemma_lex_short(s, p, more, pend);
                }
            },
        }
    }
}

proof fn lemma_doc_parts_short(s: Seq<char>, i: int, parts: WordV)
    requires
        0 <= i <= s.len(),
        all_short(parts, s.len()),
    ensures
        all_short(heredoc::doc_parts(s, i, parts), s.len()),
    decreases s.len() - i,
{
    if i < s.len() {
        if s[i] == '\\' && i + 1 < s.len() && (s[i + 1] == '$' || s[i + 1] == '`' || s[i + 1]
            == '\\') {
            let more = parts.push(PartV::Lit(seq![s[i + 1]]));
            assert(all_short(more, s.len()));
            lemma_doc_parts_short(s, i + 2, more);
        } else if s[i] == '$' {
            heredoc::lemma_doc_dollar(s, i);
            if i + 1 < s.len() {
                heredoc::lemma_doc_sub_end(s, i + 2, 1);
            }
            let (part, p) = heredoc::doc_dollar(s, i);
            assert(short(part, s.len()));
            assert(all_short(parts.push(part), s.len()));
            lemma_doc_parts_short(s, p, parts.push(part));
        } else {
            let more = parts.push(PartV::Lit(seq![s[i]]));
            assert(all_short(more, s.len()));
            lemma_doc_parts_short(s, i + 1, more);
        }
    }
}

/// What a `$(...)` holds, in a word or in a heredoc, is shorter than the script.
pub proof fn inner_scripts_are_shorter(src: Seq<char>, t: Seq<TokV>, i: int, j: int)
    requires
        lexer::tokens_of(src) is Ok,
        t == lexer::tokens_of(src)->Ok_0,
        0 <= i < t.len(),
        0 <= j < expansions(t[i]).len(),
    ensures
        inner_script(expansions(t[i])[j]) matches Some(inner) ==> inner.len() < src.len(),
{
    lemma_lex_short(src, 0, seq![], seq![]);
    assert(token_short(t[i], src.len()));
    match t[i] {
        TokV::Redir(RedirectTokV::Heredoc { fd, body, expand }) => {
            if expand {
                lemma_doc_parts_short(body, 0, seq![]);
                assert(short(heredoc::doc_word(body)[j], body.len()));
            }
        },
        TokV::Word(w) => {
            assert(short(w[j], src.len()));
        },
        TokV::Pattern { word, why } => {
            assert(short(word[j], src.len()));
        },
        _ => {},
    }
}

proof fn lemma_sub(src: Seq<char>, n: nat)
    requires
        src.len() < n,
    ensures
        parser::sub_fault(src, n) is None <==> !parser::is_arithmetic(src)
            && parser::commands_of(src) is Ok,
{
    reveal(parser::commands_of);
}

proof fn lemma_part(p: PartV, n: nat)
    requires
        short(p, n),
    ensures
        parser::part_fault(p, n) is None <==> is_supported(p),
{
    if let Some(src) = inner_script(p) {
        lemma_sub(src, n);
    }
}

proof fn lemma_word_passes(w: WordV, i: int, n: nat)
    requires
        0 <= i,
        all_short(w, n),
    ensures
        parser::word_fault(w, i, n) is None <==> (forall|j: int|
            i <= j < w.len() ==> is_supported(#[trigger] w[j])),
    decreases w.len() - i,
{
    if i < w.len() {
        lemma_word_passes(w, i + 1, n);
        lemma_part(w[i], n);
        assert(parser::word_fault(w, i, n) is None <==> parser::part_fault(w[i], n) is None
            && parser::word_fault(w, i + 1, n) is None);
    }
}

proof fn lemma_token_passes(tok: TokV, n: nat)
    requires
        all_short(expansions(tok), n),
    ensures
        parser::token_fault(tok, n) is None <==> (forall|j: int|
            0 <= j < expansions(tok).len() ==> is_supported(#[trigger] expansions(tok)[j])),
{
    lemma_word_passes(expansions(tok), 0, n);
}

proof fn lemma_tokens_pass(t: Seq<TokV>, i: int, n: nat)
    requires
        0 <= i,
        forall|k: int| 0 <= k < t.len() ==> all_short(expansions(#[trigger] t[k]), n),
    ensures
        parser::tokens_fault(t, i, n) is None <==> (forall|k: int, j: int|
            i <= k < t.len() && 0 <= j < expansions(t[k]).len() ==> is_supported(
                #[trigger] expansions(t[k])[j],
            )),
    decreases t.len() - i,
{
    if i < t.len() {
        lemma_tokens_pass(t, i + 1, n);
        assert(all_short(expansions(t[i]), n));
        lemma_token_passes(t[i], n);
        assert(parser::tokens_fault(t, i, n) is None <==> parser::token_fault(t[i], n) is None
            && parser::tokens_fault(t, i + 1, n) is None);
    }
}

/// A script is accepted exactly when it has tokens, these are a list of commands
/// and all that is expanded in them is of the supported subset.
pub proof fn accepted_scripts(src: Seq<char>)
    ensures
        parser::commands_of(src) is Ok <==> {
            &&& lexer::tokens_of(src) is Ok
            &&& parser::g_list(
                lexer::tokens_of(src)->Ok_0,
                0,
                parser::Stop::Top,
                false,
                seq![],
            ) matches Ok((_, q)) && parser::at(lexer::tokens_of(src)->Ok_0, q) is Eof
            &&& forall|k: int, j: int|
                0 <= k < lexer::tokens_of(src)->Ok_0.len() && 0 <= j < expansions(
                    lexer::tokens_of(src)->Ok_0[k],
                ).len() ==> is_supported(#[trigger] expansions(lexer::tokens_of(src)->Ok_0[k])[j])
        },
{
    reveal(parser::commands_of);
    if lexer::tokens_of(src) is Ok {
        let t = lexer::tokens_of(src)->Ok_0;
        assert forall|k: int| 0 <= k < t.len() implies all_short(
            expansions(#[trigger] t[k]),
            src.len(),
        ) by {
            assert forall|j: int| 0 <= j < expansions(t[k]).len() implies short(
                #[trigger] expansions(t[k])[j],
                src.len(),
            ) by {
                inner_scripts_are_shorter(src, t, k, j);
            }
        }
        lemma_tokens_pass(t, 0, src.len());
    }
}

} // verus!
