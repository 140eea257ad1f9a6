//! Where pattern characters are refused and where they are text.
use crate::shell::ast;
use crate::shell::ast::{CmdV, PartV, SimpleV, WordV};
use crate::shell::lexer;
use crate::shell::lexer::{LexErrorV, LexemeV, PendingV, RedirectTokV, TokV};
use crate::shell::parser;
use crate::text;
use vstd::prelude::*;

verus! {

/// A literal that no text behind it makes an assignment: at `k`, before any `=`,
/// stands what no name holds.
spec fn tainted(lit: Seq<char>, k: int) -> bool {
    &&& 0 <= k < lit.len()
    &&& !text::is_name_char(lit[k])
    &&& forall|j: int| 0 <= j <= k ==> lit[j] != '='
}

proof fn lemma_tainted(lit: Seq<char>, k: int, cut: Option<int>)
    requires
        tainted(lit, k),
    ensures
        lexer::flushed(lit, seq![], cut).len() > 0,
        parser::assignment_of(lexer::flushed(lit, seq![], cut)) is None,
{
    text::lemma_index_from(lit, '=', 0);
    let eq = text::index_from(lit, '=', 0);
    if eq < lit.len() {
        assert(lit.take(eq)[k] == lit[k]);
    }
    let none: WordV = seq![];
    assert(none.push(PartV::Lit(lit))[0] == PartV::Lit(lit));
    let empty: Seq<char> = seq![];
    assert(text::index_from(empty, '=', 0) >= empty.len());
}

proof fn lemma_tainted_more(lit: Seq<char>, k: int, more: Seq<char>)
    requires
        tainted(lit, k),
    ensures
        tainted(lit + more, k),
{
    assert(forall|j: int| 0 <= j <= k ==> (lit + more)[j] == lit[j]);
}

/// Whether `w` continues `parts`.
spec fn continues(w: WordV, parts: WordV) -> bool {
    w.len() >= parts.len() && w.take(parts.len() as int) == parts
}

proof fn lemma_dquote_continues(s: Seq<char>, pos: int, run: Seq<char>, parts: WordV, had: nat)
    requires
        0 <= pos <= s.len(),
    ensures
        lexer::dquote_from(s, pos, run, parts, had) matches Ok((w, _)) ==> continues(w, parts),
    decreases s.len() - pos,
{
    assert(parts.take(parts.len() as int) =~= parts);
    assert(parts.push(PartV::Quoted(run)).take(parts.len() as int) =~= parts);
    if pos < s.len() {
        if s[pos] == '"' {
        } else if s[pos] == '\\' {
            if pos + 1 < s.len() && (s[pos + 1] == '"' || s[pos + 1] == '\\' || s[pos + 1] == '$') {
                lemma_dquote_continues(s, pos + 2, run.push(s[pos + 1]), parts, had);
            } else if pos + 1 < s.len() && s[pos + 1] == '\n' {
                lemma_dquote_continues(s, pos + 2, run, parts, had);
            } else {
                lemma_dquote_continues(s, pos + 1, run.push('\\'), parts, had);
            }
        } else if s[pos] == '$' {
            lexer::lemma_dollar(s, pos, true);
            if let Ok((part, p)) = lexer::dollar_at(s, pos, true) {
                let more = lexer::flushed_quoted(run, parts).push(part);
                lemma_dquote_continues(s, p, seq![], more, had);
                if let Ok((w, _)) = lexer::dquote_from(s, p, seq![], more, had) {
                    assert(more.take(parts.len() as int) =~= parts);
                    assert(w.take(parts.len() as int) =~= w.take(more.len() as int).take(
                        parts.len() as int,
                    ));
                }
            }
        } else {
            lemma_dquote_continues(s, pos + 1, run.push(s[pos]), parts, had);
        }
    }
}

/// A word that is no assignment so far, and will be none.
spec fn settled(lit: Seq<char>, parts: WordV, k: int) -> bool {
    if parts.len() == 0 {
        tainted(lit, k)
    } else {
        parser::assignment_of(parts) is None
    }
}

proof fn lemma_settled_flush(lit: Seq<char>, parts: WordV, k: int, cut: Option<int>)
    requires
        settled(lit, parts, k),
    ensures
        lexer::flushed(lit, parts, cut).len() > 0,
        parser::assignment_of(lexer::flushed(lit, parts, cut)) is None,
{
    if parts.len() == 0 {
        assert(parts =~= seq![]);
        lemma_tainted(lit, k, cut);
    } else {
        assert(lexer::flushed(lit, parts, cut)[0] == parts[0]);
    }
}

proof fn lemma_word_settled(
    s: Seq<char>,
    pos: int,
    lit: Seq<char>,
    parts: WordV,
    cut: Option<int>,
    why: Option<Seq<char>>,
    k: int,
)
    requires
        0 <= pos <= s.len(),
        settled(lit, parts, k),
        why is Some,
    ensures
        lexer::word_from(s, pos, lit, parts, cut, why) matches Ok((w, y, _)) ==> y == why
            && parser::assignment_of(w) is None,
    decreases s.len() - pos,
{
    let all = lexer::flushed(lit, parts, cut);
    lemma_settled_flush(lit, parts, k, cut);
    if pos < s.len() && !lexer::ends_word(s[pos]) {
        let mark = lexer::marked(cut, lit.len() as int);
        if s[pos] == '\'' {
            text::lemma_index_from(s, '\'', pos + 1);
            let e = text::index_from(s, '\'', pos + 1);
            if e < s.len() {
                let more = s.subrange(pos + 1, e);
                if parts.len() == 0 {
                    lemma_tainted_more(lit, k, more);
                }
                lemma_word_settled(s, e + 1, lit + more, parts, mark, why, k);
            }
        } else if s[pos] == '"' {
            lexer::lemma_dquote(s, pos + 1, seq![], all, all.len());
            lemma_dquote_continues(s, pos + 1, seq![], all, all.len());
            if let Ok((ps, p)) = lexer::dquote_from(s, pos + 1, seq![], all, all.len()) {
                assert(ps[0] == ps.take(all.len() as int)[0]);
                lemma_word_settled(s, p, seq![], ps, None, why, k);
            }
        } else if s[pos] == '\\' {
            if pos + 1 < s.len() && s[pos + 1] != '\n' {
                if parts.len() == 0 {
                    lemma_tainted_more(lit, k, seq![s[pos + 1]]);
                    assert(lit + seq![s[pos + 1]] =~= lit.push(s[pos + 1]));
                }
                lemma_word_settled(s, pos + 2, lit.push(s[pos + 1]), parts, mark, why, k);
            } else {
                lemma_word_settled(s, pos + 1, lit, parts, cut, why, k);
            }
        } else if s[pos] == '$' {
            lexer::lemma_dollar(s, pos, false);
            if let Ok((part, p)) = lexer::dollar_at(s, pos, false) {
                assert(all.push(part)[0] == all[0]);
                lemma_word_settled(s, p, seq![], all.push(part), None, why, k);
            }
        } else {
            if parts.len() == 0 {
                lemma_tainted_more(lit, k, seq![s[pos]]);
                assert(lit + seq![s[pos]] =~= lit.push(s[pos]));
            }
            lemma_word_settled(s, pos + 1, lit.push(s[pos]), parts, cut, why, k);
        }
    }
}

/// From name characters on up to a pattern character: the word that goes on there
/// is refused, and is no assignment.
proof fn lemma_reaches_pattern(s: Seq<char>, n: int, k: int)
    requires
        0 <= k <= n < s.len(),
        s[n] == '*' || s[n] == '?',
        forall|i: int| 0 <= i < n ==> text::is_name_char(#[trigger] s[i]),
    ensures
        lexer::word_from(s, k, s.take(k), seq![], None, None) matches Ok((w, y, _)) ==> y == Some(
            "globbing is not supported"@,
        ) && parser::assignment_of(w) is None,
    decreases n - k,
{
    assert(s.take(k).push(s[k]) =~= s.take(k + 1));
    if k < n {
        assert(text::is_name_char(s[k]));
        lemma_reaches_pattern(s, n, k + 1);
    } else {
        let lit = s.take(n + 1);
        assert forall|j: int| 0 <= j <= n implies lit[j] != '=' by {
            if j < n {
                assert(text::is_name_char(s[j]));
            }
        }
        assert(tainted(lit, n));
        lemma_word_settled(
            s,
            n + 1,
            lit,
            seq![],
            None,
            Some("globbing is not supported"@),
            n,
        );
    }
}

/// The pending heredocs have their tokens behind the first and among the first `n`.
spec fn behind_first(pend: Seq<PendingV>, n: nat) -> bool {
    forall|i: int| 0 <= i < pend.len() ==> 1 <= (#[trigger] pend[i]).at < n
}

proof fn lemma_docs_keep_first(s: Seq<char>, pos: int, toks: Seq<TokV>, pend: Seq<PendingV>)
    requires
        toks.len() > 0,
        behind_first(pend, toks.len()),
    ensures
        lexer::docs_from(s, pos, toks, pend) matches Ok((t, _)) ==> t.len() > 0 && t[0] == toks[0],
    decreases pend.len(),
{
    if pend.len() > 0 {
        let first = pend[0];
        if let Some((body, p)) = lexer::doc_body(s, pos, first.delim, first.strip, seq![]) {
            let doc = TokV::Redir(RedirectTokV::Heredoc { fd: 0, body, expand: first.expand });
            let more = toks.update(first.at, doc);
            assert forall|i: int| 0 <= i < pend.skip(1).len() implies 1 <= (
            #[trigger] pend.skip(1)[i]).at < more.len() by {
                assert(pend.skip(1)[i] == pend[i + 1]);
            }
            lemma_docs_keep_first(s, p, more, pend.skip(1));
        }
    }
}

proof fn lemma_lex_keeps_first(s: Seq<char>, pos: int, toks: Seq<TokV>, pend: Seq<PendingV>)
    requires
        0 <= pos <= s.len(),
        toks.len() > 0,
        behind_first(pend, toks.len()),
    ensures
        lexer::lex_from(s, pos, toks, pend) matches Ok(t) ==> t.len() > 0 && t[0] == toks[0],
    decreases s.len() - pos,
{
    if pos < s.len() {
        lexer::lemma_next(s, pos);
        match lexer::next_from(s, pos) {
            Err(_) => {},
            Ok((LexemeV::Doc { delim, strip, expand }, p)) => {
                let more = toks.push(
                    TokV::Redir(RedirectTokV::Heredoc { fd: 0, body: seq![], expand }),
                );
                let waiting = pend.push(
                    PendingV { at: toks.len() as int, delim, strip, expand },
                );
                assert(behind_first(waiting, more.len()));
                lemma_lex_keeps_first(s, p, more, waiting);
            },
            Ok((LexemeV::Tok(t), p)) => {
                let more = toks.push(t);
                if t is Newline && pend.len() > 0 {
                    lexer::lemma_docs(s, p, more, pend);
                    lemma_docs_keep_first(s, p, more, pend);
                    if let Ok((patched, q)) = lexer::docs_from(s, p, more, pend) {
                        lemma_lex_keeps_first(s, q, patched, seq![]);
                    }
                } else {
                    lemma_lex_keeps_first(s, p, more, pend);
                }
            },
        }
    }
}

pub open spec fn no_words() -> SimpleV {
    SimpleV { assignments: seq![], words: seq![], redirects: seq![] }
}

/// A list that starts with a pattern which is no assignment is refused.
proof fn lemma_list_refused(t: Seq<TokV>, word: WordV, why: Seq<char>)
    requires
        t.len() > 0,
        t[0] == (TokV::Pattern { word, why }),
        parser::assignment_of(word) is None,
    ensures
        parser::g_list(t, 0, parser::Stop::Top, false, seq![]) == Err::<(Seq<CmdV>, int), Seq<char>>(
            why,
        ),
{
    assert(parser::separators_end(t, 0) == 0);
    assert(parser::g_simple(t, 0, no_words()) == Err::<(CmdV, int), Seq<char>>(why));
    assert(parser::g_command(t, 0, false) == Err::<(CmdV, int), Seq<char>>(why));
    assert(parser::g_pipeline(t, 0, false) == Err::<(CmdV, int), Seq<char>>(why));
    assert(parser::g_andor(t, 0, false) == Err::<(CmdV, int), Seq<char>>(why));
}

/// A command word that holds an unquoted `*` or `?` is refused, whatever follows.
pub proof fn patterns_are_refused(pre: Seq<char>, c: char, rest: Seq<char>)
    requires
        c == '*' || c == '?',
        pre.len() > 0 ==> !text::is_digit(pre[0]),
        forall|i: int| 0 <= i < pre.len() ==> text::is_name_char(#[trigger] pre[i]),
    ensures
        parser::commands_of(pre.push(c) + rest) is Err,
        lexer::tokens_of(pre.push(c) + rest) is Ok ==> parser::commands_of(pre.push(c) + rest)
            == Err::<Seq<CmdV>, Seq<char>>("globbing is not supported"@),
{
    reveal(parser::commands_of);
    let s = pre.push(c) + rest;
    let n = pre.len() as int;
    let why = "globbing is not supported"@;
    assert(s[n] == c);
    assert forall|i: int| 0 <= i < n implies text::is_name_char(#[trigger] s[i]) by {
        assert(s[i] == pre[i]);
    }
    lemma_reaches_pattern(s, n, 0);
    assert(s.take(0) =~= seq![]);
    if n > 0 {
        assert(s[0] == pre[0]);
        assert(text::is_name_char(s[0]));
    }
    assert(lexer::blank_end(s, 0) == 0);
    lexer::lemma_next(s, 0);
    if let Ok((word, y, p)) = lexer::word_from(s, 0, seq![], seq![], None, None) {
        let tok = TokV::Pattern { word, why };
        assert(lexer::next_from(s, 0) == Ok::<(LexemeV, int), LexErrorV>((LexemeV::Tok(tok), p)));
        let none: Seq<TokV> = seq![];
        lemma_lex_keeps_first(s, p, none.push(tok), seq![]);
        if let Ok(t) = lexer::tokens_of(s) {
            assert(t[0] == tok);
            lemma_list_refused(t, word, why);
        }
    }
}

/// A character that means itself inside a word where no pattern is expanded.
pub open spec fn is_plain_char(c: char) -> bool {
    !lexer::ends_word(c) && c != '\'' && c != '"' && c != '\\' && c != '$'
}

proof fn lemma_plain_word(s: Seq<char>, k: int, why: Option<Seq<char>>)
    requires
        0 <= k <= s.len(),
        s.len() > 0,
        forall|i: int| 0 <= i < s.len() ==> is_plain_char(#[trigger] s[i]),
    ensures
        lexer::word_from(s, k, s.take(k), seq![], None, why) matches Ok((w, _, p)) && w
            == seq![PartV::Lit(s)] && p == s.len(),
    decreases s.len() - k,
{
    if k == s.len() {
        assert(s.take(k) =~= s);
        let none: WordV = seq![];
        assert(none.push(PartV::Lit(s)) =~= seq![PartV::Lit(s)]);
    } else {
        assert(is_plain_char(s[k]));
        assert(s.take(k).push(s[k]) =~= s.take(k + 1));
        let more = lexer::refusal(s, k, s.take(k).len() == 0);
        lemma_plain_word(s, k + 1, lexer::first_why(why, more));
    }
}

/// What holds a `=` is no reserved word.
proof fn lemma_not_reserved(s: Seq<char>, k: int)
    requires
        0 <= k < s.len(),
        s[k] == '=',
    ensures
        !ast::is_reserved(s),
{
    reveal_strlit("if");
    reveal_strlit("then");
    reveal_strlit("elif");
    reveal_strlit("else");
    reveal_strlit("fi");
    reveal_strlit("for");
    reveal_strlit("in");
    reveal_strlit("do");
    reveal_strlit("done");
    reveal_strlit("while");
    reveal_strlit("until");
    reveal_strlit("{");
    reveal_strlit("}");
    reveal_strlit("case");
    reveal_strlit("function");
    reveal_strlit("!");
}

/// The value of an assignment as a word.
pub open spec fn value_word(value: Seq<char>) -> WordV {
    if value.len() > 0 {
        seq![PartV::Lit(value)]
    } else {
        seq![]
    }
}

/// `NAME=` and any text without quotes, expansions and what ends a word is an
/// assignment of that very text, pattern characters included.
pub proof fn patterns_are_text_in_assignments(name: Seq<char>, value: Seq<char>)
    requires
        text::is_name(name),
        forall|i: int| 0 <= i < value.len() ==> is_plain_char(#[trigger] value[i]),
    ensures
        parser::commands_of(name.push('=') + value) == Ok::<Seq<CmdV>, Seq<char>>(
            seq![
                CmdV::Simple(
                    SimpleV {
                        assignments: seq![(name, value_word(value))],
                        words: seq![],
                        redirects: seq![],
                    },
                ),
            ],
        ),
{
    reveal(parser::commands_of);
    let s = name.push('=') + value;
    let n = name.len() as int;
    assert forall|i: int| 0 <= i < s.len() implies is_plain_char(#[trigger] s[i]) by {
        if i < n {
            assert(text::is_name_char(name[i]));
            assert(s[i] == name[i]);
        } else if i > n {
            assert(s[i] == value[i - n - 1]);
        }
    }
    assert(s[n] == '=');
    // the token
    lemma_plain_word(s, 0, None);
    assert(s.take(0) =~= seq![]);
    let w = seq![PartV::Lit(s)];
    let y = lexer::word_from(s, 0, seq![], seq![], None, None)->Ok_0.1;
    let tok = match y {
        None => TokV::Word(w),
        Some(why) => TokV::Pattern { word: w, why },
    };
    assert(s[0] == name[0] && text::is_name_char(name[0]));
    assert(lexer::blank_end(s, 0) == 0);
    assert(lexer::next_from(s, 0) == Ok::<(LexemeV, int), LexErrorV>(
        (LexemeV::Tok(tok), s.len() as int),
    ));
    let none: Seq<TokV> = seq![];
    let one = none.push(tok);
    let t = one.push(TokV::Eof);
    assert(lexer::lex_from(s, s.len() as int, one, seq![]) == Ok::<Seq<TokV>, LexErrorV>(t));
    assert(lexer::tokens_of(s) == Ok::<Seq<TokV>, LexErrorV>(t));
    // the assignment
    text::lemma_index_from(s, '=', 0);
    let eq = text::index_from(s, '=', 0);
    assert(eq == n) by {
        if eq < n {
            assert(s[eq] == name[eq]);
            assert(text::is_name_char(name[eq]));
        }
    }
    assert(s.take(n) =~= name);
    assert(s.skip(n + 1) =~= value);
    assert(w.skip(1) =~= seq![]);
    assert(parser::assignment_of(w) == Some((name, value_word(value)))) by {
        assert(value_word(value) + w.skip(1) =~= value_word(value));
    }
    // the grammar
    lemma_not_reserved(s, n);
    let cmd = SimpleV {
        assignments: seq![(name, value_word(value))],
        words: seq![],
        redirects: seq![],
    };
    assert(t[0] == tok && t[1] is Eof && t.len() == 2);
    assert(parser::separators_end(t, 0) == 0);
    assert(parser::g_simple(t, 1, cmd) == Ok::<(CmdV, int), Seq<char>>((CmdV::Simple(cmd), 1)));
    assert(no_words().assignments.push((name, value_word(value))) =~= cmd.assignments);
    assert(parser::g_simple(t, 0, no_words()) == parser::g_simple(t, 1, cmd));
    assert(!parser::is_plain(tok, "!"@));
    assert(parser::g_command(t, 0, false) == parser::g_simple(t, 0, no_words()));
    assert(parser::g_pipeline(t, 0, false) == Ok::<(CmdV, int), Seq<char>>(
        (CmdV::Simple(cmd), 1),
    ));
    assert(parser::g_andor(t, 0, false) == Ok::<(CmdV, int), Seq<char>>((CmdV::Simple(cmd), 1)));
    let before: Seq<CmdV> = seq![];
    assert(before.push(CmdV::Simple(cmd)) =~= seq![CmdV::Simple(cmd)]);
    assert(parser::g_list(t, 0, parser::Stop::Top, false, seq![]) == Ok::<
        (Seq<CmdV>, int),
        Seq<char>,
    >((seq![CmdV::Simple(cmd)], 1)));
    // the expansions
    assert(parser::word_fault(w, 1, s.len()) is None);
    assert(parser::word_fault(w, 0, s.len()) is None);
    assert(parser::token_fault(tok, s.len()) is None);
    assert(parser::tokens_fault(t, 2, s.len()) is None);
    assert(parser::tokens_fault(t, 1, s.len()) is None);
    assert(parser::tokens_fault(t, 0, s.len()) is None);
}

} // verus!
