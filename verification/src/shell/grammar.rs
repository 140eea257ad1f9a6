//! How commands are put together from tokens, and tokens from characters.
use crate::shell::ast;
use crate::shell::ast::{CmdV, ElifV, OpV, PartV, RedirectV, SimpleV, WordV};
use crate::shell::lexer;
use crate::shell::lexer::{LexErrorV, LexemeV, RedirectTokV, TokV};
use crate::shell::parser;
use crate::shell::parser::Stop;
use crate::text;
use vstd::prelude::*;

verus! {

// ---- lists, chains and pipelines ----

/// What a production has read: `x`, up to `q`.
pub open spec fn read<X>(x: X, q: int) -> parser::Parsed<X> {
    Ok((x, q))
}

/// A list is its commands, in their order: a command, what separates it from the
/// next, and the list of the rest. It ends where what it stands in ends.
pub proof fn lists_read_their_commands_in_order(
    t: Seq<TokV>,
    p: int,
    stop: Stop,
    rp: bool,
    had: Seq<CmdV>,
    c: CmdV,
    q: int,
)
    requires
        0 <= p < q < t.len(),
        !(t[p] is Semi || t[p] is Newline || t[p] is Amp),
    ensures
        parser::at_end(t[p], stop, rp) ==> parser::g_list(t, p, stop, rp, had) == read(had, p),
        !parser::at_end(t[p], stop, rp) && parser::g_andor(t, p, rp) == read(c, q) ==> {
            &&& t[q] is Semi || t[q] is Newline || t[q] is Amp ==> parser::g_list(
                t,
                p,
                stop,
                rp,
                had,
            ) == parser::g_list(t, q + 1, stop, rp, had.push(c))
            &&& !(t[q] is Semi || t[q] is Newline || t[q] is Amp) ==> parser::g_list(
                t,
                p,
                stop,
                rp,
                had,
            ) == read(had.push(c), q)
        },
{
    assert(parser::separators_end(t, p) == p);
}

/// Separators before a command mean nothing.
pub proof fn leading_separators_are_skipped(
    t: Seq<TokV>,
    p: int,
    stop: Stop,
    rp: bool,
    had: Seq<CmdV>,
)
    requires
        0 <= p < t.len(),
        t[p] is Semi || t[p] is Newline || t[p] is Amp,
    ensures
        parser::g_list(t, p, stop, rp, had) == parser::g_list(t, p + 1, stop, rp, had),
{
    assert(parser::separators_end(t, p) == parser::separators_end(t, p + 1));
}

/// `a && b` and `a || b` group to the left: what is read so far is the left side of
/// the next operator, and each operator keeps its own kind.
pub proof fn chains_group_to_the_left(
    t: Seq<TokV>,
    p: int,
    rp: bool,
    a: CmdV,
    b: CmdV,
    q: int,
    r: int,
)
    requires
        0 <= p < q < r <= t.len(),
        q < t.len(),
    ensures
        parser::g_pipeline(t, p, rp) == read(a, q) ==> parser::g_andor(t, p, rp)
            == parser::g_andor_rest(t, q, rp, a),
        !(t[q] is And) && !(t[q] is Or) ==> parser::g_andor_rest(t, q, rp, a) == read(a, q),
        q + 1 < r && parser::g_pipeline(t, q + 1, rp) == read(b, r) ==> {
            &&& t[q] is And ==> parser::g_andor_rest(t, q, rp, a) == parser::g_andor_rest(
                t,
                r,
                rp,
                CmdV::AndOr { lhs: Box::new(a), and: true, rhs: Box::new(b) },
            )
            &&& t[q] is Or ==> parser::g_andor_rest(t, q, rp, a) == parser::g_andor_rest(
                t,
                r,
                rp,
                CmdV::AndOr { lhs: Box::new(a), and: false, rhs: Box::new(b) },
            )
        },
{
}

/// A pipeline is its stages, in their order; `!` before the first turns its status
/// round. A command alone is itself.
pub proof fn pipelines_read_their_stages_in_order(
    t: Seq<TokV>,
    p: int,
    rp: bool,
    a: SimpleV,
    b: SimpleV,
    had: Seq<SimpleV>,
    negated: bool,
    q: int,
    r: int,
)
    requires
        0 <= p < q < r <= t.len(),
        q < t.len(),
    ensures
        !parser::is_plain(t[p], "!"@) && parser::g_command(t, p, rp) == read(CmdV::Simple(a), q)
            ==> {
            &&& !(t[q] is Pipe) ==> parser::g_pipeline(t, p, rp) == read(CmdV::Simple(a), q)
            &&& t[q] is Pipe ==> parser::g_pipeline(t, p, rp) == parser::g_stages(
                t,
                q,
                rp,
                false,
                seq![a],
            )
        },
        parser::is_plain(t[p], "!"@) && p + 1 < q && parser::g_command(t, p + 1, rp) == read(
            CmdV::Simple(a),
            q,
        ) ==> {
            &&& !(t[q] is Pipe) ==> parser::g_pipeline(t, p, rp) == read(
                CmdV::Pipeline { negated: true, stages: seq![a] },
                q,
            )
            &&& t[q] is Pipe ==> parser::g_pipeline(t, p, rp) == parser::g_stages(
                t,
                q,
                rp,
                true,
                seq![a],
            )
        },
        t[q] is Pipe && q + 1 < r && parser::g_command(t, q + 1, rp) == read(
            CmdV::Simple(b),
            r,
        ) ==> parser::g_stages(t, q, rp, negated, had) == parser::g_stages(
            t,
            r,
            rp,
            negated,
            had.push(b),
        ),
        !(t[q] is Pipe) ==> parser::g_stages(t, q, rp, negated, had) == read(
            CmdV::Pipeline { negated, stages: had },
            q,
        ),
{
}

// ---- compound commands ----

/// `( list )` and `{ list }` are the list in them.
pub proof fn groups_hold_their_list(t: Seq<TokV>, p: int, rp: bool, l: Seq<CmdV>, q: int)
    requires
        0 <= p < p + 1 < q < t.len(),
    ensures
        t[p] is LParen && parser::g_list(t, p + 1, Stop::Top, true, seq![]) == read(l, q)
            && t[q] is RParen ==> parser::g_command(t, p, rp) == read(CmdV::Subshell(l), q + 1),
        parser::is_plain(t[p], "{"@) && parser::g_list(t, p + 1, Stop::Brace, rp, seq![])
            == read(l, q) && parser::is_plain(t[q], "}"@) ==> parser::g_command(t, p, rp) == read(
            CmdV::Brace(l),
            q + 1,
        ),
{
    lemma_openers();
    if parser::is_plain(t[p], "{"@) {
        assert(parser::g_command(t, p, rp) == parser::g_brace(t, p, rp));
    }
}

proof fn lemma_openers()
    ensures
        "if"@ != "for"@,
        "if"@ != "while"@,
        "if"@ != "until"@,
        "if"@ != "{"@,
        "for"@ != "while"@,
        "for"@ != "until"@,
        "for"@ != "{"@,
        "while"@ != "until"@,
        "while"@ != "{"@,
        "until"@ != "{"@,
        "elif"@ != "else"@,
        "elif"@ != "fi"@,
        "else"@ != "fi"@,
{
    reveal_strlit("if");
    reveal_strlit("for");
    reveal_strlit("while");
    reveal_strlit("until");
    reveal_strlit("{");
    reveal_strlit("elif");
    reveal_strlit("else");
    reveal_strlit("fi");
    assert("if"@.len() == 2 && "for"@.len() == 3 && "while"@.len() == 5 && "until"@.len() == 5
        && "{"@.len() == 1 && "elif"@.len() == 4 && "else"@.len() == 4 && "fi"@.len() == 2);
    assert("while"@[0] != "until"@[0]);
    assert("elif"@[1] == 'l' && "else"@[1] == 'l' && "elif"@[2] != "else"@[2]);
}

/// `while` and `until` hold their condition and their body, and only `until` turns
/// the condition round.
pub proof fn loops_hold_condition_and_body(
    t: Seq<TokV>,
    p: int,
    rp: bool,
    cond: Seq<CmdV>,
    body: Seq<CmdV>,
    d: int,
    q: int,
)
    requires
        0 <= p < p + 1 < d < d + 1 < q < t.len(),
        parser::g_list(t, p + 1, Stop::Loop, rp, seq![]) == read(cond, d),
        parser::is_plain(t[d], "do"@),
        parser::g_list(t, d + 1, Stop::Body, rp, seq![]) == read(body, q),
        parser::is_plain(t[q], "done"@),
    ensures
        parser::is_plain(t[p], "while"@) ==> parser::g_command(t, p, rp) == read(
            CmdV::While { cond, body, until: false },
            q + 1,
        ),
        parser::is_plain(t[p], "until"@) ==> parser::g_command(t, p, rp) == read(
            CmdV::While { cond, body, until: true },
            q + 1,
        ),
{
    lemma_openers();
    assert(parser::g_block(t, p, Stop::Loop, rp, "do"@, "expected 'do'"@) == read(cond, d + 1));
    assert(parser::g_block(t, d, Stop::Body, rp, "done"@, "expected 'done'"@) == read(
        body,
        q + 1,
    ));
    if parser::is_plain(t[p], "while"@) {
        assert(parser::g_command(t, p, rp) == parser::g_while(t, p, rp, false));
    }
    if parser::is_plain(t[p], "until"@) {
        assert(parser::g_command(t, p, rp) == parser::g_while(t, p, rp, true));
    }
}

/// `if` holds its condition and its body; each `elif` adds its own pair behind those
/// before, `else` its list, and `fi` ends it with all of them.
pub proof fn ifs_hold_their_branches(
    t: Seq<TokV>,
    p: int,
    rp: bool,
    cond: Seq<CmdV>,
    body: Seq<CmdV>,
    elifs: Seq<ElifV>,
    els: Option<Seq<CmdV>>,
    more: Seq<CmdV>,
    then_more: Seq<CmdV>,
    d: int,
    q: int,
)
    requires
        0 <= p < p + 1 < d < d + 1 < q < t.len(),
    ensures
        parser::is_plain(t[p], "if"@) && parser::g_list(t, p + 1, Stop::Cond, rp, seq![])
            == read(cond, d) && parser::is_plain(t[d], "then"@) && parser::g_list(
            t,
            d + 1,
            Stop::Branch,
            rp,
            seq![],
        ) == read(body, q) ==> parser::g_command(t, p, rp) == parser::g_if_rest(
            t,
            q,
            rp,
            cond,
            body,
            seq![],
            None,
        ),
        parser::is_plain(t[p], "fi"@) ==> parser::g_if_rest(t, p, rp, cond, body, elifs, els)
            == read(CmdV::If { cond, body, elifs, els }, p + 1),
        parser::is_plain(t[p], "elif"@) && parser::g_list(t, p + 1, Stop::Cond, rp, seq![])
            == read(more, d) && parser::is_plain(t[d], "then"@) && parser::g_list(
            t,
            d + 1,
            Stop::Branch,
            rp,
            seq![],
        ) == read(then_more, q) ==> parser::g_if_rest(t, p, rp, cond, body, elifs, els)
            == parser::g_if_rest(
            t,
            q,
            rp,
            cond,
            body,
            elifs.push(ElifV { cond: more, body: then_more }),
            els,
        ),
        parser::is_plain(t[p], "else"@) && parser::g_list(t, p + 1, Stop::Else, rp, seq![])
            == read(more, d) ==> parser::g_if_rest(t, p, rp, cond, body, elifs, els)
            == parser::g_if_rest(t, d, rp, cond, body, elifs, Some(more)),
{
    lemma_openers();
    if parser::is_plain(t[p], "elif"@) && parser::g_list(t, p + 1, Stop::Cond, rp, seq![])
        == read(more, d) && parser::is_plain(t[d], "then"@) {
        assert(parser::g_block(t, p, Stop::Cond, rp, "then"@, "expected 'then'"@) == read(
            more,
            d + 1,
        ));
    }
    if parser::is_plain(t[p], "if"@) && parser::g_list(t, p + 1, Stop::Cond, rp, seq![]) == read(
        cond,
        d,
    ) && parser::is_plain(t[d], "then"@) {
        assert(parser::g_block(t, p, Stop::Cond, rp, "then"@, "expected 'then'"@) == read(
            cond,
            d + 1,
        ));
        assert(parser::g_command(t, p, rp) == parser::g_if(t, p, rp));
    }
}

/// `for NAME in words; do list done` holds its variable, its words in their order and
/// its body.
pub proof fn for_loops_hold_their_words(
    t: Seq<TokV>,
    p: int,
    rp: bool,
    var: Seq<char>,
    words: Seq<WordV>,
    body: Seq<CmdV>,
    w: int,
    q: int,
    had: Seq<WordV>,
    x: WordV,
)
    requires
        0 <= p < p + 3 <= w < w + 1 < w + 2 < q < t.len(),
    ensures
        parser::is_plain(t[p], "for"@) && parser::is_plain(t[p + 1], var) && text::is_name(var)
            && parser::is_plain(t[p + 2], "in"@) && parser::g_for_words(t, p + 3, seq![]) == read(
            words,
            w,
        ) && t[w] is Semi && parser::is_plain(t[w + 1], "do"@) && parser::g_list(
            t,
            w + 2,
            Stop::Body,
            rp,
            seq![],
        ) == read(body, q) && parser::is_plain(t[q], "done"@) ==> parser::g_command(t, p, rp)
            == read(CmdV::For { var, words, body }, q + 1),
        t[p] == TokV::Word(x) ==> parser::g_for_words(t, p, had) == parser::g_for_words(
            t,
            p + 1,
            had.push(x),
        ),
        t[p] is Semi || t[p] is Newline ==> parser::g_for_words(t, p, had) == read(had, p),
{
    lemma_openers();
    if parser::is_plain(t[p], "for"@) && parser::is_plain(t[w + 1], "do"@) && t[w] is Semi {
        assert(parser::separators_end(t, w + 1) == w + 1);
        assert(parser::separators_end(t, w) == w + 1);
        assert(parser::g_command(t, p, rp) == parser::g_for(t, p, rp));
        if parser::g_list(t, w + 2, Stop::Body, rp, seq![]) == read(body, q) && parser::is_plain(
            t[q],
            "done"@,
        ) {
            assert(parser::g_block(t, w + 1, Stop::Body, rp, "done"@, "expected 'done'"@) == read(
                body,
                q + 1,
            ));
        }
    }
}

/// A list ends only at the words that its construct gives that meaning, at the end of
/// the script, and in a subshell at the closing parenthesis.
pub proof fn lists_end_where_their_construct_says(w: WordV, s: Seq<char>)
    requires
        ast::plain_of(w) == Some(s),
    ensures
        !parser::at_end(TokV::Word(w), Stop::Top, true),
        parser::at_end(TokV::Word(w), Stop::Cond, true) <==> s == "then"@,
        parser::at_end(TokV::Word(w), Stop::Branch, true) <==> s == "elif"@ || s == "else"@ || s
            == "fi"@,
        parser::at_end(TokV::Word(w), Stop::Else, true) <==> s == "fi"@,
        parser::at_end(TokV::Word(w), Stop::Loop, true) <==> s == "do"@,
        parser::at_end(TokV::Word(w), Stop::Body, true) <==> s == "done"@,
        parser::at_end(TokV::Word(w), Stop::Brace, true) <==> s == "}"@,
        parser::at_end(TokV::Eof, Stop::Top, false),
        parser::at_end(TokV::RParen, Stop::Top, true),
        !parser::at_end(TokV::RParen, Stop::Top, false),
{
}

// ---- simple commands ----

/// A simple command reads its tokens one after the other: words go behind the words,
/// assignments before the first word behind the assignments, and what looks like an
/// assignment behind a word is a word.
pub proof fn simple_commands_keep_their_order(
    t: Seq<TokV>,
    p: int,
    acc: SimpleV,
    w: WordV,
    name: Seq<char>,
    value: WordV,
)
    requires
        0 <= p < t.len(),
        t[p] == TokV::Word(w),
        ast::plain_of(w) matches Some(s) ==> !ast::is_keyword(s),
    ensures
        parser::assignment_of(w) is None || acc.words.len() > 0 ==> parser::g_simple(t, p, acc)
            == parser::g_simple(t, p + 1, SimpleV { words: acc.words.push(w), ..acc }),
        parser::assignment_of(w) == Some((name, value)) && acc.words.len() == 0
            ==> parser::g_simple(t, p, acc) == parser::g_simple(
            t,
            p + 1,
            SimpleV { assignments: acc.assignments.push((name, value)), ..acc },
        ),
{
}

/// A redirect takes the word behind it, keeps its fd and its kind, and goes behind the
/// redirects before it.
pub proof fn redirects_keep_their_kind(
    t: Seq<TokV>,
    p: int,
    acc: SimpleV,
    w: WordV,
    fd: u32,
    to: u32,
)
    requires
        0 <= p,
        p + 1 < t.len(),
        t[p + 1] == TokV::Word(w),
    ensures
        ({
            let with = |r: RedirectV| SimpleV { redirects: acc.redirects.push(r), ..acc };
            &&& t[p] == TokV::Redir(RedirectTokV::Out { fd, append: false }) ==> parser::g_simple(
                t,
                p,
                acc,
            ) == parser::g_simple(t, p + 2, with(RedirectV { fd, op: OpV::Out, target: w }))
            &&& t[p] == TokV::Redir(RedirectTokV::Out { fd, append: true }) ==> parser::g_simple(
                t,
                p,
                acc,
            ) == parser::g_simple(t, p + 2, with(RedirectV { fd, op: OpV::Append, target: w }))
            &&& t[p] == TokV::Redir(RedirectTokV::In { fd }) ==> parser::g_simple(t, p, acc)
                == parser::g_simple(t, p + 2, with(RedirectV { fd, op: OpV::In, target: w }))
            &&& t[p] == TokV::Redir(RedirectTokV::HereString { fd }) ==> parser::g_simple(
                t,
                p,
                acc,
            ) == parser::g_simple(
                t,
                p + 2,
                with(RedirectV { fd, op: OpV::HereString, target: w }),
            )
            &&& t[p] == TokV::Redir(RedirectTokV::Dup { fd, to }) ==> parser::g_simple(t, p, acc)
                == parser::g_simple(
                t,
                p + 1,
                with(RedirectV { fd, op: OpV::Dup(to), target: seq![PartV::Lit(seq![])] }),
            )
        }),
{
}

/// A command ends before a separator, an operator or a parenthesis, with all that was
/// read of it.
pub proof fn simple_commands_end_at_operators(t: Seq<TokV>, p: int, acc: SimpleV)
    requires
        0 <= p < t.len(),
        t[p] is Semi || t[p] is Newline || t[p] is Amp || t[p] is Pipe || t[p] is And || t[p] is Or
            || t[p] is RParen || t[p] is LParen || t[p] is Eof,
        acc.words.len() > 0 || acc.assignments.len() > 0 || acc.redirects.len() > 0,
    ensures
        parser::g_simple(t, p, acc) == read(CmdV::Simple(acc), p),
{
}

/// `NAME=` at the start of a word, with what follows it, is an assignment of just
/// that; a word without `=`, or with something else before it, is none.
pub proof fn assignments_split_at_the_first_sign(
    name: Seq<char>,
    tail: Seq<char>,
    rest: WordV,
    w: Seq<char>,
)
    requires
        text::is_name(name),
    ensures
        parser::assignment_of(seq![PartV::Lit(name + seq!['='] + tail)] + rest) == Some(
            (
                name,
                (if tail.len() > 0 {
                    seq![PartV::Lit(tail)]
                } else {
                    seq![]
                }) + rest,
            ),
        ),
        !w.contains('=') ==> parser::assignment_of(seq![PartV::Lit(w)] + rest) is None,
        parser::assignment_of(seq![PartV::Lit(seq!['='] + w)] + rest) is None,
        parser::assignment_of(seq![PartV::Quoted(name + seq!['='] + tail)] + rest) is None,
{
    let head = name + seq!['='] + tail;
    let n = name.len() as int;
    text::lemma_index_from(head, '=', 0);
    let eq = text::index_from(head, '=', 0);
    assert(head[n] == '=');
    assert(eq == n) by {
        if eq < n {
            assert(head[eq] == name[eq]);
            assert(text::is_name_char(name[eq]));
        }
    }
    assert(head.take(n) =~= name);
    assert(head.skip(n + 1) =~= tail);
    let full = seq![PartV::Lit(head)] + rest;
    assert(full.skip(1) =~= rest);
    text::lemma_index_from(w, '=', 0);
    let e = text::index_from(w, '=', 0);
    if e < w.len() {
        assert(w.contains(w[e]));
    }
    let bare = seq!['='] + w;
    text::lemma_index_from(bare, '=', 0);
    assert(bare[0] == '=');
    assert(text::index_from(bare, '=', 0) == 0);
    assert(bare.take(0).len() == 0);
}

// ---- tokens ----

/// The operators: one sign or two, as they stand.
pub proof fn operators_are_read_as_they_stand(s: Seq<char>, p: int)
    requires
        0 <= p,
        p + 1 < s.len(),
    ensures
        ({
            let one = |k: TokV, n: int| lexer::token_at(s, p) == Ok::<(LexemeV, int), LexErrorV>(
                (LexemeV::Tok(k), p + n),
            );
            &&& s[p] == ';' ==> one(TokV::Semi, 1)
            &&& s[p] == '\n' ==> one(TokV::Newline, 1)
            &&& s[p] == '(' ==> one(TokV::LParen, 1)
            &&& s[p] == ')' ==> one(TokV::RParen, 1)
            &&& s[p] == '&' && s[p + 1] == '&' ==> one(TokV::And, 2)
            &&& s[p] == '&' && s[p + 1] != '&' ==> one(TokV::Amp, 1)
            &&& s[p] == '|' && s[p + 1] == '|' ==> one(TokV::Or, 2)
            &&& s[p] == '|' && s[p + 1] != '|' ==> one(TokV::Pipe, 1)
            &&& s[p] == '<' && s[p + 1] != '<' ==> one(
                TokV::Redir(RedirectTokV::In { fd: 0 }),
                1,
            )
            &&& s[p] == '>' && s[p + 1] != '>' && s[p + 1] != '&' ==> one(
                TokV::Redir(RedirectTokV::Out { fd: 1, append: false }),
                1,
            )
            &&& s[p] == '>' && s[p + 1] == '>' ==> one(
                TokV::Redir(RedirectTokV::Out { fd: 1, append: true }),
                2,
            )
            &&& s[p] == '<' && s[p + 1] == '<' && p + 2 < s.len() && s[p + 2] == '<' ==> one(
                TokV::Redir(RedirectTokV::HereString { fd: 0 }),
                3,
            )
        }),
{
}

/// `2>`, `2>>` and `2>&1` are of the second fd; so with any other digit.
pub proof fn a_digit_names_the_fd(s: Seq<char>, p: int, d: char, e: char)
    requires
        0 <= p,
        p + 3 < s.len(),
        s[p] == d,
        '0' <= d <= '9',
        s[p + 1] == '>',
        '0' <= e <= '9',
    ensures
        ({
            let fd = (d as u32 - 48) as u32;
            let one = |r: RedirectTokV, n: int|
                lexer::token_at(s, p) == Ok::<(LexemeV, int), LexErrorV>(
                    (LexemeV::Tok(TokV::Redir(r)), p + n),
                );
            &&& s[p + 2] != '>' && s[p + 2] != '&' ==> one(
                RedirectTokV::Out { fd, append: false },
                2,
            )
            &&& s[p + 2] == '>' ==> one(RedirectTokV::Out { fd, append: true }, 3)
            &&& s[p + 2] == '&' && s[p + 3] == e && (p + 4 >= s.len() || !text::is_digit(
                s[p + 4],
            )) ==> one(RedirectTokV::Dup { fd, to: (e as u32 - 48) as u32 }, 4)
        }),
{
    assert(lexer::digits_end(s, p + 1) == p + 1);
    assert(lexer::digits_end(s, p) == p + 1);
    assert(s.subrange(p, p + 1) =~= seq![d]);
    lemma_fd(d);
    if s[p + 2] == '&' && s[p + 3] == e && (p + 4 >= s.len() || !text::is_digit(s[p + 4])) {
        assert(lexer::digits_end(s, p + 4) == p + 4);
        assert(lexer::digits_end(s, p + 3) == p + 4);
        assert(s.subrange(p + 3, p + 4) =~= seq![e]);
        lemma_fd(e);
    }
}

proof fn lemma_fd(d: char)
    requires
        '0' <= d <= '9',
    ensures
        lexer::fd_number(seq![d]) == d as u32 - 48,
{
    let s = seq![d];
    assert(s.drop_last() =~= seq![]);
    assert(text::digits_value(s.drop_last()) == 0);
    assert(s[0] == d);
}

/// `$NAME` and `${NAME}` are the variable of that name, up to where the name ends;
/// `$?` is the status; in double quotes the value stays whole. A `$` before anything
/// else is itself.
pub proof fn dollars_name_their_variable(
    name: Seq<char>,
    rest: Seq<char>,
    quoted: bool,
)
    requires
        name.len() > 0,
        forall|i: int| 0 <= i < name.len() ==> text::is_name_char(#[trigger] name[i]),
    ensures
        ({
            let v = if quoted {
                PartV::VarQuoted(name)
            } else {
                PartV::Var(name)
            };
            let n = name.len() as int;
            &&& rest.len() == 0 || !text::is_name_char(rest[0]) ==> lexer::dollar_at(
                seq!['$'] + name + rest,
                0,
                quoted,
            ) == Ok::<(PartV, int), LexErrorV>((v, n + 1))
            &&& lexer::dollar_at(seq!['$', '{'] + name + seq!['}'] + rest, 0, quoted) == Ok::<
                (PartV, int),
                LexErrorV,
            >((v, n + 3))
            &&& lexer::dollar_at(seq!['$', '?'] + rest, 0, quoted) == Ok::<
                (PartV, int),
                LexErrorV,
            >(
                (
                    if quoted {
                        PartV::VarQuoted(seq!['?'])
                    } else {
                        PartV::Var(seq!['?'])
                    },
                    2,
                ),
            )
        }),
{
    let n = name.len() as int;
    let a = seq!['$'] + name + rest;
    if rest.len() == 0 || !text::is_name_char(rest[0]) {
        lemma_name_ends(a, name, rest, 0);
        assert(a[1] == name[0]);
        assert(text::is_name_char(name[0]));
        assert(a.subrange(1, n + 1) =~= name);
    }
    let b = seq!['$', '{'] + name + seq!['}'] + rest;
    assert(b[1] == '{');
    text::lemma_index_from(b, '}', 2);
    let e = text::index_from(b, '}', 2);
    assert(b[n + 2] == '}');
    assert(e == n + 2) by {
        if e < n + 2 {
            assert(b[e] == name[e - 2]);
            assert(text::is_name_char(name[e - 2]));
        }
    }
    assert(b.subrange(2, e) =~= name);
    let c = seq!['$', '?'] + rest;
    assert(c[1] == '?');
}

proof fn lemma_name_ends(a: Seq<char>, name: Seq<char>, rest: Seq<char>, k: int)
    requires
        a == seq!['$'] + name + rest,
        0 <= k <= name.len(),
        forall|i: int| 0 <= i < name.len() ==> text::is_name_char(#[trigger] name[i]),
        rest.len() == 0 || !text::is_name_char(rest[0]),
    ensures
        lexer::name_end(a, k + 1) == name.len() + 1,
    decreases name.len() - k,
{
    if k < name.len() {
        assert(a[k + 1] == name[k]);
        assert(text::is_name_char(name[k]));
        lemma_name_ends(a, name, rest, k + 1);
    } else if rest.len() > 0 {
        assert(a[k + 1] == rest[0]);
    }
}

/// `$( ... )` holds what stands between its parentheses, up to the one that closes it.
pub proof fn substitutions_hold_their_source(src: Seq<char>, rest: Seq<char>, quoted: bool)
    requires
        forall|i: int|
            0 <= i < src.len() ==> src[i] != '(' && src[i] != ')' && src[i] != '\'' && src[i]
                != '"' && src[i] != '\\',
    ensures
        lexer::dollar_at(seq!['$', '('] + src + seq![')'] + rest, 0, quoted) == Ok::<
            (PartV, int),
            LexErrorV,
        >(
            (
                if quoted {
                    PartV::SubQuotedRaw(src)
                } else {
                    PartV::SubRaw(src)
                },
                src.len() as int + 3,
            ),
        ),
{
    let a = seq!['$', '('] + src + seq![')'] + rest;
    lemma_sub_plain(a, src, rest, 0);
    assert(a[1] == '(');
    assert(a.subrange(2, src.len() as int + 2) =~= src);
}

proof fn lemma_sub_plain(a: Seq<char>, src: Seq<char>, rest: Seq<char>, k: int)
    requires
        a == seq!['$', '('] + src + seq![')'] + rest,
        0 <= k <= src.len(),
        forall|i: int|
            0 <= i < src.len() ==> src[i] != '(' && src[i] != ')' && src[i] != '\'' && src[i]
                != '"' && src[i] != '\\',
    ensures
        lexer::sub_end(a, k + 2, 1, None) == Ok::<int, int>(src.len() as int + 2),
    decreases src.len() - k,
{
    if k < src.len() {
        assert(a[k + 2] == src[k]);
        lemma_sub_plain(a, src, rest, k + 1);
    } else {
        assert(a[k + 2] == ')');
    }
}

/// A backslash takes the next character as it is; outside quotes any, inside double
/// quotes only a quote, a backslash or a `$`.
pub proof fn backslashes_take_the_next_character(
    s: Seq<char>,
    pos: int,
    lit: Seq<char>,
    parts: WordV,
    cut: Option<int>,
    why: Option<Seq<char>>,
    had: nat,
)
    requires
        0 <= pos,
        pos + 1 < s.len(),
        s[pos] == '\\',
        s[pos + 1] != '\n',
    ensures
        lexer::word_from(s, pos, lit, parts, cut, why) == lexer::word_from(
            s,
            pos + 2,
            lit.push(s[pos + 1]),
            parts,
            Some(
                match cut {
                    Some(k) => k,
                    None => lit.len() as int,
                },
            ),
            why,
        ),
        s[pos + 1] == '"' || s[pos + 1] == '\\' || s[pos + 1] == '$' ==> lexer::dquote_from(
            s,
            pos,
            lit,
            parts,
            had,
        ) == lexer::dquote_from(s, pos + 2, lit.push(s[pos + 1]), parts, had),
        s[pos + 1] != '"' && s[pos + 1] != '\\' && s[pos + 1] != '$' ==> lexer::dquote_from(
            s,
            pos,
            lit,
            parts,
            had,
        ) == lexer::dquote_from(s, pos + 1, lit.push('\\'), parts, had),
{
}

/// The body of a heredoc is the lines up to the delimiter, each with its newline; with
/// `<<-` without the tabs before them.
pub proof fn heredocs_hold_their_lines(
    line: Seq<char>,
    s: Seq<char>,
    delim: Seq<char>,
    strip: bool,
    acc: Seq<char>,
)
    requires
        !line.contains('\n'),
    ensures
        ({
            let kept = if strip {
                text::trim_start(line, '\t')
            } else {
                line
            };
            let all = line + seq!['\n'] + s;
            &&& kept == delim ==> lexer::doc_body(all, 0, delim, strip, acc) == Some(
                (acc, line.len() as int + 1),
            )
            &&& kept != delim ==> lexer::doc_body(all, 0, delim, strip, acc) == lexer::doc_body(
                all,
                line.len() as int + 1,
                delim,
                strip,
                acc + kept + seq!['\n'],
            )
        }),
{
    let all = line + seq!['\n'] + s;
    let n = line.len() as int;
    text::lemma_index_from(all, '\n', 0);
    let e = text::index_from(all, '\n', 0);
    assert(all[n] == '\n');
    assert(e == n) by {
        if e < n {
            assert(all[e] == line[e]);
            assert(line.contains(line[e]));
        }
    }
    assert(all.subrange(0, n) =~= line);
    let kept = if strip {
        text::trim_start(line, '\t')
    } else {
        line
    };
    assert(acc + kept.push('\n') =~= acc + kept + seq!['\n']);
}

} // verus!
