//! The parts of a heredoc body.
//!
//! With an unquoted delimiter `$VAR`, `$?`, `${...}` and `$(...)` expand, without
//! word splitting. A backslash only escapes `$`, `` ` `` and `\`.
use crate::shell::ast;
use crate::shell::ast::{PartV, Word, WordPart, WordV};
use crate::shell::lexer;
use crate::text;
use vstd::prelude::*;

verus! {

broadcast use crate::text::views_push;

/// The `)` that closes a `$(` in a heredoc: parens nest, single quotes hide them.
pub open spec fn doc_sub_end(s: Seq<char>, j: int, depth: nat) -> Option<int>
    decreases s.len() + 1 - j,
{
    if j < 0 || j >= s.len() {
        None
    } else if s[j] == '(' {
        doc_sub_end(s, j + 1, depth + 1)
    } else if s[j] == ')' {
        if depth <= 1 {
            Some(j)
        } else {
            doc_sub_end(s, j + 1, (depth - 1) as nat)
        }
    } else if s[j] == '\'' {
        proof {
            text::lemma_index_from(s, '\'', j + 1);
        }
        doc_sub_end(s, text::index_from(s, '\'', j + 1) + 1, depth)
    } else {
        doc_sub_end(s, j + 1, depth)
    }
}

pub proof fn lemma_doc_sub_end(s: Seq<char>, j: int, depth: nat)
    requires
        0 <= j,
    ensures
        doc_sub_end(s, j, depth) is Some ==> j <= doc_sub_end(s, j, depth)->0 < s.len(),
    decreases s.len() + 1 - j,
{
    if j < s.len() {
        if s[j] == '(' {
            lemma_doc_sub_end(s, j + 1, depth + 1);
        } else if s[j] == ')' {
            if depth > 1 {
                lemma_doc_sub_end(s, j + 1, (depth - 1) as nat);
            }
        } else if s[j] == '\'' {
            text::lemma_index_from(s, '\'', j + 1);
            lemma_doc_sub_end(s, text::index_from(s, '\'', j + 1) + 1, depth);
        } else {
            lemma_doc_sub_end(s, j + 1, depth);
        }
    }
}

/// A `$` in a heredoc: an expansion, or text, and the position behind it.
pub open spec fn doc_dollar(s: Seq<char>, i: int) -> (PartV, int) {
    let p = i + 1;
    if p >= s.len() {
        (PartV::Lit("$"@), p)
    } else if s[p] == '(' {
        match doc_sub_end(s, p + 1, 1) {
            Some(e) => (PartV::SubQuotedRaw(s.subrange(p + 1, e)), e + 1),
            None => (PartV::Lit("$(unterminated"@), p + 1),
        }
    } else if s[p] == '{' {
        let e = text::index_from(s, '}', p + 1);
        if e < s.len() {
            (PartV::VarQuoted(s.subrange(p + 1, e)), e + 1)
        } else {
            (PartV::Lit("${"@), p + 1)
        }
    } else if text::is_name_char(s[p]) {
        let e = lexer::name_end(s, p);
        (PartV::VarQuoted(s.subrange(p, e)), e)
    } else if s[p] == '?' || s[p] == '#' {
        (PartV::VarQuoted(seq![s[p]]), p + 1)
    } else {
        (PartV::Lit("$"@), p)
    }
}

pub proof fn lemma_doc_dollar(s: Seq<char>, i: int)
    requires
        0 <= i < s.len(),
    ensures
        i < doc_dollar(s, i).1 <= s.len(),
{
    let p = i + 1;
    if p < s.len() {
        lemma_doc_sub_end(s, p + 1, 1);
        text::lemma_index_from(s, '}', p + 1);
        lexer::lemma_name_end(s, p);
    }
}

pub open spec fn doc_parts(s: Seq<char>, i: int, parts: WordV) -> WordV
    decreases s.len() - i,
{
    if i < 0 || i >= s.len() {
        parts
    } else if s[i] == '\\' && i + 1 < s.len() && (s[i + 1] == '$' || s[i + 1] == '`' || s[i + 1]
        == '\\') {
        doc_parts(s, i + 2, parts.push(PartV::Lit(seq![s[i + 1]])))
    } else if s[i] == '$' {
        proof {
            lemma_doc_dollar(s, i);
        }
        doc_parts(s, doc_dollar(s, i).1, parts.push(doc_dollar(s, i).0))
    } else {
        doc_parts(s, i + 1, parts.push(PartV::Lit(seq![s[i]])))
    }
}

/// The word whose unsplit expansion is what a heredoc feeds to stdin.
pub open spec fn doc_word(body: Seq<char>) -> WordV {
    doc_parts(body, 0, seq![])
}

fn find_sub_end(s: &[char], from: usize) -> (r: Option<usize>)
    requires
        1 <= from <= s@.len(),
    ensures
        match r {
            Some(e) => doc_sub_end(s@, from as int, 1) == Some(e as int) && from <= e < s@.len(),
            None => doc_sub_end(s@, from as int, 1) is None,
        },
{
    let mut depth: usize = 1;
    let mut j: usize = from;
    while j < s.len()
        invariant
            1 <= from <= j <= s@.len(),
            1 <= depth <= j - from + 1,
            doc_sub_end(s@, from as int, 1) == doc_sub_end(s@, j as int, depth as nat),
        decreases s@.len() - j,
    {
        let c = s[j];
        if c == '(' {
            depth = depth + 1;
        } else if c == ')' {
            if depth == 1 {
                return Some(j);
            }
            depth = depth - 1;
        } else if c == '\'' {
            j = text::find_from(s, '\'', j + 1);
            if j >= s.len() {
                assert(doc_sub_end(s@, j + 1, depth as nat) is None);
                return None;
            }
        }
        j = j + 1;
    }
    None
}

fn read_dollar(s: &[char], i: usize) -> (r: (WordPart, usize))
    requires
        i < s@.len(),
    ensures
        (r.0@, r.1 as int) == doc_dollar(s@, i as int),
        i < r.1 <= s@.len(),
{
    proof {
        lemma_doc_dollar(s@, i as int);
    }
    let n: usize = s.len();
    let p: usize = i + 1;
    if p >= n {
        return (WordPart::Lit(text::owned("$")), p);
    }
    let c = s[p];
    if c == '(' {
        match find_sub_end(s, p + 1) {
            Some(e) => (WordPart::SubQuotedRaw(text::string_of(s, p + 1, e)), e + 1),
            None => (WordPart::Lit(text::owned("$(unterminated")), p + 1),
        }
    } else if c == '{' {
        let e = text::find_from(s, '}', p + 1);
        if e < n {
            (WordPart::VarQuoted(text::string_of(s, p + 1, e)), e + 1)
        } else {
            (WordPart::Lit(text::owned("${")), p + 1)
        }
    } else if text::name_char(c) {
        let e = lexer::skip_name(s, p);
        (WordPart::VarQuoted(text::string_of(s, p, e)), e)
    } else if c == '?' || c == '#' {
        let name = text::string_of(s, p, p + 1);
        assert(name@ =~= seq![c]);
        (WordPart::VarQuoted(name), p + 1)
    } else {
        (WordPart::Lit(text::owned("$")), p)
    }
}

/// Read the parts of a heredoc body.
pub fn heredoc_word(body: &str) -> (r: Word)
    ensures
        r@ == doc_word(body@),
{
    let s = text::chars_of(body);
    let mut parts: Vec<WordPart> = Vec::new();
    let mut i: usize = 0;
    assert(ast::parts_view(parts@) =~= seq![]);
    while i < s.len()
        invariant
            s@ == body@,
            i <= s@.len(),
            doc_word(body@) == doc_parts(body@, i as int, ast::parts_view(parts@)),
        decreases s@.len() - i,
    {
        if s[i] == '\\' && s.len() - i > 1 && (s[i + 1] == '$' || s[i + 1] == '`' || s[i + 1]
            == '\\') {
            let t = text::string_of(&s, i + 1, i + 2);
            assert(t@ =~= seq![s@[i + 1]]);
            parts.push(WordPart::Lit(t));
            i = i + 2;
        } else if s[i] == '$' {
            let (part, e) = read_dollar(&s, i);
            parts.push(part);
            i = e;
        } else {
            let t = text::string_of(&s, i, i + 1);
            assert(t@ =~= seq![s@[i as int]]);
            parts.push(WordPart::Lit(t));
            i = i + 1;
        }
    }
    Word { parts }
}

} // verus!
