//! What holds of texts: numbers, splitting, joining, trimming.
use crate::text;
use crate::text::Sep;
use vstd::prelude::*;

verus! {

// ---- numbers ----

proof fn lemma_decimal_value(n: nat)
    ensures
        text::all_digits(text::decimal_nat(n)),
        text::digits_value(text::decimal_nat(n)) == n,
    decreases n,
{
    let s = text::decimal_nat(n);
    if n < 10 {
        let d = text::digit_char(n as int);
        assert(s =~= seq![d]);
        assert(s.drop_last() =~= seq![]);
        assert(text::digits_value(s.drop_last()) == 0);
    } else {
        lemma_decimal_value(n / 10);
        let front = text::decimal_nat(n / 10);
        assert(s.drop_last() =~= front);
        assert forall|i: int| 0 <= i < s.len() implies text::is_digit(#[trigger] s[i]) by {
            if i < front.len() {
                assert(s[i] == front[i]);
            }
        }
    }
}

/// A number that is written reads back, whatever its sign.
pub proof fn a_written_number_reads_back(n: int)
    ensures
        text::integer(text::decimal(n)) == Some(n),
        n >= 0 ==> text::natural(text::decimal(n)) == Some(n),
{
    if n < 0 {
        lemma_decimal_value((-n) as nat);
        let s = text::decimal(n);
        assert(s.skip(1) =~= text::decimal_nat((-n) as nat));
    } else {
        lemma_decimal_value(n as nat);
        let s = text::decimal(n);
        assert(text::is_digit(s[0]));
    }
}

/// Decimal numbers are read digit by digit: one more digit makes ten times as much
/// and the digit, and a text with anything else in it is no number.
pub proof fn digits_are_decimal(s: Seq<char>, d: char)
    requires
        text::natural(s) is Some,
    ensures
        '0' <= d <= '9' ==> text::natural(s.push(d)) == Some(
            text::natural(s)->0 * 10 + (d as int - '0' as int),
        ),
        !('0' <= d <= '9') ==> text::natural(s.push(d)) is None,
        text::natural(seq![d]) == (if '0' <= d <= '9' {
            Some(d as int - '0' as int)
        } else {
            None
        }),
        text::integer(seq!['-'] + s) == Some(-(text::natural(s)->0)),
        text::integer(seq!['+'] + s) == text::natural(s),
{
    let t = s.push(d);
    assert(t.drop_last() =~= s);
    assert(t[t.len() - 1] == d);
    assert forall|i: int| 0 <= i < s.len() implies t[i] == s[i] by {}
    if '0' <= d <= '9' {
        assert(text::all_digits(t)) by {
            assert forall|i: int| 0 <= i < t.len() implies text::is_digit(#[trigger] t[i]) by {
                if i < s.len() {
                    assert(text::is_digit(s[i]));
                }
            }
        }
    } else {
        assert(!text::is_digit(t[t.len() - 1]));
    }
    let one = seq![d];
    assert(one.drop_last() =~= seq![]);
    assert(text::digits_value(one.drop_last()) == 0);
    assert(one[0] == d);
    assert((seq!['-'] + s).skip(1) =~= s);
    assert((seq!['+'] + s).skip(1) =~= s);
}

// ---- splitting and joining ----

proof fn lemma_pieces_at(sep: Sep, cur: Seq<char>, a: Seq<char>, c: char, b: Seq<char>)
    requires
        text::is_sep(sep, c),
    ensures
        text::pieces(sep, cur, a.push(c) + b) == text::pieces(sep, cur, a) + text::pieces(
            sep,
            seq![],
            b,
        ),
    decreases a.len(),
{
    let s = a.push(c) + b;
    if a.len() == 0 {
        assert(s[0] == c);
        assert(s.skip(1) =~= b);
    } else {
        assert(s[0] == a[0]);
        assert(s.skip(1) =~= a.skip(1).push(c) + b);
        if text::is_sep(sep, a[0]) {
            lemma_pieces_at(sep, seq![], a.skip(1), c, b);
            assert(text::pieces(sep, cur, s) =~= text::pieces(sep, cur, a) + text::pieces(
                sep,
                seq![],
                b,
            ));
        } else {
            lemma_pieces_at(sep, cur.push(a[0]), a.skip(1), c, b);
        }
    }
}

proof fn lemma_whole_piece(sep: Sep, cur: Seq<char>, s: Seq<char>)
    requires
        forall|i: int| 0 <= i < s.len() ==> !text::is_sep(sep, #[trigger] s[i]),
        cur.len() + s.len() > 0,
    ensures
        text::pieces(sep, cur, s) == seq![cur + s],
    decreases s.len(),
{
    if s.len() == 0 {
        assert(cur + s =~= cur);
    } else {
        let t = s.skip(1);
        assert forall|i: int| 0 <= i < t.len() implies !text::is_sep(sep, #[trigger] t[i]) by {
            assert(t[i] == s[i + 1]);
        }
        assert(!text::is_sep(sep, s[0]));
        lemma_whole_piece(sep, cur.push(s[0]), t);
        assert(cur.push(s[0]) + t =~= cur + s);
    }
}

/// A text is split exactly at its separators: what has none is one piece, a
/// separator parts what is before it from what is behind it, and nothing makes no
/// piece.
pub proof fn texts_split_at_separators(sep: Sep, a: Seq<char>, c: char, b: Seq<char>)
    ensures
        text::pieces(sep, seq![], seq![]).len() == 0,
        a.len() > 0 && (forall|i: int| 0 <= i < a.len() ==> !text::is_sep(sep, #[trigger] a[i]))
            ==> text::pieces(sep, seq![], a) == seq![a],
        text::is_sep(sep, c) ==> text::pieces(sep, seq![], a.push(c) + b) == text::pieces(
            sep,
            seq![],
            a,
        ) + text::pieces(sep, seq![], b),
        text::is_sep(Sep::Slash, c) <==> c == '/',
        c == ' ' || c == '\t' || c == '\n' || c == '\r' ==> text::is_sep(Sep::White, c),
        33 <= c as u32 <= 126 ==> !text::is_sep(Sep::White, c),
{
    if a.len() > 0 && (forall|i: int| 0 <= i < a.len() ==> !text::is_sep(sep, #[trigger] a[i])) {
        lemma_whole_piece(sep, seq![], a);
        assert(seq![] + a =~= a);
    }
    if text::is_sep(sep, c) {
        lemma_pieces_at(sep, seq![], a, c, b);
    }
}

/// Joining puts the separator between neighbours and nowhere else.
pub proof fn joining_separates_neighbours(
    first: Seq<char>,
    rest: Seq<Seq<char>>,
    sep: Seq<char>,
)
    ensures
        text::joined(seq![], sep).len() == 0,
        text::joined(seq![first], sep) == first,
        rest.len() > 0 ==> text::joined(seq![first] + rest, sep) == first + sep + text::joined(
            rest,
            sep,
        ),
    decreases rest.len(),
{
    let all = seq![first] + rest;
    if rest.len() > 0 {
        assert(all.drop_last() =~= seq![first] + rest.drop_last());
        assert(all.last() == rest.last());
        if rest.len() == 1 {
            assert(rest.drop_last() =~= seq![]);
            assert(all.drop_last() =~= seq![first]);
            assert(text::joined(seq![first], sep) == first);
            assert(all.len() == 2 && all.last() == rest[0]);
            assert(text::joined(rest, sep) == rest[0]);
            assert(text::joined(all, sep) == first + sep + rest[0]);
        } else {
            joining_separates_neighbours(first, rest.drop_last(), sep);
            assert((first + sep + text::joined(rest.drop_last(), sep)) + sep + rest.last()
                =~= first + sep + (text::joined(rest.drop_last(), sep) + sep + rest.last()));
        }
    }
}

// ---- trimming ----

/// Trimming takes off all of `c` at that end, and nothing else.
pub proof fn trimming_takes_only_the_ends(s: Seq<char>, c: char)
    ensures
        text::trim_end(s, c).len() <= s.len(),
        s.take(text::trim_end(s, c).len() as int) == text::trim_end(s, c),
        forall|i: int| text::trim_end(s, c).len() <= i < s.len() ==> s[i] == c,
        text::trim_end(s, c).len() > 0 ==> text::trim_end(s, c).last() != c,
        text::trim_start(s, c).len() <= s.len(),
        s.skip(s.len() - text::trim_start(s, c).len()) == text::trim_start(s, c),
        forall|i: int| 0 <= i < s.len() - text::trim_start(s, c).len() ==> s[i] == c,
        text::trim_start(s, c).len() > 0 ==> text::trim_start(s, c)[0] != c,
    decreases s.len(),
{
    if s.len() > 0 && s.last() == c {
        let t = s.drop_last();
        trimming_takes_only_the_ends(t, c);
        assert(s.take(text::trim_end(t, c).len() as int) =~= t.take(
            text::trim_end(t, c).len() as int,
        ));
        assert forall|i: int| text::trim_end(t, c).len() <= i < s.len() implies s[i] == c by {
            if i < t.len() {
                assert(t[i] == s[i]);
            }
        }
    } else {
        assert(s.take(s.len() as int) =~= s);
    }
    if s.len() > 0 && s[0] == c {
        let t = s.skip(1);
        trimming_takes_only_the_ends(t, c);
        let n = text::trim_start(t, c).len();
        assert(s.skip(s.len() - n) =~= t.skip(t.len() - n));
        assert forall|i: int| 0 <= i < s.len() - n implies s[i] == c by {
            if i > 0 {
                assert(t[i - 1] == s[i]);
            }
        }
    } else {
        assert(s.skip(0) =~= s);
    }
}

proof fn lemma_white_end(s: Seq<char>)
    ensures
        text::trim_white_end(s).len() <= s.len(),
        s.take(text::trim_white_end(s).len() as int) == text::trim_white_end(s),
        forall|i: int|
            text::trim_white_end(s).len() <= i < s.len() ==> text::is_white(#[trigger] s[i]),
        text::trim_white_end(s).len() > 0 ==> !text::is_white(text::trim_white_end(s).last()),
    decreases s.len(),
{
    if s.len() > 0 && text::is_white(s.last()) {
        let t = s.drop_last();
        lemma_white_end(t);
        let n = text::trim_white_end(t).len() as int;
        assert(s.take(n) =~= t.take(n));
        assert forall|i: int| n <= i < s.len() implies text::is_white(#[trigger] s[i]) by {
            if i < t.len() {
                assert(text::is_white(t[i]));
            }
        }
    } else {
        assert(s.take(s.len() as int) =~= s);
    }
}

proof fn lemma_white_start(s: Seq<char>)
    ensures
        text::trim_white_start(s).len() <= s.len(),
        s.skip(s.len() - text::trim_white_start(s).len()) == text::trim_white_start(s),
        forall|i: int|
            0 <= i < s.len() - text::trim_white_start(s).len() ==> text::is_white(#[trigger] s[i]),
        text::trim_white_start(s).len() > 0 ==> !text::is_white(text::trim_white_start(s)[0]),
    decreases s.len(),
{
    if s.len() > 0 && text::is_white(s[0]) {
        let t = s.skip(1);
        lemma_white_start(t);
        let n = text::trim_white_start(t).len();
        assert(s.skip(s.len() - n) =~= t.skip(t.len() - n));
        assert forall|i: int| 0 <= i < s.len() - n implies text::is_white(#[trigger] s[i]) by {
            if i > 0 {
                assert(text::is_white(t[i - 1]));
            }
        }
    } else {
        assert(s.skip(0) =~= s);
    }
}

/// A trimmed text is what is left of the text when the white space at both its ends,
/// and nothing else, is gone: `from` is where it starts.
pub proof fn a_trimmed_text_is_the_middle(s: Seq<char>) -> (from: int)
    ensures
        0 <= from <= from + text::trim(s).len() <= s.len(),
        s.subrange(from, from + text::trim(s).len()) == text::trim(s),
        forall|i: int|
            0 <= i < from || from + text::trim(s).len() <= i < s.len() ==> text::is_white(
                #[trigger] s[i],
            ),
        text::trim(s).len() > 0 ==> !text::is_white(text::trim(s)[0]) && !text::is_white(
            text::trim(s).last(),
        ),
{
    let t = text::trim_white_start(s);
    lemma_white_start(s);
    lemma_white_end(t);
    let from = s.len() - t.len();
    let r = text::trim(s);
    assert(s.subrange(from, from + r.len()) =~= t.take(r.len() as int));
    assert forall|i: int|
        0 <= i < from || from + r.len() <= i < s.len() implies text::is_white(#[trigger] s[i]) by {
        if i >= from {
            assert(t[i - from] == s[i]);
            assert(text::is_white(t[i - from]));
        }
    }
    if r.len() > 0 {
        assert(r[0] == t[0]);
    }
    from
}

// ---- searching ----

/// A prefix is taken off where it is there, and only there.
pub proof fn prefixes_come_off(p: Seq<char>, s: Seq<char>)
    ensures
        text::after_prefix(p + s, p) == Some(s),
        text::after_prefix(s, p) matches Some(rest) ==> s == p + rest,
        text::starts_with(s, p) <==> p.is_prefix_of(s),
        text::ends_with(s + p, p),
        text::ends_with(s, p) ==> s.len() >= p.len() && s == s.take(s.len() - p.len()) + p,
        text::occurs_in(s + p + s, p),
{
    assert((p + s).subrange(0, p.len() as int) =~= p);
    assert((p + s).skip(p.len() as int) =~= s);
    if text::starts_with(s, p) {
        assert(s =~= p + s.skip(p.len() as int));
        assert(p =~= s.subrange(0, p.len() as int));
    }
    if p.is_prefix_of(s) {
        assert(s.subrange(0, p.len() as int) =~= p);
    }
    assert((s + p).subrange(s.len() as int, (s + p).len() as int) =~= p);
    if text::ends_with(s, p) {
        assert(s =~= s.take(s.len() - p.len()) + p);
    }
    assert((s + p + s).subrange(s.len() as int, (s.len() + p.len()) as int) =~= p);
    assert(text::occurs_at(s + p + s, p, s.len() as int));
}

/// The order of texts: a text comes after its own beginnings, and where two first
/// differ their characters decide.
pub proof fn texts_are_ordered_by_their_first_difference(
    p: Seq<char>,
    a: char,
    s: Seq<char>,
    b: char,
    t: Seq<char>,
)
    ensures
        text::text_lt(p, p + seq![a] + s),
        !text::text_lt(p + seq![a] + s, p),
        !text::text_lt(p, p),
        a as u32 != b as u32 ==> (text::text_lt(p + seq![a] + s, p + seq![b] + t) <==> (a as u32)
            < (b as u32)),
    decreases p.len(),
{
    let x = p + seq![a] + s;
    let y = p + seq![b] + t;
    if p.len() > 0 {
        texts_are_ordered_by_their_first_difference(p.skip(1), a, s, b, t);
        assert(x.skip(1) =~= p.skip(1) + seq![a] + s);
        assert(y.skip(1) =~= p.skip(1) + seq![b] + t);
    } else {
        assert(x[0] == a && y[0] == b);
    }
}

/// Names start with a letter or an underscore, and go on with letters, digits and
/// underscores.
pub proof fn names_are_letters_digits_and_underscores(s: Seq<char>, c: char)
    requires
        text::is_name(s),
    ensures
        text::is_name(s.push(c)) <==> ('a' <= c <= 'z' || 'A' <= c <= 'Z' || '0' <= c <= '9' || c
            == '_'),
        text::is_name(seq![c]) <==> ('a' <= c <= 'z' || 'A' <= c <= 'Z' || c == '_'),
        !text::is_name(seq![]),
{
    let t = s.push(c);
    assert(t[0] == s[0]);
    assert forall|i: int| 0 <= i < s.len() implies t[i] == s[i] by {}
    assert(t[t.len() - 1] == c);
    if text::is_name_char(c) {
        assert forall|i: int| 0 <= i < t.len() implies text::is_name_char(#[trigger] t[i]) by {
            if i < s.len() {
                assert(text::is_name_char(s[i]));
            }
        }
        assert(text::is_name(t));
    } else {
        assert(!text::is_name_char(t[t.len() - 1]));
    }
    let one = seq![c];
    assert(one[0] == c);
    if text::is_name_char(c) && !text::is_digit(c) {
        assert(text::is_name(one));
    }
    if text::is_name(one) {
        assert(text::is_name_char(one[0]));
    }
}

} // verus!
