//! Text that commands are made of and that builtins print: word splitting,
//! `echo`, `printf` and `test`.
use crate::text;
use crate::text::Sep;
use vstd::prelude::*;

verus! {

broadcast use crate::text::views_push;

// ---- word splitting ----

/// The fields of a word that are made so far: the finished ones, the open one,
/// whether the last part was an expansion that made several, and whether there
/// was a part that counts even when it is empty.
pub struct Fields {
    pub done: Vec<String>,
    pub cur: String,
    pub after_expansion: bool,
    pub saw_literal: bool,
}

#[verifier::ext_equal]
pub struct FieldsV {
    pub done: Seq<Seq<char>>,
    pub cur: Seq<char>,
    pub after_expansion: bool,
    pub saw_literal: bool,
}

impl View for Fields {
    type V = FieldsV;

    open spec fn view(&self) -> FieldsV {
        FieldsV {
            done: text::texts(self.done@),
            cur: self.cur@,
            after_expansion: self.after_expansion,
            saw_literal: self.saw_literal,
        }
    }
}

pub open spec fn no_fields() -> FieldsV {
    FieldsV { done: seq![], cur: seq![], after_expansion: false, saw_literal: false }
}

/// Text that is not split: it joins the field before it.
pub open spec fn add_whole(f: FieldsV, s: Seq<char>) -> FieldsV {
    if f.after_expansion && f.done.len() > 0 {
        FieldsV {
            done: f.done.update(f.done.len() - 1, f.done.last() + s),
            after_expansion: false,
            saw_literal: true,
            ..f
        }
    } else {
        FieldsV { cur: f.cur + s, after_expansion: false, saw_literal: true, ..f }
    }
}

/// An unquoted expansion, split at white space. The first token joins the
/// current field; further tokens each start a new field.
pub open spec fn add_split(f: FieldsV, s: Seq<char>) -> FieldsV {
    let t = text::pieces(Sep::White, seq![], s);
    if t.len() == 0 {
        f
    } else if t.len() == 1 {
        FieldsV { cur: f.cur + t[0], ..f }
    } else {
        FieldsV {
            done: f.done.push(f.cur + t[0]) + t.skip(1),
            cur: seq![],
            after_expansion: true,
            ..f
        }
    }
}

/// The fields of a finished word. A word of nothing but empty expansions has
/// none; an empty literal is one empty field.
pub open spec fn finished(f: FieldsV) -> Seq<Seq<char>> {
    if f.cur.len() > 0 {
        f.done.push(f.cur)
    } else if f.done.len() == 0 && f.saw_literal {
        seq![seq![]]
    } else {
        f.done
    }
}

/// A word of one unsplit part is one field, that part.
pub proof fn unsplit_word_is_one_field(s: Seq<char>)
    ensures
        finished(add_whole(no_fields(), s)) == seq![s],
{
    assert(seq![] + s =~= s);
    assert(finished(add_whole(no_fields(), s)) =~= seq![s]);
}

/// An unquoted expansion alone gives the words of its value.
pub proof fn split_word_is_its_pieces(s: Seq<char>)
    ensures
        finished(add_split(no_fields(), s)) == text::pieces(Sep::White, seq![], s),
{
    let t = text::pieces(Sep::White, seq![], s);
    lemma_pieces_not_empty(seq![], s);
    if t.len() == 1 {
        assert(seq![] + t[0] =~= t[0]);
        assert(finished(add_split(no_fields(), s)) =~= t);
    } else if t.len() > 1 {
        assert(seq![] + t[0] =~= t[0]);
        assert(finished(add_split(no_fields(), s)) =~= t);
    } else {
        assert(finished(add_split(no_fields(), s)) =~= t);
    }
}

proof fn lemma_pieces_not_empty(cur: Seq<char>, s: Seq<char>)
    ensures
        forall|k: int|
            0 <= k < text::pieces(Sep::White, cur, s).len() ==> (#[trigger] text::pieces(
                Sep::White,
                cur,
                s,
            )[k]).len() > 0,
    decreases s.len(),
{
    let all = text::pieces(Sep::White, cur, s);
    if s.len() > 0 {
        if text::is_white(s[0]) {
            lemma_pieces_not_empty(seq![], s.skip(1));
            let tail = text::pieces(Sep::White, seq![], s.skip(1));
            let head = text::closed_piece(cur);
            assert(all == head + tail);
            assert forall|k: int| 0 <= k < all.len() implies (#[trigger] all[k]).len() > 0 by {
                if k >= head.len() {
                    assert(all[k] == tail[k - head.len()]);
                }
            }
        } else {
            lemma_pieces_not_empty(cur.push(s[0]), s.skip(1));
            let rest = text::pieces(Sep::White, cur.push(s[0]), s.skip(1));
            assert(forall|k: int| 0 <= k < rest.len() ==> (#[trigger] rest[k]).len() > 0);
            assert(all == rest);
        }
    } else {
        let rest = text::closed_piece(cur);
        assert(forall|k: int| 0 <= k < rest.len() ==> (#[trigger] rest[k]).len() > 0);
        assert(all == rest);
    }
}

impl Fields {
    pub fn new() -> (r: Fields)
        ensures
            r@ == no_fields(),
    {
        let f = Fields {
            done: Vec::new(),
            cur: String::new(),
            after_expansion: false,
            saw_literal: false,
        };
        assert(f@ =~= no_fields());
        f
    }

    pub fn whole(&mut self, s: &str)
        ensures
            final(self)@ == add_whole(old(self)@, s@),
    {
        let ghost before = self@;
        if self.after_expansion && self.done.len() > 0 {
            let n: usize = self.done.len() - 1;
            let mut last = self.done[n].clone();
            assert(last@ == before.done.last());
            last.append(s);
            self.done.set(n, last);
            assert(text::texts(self.done@) =~= before.done.update(n as int, last@));
        } else {
            self.cur.append(s);
        }
        self.after_expansion = false;
        self.saw_literal = true;
        assert(self@ =~= add_whole(before, s@));
    }

    pub fn split(&mut self, s: &str)
        ensures
            final(self)@ == add_split(old(self)@, s@),
    {
        let ghost before = self@;
        let t = text::split_pieces(Sep::White, s);
        let ghost tv = text::texts(t@);
        if t.len() == 0 {
        } else {
            assert(tv[0] == t@[0]@);
            let mut first = self.cur.clone();
            first.append(t[0].as_str());
            if t.len() == 1 {
                self.cur = first;
            } else {
                self.done.push(first);
                self.cur = String::new();
                self.after_expansion = true;
                let ghost base = text::texts(self.done@);
                let mut i: usize = 1;
                assert(base + tv.subrange(1, 1) =~= base);
                while i < t.len()
                    invariant
                        1 <= i <= t@.len(),
                        tv == text::texts(t@),
                        text::texts(self.done@) == base + tv.subrange(1, i as int),
                        self.cur@ == Seq::<char>::empty(),
                        self.after_expansion,
                        self.saw_literal == before.saw_literal,
                    decreases t@.len() - i,
                {
                    assert(tv[i as int] == t@[i as int]@);
                    self.done.push(t[i].clone());
                    i = i + 1;
                    assert(text::texts(self.done@) =~= base + tv.subrange(1, i as int));
                }
                assert(tv.subrange(1, i as int) =~= tv.skip(1));
                assert(self.cur@ =~= seq![]);
            }
        }
        assert(self@ =~= add_split(before, s@));
    }

    pub fn finish(self) -> (r: Vec<String>)
        ensures
            text::texts(r@) == finished(self@),
    {
        let mut done = self.done;
        if !self.cur.as_str().is_empty() {
            done.push(self.cur);
        } else if done.len() == 0 && self.saw_literal {
            let e = String::new();
            assert(e@ =~= seq![]);
            done.push(e);
            assert(text::texts(done@) =~= seq![seq![]]);
        }
        done
    }
}

// ---- echo ----

/// What the character behind a backslash stands for in `echo -e`.
pub open spec fn echo_escape(c: char) -> Option<char> {
    if c == 'n' {
        Some('\n')
    } else if c == 't' {
        Some('\t')
    } else if c == 'r' {
        Some('\r')
    } else if c == '\\' {
        Some('\\')
    } else if c == '"' {
        Some('"')
    } else if c == '\'' {
        Some('\'')
    } else {
        None
    }
}

/// `s` with its escapes resolved; an unknown escape stands for itself.
pub open spec fn unescaped(s: Seq<char>) -> Seq<char>
    decreases s.len(),
{
    if s.len() == 0 {
        seq![]
    } else if s[0] == '\\' && s.len() > 1 {
        (match echo_escape(s[1]) {
            Some(c) => seq![c],
            None => seq!['\\', s[1]],
        }) + unescaped(s.skip(2))
    } else {
        seq![s[0]] + unescaped(s.skip(1))
    }
}

pub fn push_escapes(out: &mut String, s: &str)
    ensures
        final(out)@ == old(out)@ + unescaped(s@),
{
    let v = text::chars_of(s);
    let ghost start = out@;
    let mut i: usize = 0;
    assert(s@.skip(0) =~= s@);
    assert(start + unescaped(s@) == out@ + unescaped(s@.skip(0)));
    while i < v.len()
        invariant
            v@ == s@,
            i <= v@.len(),
            start == old(out)@,
            start + unescaped(s@) == out@ + unescaped(s@.skip(i as int)),
        decreases v@.len() - i,
    {
        let ghost before = out@;
        let ghost rest = s@.skip(i as int);
        if v[i] == '\\' && v.len() - i > 1 {
            let c = v[i + 1];
            assert(rest[1] == c);
            assert(rest.skip(2) =~= s@.skip(i as int + 2));
            if c == 'n' {
                out.push('\n');
            } else if c == 't' {
                out.push('\t');
            } else if c == 'r' {
                out.push('\r');
            } else if c == '\\' || c == '"' || c == '\'' {
                out.push(c);
            } else {
                out.push('\\');
                out.push(c);
            }
            proof {
                let piece = match echo_escape(c) {
                    Some(x) => seq![x],
                    None => seq!['\\', c],
                };
                assert(out@ =~= before + piece);
                assert(before + (piece + unescaped(rest.skip(2))) =~= out@ + unescaped(
                    s@.skip(i as int + 2),
                ));
            }
            i = i + 2;
        } else {
            assert(rest.skip(1) =~= s@.skip(i as int + 1));
            out.push(v[i]);
            assert(before + (seq![rest[0]] + unescaped(rest.skip(1))) =~= out@ + unescaped(
                s@.skip(i as int + 1),
            ));
            i = i + 1;
        }
    }
    assert(unescaped(s@.skip(i as int)) =~= seq![]);
    assert(out@ =~= start + unescaped(s@));
}

/// What `echo` prints for its arguments: `-n` drops the newline, `-e` resolves
/// escapes; only one option is read.
pub open spec fn echo_text(args: Seq<Seq<char>>) -> Seq<char> {
    if args.len() > 0 && args[0] == "-n"@ {
        text::joined(args.skip(1), " "@)
    } else if args.len() > 0 && args[0] == "-e"@ {
        unescaped(text::joined(args.skip(1), " "@)).push('\n')
    } else {
        text::joined(args, " "@).push('\n')
    }
}

/// What `echo argv[1..]` prints.
pub fn echo(argv: &Vec<String>) -> (r: String)
    requires
        argv@.len() > 0,
    ensures
        r@ == echo_text(text::texts(argv@).skip(1)),
{
    let ghost a = text::texts(argv@);
    let ghost args = a.skip(1);
    proof {
        if a.len() > 1 {
            assert(a.skip(2) =~= args.skip(1));
            assert(args[0] == argv@[1]@);
        }
    }
    if argv.len() > 1 && text::same(argv[1].as_str(), "-n") {
        return text::join(argv, 2, " ");
    }
    if argv.len() > 1 && text::same(argv[1].as_str(), "-e") {
        let joined = text::join(argv, 2, " ");
        let mut out = String::new();
        push_escapes(&mut out, joined.as_str());
        assert(out@ =~= unescaped(joined@));
        out.push('\n');
        return out;
    }
    let mut out = text::join(argv, 1, " ");
    out.push('\n');
    out
}

// ---- printf ----

/// One conversion: the text for `spec`, given the argument (`None` when the
/// arguments are used up) and the argument rendered as a floating-point number.
pub open spec fn converted(spec: char, arg: Option<Seq<char>>, float: Seq<char>) -> Seq<char> {
    let a = match arg {
        Some(s) => s,
        None => seq![],
    };
    if spec == 's' {
        a
    } else if spec == 'd' || spec == 'i' {
        text::decimal(
            match text::within(text::integer(a), i64::MIN as int, i64::MAX as int) {
                Some(n) => n,
                None => 0,
            },
        )
    } else if spec == 'f' {
        float
    } else {
        seq!['%']
    }
}

/// The argument at `used`, if there is one.
pub open spec fn arg_at(args: Seq<Seq<char>>, used: int) -> Option<Seq<char>> {
    if 0 <= used < args.len() {
        Some(args[used])
    } else {
        None
    }
}

/// The rendering of the argument at `used`; a missing one counts as zero.
pub open spec fn float_at(floats: Seq<Seq<char>>, used: int) -> Seq<char> {
    if 0 <= used < floats.len() {
        floats[used]
    } else {
        "0"@
    }
}

/// One pass over the format from position `i`: how many arguments are used
/// then, and what is printed.
pub open spec fn format_pass(
    f: Seq<char>,
    i: int,
    args: Seq<Seq<char>>,
    floats: Seq<Seq<char>>,
    used: int,
    out: Seq<char>,
) -> (int, Seq<char>)
    decreases f.len() - i,
{
    if i < 0 || i >= f.len() {
        (used, out)
    } else if f[i] == '\\' && i + 1 < f.len() {
        let c = f[i + 1];
        let piece = if c == 'n' {
            seq!['\n']
        } else if c == 't' {
            seq!['\t']
        } else if c == 'r' {
            seq!['\r']
        } else if c == '\\' {
            seq!['\\']
        } else {
            seq!['\\', c]
        };
        format_pass(f, i + 2, args, floats, used, out + piece)
    } else if f[i] == '%' && i + 1 < f.len() {
        if f[i + 1] == '%' {
            format_pass(f, i + 2, args, floats, used, out.push('%'))
        } else {
            format_pass(
                f,
                i + 2,
                args,
                floats,
                if used < args.len() {
                    used + 1
                } else {
                    used
                },
                out + converted(f[i + 1], arg_at(args, used), float_at(floats, used)),
            )
        }
    } else {
        format_pass(f, i + 1, args, floats, used, out.push(f[i]))
    }
}

pub proof fn lemma_pass_uses(
    f: Seq<char>,
    i: int,
    args: Seq<Seq<char>>,
    floats: Seq<Seq<char>>,
    used: int,
    out: Seq<char>,
)
    requires
        0 <= used <= args.len(),
    ensures
        used <= format_pass(f, i, args, floats, used, out).0 <= args.len(),
    decreases f.len() - i,
{
    if 0 <= i < f.len() {
        if f[i] == '\\' && i + 1 < f.len() {
            let c = f[i + 1];
            let piece = if c == 'n' {
                seq!['\n']
            } else if c == 't' {
                seq!['\t']
            } else if c == 'r' {
                seq!['\r']
            } else if c == '\\' {
                seq!['\\']
            } else {
                seq!['\\', c]
            };
            lemma_pass_uses(f, i + 2, args, floats, used, out + piece);
        } else if f[i] == '%' && i + 1 < f.len() {
            if f[i + 1] == '%' {
                lemma_pass_uses(f, i + 2, args, floats, used, out.push('%'));
            } else {
                lemma_pass_uses(
                    f,
                    i + 2,
                    args,
                    floats,
                    if used < args.len() {
                        used + 1
                    } else {
                        used
                    },
                    out + converted(f[i + 1], arg_at(args, used), float_at(floats, used)),
                );
            }
        } else {
            lemma_pass_uses(f, i + 1, args, floats, used, out.push(f[i]));
        }
    }
}

/// The format is applied again as long as arguments are left and a pass uses some.
pub open spec fn printf_from(
    f: Seq<char>,
    args: Seq<Seq<char>>,
    floats: Seq<Seq<char>>,
    used: int,
    out: Seq<char>,
) -> Seq<char>
    decreases args.len() - used,
{
    let (now, text) = format_pass(f, 0, args, floats, used, out);
    if now <= used || now >= args.len() {
        text
    } else {
        printf_from(f, args, floats, now, text)
    }
}

/// What `printf` prints for a format and its arguments.
pub open spec fn printf_text(f: Seq<char>, args: Seq<Seq<char>>, floats: Seq<Seq<char>>) -> Seq<char> {
    printf_from(f, args, floats, 0, seq![])
}

/// Whether a format asks for a floating-point rendering somewhere.
pub open spec fn wants_float(f: Seq<char>, i: int) -> bool
    decreases f.len() - i,
{
    if i < 0 || i + 1 >= f.len() {
        false
    } else if f[i] == '\\' {
        wants_float(f, i + 2)
    } else if f[i] == '%' {
        f[i + 1] == 'f' || wants_float(f, i + 2)
    } else {
        wants_float(f, i + 1)
    }
}

/// A format without `%f` prints the same whatever the renderings are.
pub proof fn floats_only_matter_where_wanted(
    f: Seq<char>,
    i: int,
    args: Seq<Seq<char>>,
    x: Seq<Seq<char>>,
    y: Seq<Seq<char>>,
    used: int,
    out: Seq<char>,
)
    requires
        0 <= i,
        !wants_float(f, i),
    ensures
        format_pass(f, i, args, x, used, out) == format_pass(f, i, args, y, used, out),
    decreases f.len() - i,
{
    if i < f.len() {
        if f[i] == '\\' && i + 1 < f.len() {
            let c = f[i + 1];
            let piece = if c == 'n' {
                seq!['\n']
            } else if c == 't' {
                seq!['\t']
            } else if c == 'r' {
                seq!['\r']
            } else if c == '\\' {
                seq!['\\']
            } else {
                seq!['\\', c]
            };
            floats_only_matter_where_wanted(f, i + 2, args, x, y, used, out + piece);
        } else if f[i] == '%' && i + 1 < f.len() {
            if f[i + 1] == '%' {
                floats_only_matter_where_wanted(f, i + 2, args, x, y, used, out.push('%'));
            } else {
                floats_only_matter_where_wanted(
                    f,
                    i + 2,
                    args,
                    x,
                    y,
                    if used < args.len() {
                        used + 1
                    } else {
                        used
                    },
                    out + converted(f[i + 1], arg_at(args, used), float_at(x, used)),
                );
            }
        } else {
            floats_only_matter_where_wanted(f, i + 1, args, x, y, used, out.push(f[i]));
        }
    }
}

pub fn asks_for_float(fmt: &str) -> (r: bool)
    ensures
        r == wants_float(fmt@, 0),
{
    let f = text::chars_of(fmt);
    let mut i: usize = 0;
    while f.len() > 0 && i < f.len() - 1
        invariant
            f@ == fmt@,
            i <= f@.len(),
            wants_float(fmt@, 0) == wants_float(fmt@, i as int),
        decreases f@.len() - i,
    {
        if f[i] == '\\' {
            i = i + 2;
        } else if f[i] == '%' {
            if f[i + 1] == 'f' {
                return true;
            }
            i = i + 2;
        } else {
            i = i + 1;
        }
    }
    false
}

/// Render a printf format string, pulling arguments from `args[used..]`.
fn format_printf(
    fmt: &Vec<char>,
    args: &[String],
    floats: &Vec<String>,
    used: &mut usize,
    out: &mut String,
)
    requires
        *old(used) <= args@.len(),
    ensures
        (*final(used) as int, final(out)@) == format_pass(
            fmt@,
            0,
            text::texts(args@),
            text::texts(floats@),
            *old(used) as int,
            old(out)@,
        ),
        *old(used) <= *final(used) <= args@.len(),
{
    let ghost a = text::texts(args@);
    let ghost fl = text::texts(floats@);
    let ghost whole = format_pass(fmt@, 0, a, fl, *used as int, out@);
    proof {
        lemma_pass_uses(fmt@, 0, a, fl, *used as int, out@);
    }
    let n: usize = args.len();
    let mut i: usize = 0;
    while i < fmt.len()
        invariant
            i <= fmt@.len(),
            a == text::texts(args@),
            fl == text::texts(floats@),
            n == args@.len(),
            *used <= n,
            whole == format_pass(fmt@, i as int, a, fl, *used as int, out@),
            whole == format_pass(fmt@, 0, a, fl, *old(used) as int, old(out)@),
            *old(used) <= whole.0 <= n,
        decreases fmt@.len() - i,
    {
        let c = fmt[i];
        let ghost before = out@;
        if c == '\\' && fmt.len() - i > 1 {
            let d = fmt[i + 1];
            if d == 'n' {
                out.push('\n');
            } else if d == 't' {
                out.push('\t');
            } else if d == 'r' {
                out.push('\r');
            } else if d == '\\' {
                out.push('\\');
            } else {
                out.push('\\');
                out.push(d);
            }
            proof {
                let piece = if d == 'n' {
                    seq!['\n']
                } else if d == 't' {
                    seq!['\t']
                } else if d == 'r' {
                    seq!['\r']
                } else if d == '\\' {
                    seq!['\\']
                } else {
                    seq!['\\', d]
                };
                assert(out@ =~= before + piece);
            }
            i = i + 2;
        } else if c == '%' && fmt.len() - i > 1 {
            let d = fmt[i + 1];
            if d == '%' {
                out.push('%');
            } else {
                let have = *used < n;
                let arg = if have {
                    assert(a[*used as int] == args@[*used as int]@);
                    args[*used].clone()
                } else {
                    String::new()
                };
                let ghost u = *used as int;
                assert(arg@ =~= match arg_at(a, u) {
                    Some(s) => s,
                    None => seq![],
                });
                if d == 's' {
                    out.append(arg.as_str());
                } else if d == 'd' || d == 'i' {
                    let v: i64 = match text::parse_i64(arg.as_str()) {
                        Some(v) => v,
                        None => 0,
                    };
                    out.append(text::i64_text(v).as_str());
                } else if d == 'f' {
                    if *used < floats.len() {
                        assert(fl[*used as int] == floats@[*used as int]@);
                        out.append(floats[*used].as_str());
                    } else {
                        out.append("0");
                    }
                } else {
                    out.push('%');
                }
                assert(out@ =~= before + converted(d, arg_at(a, u), float_at(fl, u)));
                if have {
                    *used = *used + 1;
                }
            }
            i = i + 2;
        } else {
            out.push(c);
            i = i + 1;
        }
    }
}

/// What `printf` prints for a format and its arguments, given the renderings of
/// the arguments as floating-point numbers.
pub fn printf(fmt: &str, args: &[String], floats: &Vec<String>) -> (r: String)
    ensures
        r@ == printf_text(fmt@, text::texts(args@), text::texts(floats@)),
{
    let f = text::chars_of(fmt);
    let ghost a = text::texts(args@);
    let n: usize = args.len();
    let mut out = String::new();
    let mut used: usize = 0;
    assert(out@ =~= seq![]);
    loop
        invariant_except_break
            printf_text(fmt@, a, text::texts(floats@)) == printf_from(
                fmt@,
                a,
                text::texts(floats@),
                used as int,
                out@,
            ),
        invariant
            a == text::texts(args@),
            n == args@.len(),
            used <= n,
            f@ == fmt@,
        ensures
            out@ == printf_text(fmt@, a, text::texts(floats@)),
        decreases n - used,
    {
        let before: usize = used;
        format_printf(&f, args, floats, &mut used, &mut out);
        if used == before || used >= n {
            break;
        }
    }
    out
}

// ---- test ----

/// What `test -x` asks about a file.
#[derive(Clone, Copy)]
pub enum FileCheck {
    Exists,
    IsFile,
    IsDir,
    NotEmpty,
}

/// What a `test` expression comes to: a known answer, or a question about files.
pub enum TestPlan {
    Known(bool),
    File { path: String, check: FileCheck },
    /// Compare modification times: newer, or older where `older` is set.
    Age { a: String, b: String, older: bool },
}

#[verifier::ext_equal]
pub enum TestPlanV {
    Known(bool),
    File { path: Seq<char>, check: FileCheck },
    Age { a: Seq<char>, b: Seq<char>, older: bool },
}

impl View for TestPlan {
    type V = TestPlanV;

    open spec fn view(&self) -> TestPlanV {
        match self {
            TestPlan::Known(b) => TestPlanV::Known(*b),
            TestPlan::File { path, check } => TestPlanV::File { path: path@, check: *check },
            TestPlan::Age { a, b, older } => TestPlanV::Age { a: a@, b: b@, older: *older },
        }
    }
}

/// The number a text stands for in a comparison; 0 where it is none.
pub open spec fn number(s: Seq<char>) -> int {
    match text::within(text::integer(s), i64::MIN as int, i64::MAX as int) {
        Some(n) => n,
        None => 0,
    }
}

pub open spec fn unary_test(op: Seq<char>, a: Seq<char>) -> TestPlanV {
    if op == "!"@ {
        TestPlanV::Known(a.len() == 0)
    } else if op == "-e"@ {
        TestPlanV::File { path: a, check: FileCheck::Exists }
    } else if op == "-f"@ {
        TestPlanV::File { path: a, check: FileCheck::IsFile }
    } else if op == "-d"@ {
        TestPlanV::File { path: a, check: FileCheck::IsDir }
    } else if op == "-s"@ {
        TestPlanV::File { path: a, check: FileCheck::NotEmpty }
    } else if op == "-n"@ {
        TestPlanV::Known(a.len() > 0)
    } else if op == "-z"@ {
        TestPlanV::Known(a.len() == 0)
    } else {
        TestPlanV::Known(false)
    }
}

pub open spec fn binary_test(a: Seq<char>, op: Seq<char>, b: Seq<char>) -> TestPlanV {
    if op == "="@ || op == "=="@ {
        TestPlanV::Known(a == b)
    } else if op == "!="@ {
        TestPlanV::Known(a != b)
    } else if op == "-eq"@ {
        TestPlanV::Known(number(a) == number(b))
    } else if op == "-ne"@ {
        TestPlanV::Known(number(a) != number(b))
    } else if op == "-lt"@ {
        TestPlanV::Known(number(a) < number(b))
    } else if op == "-le"@ {
        TestPlanV::Known(number(a) <= number(b))
    } else if op == "-gt"@ {
        TestPlanV::Known(number(a) > number(b))
    } else if op == "-ge"@ {
        TestPlanV::Known(number(a) >= number(b))
    } else if op == "-nt"@ {
        TestPlanV::Age { a, b, older: false }
    } else if op == "-ot"@ {
        TestPlanV::Age { a, b, older: true }
    } else {
        TestPlanV::Known(false)
    }
}

/// A `test`/`[` expression. Unsupported forms are false.
pub open spec fn test_of(args: Seq<Seq<char>>) -> TestPlanV {
    if args.len() == 1 {
        TestPlanV::Known(args[0].len() > 0)
    } else if args.len() == 2 {
        unary_test(args[0], args[1])
    } else if args.len() == 3 {
        binary_test(args[0], args[1], args[2])
    } else if args.len() == 4 && args[0] == "!"@ && args[2] == "="@ {
        TestPlanV::Known(args[1] != args[3])
    } else if args.len() == 4 && args[0] == "!"@ && args[2] == "!="@ {
        TestPlanV::Known(args[1] == args[3])
    } else {
        TestPlanV::Known(false)
    }
}

/// `test a OP b` and its negation are never both true nor both false.
pub proof fn comparisons_come_in_pairs(a: Seq<char>, b: Seq<char>)
    ensures
        binary_test(a, "-eq"@, b) == TestPlanV::Known(number(a) == number(b)),
        binary_test(a, "-ne"@, b) == TestPlanV::Known(number(a) != number(b)),
        binary_test(a, "-lt"@, b) == TestPlanV::Known(number(a) < number(b)),
        binary_test(a, "-ge"@, b) == TestPlanV::Known(!(number(a) < number(b))),
        binary_test(a, "-gt"@, b) == TestPlanV::Known(number(a) > number(b)),
        binary_test(a, "-le"@, b) == TestPlanV::Known(!(number(a) > number(b))),
        binary_test(a, "="@, b) == TestPlanV::Known(a == b),
        binary_test(a, "!="@, b) == TestPlanV::Known(!(a == b)),
{
    reveal_strlit("=");
    reveal_strlit("==");
    reveal_strlit("!=");
    reveal_strlit("-eq");
    reveal_strlit("-ne");
    reveal_strlit("-lt");
    reveal_strlit("-le");
    reveal_strlit("-gt");
    reveal_strlit("-ge");
    assert("!="@[0] == '!');
    assert("-eq"@[1] == 'e' && "-ne"@[1] == 'n' && "-lt"@[1] == 'l' && "-lt"@[2] == 't');
    assert("-le"@[1] == 'l' && "-le"@[2] == 'e' && "-gt"@[1] == 'g' && "-gt"@[2] == 't');
    assert("-ge"@[1] == 'g' && "-ge"@[2] == 'e');
    assert("="@.len() == 1 && "=="@.len() == 2);
}

fn num(s: &str) -> (r: i64)
    ensures
        r == number(s@),
{
    match text::parse_i64(s) {
        Some(v) => v,
        None => 0,
    }
}

fn file_question(path: &String, check: FileCheck) -> (r: TestPlan)
    ensures
        r@ == (TestPlanV::File { path: path@, check }),
{
    TestPlan::File { path: path.clone(), check }
}

fn plan_unary(o: &str, a: &String) -> (r: TestPlan)
    ensures
        r@ == unary_test(o@, a@),
{
    if text::same(o, "!") {
        TestPlan::Known(a.as_str().is_empty())
    } else if text::same(o, "-e") {
        file_question(a, FileCheck::Exists)
    } else if text::same(o, "-f") {
        file_question(a, FileCheck::IsFile)
    } else if text::same(o, "-d") {
        file_question(a, FileCheck::IsDir)
    } else if text::same(o, "-s") {
        file_question(a, FileCheck::NotEmpty)
    } else if text::same(o, "-n") {
        TestPlan::Known(!a.as_str().is_empty())
    } else if text::same(o, "-z") {
        TestPlan::Known(a.as_str().is_empty())
    } else {
        TestPlan::Known(false)
    }
}

fn plan_binary(a: &String, o: &str, b: &String) -> (r: TestPlan)
    ensures
        r@ == binary_test(a@, o@, b@),
{
    let x = a.as_str();
    let y = b.as_str();
    if text::same(o, "=") || text::same(o, "==") {
        TestPlan::Known(text::same(x, y))
    } else if text::same(o, "!=") {
        TestPlan::Known(!text::same(x, y))
    } else if text::same(o, "-eq") {
        TestPlan::Known(num(x) == num(y))
    } else if text::same(o, "-ne") {
        TestPlan::Known(num(x) != num(y))
    } else if text::same(o, "-lt") {
        TestPlan::Known(num(x) < num(y))
    } else if text::same(o, "-le") {
        TestPlan::Known(num(x) <= num(y))
    } else if text::same(o, "-gt") {
        TestPlan::Known(num(x) > num(y))
    } else if text::same(o, "-ge") {
        TestPlan::Known(num(x) >= num(y))
    } else if text::same(o, "-nt") {
        TestPlan::Age { a: a.clone(), b: b.clone(), older: false }
    } else if text::same(o, "-ot") {
        TestPlan::Age { a: a.clone(), b: b.clone(), older: true }
    } else {
        TestPlan::Known(false)
    }
}

/// Evaluate a `test`/`[` expression as far as it does not ask about files.
pub fn eval_test(args: &[String]) -> (r: TestPlan)
    ensures
        r@ == test_of(text::texts(args@)),
{
    let n: usize = args.len();
    assert(forall|i: int| 0 <= i < args@.len() ==> #[trigger] text::texts(args@)[i] == args@[i]@);
    if n == 1 {
        TestPlan::Known(!args[0].as_str().is_empty())
    } else if n == 2 {
        plan_unary(args[0].as_str(), &args[1])
    } else if n == 3 {
        plan_binary(&args[0], args[1].as_str(), &args[2])
    } else if n == 4 && text::same(args[0].as_str(), "!") && text::same(args[2].as_str(), "=") {
        TestPlan::Known(!text::same(args[1].as_str(), args[3].as_str()))
    } else if n == 4 && text::same(args[0].as_str(), "!") && text::same(args[2].as_str(), "!=") {
        TestPlan::Known(text::same(args[1].as_str(), args[3].as_str()))
    } else {
        TestPlan::Known(false)
    }
}

} // verus!
