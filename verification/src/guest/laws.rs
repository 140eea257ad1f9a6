//! What holds of the bundled tools.
use crate::guest::bash;
use crate::guest::bash::BashCallV;
use crate::guest::time;
use crate::json;
use crate::json::{JsonV, NumberV};
use crate::json_laws;
use crate::shell::vars;
use crate::shell::vars::Pairs;
use crate::text;
use crate::text_laws;
use vstd::prelude::*;

verus! {

/// The report of a script has its output, its errors and its status, each under its
/// own name.
pub proof fn a_script_is_reported_as_it_ended(stdout: Seq<char>, stderr: Seq<char>, status: i32)
    ensures
        ({
            let v = bash::report(stdout, stderr, status);
            &&& json::field(v, "stdout"@) == Some(JsonV::Str(stdout))
            &&& json::field(v, "stderr"@) == Some(JsonV::Str(stderr))
            &&& json::field(v, "exit_code"@) == Some(
                JsonV::Num(
                    if status >= 0 {
                        NumberV::Unsigned(status as u64)
                    } else {
                        NumberV::Negative(status as i64)
                    },
                ),
            )
        }),
{
    reveal_strlit("exit_code");
    reveal_strlit("stderr");
    reveal_strlit("stdout");
    assert("exit_code"@.len() == 9 && "stderr"@.len() == 6 && "stdout"@.len() == 6);
    assert("stderr"@[3] != "stdout"@[3]);
    let m = bash::report(stdout, stderr, status)->Obj_0;
    json_laws::the_first_member_is_read(m, 0);
    json_laws::the_first_member_is_read(m, 1);
    json_laws::the_first_member_is_read(m, 2);
}

/// A call runs the command that it names, in its directory, the home without one, with
/// the variables inherited and its own over them; without a command there is none.
pub proof fn a_call_is_run_as_it_asks(args: JsonV, inherited: Pairs, command: Seq<char>, dir: Seq<char>)
    ensures
        json::field(args, "command"@) == Some(JsonV::Str(command)) ==> {
            &&& bash::asked(args, inherited) matches Some(c) && c.command == command
                && (json::field(args, "cwd"@) == Some(JsonV::Str(dir)) ==> c.cwd == dir) && (
            json::field(args, "cwd"@) is None ==> c.cwd == "/home/carson"@) && (json::field(
                args,
                "env"@,
            ) is None ==> c.env == inherited)
        },
        json::field(args, "command"@) is None ==> bash::asked(args, inherited) is None,
{
    assert(vars::with_all(inherited, seq![]) == inherited);
}

/// The variables that a call brings are set, each to its own text.
pub proof fn a_call_brings_its_variables(
    args: JsonV,
    inherited: Pairs,
    command: Seq<char>,
    name: Seq<char>,
    value: Seq<char>,
    other: Seq<char>,
)
    requires
        json::field(args, "command"@) == Some(JsonV::Str(command)),
        json::field(args, "env"@) == Some(JsonV::Obj(seq![(name, JsonV::Str(value))])),
        other != name,
    ensures
        bash::asked(args, inherited) matches Some(c) && vars::value_of(c.env, name) == Some(value)
            && vars::value_of(c.env, other) == vars::value_of(inherited, other),
{
    let m = seq![(name, JsonV::Str(value))];
    let e = bash::env_of(m);
    assert(e =~= seq![(name, value)]);
    assert(e.skip(1) =~= seq![]);
    assert(vars::with_all(inherited, e) == vars::with(inherited, name, value)) by {
        assert(vars::with_all(vars::with(inherited, name, value), e.skip(1)) == vars::with(
            inherited,
            name,
            value,
        ));
    }
    vars::set_then_get(inherited, name, value, other);
}

/// The report of a moment has it twice, as a text and as a number.
pub proof fn a_moment_is_reported_twice(ms: u64)
    ensures
        ({
            let v = time::report(ms);
            &&& json::field(v, "time"@) == Some(JsonV::Str(time::iso_text(ms as nat)))
            &&& json::field(v, "unix_ms"@) == Some(JsonV::Num(NumberV::Unsigned(ms)))
        }),
{
    reveal_strlit("time");
    reveal_strlit("unix_ms");
    assert("time"@.len() == 4 && "unix_ms"@.len() == 7);
    let m = time::report(ms)->Obj_0;
    json_laws::the_first_member_is_read(m, 0);
    json_laws::the_first_member_is_read(m, 1);
}

/// A number that is filled up with zeros is as wide as asked, or as wide as it has to
/// be, and still that number.
pub proof fn a_filled_number_reads_back(n: nat, width: nat)
    ensures
        text::natural(time::padded(n, width)) == Some(n as int),
        time::padded(n, width).len() >= width,
        text::decimal(n as int).len() >= width ==> time::padded(n, width) == text::decimal(
            n as int,
        ),
{
    text_laws::a_written_number_reads_back(n as int);
    let s = text::decimal_nat(n);
    if s.len() < width {
        lemma_leading_zeros(s, (width - s.len()) as nat);
    }
}

proof fn lemma_leading_zeros(s: Seq<char>, k: nat)
    requires
        text::all_digits(s),
    ensures
        text::all_digits(Seq::new(k, |i: int| '0') + s),
        text::digits_value(Seq::new(k, |i: int| '0') + s) == text::digits_value(s),
    decreases s.len(),
{
    let z = Seq::new(k, |i: int| '0');
    let t = z + s;
    assert forall|i: int| 0 <= i < t.len() implies text::is_digit(#[trigger] t[i]) by {
        if i >= k {
            assert(t[i] == s[i - k]);
            assert(text::is_digit(s[i - k]));
        }
    }
    assert(t.drop_last() =~= z + s.drop_last());
    assert(t.last() == s.last());
    if s.len() == 1 {
        assert(s.drop_last() =~= seq![]);
        assert(z + s.drop_last() =~= z);
        lemma_zeros(k);
        assert(text::digits_value(s.drop_last()) == 0);
    } else {
        let front = s.drop_last();
        assert forall|i: int| 0 <= i < front.len() implies text::is_digit(#[trigger] front[i]) by {
            assert(text::is_digit(s[i]));
        }
        lemma_leading_zeros(front, k);
    }
}

proof fn lemma_zeros(k: nat)
    ensures
        text::digits_value(Seq::new(k, |i: int| '0')) == 0,
    decreases k,
{
    let z = Seq::new(k, |i: int| '0');
    if k > 0 {
        lemma_zeros((k - 1) as nat);
        assert(z.drop_last() =~= Seq::new((k - 1) as nat, |i: int| '0'));
    }
}

/// A moment is written as its day and its time of day, and these make up the moment:
/// the days since 1970, the hours, the minutes, the seconds and the thousandths.
pub proof fn a_moment_is_its_day_and_time(ms: nat) -> (parts: (nat, nat, nat, nat, nat))
    ensures
        ({
            let (days, h, mi, s, t) = parts;
            let (y, m, d) = time::day_at(days);
            &&& h < 24 && mi < 60 && s < 60 && t < 1000
            &&& days * 86_400_000 + h * 3_600_000 + mi * 60_000 + s * 1000 + t == ms
            &&& time::iso_text(ms) == time::padded(y, 4) + "-"@ + time::padded(m, 2) + "-"@
                + time::padded(d, 2) + "T"@ + time::padded(h, 2) + ":"@ + time::padded(mi, 2)
                + ":"@ + time::padded(s, 2) + "."@ + time::padded(t, 3) + "Z"@
        }),
{
    let secs = ms / 1000;
    let s = secs % 86400;
    lemma_time_of_day(s);
    ((secs / 86400) as nat, (s / 3600) as nat, (s / 60 % 60) as nat, (s % 60) as nat, (ms % 1000) as nat)
}

proof fn lemma_time_of_day(s: nat)
    requires
        s < 86400,
    ensures
        s / 3600 < 24,
        (s / 3600) * 3600 + (s / 60 % 60) * 60 + s % 60 == s,
{
}

/// The calendar's years: every fourth has a day more, but of the hundreds only every
/// fourth. The months have their days, and those of a year make up the year.
pub proof fn years_and_months_have_their_days(y: nat)
    ensures
        time::year_days(y) == 366 <==> (y % 4 == 0 && (y % 100 != 0 || y % 400 == 0)),
        time::year_days(y) == 366 || time::year_days(y) == 365,
        time::month_days(y, 1) == 31,
        time::month_days(y, 2) == time::year_days(y) - 337,
        time::month_days(y, 3) == 31,
        time::month_days(y, 4) == 30,
        time::month_days(y, 5) == 31,
        time::month_days(y, 6) == 30,
        time::month_days(y, 7) == 31,
        time::month_days(y, 8) == 31,
        time::month_days(y, 9) == 30,
        time::month_days(y, 10) == 31,
        time::month_days(y, 11) == 30,
        time::month_days(y, 12) == 31,
{
}

} // verus!
