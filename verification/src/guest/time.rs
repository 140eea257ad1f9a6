//! The time tool: the current UTC time, written as ISO 8601 and as milliseconds.
use crate::host::clock;
use crate::json::{self, Json, JsonV, NumberV};
use crate::text;
use vstd::prelude::*;

verus! {

// ---- the calendar ----

pub open spec fn is_leap(y: nat) -> bool {
    (y % 4 == 0 && y % 100 != 0) || y % 400 == 0
}

pub open spec fn year_days(y: nat) -> nat {
    if is_leap(y) {
        366
    } else {
        365
    }
}

pub open spec fn month_days(y: nat, m: nat) -> nat {
    if m == 2 {
        if is_leap(y) {
            29
        } else {
            28
        }
    } else if m == 4 || m == 6 || m == 9 || m == 11 {
        30
    } else {
        31
    }
}

/// The year and the day in it, counted from 0, that is `d` days after the start of `y`.
pub open spec fn year_at(y: nat, d: nat) -> (nat, nat)
    decreases d,
{
    if d < year_days(y) {
        (y, d)
    } else {
        year_at(y + 1, (d - year_days(y)) as nat)
    }
}

/// The month and the day in it, counted from 0, that is `d` days after the start of `m`.
pub open spec fn month_at(y: nat, m: nat, d: nat) -> (nat, nat)
    decreases d,
{
    if d < month_days(y, m) {
        (m, d)
    } else {
        month_at(y, m + 1, (d - month_days(y, m)) as nat)
    }
}

/// The days from the start of month `m` to the end of the year.
pub open spec fn days_left(y: nat, m: nat) -> nat
    decreases 13 - m,
{
    if m > 12 {
        0
    } else {
        month_days(y, m) + days_left(y, m + 1)
    }
}

/// A day of the calendar.
pub struct Day {
    pub year: u64,
    pub month: u64,
    pub day: u64,
}

/// The day that is `n` days after the first of January 1970.
pub open spec fn day_at(n: nat) -> (nat, nat, nat) {
    let (y, d) = year_at(1970, n);
    let (m, k) = month_at(y, 1, d);
    (y, m, k + 1)
}

fn days_in_year(y: u64) -> (r: u64)
    ensures
        r == year_days(y as nat),
{
    if (y % 4 == 0 && y % 100 != 0) || y % 400 == 0 {
        366
    } else {
        365
    }
}

fn days_in_month(y: u64, m: u64) -> (r: u64)
    ensures
        r == month_days(y as nat, m as nat),
{
    if m == 2 {
        if (y % 4 == 0 && y % 100 != 0) || y % 400 == 0 {
            29
        } else {
            28
        }
    } else if m == 4 || m == 6 || m == 9 || m == 11 {
        30
    } else {
        31
    }
}

proof fn lemma_year_is_its_months(y: nat)
    ensures
        days_left(y, 1) == year_days(y),
{
    reveal_with_fuel(days_left, 14);
}

/// The day that is `n` days after the first of January 1970.
pub fn civil_day(n: u64) -> (r: Day)
    ensures
        (r.year as nat, r.month as nat, r.day as nat) == day_at(n as nat),
        1 <= r.month <= 12,
        1 <= r.day <= 31,
{
    let mut y: u64 = 1970;
    let mut d: u64 = n;
    let mut len: u64 = days_in_year(y);
    while d >= len
        invariant
            1970 <= y,
            365 * (y - 1970) <= n - d,
            len == year_days(y as nat),
            year_at(1970, n as nat) == year_at(y as nat, d as nat),
        decreases d,
    {
        d = d - len;
        y = y + 1;
        len = days_in_year(y);
    }
    proof {
        lemma_year_is_its_months(y as nat);
    }
    let mut m: u64 = 1;
    let ghost d0 = d as nat;
    while m < 12 && d >= days_in_month(y, m)
        invariant
            1 <= m <= 12,
            d < days_left(y as nat, m as nat),
            month_at(y as nat, 1, d0) == month_at(y as nat, m as nat, d as nat),
        decreases 12 - m,
    {
        reveal_with_fuel(days_left, 2);
        d = d - days_in_month(y, m);
        m = m + 1;
    }
    proof {
        reveal_with_fuel(days_left, 3);
    }
    Day { year: y, month: m, day: d + 1 }
}

// ---- the text ----

/// A number in decimal with at least `width` digits.
pub open spec fn padded(n: nat, width: nat) -> Seq<char> {
    zero_filled(text::decimal_nat(n), width)
}

pub open spec fn zero_filled(s: Seq<char>, width: nat) -> Seq<char> {
    if s.len() < width {
        Seq::new((width - s.len()) as nat, |i: int| '0') + s
    } else {
        s
    }
}

fn pad(n: u64, width: usize) -> (r: String)
    ensures
        r@ == padded(n as nat, width as nat),
{
    let digits = text::u64_text(n);
    let ghost dv = digits@;
    let v = text::chars_of(digits.as_str());
    let have: usize = v.len();
    let mut out = String::new();
    if have >= width {
        return digits;
    }
    let missing: usize = width - have;
    let mut i: usize = 0;
    assert(out@ =~= Seq::new(0, |k: int| '0'));
    while i < missing
        invariant
            i <= missing,
            out@ == Seq::new(i as nat, |k: int| '0'),
        decreases missing - i,
    {
        out.push('0');
        i = i + 1;
        assert(out@ =~= Seq::new(i as nat, |k: int| '0'));
    }
    out.concat(digits.as_str())
}

/// A moment, given in milliseconds since the epoch, in the form
/// `2026-01-01T00:00:00.000Z`.
pub open spec fn iso_text(ms: nat) -> Seq<char> {
    let secs = ms / 1000;
    let (y, m, d) = day_at(secs / 86400);
    let s = secs % 86400;
    padded(y, 4) + "-"@ + padded(m, 2) + "-"@ + padded(d, 2) + "T"@ + padded(s / 3600, 2) + ":"@
        + padded(s / 60 % 60, 2) + ":"@ + padded(s % 60, 2) + "."@ + padded(ms % 1000, 3) + "Z"@
}

/// A moment as ISO 8601.
pub fn iso8601(ms: u64) -> (r: String)
    ensures
        r@ == iso_text(ms as nat),
{
    let secs: u64 = ms / 1000;
    let day = civil_day(secs / 86400);
    let s: u64 = secs % 86400;
    pad(day.year, 4).concat("-").concat(pad(day.month, 2).as_str()).concat("-").concat(
        pad(day.day, 2).as_str(),
    ).concat("T").concat(pad(s / 3600, 2).as_str()).concat(":").concat(
        pad(s / 60 % 60, 2).as_str(),
    ).concat(":").concat(pad(s % 60, 2).as_str()).concat(".").concat(
        pad(ms % 1000, 3).as_str(),
    ).concat("Z")
}

/// What the tool reports of a moment.
pub open spec fn report(ms: u64) -> JsonV {
    JsonV::Obj(
        seq![
            ("time"@, JsonV::Str(iso_text(ms as nat))),
            ("unix_ms"@, JsonV::Num(NumberV::Unsigned(ms))),
        ],
    )
}

/// The text of the report of a moment. It is read back as the report.
pub fn report_text(ms: u64) -> (r: String)
    ensures
        r@ == json::json_text(report(ms)),
        json::json_value(r@) == Some(report(ms)),
{
    let iso = iso8601(ms);
    let mut o = json::object();
    json::put(&mut o, "time", json::string(iso.as_str()));
    json::put(&mut o, "unix_ms", json::unsigned(ms));
    assert(json::members_view(o@) =~= seq![
        ("time"@, JsonV::Str(iso_text(ms as nat))),
        ("unix_ms"@, JsonV::Num(NumberV::Unsigned(ms))),
    ]);
    let j = Json::Obj(o);
    proof {
        assert(j@ == report(ms));
        reveal_strlit("time");
        reveal_strlit("unix_ms");
        assert(text::text_lt("time"@, "unix_ms"@));
        json::lemma_short_key("time"@);
    }
    json::render(&j)
}

/// Runs the tool: the report of the present moment.
pub fn run() -> (r: String)
    ensures
        exists|at: Option<u128>| r@ == json::json_text(report(#[trigger] clock::ticks(at))),
{
    let now: u64 = clock::now_ms();
    report_text(now)
}

// ---- laws ----

/// The days before a year, counted from 1970.
pub open spec fn days_before_year(y: nat) -> nat
    decreases y,
{
    if y <= 1970 {
        0
    } else {
        days_before_year((y - 1) as nat) + year_days((y - 1) as nat)
    }
}

/// The days of a year before a month.
pub open spec fn days_before_month(y: nat, m: nat) -> nat
    decreases m,
{
    if m <= 1 {
        0
    } else {
        days_before_month(y, (m - 1) as nat) + month_days(y, (m - 1) as nat)
    }
}

/// The day that `n` days lead to is a day of the calendar, and the days before
/// it are those `n`.
pub proof fn the_calendar_counts_days(n: nat)
    ensures
        ({
            let (y, m, d) = day_at(n);
            &&& y >= 1970
            &&& 1 <= m <= 12
            &&& 1 <= d <= month_days(y, m)
            &&& days_before_year(y) + days_before_month(y, m) + d - 1 == n
        }),
{
    lemma_year_at(1970, n);
    let (y, d) = year_at(1970, n);
    lemma_year_is_its_months(y);
    lemma_month_at(y, 1, d);
}

proof fn lemma_year_at(y: nat, d: nat)
    requires
        y >= 1970,
    ensures
        year_at(y, d).0 >= y,
        year_at(y, d).1 < year_days(year_at(y, d).0),
        days_before_year(year_at(y, d).0) + year_at(y, d).1 == days_before_year(y) + d,
    decreases d,
{
    if d >= year_days(y) {
        lemma_year_at(y + 1, (d - year_days(y)) as nat);
    }
}

proof fn lemma_month_at(y: nat, m: nat, d: nat)
    requires
        1 <= m <= 12,
        d < days_left(y, m),
    ensures
        1 <= month_at(y, m, d).0 <= 12,
        month_at(y, m, d).1 < month_days(y, month_at(y, m, d).0),
        days_before_month(y, month_at(y, m, d).0) + month_at(y, m, d).1 == days_before_month(y, m)
            + d,
    decreases d,
{
    if d >= month_days(y, m) {
        reveal_with_fuel(days_left, 3);
        lemma_month_at(y, m + 1, (d - month_days(y, m)) as nat);
    }
}

} // verus!
