//! Log line timestamps: Unix nanoseconds as `YYYY-MM-DDTHH:MM:SS.mmmZ`, in
//! UTC, and the civil calendar they rest on.
use vstd::prelude::*;
use vstd::string::StringExecFns;

use crate::text::{digits, push_digits};

verus! {

/// Severity, printed as one letter.
#[derive(Debug, Clone, Copy, PartialEq, Eq)]
pub enum Level {
    /// Something happened.
    Info,
    /// Something is off but the handler keeps going.
    Warn,
    /// Something stopped the handler, or a feed.
    Error,
}

impl Level {
    /// The letter a line carries for this level.
    pub fn letter(self) -> (c: char)
        ensures
            c == (match self {
                Level::Info => 'I',
                Level::Warn => 'W',
                Level::Error => 'E',
            }),
    {
        match self {
            Level::Info => 'I',
            Level::Warn => 'W',
            Level::Error => 'E',
        }
    }
}

/// Gregorian leap year.
pub open spec fn is_leap(y: int) -> bool {
    (y % 4 == 0 && y % 100 != 0) || y % 400 == 0
}

/// Days in month `m` (1-based) of year `y`.
pub open spec fn days_in_month(y: int, m: int) -> int {
    if m == 2 {
        if is_leap(y) { 29 } else { 28 }
    } else if m == 4 || m == 6 || m == 9 || m == 11 {
        30
    } else {
        31
    }
}

/// A real calendar date.
pub open spec fn valid_date(y: int, m: int, d: int) -> bool {
    1 <= m <= 12 && 1 <= d <= days_in_month(y, m)
}

/// Leap years among years `1..=y` (counted negatively below year 1).
pub open spec fn leaps_through(y: int) -> int {
    y / 4 - y / 100 + y / 400
}

/// Days from 1970-01-01 to January 1st of year `y`.
pub open spec fn days_before_year(y: int) -> int {
    365 * (y - 1970) + leaps_through(y - 1) - leaps_through(1969)
}

/// Days from January 1st to the first of month `m` of year `y`.
pub open spec fn days_before_month(y: int, m: int) -> int {
    let common: int = if m == 1 {
        0
    } else if m == 2 {
        31
    } else if m == 3 {
        59
    } else if m == 4 {
        90
    } else if m == 5 {
        120
    } else if m == 6 {
        151
    } else if m == 7 {
        181
    } else if m == 8 {
        212
    } else if m == 9 {
        243
    } else if m == 10 {
        273
    } else if m == 11 {
        304
    } else {
        334
    };
    if m > 2 && is_leap(y) { common + 1 } else { common }
}

/// Days from 1970-01-01 to the date `y-m-d`.
pub open spec fn days_from_civil(y: int, m: int, d: int) -> int {
    days_before_year(y) + days_before_month(y, m) + d - 1
}

/// Start of year `t` of a 400-year era counted from March 1st, in days
/// from the era's start.
spec fn era_year_start(t: int) -> int {
    365 * t + t / 4 - t / 100
}

/// Length of year `t` of an era counted from March 1st: it ends with the
/// February of the calendar year `t + 1`.
spec fn era_year_len(t: int) -> int {
    if is_leap(t + 1) { 366 } else { 365 }
}

/// Which March-based year of its era the day `doe` falls in.
spec fn year_of_era(doe: int) -> int {
    (doe - doe / 1460 + doe / 36_524 - doe / 146_096) / 365
}

proof fn lemma_year_of_era(doe: int)
    requires
        0 <= doe <= 146_096,
    ensures
        0 <= year_of_era(doe) <= 399,
        era_year_start(year_of_era(doe)) <= doe < era_year_start(year_of_era(doe)) + era_year_len(year_of_era(doe)),
{
    let c: int = if doe / 36_524 < 3 { doe / 36_524 } else { 3 };
    let r = doe - 36_524 * c;
    assert(0 <= r <= 36_524);
    assert(c < 3 ==> r <= 36_523);
    let b = r / 1461;
    assert(0 <= b <= 24);
    let r2 = r - 1461 * b;
    assert(0 <= r2 <= 1460);
    let j: int = if r2 / 365 < 3 { r2 / 365 } else { 3 };
    let k = r2 - 365 * j;
    assert(0 <= k <= 365);
    assert(k == 365 ==> j == 3 && r2 == 1460);
    let t = 100 * c + 4 * b + j;
    assert(doe == 36_524 * c + 1461 * b + 365 * j + k);
    assert(t / 4 == 25 * c + b);
    assert(t / 100 == c);
    assert(era_year_start(t) == 36_524 * c + 1461 * b + 365 * j);
    assert(k == 365 ==> (b == 24 ==> c == 3));
    assert(k == 365 ==> is_leap(t + 1)) by {
        if k == 365 {
            assert((t + 1) % 4 == 0);
            if b == 24 {
                assert(t + 1 == 400);
            } else {
                assert((t + 1) % 100 != 0);
            }
        }
    }
    let big = 24 * c + b + 365 * j + k;
    assert(doe == 1460 * (25 * c + b) + big);
    assert(0 <= big < 2920);
    assert(doe / 1460 == 25 * c + b + (if big >= 1460 { 1int } else { 0 }));
    assert(doe / 36_524 == c + (if doe == 146_096 { 1int } else { 0 }));
    assert(doe / 146_096 == (if doe == 146_096 { 1int } else { 0 }));
    assert(k == 365 ==> big >= 1460);
    assert(k == 0 ==> big < 1460);
    let n = doe - doe / 1460 + doe / 36_524 - doe / 146_096;
    assert(n == 365 * t + k - (if big >= 1460 { 1int } else { 0 }));
    assert(year_of_era(doe) == t);
}

/// Length of month `mp` of a year counted from March (`0` is March, `11`
/// the following February).
spec fn march_month_len(mp: int, leap: bool) -> int {
    if mp == 11 {
        if leap { 29 } else { 28 }
    } else if mp == 1 || mp == 3 || mp == 6 || mp == 8 {
        30
    } else {
        31
    }
}

proof fn lemma_month_of_year(doy: int, leap: bool)
    requires
        0 <= doy < (if leap { 366int } else { 365 }),
    ensures
        0 <= (5 * doy + 2) / 153 <= 11,
        0 <= doy - (153 * ((5 * doy + 2) / 153) + 2) / 5 < march_month_len((5 * doy + 2) / 153, leap),
{
    let mp = (5 * doy + 2) / 153;
    assert(0 <= mp <= 11);
    if mp == 0 {
    } else if mp == 1 {
    } else if mp == 2 {
    } else if mp == 3 {
    } else if mp == 4 {
    } else if mp == 5 {
    } else if mp == 6 {
    } else if mp == 7 {
    } else if mp == 8 {
    } else if mp == 9 {
    } else if mp == 10 {
    } else {
    }
}

proof fn lemma_leap_shift(e: int, x: int)
    ensures
        is_leap(400 * e + x) == is_leap(x),
{
    assert((400 * e + x) % 4 == x % 4);
    assert((400 * e + x) % 100 == x % 100);
    assert((400 * e + x) % 400 == x % 400);
}

/// March 1st of the March-based year `t` of era `e`, in days from 1970-01-01.
proof fn lemma_march_first(e: int, t: int)
    requires
        0 <= t <= 399,
    ensures
        days_before_year(400 * e + t) + 59 + (if is_leap(400 * e + t) { 1int } else { 0 })
            == 146_097 * e + era_year_start(t) - 719_468,
{
    let y = 400 * e + t;
    assert(leaps_through(1969) == 477);
    assert(y / 4 == 100 * e + t / 4);
    assert(y / 100 == 4 * e + t / 100);
    assert(y / 400 == e);
    assert((y - 1) / 4 == (if y % 4 == 0 { y / 4 - 1 } else { y / 4 }));
    assert((y - 1) / 100 == (if y % 100 == 0 { y / 100 - 1 } else { y / 100 }));
    assert((y - 1) / 400 == (if y % 400 == 0 { y / 400 - 1 } else { y / 400 }));
    assert(leaps_through(y - 1) + (if is_leap(y) { 1int } else { 0 }) == leaps_through(y));
    assert(leaps_through(y) == 97 * e + t / 4 - t / 100);
}

/// The date `mp` months and then some days into the March-based year `t`
/// of era `e` is the calendar date the algorithm names.
proof fn lemma_civil_assembly(e: int, t: int, doy: int, mp: int)
    requires
        0 <= t <= 399,
        mp == (5 * doy + 2) / 153,
        0 <= mp <= 11,
        0 <= doy - (153 * mp + 2) / 5 < march_month_len(mp, is_leap(t + 1)),
        days_before_year(400 * e + t) + 59 + (if is_leap(400 * e + t) { 1int } else { 0 })
            == 146_097 * e + era_year_start(t) - 719_468,
        is_leap(400 * e + t + 1) == is_leap(t + 1),
    ensures
        ({
            let m = if mp < 10 { mp + 3 } else { mp - 9 };
            let y = if m <= 2 { 400 * e + t + 1 } else { 400 * e + t };
            let d = doy - (153 * mp + 2) / 5 + 1;
            valid_date(y, m, d) && days_from_civil(y, m, d) == 146_097 * e + era_year_start(t) + doy - 719_468
        }),
{
    let yy = 400 * e + t;
    let leap_next = is_leap(t + 1);
    let cum = (153 * mp + 2) / 5;
    if mp >= 10 {
        assert(days_before_year(yy + 1) == days_before_year(yy) + (if is_leap(yy) { 366int } else { 365 })) by {
            assert(yy / 4 == (yy + 1) / 4 || (yy + 1) % 4 == 0);
        }
        if mp == 10 {
            assert(cum == 306);
        } else {
            assert(cum == 337);
        }
    } else {
        if mp == 0 { assert(cum == 0); }
        else if mp == 1 { assert(cum == 31); }
        else if mp == 2 { assert(cum == 61); }
        else if mp == 3 { assert(cum == 92); }
        else if mp == 4 { assert(cum == 122); }
        else if mp == 5 { assert(cum == 153); }
        else if mp == 6 { assert(cum == 184); }
        else if mp == 7 { assert(cum == 214); }
        else if mp == 8 { assert(cum == 245); }
        else { assert(cum == 275); }
    }
}

/// Days since 1970-01-01 → (year, month, day), in the proleptic Gregorian
/// calendar, for every day count whose offset to 0000-03-01 fits in an `i64`.
pub fn civil_from_days(days: i64) -> (res: (i64, u32, u32))
    requires
        days <= i64::MAX - 719_468,
    ensures
        valid_date(res.0 as int, res.1 as int, res.2 as int),
        days_from_civil(res.0 as int, res.1 as int, res.2 as int) == days,
{
    let z = days + 719_468;
    let era = if z >= 0 { z } else { z - 146_096 } / 146_097;
    assert(era == z / 146_097);
    let doe = z - era * 146_097;
    let yoe = (doe - doe / 1460 + doe / 36_524 - doe / 146_096) / 365;
    proof {
        lemma_year_of_era(doe as int);
        assert(yoe == year_of_era(doe as int));
    }
    let y = yoe + era * 400;
    let doy = doe - (365 * yoe + yoe / 4 - yoe / 100);
    let ghost leap = is_leap(yoe + 1);
    proof {
        assert(doy == doe - era_year_start(yoe as int));
        lemma_month_of_year(doy as int, leap);
    }
    let mp = (5 * doy + 2) / 153;
    let d = (doy - (153 * mp + 2) / 5 + 1) as u32;
    let m = if mp < 10 { mp + 3 } else { mp - 9 } as u32;
    let res = (if m <= 2 { y + 1 } else { y }, m, d);
    proof {
        lemma_march_first(era as int, yoe as int);
        lemma_leap_shift(era as int, yoe + 1);
        lemma_leap_shift(era as int, yoe as int);
        lemma_civil_assembly(era as int, yoe as int, doy as int, mp as int);
    }
    res
}

proof fn lemma_year_length(y: int)
    ensures
        days_before_year(y + 1) == days_before_year(y) + (if is_leap(y) { 366int } else { 365 }),
{
    assert(y / 4 == (y - 1) / 4 + (if y % 4 == 0 { 1int } else { 0 }));
    assert(y / 100 == (y - 1) / 100 + (if y % 100 == 0 { 1int } else { 0 }));
    assert(y / 400 == (y - 1) / 400 + (if y % 400 == 0 { 1int } else { 0 }));
}

proof fn lemma_years_ordered(a: int, b: int)
    requires
        a < b,
    ensures
        days_before_year(a + 1) <= days_before_year(b),
    decreases b - a,
{
    lemma_year_length(b - 1);
    if a + 1 < b {
        lemma_years_ordered(a, b - 1);
    }
}

proof fn lemma_date_within_year(y: int, m: int, d: int)
    requires
        valid_date(y, m, d),
    ensures
        days_before_year(y) <= days_from_civil(y, m, d) < days_before_year(y + 1),
{
    lemma_year_length(y);
}

/// Each day is named by one date: two real dates that are the same number
/// of days from 1970-01-01 are the same date.
pub proof fn law_one_date_per_day(y1: int, m1: int, d1: int, y2: int, m2: int, d2: int)
    requires
        valid_date(y1, m1, d1),
        valid_date(y2, m2, d2),
        days_from_civil(y1, m1, d1) == days_from_civil(y2, m2, d2),
    ensures
        y1 == y2 && m1 == m2 && d1 == d2,
{
    lemma_date_within_year(y1, m1, d1);
    lemma_date_within_year(y2, m2, d2);
    if y1 < y2 {
        lemma_years_ordered(y1, y2);
    } else if y2 < y1 {
        lemma_years_ordered(y2, y1);
    }
    assert(y1 == y2);
    assert(m1 == m2);
}

/// Unix nanoseconds, rendered as `YYYY-MM-DDTHH:MM:SS.mmmZ` in UTC.
#[derive(Debug, Clone, Copy, PartialEq, Eq, Structural)]
pub struct Timestamp(pub u64);

/// The text of a timestamp on the date `y-m-d`, `tod` seconds into the day
/// and `millis` milliseconds into the second.
pub open spec fn stamp_text(y: int, m: int, d: int, tod: int, millis: int) -> Seq<char> {
    digits(y as nat, 4) + seq!['-'] + digits(m as nat, 2) + seq!['-'] + digits(d as nat, 2) + seq!['T']
        + digits((tod / 3600) as nat, 2) + seq![':'] + digits(((tod % 3600) / 60) as nat, 2) + seq![':']
        + digits((tod % 60) as nat, 2) + seq!['.'] + digits(millis as nat, 3) + seq!['Z']
}

/// The year of any date on or after 1970-01-01 is at least 1970, and one
/// within 213,504 days of it has four digits.
proof fn lemma_year_range(y: int, m: int, d: int)
    requires
        valid_date(y, m, d),
        0 <= days_from_civil(y, m, d) < 213_504,
    ensures
        1970 <= y <= 9999,
{
    assert(days_before_month(y, m) + d - 1 <= 365);
    assert(leaps_through(1969) == 477);
    if y < 1970 {
        assert(leaps_through(y - 1) <= 477 + (y - 1970) / 4 + 1);
    }
    if y > 9999 {
        assert(leaps_through(y - 1) >= 0);
    }
}

/// The date of the day `days` after 1970-01-01.
pub open spec fn date_of_day(days: int) -> (int, int, int) {
    choose|y: int, m: int, d: int| valid_date(y, m, d) && days_from_civil(y, m, d) == days
}

/// What a timestamp of `ns` nanoseconds since the epoch reads as.
pub open spec fn timestamp_text(ns: u64) -> Seq<char> {
    let secs = ns / 1_000_000_000;
    let (y, m, d) = date_of_day((secs / 86_400) as int);
    stamp_text(y, m, d, (secs % 86_400) as int, ((ns % 1_000_000_000) / 1_000_000) as int)
}

impl Timestamp {
    /// The UTC date and time, to the millisecond.
    pub fn to_string(&self) -> (res: String)
        ensures
            res@ == timestamp_text(self.0),
            exists|y: int, m: int, d: int|
                valid_date(y, m, d) && 1970 <= y <= 9999
                    && days_from_civil(y, m, d) == self.0 / 1_000_000_000 / 86_400
                    && res@ == stamp_text(
                    y,
                    m,
                    d,
                    ((self.0 / 1_000_000_000) % 86_400) as int,
                    ((self.0 % 1_000_000_000) / 1_000_000) as int,
                ),
    {
        let secs = self.0 / 1_000_000_000;
        let millis = (self.0 % 1_000_000_000) / 1_000_000;
        let days = secs / 86_400;
        assert(days < 213_504);
        let (y, m, d) = civil_from_days(days as i64);
        proof {
            lemma_year_range(y as int, m as int, d as int);
        }
        let tod = secs % 86_400;
        let mut s = String::new();
        push_digits(&mut s, y as u64, 4);
        s.append("-");
        push_digits(&mut s, m as u64, 2);
        s.append("-");
        push_digits(&mut s, d as u64, 2);
        s.append("T");
        push_digits(&mut s, tod / 3600, 2);
        s.append(":");
        push_digits(&mut s, (tod % 3600) / 60, 2);
        s.append(":");
        push_digits(&mut s, tod % 60, 2);
        s.append(".");
        push_digits(&mut s, millis, 3);
        s.append("Z");
        proof {
            reveal_strlit("-");
            reveal_strlit("T");
            reveal_strlit(":");
            reveal_strlit(".");
            reveal_strlit("Z");
            assert(s@ =~= stamp_text(y as int, m as int, d as int, tod as int, millis as int));
            let ghost day = (self.0 / 1_000_000_000 / 86_400) as int;
            assert(valid_date(y as int, m as int, d as int) && days_from_civil(y as int, m as int, d as int) == day);
            let (y2, m2, d2) = date_of_day(day);
            law_one_date_per_day(y as int, m as int, d as int, y2, m2, d2);
        }
        s
    }
}

} // verus!
