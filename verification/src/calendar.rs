//! Dates of the Gregorian calendar from seconds since the epoch.

use vstd::prelude::*;
use vstd::string::StringExecFns;
use crate::text::{push_padded_left, u64_text};

verus! {

/// A date.
pub ghost struct Date {
    /// The year.
    pub year: int,
    /// The month, from 1 to 12.
    pub month: int,
    /// The day of the month, from 1 on.
    pub day: int,
}

/// A leap year: every fourth, but of the hundredth ones only every fourth.
pub open spec fn leap(year: int) -> bool {
    year % 4 == 0 && (year % 100 != 0 || year % 400 == 0)
}

/// Days of a month.
pub open spec fn month_length(year: int, month: int) -> int {
    if month == 2 {
        if leap(year) {
            29
        } else {
            28
        }
    } else if month == 4 || month == 6 || month == 9 || month == 11 {
        30
    } else {
        31
    }
}

/// Days of a year before a month.
pub open spec fn days_before_month(year: int, month: int) -> int
    decreases month,
{
    if month <= 1 {
        0
    } else {
        days_before_month(year, month - 1) + month_length(year, month - 1)
    }
}

/// Days from the start of year 0 to the start of a year: 365 each, and one for each leap
/// year among them.
pub open spec fn days_before_year(year: int) -> int {
    365 * year + (year + 3) / 4 - (year + 99) / 100 + (year + 399) / 400
}

impl Date {
    /// The date exists.
    pub open spec fn valid(self) -> bool {
        self.year >= 0 && 1 <= self.month <= 12 && 1 <= self.day <= month_length(
            self.year,
            self.month,
        )
    }

    /// Days since the first of January 1970.
    pub open spec fn number(self) -> int {
        days_before_year(self.year) + days_before_month(self.year, self.month) + self.day - 1
            - 719528
    }
}

/// The date of a day.
pub open spec fn date_of(days: int) -> Date {
    choose|d: Date| d.valid() && d.number() == days
}

/// Each year is as long as its months together: 365 days, or 366 in a leap year.
pub proof fn law_year_length(year: int)
    ensures
        days_before_year(year + 1) - days_before_year(year) == days_before_month(year, 13),
        days_before_month(year, 13) == if leap(year) {
            366int
        } else {
            365int
        },
{
    reveal_with_fuel(days_before_month, 14);
    lemma_quotients(year);
    lemma_quotients(year + 1);
}

#[verifier::spinoff_prover]
proof fn lemma_quotients(y: int)
    ensures
        (y + 3) / 4 == y / 4 + if y % 4 != 0 {
            1int
        } else {
            0int
        },
        (y + 99) / 100 == y / 100 + if y % 100 != 0 {
            1int
        } else {
            0int
        },
        (y + 399) / 400 == y / 400 + if y % 400 != 0 {
            1int
        } else {
            0int
        },
        y % 400 == 0 ==> y % 100 == 0,
        y % 100 == 0 ==> y % 4 == 0,
{
}

proof fn lemma_years_ordered(a: int, b: int)
    requires
        a < b,
    ensures
        days_before_year(a) + days_before_month(a, 13) <= days_before_year(b),
    decreases b - a,
{
    law_year_length(a);
    if a + 1 < b {
        lemma_years_ordered(a + 1, b);
        law_year_length(a + 1);
    }
}

proof fn lemma_months_ordered(year: int, a: int, b: int)
    requires
        1 <= a < b <= 13,
    ensures
        days_before_month(year, a) + month_length(year, a) <= days_before_month(year, b),
    decreases b - a,
{
    if a + 1 < b {
        lemma_months_ordered(year, a, b - 1);
    }
}

proof fn lemma_number_grows(a: Date, b: Date)
    requires
        a.valid(),
        b.valid(),
        a.year < b.year || (a.year == b.year && (a.month < b.month || (a.month == b.month && a.day
            < b.day))),
    ensures
        a.number() < b.number(),
{
    if a.year < b.year {
        lemma_years_ordered(a.year, b.year);
        lemma_months_ordered(a.year, a.month, 13);
        lemma_month_start(b.year, b.month);
    } else if a.month < b.month {
        lemma_months_ordered(a.year, a.month, b.month);
    }
}

proof fn lemma_month_start(year: int, month: int)
    requires
        1 <= month <= 13,
    ensures
        days_before_month(year, month) >= 0,
    decreases month,
{
    if month > 1 {
        lemma_month_start(year, month - 1);
    }
}

/// Two dates with the same number are the same date.
pub proof fn law_date_unique(a: Date, b: Date)
    requires
        a.valid(),
        b.valid(),
        a.number() == b.number(),
    ensures
        a == b,
{
    if a != b {
        if a.year < b.year || (a.year == b.year && (a.month < b.month || (a.month == b.month
            && a.day < b.day))) {
            lemma_number_grows(a, b);
        } else {
            lemma_number_grows(b, a);
        }
    }
}

/// Years and days counted from March on: the day of the year, and the year's number.
proof fn lemma_march(year: int, doy: int, mp: int)
    requires
        year >= 0,
        0 <= doy <= 365,
        doy == 365 ==> leap(year + 1),
        mp == (5 * doy + 2) / 153,
    ensures
        0 <= mp <= 11,
        ({
            let d = Date {
                year: if mp < 10 {
                    year
                } else {
                    year + 1
                },
                month: if mp < 10 {
                    mp + 3
                } else {
                    mp - 9
                },
                day: doy - (153 * mp + 2) / 5 + 1,
            };
            d.valid() && d.number() == 365 * year + year / 4 - year / 100 + year / 400 + doy
                - 719468
        }),
{
    reveal_with_fuel(days_before_month, 14);
    lemma_quotients(year);
    lemma_quotients(year + 1);
    law_year_length(year);
    assert(0 <= mp <= 11);
    let start = (153 * mp + 2) / 5;
    if mp == 0 {
        assert(start == 0);
    } else if mp == 1 {
        assert(start == 31);
    } else if mp == 2 {
        assert(start == 61);
    } else if mp == 3 {
        assert(start == 92);
    } else if mp == 4 {
        assert(start == 122);
    } else if mp == 5 {
        assert(start == 153);
    } else if mp == 6 {
        assert(start == 184);
    } else if mp == 7 {
        assert(start == 214);
    } else if mp == 8 {
        assert(start == 245);
    } else if mp == 9 {
        assert(start == 275);
    } else if mp == 10 {
        assert(start == 306);
    } else {
        assert(start == 337);
    }
}

/// The year of an era of 400 years, and the day of that year, both counted from March.
fn year_of_era(doe: u64) -> (r: (u64, u64))
    requires
        doe < 146097,
    ensures
        r.0 < 400,
        r.1 <= 365,
        doe == 365 * r.0 + r.0 / 4 - r.0 / 100 + r.1,
        r.1 == 365 ==> (r.0 + 1) % 4 == 0 && ((r.0 + 1) % 100 != 0 || r.0 == 399),
{
    let mut c: u64 = doe / 36524;
    if c > 3 {
        c = 3;
    }
    let r1: u64 = doe - 36524 * c;
    let q: u64 = r1 / 1461;
    let r2: u64 = r1 - 1461 * q;
    let mut y: u64 = r2 / 365;
    if y > 3 {
        y = 3;
    }
    let doy: u64 = r2 - 365 * y;
    let yoe: u64 = 100 * c + 4 * q + y;
    assert(q <= 24);
    assert(yoe / 4 == 25 * c + q);
    assert(yoe / 100 == c);
    if doy == 365 {
        assert(y == 3 && r2 == 1460);
        assert((yoe + 1) % 4 == 0) by {
            assert(yoe + 1 == 4 * (25 * c + q + 1));
        }
        if q == 24 {
            assert(c == 3);
        } else {
            assert((yoe + 1) % 100 != 0) by {
                assert(yoe + 1 == 100 * c + 4 * (q + 1));
            }
        }
    }
    (yoe, doy)
}

fn civil(days: u64) -> (r: (u64, u64, u64))
    requires
        days <= u64::MAX / 86400,
    ensures
        ({
            let d = Date { year: r.0 as int, month: r.1 as int, day: r.2 as int };
            d.valid() && d.number() == days
        }),
{
    let z: u64 = days + 719468;
    let era: u64 = z / 146097;
    let doe: u64 = z % 146097;
    let (yoe, doy) = year_of_era(doe);
    let y: u64 = yoe + era * 400;
    let mp: u64 = (5 * doy + 2) / 153;
    proof {
        assert(y / 4 == yoe / 4 + 100 * era);
        assert(y / 100 == yoe / 100 + 4 * era);
        assert(y / 400 == era);
        assert((y + 1) % 4 == (yoe + 1) % 4);
        assert((y + 1) % 100 == (yoe + 1) % 100);
        assert(yoe == 399 ==> (y + 1) % 400 == 0) by {
            if yoe == 399 {
                assert(y + 1 == 400 * (era + 1));
            }
        }
        lemma_march(y as int, doy as int, mp as int);
    }
    let d: u64 = doy - (153 * mp + 2) / 5 + 1;
    if mp < 10 {
        (y, mp + 3, d)
    } else {
        (y + 1, mp - 9, d)
    }
}

/// A number filled up with zeros on the left.
pub open spec fn zero_padded(n: int, width: int) -> Seq<char> {
    crate::text::padded_left(crate::text::decimal(n as nat), '0', width)
}

/// Three numbers with hyphens between them.
pub open spec fn hyphened(a: int, width: int, b: int, c: int) -> Seq<char> {
    zero_padded(a, width) + "-"@ + zero_padded(b, 2) + "-"@ + zero_padded(c, 2)
}

/// A date as `YYYY-MM-DD`.
pub open spec fn date_text(d: Date) -> Seq<char> {
    hyphened(d.year, 4, d.month, d.day)
}

/// The time of day of seconds since the epoch as `HH-MM-SS`.
pub open spec fn time_text(secs: int) -> Seq<char> {
    hyphened((secs % 86400) / 3600, 2, (secs % 3600) / 60, secs % 60)
}

fn push_padded(out: &mut String, n: u64, width: usize)
    ensures
        final(out)@ == old(out)@ + zero_padded(n as int, width as int),
{
    let t = u64_text(n);
    push_padded_left(out, t.as_str(), '0', width);
}

fn hyphen_text(a: u64, width: usize, b: u64, c: u64) -> (s: String)
    ensures
        s@ == hyphened(a as int, width as int, b as int, c as int),
{
    let mut s = String::new();
    push_padded(&mut s, a, width);
    s.append("-");
    push_padded(&mut s, b, 2);
    s.append("-");
    push_padded(&mut s, c, 2);
    assert(s@ == hyphened(a as int, width as int, b as int, c as int));
    s
}

/// Date and time of day of seconds since the epoch.
pub fn unix_to_date_time(secs: u64) -> (r: (String, String))
    ensures
        r.0@ == date_text(date_of(secs as int / 86400)),
        date_of(secs as int / 86400).valid(),
        date_of(secs as int / 86400).number() == secs as int / 86400,
        r.1@ == time_text(secs as int),
{
    let days: u64 = secs / 86400;
    let tod: u64 = secs % 86400;
    let h: u64 = tod / 3600;
    let m: u64 = (tod % 3600) / 60;
    let s: u64 = tod % 60;
    let (year, month, day) = civil(days);
    proof {
        let d = Date { year: year as int, month: month as int, day: day as int };
        law_date_unique(d, date_of(days as int));
        assert(tod % 3600 == secs % 3600);
        assert(tod % 60 == secs % 60);
    }
    (hyphen_text(year, 4, month, day), hyphen_text(h, 2, m, s))
}

/// Day 0 is the first of January 1970.
pub proof fn law_epoch()
    ensures
        date_of(0) == (Date { year: 1970, month: 1, day: 1 }),
{
    let d = Date { year: 1970, month: 1, day: 1 };
    assert(d.valid() && d.number() == 0);
    law_date_unique(d, date_of(0));
}

/// Behind a date comes the next day of its month, behind the last day of a month the first of
/// the next month, and behind the last day of a year the first of the next year.
pub proof fn law_next_day(a: Date, b: Date)
    requires
        a.valid(),
        b == (if a.day < month_length(a.year, a.month) {
            (Date { day: a.day + 1, ..a })
        } else if a.month < 12 {
            (Date { year: a.year, month: a.month + 1, day: 1 })
        } else {
            (Date { year: a.year + 1, month: 1, day: 1 })
        }),
    ensures
        b.valid(),
        b.number() == a.number() + 1,
{
    law_year_length(a.year);
    assert(days_before_month(a.year, 13) == days_before_month(a.year, 12) + month_length(
        a.year,
        12,
    ));
    assert(days_before_month(a.year, a.month + 1) == days_before_month(a.year, a.month)
        + month_length(a.year, a.month));
}

/// Months have the lengths of the calendar, and February has a day more in leap years: 2000
/// was one and 1900 was none.
pub proof fn law_month_lengths(year: int)
    ensures
        month_length(year, 1) == 31 && month_length(year, 3) == 31 && month_length(year, 5) == 31,
        month_length(year, 7) == 31 && month_length(year, 8) == 31 && month_length(year, 10) == 31
            && month_length(year, 12) == 31,
        month_length(year, 4) == 30 && month_length(year, 6) == 30 && month_length(year, 9) == 30
            && month_length(year, 11) == 30,
        month_length(year, 2) == 28 || month_length(year, 2) == 29,
        leap(year) <==> month_length(year, 2) == 29,
        leap(year) ==> !leap(year + 1) && !leap(year + 2) && !leap(year + 3),
        leap(2000) && !leap(1900) && leap(2024),
        leap(year + 400) == leap(year),
{
}

/// The time of day is written as hours, minutes and seconds that together are the seconds
/// since midnight.
pub proof fn law_time_of_day(secs: int, h: int, m: int, s: int)
    requires
        secs >= 0,
        0 <= h < 24,
        0 <= m < 60,
        0 <= s < 60,
        secs % 86400 == 3600 * h + 60 * m + s,
    ensures
        time_text(secs) == zero_padded(h, 2) + "-"@ + zero_padded(m, 2) + "-"@ + zero_padded(s, 2),
{
    assert(secs % 3600 == 60 * m + s);
    assert(secs % 60 == s);
}

/// A date is written year first, in four digits or more, then month and day in two digits
/// each.
pub proof fn law_date_form(d: Date)
    requires
        d.valid(),
    ensures
        date_text(d) == zero_padded(d.year, 4) + "-"@ + zero_padded(d.month, 2) + "-"@
            + zero_padded(d.day, 2),
        zero_padded(d.month, 2).len() == 2,
        zero_padded(d.day, 2).len() == 2,
        zero_padded(d.year, 4).len() >= 4,
{
    crate::text::law_padding(crate::text::decimal(d.month as nat), '0', 2);
    crate::text::law_padding(crate::text::decimal(d.day as nat), '0', 2);
    crate::text::law_padding(crate::text::decimal(d.year as nat), '0', 4);
    crate::text::lemma_decimal(d.month as nat);
    crate::text::lemma_decimal(d.day as nat);
    if d.month >= 10 {
        assert(crate::text::decimal((d.month / 10) as nat).len() == 1);
    }
    if d.day >= 10 {
        assert(crate::text::decimal((d.day / 10) as nat).len() == 1);
    }
}

} // verus!
