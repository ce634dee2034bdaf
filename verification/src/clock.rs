//! Local times and how they are shown.

use crate::number;
use vstd::prelude::*;

verus! {

// ---------------------------------------------------------------------------
// The calendar
// ---------------------------------------------------------------------------

/// The year has a 29th of February, by the Gregorian rule.
pub open spec fn is_leap(y: int) -> bool {
    y % 4 == 0 && (y % 100 != 0 || y % 400 == 0)
}

/// The number of days of a month.
pub open spec fn month_days(y: int, m: int) -> int {
    if m == 2 {
        if is_leap(y) {
            29
        } else {
            28
        }
    } else if m == 4 || m == 6 || m == 9 || m == 11 {
        30
    } else {
        31
    }
}

/// The number of days from the start of the year to the start of the month.
pub open spec fn days_before_month(y: int, m: int) -> int
    decreases m,
{
    if m <= 1 {
        0
    } else {
        days_before_month(y, m - 1) + month_days(y, m - 1)
    }
}

/// The number of days from the start of the year 1 to the start of the year.
pub open spec fn days_before_year(y: int) -> int {
    365 * (y - 1) + (y - 1) / 4 - (y - 1) / 100 + (y - 1) / 400
}

/// The date is that of the day `day`, where day 0 is the 1st of January 1970.
pub open spec fn is_date(y: int, m: int, d: int, day: int) -> bool {
    &&& 1 <= m <= 12
    &&& 1 <= d <= month_days(y, m)
    &&& days_before_year(y) + days_before_month(y, m) + d - 1 == day + 719162
}

/// The date of a day.
pub open spec fn date_of(day: int) -> (int, int, int) {
    choose|y: int, m: int, d: int| is_date(y, m, d, day)
}

proof fn lemma_month_total(y: int)
    ensures
        days_before_month(y, 12) + 31 == (if is_leap(y) {
            366int
        } else {
            365
        }),
{
    let february = month_days(y, 2);
    assert(days_before_month(y, 1) == 0);
    assert(days_before_month(y, 2) == 31);
    assert(days_before_month(y, 3) == 31 + february);
    assert(days_before_month(y, 4) == 62 + february);
    assert(days_before_month(y, 5) == 92 + february);
    assert(days_before_month(y, 6) == 123 + february);
    assert(days_before_month(y, 7) == 153 + february);
    assert(days_before_month(y, 8) == 184 + february);
    assert(days_before_month(y, 9) == 215 + february);
    assert(days_before_month(y, 10) == 245 + february);
    assert(days_before_month(y, 11) == 276 + february);
    assert(days_before_month(y, 12) == 306 + february);
}

/// Counting up by one crosses a multiple of `k` exactly at the multiples.
proof fn lemma_crossing(y: int, k: int)
    requires
        k == 4 || k == 100 || k == 400,
    ensures
        y / k - (y - 1) / k == (if y % k == 0 {
            1int
        } else {
            0
        }),
{
    if k == 4 {
    } else if k == 100 {
    } else {
    }
}

/// Multiples of 400 are multiples of 100, and those are multiples of 4.
proof fn lemma_multiples(y: int)
    ensures
        y % 400 == 0 ==> y % 100 == 0,
        y % 100 == 0 ==> y % 4 == 0,
{
    if y % 400 == 0 {
        let q = y / 400;
        assert(y == 100 * (4 * q));
        assert((100 * (4 * q)) % 100 == 0) by (nonlinear_arith);
    }
    if y % 100 == 0 {
        let q = y / 100;
        assert(y == 4 * (25 * q));
        assert((4 * (25 * q)) % 4 == 0) by (nonlinear_arith);
    }
}

/// One for a leap year, counted by the multiples of 4, 100 and 400.
proof fn lemma_leap_count(y: int)
    ensures
        (if is_leap(y) {
            1int
        } else {
            0
        }) == (y / 4 - (y - 1) / 4) - (y / 100 - (y - 1) / 100) + (y / 400 - (y - 1) / 400),
{
    let four = y / 4 - (y - 1) / 4;
    let hundred = y / 100 - (y - 1) / 100;
    let four_hundred = y / 400 - (y - 1) / 400;
    lemma_crossing(y, 4);
    lemma_crossing(y, 100);
    lemma_crossing(y, 400);
    lemma_multiples(y);
    lemma_leap_cases(y % 4 == 0, y % 100 == 0, y % 400 == 0, four, hundred, four_hundred);
}

proof fn lemma_leap_cases(by4: bool, by100: bool, by400: bool, a: int, b: int, c: int)
    requires
        by400 ==> by100,
        by100 ==> by4,
        a == (if by4 {
            1int
        } else {
            0
        }),
        b == (if by100 {
            1int
        } else {
            0
        }),
        c == (if by400 {
            1int
        } else {
            0
        }),
    ensures
        (if by4 && (!by100 || by400) {
            1int
        } else {
            0
        }) == a - b + c,
{
}

/// A year ends with the last of December.
pub proof fn lemma_year_days(y: int)
    ensures
        days_before_year(y + 1) == days_before_year(y) + days_before_month(y, 12) + 31,
{
    lemma_month_total(y);
    lemma_leap_count(y);
}

proof fn lemma_years_ascend(y: int, z: int)
    requires
        y < z,
    ensures
        days_before_year(y) + days_before_month(y, 12) + 31 <= days_before_year(z),
    decreases z - y,
{
    lemma_year_days(y);
    if y + 1 < z {
        lemma_years_ascend(y + 1, z);
        lemma_year_days(y + 1);
    }
}

proof fn lemma_months_ascend(y: int, m: int, n: int)
    requires
        1 <= m < n <= 12,
    ensures
        days_before_month(y, m) + month_days(y, m) <= days_before_month(y, n),
    decreases n - m,
{
    if m + 1 < n {
        lemma_months_ascend(y, m, n - 1);
    }
}

/// Each date is the date of one day only, and each day has one date only.
pub proof fn lemma_date_unique(y: int, m: int, d: int, z: int, n: int, e: int, day: int)
    requires
        is_date(y, m, d, day),
        is_date(z, n, e, day),
    ensures
        y == z && m == n && d == e,
{
    if m < 12 {
        lemma_months_ascend(y, m, 12);
    }
    if n < 12 {
        lemma_months_ascend(z, n, 12);
    }
    if 1 < m {
        lemma_months_ascend(y, 1, m);
    }
    if 1 < n {
        lemma_months_ascend(z, 1, n);
    }
    assert(days_before_month(y, 1) == 0);
    assert(days_before_month(z, 1) == 0);
    if y < z {
        lemma_years_ascend(y, z);
    } else if z < y {
        lemma_years_ascend(z, y);
    } else if m < n {
        lemma_months_ascend(y, m, n);
    } else if n < m {
        lemma_months_ascend(y, n, m);
    }
}

/// Each day has a date.
pub proof fn lemma_date_exists(day: int)
    ensures
        exists|y: int, m: int, d: int| is_date(y, m, d, day),
    decreases (if day < 0 {
        -day
    } else {
        day
    }),
{
    if day == 0 {
        assert(is_date(1970, 1, 1, 0)) by {
            assert(days_before_month(1970, 1) == 0);
        }
    } else if day > 0 {
        let before = day - 1;
        lemma_date_exists(before);
        let (y, m, d) = choose|y: int, m: int, d: int| is_date(y, m, d, before);
        if d < month_days(y, m) {
            assert(is_date(y, m, d + 1, day));
        } else if m < 12 {
            assert(days_before_month(y, m + 1) == days_before_month(y, m) + month_days(y, m));
            assert(is_date(y, m + 1, 1, day));
        } else {
            lemma_year_days(y);
            assert(days_before_month(y + 1, 1) == 0);
            assert(is_date(y + 1, 1, 1, day));
        }
    } else {
        let after = day + 1;
        lemma_date_exists(after);
        let (y, m, d) = choose|y: int, m: int, d: int| is_date(y, m, d, after);
        if d > 1 {
            assert(is_date(y, m, d - 1, day));
        } else if m > 1 {
            assert(days_before_month(y, m) == days_before_month(y, m - 1) + month_days(y, m - 1));
            assert(is_date(y, m - 1, month_days(y, m - 1), day));
        } else {
            lemma_year_days(y - 1);
            assert(days_before_month(y, 1) == 0);
            assert(is_date(y - 1, 12, 31, day));
        }
    }
}

/// The date of a day is the one that fits it.
pub proof fn lemma_date_of(y: int, m: int, d: int, day: int)
    requires
        is_date(y, m, d, day),
    ensures
        date_of(day) == (y, m, d),
{
    let (z, n, e) = date_of(day);
    lemma_date_unique(y, m, d, z, n, e, day);
}

// ---------------------------------------------------------------------------
// Times as shown
// ---------------------------------------------------------------------------

/// Two digits.
pub open spec fn two_digits(n: int) -> Seq<char> {
    seq![number::digit_char(n / 10), number::digit_char(n % 10)]
}

/// Four digits.
pub open spec fn four_digits(n: int) -> Seq<char> {
    two_digits(n / 100) + two_digits(n % 100)
}

/// A year: four digits, and outside of 0 to 9999 a sign before at least four digits.
pub open spec fn year_text(y: int) -> Seq<char> {
    if 0 <= y <= 9999 {
        four_digits(y)
    } else if y > 9999 {
        "+"@ + number::decimal(y)
    } else if -9999 <= y {
        "-"@ + four_digits(-y)
    } else {
        "-"@ + number::decimal(-y)
    }
}

/// A day as `YYYY-MM-DD`.
pub open spec fn date_text(day: int) -> Seq<char> {
    let (y, m, d) = date_of(day);
    year_text(y) + "-"@ + two_digits(m) + "-"@ + two_digits(d)
}

/// A second of the day as `HH:MM:SS`.
pub open spec fn clock_text(second: int) -> Seq<char> {
    two_digits(second / 3600) + ":"@ + two_digits(second / 60 % 60) + ":"@ + two_digits(
        second % 60,
    )
}

/// A second since the start of 1970 as `YYYY-MM-DD HH:MM:SS`.
pub open spec fn time_text(second: int) -> Seq<char> {
    date_text(second / 86400) + " "@ + clock_text(second % 86400)
}

/// A moment, with the place of the local clock at that moment.
#[derive(Debug, Clone, Copy, PartialEq, Eq, Structural)]
pub struct Timestamp {
    /// Seconds since the start of 1970, rounded down.
    pub secs: i64,
    /// How many seconds the local clock is ahead of UTC.
    pub utc_offset: i32,
}

/// The first moment that has a date: the start of the year -262143.
pub const FIRST_SECOND: i64 = -8334601228800;

/// The last moment that has a date: the end of the year 262142.
pub const LAST_SECOND: i64 = 8210266876799;

/// The number of seconds that a clock is less than ahead of or behind UTC.
pub const OFFSET_LIMIT: i32 = 86400;

impl Timestamp {
    /// The moment has a date, and the local clock is less than a day off.
    pub open spec fn is_valid(self) -> bool {
        &&& FIRST_SECOND <= self.secs <= LAST_SECOND
        &&& -OFFSET_LIMIT < self.utc_offset < OFFSET_LIMIT
    }

    /// The moment as the local clock shows it.
    pub open spec fn shown(self) -> Seq<char> {
        time_text(self.secs + self.utc_offset)
    }

    /// The moment, if it has a date and the local clock is less than a day off.
    pub fn new(secs: i64, utc_offset: i32) -> (r: Option<Timestamp>)
        ensures
            match r {
                Some(time) => time.is_valid() && time == (Timestamp { secs, utc_offset }),
                None => !(Timestamp { secs, utc_offset }).is_valid(),
            },
    {
        if FIRST_SECOND <= secs && secs <= LAST_SECOND && -OFFSET_LIMIT < utc_offset && utc_offset
            < OFFSET_LIMIT {
            Some(Timestamp { secs, utc_offset })
        } else {
            None
        }
    }
}

/// `chrono::DateTime::format` with the pattern `%Y-%m-%d %H:%M:%S`, on the moment `secs`
/// at the fixed offset `utc_offset`: the date of the local day in the proleptic Gregorian
/// calendar and the local time of day. Outside of the moments and offsets that are asked
/// for, chrono has no such value.
#[verifier::external_body]
fn local_time_text(secs: i64, utc_offset: i32) -> (r: String)
    requires
        FIRST_SECOND <= secs <= LAST_SECOND,
        -OFFSET_LIMIT < utc_offset < OFFSET_LIMIT,
    ensures
        r@ == time_text(secs + utc_offset),
{
    let zone = chrono::FixedOffset::east_opt(utc_offset).unwrap();
    let time = chrono::DateTime::from_timestamp(secs, 0).unwrap().with_timezone(&zone);
    time.format("%Y-%m-%d %H:%M:%S").to_string()
}

/// A moment as the local clock shows it.
pub fn format_system_time(time: Timestamp) -> (r: String)
    requires
        time.is_valid(),
    ensures
        r@ == time.shown(),
{
    local_time_text(time.secs, time.utc_offset)
}

} // verus!
