//! What showing times is for: a time is shown as the date and the hour of the local clock.

use crate::clock;
use crate::clock::Timestamp;
use crate::number;
use crate::version;
use crate::version::{BuildTarget, TargetArch, TargetEnv, TargetOs};
use crate::text;
use vstd::prelude::*;

verus! {

/// The days are counted from the first of January 1970.
pub proof fn lemma_first_day()
    ensures
        clock::is_date(1970, 1, 1, 0),
        clock::date_of(0) == (1970int, 1int, 1int),
{
    assert(clock::days_before_month(1970, 1) == 0);
    clock::lemma_date_of(1970, 1, 1, 0);
}

/// The day after is the next of the month, the first of the next month, or the first of the
/// next year.
pub proof fn lemma_next_day(y: int, m: int, d: int, day: int)
    requires
        clock::is_date(y, m, d, day),
    ensures
        d < clock::month_days(y, m) ==> clock::is_date(y, m, d + 1, day + 1),
        d == clock::month_days(y, m) && m < 12 ==> clock::is_date(y, m + 1, 1, day + 1),
        d == 31 && m == 12 ==> clock::is_date(y + 1, 1, 1, day + 1),
{
    if d == clock::month_days(y, m) && m < 12 {
        assert(clock::days_before_month(y, m + 1) == clock::days_before_month(y, m)
            + clock::month_days(y, m));
    } else if d == 31 && m == 12 {
        clock::lemma_year_days(y);
        assert(clock::days_before_month(y + 1, 1) == 0);
    }
}

/// February has 29 days in the years that four divides, but for those that a hundred divides
/// and four hundred does not; the other months are of 31 days or of 30.
pub proof fn lemma_months(y: int)
    ensures
        y % 4 != 0 ==> clock::month_days(y, 2) == 28,
        y % 100 == 0 && y % 400 != 0 ==> clock::month_days(y, 2) == 28,
        y % 4 == 0 && y % 100 != 0 ==> clock::month_days(y, 2) == 29,
        y % 400 == 0 ==> clock::month_days(y, 2) == 29,
        clock::month_days(y, 1) == 31,
        clock::month_days(y, 3) == 31,
        clock::month_days(y, 4) == 30,
        clock::month_days(y, 5) == 31,
        clock::month_days(y, 6) == 30,
        clock::month_days(y, 7) == 31,
        clock::month_days(y, 8) == 31,
        clock::month_days(y, 9) == 30,
        clock::month_days(y, 10) == 31,
        clock::month_days(y, 11) == 30,
        clock::month_days(y, 12) == 31,
{
}

/// A number below a hundred in two digits.
pub open spec fn in_two(n: int) -> Seq<char> {
    number::decimal(n / 10) + number::decimal(n % 10)
}

proof fn lemma_in_two(n: int)
    requires
        0 <= n < 100,
    ensures
        clock::two_digits(n) == in_two(n),
{
    assert(clock::two_digits(n) =~= in_two(n));
}

/// A time is shown as the year in four digits, the month, the day, the hour, the minute and the
/// second in two digits each, by the clock that is ahead of UTC by the offset.
pub proof fn lemma_time_is_shown(
    time: Timestamp,
    y: int,
    m: int,
    d: int,
    day: int,
    hour: int,
    minute: int,
    second: int,
)
    requires
        clock::is_date(y, m, d, day),
        0 <= y <= 9999,
        0 <= hour < 24,
        0 <= minute < 60,
        0 <= second < 60,
        time.secs + time.utc_offset == day * 86400 + hour * 3600 + minute * 60 + second,
    ensures
        time.shown() == in_two(y / 100) + in_two(y % 100) + "-"@ + in_two(m) + "-"@ + in_two(d)
            + " "@ + (in_two(hour) + ":"@ + in_two(minute) + ":"@ + in_two(second)),
{
    let t = time.secs + time.utc_offset;
    let rest = hour * 3600 + minute * 60 + second;
    assert(t / 86400 == day && t % 86400 == rest);
    assert(rest / 3600 == hour);
    assert(rest / 60 == hour * 60 + minute);
    assert(rest / 60 % 60 == minute);
    assert(rest % 60 == second);
    clock::lemma_date_of(y, m, d, day);
    assert(d <= 31);
    lemma_in_two(y / 100);
    lemma_in_two(y % 100);
    lemma_in_two(m);
    lemma_in_two(d);
    lemma_in_two(hour);
    lemma_in_two(minute);
    lemma_in_two(second);
}

/// The same moment by two clocks, or two moments that the clocks show alike, look the same.
pub proof fn lemma_offset_counts(a: Timestamp, b: Timestamp)
    requires
        a.secs + a.utc_offset == b.secs + b.utc_offset,
    ensures
        a.shown() == b.shown(),
{
}

/// The label of a build names the system, the processor and the library that it was made for.
pub proof fn lemma_labels(env: TargetEnv, arch: TargetArch)
    ensures
        (BuildTarget { os: TargetOs::Linux, arch: TargetArch::X86_64, env: TargetEnv::Gnu }).name()
            == "linux-amd64-gnu"@,
        (BuildTarget { os: TargetOs::Linux, arch: TargetArch::X86_64, env: TargetEnv::Musl }).name()
            == "linux-amd64-musl"@,
        (BuildTarget { os: TargetOs::Linux, arch: TargetArch::X86_64, env: TargetEnv::Other }).name()
            == "linux-amd64"@,
        (BuildTarget { os: TargetOs::Linux, arch: TargetArch::Aarch64, env: TargetEnv::Gnu }).name()
            == "linux-aarch64-gnu"@,
        (BuildTarget { os: TargetOs::Linux, arch: TargetArch::Aarch64, env: TargetEnv::Musl }).name()
            == "linux-aarch64-musl"@,
        (BuildTarget { os: TargetOs::Linux, arch: TargetArch::Aarch64, env: TargetEnv::Other }).name()
            == "linux-aarch64"@,
        (BuildTarget { os: TargetOs::Linux, arch: TargetArch::Other, env }).name() == "unknown"@,
        (BuildTarget { os: TargetOs::Macos, arch, env }).name() == "darwin"@,
        (BuildTarget { os: TargetOs::Other, arch, env }).name() == "unknown"@,
{
}

/// The hash of a build is shown without the white space around it, and as unknown where it is
/// empty.
pub proof fn lemma_hash_is_shown(before: Seq<char>, hash: Seq<char>, after: Seq<char>)
    requires
        crate::laws::text::blank(before),
        crate::laws::text::blank(after),
        hash.len() > 0 ==> !text::is_space(hash[0]) && !text::is_space(hash.last()),
    ensures
        version::shown_hash(before + hash + after) == if hash.len() > 0 {
            hash
        } else {
            "unknown"@
        },
{
    crate::laws::text::lemma_trim_around(before, hash, after);
}

/// The times that can be shown are those that have a date, by clocks that are less than a day
/// ahead or behind.
pub proof fn lemma_times_that_can_be_shown(time: Timestamp)
    ensures
        time.is_valid() == (-8334601228800 <= time.secs && time.secs <= 8210266876799 && -86400
            < time.utc_offset && time.utc_offset < 86400),
{
}

} // verus!
