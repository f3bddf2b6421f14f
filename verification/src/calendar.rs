//! Calendar arithmetic for audit-log timestamps: Unix seconds to UTC
//! civil dates in the proleptic Gregorian calendar.

use vstd::prelude::*;
use crate::text::{push_char, push_zero_padded, zero_padded, decimal};

verus! {

/// Gregorian leap-year rule.
pub open spec fn is_leap_year(y: int) -> bool {
    y % 4 == 0 && (y % 100 != 0 || y % 400 == 0)
}

/// Number of days in month `m` (1..=12) of year `y`.
pub open spec fn days_in_month(y: int, m: int) -> int {
    if m == 2 {
        if is_leap_year(y) {
            29
        } else {
            28
        }
    } else if m == 4 || m == 6 || m == 9 || m == 11 {
        30
    } else {
        31
    }
}

/// Days of year `y` that lie before the first of month `m`.
pub open spec fn days_before_month(y: int, m: int) -> int
    decreases m,
{
    if m <= 1 {
        0
    } else {
        days_before_month(y, m - 1) + days_in_month(y, m - 1)
    }
}

/// Days from 0000-01-01 to the first of January of year `y` (`y >= 0`):
/// 365 per year plus one per leap year in `0..y`.
pub open spec fn days_before_year(y: int) -> int {
    365 * y + (y + 3) / 4 - (y + 99) / 100 + (y + 399) / 400
}

/// A well-formed civil date.
pub open spec fn valid_date(y: int, m: int, d: int) -> bool {
    &&& y >= 0
    &&& 1 <= m <= 12
    &&& 1 <= d <= days_in_month(y, m)
}

/// Days elapsed from 1970-01-01 to the date `y-m-d`.
pub open spec fn epoch_day(y: int, m: int, d: int) -> int {
    days_before_year(y) + days_before_month(y, m) + d - 1 - days_before_year(1970)
}

/// A year has 366 days when it is a leap year and 365 otherwise.
pub proof fn lemma_days_before_next_year(y: int)
    requires
        y >= 0,
    ensures
        days_before_year(y + 1) == days_before_year(y) + if is_leap_year(y) {
            366int
        } else {
            365int
        },
{
    lemma_ceil_quarters(y);
    lemma_ceil_quarters(y + 1);
}

/// Days from 0000-03-01 to the first of March of year `k` of a 400-year era.
spec fn march_year_start(k: int) -> int {
    365 * k + k / 4 - k / 100 + k / 400
}

#[verifier::spinoff_prover]
proof fn lemma_year_of_era(doe: int)
    requires
        0 <= doe < 146097,
    ensures
        ({
            let yoe = (doe - doe / 1460 + doe / 36524 - doe / 146096) / 365;
            &&& 0 <= yoe < 400
            &&& march_year_start(yoe) <= doe < march_year_start(yoe + 1)
        }),
{
}

/// Days from 0000-03-01 to the first of March of year `y`.
spec fn march_start(y: int) -> int {
    365 * y + y / 4 - y / 100 + y / 400
}

proof fn lemma_ceil_quarters(y: int)
    requires
        y >= 0,
    ensures
        (y + 3) / 4 == y / 4 + (if y % 4 == 0 {
            0int
        } else {
            1int
        }),
        (y + 99) / 100 == y / 100 + (if y % 100 == 0 {
            0int
        } else {
            1int
        }),
        (y + 399) / 400 == y / 400 + (if y % 400 == 0 {
            0int
        } else {
            1int
        }),
        y % 100 == 0 ==> y % 4 == 0,
        y % 400 == 0 ==> y % 100 == 0,
{
}

proof fn lemma_march_start(y: int)
    requires
        y >= 0,
    ensures
        days_before_year(y) + 59 + (if is_leap_year(y) {
            1int
        } else {
            0int
        }) == march_start(y) + 60,
{
    lemma_ceil_quarters(y);
}

proof fn lemma_march_start_era(yoe: int, era: int)
    requires
        0 <= yoe <= 400,
        era >= 0,
    ensures
        march_start(yoe + 400 * era) == 146097 * era + march_year_start(yoe),
{
}

/// Month offsets of the March-based year: March is month 0, February 11.
proof fn lemma_month_of_march_year(doy: int, leap: bool)
    requires
        0 <= doy < 365 + (if leap {
            1int
        } else {
            0int
        }),
    ensures
        ({
            let mp = (5 * doy + 2) / 153;
            let d = doy - (153 * mp + 2) / 5 + 1;
            &&& 0 <= mp < 12
            &&& 1 <= d
            &&& mp < 10 ==> d <= days_in_month(2001, mp + 3)
            &&& mp == 10 ==> d <= 31
            &&& mp == 11 ==> d <= 28 + (if leap {
                1int
            } else {
                0int
            })
        }),
{
}

proof fn lemma_days_before_march_month(y: int, mp: int)
    requires
        0 <= mp < 10,
    ensures
        days_before_month(y, mp + 3) == 59 + (if is_leap_year(y) {
            1int
        } else {
            0int
        }) + (153 * mp + 2) / 5,
        days_in_month(y, mp + 3) == days_in_month(2001, mp + 3),
{
    reveal_with_fuel(days_before_month, 13);
}

/// The civil date of day `days` after 1970-01-01, computed through the
/// March-based 400-year era decomposition.
spec fn civil_from_days(days: int) -> (int, int, int) {
    let z = days + 719468;
    let era = z / 146097;
    let doe = z % 146097;
    let yoe = (doe - doe / 1460 + doe / 36524 - doe / 146096) / 365;
    let doy = doe - (365 * yoe + yoe / 4 - yoe / 100);
    let mp = (5 * doy + 2) / 153;
    let d = doy - (153 * mp + 2) / 5 + 1;
    let m = if mp < 10 {
        mp + 3
    } else {
        mp - 9
    };
    let y = yoe + era * 400;
    (if m <= 2 {
        y + 1
    } else {
        y
    }, m, d)
}

proof fn lemma_era_split(days: int)
    requires
        days >= 0,
    ensures
        ({
            let z = days + 719468;
            let era = z / 146097;
            let doe = z % 146097;
            let yoe = (doe - doe / 1460 + doe / 36524 - doe / 146096) / 365;
            let ym = yoe + era * 400;
            let doy = doe - (365 * yoe + yoe / 4 - yoe / 100);
            &&& ym >= 0
            &&& 0 <= yoe < 400
            &&& march_start(ym) + doy == z
            &&& 0 <= doy < 365 + (if is_leap_year(ym + 1) {
                1int
            } else {
                0int
            })
        }),
{
    let z = days + 719468;
    let era = z / 146097;
    let doe = z % 146097;
    assert(z == 146097 * era + doe);
    lemma_year_of_era(doe);
    let yoe = (doe - doe / 1460 + doe / 36524 - doe / 146096) / 365;
    let ym = yoe + era * 400;
    lemma_march_start_era(yoe, era);
    lemma_march_start_era(yoe + 1, era);
    lemma_march_start(ym);
    lemma_march_start(ym + 1);
    lemma_days_before_next_year(ym);
}

proof fn lemma_assemble_date(ym: int, doy: int)
    requires
        ym >= 0,
        0 <= doy < 365 + (if is_leap_year(ym + 1) {
            1int
        } else {
            0int
        }),
    ensures
        ({
            let mp = (5 * doy + 2) / 153;
            let d = doy - (153 * mp + 2) / 5 + 1;
            let m = if mp < 10 {
                mp + 3
            } else {
                mp - 9
            };
            let y = if m <= 2 {
                ym + 1
            } else {
                ym
            };
            &&& valid_date(y, m, d)
            &&& days_before_year(y) + days_before_month(y, m) + d - 1 == march_start(ym) + 60
                + doy
        }),
{
    lemma_month_of_march_year(doy, is_leap_year(ym + 1));
    lemma_march_start(ym);
    let mp = (5 * doy + 2) / 153;
    if mp < 10 {
        lemma_days_before_march_month(ym, mp);
    } else {
        lemma_days_before_next_year(ym);
        reveal_with_fuel(days_before_month, 3);
    }
}

proof fn lemma_civil_from_days(days: int)
    requires
        days >= 0,
    ensures
        ({
            let (y, m, d) = civil_from_days(days);
            valid_date(y, m, d) && epoch_day(y, m, d) == days
        }),
{
    lemma_era_split(days);
    let z = days + 719468;
    let era = z / 146097;
    let doe = z % 146097;
    let yoe = (doe - doe / 1460 + doe / 36524 - doe / 146096) / 365;
    let ym = yoe + era * 400;
    let doy = doe - (365 * yoe + yoe / 4 - yoe / 100);
    lemma_assemble_date(ym, doy);
}

proof fn lemma_days_before_year_monotone(a: int, b: int)
    requires
        0 <= a <= b,
    ensures
        days_before_year(b) - days_before_year(a) >= 365 * (b - a),
    decreases b - a,
{
    if a < b {
        lemma_days_before_year_monotone(a + 1, b);
        lemma_days_before_next_year(a);
    }
}

proof fn lemma_days_before_month_monotone(y: int, a: int, b: int)
    requires
        1 <= a <= b <= 13,
    ensures
        days_before_month(y, b) >= days_before_month(y, a) + (b - a) * 28,
        a < b ==> days_before_month(y, b) >= days_before_month(y, a) + days_in_month(y, a),
    decreases b - a,
{
    if a < b {
        lemma_days_before_month_monotone(y, a, b - 1);
    }
}

proof fn lemma_days_in_year(y: int)
    requires
        y >= 0,
    ensures
        days_before_month(y, 13) == days_before_year(y + 1) - days_before_year(y),
{
    reveal_with_fuel(days_before_month, 13);
    lemma_days_before_next_year(y);
}

/// Later valid dates have strictly larger day numbers.
pub proof fn lemma_epoch_day_strictly_increasing(y1: int, m1: int, d1: int, y2: int, m2: int, d2: int)
    requires
        valid_date(y1, m1, d1),
        valid_date(y2, m2, d2),
        y1 < y2 || (y1 == y2 && m1 < m2) || (y1 == y2 && m1 == m2 && d1 < d2),
    ensures
        epoch_day(y1, m1, d1) < epoch_day(y2, m2, d2),
{
    if y1 < y2 {
        lemma_days_before_month_monotone(y1, m1, 13);
        lemma_days_in_year(y1);
        lemma_days_before_year_monotone(y1 + 1, y2);
        lemma_days_before_month_monotone(y2, 1, m2);
    } else if m1 < m2 {
        lemma_days_before_month_monotone(y1, m1, m2);
    }
}

/// Distinct valid dates never share a day number, so a day number names
/// at most one date.
pub proof fn lemma_epoch_day_injective(y1: int, m1: int, d1: int, y2: int, m2: int, d2: int)
    requires
        valid_date(y1, m1, d1),
        valid_date(y2, m2, d2),
        epoch_day(y1, m1, d1) == epoch_day(y2, m2, d2),
    ensures
        y1 == y2 && m1 == m2 && d1 == d2,
{
    if y1 < y2 || (y1 == y2 && m1 < m2) || (y1 == y2 && m1 == m2 && d1 < d2) {
        lemma_epoch_day_strictly_increasing(y1, m1, d1, y2, m2, d2);
    } else if y2 < y1 || (y1 == y2 && m2 < m1) || (y1 == y2 && m1 == m2 && d2 < d1) {
        lemma_epoch_day_strictly_increasing(y2, m2, d2, y1, m1, d1);
    }
}

/// The civil date that is `days` days after 1970-01-01.
pub open spec fn date_of_day(days: int) -> (int, int, int) {
    choose|ymd: (int, int, int)|
        valid_date(ymd.0, ymd.1, ymd.2) && epoch_day(ymd.0, ymd.1, ymd.2) == days
}

/// The calendar day after `y-m-d`.
pub open spec fn next_date(y: int, m: int, d: int) -> (int, int, int) {
    if d < days_in_month(y, m) {
        (y, m, d + 1)
    } else if m < 12 {
        (y, m + 1, 1)
    } else {
        (y + 1, 1, 1)
    }
}

/// Consecutive day counts are consecutive calendar days: the date of day
/// `days + 1` is the day after the date of day `days`.
pub proof fn lemma_next_day(days: int)
    requires
        days >= 0,
    ensures
        valid_date(date_of_day(days).0, date_of_day(days).1, date_of_day(days).2),
        epoch_day(date_of_day(days).0, date_of_day(days).1, date_of_day(days).2) == days,
        date_of_day(days + 1) == next_date(date_of_day(days).0, date_of_day(days).1, date_of_day(days).2),
{
    lemma_civil_from_days(days);
    lemma_civil_from_days(days + 1);
    let c = civil_from_days(days);
    assert(valid_date(c.0, c.1, c.2) && epoch_day(c.0, c.1, c.2) == days);
    let (y, m, d) = date_of_day(days);
    let n = next_date(y, m, d);
    if d < days_in_month(y, m) {
    } else if m < 12 {
        assert(days_before_month(y, m + 1) == days_before_month(y, m) + days_in_month(y, m));
    } else {
        lemma_days_before_next_year(y);
        reveal_with_fuel(days_before_month, 12);
    }
    assert(valid_date(n.0, n.1, n.2));
    assert(epoch_day(n.0, n.1, n.2) == days + 1);
    let c1 = civil_from_days(days + 1);
    assert(valid_date(c1.0, c1.1, c1.2) && epoch_day(c1.0, c1.1, c1.2) == days + 1);
    let w = date_of_day(days + 1);
    lemma_epoch_day_injective(w.0, w.1, w.2, n.0, n.1, n.2);
}

/// Converts a count of days since 1970-01-01 into the civil date
/// `(year, month, day)` of the proleptic Gregorian calendar.
pub fn days_to_ymd(days: u64) -> (ymd: (u64, u64, u64))
    requires
        days <= u64::MAX - 719468,
    ensures
        valid_date(ymd.0 as int, ymd.1 as int, ymd.2 as int),
        epoch_day(ymd.0 as int, ymd.1 as int, ymd.2 as int) == days,
        (ymd.0 as int, ymd.1 as int, ymd.2 as int) == date_of_day(days as int),
{
    proof {
        lemma_civil_from_days(days as int);
        lemma_year_of_era(((days + 719468) % 146097) as int);
    }
    let z = days + 719468;
    let era = z / 146097;
    let doe = z % 146097;
    let yoe = (doe - doe / 1460 + doe / 36524 - doe / 146096) / 365;
    let y = yoe + era * 400;
    let doy = doe - (365 * yoe + yoe / 4 - yoe / 100);
    let mp = (5 * doy + 2) / 153;
    let d = doy - (153 * mp + 2) / 5 + 1;
    let m = if mp < 10 {
        mp + 3
    } else {
        mp - 9
    };
    let y = if m <= 2 {
        y + 1
    } else {
        y
    };
    proof {
        let w = (y as int, m as int, d as int);
        assert(valid_date(w.0, w.1, w.2) && epoch_day(w.0, w.1, w.2) == days);
        let c = date_of_day(days as int);
        lemma_epoch_day_injective(w.0, w.1, w.2, c.0, c.1, c.2);
    }
    (y, m, d)
}

/// `YYYYMMDDTHHMMSS` for the UTC instant `secs` seconds after the epoch.
pub open spec fn compact_timestamp_text(secs: nat) -> Seq<char> {
    let (y, m, d) = date_of_day((secs / 86400) as int);
    let t = secs % 86400;
    zero_padded(y as nat, 4) + zero_padded(m as nat, 2) + zero_padded(d as nat, 2) + seq!['T']
        + zero_padded(t / 3600, 2) + zero_padded((t % 3600) / 60, 2) + zero_padded(t % 60, 2)
}

/// `YYYY-MM-DDTHH:MM:SSZ` for the UTC instant `secs` seconds after the epoch.
pub open spec fn iso8601_text(secs: nat) -> Seq<char> {
    let (y, m, d) = date_of_day((secs / 86400) as int);
    let t = secs % 86400;
    zero_padded(y as nat, 4) + seq!['-'] + zero_padded(m as nat, 2) + seq!['-'] + zero_padded(
        d as nat,
        2,
    ) + seq!['T'] + zero_padded(t / 3600, 2) + seq![':'] + zero_padded((t % 3600) / 60, 2)
        + seq![':'] + zero_padded(t % 60, 2) + seq!['Z']
}

/// Seconds from the epoch to 10000-01-01T00:00:00Z.
pub open spec fn year_10000_secs() -> nat {
    253402300800
}

proof fn lemma_zero_padded_len(n: nat, width: nat)
    requires
        width == 2 || width == 4,
        n < 10000,
        width == 2 ==> n < 100,
    ensures
        zero_padded(n, width).len() == width,
{
    lemma_decimal_len_small(n);
}

proof fn lemma_decimal_len_small(n: nat)
    ensures
        n < 10 ==> decimal(n).len() == 1,
        n < 100 ==> decimal(n).len() <= 2,
        n < 1000 ==> decimal(n).len() <= 3,
        n < 10000 ==> decimal(n).len() <= 4,
    decreases n,
{
    if n >= 10 {
        lemma_decimal_len_small(n / 10);
    }
}

proof fn lemma_year_below_10000(secs: nat)
    requires
        secs < year_10000_secs(),
    ensures
        date_of_day((secs / 86400) as int).0 < 10000,
{
    let days = (secs / 86400) as int;
    lemma_civil_from_days(days);
    let c = civil_from_days(days);
    let w = date_of_day(days);
    lemma_epoch_day_injective(c.0, c.1, c.2, w.0, w.1, w.2);
    if w.0 >= 10000 {
        lemma_days_before_year_monotone(10000, w.0);
        lemma_days_before_month_monotone(w.0, 1, w.1);
    }
}

/// Formats `secs` seconds after the epoch as `YYYYMMDDTHHMMSS` (UTC).
pub fn compact_timestamp(secs: u64) -> (s: String)
    ensures
        s@ == compact_timestamp_text(secs as nat),
        secs < year_10000_secs() ==> s@.len() == 15 && s@[8] == 'T',
{
    let days = secs / 86400;
    let time_of_day = secs % 86400;
    let hours = time_of_day / 3600;
    let minutes = (time_of_day % 3600) / 60;
    let seconds = time_of_day % 60;
    let (year, month, day) = days_to_ymd(days);
    let mut s = String::new();
    push_zero_padded(&mut s, year, 4);
    push_zero_padded(&mut s, month, 2);
    push_zero_padded(&mut s, day, 2);
    push_char(&mut s, 'T');
    push_zero_padded(&mut s, hours, 2);
    push_zero_padded(&mut s, minutes, 2);
    push_zero_padded(&mut s, seconds, 2);
    proof {
        let t = secs as nat % 86400;
        if secs < year_10000_secs() {
            lemma_year_below_10000(secs as nat);
            lemma_zero_padded_len(year as nat, 4);
            lemma_zero_padded_len(month as nat, 2);
            lemma_zero_padded_len(day as nat, 2);
            lemma_zero_padded_len(hours as nat, 2);
            lemma_zero_padded_len(minutes as nat, 2);
            lemma_zero_padded_len(seconds as nat, 2);
        }
    }
    assert(s@ =~= compact_timestamp_text(secs as nat));
    s
}

/// Formats `secs` seconds after the epoch as `YYYY-MM-DDTHH:MM:SSZ` (UTC).
pub fn iso8601_timestamp(secs: u64) -> (s: String)
    ensures
        s@ == iso8601_text(secs as nat),
{
    let days = secs / 86400;
    let time_of_day = secs % 86400;
    let hours = time_of_day / 3600;
    let minutes = (time_of_day % 3600) / 60;
    let seconds = time_of_day % 60;
    let (year, month, day) = days_to_ymd(days);
    let mut s = String::new();
    push_zero_padded(&mut s, year, 4);
    push_char(&mut s, '-');
    push_zero_padded(&mut s, month, 2);
    push_char(&mut s, '-');
    push_zero_padded(&mut s, day, 2);
    push_char(&mut s, 'T');
    push_zero_padded(&mut s, hours, 2);
    push_char(&mut s, ':');
    push_zero_padded(&mut s, minutes, 2);
    push_char(&mut s, ':');
    push_zero_padded(&mut s, seconds, 2);
    push_char(&mut s, 'Z');
    assert(s@ =~= iso8601_text(secs as nat));
    s
}

/// Reads the system clock: whole seconds since the Unix epoch, or 0 when
/// the clock is set before the epoch
/// (`SystemTime::now().duration_since(UNIX_EPOCH).unwrap_or_default().as_secs()`).
/// Nothing is promised of the value: it is whatever the clock says.
#[verifier::external_body]
fn unix_now_secs() -> u64 {
    std::time::SystemTime::now().duration_since(std::time::UNIX_EPOCH).unwrap_or_default().as_secs()
}

/// The current UTC time as `YYYYMMDDTHHMMSS`, used in audit-log file names.
pub fn format_timestamp() -> (s: String)
    ensures
        exists|secs: u64| s@ == compact_timestamp_text(secs as nat),
{
    let secs = unix_now_secs();
    compact_timestamp(secs)
}

/// The current UTC time as `YYYY-MM-DDTHH:MM:SSZ`, used in audit-log lines.
pub fn now_iso8601() -> (s: String)
    ensures
        exists|secs: u64| s@ == iso8601_text(secs as nat),
{
    let secs = unix_now_secs();
    iso8601_timestamp(secs)
}

} // verus!
