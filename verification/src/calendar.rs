//! The civil calendar, in Coordinated Universal Time.

use vstd::prelude::*;

verus! {

/// Whether a year has a 29th of February.
pub open spec fn leap(year: int) -> bool {
    year % 4 == 0 && (year % 100 != 0 || year % 400 == 0)
}

/// How many days a year has.
pub open spec fn year_length(year: int) -> int {
    if leap(year) {
        366
    } else {
        365
    }
}

/// How many days a month has.
pub open spec fn month_length(year: int, month: int) -> int {
    if month == 2 {
        if leap(year) {
            29
        } else {
            28
        }
    } else if month == 4 || month == 6 || month == 9 || month == 11 {
        30
    } else {
        31
    }
}

/// How many days passed from the beginning of 1970 to that of a year.
pub open spec fn days_before_year(year: int) -> int
    decreases year - 1970,
{
    if year <= 1970 {
        0
    } else {
        days_before_year(year - 1) + year_length(year - 1)
    }
}

/// How many days of a year passed before a month of it.
pub open spec fn days_before_month(year: int, month: int) -> int
    decreases month,
{
    if month <= 1 {
        0
    } else {
        days_before_month(year, month - 1) + month_length(year, month - 1)
    }
}

/// A date.
#[derive(Clone, Copy, PartialEq, Eq, Structural, Debug)]
pub struct Date {
    pub year: u64,
    pub month: u64,
    pub day: u64,
}

/// Whether it is a date of 1970 or later.
pub open spec fn on_calendar(date: Date) -> bool {
    &&& date.year >= 1970
    &&& 1 <= date.month <= 12
    &&& 1 <= date.day <= month_length(date.year as int, date.month as int)
}

/// How many days passed from the first of January 1970 to a date.
pub open spec fn day_number(date: Date) -> int {
    days_before_year(date.year as int) + days_before_month(date.year as int, date.month as int)
        + date.day - 1
}

/// The days from the first of March of the year 0 to that of a year.
spec fn days_to_march(year: int) -> int {
    365 * year + year / 4 - year / 100 + year / 400
}

proof fn lemma_year(year: int)
    requires
        year >= 1970,
    ensures
        days_before_year(year) == days_to_march(year - 1) + 306 - 719468,
    decreases year - 1970,
{
    if year > 1970 {
        lemma_year(year - 1);
    }
}

proof fn lemma_months(year: int)
    ensures
        days_before_month(year, 1) == 0,
        days_before_month(year, 2) == 31,
        ({
            let march = 31 + month_length(year, 2);
            &&& days_before_month(year, 3) == march
            &&& days_before_month(year, 4) == march + 31
            &&& days_before_month(year, 5) == march + 61
            &&& days_before_month(year, 6) == march + 92
            &&& days_before_month(year, 7) == march + 122
            &&& days_before_month(year, 8) == march + 153
            &&& days_before_month(year, 9) == march + 184
            &&& days_before_month(year, 10) == march + 214
            &&& days_before_month(year, 11) == march + 245
            &&& days_before_month(year, 12) == march + 275
            &&& days_before_month(year, 13) == march + 306
        }),
{
    reveal_with_fuel(days_before_month, 14);
}

/// A day of a 400-year cycle, which begins with a first of March, is in the
/// year that its number less the leap days before it gives.
proof fn lemma_year_of_era(doe: u32, yoe: u32)
    requires
        doe < 146097,
        yoe == (doe - doe / 1460 + doe / 36524 - doe / 146096) / 365,
    ensures
        yoe <= 399,
        365 * yoe + yoe / 4 - yoe / 100 <= doe,
        doe - (365 * yoe + yoe / 4 - yoe / 100) <= 365,
        doe - (365 * yoe + yoe / 4 - yoe / 100) == 365 ==> (yoe + 1) % 4 == 0 && ((yoe + 1) % 100
            != 0 || yoe == 399),
{
    assert(({
        let n = ((doe - doe / 1460 + doe / 36524 - doe / 146096) as u32) / 365;
        let start = (365 * n + n / 4 - n / 100) as u32;
        let next = (n + 1) as u32;
        &&& n <= 399
        &&& start <= doe
        &&& doe - start <= 365
        &&& (doe - start == 365 ==> next % 4 == 0 && (next % 100 != 0 || n == 399))
    })) by (bit_vector)
        requires
            doe < 146097,
    ;
}

/// The date that is so many days after the first of January 1970 (days-to-civil
/// per Howard Hinnant).
pub fn date_of(days: u64) -> (r: Date)
    requires
        days <= 0xffff_ffff_ffff,
    ensures
        on_calendar(r),
        day_number(r) == days,
{
    let z: u64 = days + 719_468;
    let era: u64 = z / 146_097;
    let doe: u32 = (z % 146_097) as u32;
    let yoe: u32 = (doe - doe / 1460 + doe / 36_524 - doe / 146_096) / 365;
    proof {
        lemma_year_of_era(doe, yoe);
    }
    let y: u64 = yoe as u64 + era * 400;
    let doy: u32 = doe - (365 * yoe + yoe / 4 - yoe / 100);
    let mp: u32 = (5 * doy + 2) / 153;
    let d: u32 = doy - (153 * mp + 2) / 5 + 1;
    proof {
        lemma_month_of(doy as int, mp as int);
    }
    let month: u64 = if mp < 10 {
        (mp + 3) as u64
    } else {
        (mp - 9) as u64
    };
    let year: u64 = if month <= 2 {
        y + 1
    } else {
        y
    };
    let date = Date { year, month, day: d as u64 };
    proof {
        lemma_days(days as int, era as int, doe as int, yoe as int, doy as int);
        lemma_from_march(y as int, doy as int, mp as int, date);
    }
    date
}

/// A 400-year cycle has 146097 days.
proof fn lemma_era(era: int, yoe: int)
    requires
        0 <= era,
        0 <= yoe <= 399,
    ensures
        days_to_march(yoe + era * 400) == 146097 * era + 365 * yoe + yoe / 4 - yoe / 100,
{
    let y = yoe + era * 400;
    assert(y / 4 == yoe / 4 + era * 100);
    assert(y / 100 == yoe / 100 + era * 4);
    assert(y / 400 == era);
}

proof fn lemma_days(days: int, era: int, doe: int, yoe: int, doy: int)
    requires
        0 <= days,
        era == (days + 719468) / 146097,
        doe == (days + 719468) % 146097,
        0 <= yoe <= 399,
        doy == doe - (365 * yoe + yoe / 4 - yoe / 100),
        doy == 365 ==> (yoe + 1) % 4 == 0 && ((yoe + 1) % 100 != 0 || yoe == 399),
    ensures
        days + 719468 == days_to_march(yoe + era * 400) + doy,
        doy == 365 ==> leap(yoe + era * 400 + 1),
{
    lemma_era(era, yoe);
    assert((yoe + 1 + 400 * era) % 4 == (yoe + 1) % 4);
    assert((yoe + 1 + 400 * era) % 100 == (yoe + 1) % 100);
    assert((yoe + 1 + 400 * era) % 400 == (yoe + 1) % 400);
}

/// A day of a year that begins with March, as a date.
proof fn lemma_from_march(y: int, doy: int, mp: int, date: Date)
    requires
        0 <= y,
        days_to_march(y) + doy >= 719468,
        0 <= doy <= 365,
        doy == 365 ==> leap(y + 1),
        mp == (5 * doy + 2) / 153,
        date.day == doy - (153 * mp + 2) / 5 + 1,
        date.month == if mp < 10 { mp + 3 } else { mp - 9 },
        date.year == if mp < 10 { y } else { y + 1 },
    ensures
        on_calendar(date),
        day_number(date) == days_to_march(y) + doy - 719468,
{
    lemma_month_of(doy, mp);
    let year = date.year as int;
    assert(y >= 1969);
    assert(y == 1969 ==> doy >= 306);
    assert(year >= 1970);
    lemma_year(year);
    lemma_march(year);
    lemma_months(year);
    if mp < 10 {
        assert(days_before_month(year, date.month as int) == 31 + month_length(year, 2) + (153 * mp
            + 2) / 5) by {
            assert(mp == 0 || mp == 1 || mp == 2 || mp == 3 || mp == 4 || mp == 5 || mp == 6 || mp
                == 7 || mp == 8 || mp == 9);
        }
    } else {
        assert(mp == 10 || mp == 11);
    }
}

/// The first of March is 59 days into a year, 60 in a leap year.
proof fn lemma_march(year: int)
    requires
        year >= 1,
    ensures
        days_to_march(year) == days_to_march(year - 1) + year_length(year),
{
}

/// Where the months begin in a year that begins with March.
proof fn lemma_month_of(doy: int, mp: int)
    requires
        0 <= doy <= 365,
        mp == (5 * doy + 2) / 153,
    ensures
        0 <= mp <= 11,
        (153 * mp + 2) / 5 <= doy,
        mp < 11 ==> doy < (153 * (mp + 1) + 2) / 5,
{
}

/// A year is over when its months are.
proof fn lemma_within_year(date: Date)
    requires
        on_calendar(date),
    ensures
        0 <= days_before_month(date.year as int, date.month as int) + date.day - 1 < year_length(
            date.year as int,
        ),
{
    lemma_months(date.year as int);
}

/// Years follow each other.
proof fn lemma_years_grow(a: int, b: int)
    requires
        1970 <= a < b,
    ensures
        days_before_year(a) + year_length(a) <= days_before_year(b),
    decreases b - a,
{
    if b > a + 1 {
        lemma_years_grow(a, b - 1);
    }
}

/// A later date is one of a later year; or of a later month of the same year;
/// or a later day of the same month.
pub proof fn dates_follow_their_days(a: Date, b: Date)
    requires
        on_calendar(a),
        on_calendar(b),
    ensures
        day_number(a) < day_number(b) <==> {
            ||| a.year < b.year
            ||| a.year == b.year && a.month < b.month
            ||| a.year == b.year && a.month == b.month && a.day < b.day
        },
{
    lemma_within_year(a);
    lemma_within_year(b);
    if a.year < b.year {
        lemma_years_grow(a.year as int, b.year as int);
    }
    if b.year < a.year {
        lemma_years_grow(b.year as int, a.year as int);
    }
    lemma_months(a.year as int);
}

/// A day has one date: no two dates are equally far from the first of January
/// 1970.
pub proof fn a_day_has_one_date(a: Date, b: Date)
    requires
        on_calendar(a),
        on_calendar(b),
        day_number(a) == day_number(b),
    ensures
        a == b,
{
    lemma_within_year(a);
    lemma_within_year(b);
    if a.year < b.year {
        lemma_years_grow(a.year as int, b.year as int);
    }
    if b.year < a.year {
        lemma_years_grow(b.year as int, a.year as int);
    }
    lemma_months(a.year as int);
}

/// The first of January of the year 10000 is day 2932897: every day before it
/// is in a year of four digits.
pub proof fn lemma_four_digits(date: Date)
    requires
        on_calendar(date),
        day_number(date) < 2_932_897,
    ensures
        1970 <= date.year < 10000,
{
    lemma_within_year(date);
    if date.year >= 10000 {
        lemma_year(date.year as int);
    }
}

/// The day after a date.
proof fn lemma_next(a: Date) -> (b: Date)
    requires
        on_calendar(a),
        a.year < 0xffff_ffff_ffff_ffff,
    ensures
        on_calendar(b),
        day_number(b) == day_number(a) + 1,
        a.day < month_length(a.year as int, a.month as int) ==> b == (Date {
            day: (a.day + 1) as u64,
            ..a
        }),
        a.day == month_length(a.year as int, a.month as int) && a.month < 12 ==> b == (Date {
            year: a.year,
            month: (a.month + 1) as u64,
            day: 1,
        }),
        a.day == month_length(a.year as int, a.month as int) && a.month == 12 ==> b == (Date {
            year: (a.year + 1) as u64,
            month: 1,
            day: 1,
        }),
{
    let year = a.year as int;
    lemma_months(year);
    if a.day < month_length(year, a.month as int) {
        Date { day: (a.day + 1) as u64, ..a }
    } else if a.month < 12 {
        assert(days_before_month(year, a.month + 1) == days_before_month(year, a.month as int)
            + month_length(year, a.month as int));
        Date { year: a.year, month: (a.month + 1) as u64, day: 1 }
    } else {
        assert(days_before_year(year + 1) == days_before_year(year) + year_length(year));
        assert(days_before_month(year + 1, 1) == 0);
        Date { year: (a.year + 1) as u64, month: 1, day: 1 }
    }
}

/// Each day follows the one before it: it is the next day of the month, or the
/// first of the next month where that was the last day of its own. April, June,
/// September and November have thirty days, February has twenty-eight, or
/// twenty-nine in a year that four divides, unless a hundred does and four hundred
/// does not, and the others have thirty-one.
pub proof fn each_day_follows_the_one_before(days: u64, a: Date, next: u64, b: Date)
    requires
        call_ensures(date_of, (days,), a),
        call_ensures(date_of, (next,), b),
        next == days + 1,
    ensures
        ({
            let last: int = if a.month == 2 {
                if a.year % 400 == 0 || a.year % 4 == 0 && a.year % 100 != 0 {
                    29
                } else {
                    28
                }
            } else if a.month == 4 || a.month == 6 || a.month == 9 || a.month == 11 {
                30
            } else {
                31
            };
            &&& 1 <= a.day <= last
            &&& 1 <= a.month <= 12
            &&& a.day < last ==> b.day == a.day + 1 && b.month == a.month && b.year == a.year
            &&& a.day == last && a.month < 12 ==> b.day == 1 && b.month == a.month + 1 && b.year
                == a.year
            &&& a.day == last && a.month == 12 ==> b.day == 1 && b.month == 1 && b.year == a.year
                + 1
        }),
{
    lemma_late(a);
    let c = lemma_next(a);
    a_day_has_one_date(b, c);
}

/// A date is no later than its number of days allows.
proof fn lemma_late(a: Date)
    requires
        on_calendar(a),
        day_number(a) < 0xffff_ffff_ffff_ffff,
    ensures
        a.year < 0xffff_ffff_ffff_ffff,
{
    lemma_years_long(a.year as int);
    lemma_months(a.year as int);
}

proof fn lemma_years_long(year: int)
    requires
        year >= 1970,
    ensures
        days_before_year(year) >= 365 * (year - 1970),
    decreases year,
{
    if year > 1970 {
        lemma_years_long(year - 1);
    }
}

/// Day 0 is the first of January 1970.
pub proof fn the_days_begin_with_1970(r: Date)
    requires
        call_ensures(date_of, (0,), r),
    ensures
        r.year == 1970 && r.month == 1 && r.day == 1,
{
    let first = Date { year: 1970, month: 1, day: 1 };
    assert(day_number(first) == 0);
    a_day_has_one_date(r, first);
}

} // verus!
