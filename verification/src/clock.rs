//! The time of a check, as the text that a certificate records.

use vstd::prelude::*;
use vstd::string::*;

use crate::text::{decimal, decimal_text, digit_char};

verus! {

/// Whether a year is a leap year.
pub open spec fn is_leap(y: int) -> bool {
    y % 4 == 0 && (y % 100 != 0 || y % 400 == 0)
}

/// The days of a year.
pub open spec fn year_days(y: int) -> int {
    if is_leap(y) {
        366
    } else {
        365
    }
}

/// The days of a month.
pub open spec fn month_days(y: int, m: int) -> int {
    if m == 2 {
        if is_leap(y) {
            29
        } else {
            28
        }
    } else if m == 4 || m == 6 || m == 9 || m == 11 {
        30
    } else {
        31
    }
}

/// The days from the start of 1970 to the start of a year.
pub open spec fn days_to_year(y: int) -> int
    decreases y - 1970,
{
    if y <= 1970 {
        0
    } else {
        days_to_year(y - 1) + year_days(y - 1)
    }
}

/// The days from the start of a year to the start of a month of it.
pub open spec fn days_to_month(y: int, m: int) -> int
    decreases m,
{
    if m <= 1 {
        0
    } else {
        days_to_month(y, m - 1) + month_days(y, m - 1)
    }
}

/// Whether a date is that of the given day, counted from the first of January 1970.
pub open spec fn is_date(day: int, y: int, m: int, d: int) -> bool {
    &&& 1970 <= y
    &&& 1 <= m <= 12
    &&& 1 <= d <= month_days(y, m)
    &&& day == days_to_year(y) + days_to_month(y, m) + d - 1
}

proof fn lemma_year_is_its_months(y: int)
    ensures
        days_to_month(y, 12) + month_days(y, 12) == year_days(y),
{
    reveal_with_fuel(days_to_month, 13);
}

proof fn lemma_years_add_up(a: int, b: int)
    requires
        1970 <= a <= b,
    ensures
        days_to_year(a) + 365 * (b - a) <= days_to_year(b),
    decreases b - a,
{
    if a < b {
        lemma_years_add_up(a, b - 1);
    }
}

proof fn lemma_months_add_up(y: int, a: int, b: int)
    requires
        1 <= a <= b <= 13,
    ensures
        days_to_month(y, a) <= days_to_month(y, b),
        a < b ==> days_to_month(y, a) + month_days(y, a) <= days_to_month(y, b),
    decreases b - a,
{
    if a + 1 < b {
        lemma_months_add_up(y, a, b - 1);
    }
}

proof fn lemma_within_year(y: int, m: int, d: int)
    requires
        1 <= m <= 12,
        1 <= d <= month_days(y, m),
    ensures
        0 <= days_to_month(y, m) + d - 1 < year_days(y),
{
    lemma_year_is_its_months(y);
    lemma_months_add_up(y, 1, m);
    lemma_months_add_up(y, m, 12);
}

/// A day has one date.
pub proof fn a_day_has_one_date(day: int, y: int, m: int, d: int, z: int, n: int, e: int)
    requires
        is_date(day, y, m, d),
        is_date(day, z, n, e),
    ensures
        y == z,
        m == n,
        d == e,
{
    lemma_within_year(y, m, d);
    lemma_within_year(z, n, e);
    if y < z {
        lemma_years_add_up(y + 1, z);
    } else if z < y {
        lemma_years_add_up(z + 1, y);
    }
    if m < n {
        lemma_months_add_up(y, m, n);
    } else if n < m {
        lemma_months_add_up(y, n, m);
    }
}

fn leap(y: u64) -> (r: bool)
    ensures
        r == is_leap(y as int),
{
    y % 4 == 0 && (y % 100 != 0 || y % 400 == 0)
}

/// The first second that four digits do not reach: the start of the year 10000.
pub const END_OF_TIME: u64 = 253_402_300_800;

/// The date of a day, counted from the first of January 1970: year, month, day.
pub fn date_of(day: u64) -> (r: (u64, u64, u64))
    requires
        day < END_OF_TIME,
    ensures
        is_date(day as int, r.0 as int, r.1 as int, r.2 as int),
{
    let mut left: u64 = day;
    let mut y: u64 = 1970;
    loop
        invariant
            1970 <= y,
            day < END_OF_TIME,
            left + days_to_year(y as int) == day,
            y + left <= 1970 + day,
        ensures
            1970 <= y,
            left + days_to_year(y as int) == day,
            left < year_days(y as int),
        decreases left,
    {
        let n: u64 = if leap(y) {
            366
        } else {
            365
        };
        if left < n {
            break;
        }
        left = left - n;
        y = y + 1;
    }
    let mut m: u64 = 1;
    while m < 12
        invariant_except_break
            left + days_to_year(y as int) + days_to_month(y as int, m as int) == day,
            1 <= m <= 12,
            days_to_month(y as int, m as int) + left < year_days(y as int),
        ensures
            1 <= m <= 12,
            left + days_to_year(y as int) + days_to_month(y as int, m as int) == day,
            m < 12 ==> left < month_days(y as int, m as int),
            days_to_month(y as int, m as int) + left < year_days(y as int),
        decreases 12 - m,
    {
        let n: u64 = if m == 2 {
            if leap(y) {
                29
            } else {
                28
            }
        } else if m == 4 || m == 6 || m == 9 || m == 11 {
            30
        } else {
            31
        };
        if left < n {
            break;
        }
        left = left - n;
        m = m + 1;
    }
    proof {
        lemma_year_is_its_months(y as int);
    }
    (y, m, left + 1)
}

/// A number in at least `width` digits.
pub open spec fn padded(n: nat, width: nat) -> Seq<char> {
    let digits = decimal(n);
    if digits.len() < width {
        Seq::new((width - digits.len()) as nat, |i: int| '0') + digits
    } else {
        digits
    }
}

proof fn lemma_decimal_len(n: nat)
    ensures
        decimal(n).len() >= 1,
    decreases n,
{
    if n >= 10 {
        lemma_decimal_len(n / 10);
    }
}

fn two_digits(n: u64) -> (r: String)
    ensures
        r@ == padded(n as nat, 2),
{
    let digits = decimal_text(n);
    proof {
        lemma_decimal_len(n as nat);
        lemma_decimal_len((n / 10) as nat);
    }
    if n < 10 {
        let mut s = "0".to_owned();
        s.append(digits.as_str());
        proof {
            reveal_strlit("0");
            assert(s@ =~= padded(n as nat, 2));
        }
        s
    } else {
        digits
    }
}

/// The text of a time in the year `y`: RFC 3339, in UTC.
pub open spec fn stamp_text(y: int, m: int, d: int, of_day: int) -> Seq<char> {
    decimal(y as nat) + "-"@ + padded(m as nat, 2) + "-"@ + padded(d as nat, 2) + "T"@ + padded(
        (of_day / 3600) as nat,
        2,
    ) + ":"@ + padded((of_day / 60 % 60) as nat, 2) + ":"@ + padded((of_day % 60) as nat, 2)
        + "Z"@
}

/// The time, in seconds from the start of 1970, as RFC 3339 text in UTC.
pub fn rfc3339(seconds: u64) -> (r: String)
    requires
        seconds < END_OF_TIME,
    ensures
        exists|y: int, m: int, d: int|
            #![trigger is_date(seconds as int / 86400, y, m, d)]
            is_date(seconds as int / 86400, y, m, d) && r@ == stamp_text(
                y,
                m,
                d,
                seconds as int % 86400,
            ),
{
    let (y, m, d) = date_of(seconds / 86400);
    let of_day: u64 = seconds % 86400;
    let mut s = decimal_text(y);
    s.append("-");
    s.append(two_digits(m).as_str());
    s.append("-");
    s.append(two_digits(d).as_str());
    s.append("T");
    s.append(two_digits(of_day / 3600).as_str());
    s.append(":");
    s.append(two_digits(of_day / 60 % 60).as_str());
    s.append(":");
    s.append(two_digits(of_day % 60).as_str());
    s.append("Z");
    assert(is_date(seconds as int / 86400, y as int, m as int, d as int));
    s
}

/// Days are counted from the first of January 1970, and each is followed by the next of
/// its month, or behind the last of the month by the first of the next, or behind the
/// last of December by the first of January of the next year. A month has 31 days, but
/// April, June, September and November have 30, and February 28, or 29 in a leap year:
/// every fourth, but of those that end a century only every fourth.
pub proof fn a_day_follows_a_day(day: int, y: int, m: int, d: int)
    requires
        is_date(day, y, m, d),
    ensures
        is_date(0, 1970, 1, 1),
        ({
            let last = if m == 2 {
                if y % 400 == 0 || (y % 4 == 0 && y % 100 != 0) {
                    29int
                } else {
                    28
                }
            } else if m == 4 || m == 6 || m == 9 || m == 11 {
                30
            } else {
                31
            };
            &&& 1 <= m <= 12
            &&& 1 <= d <= last
            &&& d < last ==> is_date(day + 1, y, m, d + 1)
            &&& d == last && m < 12 ==> is_date(day + 1, y, m + 1, 1)
            &&& d == last && m == 12 ==> is_date(day + 1, y + 1, 1, 1)
        }),
{
    lemma_year_is_its_months(y);
}

proof fn lemma_two_digits(n: nat)
    requires
        n < 100,
    ensures
        padded(n, 2) == seq![digit_char((n / 10) as int), digit_char((n % 10) as int)],
{
    reveal_with_fuel(decimal, 2);
    if n < 10 {
        lemma_zero_is_its_digit();
        assert(decimal(n) =~= seq![digit_char(n as int)]);
    } else {
        assert(decimal((n / 10) as nat) =~= seq![digit_char((n / 10) as int)]);
    }
    assert(padded(n, 2) =~= seq![digit_char((n / 10) as int), digit_char((n % 10) as int)]);
}

proof fn lemma_zero_is_its_digit()
    ensures
        digit_char(0) == '0',
{
}

/// The text of a time writes its parts, each in its place: the year, the month and the
/// day with hyphens between them, a `T`, and the hour, the minute and the second with
/// colons between them, all but the year in two digits, and a `Z`.
pub proof fn a_stamp_writes_its_parts(y: int, m: int, d: int, hour: int, minute: int, second: int)
    requires
        0 <= m < 100,
        0 <= d < 100,
        0 <= hour < 24,
        0 <= minute < 60,
        0 <= second < 60,
    ensures
        stamp_text(y, m, d, hour * 3600 + minute * 60 + second) == decimal(y as nat) + "-"@ + seq![
            digit_char(m / 10),
            digit_char(m % 10),
        ] + "-"@ + seq![digit_char(d / 10), digit_char(d % 10)] + "T"@ + seq![
            digit_char(hour / 10),
            digit_char(hour % 10),
        ] + ":"@ + seq![digit_char(minute / 10), digit_char(minute % 10)] + ":"@ + seq![
            digit_char(second / 10),
            digit_char(second % 10),
        ] + "Z"@,
{
    let of_day = hour * 3600 + minute * 60 + second;
    assert(of_day / 3600 == hour);
    assert(of_day / 60 == hour * 60 + minute);
    assert(of_day / 60 % 60 == minute);
    assert(of_day % 60 == second);
    lemma_two_digits(m as nat);
    lemma_two_digits(d as nat);
    lemma_two_digits(hour as nat);
    lemma_two_digits(minute as nat);
    lemma_two_digits(second as nat);
}

} // verus!
