//! Dates in the Gregorian calendar, in UTC.
use vstd::prelude::*;

verus! {

/// A leap year has a 29th of February.
pub open spec fn is_leap(y: int) -> bool {
    y % 4 == 0 && (y % 100 != 0 || y % 400 == 0)
}

/// The leap years before a year, counted from some fixed year on.
pub open spec fn leaps_before(y: int) -> int {
    (y - 1) / 4 - (y - 1) / 100 + (y - 1) / 400
}

/// The days from the first of January 1970 to the first of January of a year.
pub open spec fn year_start(y: int) -> int {
    365 * (y - 1970) + leaps_before(y) - leaps_before(1970)
}

pub open spec fn year_length(y: int) -> int {
    if is_leap(y) {
        366
    } else {
        365
    }
}

/// The days of a month, from 1 for January to 12 for December.
pub open spec fn month_length(y: int, m: int) -> int {
    if m == 2 {
        if is_leap(y) {
            29
        } else {
            28
        }
    } else if m == 4 || m == 6 || m == 9 || m == 11 {
        30
    } else {
        31
    }
}

/// The days of a year before a month.
pub open spec fn month_start(y: int, m: int) -> int
    decreases m,
{
    if m <= 1 {
        0
    } else {
        month_start(y, m - 1) + month_length(y, m - 1)
    }
}

pub open spec fn is_date(y: int, m: int, d: int) -> bool {
    1 <= m <= 12 && 1 <= d <= month_length(y, m)
}

/// The days from the first of January 1970 to a date.
pub open spec fn day_number(y: int, m: int, d: int) -> int {
    year_start(y) + month_start(y, m) + d - 1
}

/// A date and a time of day.
pub type Civil = (i64, u32, u32, u32, u32, u32);

/// Is this the date and time the given number of seconds after the start of
/// 1970?
pub open spec fn is_civil(secs: int, c: Civil) -> bool {
    &&& is_date(c.0 as int, c.1 as int, c.2 as int)
    &&& c.3 < 24
    &&& c.4 < 60
    &&& c.5 < 60
    &&& secs == 86_400 * day_number(c.0 as int, c.1 as int, c.2 as int) + 3600 * c.3 + 60 * c.4
        + c.5
}

/// The date and time the given number of seconds after the start of 1970.
pub open spec fn civil_of(secs: int) -> Civil {
    choose|c: Civil| is_civil(secs, c)
}

// ---------------------------------------------------------------------------
// Laws
// ---------------------------------------------------------------------------

/// Each year starts where the one before it ends.
pub proof fn law_years_follow_each_other(y: int)
    ensures
        year_start(y + 1) == year_start(y) + year_length(y),
{
    assert(y / 4 == (y - 1) / 4 + if y % 4 == 0 {
        1int
    } else {
        0int
    });
    assert(y / 100 == (y - 1) / 100 + if y % 100 == 0 {
        1int
    } else {
        0int
    });
    assert(y / 400 == (y - 1) / 400 + if y % 400 == 0 {
        1int
    } else {
        0int
    });
}

/// The months of a year make up the year.
pub proof fn law_months_fill_the_year(y: int)
    ensures
        month_start(y, 13) == year_length(y),
{
    reveal_with_fuel(month_start, 13);
}

/// The calendar repeats itself every four hundred years.
pub proof fn law_calendar_repeats(y: int, k: int)
    ensures
        is_leap(y + 400 * k) == is_leap(y),
        year_start(y + 400 * k) == year_start(y) + 146_097 * k,
{
    lemma_shifted(y - 1, 4, 100 * k);
    lemma_shifted(y - 1, 100, 4 * k);
    lemma_shifted(y - 1, 400, k);
    lemma_shifted(y, 4, 100 * k);
    lemma_shifted(y, 100, 4 * k);
    lemma_shifted(y, 400, k);
}

proof fn lemma_shifted(x: int, d: int, m: int)
    requires
        d > 0,
    ensures
        (x + d * m) / d == x / d + m,
        (x + d * m) % d == x % d,
{
    vstd::arithmetic::div_mod::lemma_fundamental_div_mod(x, d);
    assert(d * (x / d) + d * m == (x / d + m) * d) by (nonlinear_arith);
    vstd::arithmetic::div_mod::lemma_fundamental_div_mod_converse(
        x + d * m,
        d,
        x / d + m,
        x % d,
    );
}

proof fn lemma_years_ascend(a: int, b: int)
    requires
        a <= b,
    ensures
        year_start(a) <= year_start(b),
        a < b ==> year_start(a + 1) <= year_start(b),
    decreases b - a,
{
    if a < b {
        lemma_years_ascend(a, b - 1);
        law_years_follow_each_other(b - 1);
        law_years_follow_each_other(a);
        if a + 1 < b {
            lemma_years_ascend(a + 1, b);
        }
    }
}

proof fn lemma_months_ascend(y: int, a: int, b: int)
    requires
        1 <= a <= b,
    ensures
        0 <= month_start(y, a) <= month_start(y, b),
        a < b ==> month_start(y, a) + month_length(y, a) <= month_start(y, b),
    decreases b,
{
    if a < b {
        lemma_months_ascend(y, a, b - 1);
    } else if a > 1 {
        lemma_months_ascend(y, 1, a - 1);
    }
}

proof fn lemma_date_in_year(y: int, m: int, d: int)
    requires
        is_date(y, m, d),
    ensures
        year_start(y) <= day_number(y, m, d) < year_start(y + 1),
{
    lemma_months_ascend(y, 1, m);
    lemma_months_ascend(y, m, 13);
    law_months_fill_the_year(y);
    law_years_follow_each_other(y);
}

/// No two dates have the same number.
pub proof fn law_dates_are_distinct(y: int, m: int, d: int, z: int, n: int, e: int)
    requires
        is_date(y, m, d),
        is_date(z, n, e),
        day_number(y, m, d) == day_number(z, n, e),
    ensures
        y == z && m == n && d == e,
{
    lemma_date_in_year(y, m, d);
    lemma_date_in_year(z, n, e);
    if y < z {
        lemma_years_ascend(y, z);
    }
    if z < y {
        lemma_years_ascend(z, y);
    }
    if m < n {
        lemma_months_ascend(y, m, n);
    }
    if n < m {
        lemma_months_ascend(y, n, m);
    }
}

/// No two dates and times are the same number of seconds after the start of
/// 1970.
pub proof fn law_times_are_distinct(secs: int, a: Civil, b: Civil)
    requires
        is_civil(secs, a),
        is_civil(secs, b),
    ensures
        a == b,
{
    let x = day_number(a.0 as int, a.1 as int, a.2 as int);
    let y = day_number(b.0 as int, b.1 as int, b.2 as int);
    assert(x == y);
    law_dates_are_distinct(
        a.0 as int,
        a.1 as int,
        a.2 as int,
        b.0 as int,
        b.1 as int,
        b.2 as int,
    );
}

// ---------------------------------------------------------------------------
// From a number of seconds
// ---------------------------------------------------------------------------

/// The quotient and the remainder of a division that rounds down.
fn divide_down(n: i64, by: i64) -> (r: (i64, i64))
    requires
        1 < by <= 1_000_000,
    ensures
        r.0 == n as int / by as int,
        r.1 == n as int % by as int,
        0 <= r.1 < by,
        n == r.0 * by + r.1,
{
    let q: i64 = if n >= 0 {
        n / by
    } else {
        -((-(n + 1)) / by) - 1
    };
    proof {
        let m = if n >= 0 {
            n as int
        } else {
            -(n + 1)
        };
        let p = m / (by as int);
        assert(0 <= p <= m && p * by <= m < p * by + by) by (nonlinear_arith)
            requires
                m >= 0,
                by > 1,
                p == m / (by as int),
        ;
        if n < 0 {
            assert(q == -p - 1);
            assert(q * by == -(p * by) - by) by (nonlinear_arith)
                requires
                    q == -p - 1,
            ;
        }
        assert(q * by <= n < q * by + by);
        vstd::arithmetic::div_mod::lemma_fundamental_div_mod_converse(
            n as int,
            by as int,
            q as int,
            n - q * by,
        );
    }
    let r: i64 = if n >= 0 {
        n % by
    } else {
        by - 1 - (-(n + 1)) % by
    };
    proof {
        let m = if n >= 0 {
            n as int
        } else {
            -(n + 1)
        };
        vstd::arithmetic::div_mod::lemma_fundamental_div_mod(m, by as int);
        assert(by * (m / (by as int)) == (m / (by as int)) * by) by (nonlinear_arith);
    }
    (q, r)
}

fn leap(y: i64) -> (r: bool)
    requires
        0 <= y,
    ensures
        r == is_leap(y as int),
{
    y % 4 == 0 && (y % 100 != 0 || y % 400 == 0)
}

fn days_of_month(leap_year: bool, m: u32) -> (r: i64)
    ensures
        forall|y: int| is_leap(y) == leap_year ==> r == #[trigger] month_length(y, m as int),
        28 <= r <= 31,
{
    if m == 2 {
        if leap_year {
            29
        } else {
            28
        }
    } else if m == 4 || m == 6 || m == 9 || m == 11 {
        30
    } else {
        31
    }
}

/// The date and time in UTC the given number of seconds after the start of
/// 1970.
pub fn civil_from_epoch(secs: i64) -> (r: Civil)
    ensures
        r == civil_of(secs as int),
        is_civil(secs as int, r),
{
    let (days, rem) = divide_down(secs, 86_400);
    let (era, doe) = divide_down(days, 146_097);
    // The year within the era, by the calendar of the years from 1970 on.
    let mut year: i64 = 1970;
    let mut rest: i64 = doe;
    proof {
        assert(year_start(1970) == 0);
        law_calendar_repeats(1970, 1);
    }
    let mut span: i64 = if leap(year) {
        366
    } else {
        365
    };
    while rest >= span
        invariant
            1970 <= year,
            rest >= 0,
            rest + year_start(year as int) == doe,
            doe < 146_097,
            year_start(2370) == 146_097,
            span == year_length(year as int),
        decreases rest,
    {
        proof {
            law_years_follow_each_other(year as int);
            if year >= 2370 {
                lemma_years_ascend(2370, year as int);
            }
        }
        rest -= span;
        year += 1;
        span = if leap(year) {
            366
        } else {
            365
        };
    }
    let leap_year = leap(year);
    let ghost in_year = rest;
    proof {
        if year >= 2370 {
            lemma_years_ascend(2370, year as int);
        }
        law_months_fill_the_year(year as int);
    }
    let mut month: u32 = 1;
    let mut length: i64 = days_of_month(leap_year, month);
    proof {
        assert(length == month_length(year as int, 1));
    }
    while rest >= length
        invariant
            1 <= month <= 12,
            rest >= 0,
            leap_year == is_leap(year as int),
            rest + month_start(year as int, month as int) == in_year,
            in_year < year_length(year as int),
            month_start(year as int, 13) == year_length(year as int),
            length == month_length(year as int, month as int),
        decreases rest,
    {
        rest -= length;
        month += 1;
        length = days_of_month(leap_year, month);
        proof {
            assert(length == month_length(year as int, month as int));
            assert(month_start(year as int, month as int) == month_start(
                year as int,
                month - 1,
            ) + month_length(year as int, month - 1));
        }
    }
    let hours = rem / 3600;
    let minutes = (rem % 3600) / 60;
    let seconds = rem % 60;
    let full = year + 400 * era;
    let r = (full, month, (rest + 1) as u32, hours as u32, minutes as u32, seconds as u32);
    proof {
        law_calendar_repeats(year as int, era as int);
        lemma_month_start_same(year as int, full as int, month as int);
        assert(day_number(full as int, month as int, rest + 1) == days);
        assert(rem == 3600 * hours + 60 * minutes + seconds);
        assert(is_civil(secs as int, r));
        law_times_are_distinct(secs as int, r, civil_of(secs as int));
    }
    r
}

/// A time that is not before 1970 lies in a year that is not.
pub proof fn lemma_year_after(secs: int, c: Civil)
    requires
        secs >= 0,
        is_civil(secs, c),
    ensures
        c.0 >= 1970,
{
    let y = c.0 as int;
    lemma_date_in_year(y, c.1 as int, c.2 as int);
    if y < 1970 {
        lemma_years_ascend(y, 1970);
        assert(year_start(1970) == 0);
    }
}

proof fn lemma_month_start_same(a: int, b: int, m: int)
    requires
        is_leap(a) == is_leap(b),
    ensures
        month_start(a, m) == month_start(b, m),
        month_length(a, m) == month_length(b, m),
    decreases m,
{
    if m > 1 {
        lemma_month_start_same(a, b, m - 1);
    }
}

} // verus!
