//! Calendar dates and signed offset arithmetic for the report window.
//!
//! A `Date` is a plain civil date in the proleptic Gregorian calendar,
//! restricted to the years 0 through 9999. Offsets in days, weeks, months
//! and years are applied with explicit rollover and clamping rules; an
//! offset that would leave the supported year range is reported as a
//! failure rather than wrapped or clamped.

use vstd::prelude::*;

verus! {

/// First year of the supported calendar range.
pub const MIN_YEAR: i32 = 0;

/// Last year of the supported calendar range.
pub const MAX_YEAR: i32 = 9999;

/// A civil date: year, month (1-12) and day of month (1-based).
#[derive(Clone, Copy, Debug, PartialEq, Eq, Structural)]
pub struct Date {
    pub year: i32,
    pub month: u8,
    pub day: u8,
}

/// The mathematical model of a civil date, with unbounded fields.
pub ghost struct DateV {
    pub year: int,
    pub month: int,
    pub day: int,
}

impl View for Date {
    type V = DateV;

    open spec fn view(&self) -> DateV {
        DateV { year: self.year as int, month: self.month as int, day: self.day as int }
    }
}

/// Whether `y` is a leap year in the Gregorian calendar.
pub open spec fn spec_is_leap_year(y: int) -> bool {
    (y % 4 == 0 && y % 100 != 0) || y % 400 == 0
}

/// Number of days of month `m` of year `y`.
pub open spec fn spec_days_in_month(y: int, m: int) -> int {
    if m == 2 {
        if spec_is_leap_year(y) {
            29
        } else {
            28
        }
    } else if m == 4 || m == 6 || m == 9 || m == 11 {
        30
    } else {
        31
    }
}

/// Number of days of year `y`.
pub open spec fn spec_year_len(y: int) -> int {
    if spec_is_leap_year(y) {
        366
    } else {
        365
    }
}

/// A structurally well-formed date: month and day are in range for the
/// year, with the year itself unconstrained. Single-day steps preserve
/// this shape even when a walk leaves the supported year range.
pub open spec fn proper(d: DateV) -> bool {
    1 <= d.month <= 12 && 1 <= d.day <= spec_days_in_month(d.year, d.month)
}

/// A valid date of the library: well-formed and inside the supported years.
pub open spec fn date_valid(d: DateV) -> bool {
    proper(d) && MIN_YEAR <= d.year <= MAX_YEAR
}

/// The day after `d`, with month and year rollover.
pub open spec fn next_date(d: DateV) -> DateV {
    if d.day < spec_days_in_month(d.year, d.month) {
        DateV { year: d.year, month: d.month, day: d.day + 1 }
    } else if d.month < 12 {
        DateV { year: d.year, month: d.month + 1, day: 1 }
    } else {
        DateV { year: d.year + 1, month: 1, day: 1 }
    }
}

/// The day before `d`, with month and year rollover.
pub open spec fn prev_date(d: DateV) -> DateV {
    if d.day > 1 {
        DateV { year: d.year, month: d.month, day: d.day - 1 }
    } else if d.month > 1 {
        DateV { year: d.year, month: d.month - 1, day: spec_days_in_month(d.year, d.month - 1) }
    } else {
        DateV { year: d.year - 1, month: 12, day: 31 }
    }
}

/// The date `n` single-day steps away from `d` (backward when `n < 0`).
pub open spec fn date_plus_days(d: DateV, n: int) -> DateV
    decreases
            if n >= 0 {
                n
            } else {
                -n
            },
{
    if n == 0 {
        d
    } else if n > 0 {
        date_plus_days(next_date(d), n - 1)
    } else {
        date_plus_days(prev_date(d), n + 1)
    }
}

/// Days of year `y` that lie before month `m` (for `m` in 1..=13).
pub open spec fn days_before_month(y: int, m: int) -> int
    decreases m,
{
    if m <= 1 {
        0
    } else {
        days_before_month(y, m - 1) + spec_days_in_month(y, m - 1)
    }
}

/// One-based ordinal of `d` within its year.
pub open spec fn day_of_year(d: DateV) -> int {
    days_before_month(d.year, d.month) + d.day
}

/// Days that lie between January 1 of year 0 and January 1 of year `y`
/// (negative for years before year 0).
pub open spec fn days_before_year(y: int) -> int
    decreases
            if y >= 0 {
                y
            } else {
                -y
            },
{
    if y == 0 {
        0
    } else if y > 0 {
        days_before_year(y - 1) + spec_year_len(y - 1)
    } else {
        days_before_year(y + 1) - spec_year_len(y)
    }
}

/// One-based rank of `d` in the enumeration of all civil dates from
/// January 1 of year 0 onward.
pub open spec fn date_idx(d: DateV) -> int {
    days_before_year(d.year) + day_of_year(d)
}

proof fn lemma_year_split(y: int)
    ensures
        days_before_month(y, 13) == spec_year_len(y),
{
    assert(days_before_month(y, 1) == 0);
    assert(days_before_month(y, 2) == days_before_month(y, 1) + spec_days_in_month(y, 1));
    assert(days_before_month(y, 3) == days_before_month(y, 2) + spec_days_in_month(y, 2));
    assert(days_before_month(y, 4) == days_before_month(y, 3) + spec_days_in_month(y, 3));
    assert(days_before_month(y, 5) == days_before_month(y, 4) + spec_days_in_month(y, 4));
    assert(days_before_month(y, 6) == days_before_month(y, 5) + spec_days_in_month(y, 5));
    assert(days_before_month(y, 7) == days_before_month(y, 6) + spec_days_in_month(y, 6));
    assert(days_before_month(y, 8) == days_before_month(y, 7) + spec_days_in_month(y, 7));
    assert(days_before_month(y, 9) == days_before_month(y, 8) + spec_days_in_month(y, 8));
    assert(days_before_month(y, 10) == days_before_month(y, 9) + spec_days_in_month(y, 9));
    assert(days_before_month(y, 11) == days_before_month(y, 10) + spec_days_in_month(y, 10));
    assert(days_before_month(y, 12) == days_before_month(y, 11) + spec_days_in_month(y, 11));
    assert(days_before_month(y, 13) == days_before_month(y, 12) + spec_days_in_month(y, 12));
}

proof fn lemma_dby_next(y: int)
    ensures
        days_before_year(y + 1) == days_before_year(y) + spec_year_len(y),
{
}

proof fn lemma_dbm_nonneg(y: int, m: int)
    requires
        m >= 1,
    ensures
        days_before_month(y, m) >= 0,
    decreases m,
{
    if m > 1 {
        lemma_dbm_nonneg(y, m - 1);
    }
}

proof fn lemma_dbm_le_year(y: int, m: int)
    requires
        1 <= m <= 13,
    ensures
        days_before_month(y, m) <= days_before_month(y, 13),
    decreases 13 - m,
{
    if m < 13 {
        assert(days_before_month(y, m + 1) == days_before_month(y, m) + spec_days_in_month(y, m));
        lemma_dbm_le_year(y, m + 1);
    }
}

/// The one-based ordinal of a well-formed date within its year lies
/// between 1 and the length of that year.
proof fn lemma_doy_bounds(d: DateV)
    requires
        proper(d),
    ensures
        1 <= day_of_year(d) <= spec_year_len(d.year),
{
    lemma_dbm_nonneg(d.year, d.month);
    assert(days_before_month(d.year, d.month + 1) == days_before_month(d.year, d.month)
        + spec_days_in_month(d.year, d.month));
    lemma_dbm_le_year(d.year, d.month + 1);
    lemma_year_split(d.year);
}

/// Stepping one day forward advances the day rank by exactly one.
proof fn lemma_idx_next(d: DateV)
    requires
        proper(d),
    ensures
        proper(next_date(d)),
        date_idx(next_date(d)) == date_idx(d) + 1,
{
    if d.day < spec_days_in_month(d.year, d.month) {
    } else if d.month < 12 {
        assert(days_before_month(d.year, d.month + 1) == days_before_month(d.year, d.month)
            + spec_days_in_month(d.year, d.month));
    } else {
        assert(days_before_month(d.year, 13) == days_before_month(d.year, 12)
            + spec_days_in_month(d.year, 12));
        lemma_year_split(d.year);
        lemma_dby_next(d.year);
        assert(days_before_month(d.year + 1, 1) == 0);
    }
}

/// Stepping one day backward lowers the day rank by exactly one.
proof fn lemma_idx_prev(d: DateV)
    requires
        proper(d),
    ensures
        proper(prev_date(d)),
        date_idx(prev_date(d)) == date_idx(d) - 1,
{
    if d.day > 1 {
    } else if d.month > 1 {
        assert(days_before_month(d.year, d.month) == days_before_month(d.year, d.month - 1)
            + spec_days_in_month(d.year, d.month - 1));
    } else {
        assert(days_before_month(d.year - 1, 13) == days_before_month(d.year - 1, 12)
            + spec_days_in_month(d.year - 1, 12));
        lemma_year_split(d.year - 1);
        lemma_dby_next(d.year - 1);
        assert(days_before_month(d.year, 1) == 0);
    }
}

/// A day walk of any length keeps a date well formed and shifts its day
/// rank by exactly the walk's length.
proof fn lemma_plus_proper_idx(d: DateV, n: int)
    requires
        proper(d),
    ensures
        proper(date_plus_days(d, n)),
        date_idx(date_plus_days(d, n)) == date_idx(d) + n,
    decreases
            if n >= 0 {
                n
            } else {
                -n
            },
{
    if n > 0 {
        lemma_idx_next(d);
        lemma_plus_proper_idx(next_date(d), n - 1);
    } else if n < 0 {
        lemma_idx_prev(d);
        lemma_plus_proper_idx(prev_date(d), n + 1);
    }
}

/// Day walks whose lengths have the same sign compose by addition.
proof fn lemma_plus_additive(d: DateV, a: int, b: int)
    requires
        (a >= 0 && b >= 0) || (a <= 0 && b <= 0),
    ensures
        date_plus_days(d, a + b) == date_plus_days(date_plus_days(d, a), b),
    decreases
            if a >= 0 {
                a
            } else {
                -a
            },
{
    if a > 0 {
        lemma_plus_additive(next_date(d), a - 1, b);
    } else if a < 0 {
        lemma_plus_additive(prev_date(d), a + 1, b);
    }
}

proof fn lemma_dby_mono(a: int, b: int)
    requires
        a <= b,
    ensures
        days_before_year(a) <= days_before_year(b),
    decreases b - a,
{
    if a < b {
        lemma_dby_mono(a, b - 1);
        lemma_dby_next(b - 1);
    }
}

proof fn lemma_dby_upper(y: int)
    requires
        y >= 0,
    ensures
        365 * y <= days_before_year(y) <= 366 * y,
    decreases y,
{
    if y > 0 {
        lemma_dby_upper(y - 1);
        lemma_dby_next(y - 1);
    }
}

/// A well-formed date is inside the supported years exactly when its day
/// rank lies between 1 and the rank budget of the whole range.
proof fn lemma_valid_iff_idx(d: DateV)
    requires
        proper(d),
    ensures
        date_valid(d) <==> 1 <= date_idx(d) <= days_before_year(10000),
{
    lemma_doy_bounds(d);
    if MIN_YEAR <= d.year <= MAX_YEAR {
        lemma_dby_upper(d.year);
        lemma_dby_next(d.year);
        lemma_dby_mono(d.year + 1, 10000);
    } else if d.year < MIN_YEAR {
        lemma_dby_next(d.year);
        lemma_dby_mono(d.year + 1, 0);
        lemma_dby_mono(0, 10000);
        lemma_dby_upper(10000);
    } else {
        lemma_dby_mono(10000, d.year);
        lemma_dbm_nonneg(d.year, d.month);
    }
}

/// Whether `y` is a leap year.
pub fn is_leap_year(y: i32) -> (r: bool)
    requires
        y >= 0,
    ensures
        r == spec_is_leap_year(y as int),
{
    (y % 4 == 0 && y % 100 != 0) || y % 400 == 0
}

/// Number of days of month `m` of year `y`.
pub fn days_in_month(y: i32, m: u8) -> (r: u8)
    requires
        y >= 0,
    ensures
        r as int == spec_days_in_month(y as int, m as int),
{
    if m == 2 {
        if is_leap_year(y) {
            29
        } else {
            28
        }
    } else if m == 4 || m == 6 || m == 9 || m == 11 {
        30
    } else {
        31
    }
}

/// The day after `d`.
pub fn next_date_ex(d: Date) -> (r: Date)
    requires
        date_valid(d@),
    ensures
        r@ == next_date(d@),
        proper(r@),
        MIN_YEAR <= r.year <= MAX_YEAR + 1,
{
    proof {
        lemma_idx_next(d@);
    }
    if d.day < days_in_month(d.year, d.month) {
        Date { year: d.year, month: d.month, day: d.day + 1 }
    } else if d.month < 12 {
        Date { year: d.year, month: d.month + 1, day: 1 }
    } else {
        Date { year: d.year + 1, month: 1, day: 1 }
    }
}

/// The day before `d`.
pub fn prev_date_ex(d: Date) -> (r: Date)
    requires
        date_valid(d@),
    ensures
        r@ == prev_date(d@),
        proper(r@),
        MIN_YEAR - 1 <= r.year <= MAX_YEAR,
{
    proof {
        lemma_idx_prev(d@);
    }
    if d.day > 1 {
        Date { year: d.year, month: d.month, day: d.day - 1 }
    } else if d.month > 1 {
        Date { year: d.year, month: d.month - 1, day: days_in_month(d.year, d.month - 1) }
    } else {
        Date { year: d.year - 1, month: 12, day: 31 }
    }
}

/// Shows that once a day walk has left the supported range, finishing the
/// rest of the walk in the same direction cannot bring it back.
proof fn lemma_out_stays_out(d: DateV, step: int, total: int)
    requires
        date_valid(d),
        (0 <= step <= total) || (total <= step <= 0),
        !date_valid(date_plus_days(d, step)),
    ensures
        !date_valid(date_plus_days(d, total)),
{
    let mid = date_plus_days(d, step);
    let rest = total - step;
    lemma_valid_iff_idx(d);
    lemma_plus_proper_idx(d, step);
    lemma_plus_additive(d, step, rest);
    lemma_plus_proper_idx(mid, rest);
    lemma_valid_iff_idx(mid);
    lemma_valid_iff_idx(date_plus_days(mid, rest));
}

/// The date `delta` days away from `d`, or `None` when that date lies
/// outside the supported years.
pub fn add_days(d: Date, delta: i64) -> (r: Option<Date>)
    requires
        date_valid(d@),
    ensures
        ({
            let target = date_plus_days(d@, delta as int);
            match r {
                Some(x) => x@ == target && date_valid(target),
                None => !date_valid(target),
            }
        }),
{
    let n: u64 = if delta >= 0 {
        delta as u64
    } else {
        (-(delta as i128)) as u64
    };
    let mut cur = d;
    let mut i: u64 = 0;
    proof {
        lemma_plus_proper_idx(d@, delta as int);
    }
    while i < n
        invariant
            date_valid(d@),
            i <= n,
            delta >= 0 ==> n == delta as int && cur@ == date_plus_days(d@, i as int),
            delta < 0 ==> n == -(delta as int) && cur@ == date_plus_days(d@, -(i as int)),
            date_valid(cur@),
        decreases n - i,
    {
        let stepped = if delta >= 0 {
            next_date_ex(cur)
        } else {
            prev_date_ex(cur)
        };
        proof {
            let s: int = if delta >= 0 {
                i + 1
            } else {
                -(i as int) - 1
            };
            let prefix: int = if delta >= 0 {
                i as int
            } else {
                -(i as int)
            };
            lemma_plus_additive(d@, prefix, s - prefix);
            if delta >= 0 {
                lemma_idx_next(cur@);
                assert(date_plus_days(next_date(cur@), 0) == next_date(cur@));
                assert(date_plus_days(cur@, 1) == date_plus_days(next_date(cur@), 0));
            } else {
                lemma_idx_prev(cur@);
                assert(date_plus_days(prev_date(cur@), 0) == prev_date(cur@));
                assert(date_plus_days(cur@, -1) == date_plus_days(prev_date(cur@), 0));
            }
            assert(stepped@ == date_plus_days(d@, s));
        }
        if stepped.year < MIN_YEAR || stepped.year > MAX_YEAR {
            proof {
                let s: int = if delta >= 0 {
                    i + 1
                } else {
                    -(i as int) - 1
                };
                lemma_plus_proper_idx(d@, s);
                lemma_out_stays_out(d@, s, delta as int);
            }
            return None;
        }
        cur = stepped;
        i = i + 1;
    }
    proof {
        lemma_plus_proper_idx(d@, delta as int);
        lemma_valid_iff_idx(date_plus_days(d@, delta as int));
    }
    Some(cur)
}

/// The date `delta` whole weeks away from `d`, or `None` when that date
/// lies outside the supported years.
pub fn add_weeks(d: Date, delta: i64) -> (r: Option<Date>)
    requires
        date_valid(d@),
    ensures
        ({
            let target = date_plus_days(d@, 7 * (delta as int));
            match r {
                Some(x) => x@ == target && date_valid(target),
                None => !date_valid(target),
            }
        }),
{
    let n: u64 = if delta >= 0 {
        delta as u64
    } else {
        (-(delta as i128)) as u64
    };
    let mut cur = d;
    let mut i: u64 = 0;
    while i < n
        invariant
            date_valid(d@),
            i <= n,
            delta >= 0 ==> n == delta as int && cur@ == date_plus_days(d@, 7 * (i as int)),
            delta < 0 ==> n == -(delta as int) && cur@ == date_plus_days(d@, -7 * (i as int)),
            date_valid(cur@),
        decreases n - i,
    {
        let step: i64 = if delta >= 0 {
            7
        } else {
            -7
        };
        let ghost prefix: int = if delta >= 0 {
            7 * (i as int)
        } else {
            -7 * (i as int)
        };
        let ghost s: int = prefix + step as int;
        proof {
            lemma_plus_additive(d@, prefix, step as int);
        }
        match add_days(cur, step) {
            Some(x) => {
                cur = x;
                i = i + 1;
            },
            None => {
                proof {
                    let total: int = 7 * (delta as int);
                    lemma_out_stays_out(d@, s, total);
                }
                return None;
            },
        }
    }
    Some(cur)
}

/// The result of a month offset: the month is moved by `delta` with year
/// rollover, and the day is clamped to the last day of the target month
/// when it would not exist there.
pub open spec fn add_months_v(d: DateV, delta: int) -> DateV {
    let m0 = d.month - 1 + delta;
    let ty = d.year + m0 / 12;
    let tm = m0 % 12 + 1;
    let td = if d.day <= spec_days_in_month(ty, tm) {
        d.day
    } else {
        spec_days_in_month(ty, tm)
    };
    DateV { year: ty, month: tm, day: td }
}

/// The result of a year offset: the year is moved by `delta`, and the day
/// is clamped to the last day of the target month when it would not exist
/// there (February 29 of a leap year moved to a common year).
pub open spec fn add_years_v(d: DateV, delta: int) -> DateV {
    let ty = d.year + delta;
    let td = if d.day <= spec_days_in_month(ty, d.month) {
        d.day
    } else {
        spec_days_in_month(ty, d.month)
    };
    DateV { year: ty, month: d.month, day: td }
}

/// The date `delta` months away from `d` under the clamping rule, or
/// `None` when its year falls outside the supported range.
pub fn add_months(d: Date, delta: i64) -> (r: Option<Date>)
    requires
        date_valid(d@),
    ensures
        ({
            let target = add_months_v(d@, delta as int);
            match r {
                Some(x) => x@ == target && date_valid(target),
                None => !date_valid(target),
            }
        }),
{
    let m0: i128 = d.month as i128 - 1 + delta as i128;
    let sh: i128 = m0 + 9_600_000_000_000_000_000;
    let q: i128 = sh / 12;
    let rm: i128 = sh % 12;
    let ty_i: i128 = d.year as i128 + q - 800_000_000_000_000_000;
    proof {
        let m0i: int = d@.month - 1 + delta as int;
        vstd::arithmetic::div_mod::lemma_fundamental_div_mod(m0i, 12);
        vstd::arithmetic::div_mod::lemma_mod_division_less_than_divisor(m0i, 12);
        assert(sh as int == 12 * (m0i / 12 + 800_000_000_000_000_000) + m0i % 12);
        vstd::arithmetic::div_mod::lemma_div_multiples_vanish_fancy(
            m0i / 12 + 800_000_000_000_000_000,
            m0i % 12,
            12,
        );
        vstd::arithmetic::div_mod::lemma_fundamental_div_mod(sh as int, 12);
        assert(q as int == m0i / 12 + 800_000_000_000_000_000);
        assert(rm as int == m0i % 12);
    }
    if ty_i < MIN_YEAR as i128 || ty_i > MAX_YEAR as i128 {
        return None;
    }
    let ty: i32 = ty_i as i32;
    let tm: u8 = rm as u8 + 1;
    let dim = days_in_month(ty, tm);
    let td: u8 = if d.day <= dim {
        d.day
    } else {
        dim
    };
    Some(Date { year: ty, month: tm, day: td })
}

/// The date `delta` years away from `d` under the clamping rule, or
/// `None` when its year falls outside the supported range.
pub fn add_years(d: Date, delta: i64) -> (r: Option<Date>)
    requires
        date_valid(d@),
    ensures
        ({
            let target = add_years_v(d@, delta as int);
            match r {
                Some(x) => x@ == target && date_valid(target),
                None => !date_valid(target),
            }
        }),
{
    let ty_i: i128 = d.year as i128 + delta as i128;
    if ty_i < MIN_YEAR as i128 || ty_i > MAX_YEAR as i128 {
        return None;
    }
    let ty: i32 = ty_i as i32;
    let dim = days_in_month(ty, d.month);
    let td: u8 = if d.day <= dim {
        d.day
    } else {
        dim
    };
    Some(Date { year: ty, month: d.month, day: td })
}

/// The start date reached from `reference` by applying the four offsets
/// in their fixed order: days, then weeks, then months, then years.
pub open spec fn window_start_v(
    reference: DateV,
    days: int,
    weeks: int,
    months: int,
    years: int,
) -> DateV {
    add_years_v(
        add_months_v(date_plus_days(date_plus_days(reference, days), 7 * weeks), months),
        years,
    )
}

/// Whether every stage of the offset composition stays inside the
/// supported years.
pub open spec fn window_ok(
    reference: DateV,
    days: int,
    weeks: int,
    months: int,
    years: int,
) -> bool {
    let s1 = date_plus_days(reference, days);
    let s2 = date_plus_days(s1, 7 * weeks);
    let s3 = add_months_v(s2, months);
    let s4 = add_years_v(s3, years);
    date_valid(s1) && date_valid(s2) && date_valid(s3) && date_valid(s4)
}

/// Resolves the window start from a reference date and signed offsets in
/// days, weeks, months and years, applied in that order, each to the
/// result of the previous step. Zero offsets leave the date unchanged.
pub fn start_date(reference: Date, days: i64, weeks: i64, months: i64, years: i64) -> (r: Option<
    Date,
>)
    requires
        date_valid(reference@),
    ensures
        ({
            let target = window_start_v(
                reference@,
                days as int,
                weeks as int,
                months as int,
                years as int,
            );
            match r {
                Some(x) => x@ == target && window_ok(
                    reference@,
                    days as int,
                    weeks as int,
                    months as int,
                    years as int,
                ),
                None => !window_ok(
                    reference@,
                    days as int,
                    weeks as int,
                    months as int,
                    years as int,
                ),
            }
        }),
{
    let s1 = match add_days(reference, days) {
        Some(x) => x,
        None => {
            return None;
        },
    };
    let s2 = match add_weeks(s1, weeks) {
        Some(x) => x,
        None => {
            return None;
        },
    };
    let s3 = match add_months(s2, months) {
        Some(x) => x,
        None => {
            return None;
        },
    };
    match add_years(s3, years) {
        Some(x) => Some(x),
        None => None,
    }
}

/// The civil date of the instant zero seconds into the Unix epoch.
pub open spec fn epoch_date() -> DateV {
    DateV { year: 1970, month: 1, day: 1 }
}

/// A day walk from the Unix epoch of more than 4,000,000 days in either
/// direction leaves the supported years.
pub proof fn lemma_epoch_far_out(days: int)
    requires
        days > 4_000_000 || days < -4_000_000,
    ensures
        !date_valid(date_plus_days(epoch_date(), days)),
{
    let e = epoch_date();
    assert(date_valid(e));
    lemma_valid_iff_idx(e);
    lemma_plus_proper_idx(e, days);
    lemma_dby_upper(10000);
    lemma_valid_iff_idx(date_plus_days(e, days));
}

/// Resolves the start of the quote window from today's date and the
/// look-back counts of a request: the counts are applied as negative
/// offsets, in the fixed order days, weeks, months, years.
pub fn resolve_window(args: &crate::args::Args, today: Date) -> (r: Option<Date>)
    requires
        date_valid(today@),
    ensures
        ({
            let target = window_start_v(
                today@,
                -(args.days_back as int),
                -(args.weeks_back as int),
                -(args.months_back as int),
                -(args.years_back as int),
            );
            match r {
                Some(x) => x@ == target && window_ok(
                    today@,
                    -(args.days_back as int),
                    -(args.weeks_back as int),
                    -(args.months_back as int),
                    -(args.years_back as int),
                ),
                None => !window_ok(
                    today@,
                    -(args.days_back as int),
                    -(args.weeks_back as int),
                    -(args.months_back as int),
                    -(args.years_back as int),
                ),
            }
        }),
{
    let ghost days: int = -(args.days_back as int);
    let ghost weeks: int = -(args.weeks_back as int);
    let ghost months: int = -(args.months_back as int);
    let ghost years: int = -(args.years_back as int);
    let ghost s1 = date_plus_days(today@, days);
    let ghost s2 = date_plus_days(s1, 7 * weeks);
    let ghost s3 = add_months_v(s2, months);
    if args.days_back > 3_700_000 {
        proof {
            lemma_valid_iff_idx(today@);
            lemma_dby_upper(10000);
            lemma_plus_proper_idx(today@, days);
            lemma_valid_iff_idx(s1);
        }
        return None;
    }
    if args.weeks_back > 600_000 {
        proof {
            lemma_valid_iff_idx(today@);
            lemma_dby_upper(10000);
            lemma_plus_proper_idx(today@, days);
            lemma_plus_proper_idx(s1, 7 * weeks);
            lemma_valid_iff_idx(s2);
        }
        return None;
    }
    if args.months_back > 130_000 {
        proof {
            if date_valid(s2) {
                let m0 = s2.month - 1 + months;
                vstd::arithmetic::div_mod::lemma_div_is_ordered(m0, -120000, 12);
                assert((-120000int) / 12 == -10000);
            }
        }
        return None;
    }
    if args.years_back > 10_000 {
        return None;
    }
    start_date(
        today,
        -(args.days_back as i64),
        -(args.weeks_back as i64),
        -(args.months_back as i64),
        -(args.years_back as i64),
    )
}

/// Offsets of zero in every unit are a no-op: the resolved start date is
/// the reference date itself.
pub proof fn lemma_zero_offsets(d: DateV)
    requires
        date_valid(d),
    ensures
        window_start_v(d, 0, 0, 0, 0) == d,
        window_ok(d, 0, 0, 0, 0),
{
    assert(date_plus_days(d, 0) == d);
    let m0 = d.month - 1;
    vstd::arithmetic::div_mod::lemma_basic_div(m0, 12);
    vstd::arithmetic::div_mod::lemma_small_mod(m0 as nat, 12);
    assert(add_months_v(d, 0) == d);
    assert(add_years_v(d, 0) == d);
}

/// A month offset moves the combined year-month index by exactly the
/// offset, so an offset that crosses a year boundary lands in the right
/// month of the right adjacent year.
pub proof fn lemma_month_offset_linear(d: DateV, delta: int)
    ensures
        ({
            let r = add_months_v(d, delta);
            r.year * 12 + (r.month - 1) == d.year * 12 + (d.month - 1) + delta
        }),
        1 <= add_months_v(d, delta).month <= 12,
{
    let m0 = d.month - 1 + delta;
    vstd::arithmetic::div_mod::lemma_fundamental_div_mod(m0, 12);
    vstd::arithmetic::div_mod::lemma_mod_division_less_than_divisor(m0, 12);
    let q = m0 / 12;
    let r = add_months_v(d, delta);
    assert(r.year == d.year + q && r.month - 1 == m0 % 12);
    assert((d.year + q) * 12 == d.year * 12 + q * 12) by (nonlinear_arith);
}

/// A month offset always lands on a well-formed date: when the source day
/// does not exist in the target month it is clamped to that month's last
/// day, and otherwise it is kept.
pub proof fn lemma_month_offset_well_formed(d: DateV, delta: int)
    requires
        proper(d),
    ensures
        proper(add_months_v(d, delta)),
        add_months_v(d, delta).day == if d.day <= spec_days_in_month(
            add_months_v(d, delta).year,
            add_months_v(d, delta).month,
        ) {
            d.day
        } else {
            spec_days_in_month(add_months_v(d, delta).year, add_months_v(d, delta).month)
        },
{
    let m0 = d.month - 1 + delta;
    vstd::arithmetic::div_mod::lemma_mod_division_less_than_divisor(m0, 12);
}

/// A year offset always lands on a well-formed date, under the same
/// day-clamping rule (February 29 moved to a common year becomes
/// February 28).
pub proof fn lemma_year_offset_well_formed(d: DateV, delta: int)
    requires
        proper(d),
    ensures
        proper(add_years_v(d, delta)),
        add_years_v(d, delta).month == d.month,
        add_years_v(d, delta).year == d.year + delta,
        add_years_v(d, delta).day == if d.day <= spec_days_in_month(d.year + delta, d.month) {
            d.day
        } else {
            spec_days_in_month(d.year + delta, d.month)
        },
{
}

} // verus!
