use simple_stock_tracker::args::Args;
use simple_stock_tracker::calendar::{
    add_days, add_months, add_weeks, add_years, resolve_window, start_date, Date,
};

fn date(year: i32, month: u8, day: u8) -> Date {
    Date { year, month, day }
}

#[test]
fn zero_offsets_resolve_to_the_reference_date() {
    let reference = date(2021, 6, 15);
    assert_eq!(start_date(reference, 0, 0, 0, 0), Some(reference));
    assert_eq!(add_days(reference, 0), Some(reference));
    assert_eq!(add_weeks(reference, 0), Some(reference));
    assert_eq!(add_months(reference, 0), Some(reference));
    assert_eq!(add_years(reference, 0), Some(reference));
}

#[test]
fn month_offset_crossing_a_year_boundary() {
    // January moved two months back lands in November of the prior year
    assert_eq!(add_months(date(2021, 1, 15), -2), Some(date(2020, 11, 15)));
    // December moved two months forward lands in February of the next year
    assert_eq!(add_months(date(2020, 12, 1), 2), Some(date(2021, 2, 1)));
}

#[test]
fn month_offset_clamps_to_the_last_valid_day() {
    // January 31 minus one month: December has 31 days, no clamp
    assert_eq!(add_months(date(2021, 1, 31), -1), Some(date(2020, 12, 31)));
    // March 31 minus one month: February 2020 is a leap February
    assert_eq!(add_months(date(2020, 3, 31), -1), Some(date(2020, 2, 29)));
    // March 31 minus one month in a common year
    assert_eq!(add_months(date(2021, 3, 31), -1), Some(date(2021, 2, 28)));
    // May 31 minus one month: April has 30 days
    assert_eq!(add_months(date(2021, 5, 31), -1), Some(date(2021, 4, 30)));
}

#[test]
fn year_offset_clamps_leap_day() {
    assert_eq!(add_years(date(2020, 2, 29), 1), Some(date(2021, 2, 28)));
    assert_eq!(add_years(date(2020, 2, 29), -4), Some(date(2016, 2, 29)));
    assert_eq!(add_years(date(2020, 7, 2), -10), Some(date(2010, 7, 2)));
}

#[test]
fn day_offsets_cross_month_and_year_boundaries() {
    assert_eq!(add_days(date(2021, 1, 1), -1), Some(date(2020, 12, 31)));
    assert_eq!(add_days(date(2021, 3, 1), -1), Some(date(2021, 2, 28)));
    assert_eq!(add_days(date(2020, 3, 1), -1), Some(date(2020, 2, 29)));
    assert_eq!(add_days(date(2020, 12, 31), 1), Some(date(2021, 1, 1)));
    assert_eq!(add_days(date(2020, 7, 2), -365), Some(date(2019, 7, 3)));
}

#[test]
fn week_offsets_are_seven_day_steps() {
    assert_eq!(add_weeks(date(2020, 7, 2), -2), add_days(date(2020, 7, 2), -14));
    assert_eq!(add_weeks(date(2020, 1, 1), -1), Some(date(2019, 12, 25)));
}

#[test]
fn offsets_compose_in_the_fixed_order() {
    // days first, then weeks, then months, then years
    let reference = date(2020, 7, 31);
    // one day back: July 30; one month back: June 30; one year back: June 30
    assert_eq!(start_date(reference, -1, 0, -1, -1), Some(date(2019, 6, 30)));
    // month first would have clamped differently: June 30 minus a day is June 29
    assert_eq!(start_date(reference, 0, 0, -1, 0), Some(date(2020, 6, 30)));
}

#[test]
fn offsets_that_leave_the_calendar_fail() {
    assert_eq!(add_years(date(2020, 7, 2), -3000), None);
    assert_eq!(add_years(date(2020, 7, 2), 8000), None);
    assert_eq!(add_months(date(2020, 7, 2), -30000), None);
    assert_eq!(add_days(date(0, 1, 1), -1), None);
    assert_eq!(add_days(date(9999, 12, 31), 1), None);
}

#[test]
fn positive_offsets_move_forward() {
    assert_eq!(start_date(date(2020, 7, 2), 1, 0, 0, 0), Some(date(2020, 7, 3)));
    assert_eq!(start_date(date(2020, 7, 2), 0, 0, 6, 0), Some(date(2021, 1, 2)));
}

#[test]
fn resolve_window_rejects_counts_beyond_the_calendar() {
    let today = date(2021, 3, 15);
    let symbols = vec!["MSFT".to_string()];
    let huge_days = Args {
        symbol: symbols.clone(),
        days_back: usize::MAX,
        weeks_back: 0,
        months_back: 0,
        years_back: 0,
    };
    assert_eq!(resolve_window(&huge_days, today), None);
    let huge_weeks = Args {
        symbol: symbols.clone(),
        days_back: 0,
        weeks_back: 1_000_000,
        months_back: 0,
        years_back: 0,
    };
    assert_eq!(resolve_window(&huge_weeks, today), None);
    let huge_months = Args {
        symbol: symbols.clone(),
        days_back: 0,
        weeks_back: 0,
        months_back: 1_000_000,
        years_back: 0,
    };
    assert_eq!(resolve_window(&huge_months, today), None);
}

#[test]
fn resolve_window_applies_look_back_counts() {
    let today = date(2021, 3, 15);
    let args = Args {
        symbol: vec!["MSFT".to_string()],
        days_back: 1,
        weeks_back: 1,
        months_back: 1,
        years_back: 1,
    };
    // one day: March 14; one week: March 7; one month: February 7; one year 2020
    assert_eq!(resolve_window(&args, today), Some(date(2020, 2, 7)));

    let no_offsets = Args {
        symbol: vec!["MSFT".to_string()],
        days_back: 0,
        weeks_back: 0,
        months_back: 0,
        years_back: 0,
    };
    assert_eq!(resolve_window(&no_offsets, today), Some(today));

    let too_far = Args {
        symbol: vec!["MSFT".to_string()],
        days_back: 0,
        weeks_back: 0,
        months_back: 0,
        years_back: 5000,
    };
    assert_eq!(resolve_window(&too_far, today), None);
}
