use chrono::{DateTime, Datelike, Timelike, Utc};
use simple_stock_tracker::calendar::Date;
use simple_stock_tracker::types::{Percentage, Price, StockData, Timestamp};

/// Cents of a floating dollar amount, rounded to the nearest cent.
fn cents_of(v: f32) -> i64 {
    (v as f64 * 100.0).round() as i64
}

/// The library timestamp of a chrono UTC instant.
fn ts_from_chrono(dt: &DateTime<Utc>) -> Timestamp {
    let date = Date { year: dt.year(), month: dt.month() as u8, day: dt.day() as u8 };
    Timestamp::new(date, dt.hour() as u8, dt.minute() as u8, dt.second() as u8).unwrap()
}

#[test]
fn creation() {
    let rfc3339 = "2020-07-02T19:30:00+00:00";
    if let Ok(datetime) = rfc3339.parse::<DateTime<Utc>>() {
        assert_eq!(
            StockData::new("MSFT".to_string(), ts_from_chrono(&datetime)).to_string(),
            format!("{},MSFT,-,-,-,-,-", rfc3339)
        );
    }
}

#[test]
fn floating_number() {
    let rfc3339 = "2020-07-02T19:30:00+00:00";

    if let Ok(datetime) = rfc3339.parse::<DateTime<Utc>>() {
        let data = StockData::new("MSFT".to_string(), ts_from_chrono(&datetime))
            .close(Price::from_cents(cents_of(44.2334_f32)))
            .change(Percentage::from_hundredths(cents_of(134.346_f32)));

        assert_eq!(
            data.to_string(),
            format!("{},MSFT,$44.23,134.35%,-,-,-", rfc3339)
        );
    }
}

#[test]
fn full_test() {
    let rfc3339 = "2020-07-02T19:30:00+00:00";

    if let Ok(datetime) = rfc3339.parse::<DateTime<Utc>>() {
        let data = StockData::new("MSFT".to_string(), ts_from_chrono(&datetime))
            .close(Price::from_cents(cents_of(44.2334_f32)))
            .change(Percentage::from_hundredths(cents_of(134.346_f32)))
            .min(Price::from_cents(cents_of(22.22_f32)))
            .max(Price::from_cents(cents_of(88.88_f32)))
            .sma_30(Price::from_cents(cents_of(55.555_f32)));

        assert_eq!(
            data.to_string(),
            format!("{},MSFT,$44.23,134.35%,$22.22,$88.88,$55.56", rfc3339)
        );
    }
}

#[test]
fn timestamp_from_epoch_matches_chrono() {
    let rfc3339 = "2020-07-02T19:30:00+00:00";
    let datetime = rfc3339.parse::<DateTime<Utc>>().unwrap();
    let ts = Timestamp::from_epoch(datetime.timestamp()).unwrap();
    assert_eq!(ts, ts_from_chrono(&datetime));
    assert_eq!(ts.to_string(), rfc3339);
}

#[test]
fn timestamp_from_epoch_before_1970_matches_chrono() {
    let rfc3339 = "1962-01-02T14:15:16+00:00";
    let datetime = rfc3339.parse::<DateTime<Utc>>().unwrap();
    assert!(datetime.timestamp() < 0);
    let ts = Timestamp::from_epoch(datetime.timestamp()).unwrap();
    assert_eq!(ts, ts_from_chrono(&datetime));
    assert_eq!(ts.to_string(), rfc3339);
    // one day before the epoch, at midnight
    assert_eq!(
        Timestamp::from_epoch(-86400).unwrap().to_string(),
        "1969-12-31T00:00:00+00:00"
    );
}

#[test]
fn price_rendering_rounds_nothing() {
    assert_eq!(Price::from_cents(0).to_string(), "$0.00");
    assert_eq!(Price::from_cents(5).to_string(), "$0.05");
    assert_eq!(Price::from_cents(-507).to_string(), "$-5.07");
    assert_eq!(Price::from_cents(123456).to_string(), "$1234.56");
}

#[test]
fn percentage_rendering() {
    assert_eq!(Percentage::from_hundredths(5000).to_string(), "50.00%");
    assert_eq!(Percentage::from_hundredths(-25).to_string(), "-0.25%");
    assert_eq!(Percentage::from_hundredths(13435).to_string(), "134.35%");
}

#[test]
fn format_renders_placeholder_for_absent_values() {
    assert_eq!(simple_stock_tracker::types::format::<Price>(None), "-");
    assert_eq!(
        simple_stock_tracker::types::format(Some(Price::from_cents(4423))),
        "$44.23"
    );
    assert_eq!(
        simple_stock_tracker::types::format(Some(Percentage::from_hundredths(-100))),
        "-1.00%"
    );
}

#[test]
fn header_names_every_column() {
    assert_eq!(
        simple_stock_tracker::types::header_row(),
        "period start,symbol,price,change %,min,max,30d avg"
    );
}

#[test]
fn close_value_reports_an_absent_close() {
    let ts = Timestamp::new(Date { year: 2020, month: 7, day: 2 }, 0, 0, 0).unwrap();
    let data = StockData::new("MSFT".to_string(), ts);
    // an unset close is unavailable, never a fabricated zero price
    assert_eq!(data.close_value(), None);
    let with_close = data.close(Price::from_cents(999));
    assert_eq!(with_close.close_value(), Some(Price::from_cents(999)));
}
