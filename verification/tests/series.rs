use simple_stock_tracker::calendar::Date;
use simple_stock_tracker::normalize::{normalize, RawQuote};
use simple_stock_tracker::stats::{
    build_report_row, latest_close, max_close, min_close, percentage_change, sma_30,
};
use simple_stock_tracker::types::{Price, StockData, Timestamp};

fn noon(day: u8) -> Timestamp {
    Timestamp::new(Date { year: 2021, month: 3, day }, 12, 0, 0).unwrap()
}

fn series_of(cents: &[i64]) -> Vec<StockData> {
    cents
        .iter()
        .enumerate()
        .map(|(i, &c)| {
            StockData::new("MSFT".to_string(), noon((i % 28) as u8 + 1))
                .close(Price::from_cents(c))
        })
        .collect()
}

#[test]
fn percentage_change_of_a_two_element_series() {
    // closes 100 and 150: the ratio 1.5 maps to (1.5 - 1) * 100 = 50.00%
    let series = series_of(&[10000, 15000]);
    let change = percentage_change(&series).unwrap();
    assert_eq!(change.to_string(), "50.00%");
}

#[test]
fn percentage_change_needs_two_closes_and_a_nonzero_first() {
    assert_eq!(percentage_change(&series_of(&[10000])), None);
    assert_eq!(percentage_change(&series_of(&[])), None);
    assert_eq!(percentage_change(&series_of(&[0, 15000])), None);
    let down = percentage_change(&series_of(&[20000, 15000])).unwrap();
    assert_eq!(down.to_string(), "-25.00%");
}

#[test]
fn sma_30_is_absent_below_thirty_closes() {
    let twenty_nine = series_of(&vec![10000; 29]);
    assert_eq!(sma_30(&twenty_nine), None);
}

#[test]
fn sma_30_is_the_plain_mean_of_thirty_closes() {
    let mut cents: Vec<i64> = vec![10000; 29];
    cents.push(13000);
    let series = series_of(&cents);
    // mean of 29 closes at 100.00 and one at 130.00 is 101.00
    assert_eq!(sma_30(&series), Some(Price::from_cents(10100)));
}

#[test]
fn sma_30_uses_only_the_last_thirty_closes() {
    let mut cents: Vec<i64> = vec![99999; 5];
    cents.extend(std::iter::repeat(2000).take(30));
    let series = series_of(&cents);
    assert_eq!(sma_30(&series), Some(Price::from_cents(2000)));
}

#[test]
fn sma_30_rounds_half_away_from_zero() {
    // 29 closes of 0 cents and one of 15 cents: mean is 0.5, rounded to 1
    let mut cents: Vec<i64> = vec![0; 29];
    cents.push(15);
    assert_eq!(sma_30(&series_of(&cents)), Some(Price::from_cents(1)));
}

#[test]
fn empty_series_reports_everything_unavailable() {
    let empty: Vec<StockData> = Vec::new();
    assert_eq!(latest_close(&empty), None);
    assert_eq!(min_close(&empty), None);
    assert_eq!(max_close(&empty), None);
    assert_eq!(percentage_change(&empty), None);
    assert_eq!(sma_30(&empty), None);
    let row = build_report_row("MSFT".to_string(), noon(1), &empty);
    assert!(row.to_string().ends_with(",MSFT,-,-,-,-,-"));
}

#[test]
fn min_max_latest_over_all_closes() {
    let series = series_of(&[4444, 2222, 8888, 4423]);
    assert_eq!(latest_close(&series), Some(Price::from_cents(4423)));
    assert_eq!(min_close(&series), Some(Price::from_cents(2222)));
    assert_eq!(max_close(&series), Some(Price::from_cents(8888)));
}

#[test]
fn negative_closes_do_not_confuse_min_and_max() {
    let series = series_of(&[-100, -300, -200]);
    assert_eq!(min_close(&series), Some(Price::from_cents(-300)));
    assert_eq!(max_close(&series), Some(Price::from_cents(-100)));
}

#[test]
fn normalize_skips_records_without_a_close() {
    let raw = vec![
        RawQuote { timestamp: 1_593_718_200, close: Some(4423) },
        RawQuote { timestamp: 1_593_804_600, close: None },
        RawQuote { timestamp: 1_593_891_000, close: Some(4500) },
    ];
    let series = normalize(&"MSFT".to_string(), &raw);
    assert_eq!(series.len(), 2);
    assert_eq!(series[0].close, Some(Price::from_cents(4423)));
    assert_eq!(series[1].close, Some(Price::from_cents(4500)));
    assert_eq!(series[0].stock_symbol, "MSFT");
    // a skipped record must not leak a zero into the minimum
    assert_eq!(min_close(&series), Some(Price::from_cents(4423)));
}

#[test]
fn normalize_keeps_records_from_before_the_epoch() {
    let raw = vec![
        RawQuote { timestamp: -86400, close: Some(1000) },
        RawQuote { timestamp: 1_593_718_200, close: Some(4423) },
    ];
    let series = normalize(&"MSFT".to_string(), &raw);
    assert_eq!(series.len(), 2);
    assert_eq!(series[0].close, Some(Price::from_cents(1000)));
    assert_eq!(series[0].datetime.to_string(), "1969-12-31T00:00:00+00:00");
    assert_eq!(series[1].close, Some(Price::from_cents(4423)));
}

#[test]
fn normalize_skips_timestamps_outside_the_supported_years() {
    // roughly 800,000 days before the epoch: a date before year 0
    let raw = vec![
        RawQuote { timestamp: -800_000 * 86400, close: Some(1000) },
        RawQuote { timestamp: 1_593_718_200, close: Some(4423) },
    ];
    let series = normalize(&"MSFT".to_string(), &raw);
    assert_eq!(series.len(), 1);
    assert_eq!(series[0].close, Some(Price::from_cents(4423)));
}

#[test]
fn normalize_converts_epoch_seconds_to_utc() {
    let raw = vec![RawQuote { timestamp: 1_593_718_200, close: Some(4423) }];
    let series = normalize(&"MSFT".to_string(), &raw);
    assert_eq!(series[0].datetime.to_string(), "2020-07-02T19:30:00+00:00");
}

#[test]
fn build_report_row_fills_every_available_statistic() {
    let series = series_of(&[10000, 2222, 8888, 15000]);
    let row = build_report_row("MSFT".to_string(), noon(1), &series);
    assert_eq!(row.close, Some(Price::from_cents(15000)));
    assert_eq!(row.min, Some(Price::from_cents(2222)));
    assert_eq!(row.max, Some(Price::from_cents(15000)));
    assert_eq!(row.change.unwrap().to_string(), "50.00%");
    assert_eq!(row.sma_30, None);
    assert_eq!(
        row.to_string(),
        "2021-03-01T12:00:00+00:00,MSFT,$150.00,50.00%,$22.22,$150.00,-"
    );
}
