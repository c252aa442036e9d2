//! The report's value types: prices and percentage changes held in
//! hundredths, timestamps with civil date and time of day, and the
//! per-symbol report row.
//!
//! Amounts are carried as integer hundredths (cents for prices,
//! hundredths of a percentage point for changes), which is exactly the
//! precision the report prints; rendering never rounds again.

use crate::calendar::{date_plus_days, date_valid, epoch_date, Date};
use crate::render::{
    dec_str, fixed2_str, four_digits, i64_fixed2, push_four_digits, push_two_digits, two_digits,
    u64_to_dec,
};
use vstd::prelude::*;

verus! {

/// A price in cents, rendered as a dollar amount with two decimals.
#[derive(Clone, Copy, Debug, PartialEq, Eq, Structural)]
pub struct Price {
    pub cents: i64,
}

/// The notation of a price: a dollar sign before the two-decimal amount.
pub open spec fn price_str(cents: int) -> Seq<char> {
    seq!['$'] + fixed2_str(cents)
}

impl Price {
    /// A price of `cents` hundredths of a dollar.
    pub fn from_cents(cents: i64) -> (r: Price)
        ensures
            r.cents == cents,
    {
        Price { cents }
    }

    /// Renders the price, e.g. cents 4423 as `$44.23`.
    pub fn to_string(&self) -> (s: String)
        ensures
            s@ == price_str(self.cents as int),
    {
        proof {
            reveal_strlit("$");
        }
        let mut s = String::from_str("$");
        let amount = i64_fixed2(self.cents);
        s.append(amount.as_str());
        proof {
            assert(s@ =~= price_str(self.cents as int));
        }
        s
    }
}

/// A signed change in hundredths of a percentage point, rendered with
/// two decimals and a percent sign.
#[derive(Clone, Copy, Debug, PartialEq, Eq, Structural)]
pub struct Percentage {
    pub hundredths: i64,
}

/// The notation of a percentage change: the two-decimal amount followed
/// by a percent sign.
pub open spec fn percent_str(hundredths: int) -> Seq<char> {
    fixed2_str(hundredths) + seq!['%']
}

impl Percentage {
    /// A change of `hundredths` hundredths of a percentage point.
    pub fn from_hundredths(hundredths: i64) -> (r: Percentage)
        ensures
            r.hundredths == hundredths,
    {
        Percentage { hundredths }
    }

    /// Renders the change, e.g. hundredths 13435 as `134.35%`.
    pub fn to_string(&self) -> (s: String)
        ensures
            s@ == percent_str(self.hundredths as int),
    {
        let mut s = i64_fixed2(self.hundredths);
        proof {
            reveal_strlit("%");
        }
        s.append("%");
        proof {
            assert(s@ =~= percent_str(self.hundredths as int));
        }
        s
    }
}

/// An instant in UTC: a civil date with a time of day.
#[derive(Clone, Copy, Debug, PartialEq, Eq, Structural)]
pub struct Timestamp {
    pub date: Date,
    pub hour: u8,
    pub minute: u8,
    pub second: u8,
}

/// A well-formed timestamp: a valid date and a time of day in range.
pub open spec fn timestamp_wf(t: Timestamp) -> bool {
    date_valid(t.date@) && t.hour < 24 && t.minute < 60 && t.second < 60
}

/// The RFC 3339 notation of a UTC timestamp, with the fixed `+00:00`
/// offset suffix.
pub open spec fn rfc3339_str(t: Timestamp) -> Seq<char> {
    four_digits(t.date.year as nat) + seq!['-'] + two_digits(t.date.month as nat) + seq!['-']
        + two_digits(t.date.day as nat) + seq!['T'] + two_digits(t.hour as nat) + seq![':']
        + two_digits(t.minute as nat) + seq![':'] + two_digits(t.second as nat) + seq![
        '+',
        '0',
        '0',
        ':',
        '0',
        '0',
    ]
}

/// Whether `t` is the UTC instant `secs` seconds into the Unix epoch.
pub open spec fn timestamp_matches(t: Timestamp, secs: int) -> bool {
    &&& t.date@ == date_plus_days(epoch_date(), secs / 86400)
    &&& t.hour as int == (secs % 86400) / 3600
    &&& t.minute as int == ((secs % 86400) % 3600) / 60
    &&& t.second as int == secs % 60
}

impl Timestamp {
    /// A timestamp from its parts, or `None` when a part is out of range.
    pub fn new(date: Date, hour: u8, minute: u8, second: u8) -> (r: Option<Timestamp>)
        ensures
            ({
                let t = Timestamp { date, hour, minute, second };
                match r {
                    Some(x) => x == t && timestamp_wf(t),
                    None => !timestamp_wf(t),
                }
            }),
    {
        if date.year < crate::calendar::MIN_YEAR || date.year > crate::calendar::MAX_YEAR
            || date.month < 1 || date.month > 12 || date.day < 1 || date.day
            > crate::calendar::days_in_month(date.year, date.month) || hour >= 24 || minute >= 60
            || second >= 60 {
            None
        } else {
            Some(Timestamp { date, hour, minute, second })
        }
    }

    /// The UTC instant `secs` seconds into the Unix epoch (negative for
    /// instants before it), or `None` when its date falls outside the
    /// supported years. The day and the time of day split by Euclidean
    /// division, so the time of day is never negative.
    pub fn from_epoch(secs: i64) -> (r: Option<Timestamp>)
        ensures
            ({
                let target = date_plus_days(epoch_date(), secs as int / 86400);
                match r {
                    Some(t) => timestamp_matches(t, secs as int) && timestamp_wf(t),
                    None => !date_valid(target),
                }
            }),
    {
        let sh: i128 = secs as i128 + 9_504_000_000_000_000_000;
        let days_i: i128 = sh / 86400 - 110_000_000_000_000;
        let rem: i128 = sh % 86400;
        proof {
            let s = secs as int;
            vstd::arithmetic::div_mod::lemma_fundamental_div_mod(s, 86400);
            vstd::arithmetic::div_mod::lemma_mod_division_less_than_divisor(s, 86400);
            assert(sh as int == 86400 * (s / 86400 + 110_000_000_000_000) + s % 86400);
            vstd::arithmetic::div_mod::lemma_div_multiples_vanish_fancy(
                s / 86400 + 110_000_000_000_000,
                s % 86400,
                86400,
            );
            vstd::arithmetic::div_mod::lemma_fundamental_div_mod(sh as int, 86400);
            assert(days_i as int == s / 86400);
            assert(rem as int == s % 86400);
        }
        let hour: u8 = (rem / 3600) as u8;
        let minute: u8 = ((rem % 3600) / 60) as u8;
        let second: u8 = (rem % 60) as u8;
        proof {
            let s = secs as int;
            assert(0 <= rem < 86400);
            assert(rem / 3600 < 24) by (nonlinear_arith)
                requires
                    0 <= rem < 86400,
            ;
            assert((rem % 3600) / 60 < 60) by (nonlinear_arith);
            assert(60 * 1440 == 86400);
            vstd::arithmetic::div_mod::lemma_mod_mod(s, 60, 1440);
            assert((s % 86400) % 60 == s % 60);
        }
        if days_i > 4_000_000 || days_i < -4_000_000 {
            proof {
                crate::calendar::lemma_epoch_far_out(days_i as int);
            }
            return None;
        }
        let start = Date { year: 1970, month: 1, day: 1 };
        match crate::calendar::add_days(start, days_i as i64) {
            Some(d) => Some(Timestamp { date: d, hour, minute, second }),
            None => None,
        }
    }

    /// Midnight at the start of the given valid date.
    pub fn start_of_day(date: Date) -> (r: Timestamp)
        requires
            date_valid(date@),
        ensures
            r.date == date,
            r.hour == 0 && r.minute == 0 && r.second == 0,
            timestamp_wf(r),
    {
        Timestamp { date, hour: 0, minute: 0, second: 0 }
    }

    /// Renders the timestamp in RFC 3339 notation, e.g.
    /// `2020-07-02T19:30:00+00:00`.
    pub fn to_string(&self) -> (s: String)
        requires
            timestamp_wf(*self),
        ensures
            s@ == rfc3339_str(*self),
    {
        let mut s = String::new();
        push_four_digits(&mut s, self.date.year as u16);
        proof {
            reveal_strlit("-");
            reveal_strlit("T");
            reveal_strlit(":");
            reveal_strlit("+00:00");
        }
        s.append("-");
        push_two_digits(&mut s, self.date.month);
        s.append("-");
        push_two_digits(&mut s, self.date.day);
        s.append("T");
        push_two_digits(&mut s, self.hour);
        s.append(":");
        push_two_digits(&mut s, self.minute);
        s.append(":");
        push_two_digits(&mut s, self.second);
        s.append("+00:00");
        proof {
            assert(s@ =~= rfc3339_str(*self));
        }
        s
    }
}

/// A value the report can print in a column.
pub trait Render {
    /// The notation this value renders to.
    spec fn spec_render(&self) -> Seq<char>;

    /// Renders the value.
    fn render(&self) -> (s: String)
        ensures
            s@ == self.spec_render(),
    ;
}

impl Render for Price {
    open spec fn spec_render(&self) -> Seq<char> {
        price_str(self.cents as int)
    }

    fn render(&self) -> (s: String)
        ensures
            s@ == self.spec_render(),
    {
        self.to_string()
    }
}

impl Render for Percentage {
    open spec fn spec_render(&self) -> Seq<char> {
        percent_str(self.hundredths as int)
    }

    fn render(&self) -> (s: String)
        ensures
            s@ == self.spec_render(),
    {
        self.to_string()
    }
}

/// The notation of an optional report column: the value's own notation,
/// or the `-` placeholder when the value is absent.
pub open spec fn opt_render<V: Render>(value: Option<V>) -> Seq<char> {
    match value {
        Some(v) => v.spec_render(),
        None => seq!['-'],
    }
}

/// Renders an optional report column, with `-` for an absent value.
pub fn format<V: Render>(value: Option<V>) -> (s: String)
    ensures
        s@ == opt_render(value),
{
    match value {
        Some(v) => v.render(),
        None => {
            proof {
                reveal_strlit("-");
            }
            let s = String::from_str("-");
            proof {
                assert(s@ =~= seq!['-']);
            }
            s
        },
    }
}

/// One symbol's report row: the window start instant, the symbol, and
/// the statistics that were available for it.
#[derive(Clone, Debug)]
pub struct StockData {
    pub datetime: Timestamp,
    pub stock_symbol: String,
    pub close: Option<Price>,
    pub change: Option<Percentage>,
    pub min: Option<Price>,
    pub max: Option<Price>,
    pub sma_30: Option<Price>,
}

/// The notation of a report row: seven comma-separated columns, with a
/// `-` placeholder for every absent value.
pub open spec fn row_str(d: StockData) -> Seq<char> {
    rfc3339_str(d.datetime) + seq![','] + d.stock_symbol@ + seq![','] + opt_render(d.close)
        + seq![','] + opt_render(d.change) + seq![','] + opt_render(d.min) + seq![',']
        + opt_render(d.max) + seq![','] + opt_render(d.sma_30)
}

impl StockData {
    /// A row for `stock_symbol` at the instant `datetime`, with every
    /// statistic still absent.
    pub fn new(stock_symbol: String, datetime: Timestamp) -> (r: Self)
        ensures
            r.datetime == datetime,
            r.stock_symbol == stock_symbol,
            r.close is None && r.change is None && r.min is None && r.max is None && r.sma_30
                is None,
    {
        StockData {
            datetime,
            stock_symbol,
            close: None,
            change: None,
            min: None,
            max: None,
            sma_30: None,
        }
    }

    /// A copy of the row with the instant replaced.
    pub fn datetime(&self, datetime: Timestamp) -> (r: Self)
        ensures
            r == (StockData { datetime, ..*self }),
    {
        StockData {
            datetime,
            stock_symbol: self.stock_symbol.clone(),
            close: self.close,
            change: self.change,
            min: self.min,
            max: self.max,
            sma_30: self.sma_30,
        }
    }

    /// A copy of the row with the symbol replaced.
    pub fn stock_symbol(&self, stock_symbol: String) -> (r: Self)
        ensures
            r == (StockData { stock_symbol, ..*self }),
    {
        StockData {
            datetime: self.datetime,
            stock_symbol,
            close: self.close,
            change: self.change,
            min: self.min,
            max: self.max,
            sma_30: self.sma_30,
        }
    }

    /// A copy of the row with the closing price set.
    pub fn close(&self, close: Price) -> (r: Self)
        ensures
            r == (StockData { close: Some(close), ..*self }),
    {
        StockData {
            datetime: self.datetime,
            stock_symbol: self.stock_symbol.clone(),
            close: Some(close),
            change: self.change,
            min: self.min,
            max: self.max,
            sma_30: self.sma_30,
        }
    }

    /// A copy of the row with the percentage change set.
    pub fn change(&self, change: Percentage) -> (r: Self)
        ensures
            r == (StockData { change: Some(change), ..*self }),
    {
        StockData {
            datetime: self.datetime,
            stock_symbol: self.stock_symbol.clone(),
            close: self.close,
            change: Some(change),
            min: self.min,
            max: self.max,
            sma_30: self.sma_30,
        }
    }

    /// A copy of the row with the minimum close set.
    pub fn min(&self, min: Price) -> (r: Self)
        ensures
            r == (StockData { min: Some(min), ..*self }),
    {
        StockData {
            datetime: self.datetime,
            stock_symbol: self.stock_symbol.clone(),
            close: self.close,
            change: self.change,
            min: Some(min),
            max: self.max,
            sma_30: self.sma_30,
        }
    }

    /// A copy of the row with the maximum close set.
    pub fn max(&self, max: Price) -> (r: Self)
        ensures
            r == (StockData { max: Some(max), ..*self }),
    {
        StockData {
            datetime: self.datetime,
            stock_symbol: self.stock_symbol.clone(),
            close: self.close,
            change: self.change,
            min: self.min,
            max: Some(max),
            sma_30: self.sma_30,
        }
    }

    /// A copy of the row with the 30-day moving average set.
    pub fn sma_30(&self, sma_30: Price) -> (r: Self)
        ensures
            r == (StockData { sma_30: Some(sma_30), ..*self }),
    {
        StockData {
            datetime: self.datetime,
            stock_symbol: self.stock_symbol.clone(),
            close: self.close,
            change: self.change,
            min: self.min,
            max: self.max,
            sma_30: Some(sma_30),
        }
    }

    /// The closing price, absent when no close was set: an unset close is
    /// reported as unavailable, never replaced with a zero price, which
    /// would corrupt any statistic computed from it.
    pub fn close_value(&self) -> (r: Option<Price>)
        ensures
            r == self.close,
    {
        self.close
    }

    /// Renders the row as its seven comma-separated columns.
    pub fn to_string(&self) -> (s: String)
        requires
            timestamp_wf(self.datetime),
        ensures
            s@ == row_str(*self),
    {
        proof {
            reveal_strlit(",");
        }
        let mut s = self.datetime.to_string();
        s.append(",");
        s.append(self.stock_symbol.as_str());
        s.append(",");
        let close = format(self.close);
        s.append(close.as_str());
        s.append(",");
        let change = format(self.change);
        s.append(change.as_str());
        s.append(",");
        let min = format(self.min);
        s.append(min.as_str());
        s.append(",");
        let max = format(self.max);
        s.append(max.as_str());
        s.append(",");
        let sma = format(self.sma_30);
        s.append(sma.as_str());
        proof {
            assert(s@ =~= row_str(*self));
        }
        s
    }
}

/// The report's header line, naming its seven columns.
pub fn header_row() -> (s: String)
    ensures
        s@ == "period start,symbol,price,change %,min,max,30d avg"@,
{
    String::from_str("period start,symbol,price,change %,min,max,30d avg")
}

} // verus!
