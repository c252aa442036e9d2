//! Quote normalization: raw provider records become an ordered series of
//! typed price observations for one symbol.
//!
//! The provider's ordering is preserved. A record without a usable close
//! is skipped rather than given a substitute of zero, which would corrupt
//! the minimum and the averages; a record whose timestamp falls on a date
//! outside the supported years 0 through 9999 is skipped for the same
//! reason. Timestamps before the Unix epoch are ordinary dates and are
//! kept.

use crate::calendar::{date_plus_days, date_valid, epoch_date};
use crate::types::{timestamp_matches, timestamp_wf, Price, StockData, Timestamp};
use vstd::prelude::*;

verus! {

/// A raw quote record as the provider hands it over: an epoch-seconds
/// timestamp and the adjusted close in cents, absent when the provider
/// had no usable value.
#[derive(Clone, Copy, Debug, PartialEq, Eq, Structural)]
pub struct RawQuote {
    pub timestamp: i64,
    pub close: Option<i64>,
}

/// Whether a raw record survives normalization: it has a close and its
/// timestamp falls on a date inside the supported years.
pub open spec fn keep(q: RawQuote) -> bool {
    &&& q.close is Some
    &&& date_valid(date_plus_days(epoch_date(), q.timestamp as int / 86400))
}

/// The subsequence of records that survive normalization, in order.
pub open spec fn kept_quotes(raw: Seq<RawQuote>) -> Seq<RawQuote>
    decreases raw.len(),
{
    if raw.len() == 0 {
        Seq::empty()
    } else {
        let rest = kept_quotes(raw.drop_last());
        if keep(raw.last()) {
            rest.push(raw.last())
        } else {
            rest
        }
    }
}

/// The typed close of a raw record.
pub open spec fn quote_close(q: RawQuote) -> Option<Price> {
    match q.close {
        Some(c) => Some(Price { cents: c }),
        None => None,
    }
}

/// Whether a normalized observation is the faithful image of a kept raw
/// record for `symbol`.
pub open spec fn observation_of(row: StockData, q: RawQuote, symbol: Seq<char>) -> bool {
    &&& row.stock_symbol@ == symbol
    &&& row.close == quote_close(q)
    &&& timestamp_matches(row.datetime, q.timestamp as int)
    &&& timestamp_wf(row.datetime)
    &&& row.change is None
    &&& row.min is None
    &&& row.max is None
    &&& row.sma_30 is None
}

/// Builds the price series for `symbol` from the provider's raw records,
/// keeping their order and skipping exactly the records without a usable
/// close or timestamp.
pub fn normalize(symbol: &String, raw: &Vec<RawQuote>) -> (r: Vec<StockData>)
    ensures
        r@.len() == kept_quotes(raw@).len(),
        forall|i: int|
            0 <= i < r@.len() ==> observation_of(r@[i], kept_quotes(raw@)[i], symbol@),
{
    let mut r: Vec<StockData> = Vec::new();
    let mut i: usize = 0;
    while i < raw.len()
        invariant
            i <= raw@.len(),
            r@.len() == kept_quotes(raw@.subrange(0, i as int)).len(),
            forall|j: int|
                0 <= j < r@.len() ==> observation_of(
                    r@[j],
                    kept_quotes(raw@.subrange(0, i as int))[j],
                    symbol@,
                ),
        decreases raw.len() - i,
    {
        proof {
            let pre = raw@.subrange(0, i as int);
            let post = raw@.subrange(0, i + 1);
            assert(post.drop_last() =~= pre);
            assert(post.last() == raw@[i as int]);
        }
        let q = raw[i];
        match q.close {
            Some(c) => {
                match Timestamp::from_epoch(q.timestamp) {
                    Some(ts) => {
                        let row = StockData::new(symbol.clone(), ts).close(Price::from_cents(c));
                        r.push(row);
                    },
                    None => {},
                }
            },
            None => {},
        }
        i = i + 1;
    }
    proof {
        assert(raw@.subrange(0, raw@.len() as int) =~= raw@);
    }
    r
}

} // verus!
