//! Statistics over a price series: latest close, minimum, maximum,
//! percentage change and the 30-day moving average, each degrading to an
//! absent value instead of failing on short or empty series.

use crate::types::{timestamp_wf, Percentage, Price, StockData, Timestamp};
use vstd::prelude::*;

verus! {

/// The closing prices of a series, in cents, in series order; records
/// without a close carry no price and are skipped.
pub open spec fn closes(s: Seq<StockData>) -> Seq<i64>
    decreases s.len(),
{
    if s.len() == 0 {
        Seq::empty()
    } else {
        let rest = closes(s.drop_last());
        match s.last().close {
            Some(p) => rest.push(p.cents),
            None => rest,
        }
    }
}

/// The least element of a nonempty sequence.
pub open spec fn seq_min(s: Seq<i64>) -> i64
    decreases s.len(),
{
    if s.len() <= 1 {
        s[0]
    } else {
        let m = seq_min(s.drop_last());
        if s.last() < m {
            s.last()
        } else {
            m
        }
    }
}

/// The greatest element of a nonempty sequence.
pub open spec fn seq_max(s: Seq<i64>) -> i64
    decreases s.len(),
{
    if s.len() <= 1 {
        s[0]
    } else {
        let m = seq_max(s.drop_last());
        if s.last() > m {
            s.last()
        } else {
            m
        }
    }
}

/// The sum of a sequence.
pub open spec fn seq_sum(s: Seq<i64>) -> int
    decreases s.len(),
{
    if s.len() == 0 {
        0
    } else {
        seq_sum(s.drop_last()) + s.last()
    }
}

/// The quotient `num / den` rounded to the nearest integer, with halves
/// rounded away from zero; `den` must be positive.
pub open spec fn round_half_away(num: int, den: int) -> int {
    if num >= 0 {
        (2 * num + den) / (2 * den)
    } else {
        -((2 * (-num) + den) / (2 * den))
    }
}

proof fn lemma_round_nonneg_bounds(num: int, den: int, lo: int, hi: int)
    requires
        den > 0,
        num >= 0,
        den * lo <= num <= den * hi,
    ensures
        lo <= round_half_away(num, den) <= hi,
{
    let d2 = 2 * den;
    let r = (2 * num + den) / d2;
    assert(2 * num + den <= (2 * den) * hi + den) by (nonlinear_arith)
        requires
            num <= den * hi,
            den > 0,
    ;
    vstd::arithmetic::div_mod::lemma_div_is_ordered(2 * num + den, d2 * hi + den, d2);
    vstd::arithmetic::div_mod::lemma_div_multiples_vanish_fancy(hi, den, d2);
    assert(r <= hi);
    if lo <= 0 {
        vstd::arithmetic::div_mod::lemma_div_pos_is_pos(2 * num + den, d2);
    } else {
        assert((2 * den) * lo <= 2 * num + den) by (nonlinear_arith)
            requires
                den * lo <= num,
                den > 0,
        ;
        vstd::arithmetic::div_mod::lemma_div_is_ordered(d2 * lo, 2 * num + den, d2);
        vstd::arithmetic::div_mod::lemma_div_multiples_vanish_fancy(lo, 0, d2);
        assert(d2 * lo + 0 == d2 * lo);
        assert(r >= lo);
    }
}

/// Rounding to the nearest integer never leaves an enclosing range whose
/// ends are whole multiples of the denominator.
pub proof fn lemma_round_half_away_bounds(num: int, den: int, lo: int, hi: int)
    requires
        den > 0,
        den * lo <= num <= den * hi,
    ensures
        lo <= round_half_away(num, den) <= hi,
{
    if num >= 0 {
        lemma_round_nonneg_bounds(num, den, lo, hi);
    } else {
        assert(den * (-hi) <= -num <= den * (-lo)) by (nonlinear_arith)
            requires
                den * lo <= num <= den * hi,
                den > 0,
        ;
        lemma_round_nonneg_bounds(-num, den, -hi, -lo);
    }
}

/// The quotient `num / den` rounded to the nearest integer, halves away
/// from zero.
fn round_half_away_ex(num: i128, den: i128) -> (r: i128)
    requires
        den > 0,
        -0x2000_0000_0000_0000_0000_0000_0000_0000 < num
            < 0x2000_0000_0000_0000_0000_0000_0000_0000,
        den < 0x2000_0000_0000_0000_0000_0000_0000_0000,
    ensures
        r as int == round_half_away(num as int, den as int),
{
    if num >= 0 {
        (2 * num + den) / (2 * den)
    } else {
        -((2 * (-num) + den) / (2 * den))
    }
}

/// Whether an optional latest-close report is right for the closes `cs`:
/// the last close when there is one, absent for an empty series.
pub open spec fn latest_close_ok(cs: Seq<i64>, r: Option<Price>) -> bool {
    match r {
        Some(p) => cs.len() > 0 && p.cents == cs.last(),
        None => cs.len() == 0,
    }
}

/// Whether an optional minimum report is right for the closes `cs`.
pub open spec fn min_close_ok(cs: Seq<i64>, r: Option<Price>) -> bool {
    match r {
        Some(p) => cs.len() > 0 && p.cents == seq_min(cs),
        None => cs.len() == 0,
    }
}

/// Whether an optional maximum report is right for the closes `cs`.
pub open spec fn max_close_ok(cs: Seq<i64>, r: Option<Price>) -> bool {
    match r {
        Some(p) => cs.len() > 0 && p.cents == seq_max(cs),
        None => cs.len() == 0,
    }
}

/// The closing prices of `series`, in cents, in order.
pub fn collect_closes(series: &Vec<StockData>) -> (v: Vec<i64>)
    ensures
        v@ == closes(series@),
{
    let mut v: Vec<i64> = Vec::new();
    let mut i: usize = 0;
    while i < series.len()
        invariant
            i <= series.len(),
            v@ == closes(series@.subrange(0, i as int)),
        decreases series.len() - i,
    {
        proof {
            let pre = series@.subrange(0, i as int);
            let post = series@.subrange(0, i + 1);
            assert(post.drop_last() =~= pre);
            assert(post.last() == series@[i as int]);
        }
        match series[i].close {
            Some(p) => {
                v.push(p.cents);
            },
            None => {},
        }
        i = i + 1;
    }
    proof {
        assert(series@.subrange(0, series@.len() as int) =~= series@);
    }
    v
}

/// The latest closing price of the series, absent when the series has no
/// closes at all.
pub fn latest_close(series: &Vec<StockData>) -> (r: Option<Price>)
    ensures
        latest_close_ok(closes(series@), r),
{
    let v = collect_closes(series);
    if v.len() == 0 {
        None
    } else {
        Some(Price { cents: v[v.len() - 1] })
    }
}

/// The least closing price of the series, absent when the series has no
/// closes at all.
pub fn min_close(series: &Vec<StockData>) -> (r: Option<Price>)
    ensures
        min_close_ok(closes(series@), r),
{
    let v = collect_closes(series);
    if v.len() == 0 {
        return None;
    }
    let mut m: i64 = v[0];
    let mut i: usize = 1;
    while i < v.len()
        invariant
            1 <= i <= v@.len(),
            m == seq_min(v@.subrange(0, i as int)),
        decreases v.len() - i,
    {
        proof {
            let pre = v@.subrange(0, i as int);
            let post = v@.subrange(0, i + 1);
            assert(post.drop_last() =~= pre);
            assert(post.last() == v@[i as int]);
        }
        if v[i] < m {
            m = v[i];
        }
        i = i + 1;
    }
    proof {
        assert(v@.subrange(0, v@.len() as int) =~= v@);
    }
    Some(Price { cents: m })
}

/// The greatest closing price of the series, absent when the series has
/// no closes at all.
pub fn max_close(series: &Vec<StockData>) -> (r: Option<Price>)
    ensures
        max_close_ok(closes(series@), r),
{
    let v = collect_closes(series);
    if v.len() == 0 {
        return None;
    }
    let mut m: i64 = v[0];
    let mut i: usize = 1;
    while i < v.len()
        invariant
            1 <= i <= v@.len(),
            m == seq_max(v@.subrange(0, i as int)),
        decreases v.len() - i,
    {
        proof {
            let pre = v@.subrange(0, i as int);
            let post = v@.subrange(0, i + 1);
            assert(post.drop_last() =~= pre);
            assert(post.last() == v@[i as int]);
        }
        if v[i] > m {
            m = v[i];
        }
        i = i + 1;
    }
    proof {
        assert(v@.subrange(0, v@.len() as int) =~= v@);
    }
    Some(Price { cents: m })
}

/// Whether `v` fits the machine range of the hundredths field.
pub open spec fn fits_i64(v: int) -> bool {
    i64::MIN <= v <= i64::MAX
}

/// The signed percentage-point change from a first close to a last
/// close, in hundredths of a point: the ratio `last / first` maps to
/// `(ratio - 1) * 100` points, rounded to two decimals.
pub open spec fn change_hundredths(first: int, last: int) -> int {
    if first > 0 {
        round_half_away((last - first) * 10000, first)
    } else {
        round_half_away(-((last - first) * 10000), -first)
    }
}

/// Whether an optional percentage-change report is right for the closes
/// `cs`: absent exactly when there are fewer than two closes, the first
/// close is zero, or the change does not fit its field.
pub open spec fn change_ok(cs: Seq<i64>, r: Option<Percentage>) -> bool {
    match r {
        Some(p) => cs.len() >= 2 && cs[0] != 0 && p.hundredths as int == change_hundredths(
            cs[0] as int,
            cs.last() as int,
        ),
        None => cs.len() < 2 || cs[0] == 0 || !fits_i64(
            change_hundredths(cs[0] as int, cs.last() as int),
        ),
    }
}

/// Whether an optional 30-day moving average report is right for the
/// closes `cs`: absent exactly when there are fewer than 30 closes, and
/// otherwise the mean of the last 30, rounded to whole cents. A shorter
/// window is never averaged in its place.
pub open spec fn sma_ok(cs: Seq<i64>, r: Option<Price>) -> bool {
    match r {
        Some(p) => cs.len() >= 30 && p.cents as int == round_half_away(
            seq_sum(cs.subrange(cs.len() - 30, cs.len() as int)),
            30,
        ),
        None => cs.len() < 30,
    }
}

/// The percentage change from the first close to the last, absent when
/// the series has fewer than two closes or starts at zero.
pub fn percentage_change(series: &Vec<StockData>) -> (r: Option<Percentage>)
    ensures
        change_ok(closes(series@), r),
{
    let v = collect_closes(series);
    if v.len() < 2 {
        return None;
    }
    let first = v[0];
    let last = v[v.len() - 1];
    if first == 0 {
        return None;
    }
    let num: i128 = (last as i128 - first as i128) * 10000;
    let value: i128 = if first > 0 {
        round_half_away_ex(num, first as i128)
    } else {
        round_half_away_ex(-num, -(first as i128))
    };
    if value < i64::MIN as i128 || value > i64::MAX as i128 {
        return None;
    }
    Some(Percentage { hundredths: value as i64 })
}

/// The arithmetic mean of the last 30 closes, in whole cents, absent
/// when the series has fewer than 30 closes.
pub fn sma_30(series: &Vec<StockData>) -> (r: Option<Price>)
    ensures
        sma_ok(closes(series@), r),
{
    let v = collect_closes(series);
    if v.len() < 30 {
        return None;
    }
    let start: usize = v.len() - 30;
    let mut sum: i128 = 0;
    let mut i: usize = start;
    while i < v.len()
        invariant
            start <= i <= v@.len(),
            start == v@.len() - 30,
            sum == seq_sum(v@.subrange(start as int, i as int)),
            (i - start) * (i64::MIN as int) <= sum <= (i - start) * (i64::MAX as int),
        decreases v.len() - i,
    {
        proof {
            let pre = v@.subrange(start as int, i as int);
            let post = v@.subrange(start as int, i + 1);
            assert(post.drop_last() =~= pre);
            assert(post.last() == v@[i as int]);
            assert((i + 1 - start) * (i64::MIN as int) == (i - start) * (i64::MIN as int) + (
            i64::MIN as int)) by (nonlinear_arith);
            assert((i + 1 - start) * (i64::MAX as int) == (i - start) * (i64::MAX as int) + (
            i64::MAX as int)) by (nonlinear_arith);
        }
        sum = sum + v[i] as i128;
        i = i + 1;
    }
    proof {
        lemma_round_half_away_bounds(sum as int, 30, i64::MIN as int, i64::MAX as int);
    }
    let mean = round_half_away_ex(sum, 30);
    Some(Price { cents: mean as i64 })
}

/// Builds the report row for one symbol: the shared window start, the
/// symbol, and every statistic the series supports, each column absent
/// exactly when its statistic is undefined for the series.
pub fn build_report_row(symbol: String, window_start: Timestamp, series: &Vec<StockData>) -> (r:
    StockData)
    requires
        timestamp_wf(window_start),
    ensures
        r.datetime == window_start,
        r.stock_symbol == symbol,
        latest_close_ok(closes(series@), r.close),
        change_ok(closes(series@), r.change),
        min_close_ok(closes(series@), r.min),
        max_close_ok(closes(series@), r.max),
        sma_ok(closes(series@), r.sma_30),
{
    StockData {
        datetime: window_start,
        stock_symbol: symbol,
        close: latest_close(series),
        change: percentage_change(series),
        min: min_close(series),
        max: max_close(series),
        sma_30: sma_30(series),
    }
}

/// On a series with no closes, the latest close, minimum and maximum are
/// all reported as absent: no sentinel value can leak into the report.
pub proof fn lemma_empty_series_unavailable(
    series: Seq<StockData>,
    latest: Option<Price>,
    min: Option<Price>,
    max: Option<Price>,
)
    requires
        closes(series).len() == 0,
        latest_close_ok(closes(series), latest),
        min_close_ok(closes(series), min),
        max_close_ok(closes(series), max),
    ensures
        latest is None,
        min is None,
        max is None,
{
}

} // verus!
