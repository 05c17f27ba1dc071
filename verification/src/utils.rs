//! Trend classification and averaging over a price series.

use vstd::prelude::*;
use crate::price::Price;
use crate::summary::StockTrend;

verus! {

/// A trend needs more than this many samples.
pub const TREND_WINDOW: usize = 1000;

/// Distance from the first to the second check-point of the window, and from
/// the second to the third.
pub const TREND_QUARTER: usize = 250;

/// Distance from the third check-point to the newest sample.
pub const TREND_HALF: usize = 500;

/// The trend of a series: with `n` samples, more than `TREND_WINDOW` of them,
/// the four check-points `n - 1001`, `n - 751`, `n - 501` and `n - 1` of the
/// trailing window are compared pairwise.
pub open spec fn trend_of(prices: Seq<Price>) -> StockTrend {
    let n = prices.len() as int;
    if n <= TREND_WINDOW {
        StockTrend::NotEnoughData
    } else {
        let start = n - TREND_WINDOW - 1;
        let low_mid = start + TREND_QUARTER;
        let high_mid = low_mid + TREND_QUARTER;
        let end = high_mid + TREND_HALF;
        if prices[start] <= prices[low_mid] && prices[high_mid] <= prices[end] {
            StockTrend::Uptrend
        } else if prices[start] >= prices[low_mid] && prices[high_mid] >= prices[end] {
            StockTrend::Downtrend
        } else {
            StockTrend::Sideways
        }
    }
}

/// Classifies the trend of `prices` in constant time.
pub fn get_trend(prices: &Vec<Price>) -> (trend: StockTrend)
    ensures
        trend == trend_of(prices@),
        prices@.len() <= TREND_WINDOW ==> trend == StockTrend::NotEnoughData,
{
    let size = prices.len();

    if size <= TREND_WINDOW {
        StockTrend::NotEnoughData
    } else {
        let start_index = size - TREND_WINDOW - 1;
        let low_mid_index = start_index + TREND_QUARTER;
        let high_mid_index = low_mid_index + TREND_QUARTER;
        let end_index = high_mid_index + TREND_HALF;

        if prices[start_index] <= prices[low_mid_index]
            && prices[high_mid_index] <= prices[end_index]
        {
            StockTrend::Uptrend
        } else if prices[start_index] >= prices[low_mid_index]
            && prices[high_mid_index] >= prices[end_index]
        {
            StockTrend::Downtrend
        } else {
            StockTrend::Sideways
        }
    }
}

/// Whether each sample is strictly greater than the one before it.
pub open spec fn strictly_rising(prices: Seq<Price>) -> bool {
    forall|i: int, j: int| 0 <= i < j < prices.len() ==> prices[i] < prices[j]
}

/// Whether each sample is strictly smaller than the one before it.
pub open spec fn strictly_falling(prices: Seq<Price>) -> bool {
    forall|i: int, j: int| 0 <= i < j < prices.len() ==> prices[i] > prices[j]
}

/// A series too short for the window has no trend, whatever it holds.
pub proof fn lemma_short_series_has_no_trend(prices: Seq<Price>)
    requires
        prices.len() <= TREND_WINDOW,
    ensures
        trend_of(prices) == StockTrend::NotEnoughData,
{
}

/// A strictly rising series with more than `TREND_WINDOW` samples is an
/// uptrend.
pub proof fn lemma_rising_series_is_uptrend(prices: Seq<Price>)
    requires
        prices.len() > TREND_WINDOW,
        strictly_rising(prices),
    ensures
        trend_of(prices) == StockTrend::Uptrend,
{
}

/// A strictly falling series with more than `TREND_WINDOW` samples is a
/// downtrend.
pub proof fn lemma_falling_series_is_downtrend(prices: Seq<Price>)
    requires
        prices.len() > TREND_WINDOW,
        strictly_falling(prices),
    ensures
        trend_of(prices) == StockTrend::Downtrend,
{
}

/// The sum of all samples.
pub open spec fn total(prices: Seq<Price>) -> nat
    decreases prices.len(),
{
    if prices.len() == 0 {
        0
    } else {
        total(prices.drop_last()) + prices.last() as nat
    }
}

/// The arithmetic mean of the series, rounded down to a whole `Price`; zero
/// for the empty series.
pub open spec fn mean_of(prices: Seq<Price>) -> nat {
    if prices.len() == 0 {
        0
    } else {
        total(prices) / prices.len()
    }
}

/// No sum of `n` prices exceeds `n` times the largest price there is.
pub proof fn lemma_total_bound(prices: Seq<Price>)
    ensures
        total(prices) <= prices.len() * u64::MAX,
    decreases prices.len(),
{
    if prices.len() > 0 {
        lemma_total_bound(prices.drop_last());
        assert(total(prices.drop_last()) + prices.last() <= (prices.len() - 1) * u64::MAX
            + u64::MAX);
        assert((prices.len() - 1) * u64::MAX + u64::MAX == prices.len() * u64::MAX)
            by (nonlinear_arith);
    }
}

/// The mean of a series is itself a price: it fits where each sample fits.
pub proof fn lemma_mean_fits(prices: Seq<Price>)
    ensures
        mean_of(prices) <= u64::MAX,
{
    if prices.len() > 0 {
        lemma_total_bound(prices);
        let n = prices.len() as int;
        assert(total(prices) as int / n <= u64::MAX) by (nonlinear_arith)
            requires
                n > 0,
                total(prices) <= n * u64::MAX,
        ;
    }
}

/// The mean is the exact quotient rounded down: as many times the mean as
/// there are prices is at most their sum, and one step more would exceed it.
pub proof fn lemma_mean_is_floor(prices: Seq<Price>)
    requires
        prices.len() > 0,
    ensures
        mean_of(prices) * prices.len() <= total(prices) < (mean_of(prices) + 1) * prices.len(),
{
    let n = prices.len() as int;
    let t = total(prices) as int;
    assert((t / n) * n <= t < (t / n + 1) * n) by (nonlinear_arith)
        requires
            n > 0,
            t >= 0,
    ;
}

/// The mean of all prices recorded so far; zero while there are none.
pub fn moving_average(prices: &Vec<Price>) -> (average: Price)
    ensures
        average == mean_of(prices@),
{
    if prices.len() == 0 {
        0
    } else {
        let mut sum: u128 = 0;
        let mut i: usize = 0;
        while i < prices.len()
            invariant
                i <= prices.len(),
                sum == total(prices@.take(i as int)),
            decreases prices.len() - i,
        {
            proof {
                let next = prices@.take(i + 1);
                assert(next.drop_last() == prices@.take(i as int));
                lemma_total_bound(next);
                assert(next.len() * u64::MAX <= usize::MAX * u64::MAX) by (nonlinear_arith)
                    requires
                        next.len() <= usize::MAX,
                ;
            }
            sum = sum + prices[i] as u128;
            i += 1;
        }
        proof {
            assert(prices@.take(i as int) == prices@);
            lemma_mean_fits(prices@);
        }
        (sum / prices.len() as u128) as u64
    }
}

} // verus!
