//! The statistics derived from one symbol's price series.

use vstd::prelude::*;
use crate::price::Price;
use crate::utils::{mean_of, trend_of};

verus! {

/// Where a series has been heading over its trailing window.
#[derive(Debug, PartialEq, Eq, Structural, Clone, Copy)]
pub enum StockTrend {
    Uptrend,
    Downtrend,
    Sideways,
    NotEnoughData,
}

/// What is known of one symbol once it has a price.
#[derive(Debug, Clone, Copy)]
pub struct StockSummary {
    pub trend: StockTrend,
    pub lowest_price: Option<Price>,
    pub highest_price: Option<Price>,
    pub moving_average: Price,
}

/// The smallest price of the series, if it has one.
pub open spec fn lowest_of(prices: Seq<Price>) -> Option<Price>
    decreases prices.len(),
{
    if prices.len() == 0 {
        None
    } else {
        tightened_low(lowest_of(prices.drop_last()), prices.last())
    }
}

/// The largest price of the series, if it has one.
pub open spec fn highest_of(prices: Seq<Price>) -> Option<Price>
    decreases prices.len(),
{
    if prices.len() == 0 {
        None
    } else {
        tightened_high(highest_of(prices.drop_last()), prices.last())
    }
}

/// The lower of a recorded minimum and a new price; a minimum that is not
/// set yet counts as larger than every price.
pub open spec fn tightened_low(lowest: Option<Price>, price: Price) -> Option<Price> {
    match lowest {
        Some(low) => if price < low {
            Some(price)
        } else {
            Some(low)
        },
        None => Some(price),
    }
}

/// The higher of a recorded maximum and a new price; a maximum that is not
/// set yet counts as smaller than every price.
pub open spec fn tightened_high(highest: Option<Price>, price: Price) -> Option<Price> {
    match highest {
        Some(high) => if price > high {
            Some(price)
        } else {
            Some(high)
        },
        None => Some(price),
    }
}

/// The summary of a series: none while the series is empty.
pub open spec fn summary_of(prices: Seq<Price>) -> Option<StockSummary> {
    if prices.len() == 0 {
        None
    } else {
        Some(
            StockSummary {
                trend: trend_of(prices),
                lowest_price: lowest_of(prices),
                highest_price: highest_of(prices),
                moving_average: mean_of(prices) as Price,
            },
        )
    }
}

/// The recorded minimum is a price of the series and no price lies below it.
pub proof fn lemma_lowest_is_minimum(prices: Seq<Price>)
    ensures
        prices.len() == 0 <==> lowest_of(prices) is None,
        prices.len() > 0 ==> prices.contains(lowest_of(prices).unwrap()),
        forall|i: int| 0 <= i < prices.len() ==> lowest_of(prices).unwrap() <= prices[i],
    decreases prices.len(),
{
    if prices.len() > 0 {
        let before = prices.drop_last();
        lemma_lowest_is_minimum(before);
        let low = lowest_of(prices).unwrap();
        if low == prices.last() {
            assert(prices[prices.len() - 1] == low);
        } else {
            let at = choose|i: int| 0 <= i < before.len() && before[i] == low;
            assert(prices[at] == low);
        }
        assert forall|i: int| 0 <= i < prices.len() implies low <= prices[i] by {
            if i < before.len() {
                assert(before[i] == prices[i]);
            }
        }
    }
}

/// The recorded maximum is a price of the series and no price lies above it.
pub proof fn lemma_highest_is_maximum(prices: Seq<Price>)
    ensures
        prices.len() == 0 <==> highest_of(prices) is None,
        prices.len() > 0 ==> prices.contains(highest_of(prices).unwrap()),
        forall|i: int| 0 <= i < prices.len() ==> highest_of(prices).unwrap() >= prices[i],
    decreases prices.len(),
{
    if prices.len() > 0 {
        let before = prices.drop_last();
        lemma_highest_is_maximum(before);
        let high = highest_of(prices).unwrap();
        if high == prices.last() {
            assert(prices[prices.len() - 1] == high);
        } else {
            let at = choose|i: int| 0 <= i < before.len() && before[i] == high;
            assert(prices[at] == high);
        }
        assert forall|i: int| 0 <= i < prices.len() implies high >= prices[i] by {
            if i < before.len() {
                assert(before[i] == prices[i]);
            }
        }
    }
}

/// Every price of a series lies between its recorded minimum and maximum.
pub proof fn lemma_extremes_bound_series(prices: Seq<Price>, i: int)
    requires
        0 <= i < prices.len(),
    ensures
        lowest_of(prices) is Some,
        highest_of(prices) is Some,
        lowest_of(prices).unwrap() <= prices[i] <= highest_of(prices).unwrap(),
{
    lemma_lowest_is_minimum(prices);
    lemma_highest_is_maximum(prices);
}

/// A new price can only tighten the extremes: the minimum never rises and
/// the maximum never falls.
pub proof fn lemma_extremes_tighten(prices: Seq<Price>, price: Price)
    requires
        prices.len() > 0,
    ensures
        lowest_of(prices.push(price)).unwrap() <= lowest_of(prices).unwrap(),
        highest_of(prices.push(price)).unwrap() >= highest_of(prices).unwrap(),
{
    lemma_lowest_is_minimum(prices);
    lemma_highest_is_maximum(prices);
    assert(prices.push(price).drop_last() == prices);
}

} // verus!
