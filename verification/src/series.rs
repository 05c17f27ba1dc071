//! The price history of one symbol, with its running statistics.

use vstd::prelude::*;
use crate::price::Price;
use crate::summary::{
    highest_of, lowest_of, summary_of, tightened_high, tightened_low, StockSummary,
};
use crate::utils::{get_trend, lemma_mean_fits, moving_average};

verus! {

/// One symbol's prices in the order they arrived, the lowest and highest of
/// them, and the summary computed when the last one arrived.
#[derive(Debug)]
pub struct PriceSeries {
    prices: Vec<Price>,
    lowest: Option<Price>,
    highest: Option<Price>,
    summary: Option<StockSummary>,
}

impl View for PriceSeries {
    type V = Seq<Price>;

    /// The prices recorded so far, oldest first.
    closed spec fn view(&self) -> Seq<Price> {
        self.prices@
    }
}

impl PriceSeries {
    /// The stored extremes and the cached summary are those of the prices.
    pub closed spec fn wf(&self) -> bool {
        &&& self.lowest == lowest_of(self.prices@)
        &&& self.highest == highest_of(self.prices@)
        &&& self.summary == summary_of(self.prices@)
    }

    /// A series without prices.
    pub fn new() -> (series: Self)
        ensures
            series.wf(),
            series@ == Seq::<Price>::empty(),
    {
        PriceSeries { prices: Vec::new(), lowest: None, highest: None, summary: None }
    }

    /// Appends `price` to the history.
    fn insert_next(&mut self, price: Price)
        ensures
            final(self).prices@ == old(self).prices@.push(price),
            final(self).lowest == old(self).lowest,
            final(self).highest == old(self).highest,
            final(self).summary == old(self).summary,
    {
        self.prices.push(price);
    }

    /// Lowers the recorded minimum to `price` if `price` lies below it, or
    /// if there is none yet.
    fn insert_lowest(&mut self, price: Price)
        ensures
            final(self).lowest == tightened_low(old(self).lowest, price),
            final(self).prices == old(self).prices,
            final(self).highest == old(self).highest,
            final(self).summary == old(self).summary,
    {
        match self.lowest {
            Some(v) => {
                if price < v {
                    self.lowest = Some(price);
                }
            },
            None => {
                self.lowest = Some(price);
            },
        }
    }

    /// Raises the recorded maximum to `price` if `price` lies above it, or
    /// if there is none yet.
    fn insert_highest(&mut self, price: Price)
        ensures
            final(self).highest == tightened_high(old(self).highest, price),
            final(self).prices == old(self).prices,
            final(self).lowest == old(self).lowest,
            final(self).summary == old(self).summary,
    {
        match self.highest {
            Some(v) => {
                if price > v {
                    self.highest = Some(price);
                }
            },
            None => {
                self.highest = Some(price);
            },
        }
    }

    /// Computes the summary from the prices and the recorded extremes.
    fn get_summary(&self) -> (summary: Option<StockSummary>)
        requires
            self.lowest == lowest_of(self.prices@),
            self.highest == highest_of(self.prices@),
        ensures
            summary == summary_of(self.prices@),
    {
        if self.prices.len() == 0 {
            None
        } else {
            proof {
                lemma_mean_fits(self.prices@);
            }
            let moving_avg = moving_average(&self.prices);
            let trend = get_trend(&self.prices);
            Some(
                StockSummary {
                    trend,
                    lowest_price: self.lowest,
                    highest_price: self.highest,
                    moving_average: moving_avg,
                },
            )
        }
    }

    /// Records one more price: appends it, tightens the extremes and
    /// recomputes the summary.
    pub fn record(&mut self, price: Price)
        requires
            old(self).wf(),
        ensures
            final(self).wf(),
            final(self)@ == old(self)@.push(price),
    {
        self.insert_next(price);
        self.insert_lowest(price);
        self.insert_highest(price);
        assert(self.prices@.drop_last() == old(self).prices@);
        self.summary = self.get_summary();
    }

    /// All prices recorded so far, oldest first.
    pub fn prices(&self) -> (prices: &Vec<Price>)
        ensures
            prices@ == self@,
    {
        &self.prices
    }

    /// The price recorded last, if any.
    pub fn last_price(&self) -> (price: Option<Price>)
        ensures
            price == (if self@.len() == 0 {
                None
            } else {
                Some(self@.last())
            }),
    {
        let n = self.prices.len();
        if n == 0 {
            None
        } else {
            Some(self.prices[n - 1])
        }
    }

    /// The lowest price recorded so far, if any.
    pub fn lowest(&self) -> (price: Option<Price>)
        requires
            self.wf(),
        ensures
            price == lowest_of(self@),
    {
        self.lowest
    }

    /// The highest price recorded so far, if any.
    pub fn highest(&self) -> (price: Option<Price>)
        requires
            self.wf(),
        ensures
            price == highest_of(self@),
    {
        self.highest
    }

    /// The summary computed when the last price arrived; none before the
    /// first one.
    pub fn summary(&self) -> (summary: Option<StockSummary>)
        requires
            self.wf(),
        ensures
            summary == summary_of(self@),
    {
        self.summary
    }
}

} // verus!
