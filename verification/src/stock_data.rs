//! The aggregator: one price series for each tracked symbol.

use vstd::prelude::*;
use rand::rngs::ThreadRng;
use rand::Rng;
use crate::price::{scale_draw, scaled_price, Price, PRICE_LIMIT};
use crate::series::PriceSeries;
use crate::summary::{
    highest_of, lemma_extremes_bound_series, lowest_of, summary_of, StockSummary,
};

verus! {

/// The symbols that are tracked. The set is fixed.
pub const STOCKS: [&'static str; 6] = ["GOOG", "APPL", "TSLA", "AMZN", "MSFT", "FB"];

/// How many symbols are tracked.
pub const STOCK_COUNT: usize = 6;

/// The thread-local generator of the `rand` crate. Nothing is known of its
/// state.
#[verifier::external_type_specification]
#[verifier::external_body]
pub struct ExThreadRng(ThreadRng);

/// `Rng::gen` of the `rand` crate, asked for one 32-bit value for each
/// tracked symbol. Nothing is claimed of the values: they are random.
#[verifier::external_body]
fn draw_all(thread_rng: &mut ThreadRng) -> (draws: [u32; 6]) {
    thread_rng.gen()
}

/// What the aggregator holds: the price history of each tracked symbol,
/// oldest price first, keyed by the symbol's name.
pub type Market = Map<Seq<char>, Seq<Price>>;

/// The name of the `i`-th tracked symbol.
pub open spec fn symbol(i: int) -> Seq<char> {
    STOCKS[i]@
}

/// Whether `name` is the name of a tracked symbol.
pub open spec fn is_tracked(name: Seq<char>) -> bool {
    exists|i: int| 0 <= i < STOCK_COUNT && symbol(i) == name
}

/// The position of a tracked symbol among the tracked symbols.
pub open spec fn stock_index(name: Seq<char>) -> int {
    choose|i: int| 0 <= i < STOCK_COUNT && symbol(i) == name
}

/// The market in which every tracked symbol has an empty history.
pub open spec fn empty_market() -> Market {
    Map::new(|name: Seq<char>| is_tracked(name), |name: Seq<char>| Seq::<Price>::empty())
}

/// The market after `price` was recorded for `name`: the price is appended
/// to the history of a tracked symbol, and a name that is not tracked leaves
/// the market as it is.
pub open spec fn recorded(market: Market, name: Seq<char>, price: Price) -> Market {
    if market.contains_key(name) {
        market.insert(name, market[name].push(price))
    } else {
        market
    }
}

/// The market after each quote of a tick was recorded, in the order given.
pub open spec fn after_tick(market: Market, quotes: Seq<(Seq<char>, Price)>) -> Market
    decreases quotes.len(),
{
    if quotes.len() == 0 {
        market
    } else {
        recorded(after_tick(market, quotes.drop_last()), quotes.last().0, quotes.last().1)
    }
}

/// The prices that a tick quotes for `name`, in the order given.
pub open spec fn quoted_for(quotes: Seq<(Seq<char>, Price)>, name: Seq<char>) -> Seq<Price>
    decreases quotes.len(),
{
    if quotes.len() == 0 {
        Seq::empty()
    } else {
        let earlier = quoted_for(quotes.drop_last(), name);
        if quotes.last().0 == name {
            earlier.push(quotes.last().1)
        } else {
            earlier
        }
    }
}

/// The quotes of a tick as the model sees them: names and prices.
pub open spec fn quotes_of(prices: Seq<(String, Price)>) -> Seq<(Seq<char>, Price)> {
    Seq::new(prices.len(), |i: int| (prices[i].0@, prices[i].1))
}

/// Whether `after` is `before` with exactly one more price for every symbol.
pub open spec fn one_tick(before: Market, after: Market) -> bool {
    &&& after.dom() == before.dom()
    &&& forall|name: Seq<char>| #[trigger]
        before.contains_key(name) ==> after[name].len() > 0 && after[name].drop_last()
            == before[name]
}

/// The last price of `name` in `market`, if the symbol is tracked and has
/// one.
pub open spec fn last_price_in(market: Market, name: Seq<char>) -> Option<Price> {
    if market.contains_key(name) && market[name].len() > 0 {
        Some(market[name].last())
    } else {
        None
    }
}

/// The summary of `name` in `market`, if the symbol is tracked and has a
/// price.
pub open spec fn summary_in(market: Market, name: Seq<char>) -> Option<StockSummary> {
    if market.contains_key(name) {
        summary_of(market[name])
    } else {
        None
    }
}

/// No two tracked symbols share a name.
pub proof fn lemma_symbols_distinct()
    ensures
        forall|i: int, j: int|
            0 <= i < STOCK_COUNT && 0 <= j < STOCK_COUNT && symbol(i) == symbol(j) ==> i == j,
{
    reveal_strlit("GOOG");
    reveal_strlit("APPL");
    reveal_strlit("TSLA");
    reveal_strlit("AMZN");
    reveal_strlit("MSFT");
    reveal_strlit("FB");
    assert(symbol(0)[0] == 'G');
    assert(symbol(1)[0] == 'A' && symbol(1)[1] == 'P');
    assert(symbol(2)[0] == 'T');
    assert(symbol(3)[0] == 'A' && symbol(3)[1] == 'M');
    assert(symbol(4)[0] == 'M');
    assert(symbol(5)[0] == 'F');
}

/// A tracked symbol's position is the only one with its name.
pub proof fn lemma_stock_index(i: int)
    requires
        0 <= i < STOCK_COUNT,
    ensures
        is_tracked(symbol(i)),
        stock_index(symbol(i)) == i,
{
    lemma_symbols_distinct();
}

/// Looks `stock` up among the tracked symbols.
pub fn find_stock(stock: &str) -> (found: Option<usize>)
    ensures
        found is Some <==> is_tracked(stock@),
        found is Some ==> found.unwrap() < STOCK_COUNT && found.unwrap() == stock_index(stock@)
            && symbol(found.unwrap() as int) == stock@,
{
    let mut i: usize = 0;
    while i < STOCK_COUNT
        invariant
            i <= STOCK_COUNT,
            forall|j: int| 0 <= j < i ==> symbol(j) != stock@,
        decreases STOCK_COUNT - i,
    {
        if STOCKS[i].eq(stock) {
            proof {
                lemma_stock_index(i as int);
            }
            return Some(i);
        }
        i += 1;
    }
    None
}

/// The price history and running statistics of every tracked symbol.
#[derive(Debug)]
pub struct StockData {
    series: Vec<PriceSeries>,
}

impl View for StockData {
    type V = Market;

    /// The history of each tracked symbol, by name.
    closed spec fn view(&self) -> Market {
        Map::new(
            |name: Seq<char>| is_tracked(name),
            |name: Seq<char>| self.series@[stock_index(name)]@,
        )
    }
}

impl StockData {
    /// There is one series for each tracked symbol, and each is consistent
    /// with its statistics.
    pub closed spec fn wf(&self) -> bool {
        &&& self.series@.len() == STOCK_COUNT
        &&& forall|i: int| 0 <= i < STOCK_COUNT ==> (#[trigger] self.series@[i]).wf()
    }

    /// The market holds the tracked symbols and no others.
    pub proof fn lemma_tracks_universe(&self)
        ensures
            forall|name: Seq<char>| #[trigger] self@.contains_key(name) <==> is_tracked(name),
    {
    }

    /// The aggregator before the first tick: every tracked symbol has an
    /// empty history, and so neither extremes nor a summary.
    pub fn initialize() -> (data: Self)
        ensures
            data.wf(),
            data@ == empty_market(),
    {
        let mut series: Vec<PriceSeries> = Vec::new();
        let mut i: usize = 0;
        while i < STOCK_COUNT
            invariant
                i <= STOCK_COUNT,
                series@.len() == i,
                forall|j: int|
                    0 <= j < i ==> (#[trigger] series@[j]).wf() && series@[j]@.len() == 0,
            decreases STOCK_COUNT - i,
        {
            series.push(PriceSeries::new());
            i += 1;
        }
        let data = StockData { series };
        assert forall|name: Seq<char>| is_tracked(name) implies data@[name] == Seq::<
            Price,
        >::empty() by {
            assert(data.series@[stock_index(name)]@ =~= Seq::<Price>::empty());
        }
        assert(data@ =~= empty_market());
        data
    }

    /// Records `price` for `stock`. Tells whether the symbol is tracked;
    /// nothing changes if it is not.
    pub fn record(&mut self, stock: &str, price: Price) -> (known: bool)
        requires
            old(self).wf(),
        ensures
            final(self).wf(),
            known == is_tracked(stock@),
            final(self)@ == recorded(old(self)@, stock@, price),
    {
        match find_stock(stock) {
            Some(i) => {
                self.series[i].record(price);
                proof {
                    lemma_symbols_distinct();
                    assert(self@ =~= recorded(old(self)@, stock@, price));
                }
                true
            },
            None => false,
        }
    }

    /// Applies one tick: records each quote in the order given. A quote for
    /// a name that is not tracked is passed over, and a tracked symbol
    /// without a quote keeps its history.
    pub fn apply_tick(&mut self, prices: &Vec<(String, Price)>)
        requires
            old(self).wf(),
        ensures
            final(self).wf(),
            final(self)@ == after_tick(old(self)@, quotes_of(prices@)),
    {
        let ghost quotes = quotes_of(prices@);
        let mut k: usize = 0;
        while k < prices.len()
            invariant
                k <= prices.len(),
                quotes == quotes_of(prices@),
                self.wf(),
                self@ == after_tick(old(self)@, quotes.take(k as int)),
            decreases prices.len() - k,
        {
            assert(quotes.take(k + 1).drop_last() == quotes.take(k as int));
            self.record(prices[k].0.as_str(), prices[k].1);
            k += 1;
        }
        assert(quotes.take(k as int) == quotes);
    }

    /// Records for every tracked symbol the price that its draw stands
    /// for: the `i`-th draw, scaled into `[0, PRICE_LIMIT)`, goes to the
    /// `i`-th symbol of `STOCKS`.
    pub fn record_draws(&mut self, draws: &[u32; 6])
        requires
            old(self).wf(),
        ensures
            final(self).wf(),
            final(self)@.dom() == old(self)@.dom(),
            forall|i: int|
                0 <= i < STOCK_COUNT ==> final(self)@[#[trigger] symbol(i)] == old(self)@[symbol(
                    i,
                )].push(scaled_price(draws@[i])),
            one_tick(old(self)@, final(self)@),
            forall|name: Seq<char>| #[trigger]
                is_tracked(name) ==> final(self)@[name].last() < PRICE_LIMIT,
    {
        let mut i: usize = 0;
        while i < STOCK_COUNT
            invariant
                i <= STOCK_COUNT,
                self.series@.len() == STOCK_COUNT,
                forall|j: int| 0 <= j < STOCK_COUNT ==> (#[trigger] self.series@[j]).wf(),
                forall|j: int|
                    0 <= j < i ==> (#[trigger] self.series@[j])@ == old(self).series@[j]@.push(
                        scaled_price(draws@[j]),
                    ),
                forall|j: int|
                    i <= j < STOCK_COUNT ==> (#[trigger] self.series@[j])@ == old(self).series@[j]@,
            decreases STOCK_COUNT - i,
        {
            let next_price = scale_draw(draws[i]);
            self.series[i].record(next_price);
            i += 1;
        }
        proof {
            assert forall|name: Seq<char>| #[trigger] is_tracked(name) implies self@[name].len() > 0
                && self@[name].drop_last() == old(self)@[name] && self@[name].last()
                < PRICE_LIMIT by {
                let j = stock_index(name);
                let before = old(self).series@[j]@;
                let price = scaled_price(draws@[j]);
                assert(self.series@[j]@ == before.push(price));
                assert(before.push(price).drop_last() == before);
            }
            assert(self@.dom() =~= old(self)@.dom());
            assert forall|i: int| 0 <= i < STOCK_COUNT implies self@[#[trigger] symbol(i)] == old(
                self,
            )@[symbol(i)].push(scaled_price(draws@[i])) by {
                lemma_stock_index(i);
            }
        }
    }

    /// Draws a random price below `PRICE_LIMIT` for every tracked symbol
    /// and records it: one tick.
    pub fn generate_next_tick(&mut self, thread_rng: &mut ThreadRng)
        requires
            old(self).wf(),
        ensures
            final(self).wf(),
            one_tick(old(self)@, final(self)@),
            forall|name: Seq<char>| #[trigger]
                is_tracked(name) ==> final(self)@[name].last() < PRICE_LIMIT,
    {
        let next_prices = draw_all(thread_rng);
        self.record_draws(&next_prices);
    }

    /// The history of `stock`, oldest price first; none for a name that is
    /// not tracked.
    pub fn get_prices(&self, stock: &str) -> (prices: Option<&Vec<Price>>)
        requires
            self.wf(),
        ensures
            prices is Some <==> self@.contains_key(stock@),
            prices is Some ==> prices.unwrap()@ == self@[stock@],
    {
        match find_stock(stock) {
            Some(i) => Some(self.series[i].prices()),
            None => None,
        }
    }

    /// The price that `stock` had at the last tick; none before its first
    /// tick, and none for a name that is not tracked.
    pub fn get_last_price(&self, stock: &str) -> (price: Option<Price>)
        requires
            self.wf(),
        ensures
            price == last_price_in(self@, stock@),
    {
        match find_stock(stock) {
            Some(i) => self.series[i].last_price(),
            None => None,
        }
    }

    /// The lowest price that `stock` ever had; none before its first tick,
    /// and none for a name that is not tracked.
    pub fn get_lowest_price(&self, stock: &str) -> (price: Option<Price>)
        requires
            self.wf(),
        ensures
            price == (if self@.contains_key(stock@) {
                lowest_of(self@[stock@])
            } else {
                None
            }),
    {
        match find_stock(stock) {
            Some(i) => self.series[i].lowest(),
            None => None,
        }
    }

    /// The highest price that `stock` ever had; none before its first tick,
    /// and none for a name that is not tracked.
    pub fn get_highest_price(&self, stock: &str) -> (price: Option<Price>)
        requires
            self.wf(),
        ensures
            price == (if self@.contains_key(stock@) {
                highest_of(self@[stock@])
            } else {
                None
            }),
    {
        match find_stock(stock) {
            Some(i) => self.series[i].highest(),
            None => None,
        }
    }

    /// The summary of `stock` as of its last tick; none before its first
    /// tick, and none for a name that is not tracked.
    pub fn get_summary(&self, stock: &str) -> (summary: Option<StockSummary>)
        requires
            self.wf(),
        ensures
            summary == summary_in(self@, stock@),
    {
        match find_stock(stock) {
            Some(i) => self.series[i].summary(),
            None => None,
        }
    }

    /// The summaries of all tracked symbols, in the order of `STOCKS`; the
    /// summary of a symbol that has no price yet is none.
    pub fn get_summaries(&self) -> (summaries: Vec<(&'static str, Option<StockSummary>)>)
        requires
            self.wf(),
        ensures
            summaries@.len() == STOCK_COUNT,
            forall|i: int|
                0 <= i < STOCK_COUNT ==> (#[trigger] summaries@[i]).0@ == symbol(i)
                    && summaries@[i].1 == summary_in(self@, symbol(i)),
    {
        let mut summaries: Vec<(&'static str, Option<StockSummary>)> = Vec::new();
        let mut i: usize = 0;
        while i < STOCK_COUNT
            invariant
                i <= STOCK_COUNT,
                self.wf(),
                summaries@.len() == i,
                forall|j: int|
                    0 <= j < i ==> (#[trigger] summaries@[j]).0@ == symbol(j) && summaries@[j].1
                        == summary_in(self@, symbol(j)),
            decreases STOCK_COUNT - i,
        {
            proof {
                lemma_stock_index(i as int);
            }
            summaries.push((STOCKS[i], self.series[i].summary()));
            i += 1;
        }
        summaries
    }
}

/// After every tick, each price of a tracked symbol lies between the lowest
/// and the highest price that the aggregator reports for it.
pub proof fn lemma_prices_within_extremes(market: Market, name: Seq<char>, i: int)
    requires
        market.contains_key(name),
        0 <= i < market[name].len(),
    ensures
        lowest_of(market[name]) is Some,
        highest_of(market[name]) is Some,
        lowest_of(market[name]).unwrap() <= market[name][i] <= highest_of(market[name]).unwrap(),
{
    lemma_extremes_bound_series(market[name], i);
}

/// A run of ticks adds one price per tick: if each market of `history`
/// follows from the one before it by one tick, the history of every symbol
/// has grown by as many prices as there were ticks.
pub proof fn lemma_ticks_are_counted(history: Seq<Market>, name: Seq<char>)
    requires
        history.len() > 0,
        history[0].contains_key(name),
        forall|k: int|
            0 <= k < history.len() - 1 ==> one_tick(#[trigger] history[k], history[k + 1]),
    ensures
        history.last().contains_key(name),
        history.last()[name].len() == history[0][name].len() + history.len() - 1,
    decreases history.len(),
{
    if history.len() > 1 {
        let earlier = history.drop_last();
        assert forall|k: int| 0 <= k < earlier.len() - 1 implies one_tick(
            #[trigger] earlier[k],
            earlier[k + 1],
        ) by {
            assert(one_tick(history[k], history[k + 1]));
        }
        lemma_ticks_are_counted(earlier, name);
        let k = history.len() - 2;
        assert(one_tick(history[k], history[k + 1]));
        assert(earlier.last() == history[k]);
        assert(history[k].contains_key(name));
    }
}

/// A tick touches each symbol on its own: the market keeps its symbols, and
/// the history of each grows by the prices that the tick quotes for it, and
/// by nothing else.
pub proof fn lemma_tick_appends_quotes(
    market: Market,
    quotes: Seq<(Seq<char>, Price)>,
    name: Seq<char>,
)
    ensures
        after_tick(market, quotes).dom() == market.dom(),
        market.contains_key(name) ==> after_tick(market, quotes)[name] == market[name]
            + quoted_for(quotes, name),
    decreases quotes.len(),
{
    if quotes.len() == 0 {
        assert(market[name] + quoted_for(quotes, name) == market[name]);
    } else {
        let earlier = after_tick(market, quotes.drop_last());
        lemma_tick_appends_quotes(market, quotes.drop_last(), name);
        lemma_tick_appends_quotes(market, quotes.drop_last(), quotes.last().0);
        assert(after_tick(market, quotes).dom() =~= market.dom());
        if market.contains_key(name) {
            let before = quoted_for(quotes.drop_last(), name);
            if quotes.last().0 == name {
                assert((market[name] + before).push(quotes.last().1) == market[name]
                    + before.push(quotes.last().1));
            }
        }
    }
}

/// A tick with exactly one quote for a tracked symbol, and none for any
/// other name, adds that one price to the symbol's history.
pub proof fn lemma_tick_of_one_quote(market: Market, name: Seq<char>, price: Price)
    requires
        market.contains_key(name),
    ensures
        after_tick(market, seq![(name, price)]) == market.insert(name, market[name].push(price)),
{
    let quotes = seq![(name, price)];
    assert(quotes.drop_last() =~= Seq::<(Seq<char>, Price)>::empty());
    assert(after_tick(market, quotes.drop_last()) == market);
}

} // verus!
