use stock::price::PRICE_LIMIT;
use stock::stock_data::{find_stock, STOCKS};
use stock::{Price, StockData, StockTrend};

#[test]
fn test_stock_data() {
    let mut stock_data = StockData::initialize();
    let stock = "APPL";

    let mut thread_rng = rand::thread_rng();

    assert!(stock_data.get_prices(stock).is_some());
    assert!(stock_data.get_lowest_price(stock).is_none());
    assert!(stock_data.get_highest_price(stock).is_none());

    // first tick happens
    stock_data.generate_next_tick(&mut thread_rng);

    assert!(stock_data.get_lowest_price(stock).is_some());
    assert!(stock_data.get_highest_price(stock).is_some());
    assert_eq!(stock_data.get_prices(stock).unwrap().len(), 1);

    // second tick happens
    stock_data.generate_next_tick(&mut thread_rng);
    assert_eq!(stock_data.get_prices(stock).unwrap().len(), 2);

    // 100 more ticks happen
    for _ in 0..100 {
        stock_data.generate_next_tick(&mut thread_rng);
    }

    assert_eq!(stock_data.get_prices(stock).unwrap().len(), 102);

    let lowest = stock_data.get_lowest_price(stock).unwrap();
    let highest = stock_data.get_highest_price(stock).unwrap();

    for price in stock_data.get_prices(stock).unwrap() {
        assert!(lowest <= *price);
        assert!(highest >= *price);
    }

    let summary = stock_data.get_summary(stock);
    assert!(summary.is_some());
    let summary = summary.unwrap();

    assert!(summary.highest_price.is_some());
    assert!(summary.lowest_price.is_some());
    assert_eq!(summary.highest_price.unwrap(), highest);
    assert_eq!(summary.lowest_price.unwrap(), lowest);
    assert!(summary.moving_average as f64 / 100.0 > 0.0);
}

#[test]
fn lib_test_stock_data() {
    let mut stock_data = StockData::initialize();
    let mut thread_rng = rand::thread_rng();
    let stock = "APPL";

    assert!(stock_data.get_prices(stock).is_some());
    assert!(stock_data.get_lowest_price(stock).is_none());
    assert!(stock_data.get_highest_price(stock).is_none());

    // first tick happens
    stock_data.generate_next_tick(&mut thread_rng);

    assert!(stock_data.get_lowest_price(stock).is_some());
    assert!(stock_data.get_highest_price(stock).is_some());
    assert_eq!(stock_data.get_prices(stock).unwrap().len(), 1);

    // second tick happens
    stock_data.generate_next_tick(&mut thread_rng);
    assert_eq!(stock_data.get_prices(stock).unwrap().len(), 2);

    // 100 more ticks happen
    for _ in 0..100 {
        stock_data.generate_next_tick(&mut thread_rng);
    }

    assert_eq!(stock_data.get_prices(stock).unwrap().len(), 102);

    let lowest = stock_data.get_lowest_price(stock).unwrap();
    let highest = stock_data.get_highest_price(stock).unwrap();

    for price in stock_data.get_prices(stock).unwrap() {
        assert!(lowest <= *price);
        assert!(highest >= *price);
    }
}

fn quotes(list: &[(&str, Price)]) -> Vec<(String, Price)> {
    list.iter().map(|(name, price)| (name.to_string(), *price)).collect()
}

#[test]
fn initialize_tracks_six_symbols_without_prices() {
    let stock_data = StockData::initialize();
    assert_eq!(STOCKS, ["GOOG", "APPL", "TSLA", "AMZN", "MSFT", "FB"]);
    for stock in STOCKS {
        assert_eq!(stock_data.get_prices(stock), Some(&vec![]));
        assert_eq!(stock_data.get_last_price(stock), None);
        assert_eq!(stock_data.get_lowest_price(stock), None);
        assert_eq!(stock_data.get_highest_price(stock), None);
        assert!(stock_data.get_summary(stock).is_none());
    }
    let summaries = stock_data.get_summaries();
    assert_eq!(summaries.len(), 6);
    for (i, (name, summary)) in summaries.iter().enumerate() {
        assert_eq!(*name, STOCKS[i]);
        assert!(summary.is_none());
    }
}

#[test]
fn find_stock_gives_the_position_of_a_tracked_symbol() {
    for (i, stock) in STOCKS.iter().enumerate() {
        assert_eq!(find_stock(stock), Some(i));
    }
    assert_eq!(find_stock("UNKNOWN"), None);
    assert_eq!(find_stock(""), None);
    assert_eq!(find_stock("goog"), None);
    assert_eq!(find_stock("GOO"), None);
    assert_eq!(find_stock("GOOGL"), None);
    assert_eq!(find_stock(" FB"), None);
}

#[test]
fn unknown_symbol_has_nothing() {
    let mut stock_data = StockData::initialize();
    let mut thread_rng = rand::thread_rng();
    stock_data.generate_next_tick(&mut thread_rng);
    assert!(stock_data.get_prices("UNKNOWN").is_none());
    assert_eq!(stock_data.get_last_price("UNKNOWN"), None);
    assert_eq!(stock_data.get_lowest_price("UNKNOWN"), None);
    assert_eq!(stock_data.get_highest_price("UNKNOWN"), None);
    assert!(stock_data.get_summary("UNKNOWN").is_none());
}

#[test]
fn record_appends_and_tightens_the_extremes() {
    let mut stock_data = StockData::initialize();
    assert!(stock_data.record("TSLA", 500));
    assert_eq!(stock_data.get_lowest_price("TSLA"), Some(500));
    assert_eq!(stock_data.get_highest_price("TSLA"), Some(500));
    assert_eq!(stock_data.get_last_price("TSLA"), Some(500));

    assert!(stock_data.record("TSLA", 700));
    assert_eq!(stock_data.get_lowest_price("TSLA"), Some(500));
    assert_eq!(stock_data.get_highest_price("TSLA"), Some(700));

    assert!(stock_data.record("TSLA", 300));
    assert_eq!(stock_data.get_lowest_price("TSLA"), Some(300));
    assert_eq!(stock_data.get_highest_price("TSLA"), Some(700));

    assert!(stock_data.record("TSLA", 600));
    assert_eq!(stock_data.get_lowest_price("TSLA"), Some(300));
    assert_eq!(stock_data.get_highest_price("TSLA"), Some(700));
    assert_eq!(stock_data.get_last_price("TSLA"), Some(600));
    assert_eq!(stock_data.get_prices("TSLA"), Some(&vec![500, 700, 300, 600]));

    let summary = stock_data.get_summary("TSLA").unwrap();
    assert_eq!(summary.trend, StockTrend::NotEnoughData);
    assert_eq!(summary.lowest_price, Some(300));
    assert_eq!(summary.highest_price, Some(700));
    assert_eq!(summary.moving_average, 525);

    // The other symbols are untouched.
    assert_eq!(stock_data.get_prices("GOOG"), Some(&vec![]));
    assert!(stock_data.get_summary("GOOG").is_none());
}

#[test]
fn record_passes_over_a_name_that_is_not_tracked() {
    let mut stock_data = StockData::initialize();
    assert!(!stock_data.record("UNKNOWN", 500));
    for stock in STOCKS {
        assert_eq!(stock_data.get_prices(stock), Some(&vec![]));
    }
    assert!(stock_data.get_prices("UNKNOWN").is_none());
}

#[test]
fn extreme_prices_are_recorded() {
    let mut stock_data = StockData::initialize();
    stock_data.record("FB", 0);
    stock_data.record("FB", u64::MAX);
    assert_eq!(stock_data.get_lowest_price("FB"), Some(0));
    assert_eq!(stock_data.get_highest_price("FB"), Some(u64::MAX));
    assert_eq!(stock_data.get_summary("FB").unwrap().moving_average, u64::MAX / 2);
}

#[test]
fn apply_tick_records_each_quote_in_order() {
    let mut stock_data = StockData::initialize();
    stock_data.apply_tick(&quotes(&[
        ("GOOG", 100),
        ("APPL", 200),
        ("TSLA", 300),
        ("AMZN", 400),
        ("MSFT", 500),
        ("FB", 600),
    ]));
    assert_eq!(stock_data.get_last_price("GOOG"), Some(100));
    assert_eq!(stock_data.get_last_price("APPL"), Some(200));
    assert_eq!(stock_data.get_last_price("TSLA"), Some(300));
    assert_eq!(stock_data.get_last_price("AMZN"), Some(400));
    assert_eq!(stock_data.get_last_price("MSFT"), Some(500));
    assert_eq!(stock_data.get_last_price("FB"), Some(600));
    for stock in STOCKS {
        assert_eq!(stock_data.get_prices(stock).unwrap().len(), 1);
    }
}

#[test]
fn apply_tick_without_a_symbol_leaves_that_symbol_alone() {
    let mut stock_data = StockData::initialize();
    stock_data.apply_tick(&quotes(&[("GOOG", 100), ("FB", 600)]));
    stock_data.apply_tick(&quotes(&[("GOOG", 50), ("UNKNOWN", 1), ("APPL", 70)]));
    assert_eq!(stock_data.get_prices("GOOG"), Some(&vec![100, 50]));
    assert_eq!(stock_data.get_prices("FB"), Some(&vec![600]));
    assert_eq!(stock_data.get_prices("APPL"), Some(&vec![70]));
    assert_eq!(stock_data.get_prices("TSLA"), Some(&vec![]));
    assert_eq!(stock_data.get_lowest_price("GOOG"), Some(50));
    assert_eq!(stock_data.get_highest_price("GOOG"), Some(100));
    assert!(stock_data.get_summary("TSLA").is_none());
    assert!(stock_data.get_prices("UNKNOWN").is_none());
}

#[test]
fn apply_tick_of_nothing_changes_nothing() {
    let mut stock_data = StockData::initialize();
    stock_data.apply_tick(&quotes(&[("GOOG", 100)]));
    stock_data.apply_tick(&vec![]);
    assert_eq!(stock_data.get_prices("GOOG"), Some(&vec![100]));
}

#[test]
fn series_length_is_the_number_of_ticks() {
    let mut stock_data = StockData::initialize();
    let mut thread_rng = rand::thread_rng();
    for n in 1..=50 {
        stock_data.generate_next_tick(&mut thread_rng);
        for stock in STOCKS {
            assert_eq!(stock_data.get_prices(stock).unwrap().len(), n);
        }
    }
}

#[test]
fn generated_prices_stay_below_the_limit() {
    let mut stock_data = StockData::initialize();
    let mut thread_rng = rand::thread_rng();
    for _ in 0..200 {
        stock_data.generate_next_tick(&mut thread_rng);
    }
    assert_eq!(PRICE_LIMIT, 10_000);
    let mut distinct = std::collections::HashSet::new();
    for stock in STOCKS {
        for price in stock_data.get_prices(stock).unwrap() {
            assert!(*price < PRICE_LIMIT);
            distinct.insert(*price);
        }
    }
    // 1200 draws from 10000 prices are not all the same.
    assert!(distinct.len() > 100);
}

#[test]
fn extremes_bound_every_price_after_every_tick() {
    let mut stock_data = StockData::initialize();
    let mut thread_rng = rand::thread_rng();
    let mut last_lowest: Option<Price> = None;
    let mut last_highest: Option<Price> = None;
    for _ in 0..100 {
        stock_data.generate_next_tick(&mut thread_rng);
        let lowest = stock_data.get_lowest_price("MSFT").unwrap();
        let highest = stock_data.get_highest_price("MSFT").unwrap();
        let prices = stock_data.get_prices("MSFT").unwrap();
        assert_eq!(lowest, *prices.iter().min().unwrap());
        assert_eq!(highest, *prices.iter().max().unwrap());
        if let Some(before) = last_lowest {
            assert!(lowest <= before);
        }
        if let Some(before) = last_highest {
            assert!(highest >= before);
        }
        last_lowest = Some(lowest);
        last_highest = Some(highest);
        assert_eq!(stock_data.get_last_price("MSFT"), prices.last().copied());
    }
}

#[test]
fn summary_follows_every_tick() {
    let mut stock_data = StockData::initialize();
    for v in 0..1001u64 {
        stock_data.apply_tick(&quotes(&[("AMZN", v * 100), ("GOOG", (1000 - v) * 100)]));
        let summary = stock_data.get_summary("AMZN").unwrap();
        assert_eq!(summary.lowest_price, Some(0));
        assert_eq!(summary.highest_price, Some(v * 100));
        assert_eq!(summary.moving_average, v * 100 / 2);
        if v < 1000 {
            assert_eq!(summary.trend, StockTrend::NotEnoughData);
        }
    }
    assert_eq!(stock_data.get_summary("AMZN").unwrap().trend, StockTrend::Uptrend);
    assert_eq!(stock_data.get_summary("GOOG").unwrap().trend, StockTrend::Downtrend);
    let summaries = stock_data.get_summaries();
    assert_eq!(summaries[0].0, "GOOG");
    assert_eq!(summaries[0].1.unwrap().trend, StockTrend::Downtrend);
    assert!(summaries[1].1.is_none());
    assert_eq!(summaries[3].0, "AMZN");
    assert_eq!(summaries[3].1.unwrap().moving_average, 50_000);
}

#[test]
fn draws_become_prices_symbol_by_symbol() {
    let mut stock_data = StockData::initialize();
    stock_data.record_draws(&[0, 1 << 31, 1 << 30, u32::MAX, 429_497, 3_000_000_000]);
    assert_eq!(stock_data.get_prices("GOOG"), Some(&vec![0]));
    assert_eq!(stock_data.get_prices("APPL"), Some(&vec![5_000]));
    assert_eq!(stock_data.get_prices("TSLA"), Some(&vec![2_500]));
    assert_eq!(stock_data.get_prices("AMZN"), Some(&vec![9_999]));
    assert_eq!(stock_data.get_prices("MSFT"), Some(&vec![1]));
    assert_eq!(stock_data.get_prices("FB"), Some(&vec![6_984]));

    stock_data.record_draws(&[u32::MAX, 0, 0, 0, 0, 0]);
    assert_eq!(stock_data.get_prices("GOOG"), Some(&vec![0, 9_999]));
    assert_eq!(stock_data.get_prices("FB"), Some(&vec![6_984, 0]));
    assert_eq!(stock_data.get_lowest_price("FB"), Some(0));
    assert_eq!(stock_data.get_highest_price("FB"), Some(6_984));
}
