use stock::utils::{get_trend, moving_average};
use stock::{Price, StockTrend};

fn price(units: f64) -> Price {
    (units * 100.0).round() as Price
}

fn units(price: Price) -> f64 {
    price as f64 / 100.0
}

#[test]
fn test_moving_average() {
    let no_prices: Vec<Price> = vec![];
    assert_eq!(units(moving_average(&no_prices)), 0.0);

    let prices: Vec<Price> = vec![1., 2., 3., 4., 5., 6.].into_iter().map(price).collect();
    assert_eq!(units(moving_average(&prices)), 3.5);
}

#[test]
fn test_get_trend() {
    let small_data_set: Vec<Price> = vec![1., 2., 3., 4., 5., 6.].into_iter().map(price).collect();
    assert_eq!(get_trend(&small_data_set), StockTrend::NotEnoughData);

    let large_uptrend_data_set: Vec<Price> =
        (0..1001).into_iter().map(|v| price(v as f64)).collect();
    assert_eq!(get_trend(&large_uptrend_data_set), StockTrend::Uptrend);

    let large_uptrend_data_set: Vec<Price> =
        (0..1124).into_iter().map(|v| price(v as f64)).collect();
    assert_eq!(get_trend(&large_uptrend_data_set), StockTrend::Uptrend);

    let large_downtrend_data_set: Vec<Price> =
        (0..1001).into_iter().map(|v| price(v as f64)).rev().collect();
    assert_eq!(get_trend(&large_downtrend_data_set), StockTrend::Downtrend);

    let large_downtrend_data_set: Vec<Price> =
        (0..1451).into_iter().map(|v| price(v as f64)).rev().collect();
    assert_eq!(get_trend(&large_downtrend_data_set), StockTrend::Downtrend);
}

#[test]
fn moving_average_rounds_down_to_a_whole_price() {
    assert_eq!(moving_average(&vec![1, 2]), 1);
    assert_eq!(moving_average(&vec![7]), 7);
    assert_eq!(moving_average(&vec![0, 0, 1]), 0);
    assert_eq!(moving_average(&vec![10, 20, 33]), 21);
}

#[test]
fn moving_average_of_largest_prices_does_not_overflow() {
    let prices: Vec<Price> = vec![u64::MAX; 1000];
    assert_eq!(moving_average(&prices), u64::MAX);
    let prices: Vec<Price> = vec![u64::MAX, u64::MAX - 2];
    assert_eq!(moving_average(&prices), u64::MAX - 1);
}

#[test]
fn trend_needs_more_than_a_thousand_prices() {
    let empty: Vec<Price> = vec![];
    assert_eq!(get_trend(&empty), StockTrend::NotEnoughData);
    let rising: Vec<Price> = (0..1000).collect();
    assert_eq!(get_trend(&rising), StockTrend::NotEnoughData);
    let falling: Vec<Price> = (0..1000).rev().collect();
    assert_eq!(get_trend(&falling), StockTrend::NotEnoughData);
    let rising: Vec<Price> = (0..1001).collect();
    assert_eq!(get_trend(&rising), StockTrend::Uptrend);
}

#[test]
fn trend_reads_four_points_of_the_last_1001_prices() {
    // The window starts after 99 prices that are passed over.
    let mut prices: Vec<Price> = vec![500; 1100];
    assert_eq!(get_trend(&prices), StockTrend::Uptrend);

    // start > low mid, high mid > end: down.
    prices[99] = 600;
    prices[599] = 600;
    assert_eq!(get_trend(&prices), StockTrend::Downtrend);

    // start > low mid, high mid < end: neither.
    prices[599] = 400;
    assert_eq!(get_trend(&prices), StockTrend::Sideways);

    // start < low mid, high mid > end: neither.
    prices[99] = 400;
    prices[599] = 600;
    assert_eq!(get_trend(&prices), StockTrend::Sideways);

    // start < low mid, high mid < end: up.
    prices[599] = 400;
    assert_eq!(get_trend(&prices), StockTrend::Uptrend);

    // Prices outside the four points do not matter.
    prices[98] = 10_000;
    prices[100] = 0;
    prices[348] = 10_000;
    prices[350] = 0;
    prices[1098] = 0;
    assert_eq!(get_trend(&prices), StockTrend::Uptrend);

    // The second point is 250 after the start.
    prices[349] = 300;
    assert_eq!(get_trend(&prices), StockTrend::Sideways);
}

#[test]
fn constant_series_counts_as_uptrend() {
    let prices: Vec<Price> = vec![42; 1001];
    assert_eq!(get_trend(&prices), StockTrend::Uptrend);
}
