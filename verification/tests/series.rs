use stock::series::PriceSeries;
use stock::{StockTrend, User};

#[test]
fn a_new_series_has_nothing() {
    let series = PriceSeries::new();
    assert!(series.prices().is_empty());
    assert_eq!(series.last_price(), None);
    assert_eq!(series.lowest(), None);
    assert_eq!(series.highest(), None);
    assert!(series.summary().is_none());
}

#[test]
fn a_series_keeps_its_prices_and_their_extremes() {
    let mut series = PriceSeries::new();
    series.record(40);
    assert_eq!(series.lowest(), Some(40));
    assert_eq!(series.highest(), Some(40));
    series.record(10);
    series.record(90);
    series.record(50);
    assert_eq!(series.prices(), &vec![40, 10, 90, 50]);
    assert_eq!(series.last_price(), Some(50));
    assert_eq!(series.lowest(), Some(10));
    assert_eq!(series.highest(), Some(90));
    let summary = series.summary().unwrap();
    assert_eq!(summary.trend, StockTrend::NotEnoughData);
    assert_eq!(summary.lowest_price, Some(10));
    assert_eq!(summary.highest_price, Some(90));
    assert_eq!(summary.moving_average, 47);
}

#[test]
fn a_series_of_equal_prices() {
    let mut series = PriceSeries::new();
    for _ in 0..1001 {
        series.record(7);
    }
    assert_eq!(series.lowest(), Some(7));
    assert_eq!(series.highest(), Some(7));
    let summary = series.summary().unwrap();
    assert_eq!(summary.moving_average, 7);
    assert_eq!(summary.trend, StockTrend::Uptrend);
}

#[test]
fn a_new_user() {
    let user = User::new(9);
    assert_eq!(user.id(), 9);
    assert_eq!(user.credits(), 1024);
    assert!(user.subscriptions().is_empty());
}
