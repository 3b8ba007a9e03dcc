use algo_trading::date::Date;
use algo_trading::domain::{Day, PRICE_SCALE};
use algo_trading::historical::HistoricalData;
use algo_trading::stats::{calculate_sma, compute_symbol_data, isqrt, load_history, Series};

fn bar(symbol: &str, date: Date, close_scaled: u64) -> Day {
    Day {
        symbol: Some(symbol.to_string()),
        date,
        open: close_scaled,
        high: close_scaled,
        low: close_scaled,
        close: close_scaled,
        volume: 1,
    }
}

fn three_bar_history(symbol: &str) -> Vec<Day> {
    vec![
        bar(symbol, Date::from_ymd(2024, 4, 1).unwrap(), 10 * PRICE_SCALE),
        bar(symbol, Date::from_ymd(2024, 4, 2).unwrap(), 10 * PRICE_SCALE),
        bar(symbol, Date::from_ymd(2024, 4, 3).unwrap(), 20 * PRICE_SCALE),
    ]
}

// Closes 10, 10, 20: mean 13.333..., population standard deviation
// 4.714045207910316 — floor-rounded in scaled price units.
#[test]
fn test_load_history() {
    let mut data = HistoricalData::new();
    data.add_symbol("SPY".to_string(), three_bar_history("SPY"));
    let symbols = vec!["SPY".to_string()];
    let end = Date::from_ymd(2024, 4, 3).unwrap();
    let loaded = load_history(end, &symbols, &data);
    assert_eq!(loaded.len(), 1);
    let spy = &loaded[0];
    assert_eq!(spy.symbol, "SPY");
    assert_eq!(spy.mean, 133333);
    assert_eq!(spy.std_dev, 47140);
    assert_eq!(spy.history.len(), 3);
}

#[test]
fn trading_test_load_history() {
    let mut data = HistoricalData::new();
    data.add_symbol("AAPL".to_string(), three_bar_history("AAPL"));
    let symbols = vec!["AAPL".to_string()];
    let end = Date::from_ymd(2024, 4, 30).unwrap();
    let loaded = load_history(end, &symbols, &data);
    let aapl = &loaded[0];
    assert_eq!(aapl.mean, 133333);
    assert_eq!(aapl.std_dev, 47140);
}

#[test]
fn compute_symbol_data_constant_series() {
    let days = vec![
        bar("SPY", Date::from_ymd(2024, 1, 2).unwrap(), 100 * PRICE_SCALE),
        bar("SPY", Date::from_ymd(2024, 1, 3).unwrap(), 100 * PRICE_SCALE),
    ];
    let d = compute_symbol_data("SPY".to_string(), days);
    assert_eq!(d.mean, 100 * PRICE_SCALE);
    assert_eq!(d.std_dev, 0);
}

#[test]
fn isqrt_exact_values() {
    assert_eq!(isqrt(0), 0);
    assert_eq!(isqrt(1), 1);
    assert_eq!(isqrt(3), 1);
    assert_eq!(isqrt(4), 2);
    assert_eq!(isqrt(2222222222), 47140);
    assert_eq!(isqrt(1000000000000000000000000), 1000000000000);
}

#[test]
fn test_calculate_sma() {
    let mut series: Vec<Series> = Vec::new();
    let mut i: u64 = 0;
    while i < 5 {
        let v = (i + 1) * PRICE_SCALE;
        series.push(Series {
            date: Date::from_ymd(2021, 1, (i + 1) as i64).unwrap(),
            open: v,
            close: v,
            high: v,
            low: v,
            volume: v,
        });
        i += 1;
    }
    let sma_values = calculate_sma(&series, 3);
    assert_eq!(sma_values.len(), series.len());
    assert_eq!(sma_values[0], 0);
    assert_eq!(sma_values[1], 0);
    assert_eq!(sma_values[2], 2 * PRICE_SCALE);
    assert_eq!(sma_values[3], 3 * PRICE_SCALE);
    assert_eq!(sma_values[4], 4 * PRICE_SCALE);
}
