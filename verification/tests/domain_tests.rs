use algo_trading::date::Date;
use algo_trading::domain::{Order, Position, Side, Signal, SymbolData, PRICE_SCALE};
use algo_trading::side_format;
use algo_trading::strategy::Strategy;

fn quote(symbol: &str, px_scaled: u64) -> algo_trading::domain::Quote {
    algo_trading::domain::Quote {
        symbol: symbol.to_string(),
        bid: px_scaled,
        ask: px_scaled,
        biddate: 0,
        askdate: 0,
    }
}

#[test]
fn test_mean_reversion_strategy() {
    let strategy = Strategy::new("mean-reversion", vec!["SPY".to_string()]);
    // mean 100, standard deviation 4.714045207910316, in scaled price units
    let symbol_data = SymbolData {
        mean: 100 * PRICE_SCALE,
        std_dev: 47140,
        symbol: "SPY".to_string(),
        history: Vec::new(),
    };

    // Ask below mean - 2 * std_dev: a buy signal
    let buy_quote = quote("SPY", 90 * PRICE_SCALE);
    assert_eq!(strategy.handle(&buy_quote, &symbol_data), Ok(Signal::Buy));

    // Ask above mean + 2 * std_dev: a sell signal
    let sell_quote = quote("SPY", 150 * PRICE_SCALE);
    assert_eq!(strategy.handle(&sell_quote, &symbol_data), Ok(Signal::Sell));

    // Ask within two standard deviations: no signal
    let hold_quote = quote("SPY", 95 * PRICE_SCALE);
    assert_eq!(strategy.handle(&hold_quote, &symbol_data), Ok(Signal::Hold));
}

#[test]
fn strategy_ignores_other_symbols() {
    let strategy = Strategy::new("mean-reversion", vec!["SPY".to_string()]);
    let symbol_data = SymbolData {
        mean: 100 * PRICE_SCALE,
        std_dev: 47140,
        symbol: "AMZN".to_string(),
        history: Vec::new(),
    };
    let q = quote("AMZN", 90 * PRICE_SCALE);
    assert_eq!(strategy.handle(&q, &symbol_data), Ok(Signal::Hold));
}

#[test]
fn side_wire_format_round_trip() {
    assert_eq!(side_format::serialize(&Side::Buy), "buy");
    assert_eq!(side_format::serialize(&Side::Sell), "sell");
    assert_eq!(side_format::deserialize("buy"), Side::Buy);
    assert_eq!(side_format::deserialize("sell"), Side::Sell);
    // anything that is not "buy" sells
    assert_eq!(side_format::deserialize("BUY"), Side::Sell);
}

#[test]
fn order_and_position_ids() {
    let date = Date::from_ymd(2024, 6, 30).unwrap();
    let order = Order {
        id: None,
        date,
        symbol: "SPY".to_string(),
        side: Side::Buy,
        quantity: 10,
        px: Some(80 * PRICE_SCALE),
    };
    assert_eq!(order.id(), 0);
    let confirmed = order.with_id(42);
    assert_eq!(confirmed.id(), 42);
    assert_eq!(confirmed.symbol, "SPY");
    assert_eq!(confirmed.quantity, 10);

    let position = Position {
        broker_id: None,
        symbol: "SPY".to_string(),
        quantity: 10,
        cost_basis: 800 * PRICE_SCALE as i128,
        date: 0,
    };
    assert_eq!(position.id(), 0);
    let tagged = position.with_id(7);
    assert_eq!(tagged.id(), 7);
    let rebased = tagged.with_cost_basis(123);
    assert_eq!(rebased.cost_basis, 123);
    assert_eq!(rebased.quantity, 10);
}

#[test]
fn side_labels() {
    assert_eq!(Side::Buy.label(), "Buy");
    assert_eq!(Side::Sell.label(), "Sell");
}
