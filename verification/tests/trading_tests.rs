use algo_trading::date::Date;
use algo_trading::domain::{Position, Quote, Side, Signal, PRICE_SCALE};
use algo_trading::trading::maybe_create_order;

fn spy_position(quantity: i64) -> Position {
    Position {
        broker_id: None,
        symbol: "SPY".to_string(),
        quantity,
        // a cost basis of 10000 currency units
        cost_basis: 10000 * PRICE_SCALE as i128,
        date: 0,
    }
}

fn spy_quote(px_scaled: u64) -> Quote {
    Quote { symbol: "SPY".to_string(), bid: px_scaled, ask: px_scaled, biddate: 0, askdate: 0 }
}

#[test]
fn test_handle_quote() {
    let date = Date::from_ymd(2024, 6, 28).unwrap();
    let quote = spy_quote(80 * PRICE_SCALE);

    // Capital of 10000 less 100 shares at 80 leaves 2000: 25 shares at 80.
    match maybe_create_order(date, Signal::Buy, Some(spy_position(100)), &quote, 10000) {
        Some(order) => {
            assert_eq!(order.symbol, "SPY");
            assert_eq!(order.quantity, 25);
            assert_eq!(order.side, Side::Buy);
            assert_eq!(order.px, Some(80 * PRICE_SCALE));
        }
        None => panic!("Expected an order"),
    }

    // Sells always unwind completely: 100 held means sell 100.
    match maybe_create_order(date, Signal::Sell, Some(spy_position(100)), &quote, 10000) {
        Some(order) => {
            assert_eq!(order.symbol, "SPY");
            assert_eq!(order.quantity, 100);
            assert_eq!(order.side, Side::Sell);
            assert_eq!(order.px, Some(80 * PRICE_SCALE));
        }
        None => panic!("Expected no signal to mean no order"),
    }

    match maybe_create_order(date, Signal::Hold, Some(spy_position(100)), &quote, 10000) {
        Some(_) => panic!("Expected no order"),
        None => {}
    }
}

#[test]
fn buy_with_capital_consumed_yields_nothing() {
    let date = Date::from_ymd(2024, 6, 28).unwrap();
    let quote = spy_quote(80 * PRICE_SCALE);
    // 125 shares at 80 is exactly the 10000 cap: nothing left to buy.
    let r = maybe_create_order(date, Signal::Buy, Some(spy_position(125)), &quote, 10000);
    assert!(r.is_none());
    // And over the cap likewise.
    let r = maybe_create_order(date, Signal::Buy, Some(spy_position(200)), &quote, 10000);
    assert!(r.is_none());
}

#[test]
fn buy_without_position_spends_the_whole_cap() {
    let date = Date::from_ymd(2024, 6, 28).unwrap();
    let quote = spy_quote(80 * PRICE_SCALE);
    let order = maybe_create_order(date, Signal::Buy, None, &quote, 10000).unwrap();
    assert_eq!(order.quantity, 125);
    assert_eq!(order.side, Side::Buy);
}

#[test]
fn buy_at_zero_ask_yields_nothing() {
    let date = Date::from_ymd(2024, 6, 28).unwrap();
    let quote = spy_quote(0);
    assert!(maybe_create_order(date, Signal::Buy, None, &quote, 10000).is_none());
}

#[test]
fn sell_without_position_yields_nothing() {
    let date = Date::from_ymd(2024, 6, 28).unwrap();
    let quote = spy_quote(80 * PRICE_SCALE);
    assert!(maybe_create_order(date, Signal::Sell, None, &quote, 10000).is_none());
    assert!(maybe_create_order(date, Signal::Sell, Some(spy_position(0)), &quote, 10000).is_none());
}

#[test]
fn orders_always_have_positive_quantity() {
    // One share short of affording anything: no zero-quantity order comes out.
    let date = Date::from_ymd(2024, 6, 28).unwrap();
    let quote = spy_quote(80 * PRICE_SCALE);
    // capital 79 < price 80: no order rather than a zero-share order
    assert!(maybe_create_order(date, Signal::Buy, None, &quote, 79).is_none());
    let order = maybe_create_order(date, Signal::Buy, None, &quote, 80).unwrap();
    assert!(order.quantity > 0);
    assert_eq!(order.quantity, 1);
}
