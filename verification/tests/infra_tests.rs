use algo_trading::channel::QuoteChannel;
use algo_trading::config::{capital_for, AppConfig, Strategy};
use algo_trading::date::Date;
use algo_trading::domain::{Order, Position, Quote, RealizedPnL, Side, PRICE_SCALE};
use algo_trading::http::{backoff, RETRY_BUDGET_MS};
use algo_trading::market_data::{
    action_delay_ms, dispatcher_step, DispatcherAction, DispatcherEvent, DispatcherPhase,
    MarketData, CONNECT_RETRY_DELAY_MS, RECONNECT_DELAY_MS,
};
use algo_trading::persistence::{Persistable, StoreModel, UpsertKey};
use algo_trading::util::{format_ymd, i64_to_string, print_map, u64_to_string};

fn quote(symbol: &str, px_scaled: u64) -> Quote {
    Quote { symbol: symbol.to_string(), bid: px_scaled, ask: px_scaled, biddate: 0, askdate: 0 }
}

#[test]
fn quote_channel_is_first_in_first_out() {
    let mut chan = QuoteChannel::new();
    assert_eq!(chan.len(), 0);
    assert!(chan.try_recv().is_none());
    chan.send(quote("SPY", 10 * PRICE_SCALE));
    chan.send(quote("AAPL", 20 * PRICE_SCALE));
    assert_eq!(chan.len(), 2);
    let first = chan.try_recv().unwrap();
    assert_eq!(first.symbol, "SPY");
    assert_eq!(first.bid, 10 * PRICE_SCALE);
    let second = chan.try_recv().unwrap();
    assert_eq!(second.symbol, "AAPL");
    assert!(chan.try_recv().is_none());
}

#[test]
fn dispatcher_delivers_in_read_order() {
    let mut md = MarketData::new();
    let t1 = md.subscribe();
    let t2 = md.subscribe();
    assert_ne!(t1, t2);
    md.dispatch(&quote("SPY", 1 * PRICE_SCALE));
    md.dispatch(&quote("SPY", 2 * PRICE_SCALE));
    // each subscriber sees both quotes, in the order they were read
    for t in [t1, t2] {
        let a = md.poll(t).expect("first quote");
        let b = md.poll(t).expect("second quote");
        assert_eq!(a.bid, 1 * PRICE_SCALE);
        assert_eq!(b.bid, 2 * PRICE_SCALE);
        assert!(md.poll(t).is_none());
    }
}

#[test]
fn late_subscriber_sees_only_later_quotes() {
    let mut md = MarketData::new();
    let t1 = md.subscribe();
    md.dispatch(&quote("SPY", 1 * PRICE_SCALE));
    let t2 = md.subscribe();
    md.dispatch(&quote("SPY", 2 * PRICE_SCALE));
    assert_eq!(md.poll(t1).unwrap().bid, 1 * PRICE_SCALE);
    assert_eq!(md.poll(t1).unwrap().bid, 2 * PRICE_SCALE);
    assert_eq!(md.poll(t2).unwrap().bid, 2 * PRICE_SCALE);
    assert!(md.poll(t2).is_none());
}

#[test]
fn duplicate_unsubscribe_fails_with_its_own_kind() {
    let mut md = MarketData::new();
    let t = md.subscribe();
    assert!(md.unsubscribe(t).is_ok());
    match md.unsubscribe(t) {
        Ok(_) => panic!("Expected the duplicate unsubscribe to fail"),
        Err(e) => assert_eq!(e, "No such subscriber found"),
    }
}

#[test]
fn reconnect_reenters_connect_within_one_backoff() {
    // A read failure while reading, without shutdown, goes straight back to
    // the authenticate-and-connect step after the short reconnect sleep.
    let (phase, action) = dispatcher_step(DispatcherPhase::Reading, DispatcherEvent::ReadFailed, false);
    assert_eq!(phase, DispatcherPhase::Connecting);
    assert_eq!(action, DispatcherAction::SleepReconnect);
    assert_eq!(action_delay_ms(action), RECONNECT_DELAY_MS);

    // A connect failure backs off longer and tries again.
    let (phase, action) =
        dispatcher_step(DispatcherPhase::Connecting, DispatcherEvent::ConnectFailed, false);
    assert_eq!(phase, DispatcherPhase::Connecting);
    assert_eq!(action_delay_ms(action), CONNECT_RETRY_DELAY_MS);

    // Once shutdown is observed, the loop exits instead.
    let (phase, action) = dispatcher_step(DispatcherPhase::Reading, DispatcherEvent::ReadFailed, true);
    assert_eq!(phase, DispatcherPhase::Stopped);
    assert_eq!(action, DispatcherAction::Exit);

    // A successful connect resumes reading.
    let (phase, action) =
        dispatcher_step(DispatcherPhase::Connecting, DispatcherEvent::Connected, false);
    assert_eq!(phase, DispatcherPhase::Reading);
    assert_eq!(action, DispatcherAction::Proceed);
}

#[test]
fn retry_budget_is_five_seconds() {
    let mut policy = backoff();
    // transient failures for 4.9 s still retry; past 5.1 s the call fails
    assert!(policy.should_retry(4900));
    assert!(policy.should_retry(RETRY_BUDGET_MS));
    assert!(!policy.should_retry(5100));
    // pauses double from 100 ms to the 2 s cap
    assert_eq!(policy.next_delay(), 100);
    assert_eq!(policy.next_delay(), 200);
    assert_eq!(policy.next_delay(), 400);
    assert_eq!(policy.next_delay(), 800);
    assert_eq!(policy.next_delay(), 1600);
    assert_eq!(policy.next_delay(), 2000);
    assert_eq!(policy.next_delay(), 2000);
}

fn spy_position(quantity: i64) -> Position {
    Position {
        broker_id: Some(9),
        symbol: "SPY".to_string(),
        quantity,
        cost_basis: 0,
        date: 0,
    }
}

#[test]
fn persistence_routes_by_kind() {
    let date = Date::from_ymd(2024, 6, 28).unwrap();
    let order = Persistable::Order(Order {
        id: Some(5),
        date,
        symbol: "SPY".to_string(),
        side: Side::Buy,
        quantity: 1,
        px: None,
    });
    let position = Persistable::Position(spy_position(3));
    let pnl = Persistable::RealizedPnL(RealizedPnL {
        id: 11,
        symbol: "SPY".to_string(),
        date,
        pnl: 42,
        strategy: "mean-reversion".to_string(),
    });

    assert_eq!(order.collection(), "orders");
    assert_eq!(position.collection(), "positions");
    assert_eq!(pnl.collection(), "pnl");
    assert_eq!(order.id(), 5);
    assert_eq!(position.id(), 9);
    assert_eq!(pnl.id(), 11);

    match order.key() {
        UpsertKey::SymbolDate { symbol, date: d } => {
            assert_eq!(symbol, "SPY");
            assert_eq!(d, date);
        }
        _ => panic!("orders key by (symbol, date)"),
    }
    match position.key() {
        UpsertKey::Symbol { symbol } => assert_eq!(symbol, "SPY"),
        _ => panic!("positions key by symbol"),
    }
    match pnl.key() {
        UpsertKey::Id { id } => assert_eq!(id, 11),
        _ => panic!("realized profit-and-loss keys by id"),
    }
}

#[test]
fn store_upserts_and_truncates_positions() {
    let mut store = StoreModel::new();
    store.upsert(Persistable::Position(spy_position(3)));
    store.upsert(Persistable::Position(spy_position(7)));
    // same slot: replaced, not duplicated
    assert_eq!(store.docs.len(), 1);
    match &store.docs[0] {
        Persistable::Position(p) => assert_eq!(p.quantity, 7),
        _ => panic!("expected the position"),
    }
    let date = Date::from_ymd(2024, 6, 28).unwrap();
    store.upsert(Persistable::RealizedPnL(RealizedPnL {
        id: 1,
        symbol: "SPY".to_string(),
        date,
        pnl: 5,
        strategy: "mean-reversion".to_string(),
    }));
    assert_eq!(store.docs.len(), 2);
    store.drop_positions();
    assert_eq!(store.docs.len(), 1);
    match &store.docs[0] {
        Persistable::RealizedPnL(p) => assert_eq!(p.id, 1),
        _ => panic!("positions should be gone"),
    }
}

#[test]
fn decimal_rendering() {
    assert_eq!(u64_to_string(0), "0");
    assert_eq!(u64_to_string(7), "7");
    assert_eq!(u64_to_string(1234567890), "1234567890");
    assert_eq!(i64_to_string(-42), "-42");
    assert_eq!(i64_to_string(i64::MIN), "-9223372036854775808");
}

#[test]
fn print_map_sorts_by_key() {
    let entries = vec![
        (3i64, "c".to_string()),
        (1i64, "a".to_string()),
        (2i64, "b".to_string()),
    ];
    let lines = print_map("Quotes", &entries);
    assert_eq!(lines.len(), 4);
    assert_eq!(lines[0], "Quotes");
    assert_eq!(lines[1], "1: a");
    assert_eq!(lines[2], "2: b");
    assert_eq!(lines[3], "3: c");
}

#[test]
fn dates_convert_both_ways() {
    let d = Date::from_ymd(2024, 6, 30).unwrap();
    assert_eq!(d.ymd(), (2024, 6, 30));
    assert_eq!(d.day_of_month(), 30);
    assert_eq!(Date::from_ymd(1970, 1, 1).unwrap().days, 0);
    assert_eq!(d.plus_days(1).ymd(), (2024, 7, 1));
    // leap handling
    assert_eq!(Date::from_ymd(2024, 2, 29).unwrap().plus_days(1).ymd(), (2024, 3, 1));
    assert!(Date::from_ymd(2023, 2, 29).is_none());
    assert!(Date::from_ymd(2024, 13, 1).is_none());
    assert!(Date::from_ymd(2024, 6, 31).is_none());
}

#[test]
fn config_collects_all_symbols() {
    let s1 = Strategy::from_lists(
        "mean-reversion".to_string(),
        vec!["SPY".to_string(), "AAPL".to_string()],
        vec![10000, 20000],
    );
    let s2 = Strategy::from_lists(
        "mean-reversion".to_string(),
        vec!["MSFT".to_string()],
        vec![5000],
    );
    assert_eq!(capital_for(&s1.capital, &"AAPL".to_string()), 20000);
    assert_eq!(capital_for(&s1.capital, &"MSFT".to_string()), 0);
    let config = AppConfig { sandbox: true, strategies: vec![s1, s2], hist_data_range: 9, backtest_range: 5 };
    assert_eq!(config.all_symbols(), vec!["SPY", "AAPL", "MSFT"]);
}

#[test]
fn date_serialized_form() {
    assert_eq!(format_ymd(2024, 6, 30), "2024-06-30");
    assert_eq!(format_ymd(2024, 12, 1), "2024-12-01");
    assert_eq!(format_ymd(1999, 1, 9), "1999-01-09");
}

#[test]
fn date_parsing_round_trips() {
    let d = algo_trading::date::parse_date("2024-06-30").unwrap();
    assert_eq!(d, Date::from_ymd(2024, 6, 30).unwrap());
    assert_eq!(format_ymd(2024, 6, 30), "2024-06-30");
    assert!(algo_trading::date::parse_date("2024-6-30").is_none());
    assert!(algo_trading::date::parse_date("2024-06-31").is_none());
    assert!(algo_trading::date::parse_date("not a date").is_none());
    assert!(algo_trading::date::parse_date("2024/06/30").is_none());
}
