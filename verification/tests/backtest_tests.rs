use algo_trading::backtest::{self, BacktestMarketData, BacktestService};
use algo_trading::config;
use algo_trading::date::Date;
use algo_trading::domain::{Day, Order, Side, PRICE_SCALE};
use algo_trading::historical::{BacktestHistoricalData, HistoricalData};
use algo_trading::orders::BacktestOrders;
use algo_trading::trading::MILLIS_PER_DAY;

fn bar(symbol: &str, date: Date, close_scaled: u64) -> Day {
    Day {
        symbol: Some(symbol.to_string()),
        date,
        open: close_scaled,
        high: close_scaled,
        low: close_scaled,
        close: close_scaled,
        volume: 10000,
    }
}

/// A continuous bar for every date in `[end - 24, end]`, closing at the
/// day-of-month in currency units.
fn mock_spy_history(end: Date) -> HistoricalData {
    let mut days: Vec<Day> = Vec::new();
    let start = end.plus_days(-24);
    let mut i: i64 = 0;
    while i <= 24 {
        let date = start.plus_days(i);
        let close = (date.day_of_month() as u64) * PRICE_SCALE;
        days.push(bar("SPY", date, close));
        i += 1;
    }
    let mut data = HistoricalData::new();
    data.add_symbol("SPY".to_string(), days);
    data
}

#[test]
fn test_windowing() {
    let end = Date::from_ymd(2024, 6, 30).unwrap();
    let backtest_range: i64 = 20;
    let hist_data_range: i64 = 4;
    let service = BacktestHistoricalData::new(
        end,
        backtest_range,
        hist_data_range,
        mock_spy_history(end),
    );

    // First day of the backtest range
    let start = Date::from_ymd(2024, 6, 30 - backtest_range - hist_data_range).unwrap();
    let window_end = start.plus_days(4);
    let map = service.fetch(window_end);
    let data = map.get(&"SPY".to_string()).expect("No data for SPY");
    assert_eq!(data.len(), (hist_data_range + 1) as usize);
    let dates: Vec<Date> = data.iter().map(|d| d.date).collect();
    assert_eq!(
        dates,
        vec![
            Date::from_ymd(2024, 6, 6).unwrap(),
            Date::from_ymd(2024, 6, 7).unwrap(),
            Date::from_ymd(2024, 6, 8).unwrap(),
            Date::from_ymd(2024, 6, 9).unwrap(),
            Date::from_ymd(2024, 6, 10).unwrap(),
        ]
    );

    // Middle
    let start = Date::from_ymd(2024, 6, 16).unwrap();
    let map = service.fetch(start.plus_days(4));
    let data = map.get(&"SPY".to_string()).expect("No data for SPY");
    assert_eq!(data.len(), (hist_data_range + 1) as usize);
    let dates: Vec<Date> = data.iter().map(|d| d.date).collect();
    assert_eq!(
        dates,
        vec![
            Date::from_ymd(2024, 6, 16).unwrap(),
            Date::from_ymd(2024, 6, 17).unwrap(),
            Date::from_ymd(2024, 6, 18).unwrap(),
            Date::from_ymd(2024, 6, 19).unwrap(),
            Date::from_ymd(2024, 6, 20).unwrap(),
        ]
    );

    // Last
    let start = Date::from_ymd(2024, 6, 26).unwrap();
    let map = service.fetch(start.plus_days(4));
    let data = map.get(&"SPY".to_string()).expect("No data for SPY");
    assert_eq!(data.len(), (hist_data_range + 1) as usize);
    let dates: Vec<Date> = data.iter().map(|d| d.date).collect();
    assert_eq!(
        dates,
        vec![
            Date::from_ymd(2024, 6, 26).unwrap(),
            Date::from_ymd(2024, 6, 27).unwrap(),
            Date::from_ymd(2024, 6, 28).unwrap(),
            Date::from_ymd(2024, 6, 29).unwrap(),
            Date::from_ymd(2024, 6, 30).unwrap(),
        ]
    );
}

#[test]
fn test_backtest_market_data_manager() {
    let end = Date::from_ymd(2024, 6, 30).unwrap();
    let backtest_range: i64 = 20;
    let symbols = vec!["AAPL".to_string(), "MSFT".to_string()];
    let historical = BacktestHistoricalData::new(end, backtest_range, 4, mock_spy_history(end));
    let service = BacktestMarketData::new(String::new(), symbols, backtest_range, end, &historical);

    let start_date = Date::from_ymd(2024, 6, 15).unwrap();
    let end_date = Date::from_ymd(2024, 6, 20).unwrap();
    let mut date = start_date;
    while date.leq(&end_date) {
        date = date.plus_days(1);
        let market_data = service.service_for_date(date).expect("No quotes for the date");
        let mut receiver = market_data.subscribe().expect("Failed to subscribe");
        let quote = receiver.try_recv().expect("Failed to receive quote");
        assert_eq!(quote.symbol, "SPY");
        assert_eq!(quote.bid, (date.day_of_month() as u64) * PRICE_SCALE);
        assert_eq!(quote.ask, (date.day_of_month() as u64) * PRICE_SCALE);
    }
}

#[test]
fn per_date_source_yields_one_quote_at_the_close() {
    // end 2024-06-30, backtest range 20, history range 4: a symbol with a
    // continuous bar over [end - 24, end] yields, for each date, exactly one
    // quote with bid and ask at that date's close and midnight timestamps.
    let end = Date::from_ymd(2024, 6, 30).unwrap();
    let historical = BacktestHistoricalData::new(end, 20, 4, mock_spy_history(end));
    let service = BacktestMarketData::new(String::new(), Vec::new(), 20, end, &historical);

    let date = Date::from_ymd(2024, 6, 18).unwrap();
    let market_data = service.service_for_date(date).expect("No quotes for the date");
    let mut receiver = market_data.subscribe().expect("Failed to subscribe");
    let quote = receiver.try_recv().expect("Failed to receive quote");
    assert_eq!(quote.symbol, "SPY");
    assert_eq!(quote.bid, 18 * PRICE_SCALE);
    assert_eq!(quote.ask, 18 * PRICE_SCALE);
    assert_eq!(quote.biddate, date.days * MILLIS_PER_DAY);
    assert_eq!(quote.askdate, date.days * MILLIS_PER_DAY);
    // only one quote for the date
    assert!(receiver.try_recv().is_none());

    // A date with no data fails with the no-data kind.
    let holiday = Date::from_ymd(2024, 7, 15).unwrap();
    match service.service_for_date(holiday) {
        Ok(_) => panic!("Expected no data"),
        Err(e) => assert_eq!(e, "No quotes for date"),
    }
}

/// A history whose closes sit at 100, dip to 40 (a buy), and spike to 300
/// (a sell), on consecutive days ending at `end`.
fn dip_and_spike_history(end: Date) -> HistoricalData {
    let mut days: Vec<Day> = Vec::new();
    let start = end.plus_days(-10);
    let mut i: i64 = 0;
    while i <= 10 {
        let date = start.plus_days(i);
        let close = if i == 9 {
            40 * PRICE_SCALE
        } else if i == 10 {
            300 * PRICE_SCALE
        } else {
            100 * PRICE_SCALE
        };
        days.push(bar("SPY", date, close));
        i += 1;
    }
    let mut data = HistoricalData::new();
    data.add_symbol("SPY".to_string(), days);
    data
}

#[test]
fn backtest_books_the_dip_and_the_spike() {
    // With nine quiet closes behind it, the dip to 40 is more than two
    // standard deviations under the mean: buy 250 shares for the 10000 cap.
    // The next day's spike to 300 is more than two above: sell all 250.
    let end = Date::from_ymd(2024, 6, 30).unwrap();
    let backtest_range: i64 = 1;
    let hist_data_range: i64 = 9;
    let historical =
        BacktestHistoricalData::new(end, backtest_range, hist_data_range, dip_and_spike_history(end));
    let market =
        BacktestMarketData::new(String::new(), Vec::new(), backtest_range, end, &historical);
    let strategies = vec![config::Strategy::from_lists(
        "mean-reversion".to_string(),
        vec!["SPY".to_string()],
        vec![10000],
    )];
    let mut driver = backtest::new(
        end,
        backtest_range,
        historical,
        market,
        BacktestOrders::new(),
        strategies,
    );
    assert!(driver.run().is_ok());

    // The sell closed the position out: nothing remains open.
    assert_eq!(driver.orders.open_positions().len(), 0);

    // Exactly one realized profit-and-loss record: 250 shares sold at 300
    // against a 250 * 40 cost basis.
    let pnl = driver.orders.realized_pnl();
    assert_eq!(pnl.len(), 1);
    assert_eq!(pnl[0].symbol, "SPY");
    assert_eq!(pnl[0].strategy, "mean-reversion");
    assert_eq!(pnl[0].pnl, 650_000_000);
    assert_eq!(driver.orders.total_pnl(), 650_000_000);

    // The position passed through 250 held shares before closing.
    let spy = driver.orders.get_position(&"SPY".to_string()).unwrap();
    assert_eq!(spy.quantity, 0);
    assert_eq!(spy.cost_basis, 100_000_000);
}

#[test]
fn quiet_backtest_books_nothing() {
    let end = Date::from_ymd(2024, 6, 30).unwrap();
    let historical = BacktestHistoricalData::new(end, 5, 9, mock_spy_history(end));
    let market = BacktestMarketData::new(String::new(), Vec::new(), 5, end, &historical);
    let strategies = vec![config::Strategy::from_lists(
        "mean-reversion".to_string(),
        vec!["SPY".to_string()],
        vec![10000],
    )];
    let mut driver =
        backtest::new(end, 5, historical, market, BacktestOrders::new(), strategies);
    assert!(driver.run().is_ok());
    // Day-of-month closes drift well within two standard deviations.
    assert_eq!(driver.orders.realized_pnl().len(), 0);
    assert_eq!(driver.orders.total_pnl(), 0);
}

#[test]
fn order_book_tracks_position_quantity() {
    let mut orders = BacktestOrders::new();
    let date = Date::from_ymd(2024, 6, 28).unwrap();
    let buy = Order {
        id: None,
        date,
        symbol: "SPY".to_string(),
        side: Side::Buy,
        quantity: 100,
        px: Some(80 * PRICE_SCALE),
    };
    let booked = orders.create_order(buy, "mean-reversion".to_string(), 0);
    assert!(booked.is_ok());
    let p = orders.get_position(&"SPY".to_string()).unwrap();
    assert_eq!(p.quantity, 100);
    assert_eq!(p.cost_basis, (80 * PRICE_SCALE) as i128 * 100);

    // a second buy adds to the quantity and keeps the cost basis
    let buy2 = Order {
        id: None,
        date,
        symbol: "SPY".to_string(),
        side: Side::Buy,
        quantity: 50,
        px: Some(90 * PRICE_SCALE),
    };
    orders.create_order(buy2, "mean-reversion".to_string(), 0).unwrap();
    let p = orders.get_position(&"SPY".to_string()).unwrap();
    assert_eq!(p.quantity, 150);
    assert_eq!(p.cost_basis, (80 * PRICE_SCALE) as i128 * 100);

    // the full unwind zeroes the quantity and realizes the difference
    let sell = Order {
        id: None,
        date,
        symbol: "SPY".to_string(),
        side: Side::Sell,
        quantity: 150,
        px: Some(100 * PRICE_SCALE),
    };
    orders.create_order(sell, "mean-reversion".to_string(), 0).unwrap();
    let p = orders.get_position(&"SPY".to_string()).unwrap();
    assert_eq!(p.quantity, 0);
    let pnl = orders.realized_pnl();
    assert_eq!(pnl.len(), 1);
    // 150 * 100 - 100 * 80 = 7000 currency units, in scaled money
    assert_eq!(pnl[0].pnl, 7000 * PRICE_SCALE as i128);
    assert_eq!(orders.total_pnl(), 7000 * PRICE_SCALE as i128);

    // no position ever goes negative
    for p in orders.open_positions() {
        assert!(p.quantity > 0);
    }
}

#[test]
fn bucket_orders_quotes_by_symbol() {
    // two symbols with bars on the same date: the date's bucket holds one
    // quote per symbol, in the snapshot's symbol order
    let end = Date::from_ymd(2024, 6, 30).unwrap();
    let date = end.plus_days(-1);
    let mut data = HistoricalData::new();
    data.add_symbol("AAPL".to_string(), vec![bar("AAPL", date, 10 * PRICE_SCALE)]);
    data.add_symbol("MSFT".to_string(), vec![bar("MSFT", date, 20 * PRICE_SCALE)]);
    let historical = BacktestHistoricalData::new(end, 5, 5, data);
    let service = BacktestMarketData::new(String::new(), Vec::new(), 5, end, &historical);
    let market_data = service.service_for_date(date).expect("No quotes for the date");

    // the replay source refuses to run a live work loop
    assert!(market_data.init().is_err());

    let mut receiver = market_data.subscribe().expect("Failed to subscribe");
    let first = receiver.try_recv().unwrap();
    let second = receiver.try_recv().unwrap();
    assert_eq!(first.symbol, "AAPL");
    assert_eq!(first.ask, 10 * PRICE_SCALE);
    assert_eq!(second.symbol, "MSFT");
    assert_eq!(second.ask, 20 * PRICE_SCALE);
    assert!(receiver.try_recv().is_none());
    assert!(market_data.unsubscribe(&receiver).is_ok());
}

#[test]
fn gap_dates_are_skipped() {
    // A two-day hole in the bars (a weekend): those replay dates have no
    // quotes and are skipped; the run still completes.
    let end = Date::from_ymd(2024, 6, 30).unwrap();
    let mut days: Vec<Day> = Vec::new();
    let start = end.plus_days(-14);
    let mut i: i64 = 0;
    while i <= 14 {
        if i != 11 && i != 12 {
            days.push(bar("SPY", start.plus_days(i), 100 * PRICE_SCALE));
        }
        i += 1;
    }
    let mut data = HistoricalData::new();
    data.add_symbol("SPY".to_string(), days);
    let historical = BacktestHistoricalData::new(end, 5, 9, data);
    let market = BacktestMarketData::new(String::new(), Vec::new(), 5, end, &historical);
    assert!(market.service_for_date(start.plus_days(11)).is_err());
    let strategies = vec![config::Strategy::from_lists(
        "mean-reversion".to_string(),
        vec!["SPY".to_string()],
        vec![10000],
    )];
    let mut driver =
        backtest::new(end, 5, historical, market, BacktestOrders::new(), strategies);
    assert!(driver.run().is_ok());
    assert_eq!(driver.orders.realized_pnl().len(), 0);
}
