//! Order sizing: from a signal, the current position and the per-symbol
//! capital cap to an order, or to no order.

use vstd::prelude::*;
use crate::date::{date_in_range, Date};
use crate::domain::{
    wf_order, wf_position, wf_quote, wf_symbol_data, Order, Position, Quote, Side, Signal,
    SymbolData, MAX_CAPITAL, MAX_PRICE, MAX_QTY, PRICE_SCALE,
};
use crate::backtest::BacktestMarketDataService;
use crate::channel::channel_queue;
use crate::config::{capital_for, lemma_capital_of_bounded, wf_capital};
use crate::historical::HistoricalData;
use crate::orders::{apply_fill, book_model, fill_pnl, position_quantity_in, BacktestOrders};
use crate::positions::spec_lookup;
use crate::stats::{find_symbol_data, load_history, spec_stats_lookup, MAX_HISTORY};
use crate::strategy::{mean_reversion_signal, seq_contains_sym, Strategy};

verus! {

/// Milliseconds in one civil day.
pub const MILLIS_PER_DAY: i64 = 86400000;

/// The instant used for positions acquired on a replay date: midnight of
/// that day, in epoch milliseconds.
pub open spec fn spec_midnight_millis(d: Date) -> int {
    d.days * MILLIS_PER_DAY
}

/// Midnight of the date, in epoch milliseconds.
pub fn midnight_millis(d: Date) -> (r: i64)
    requires
        date_in_range(d),
    ensures
        r == spec_midnight_millis(d),
{
    d.days * MILLIS_PER_DAY
}

/// What `maybe_create_order` decides, as a value: the order a signal
/// becomes, or nothing.
pub open spec fn spec_order_decision(
    date: Date,
    signal: Signal,
    pos: Option<Position>,
    quote: Quote,
    capital: int,
) -> Option<Order> {
    match signal {
        Signal::Buy => {
            let q0 = position_quantity(pos);
            let a = quote.ask as int;
            let rem = remaining_capital(q0, a, capital);
            if a >= 1 && rem >= a {
                Some(
                    Order {
                        id: None,
                        date,
                        symbol: quote.symbol,
                        side: Side::Buy,
                        quantity: (rem / a) as i64,
                        px: Some(quote.ask),
                    },
                )
            } else {
                None
            }
        },
        Signal::Sell => {
            match pos {
                Some(p) => {
                    if p.quantity > 0 {
                        Some(
                            Order {
                                id: None,
                                date,
                                symbol: quote.symbol,
                                side: Side::Sell,
                                quantity: p.quantity,
                                px: Some(quote.bid),
                            },
                        )
                    } else {
                        None
                    }
                },
                None => None,
            }
        },
        Signal::Hold => None,
    }
}

/// The quantity held, or 0 with no position.
pub open spec fn position_quantity(p: Option<Position>) -> int {
    match p {
        Some(pp) => pp.quantity as int,
        None => 0,
    }
}

/// Scaled capital left after the present market value of the position at the
/// quoted ask.
pub open spec fn remaining_capital(q0: int, ask: int, capital: int) -> int {
    capital * PRICE_SCALE - q0 * ask
}

/// Decides whether a signal becomes an order.
///
/// - Buy: the remaining capital (the cap less the position's market value at
///   the ask) buys `remaining / ask` shares at the ask; no order when not
///   even one share fits, or when the ask is zero.
/// - Sell: a held position is unwound in full at the bid; no order without
///   a positive position.
/// - Hold: no order.
pub fn maybe_create_order(
    date: Date,
    signal: Signal,
    maybe_position: Option<Position>,
    quote: &Quote,
    capital: i64,
) -> (r: Option<Order>)
    requires
        wf_quote(*quote),
        maybe_position matches Some(p) ==> wf_position(p),
        0 <= capital <= MAX_CAPITAL,
    ensures
        ({
            let q0 = position_quantity(maybe_position);
            let a = quote.ask as int;
            let rem = remaining_capital(q0, a, capital as int);
            &&& (signal is Buy && a >= 1 && rem >= a ==> {
                &&& r matches Some(o)
                &&& o.id is None
                &&& o.date == date
                &&& o.symbol == quote.symbol
                &&& o.side == Side::Buy
                &&& o.quantity == rem / a
                &&& o.px == Some(quote.ask)
                &&& q0 + o.quantity <= capital * PRICE_SCALE
            })
            &&& (signal is Buy && !(a >= 1 && rem >= a) ==> r is None)
            &&& (signal is Buy && capital * PRICE_SCALE <= q0 * a ==> r is None)
            &&& (signal is Sell && (maybe_position matches Some(p) && p.quantity > 0) ==> {
                let p = maybe_position->0;
                &&& r matches Some(o)
                &&& o.id is None
                &&& o.date == date
                &&& o.symbol == quote.symbol
                &&& o.side == Side::Sell
                &&& o.quantity == p.quantity
                &&& o.px == Some(quote.bid)
            })
            &&& (signal is Sell && q0 <= 0 ==> r is None)
            &&& (signal is Hold ==> r is None)
            &&& (r matches Some(o) ==> o.quantity > 0 && wf_order(o))
            &&& r == spec_order_decision(date, signal, maybe_position, *quote, capital as int)
        }),
{
    match signal {
        Signal::Buy => {
            let q0: i128 = match &maybe_position {
                Some(p) => p.quantity as i128,
                None => 0,
            };
            let a: i128 = quote.ask as i128;
            proof {
                assert(q0 * a <= MAX_QTY as int * MAX_PRICE as int && q0 * a >= 0)
                    by (nonlinear_arith)
                    requires
                        0 <= q0 <= MAX_QTY as int,
                        0 <= a <= MAX_PRICE as int,
                ;
            }
            let present_market_value: i128 = q0 * a;
            let rem: i128 = capital as i128 * PRICE_SCALE as i128 - present_market_value;
            if a >= 1 && rem >= a {
                let shares: i128 = rem / a;
                proof {
                    let c = capital as int * PRICE_SCALE as int;
                    assert(shares >= 1 && shares * a <= rem && q0 * a >= q0) by (nonlinear_arith)
                        requires
                            a >= 1,
                            rem >= a,
                            q0 >= 0,
                            shares == rem / a,
                    ;
                    assert(q0 + shares <= c) by (nonlinear_arith)
                        requires
                            a >= 1,
                            q0 >= 0,
                            shares >= 1,
                            shares * a <= rem,
                            q0 * a >= q0,
                            rem == c - q0 * a,
                    ;
                }
                Some(
                    Order {
                        id: None,
                        date,
                        symbol: quote.symbol.clone(),
                        side: Side::Buy,
                        quantity: shares as i64,
                        px: Some(quote.ask),
                    },
                )
            } else {
                None
            }
        },
        Signal::Sell => {
            match maybe_position {
                Some(p) if p.quantity > 0 => Some(
                    Order {
                        id: None,
                        date,
                        symbol: quote.symbol.clone(),
                        side: Side::Sell,
                        quantity: p.quantity,
                        px: Some(quote.bid),
                    },
                ),
                _ => None,
            }
        },
        Signal::Hold => None,
    }
}

/// The signal a strategy gives a quote: the mean-reversion rule when the
/// symbol is in the strategy's set, otherwise hold.
pub open spec fn spec_signal_for(strategy: Strategy, quote: Quote, data: SymbolData) -> Signal {
    if seq_contains_sym(strategy.spec_symbols(), quote.symbol@) {
        mean_reversion_signal(quote.ask as int, data.mean as int, data.std_dev as int)
    } else {
        Signal::Hold
    }
}

/// The position a book model holds for a symbol, if any.
pub open spec fn model_position(m: Map<Seq<char>, Position>, sym: Seq<char>) -> Option<Position> {
    if m.contains_key(sym) {
        Some(m[sym])
    } else {
        None
    }
}

/// What one quote becomes against a book model: nothing without statistics
/// for its symbol; otherwise the order (or nothing) that the signal, the
/// held position and the symbol's capital cap decide.
pub open spec fn spec_trade_decision(
    m: Map<Seq<char>, Position>,
    quote: Quote,
    data: Seq<SymbolData>,
    symbols: Seq<String>,
    caps: Seq<(String, i64)>,
    date: Date,
) -> Option<Order> {
    match spec_stats_lookup(data, quote.symbol@) {
        Some(d) => {
            let signal = if seq_contains_sym(symbols, quote.symbol@) {
                mean_reversion_signal(quote.ask as int, d.mean as int, d.std_dev as int)
            } else {
                Signal::Hold
            };
            spec_order_decision(
                date,
                signal,
                model_position(m, quote.symbol@),
                quote,
                crate::config::spec_capital_of(caps, quote.symbol@) as int,
            )
        },
        None => None,
    }
}

/// The fills a quote sequence books, in order: each quote's decision against
/// the book as the earlier fills left it, all timestamped midnight of the
/// trading date.
pub open spec fn spec_trace(
    m: Map<Seq<char>, Position>,
    quotes: Seq<Quote>,
    data: Seq<SymbolData>,
    symbols: Seq<String>,
    caps: Seq<(String, i64)>,
    date: Date,
) -> Seq<(Order, i64)>
    decreases quotes.len(),
{
    if quotes.len() == 0 {
        Seq::empty()
    } else {
        let mid = spec_midnight_millis(date) as i64;
        match spec_trade_decision(m, quotes[0], data, symbols, caps, date) {
            Some(o) => seq![(o, mid)] + spec_trace(
                apply_fill(m, o, mid),
                quotes.drop_first(),
                data,
                symbols,
                caps,
                date,
            ),
            None => spec_trace(m, quotes.drop_first(), data, symbols, caps, date),
        }
    }
}

/// Handles one quote end to end: look the symbol's statistics up (a quote
/// with no statistics is skipped), evaluate the strategy, size the order
/// against the current position and the capital cap, and book it.  The
/// booked fill, if any, is exactly `spec_order_decision` of the evaluated
/// signal.
pub fn handle_quote(
    date: Date,
    symbol_data: &Vec<SymbolData>,
    quote: &Quote,
    capital: i64,
    strategy: &Strategy,
    orders: &mut BacktestOrders,
)
    requires
        wf_quote(*quote),
        date_in_range(date),
        0 <= capital <= MAX_CAPITAL,
        forall|i: int| 0 <= i < symbol_data@.len() ==> wf_symbol_data(#[trigger] symbol_data@[i]),
        old(orders).wf(),
    ensures
        final(orders).wf(),
        ({
            let stats = spec_stats_lookup(symbol_data@, quote.symbol@);
            let decision = if stats is Some {
                spec_order_decision(
                    date,
                    spec_signal_for(*strategy, *quote, stats->0),
                    spec_lookup(old(orders).book.entries@, quote.symbol@),
                    *quote,
                    capital as int,
                )
            } else {
                None
            };
            &&& (decision is None ==> *final(orders) == *old(orders))
            &&& (decision matches Some(o) ==> {
                let acquired = spec_midnight_millis(date) as i64;
                &&& final(orders).fills@ == old(orders).fills@.push((o, acquired))
                &&& book_model(final(orders).book) == apply_fill(
                    book_model(old(orders).book),
                    o,
                    acquired,
                )
                &&& (o.side == Side::Sell ==> final(orders).pnl@ == old(orders).pnl@.push(
                    final(orders).pnl@.last(),
                ) && final(orders).pnl@.last().pnl == fill_pnl(book_model(old(orders).book), o))
                &&& (o.side == Side::Buy ==> final(orders).pnl@ == old(orders).pnl@)
            })
        }),
{
    let found = find_symbol_data(symbol_data, &quote.symbol);
    match found {
        Some(data) => {
            let maybe_position = orders.get_position(&quote.symbol);
            let signal = match strategy.handle(quote, data) {
                Ok(s) => s,
                Err(_) => Signal::Hold,
            };
            let maybe_order = maybe_create_order(date, signal, maybe_position, quote, capital);
            match maybe_order {
                Some(order) => {
                    proof {
                        crate::positions::lemma_lookup_props(
                            old(orders).book.entries@,
                            quote.symbol@,
                        );
                        if order.side == Side::Sell {
                            assert(book_model(old(orders).book).contains_key(order.symbol@));
                        }
                        if order.side == Side::Buy {
                            assert(position_quantity_in(
                                book_model(old(orders).book),
                                order.symbol@,
                            ) + order.quantity <= MAX_QTY);
                        }
                    }
                    let acquired = midnight_millis(date);
                    let label = strategy.name();
                    let booked = orders.create_order(order, label, acquired);
                    match booked {
                        Ok(_) => (),
                        Err(_) => (),
                    }
                },
                None => (),
            }
        },
        None => (),
    }
}

/// A per-strategy quote consumer that turns quotes into orders.
pub trait TradingService {
    spec fn wf(&self) -> bool;

    /// Whether `data` is the statistics the worker computes at startup: one
    /// entry per configured symbol, over that symbol's cached history.
    spec fn stats_ok(&self, data: Seq<SymbolData>) -> bool;

    /// The fills the worker's quotes book against a starting book model,
    /// given its computed statistics.
    spec fn planned_fills(&self, m: Map<Seq<char>, Position>, data: Seq<SymbolData>) -> Seq<
        (Order, i64),
    >;

    /// Computes the strategy's symbol statistics, subscribes to the quote
    /// source, and handles every quote the source has buffered, booking the
    /// resulting orders.  The worker's whole effect is to append exactly the
    /// fills its quotes decide (`planned_fills`); the service's accounting
    /// invariant then ties the book and the emitted records to the fill
    /// history.
    fn run(&mut self, orders: &mut BacktestOrders) -> (r: Result<(), String>)
        requires
            old(self).wf(),
            old(orders).wf(),
        ensures
            final(self).wf(),
            final(orders).wf(),
            old(orders).pnl@.is_prefix_of(final(orders).pnl@),
            old(orders).fills@.is_prefix_of(final(orders).fills@),
            exists|data: Seq<SymbolData>|
                (#[trigger] old(self).stats_ok(data)) && final(orders).fills@ == old(orders).fills@
                    + old(self).planned_fills(book_model(old(orders).book), data),
            r is Ok,
    ;

    /// Releases the subscription; the replay source needs nothing more.
    fn shutdown(&mut self) -> (r: Result<(), String>)
        ensures
            r is Ok,
    ;
}

/// The backtest trading worker for one (strategy, replay date) pair.
pub struct Trading {
    pub today: Date,
    pub strategy_name: String,
    pub symbols: Vec<String>,
    pub capital: Vec<(String, i64)>,
    pub market_data: BacktestMarketDataService,
    pub historical: HistoricalData,
}

/// Builds a worker; `historical` is the snapshot already windowed for the
/// worker's date.
pub fn new(
    today: Date,
    strategy_name: String,
    symbols: Vec<String>,
    capital: Vec<(String, i64)>,
    market_data: BacktestMarketDataService,
    historical: HistoricalData,
) -> (r: Trading)
    ensures
        r == (Trading { today, strategy_name, symbols, capital, market_data, historical }),
{
    Trading { today, strategy_name, symbols, capital, market_data, historical }
}

impl TradingService for Trading {
    open spec fn stats_ok(&self, data: Seq<SymbolData>) -> bool {
        &&& data.len() == self.symbols@.len()
        &&& forall|i: int|
            0 <= i < data.len() ==> {
                let h = self.historical.spec_get(self.symbols@[i]@)->0;
                &&& (#[trigger] data[i]).symbol == self.symbols@[i]
                &&& data[i].history@ == h
                &&& data[i].mean == crate::stats::spec_mean(h)
                &&& data[i].std_dev == crate::stats::spec_isqrt(crate::stats::spec_variance(h))
                &&& wf_symbol_data(data[i])
            }
    }

    open spec fn planned_fills(&self, m: Map<Seq<char>, Position>, data: Seq<SymbolData>) -> Seq<
        (Order, i64),
    > {
        spec_trace(m, self.market_data.quotes@, data, self.symbols@, self.capital@, self.today)
    }

    open spec fn wf(&self) -> bool {
        &&& date_in_range(self.today)
        &&& self.strategy_name@ == "mean-reversion"@
        &&& self.market_data.wf()
        &&& self.historical.wf()
        &&& wf_capital(self.capital@)
        &&& forall|i: int|
            0 <= i < self.symbols@.len() ==> {
                let h = #[trigger] self.historical.spec_get(self.symbols@[i]@);
                &&& h is Some
                &&& 1 <= h->0.len() <= MAX_HISTORY
                &&& forall|j: int|
                    0 <= j < h->0.len() ==> crate::domain::wf_day(#[trigger] h->0[j])
            }
    }

    fn run(&mut self, orders: &mut BacktestOrders) -> (r: Result<(), String>) {
        let symbol_data = load_history(self.today, &self.symbols, &self.historical);
        let strategy_symbols = clone_strings(&self.symbols);
        let strategy = Strategy::new(self.strategy_name.as_str(), strategy_symbols);
        proof {
            assert(self.stats_ok(symbol_data@));
        }
        match self.market_data.subscribe() {
            Ok(mut chan) => {
                let ghost pnl0 = orders.pnl@;
                let ghost fills0 = orders.fills@;
                let ghost m0 = book_model(orders.book);
                let ghost all_quotes = self.market_data.quotes@;
                while chan.len() > 0
                    invariant
                        self.wf(),
                        self == old(self),
                        orders.wf(),
                        date_in_range(self.today),
                        wf_capital(self.capital@),
                        strategy.spec_symbols() == self.symbols@,
                        forall|i: int|
                            0 <= i < symbol_data@.len() ==> crate::domain::wf_symbol_data(
                                #[trigger] symbol_data@[i],
                            ),
                        forall|k: int|
                            0 <= k < channel_queue(chan).len() ==> wf_quote(
                                #[trigger] channel_queue(chan)[k],
                            ),
                        pnl0 == old(orders).pnl@,
                        fills0 == old(orders).fills@,
                        m0 == book_model(old(orders).book),
                        all_quotes == self.market_data.quotes@,
                        pnl0.is_prefix_of(orders.pnl@),
                        fills0.is_prefix_of(orders.fills@),
                        orders.fills@ + spec_trace(
                            book_model(orders.book),
                            channel_queue(chan),
                            symbol_data@,
                            self.symbols@,
                            self.capital@,
                            self.today,
                        ) == fills0 + spec_trace(
                            m0,
                            all_quotes,
                            symbol_data@,
                            self.symbols@,
                            self.capital@,
                            self.today,
                        ),
                    decreases channel_queue(chan).len(),
                {
                    let ghost queue_before = channel_queue(chan);
                    let ghost m_before = book_model(orders.book);
                    let ghost fills_pre = orders.fills@;
                    let next = chan.try_recv();
                    match next {
                        Some(quote) => {
                            let ghost pnl_before = orders.pnl@;
                            let ghost fills_before = orders.fills@;
                            let cap = capital_for(&self.capital, &quote.symbol);
                            proof {
                                lemma_capital_of_bounded(self.capital@, quote.symbol@);
                            }
                            handle_quote(
                                self.today,
                                &symbol_data,
                                &quote,
                                cap,
                                &strategy,
                                orders,
                            );
                            proof {
                                lemma_pnl_prefix_step(pnl0, pnl_before, orders.pnl@);
                                if orders.fills@ != fills_before {
                                    assert(orders.fills@.subrange(0, fills0.len() as int)
                                        =~= fills_before.subrange(0, fills0.len() as int));
                                }
                                lemma_model_position(orders.book, quote.symbol@);
                                lemma_model_position(old(orders).book, quote.symbol@);
                                assert(quote == queue_before.first());
                                assert(queue_before[0] == queue_before.first());
                                assert(channel_queue(chan) == queue_before.drop_first());
                                let dec = spec_trade_decision(
                                    m_before,
                                    quote,
                                    symbol_data@,
                                    self.symbols@,
                                    self.capital@,
                                    self.today,
                                );
                                let mid = spec_midnight_millis(self.today) as i64;
                                assert(spec_trace(
                                    m_before,
                                    queue_before,
                                    symbol_data@,
                                    self.symbols@,
                                    self.capital@,
                                    self.today,
                                ) == match dec {
                                    Some(o) => seq![(o, mid)] + spec_trace(
                                        apply_fill(m_before, o, mid),
                                        queue_before.drop_first(),
                                        symbol_data@,
                                        self.symbols@,
                                        self.capital@,
                                        self.today,
                                    ),
                                    None => spec_trace(
                                        m_before,
                                        queue_before.drop_first(),
                                        symbol_data@,
                                        self.symbols@,
                                        self.capital@,
                                        self.today,
                                    ),
                                });
                                match dec {
                                    Some(o) => {
                                        assert(orders.fills@ == fills_pre.push((o, mid)));
                                        assert(fills_pre.push((o, mid)) =~= fills_pre + seq![
                                            (o, mid),
                                        ]);
                                        assert((fills_pre + seq![(o, mid)]) + spec_trace(
                                            book_model(orders.book),
                                            channel_queue(chan),
                                            symbol_data@,
                                            self.symbols@,
                                            self.capital@,
                                            self.today,
                                        ) =~= fills_pre + (seq![(o, mid)] + spec_trace(
                                            book_model(orders.book),
                                            channel_queue(chan),
                                            symbol_data@,
                                            self.symbols@,
                                            self.capital@,
                                            self.today,
                                        )));
                                    },
                                    None => {
                                        assert(orders.fills@ == fills_pre);
                                    },
                                }
                            }
                        },
                        None => {
                            proof {
                                assert(false);
                            }
                        },
                    }
                }
                proof {
                    assert(channel_queue(chan) =~= Seq::<Quote>::empty());
                    assert(orders.fills@ + Seq::<(Order, i64)>::empty() =~= orders.fills@);
                    assert(orders.fills@ == fills0 + spec_trace(
                        m0,
                        all_quotes,
                        symbol_data@,
                        self.symbols@,
                        self.capital@,
                        self.today,
                    ));
                    assert(old(self).stats_ok(symbol_data@) && orders.fills@ == old(orders).fills@
                        + old(self).planned_fills(book_model(old(orders).book), symbol_data@));
                }
                Ok(())
            },
            Err(e) => Err(e),
        }
    }

    fn shutdown(&mut self) -> (r: Result<(), String>) {
        Ok(())
    }
}

/// A book's model holds a symbol exactly as the book's lookup finds it.
proof fn lemma_model_position(b: crate::positions::PositionBook, sym: Seq<char>)
    ensures
        model_position(book_model(b), sym) == spec_lookup(b.entries@, sym),
{
    if spec_lookup(b.entries@, sym) is Some {
        assert(book_model(b).contains_key(sym));
        assert(book_model(b)[sym] == spec_lookup(b.entries@, sym)->0);
    } else {
        assert(!book_model(b).contains_key(sym));
    }
}

/// A copy of each string, in order.
pub fn clone_strings(v: &Vec<String>) -> (r: Vec<String>)
    ensures
        r@ == v@,
{
    let mut out: Vec<String> = Vec::new();
    let mut i: usize = 0;
    while i < v.len()
        invariant
            0 <= i <= v@.len(),
            out@ =~= v@.subrange(0, i as int),
        decreases v@.len() - i,
    {
        out.push(v[i].clone());
        i = i + 1;
    }
    assert(out@ =~= v@);
    out
}

/// A prefix stays a prefix when the longer list only grows at the back by
/// zero or one record.
proof fn lemma_pnl_prefix_step(
    p0: Seq<crate::domain::RealizedPnL>,
    p1: Seq<crate::domain::RealizedPnL>,
    p2: Seq<crate::domain::RealizedPnL>,
)
    requires
        p0.is_prefix_of(p1),
        p2 == p1 || (p2.len() == p1.len() + 1 && p2 == p1.push(p2.last())),
    ensures
        p0.is_prefix_of(p2),
{
    if p2 != p1 {
        assert(p2.subrange(0, p0.len() as int) =~= p1.subrange(0, p0.len() as int));
    }
}

} // verus!
