//! Domain value types shared by every component: quotes, daily bars,
//! per-symbol statistics, orders, positions, realized profit-and-loss,
//! signals, and the strategy variants.
//!
//! Prices are fixed-point: `PRICE_SCALE` integer units per currency unit.
//! Money amounts (cost basis, profit-and-loss) are in the same scaled units
//! and held in `i128`, so every product of a price and a quantity fits.

use vstd::prelude::*;
use crate::date::Date;

verus! {

/// Fixed-point price units per currency unit.
pub const PRICE_SCALE: u64 = 10000;

/// Largest representable price, in scaled units.
pub const MAX_PRICE: u64 = 1000000000000;

/// Largest per-symbol capital cap, in whole currency units.
pub const MAX_CAPITAL: i64 = 1000000000000;

/// Largest position or order quantity; `MAX_CAPITAL * PRICE_SCALE`, so that a
/// buy sized against any admissible capital cap stays representable.
pub const MAX_QTY: i64 = 10000000000000000;

/// Bound on a position's cost basis magnitude, in scaled money units;
/// `MAX_PRICE * MAX_QTY`.
pub const MAX_MONEY: i128 = 10000000000000000000000000000;

/// Bound on one realized profit-and-loss amount: `2 * MAX_MONEY`.
pub const MAX_PNL_ABS: i128 = 20000000000000000000000000000;

/// A point-in-time best bid and ask for one symbol.  Timestamps are epoch
/// milliseconds.
#[derive(Debug)]
pub struct Quote {
    pub symbol: String,
    pub bid: u64,
    pub ask: u64,
    pub biddate: i64,
    pub askdate: i64,
}

pub open spec fn wf_quote(q: Quote) -> bool {
    &&& q.symbol@.len() > 0
    &&& q.bid <= q.ask
    &&& q.ask <= MAX_PRICE
}

impl Clone for Quote {
    fn clone(&self) -> (r: Self)
        ensures
            r == *self,
    {
        Quote {
            symbol: self.symbol.clone(),
            bid: self.bid,
            ask: self.ask,
            biddate: self.biddate,
            askdate: self.askdate,
        }
    }
}

/// One trading day's open/high/low/close summary for a symbol.
#[derive(Debug)]
pub struct Day {
    pub symbol: Option<String>,
    pub date: Date,
    pub open: u64,
    pub high: u64,
    pub low: u64,
    pub close: u64,
    pub volume: i64,
}

pub open spec fn wf_day(d: Day) -> bool {
    &&& d.low <= d.open <= d.high
    &&& d.low <= d.close <= d.high
    &&& d.high <= MAX_PRICE
    &&& d.volume >= 0
}

/// The executable well-formedness check for one bar.
pub fn day_is_wf(d: &Day) -> (r: bool)
    ensures
        r == wf_day(*d),
{
    d.low <= d.open && d.open <= d.high && d.low <= d.close && d.close <= d.high && d.high
        <= MAX_PRICE && d.volume >= 0
}

impl Clone for Day {
    fn clone(&self) -> (r: Self)
        ensures
            r == *self,
    {
        Day {
            symbol: match &self.symbol {
                Some(s) => Some(s.clone()),
                None => None,
            },
            date: self.date,
            open: self.open,
            high: self.high,
            low: self.low,
            close: self.close,
            volume: self.volume,
        }
    }
}

/// Per-symbol rolling statistics: the close history and the mean and
/// population standard deviation of the closes, floor-rounded to scaled
/// price units.
#[derive(Debug)]
pub struct SymbolData {
    pub symbol: String,
    pub history: Vec<Day>,
    pub mean: u64,
    pub std_dev: u64,
}

pub open spec fn wf_symbol_data(d: SymbolData) -> bool {
    &&& d.history@.len() >= 1
    &&& d.mean <= MAX_PRICE
    &&& d.std_dev <= MAX_PRICE
}

/// Supported order types; only market orders are issued today.
#[derive(Debug, Clone, Copy, PartialEq, Eq, Structural)]
pub enum OrderType {
    Market,
    Limit,
    Stop,
    StopLimit,
}

/// Which way an order trades.
#[derive(Debug, Clone, Copy, PartialEq, Eq, Structural)]
pub enum Side {
    Buy,
    Sell,
}

impl Side {
    /// The display label of the side.
    pub fn label(&self) -> (r: &'static str)
        ensures
            *self is Buy ==> r@ == "Buy"@,
            *self is Sell ==> r@ == "Sell"@,
    {
        match self {
            Side::Buy => "Buy",
            Side::Sell => "Sell",
        }
    }
}

/// A strategy's decision on one quote; `Hold` means no action.
#[derive(Debug, Clone, Copy, PartialEq, Eq, Structural)]
pub enum Signal {
    Buy,
    Sell,
    Hold,
}

/// An equity order: quantity is a positive share count and `px` the scaled
/// reference price, if one was attached.
#[derive(Debug)]
pub struct Order {
    pub id: Option<i64>,
    pub date: Date,
    pub symbol: String,
    pub side: Side,
    pub quantity: i64,
    pub px: Option<u64>,
}

pub open spec fn wf_order(o: Order) -> bool {
    &&& 0 < o.quantity <= MAX_QTY
    &&& (o.px is Some ==> o.px->0 <= MAX_PRICE)
    &&& o.symbol@.len() > 0
}

impl Clone for Order {
    fn clone(&self) -> (r: Self)
        ensures
            r == *self,
    {
        Order {
            id: self.id,
            date: self.date,
            symbol: self.symbol.clone(),
            side: self.side,
            quantity: self.quantity,
            px: self.px,
        }
    }
}

impl Order {
    /// The same order annotated with the broker's id.
    pub fn with_id(&self, id: i64) -> (r: Self)
        ensures
            r == (Order { id: Some(id), ..*self }),
    {
        Order { id: Some(id), ..self.clone() }
    }

    /// The broker id, or 0 when the order was never confirmed.
    pub fn id(&self) -> (r: i64)
        ensures
            r == self.id.unwrap_or(0),
    {
        match self.id {
            Some(id) => id,
            None => 0,
        }
    }
}

/// Net open quantity and aggregate cost basis for one symbol.  `date` is the
/// acquisition instant in epoch milliseconds; `cost_basis` is in scaled
/// money units.
#[derive(Debug)]
pub struct Position {
    pub broker_id: Option<i64>,
    pub symbol: String,
    pub quantity: i64,
    pub cost_basis: i128,
    pub date: i64,
}

pub open spec fn wf_position(p: Position) -> bool {
    &&& 0 <= p.quantity <= MAX_QTY
    &&& -MAX_MONEY <= p.cost_basis <= MAX_MONEY
    &&& p.symbol@.len() > 0
}

impl Clone for Position {
    fn clone(&self) -> (r: Self)
        ensures
            r == *self,
    {
        Position {
            broker_id: self.broker_id,
            symbol: self.symbol.clone(),
            quantity: self.quantity,
            cost_basis: self.cost_basis,
            date: self.date,
        }
    }
}

impl Position {
    /// The same position annotated with the broker's id.
    pub fn with_id(&self, id: i64) -> (r: Self)
        ensures
            r == (Position { broker_id: Some(id), ..*self }),
    {
        Position { broker_id: Some(id), ..self.clone() }
    }

    /// The same position with the cost basis replaced.
    pub fn with_cost_basis(&self, cost_basis: i128) -> (r: Self)
        ensures
            r == (Position { cost_basis, ..*self }),
    {
        Position { cost_basis, ..self.clone() }
    }

    /// The broker id, or 0 when the broker never reported one.
    pub fn id(&self) -> (r: i64)
        ensures
            r == self.broker_id.unwrap_or(0),
    {
        match self.broker_id {
            Some(id) => id,
            None => 0,
        }
    }
}

/// The cash result of closing a position: `pnl` is in scaled money units.
#[derive(Debug)]
pub struct RealizedPnL {
    pub id: i64,
    pub symbol: String,
    pub date: Date,
    pub pnl: i128,
    pub strategy: String,
}

pub open spec fn wf_pnl(p: RealizedPnL) -> bool {
    -MAX_PNL_ABS <= p.pnl <= MAX_PNL_ABS
}

impl Clone for RealizedPnL {
    fn clone(&self) -> (r: Self)
        ensures
            r == *self,
    {
        RealizedPnL {
            id: self.id,
            symbol: self.symbol.clone(),
            date: self.date,
            pnl: self.pnl,
            strategy: self.strategy.clone(),
        }
    }
}

} // verus!
