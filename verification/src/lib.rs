//! An algorithmic equities trading engine core.
//!
//! The library models market quotes, daily bars, orders, positions and
//! realized profit-and-loss, evaluates a mean-reversion strategy against
//! rolling historical statistics, sizes and books orders against per-symbol
//! capital caps, and replays historical closes deterministically in a
//! backtest.  Prices are fixed-point integers with `PRICE_SCALE` units per
//! currency unit; money amounts (cost basis, profit-and-loss) are scaled the
//! same way and held in `i128`.

pub mod backtest;
pub mod channel;
pub mod config;
pub mod date;
pub mod domain;
pub mod historical;
pub mod http;
pub mod market_data;
pub mod orders;
pub mod persistence;
pub mod positions;
pub mod side_format;
pub mod stats;
pub mod strategy;
pub mod trading;
pub mod util;

