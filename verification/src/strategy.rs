//! Strategy variants and the pure signal evaluator.
//!
//! A strategy is a closed sum type: one variant per strategy, each carrying
//! its configuration.  The evaluator is a pure function from a quote and the
//! symbol's rolling statistics to a `Signal`.

use vstd::prelude::*;
use crate::domain::{Quote, Signal, SymbolData, MAX_PRICE};

verus! {

/// True when some string in `symbols` has the characters `sym`.
pub open spec fn seq_contains_sym(symbols: Seq<String>, sym: Seq<char>) -> bool {
    exists|i: int| 0 <= i < symbols.len() && symbols[i]@ == sym
}

/// Linear search for a symbol by its characters.
pub fn contains_symbol(symbols: &Vec<String>, sym: &String) -> (r: bool)
    ensures
        r == seq_contains_sym(symbols@, sym@),
{
    let mut i: usize = 0;
    while i < symbols.len()
        invariant
            0 <= i <= symbols@.len(),
            forall|j: int| 0 <= j < i ==> symbols@[j]@ != sym@,
        decreases symbols@.len() - i,
    {
        if symbols[i] == *sym {
            return true;
        }
        i = i + 1;
    }
    false
}

/// The mean-reversion decision: buy when the ask is more than two standard
/// deviations below the mean close, sell when more than two above, otherwise
/// hold.  All three inputs are scaled price units.
pub open spec fn mean_reversion_signal(ask: int, mean: int, std_dev: int) -> Signal {
    if ask < mean - 2 * std_dev {
        Signal::Buy
    } else if ask > mean + 2 * std_dev {
        Signal::Sell
    } else {
        Signal::Hold
    }
}

/// A trading strategy with its configuration.
#[derive(Debug)]
pub enum Strategy {
    MeanReversion { symbols: Vec<String> },
}

impl Clone for Strategy {
    fn clone(&self) -> (r: Self)
        ensures
            r.spec_symbols() == self.spec_symbols(),
    {
        match self {
            Strategy::MeanReversion { symbols } => {
                let mut copy: Vec<String> = Vec::new();
                let mut i: usize = 0;
                while i < symbols.len()
                    invariant
                        0 <= i <= symbols@.len(),
                        copy@ =~= symbols@.subrange(0, i as int),
                    decreases symbols@.len() - i,
                {
                    copy.push(symbols[i].clone());
                    i = i + 1;
                }
                assert(copy@ =~= symbols@);
                Strategy::MeanReversion { symbols: copy }
            },
        }
    }
}

impl Strategy {
    /// Builds the strategy for a configured name.  Only "mean-reversion" is
    /// known; any other name is a configuration error and is excluded here.
    pub fn new(name: &str, symbols: Vec<String>) -> (r: Self)
        requires
            name@ == "mean-reversion"@,
        ensures
            r == (Strategy::MeanReversion { symbols }),
    {
        Strategy::MeanReversion { symbols }
    }

    /// The canonical configuration name of the strategy, used to label
    /// realized profit-and-loss records.
    pub fn name(&self) -> (r: String)
        ensures
            r@ == "mean-reversion"@,
    {
        String::from_str("mean-reversion")
    }

    /// The symbols the strategy trades.
    pub open spec fn spec_symbols(&self) -> Seq<String> {
        match self {
            Strategy::MeanReversion { symbols } => symbols@,
        }
    }

    /// Evaluates the strategy on one quote.  Quotes for symbols outside the
    /// strategy's symbol set yield `Hold`; inside it, the mean-reversion
    /// rule decides.  Evaluation itself never fails.
    pub fn handle(&self, quote: &Quote, data: &SymbolData) -> (r: Result<Signal, String>)
        requires
            quote.ask <= MAX_PRICE,
            data.mean <= MAX_PRICE,
            data.std_dev <= MAX_PRICE,
        ensures
            r is Ok,
            seq_contains_sym(self.spec_symbols(), quote.symbol@) ==> r->Ok_0
                == mean_reversion_signal(quote.ask as int, data.mean as int, data.std_dev as int),
            !seq_contains_sym(self.spec_symbols(), quote.symbol@) ==> r->Ok_0 == Signal::Hold,
    {
        match self {
            Strategy::MeanReversion { symbols } => {
                if contains_symbol(symbols, &quote.symbol) {
                    let ask: i128 = quote.ask as i128;
                    let mean: i128 = data.mean as i128;
                    let std_dev: i128 = data.std_dev as i128;
                    if ask < mean - 2 * std_dev {
                        Ok(Signal::Buy)
                    } else if ask > mean + 2 * std_dev {
                        Ok(Signal::Sell)
                    } else {
                        Ok(Signal::Hold)
                    }
                } else {
                    Ok(Signal::Hold)
                }
            },
        }
    }
}

} // verus!
