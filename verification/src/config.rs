//! Run configuration: the strategies to trade, each with its symbols and
//! per-symbol capital caps, and the history and replay window lengths.
//! Loading the layered configuration files is the host program's business;
//! the library receives plain values.

use vstd::prelude::*;
use crate::domain::MAX_CAPITAL;

verus! {

/// One configured strategy: its name, its symbols, and the capital cap for
/// each symbol, in whole currency units.
#[derive(Debug)]
pub struct Strategy {
    pub name: String,
    pub symbols: Vec<String>,
    pub capital: Vec<(String, i64)>,
}

/// Every capital cap is within the representable range.
pub open spec fn wf_capital(entries: Seq<(String, i64)>) -> bool {
    forall|i: int| 0 <= i < entries.len() ==> 0 <= (#[trigger] entries[i]).1 <= MAX_CAPITAL
}

/// The first capital cap recorded for a symbol, or 0 when none is.
pub open spec fn spec_capital_of(entries: Seq<(String, i64)>, sym: Seq<char>) -> i64
    decreases entries.len(),
{
    if entries.len() == 0 {
        0
    } else if entries[0].0@ == sym {
        entries[0].1
    } else {
        spec_capital_of(entries.drop_first(), sym)
    }
}

/// When every cap is in range, so is every lookup.
pub proof fn lemma_capital_of_bounded(entries: Seq<(String, i64)>, sym: Seq<char>)
    requires
        wf_capital(entries),
    ensures
        0 <= spec_capital_of(entries, sym) <= MAX_CAPITAL,
    decreases entries.len(),
{
    if entries.len() > 0 {
        assert(forall|j: int|
            0 <= j < entries.drop_first().len() ==> #[trigger] entries.drop_first()[j] == entries[
                j + 1
            ]);
        lemma_capital_of_bounded(entries.drop_first(), sym);
    }
}

/// The capital cap configured for a symbol, or 0 when none is.
pub fn capital_for(entries: &Vec<(String, i64)>, symbol: &String) -> (r: i64)
    ensures
        r == spec_capital_of(entries@, symbol@),
{
    let mut i: usize = 0;
    while i < entries.len()
        invariant
            0 <= i <= entries@.len(),
            forall|j: int| 0 <= j < i ==> (#[trigger] entries@[j].0@) != symbol@,
        decreases entries@.len() - i,
    {
        if entries[i].0 == *symbol {
            proof {
                lemma_capital_at(entries@, symbol@, i as int);
            }
            return entries[i].1;
        }
        i = i + 1;
    }
    proof {
        lemma_capital_none(entries@, symbol@);
    }
    0
}

proof fn lemma_capital_at(entries: Seq<(String, i64)>, sym: Seq<char>, i: int)
    requires
        0 <= i < entries.len(),
        entries[i].0@ == sym,
        forall|j: int| 0 <= j < i ==> (#[trigger] entries[j].0@) != sym,
    ensures
        spec_capital_of(entries, sym) == entries[i].1,
    decreases i,
{
    if i > 0 {
        assert(entries.drop_first()[i - 1] == entries[i]);
        assert(forall|j: int|
            0 <= j < i - 1 ==> #[trigger] entries.drop_first()[j].0@ == entries[j + 1].0@);
        lemma_capital_at(entries.drop_first(), sym, i - 1);
    }
}

proof fn lemma_capital_none(entries: Seq<(String, i64)>, sym: Seq<char>)
    requires
        forall|j: int| 0 <= j < entries.len() ==> (#[trigger] entries[j].0@) != sym,
    ensures
        spec_capital_of(entries, sym) == 0,
    decreases entries.len(),
{
    if entries.len() > 0 {
        assert(forall|j: int|
            0 <= j < entries.drop_first().len() ==> #[trigger] entries.drop_first()[j] == entries[
                j + 1
            ]);
        lemma_capital_none(entries.drop_first(), sym);
    }
}

impl Strategy {
    /// Pairs each symbol with its cap, as the configuration file lists them:
    /// the two lists run in parallel, and symbols beyond the cap list get no
    /// entry.
    pub fn from_lists(name: String, symbols: Vec<String>, caps: Vec<i64>) -> (r: Strategy)
        ensures
            r.name == name,
            r.symbols@ == symbols@,
            r.capital@.len() == if symbols@.len() <= caps@.len() {
                symbols@.len()
            } else {
                caps@.len()
            },
            forall|i: int|
                0 <= i < r.capital@.len() ==> (#[trigger] r.capital@[i]) == (
                symbols@[i],
                caps@[i],
            ),
    {
        let n: usize = if symbols.len() <= caps.len() {
            symbols.len()
        } else {
            caps.len()
        };
        let mut capital: Vec<(String, i64)> = Vec::new();
        let mut i: usize = 0;
        while i < n
            invariant
                n <= symbols@.len(),
                n <= caps@.len(),
                0 <= i <= n,
                capital@.len() == i,
                forall|j: int|
                    0 <= j < i ==> (#[trigger] capital@[j]) == (symbols@[j], caps@[j]),
            decreases n - i,
        {
            capital.push((symbols[i].clone(), caps[i]));
            i = i + 1;
        }
        Strategy { name, symbols, capital }
    }
}

/// The run configuration.
#[derive(Debug)]
pub struct AppConfig {
    pub sandbox: bool,
    pub strategies: Vec<Strategy>,
    pub hist_data_range: i64,
    pub backtest_range: i64,
}

impl AppConfig {
    /// Every symbol any strategy trades, in strategy order; a symbol traded
    /// by two strategies appears twice, as it does in the configuration.
    pub fn all_symbols(&self) -> (r: Vec<String>)
        ensures
            r@ == spec_all_symbols(self.strategies@),
    {
        let mut out: Vec<String> = Vec::new();
        let mut i: usize = 0;
        proof {
            assert(self.strategies@.subrange(0, 0) =~= Seq::<Strategy>::empty());
        }
        while i < self.strategies.len()
            invariant
                0 <= i <= self.strategies@.len(),
                out@ == spec_all_symbols(self.strategies@.subrange(0, i as int)),
            decreases self.strategies@.len() - i,
        {
            let ghost pre = self.strategies@.subrange(0, i as int);
            let symbols = &self.strategies[i].symbols;
            let mut k: usize = 0;
            while k < symbols.len()
                invariant
                    symbols@ == self.strategies@[i as int].symbols@,
                    i < self.strategies@.len(),
                    0 <= k <= symbols@.len(),
                    out@ == spec_all_symbols(pre) + symbols@.subrange(0, k as int),
                decreases symbols@.len() - k,
            {
                out.push(symbols[k].clone());
                proof {
                    assert(out@ =~= spec_all_symbols(pre) + symbols@.subrange(0, k + 1 as int));
                }
                k = k + 1;
            }
            proof {
                assert(symbols@.subrange(0, symbols@.len() as int) =~= symbols@);
                assert(self.strategies@.subrange(0, i + 1 as int) =~= pre.push(
                    self.strategies@[i as int],
                ));
                lemma_all_symbols_push(pre, self.strategies@[i as int]);
            }
            i = i + 1;
        }
        proof {
            assert(self.strategies@.subrange(0, self.strategies@.len() as int)
                =~= self.strategies@);
        }
        out
    }
}

/// The symbols of every strategy, concatenated in order.
pub open spec fn spec_all_symbols(strategies: Seq<Strategy>) -> Seq<String>
    decreases strategies.len(),
{
    if strategies.len() == 0 {
        Seq::empty()
    } else {
        strategies[0].symbols@ + spec_all_symbols(strategies.drop_first())
    }
}

proof fn lemma_all_symbols_push(strategies: Seq<Strategy>, s: Strategy)
    ensures
        spec_all_symbols(strategies.push(s)) == spec_all_symbols(strategies) + s.symbols@,
    decreases strategies.len(),
{
    let p = strategies.push(s);
    if strategies.len() == 0 {
        assert(p[0] == s);
        assert(p.drop_first() =~= Seq::<Strategy>::empty());
        assert(spec_all_symbols(p.drop_first()) == Seq::<String>::empty());
        assert(spec_all_symbols(strategies) == Seq::<String>::empty());
        assert(spec_all_symbols(p) == p[0].symbols@ + spec_all_symbols(p.drop_first()));
        assert(spec_all_symbols(p) =~= spec_all_symbols(strategies) + s.symbols@);
    } else {
        assert(p[0] == strategies[0]);
        assert(p.drop_first() =~= strategies.drop_first().push(s));
        lemma_all_symbols_push(strategies.drop_first(), s);
        assert(spec_all_symbols(p) == p[0].symbols@ + spec_all_symbols(p.drop_first()));
        assert(spec_all_symbols(strategies) == strategies[0].symbols@ + spec_all_symbols(
            strategies.drop_first(),
        ));
        assert(strategies[0].symbols@ + (spec_all_symbols(strategies.drop_first()) + s.symbols@)
            =~= (strategies[0].symbols@ + spec_all_symbols(strategies.drop_first())) + s.symbols@);
        assert(spec_all_symbols(p) =~= spec_all_symbols(strategies) + s.symbols@);
    }
}

} // verus!
