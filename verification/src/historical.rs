//! The historical data cache: a one-shot snapshot mapping each symbol to its
//! ordered daily bars, and the backtest adapter that re-windows it to the
//! sub-range a given replay date may see.

use vstd::prelude::*;
use crate::date::{Date, MAX_DAYS, MIN_DAYS};
use crate::domain::Day;

verus! {

/// The first entry for a symbol, if any, as its day sequence.
pub open spec fn spec_history(s: Seq<(String, Vec<Day>)>, sym: Seq<char>) -> Option<Seq<Day>>
    decreases s.len(),
{
    if s.len() == 0 {
        None
    } else if s[0].0@ == sym {
        Some(s[0].1@)
    } else {
        spec_history(s.drop_first(), sym)
    }
}

/// No two entries share a symbol.
pub open spec fn wf_history_seq(s: Seq<(String, Vec<Day>)>) -> bool {
    forall|i: int, j: int|
        0 <= i < j < s.len() ==> (#[trigger] s[i].0@) != (#[trigger] s[j].0@)
}

/// Under symbol uniqueness, a matching index pins the history found.
pub proof fn lemma_history_unique(s: Seq<(String, Vec<Day>)>, sym: Seq<char>, i: int)
    requires
        wf_history_seq(s),
        0 <= i < s.len(),
        s[i].0@ == sym,
    ensures
        spec_history(s, sym) == Some(s[i].1@),
    decreases i,
{
    if i > 0 {
        assert(s[0].0@ != sym);
        assert(s.drop_first()[i - 1] == s[i]);
        lemma_history_unique(s.drop_first(), sym, i - 1);
    }
}

/// When no entry matches, nothing is found.
pub proof fn lemma_history_none(s: Seq<(String, Vec<Day>)>, sym: Seq<char>)
    requires
        forall|i: int| 0 <= i < s.len() ==> (#[trigger] s[i].0@) != sym,
    ensures
        spec_history(s, sym) is None,
    decreases s.len(),
{
    if s.len() > 0 {
        assert(forall|i: int|
            0 <= i < s.drop_first().len() ==> #[trigger] s.drop_first()[i] == s[i + 1]);
        lemma_history_none(s.drop_first(), sym);
    }
}

/// The in-memory snapshot: one entry per symbol, fetched once and read-only
/// thereafter.
pub struct HistoricalData {
    pub entries: Vec<(String, Vec<Day>)>,
}

impl HistoricalData {
    pub open spec fn wf(&self) -> bool {
        wf_history_seq(self.entries@)
    }

    pub open spec fn spec_get(&self, sym: Seq<char>) -> Option<Seq<Day>> {
        spec_history(self.entries@, sym)
    }

    pub fn new() -> (r: Self)
        ensures
            r.wf(),
            r.entries@.len() == 0,
    {
        HistoricalData { entries: Vec::new() }
    }

    /// Adds one symbol's bars; the symbol must be new to the snapshot.
    pub fn add_symbol(&mut self, symbol: String, days: Vec<Day>)
        requires
            old(self).wf(),
            old(self).spec_get(symbol@) is None,
        ensures
            final(self).wf(),
            final(self).entries@ == old(self).entries@.push((symbol, days)),
            final(self).spec_get(symbol@) == Some(days@),
    {
        proof {
            crate::historical::lemma_history_contrapos(self.entries@, symbol@);
        }
        let ghost olds = self.entries@;
        self.entries.push((symbol, days));
        proof {
            assert(self.entries@ == olds.push((symbol, days)));
            assert(forall|j: int| 0 <= j < olds.len() ==> #[trigger] self.entries@[j] == olds[j]);
            assert(wf_history_seq(self.entries@));
            lemma_history_unique(self.entries@, symbol@, olds.len() as int);
        }
    }

    /// The bars cached for a symbol, if any.
    pub fn get(&self, symbol: &String) -> (r: Option<&Vec<Day>>)
        requires
            self.wf(),
        ensures
            r matches Some(v) ==> self.spec_get(symbol@) == Some(v@),
            r is None ==> self.spec_get(symbol@) is None,
    {
        let mut i: usize = 0;
        while i < self.entries.len()
            invariant
                self.wf(),
                0 <= i <= self.entries@.len(),
                forall|j: int| 0 <= j < i ==> (#[trigger] self.entries@[j].0@) != symbol@,
            decreases self.entries@.len() - i,
        {
            if self.entries[i].0 == *symbol {
                proof {
                    lemma_history_unique(self.entries@, symbol@, i as int);
                }
                return Some(&self.entries[i].1);
            }
            i = i + 1;
        }
        proof {
            lemma_history_none(self.entries@, symbol@);
        }
        None
    }

    /// The whole snapshot; the live provider ignores the end date, which is
    /// always the current day there.
    pub fn fetch(&self, end: Date) -> (r: &HistoricalData)
        ensures
            r == self,
    {
        let _ = end;
        self
    }
}

/// When a symbol is absent, no entry carries it.
pub proof fn lemma_history_contrapos(s: Seq<(String, Vec<Day>)>, sym: Seq<char>)
    requires
        spec_history(s, sym) is None,
    ensures
        forall|i: int| 0 <= i < s.len() ==> (#[trigger] s[i].0@) != sym,
    decreases s.len(),
{
    if s.len() > 0 {
        assert(forall|i: int|
            0 <= i < s.drop_first().len() ==> #[trigger] s.drop_first()[i] == s[i + 1]);
        lemma_history_contrapos(s.drop_first(), sym);
        assert(forall|i: int| 1 <= i < s.len() ==> s[i] == s.drop_first()[i - 1]);
    }
}

/// The bars of one symbol that fall in the closed day range.
pub open spec fn window_of(days: Seq<Day>, start_days: int, end_days: int) -> Seq<Day> {
    days.filter(|d: Day| start_days <= d.date.days <= end_days)
}

proof fn lemma_window_empty(start_days: int, end_days: int)
    ensures
        window_of(Seq::<Day>::empty(), start_days, end_days) == Seq::<Day>::empty(),
{
    reveal(Seq::filter);
}

proof fn lemma_window_push(days: Seq<Day>, d: Day, start_days: int, end_days: int)
    ensures
        window_of(days.push(d), start_days, end_days) == if start_days <= d.date.days
            <= end_days {
            window_of(days, start_days, end_days).push(d)
        } else {
            window_of(days, start_days, end_days)
        },
{
    reveal(Seq::filter);
    assert(days.push(d).drop_last() =~= days);
}

/// When two snapshots run in parallel — same symbols in the same order,
/// each history of the first the window of the second's — every lookup in
/// the first is the window of the same lookup in the second.
pub proof fn lemma_windowed_history(
    w: Seq<(String, Vec<Day>)>,
    u: Seq<(String, Vec<Day>)>,
    start_days: int,
    end_days: int,
    sym: Seq<char>,
)
    requires
        w.len() == u.len(),
        forall|i: int|
            0 <= i < w.len() ==> (#[trigger] w[i].0) == u[i].0 && w[i].1@ == window_of(
                u[i].1@,
                start_days,
                end_days,
            ),
    ensures
        spec_history(w, sym) == match spec_history(u, sym) {
            Some(h) => Some(window_of(h, start_days, end_days)),
            None => None::<Seq<Day>>,
        },
    decreases w.len(),
{
    if w.len() > 0 {
        assert(w[0].0 == u[0].0);
        assert(forall|i: int|
            0 <= i < w.drop_first().len() ==> #[trigger] w.drop_first()[i] == w[i + 1]);
        assert(forall|i: int|
            0 <= i < u.drop_first().len() ==> #[trigger] u.drop_first()[i] == u[i + 1]);
        lemma_windowed_history(w.drop_first(), u.drop_first(), start_days, end_days, sym);
    }
}

/// The backtest adapter over the snapshot: `fetch(end)` narrows every
/// symbol's bars to the `hist_data_range` days ending at `end`, so a replay
/// date sees only the history it would have had.
pub struct BacktestHistoricalData {
    pub end: Date,
    pub range: i64,
    pub hist_data_range: i64,
    pub underlying: HistoricalData,
}

impl BacktestHistoricalData {
    pub open spec fn wf(&self) -> bool {
        &&& self.underlying.wf()
        &&& 0 <= self.range
        &&& 0 <= self.hist_data_range
    }

    pub fn new(end: Date, range: i64, hist_data_range: i64, underlying: HistoricalData) -> (r:
        Self)
        requires
            underlying.wf(),
            0 <= range,
            0 <= hist_data_range,
        ensures
            r.wf(),
            r.end == end,
            r.range == range,
            r.hist_data_range == hist_data_range,
            r.underlying == underlying,
    {
        BacktestHistoricalData { end, range, hist_data_range, underlying }
    }

    /// The full, unwindowed snapshot.
    pub fn all(&self) -> (r: &HistoricalData)
        ensures
            r == &self.underlying,
    {
        &self.underlying
    }

    /// The snapshot narrowed to `[end - hist_data_range, end]`: every symbol
    /// keeps exactly its bars dated in that window, in order.
    pub fn fetch(&self, end: Date) -> (r: HistoricalData)
        requires
            self.wf(),
            MIN_DAYS <= end.days - self.hist_data_range,
            end.days <= MAX_DAYS,
        ensures
            r.wf(),
            r.entries@.len() == self.underlying.entries@.len(),
            forall|i: int|
                0 <= i < r.entries@.len() ==> (#[trigger] r.entries@[i].0) == self.underlying.entries@[i].0
                    && r.entries@[i].1@ == window_of(
                    self.underlying.entries@[i].1@,
                    end.days - self.hist_data_range,
                    end.days as int,
                ),
    {
        let start: i64 = end.days - self.hist_data_range;
        let mut out = HistoricalData::new();
        let mut i: usize = 0;
        while i < self.underlying.entries.len()
            invariant
                self.wf(),
                0 <= i <= self.underlying.entries@.len(),
                out.entries@.len() == i,
                start == end.days - self.hist_data_range,
                forall|j: int|
                    0 <= j < i ==> (#[trigger] out.entries@[j].0)
                        == self.underlying.entries@[j].0 && out.entries@[j].1@ == window_of(
                        self.underlying.entries@[j].1@,
                        start as int,
                        end.days as int,
                    ),
            decreases self.underlying.entries@.len() - i,
        {
            let src: &Vec<Day> = &self.underlying.entries[i].1;
            let mut days: Vec<Day> = Vec::new();
            let mut k: usize = 0;
            proof {
                assert(src@.subrange(0, 0) =~= Seq::<Day>::empty());
                lemma_window_empty(start as int, end.days as int);
            }
            while k < src.len()
                invariant
                    0 <= k <= src@.len(),
                    start == end.days - self.hist_data_range,
                    days@ == window_of(src@.subrange(0, k as int), start as int, end.days as int),
                decreases src@.len() - k,
            {
                let ghost pre = src@.subrange(0, k as int);
                let d = &src[k];
                if start <= d.date.days && d.date.days <= end.days {
                    days.push(d.clone());
                }
                proof {
                    assert(src@.subrange(0, k + 1 as int) =~= pre.push(src@[k as int]));
                    lemma_window_push(pre, src@[k as int], start as int, end.days as int);
                }
                k = k + 1;
            }
            proof {
                assert(src@.subrange(0, src@.len() as int) =~= src@);
            }
            let ghost pre_entries = out.entries@;
            out.entries.push((self.underlying.entries[i].0.clone(), days));
            proof {
                assert(forall|j: int|
                    0 <= j < pre_entries.len() ==> #[trigger] out.entries@[j] == pre_entries[j]);
            }
            i = i + 1;
        }
        proof {
            assert forall|a: int, b: int|
                0 <= a < b < out.entries@.len() implies (#[trigger] out.entries@[a].0@)
                != (#[trigger] out.entries@[b].0@) by {
                assert(out.entries@[a].0 == self.underlying.entries@[a].0);
                assert(out.entries@[b].0 == self.underlying.entries@[b].0);
            }
        }
        out
    }
}

} // verus!
