//! Rolling statistics over daily closes: the floor-rounded mean, the
//! population variance, the standard deviation as an integer square root,
//! and a simple moving average.

use vstd::prelude::*;
use crate::date::Date;
use crate::domain::{wf_day, wf_symbol_data, Day, SymbolData, MAX_PRICE};
use crate::historical::HistoricalData;

verus! {

/// Largest history length the statistics are computed over.
pub const MAX_HISTORY: usize = 100000;

/// The sum of the closes, in scaled price units.
pub open spec fn sum_closes(days: Seq<Day>) -> int
    decreases days.len(),
{
    if days.len() == 0 {
        0
    } else {
        days[0].close + sum_closes(days.drop_first())
    }
}

proof fn lemma_sum_closes_push(days: Seq<Day>, d: Day)
    ensures
        sum_closes(days.push(d)) == sum_closes(days) + d.close,
    decreases days.len(),
{
    let p = days.push(d);
    if days.len() == 0 {
        assert(p[0] == d);
        assert(p.drop_first() =~= Seq::<Day>::empty());
        assert(sum_closes(p) == p[0].close + sum_closes(p.drop_first()));
        assert(sum_closes(p.drop_first()) == 0);
        assert(sum_closes(days) == 0);
    } else {
        assert(p[0] == days[0]);
        assert(p.drop_first() =~= days.drop_first().push(d));
        lemma_sum_closes_push(days.drop_first(), d);
        assert(sum_closes(p) == p[0].close + sum_closes(p.drop_first()));
        assert(sum_closes(days) == days[0].close + sum_closes(days.drop_first()));
    }
}

/// The floor of the average close.
pub open spec fn spec_mean(days: Seq<Day>) -> int
    recommends
        days.len() > 0,
{
    sum_closes(days) / days.len() as int
}

/// The sum of squared deviations of the closes from `mean`.
pub open spec fn sum_sq_dev(days: Seq<Day>, mean: int) -> int
    decreases days.len(),
{
    if days.len() == 0 {
        0
    } else {
        (days[0].close - mean) * (days[0].close - mean) + sum_sq_dev(days.drop_first(), mean)
    }
}

proof fn lemma_sum_sq_dev_push(days: Seq<Day>, d: Day, mean: int)
    ensures
        sum_sq_dev(days.push(d), mean) == sum_sq_dev(days, mean) + (d.close - mean) * (d.close
            - mean),
    decreases days.len(),
{
    let p = days.push(d);
    if days.len() == 0 {
        assert(p[0] == d);
        assert(p.drop_first() =~= Seq::<Day>::empty());
        assert(sum_sq_dev(p, mean) == (p[0].close - mean) * (p[0].close - mean) + sum_sq_dev(
            p.drop_first(),
            mean,
        ));
        assert(sum_sq_dev(p.drop_first(), mean) == 0);
        assert(sum_sq_dev(days, mean) == 0);
    } else {
        assert(p[0] == days[0]);
        assert(p.drop_first() =~= days.drop_first().push(d));
        lemma_sum_sq_dev_push(days.drop_first(), d, mean);
        assert(sum_sq_dev(p, mean) == (p[0].close - mean) * (p[0].close - mean) + sum_sq_dev(
            p.drop_first(),
            mean,
        ));
        assert(sum_sq_dev(days, mean) == (days[0].close - mean) * (days[0].close - mean)
            + sum_sq_dev(days.drop_first(), mean));
    }
}

/// The floor of the population variance: squared deviations from the
/// floor-rounded mean, averaged.
pub open spec fn spec_variance(days: Seq<Day>) -> int
    recommends
        days.len() > 0,
{
    sum_sq_dev(days, spec_mean(days)) / days.len() as int
}

/// The floor of the square root of a non-negative number.
pub open spec fn spec_isqrt(n: int) -> int {
    choose|r: int| 0 <= r && (#[trigger] (r * r)) <= n < (r + 1) * (r + 1)
}

/// The bracket `r * r <= n < (r + 1) * (r + 1)` has exactly one solution.
pub proof fn lemma_isqrt_unique(n: int, r: int)
    requires
        r >= 0,
        r * r <= n < (r + 1) * (r + 1),
    ensures
        spec_isqrt(n) == r,
{
    assert(exists|q: int| 0 <= q && (#[trigger] (q * q)) <= n < (q + 1) * (q + 1)) by {
        assert(0 <= r && r * r <= n < (r + 1) * (r + 1));
    }
    let q = spec_isqrt(n);
    assert(0 <= q && q * q <= n < (q + 1) * (q + 1));
    if q < r {
        assert((q + 1) * (q + 1) <= r * r) by (nonlinear_arith)
            requires
                0 <= q < r,
        ;
    }
    if r < q {
        assert((r + 1) * (r + 1) <= q * q) by (nonlinear_arith)
            requires
                0 <= r < q,
        ;
    }
}

/// The floor of the square root: `r * r <= n < (r + 1) * (r + 1)`.
pub fn isqrt(n: u128) -> (r: u64)
    requires
        n < 0x100000000000000000000000000,
    ensures
        r * r <= n < (r + 1) * (r + 1),
        r as int * r as int <= n,
        r == spec_isqrt(n as int),
{
    let mut lo: u64 = 0;
    let mut hi: u64 = 0x10000000000000;
    proof {
        assert((hi as int) * (hi as int) == 0x100000000000000000000000000) by (nonlinear_arith)
            requires
                hi == 0x10000000000000u64,
        ;
    }
    while lo + 1 < hi
        invariant
            0 <= lo < hi <= 0x10000000000000,
            (lo as int) * (lo as int) <= n,
            (hi as int) * (hi as int) > n,
        decreases hi - lo,
    {
        let mid: u64 = lo + (hi - lo) / 2;
        proof {
            assert(lo < mid < hi);
            assert((mid as int) * (mid as int) <= 0x10000000000000 * 0x10000000000000)
                by (nonlinear_arith)
                requires
                    0 <= mid as int <= 0x10000000000000,
            ;
        }
        let sq: u128 = (mid as u128) * (mid as u128);
        if sq <= n {
            lo = mid;
        } else {
            hi = mid;
        }
    }
    proof {
        assert((lo + 1) * (lo + 1) > n);
        lemma_isqrt_unique(n as int, lo as int);
    }
    lo
}

/// The statistics of one symbol's history: the floor-rounded mean and the
/// integer square root of the floor-rounded population variance of its
/// closes.
pub fn compute_symbol_data(symbol: String, history: Vec<Day>) -> (r: SymbolData)
    requires
        1 <= history@.len() <= MAX_HISTORY,
        forall|i: int| 0 <= i < history@.len() ==> wf_day(#[trigger] history@[i]),
    ensures
        r.symbol == symbol,
        r.history@ == history@,
        r.mean == spec_mean(history@),
        r.std_dev == spec_isqrt(spec_variance(history@)),
        r.std_dev as int * r.std_dev as int <= spec_variance(history@) < (r.std_dev + 1) * (
        r.std_dev + 1),
        wf_symbol_data(r),
{
    let n: usize = history.len();
    let ghost whole = history@;
    let mut sum: u128 = 0;
    let mut i: usize = 0;
    while i < n
        invariant
            n == whole.len(),
            1 <= n <= MAX_HISTORY,
            history@ == whole,
            forall|j: int| 0 <= j < whole.len() ==> wf_day(#[trigger] whole[j]),
            0 <= i <= n,
            sum == sum_closes(whole.subrange(0, i as int)),
            sum <= i * (MAX_PRICE as int),
        decreases n - i,
    {
        proof {
            assert(whole.subrange(0, i + 1 as int) =~= whole.subrange(0, i as int).push(
                whole[i as int],
            ));
            lemma_sum_closes_push(whole.subrange(0, i as int), whole[i as int]);
            assert(wf_day(whole[i as int]));
            assert((i + 1) * (MAX_PRICE as int) == i * (MAX_PRICE as int) + MAX_PRICE as int)
                by (nonlinear_arith);
            assert(MAX_HISTORY * (MAX_PRICE as int) < 0xffffffffffffffffffffffffffffffff);
            assert((i + 1) * (MAX_PRICE as int) <= MAX_HISTORY * (MAX_PRICE as int))
                by (nonlinear_arith)
                requires
                    i + 1 <= MAX_HISTORY,
                    MAX_PRICE > 0,
            ;
        }
        sum = sum + history[i].close as u128;
        i = i + 1;
    }
    proof {
        assert(whole.subrange(0, n as int) =~= whole);
    }
    let mean_wide: u128 = sum / (n as u128);
    proof {
        assert(sum <= whole.len() * (MAX_PRICE as int));
        assert(sum as int / (n as int) <= MAX_PRICE) by (nonlinear_arith)
            requires
                0 < n as int,
                0 <= sum <= (n as int) * (MAX_PRICE as int),
        ;
    }
    let mean: u64 = mean_wide as u64;
    let ghost m = mean as int;
    let mut sumsq: u128 = 0;
    let mut k: usize = 0;
    while k < n
        invariant
            n == whole.len(),
            1 <= n <= MAX_HISTORY,
            history@ == whole,
            forall|j: int| 0 <= j < whole.len() ==> wf_day(#[trigger] whole[j]),
            0 <= k <= n,
            0 <= m <= MAX_PRICE,
            mean as int == m,
            sumsq == sum_sq_dev(whole.subrange(0, k as int), m),
            sumsq <= k * ((MAX_PRICE as int) * (MAX_PRICE as int)),
        decreases n - k,
    {
        proof {
            assert(whole.subrange(0, k + 1 as int) =~= whole.subrange(0, k as int).push(
                whole[k as int],
            ));
            lemma_sum_sq_dev_push(whole.subrange(0, k as int), whole[k as int], m);
            assert(wf_day(whole[k as int]));
        }
        let dev: i128 = history[k].close as i128 - mean as i128;
        proof {
            assert(0 <= dev * dev <= (MAX_PRICE as int) * (MAX_PRICE as int)) by (nonlinear_arith)
                requires
                    -(MAX_PRICE as int) <= dev as int <= MAX_PRICE as int,
            ;
            assert((k + 1) * ((MAX_PRICE as int) * (MAX_PRICE as int)) == k * ((MAX_PRICE as int)
                * (MAX_PRICE as int)) + (MAX_PRICE as int) * (MAX_PRICE as int))
                by (nonlinear_arith);
            assert((k + 1) * ((MAX_PRICE as int) * (MAX_PRICE as int)) <= MAX_HISTORY * ((
            MAX_PRICE as int) * (MAX_PRICE as int))) by (nonlinear_arith)
                requires
                    k + 1 <= MAX_HISTORY,
                    MAX_PRICE > 0,
            ;
            assert(MAX_HISTORY * ((MAX_PRICE as int) * (MAX_PRICE as int))
                < 0xffffffffffffffffffffffffffffffff);
        }
        let sq: u128 = (dev * dev) as u128;
        sumsq = sumsq + sq;
        k = k + 1;
    }
    proof {
        assert(whole.subrange(0, n as int) =~= whole);
    }
    let variance: u128 = sumsq / (n as u128);
    proof {
        assert(variance <= (MAX_PRICE as int) * (MAX_PRICE as int)) by (nonlinear_arith)
            requires
                0 < n as int,
                0 <= sumsq <= (n as int) * ((MAX_PRICE as int) * (MAX_PRICE as int)),
                variance == sumsq as int / (n as int),
        ;
        assert((MAX_PRICE as int) * (MAX_PRICE as int) < 0x100000000000000000000000000);
    }
    let std_dev: u64 = isqrt(variance);
    proof {
        assert(std_dev <= MAX_PRICE) by (nonlinear_arith)
            requires
                std_dev as int * std_dev as int <= variance as int,
                variance as int <= (MAX_PRICE as int) * (MAX_PRICE as int),
                std_dev >= 0,
                MAX_PRICE > 0,
        ;
    }
    SymbolData { symbol, history, mean, std_dev }
}

/// The statistics of every requested symbol, computed from the snapshot.
/// Every requested symbol must be present with a non-empty history.
pub fn load_history(end: Date, symbols: &Vec<String>, data: &HistoricalData) -> (r: Vec<
    SymbolData,
>)
    requires
        data.wf(),
        forall|i: int|
            0 <= i < symbols@.len() ==> {
                let h = #[trigger] data.spec_get(symbols@[i]@);
                &&& h is Some
                &&& 1 <= h->0.len() <= MAX_HISTORY
                &&& forall|j: int| 0 <= j < h->0.len() ==> wf_day(#[trigger] h->0[j])
            },
    ensures
        r@.len() == symbols@.len(),
        forall|i: int|
            0 <= i < r@.len() ==> {
                let h = data.spec_get(symbols@[i]@)->0;
                &&& (#[trigger] r@[i]).symbol == symbols@[i]
                &&& r@[i].history@ == h
                &&& r@[i].mean == spec_mean(h)
                &&& r@[i].std_dev == spec_isqrt(spec_variance(h))
                &&& wf_symbol_data(r@[i])
            },
{
    let snapshot = data.fetch(end);
    let mut out: Vec<SymbolData> = Vec::new();
    let mut i: usize = 0;
    while i < symbols.len()
        invariant
            data.wf(),
            snapshot == data,
            forall|t: int|
                0 <= t < symbols@.len() ==> {
                    let h = #[trigger] data.spec_get(symbols@[t]@);
                    &&& h is Some
                    &&& 1 <= h->0.len() <= MAX_HISTORY
                    &&& forall|j: int| 0 <= j < h->0.len() ==> wf_day(#[trigger] h->0[j])
                },
            0 <= i <= symbols@.len(),
            out@.len() == i,
            forall|t: int|
                0 <= t < i ==> {
                    let h = data.spec_get(symbols@[t]@)->0;
                    &&& (#[trigger] out@[t]).symbol == symbols@[t]
                    &&& out@[t].history@ == h
                    &&& out@[t].mean == spec_mean(h)
                    &&& out@[t].std_dev == spec_isqrt(spec_variance(h))
                    &&& wf_symbol_data(out@[t])
                },
        decreases symbols@.len() - i,
    {
        let symbol = &symbols[i];
        let history: Vec<Day> = match snapshot.get(symbol) {
            Some(days) => {
                let mut copy: Vec<Day> = Vec::new();
                let mut k: usize = 0;
                while k < days.len()
                    invariant
                        0 <= k <= days@.len(),
                        copy@ =~= days@.subrange(0, k as int),
                    decreases days@.len() - k,
                {
                    copy.push(days[k].clone());
                    k = k + 1;
                }
                assert(copy@ =~= days@);
                copy
            },
            None => {
                proof {
                    assert(false);
                }
                Vec::new()
            },
        };
        let stats = compute_symbol_data(symbol.clone(), history);
        out.push(stats);
        i = i + 1;
    }
    out
}

/// The first statistics entry for a symbol, if any.
pub open spec fn spec_stats_lookup(s: Seq<SymbolData>, sym: Seq<char>) -> Option<SymbolData>
    decreases s.len(),
{
    if s.len() == 0 {
        None
    } else if s[0].symbol@ == sym {
        Some(s[0])
    } else {
        spec_stats_lookup(s.drop_first(), sym)
    }
}

/// What the statistics lookup finds: an entry carrying the symbol, or
/// nothing when no entry does.
pub proof fn lemma_stats_lookup_member(s: Seq<SymbolData>, sym: Seq<char>)
    ensures
        (spec_stats_lookup(s, sym) matches Some(d) ==> exists|i: int|
            0 <= i < s.len() && (#[trigger] s[i]) == d && s[i].symbol@ == sym),
        spec_stats_lookup(s, sym) is None <==> (forall|i: int|
            0 <= i < s.len() ==> (#[trigger] s[i].symbol@) != sym),
    decreases s.len(),
{
    if s.len() > 0 {
        lemma_stats_lookup_member(s.drop_first(), sym);
        assert(forall|i: int|
            0 <= i < s.drop_first().len() ==> #[trigger] s.drop_first()[i] == s[i + 1]);
        assert(forall|i: int|
            1 <= i < s.len() ==> (#[trigger] s[i].symbol@) == s.drop_first()[i - 1].symbol@);
        if s[0].symbol@ != sym {
            if spec_stats_lookup(s.drop_first(), sym) is Some {
                let d = spec_stats_lookup(s.drop_first(), sym)->0;
                let i = choose|i: int|
                    0 <= i < s.drop_first().len() && (#[trigger] s.drop_first()[i]) == d
                        && s.drop_first()[i].symbol@ == sym;
                assert(s[i + 1] == d && s[i + 1].symbol@ == sym);
            }
        }
    }
}

/// Linear search for a symbol's statistics.
pub fn find_symbol_data<'a>(data: &'a Vec<SymbolData>, symbol: &String) -> (r: Option<
    &'a SymbolData,
>)
    ensures
        r matches Some(d) ==> spec_stats_lookup(data@, symbol@) == Some(*d),
        r matches Some(d) ==> exists|i: int| 0 <= i < data@.len() && (#[trigger] data@[i]) == *d,
        r is None ==> spec_stats_lookup(data@, symbol@) is None,
{
    let mut i: usize = 0;
    while i < data.len()
        invariant
            0 <= i <= data@.len(),
            forall|j: int| 0 <= j < i ==> (#[trigger] data@[j].symbol@) != symbol@,
        decreases data@.len() - i,
    {
        if data[i].symbol == *symbol {
            proof {
                lemma_stats_lookup_at(data@, symbol@, i as int);
            }
            return Some(&data[i]);
        }
        i = i + 1;
    }
    proof {
        lemma_stats_lookup_none(data@, symbol@);
    }
    None
}

proof fn lemma_stats_lookup_at(s: Seq<SymbolData>, sym: Seq<char>, i: int)
    requires
        0 <= i < s.len(),
        s[i].symbol@ == sym,
        forall|j: int| 0 <= j < i ==> (#[trigger] s[j].symbol@) != sym,
    ensures
        spec_stats_lookup(s, sym) == Some(s[i]),
    decreases i,
{
    if i > 0 {
        assert(s.drop_first()[i - 1] == s[i]);
        assert(forall|j: int|
            0 <= j < i - 1 ==> #[trigger] s.drop_first()[j].symbol@ == s[j + 1].symbol@);
        lemma_stats_lookup_at(s.drop_first(), sym, i - 1);
    }
}

proof fn lemma_stats_lookup_none(s: Seq<SymbolData>, sym: Seq<char>)
    requires
        forall|j: int| 0 <= j < s.len() ==> (#[trigger] s[j].symbol@) != sym,
    ensures
        spec_stats_lookup(s, sym) is None,
    decreases s.len(),
{
    if s.len() > 0 {
        assert(forall|j: int|
            0 <= j < s.drop_first().len() ==> #[trigger] s.drop_first()[j] == s[j + 1]);
        lemma_stats_lookup_none(s.drop_first(), sym);
    }
}

/// One bar of a price series for the moving average, in scaled price units.
#[derive(Debug)]
pub struct Series {
    pub date: Date,
    pub open: u64,
    pub close: u64,
    pub high: u64,
    pub low: u64,
    pub volume: u64,
}

/// The sum of the closes of `s[from..to]`.
pub open spec fn series_close_sum(s: Seq<Series>, from: int, to: int) -> int
    decreases to - from,
{
    if from >= to {
        0
    } else {
        s[to - 1].close + series_close_sum(s, from, to - 1)
    }
}

/// The simple moving average of the closes with the given period: entry `i`
/// is 0 for the first `period - 1` entries, and thereafter the floor of the
/// average close over the window ending at `i`.
pub fn calculate_sma(series: &Vec<Series>, period: usize) -> (r: Vec<u64>)
    requires
        1 <= period <= series@.len(),
        forall|i: int| 0 <= i < series@.len() ==> (#[trigger] series@[i].close) <= MAX_PRICE,
        series@.len() <= MAX_HISTORY,
    ensures
        r@.len() == series@.len(),
        forall|i: int| 0 <= i < period - 1 ==> (#[trigger] r@[i]) == 0,
        forall|i: int|
            period - 1 <= i < r@.len() ==> (#[trigger] r@[i]) == series_close_sum(
                series@,
                i + 1 - period,
                i + 1,
            ) / (period as int),
{
    let mut out: Vec<u64> = Vec::new();
    let mut i: usize = 0;
    while i + 1 < period
        invariant
            1 <= period,
            out@.len() == i,
            i <= period - 1,
            forall|j: int| 0 <= j < i ==> (#[trigger] out@[j]) == 0,
        decreases period - 1 - i,
    {
        out.push(0);
        i = i + 1;
    }
    while i < series.len()
        invariant
            1 <= period <= series@.len() <= MAX_HISTORY,
            forall|t: int| 0 <= t < series@.len() ==> (#[trigger] series@[t].close) <= MAX_PRICE,
            period - 1 <= i <= series@.len(),
            out@.len() == i,
            forall|j: int| 0 <= j < period - 1 ==> (#[trigger] out@[j]) == 0,
            forall|j: int|
                period - 1 <= j < i ==> (#[trigger] out@[j]) == series_close_sum(
                    series@,
                    j + 1 - period,
                    j + 1,
                ) / (period as int),
        decreases series@.len() - i,
    {
        let from: usize = i + 1 - period;
        let mut sum: u128 = 0;
        let mut k: usize = from;
        while k <= i
            invariant
                forall|t: int|
                    0 <= t < series@.len() ==> (#[trigger] series@[t].close) <= MAX_PRICE,
                from <= k <= i + 1 <= series@.len() <= MAX_HISTORY,
                sum == series_close_sum(series@, from as int, k as int),
                sum <= (k - from) * (MAX_PRICE as int),
            decreases i + 1 - k,
        {
            proof {
                assert(series_close_sum(series@, from as int, k + 1 as int) == series@[k as int].close
                    + series_close_sum(series@, from as int, k as int));
                assert((k + 1 - from) * (MAX_PRICE as int) == (k - from) * (MAX_PRICE as int)
                    + MAX_PRICE as int) by (nonlinear_arith);
                assert((k + 1 - from) * (MAX_PRICE as int) <= MAX_HISTORY * (MAX_PRICE as int))
                    by (nonlinear_arith)
                    requires
                        k + 1 - from <= MAX_HISTORY,
                        MAX_PRICE > 0,
                ;
                assert(MAX_HISTORY * (MAX_PRICE as int) < 0xffffffffffffffffffffffffffffffff);
            }
            sum = sum + series[k].close as u128;
            k = k + 1;
        }
        let avg_wide: u128 = sum / (period as u128);
        proof {
            assert(sum <= (i + 1 - from as int) * (MAX_PRICE as int));
            assert(i + 1 - from as int == period as int);
            assert(avg_wide <= MAX_PRICE) by (nonlinear_arith)
                requires
                    0 < period as int,
                    0 <= sum <= (period as int) * (MAX_PRICE as int),
                    avg_wide == sum as int / (period as int),
            ;
        }
        out.push(avg_wide as u64);
        i = i + 1;
    }
    out
}

} // verus!
