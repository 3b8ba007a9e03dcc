//! Deterministic replay: per-date synthetic quote sources built from
//! historical closes, and the backtest driver that runs every strategy over
//! a date range against the in-memory order service.

use vstd::prelude::*;
use crate::channel::{channel_queue, QuoteChannel};
use crate::date::{date_in_range, Date, MAX_DAYS, MIN_DAYS};
use crate::domain::{wf_day, wf_quote, Day, Quote};
use crate::date::MIN_DAYS as DATE_MIN;
use crate::domain::{day_is_wf, Order, Position, RealizedPnL, SymbolData};
use crate::historical::{
    lemma_windowed_history, spec_history, window_of, BacktestHistoricalData, HistoricalData,
};
use crate::orders::{apply_fill, apply_fills, book_model, lemma_apply_fills_concat, BacktestOrders};
use crate::stats::{
    lemma_stats_lookup_member, spec_isqrt, spec_mean, spec_stats_lookup, spec_variance,
    MAX_HISTORY,
};
use crate::strategy::{mean_reversion_signal, seq_contains_sym};
use crate::trading::{
    self, model_position, spec_midnight_millis, midnight_millis, spec_order_decision,
    spec_trade_decision, spec_trace, TradingService,
};

verus! {

/// The synthetic quote a day's close stands for: bid and ask both at the
/// close, timestamped midnight of the day.
pub open spec fn quote_of(sym: String, d: Day) -> Quote {
    Quote {
        symbol: sym,
        bid: d.close,
        ask: d.close,
        biddate: spec_midnight_millis(d.date) as i64,
        askdate: spec_midnight_millis(d.date) as i64,
    }
}

/// The first bar dated `date`, if any.
pub open spec fn spec_find_day(days: Seq<Day>, date: Date) -> Option<Day>
    decreases days.len(),
{
    if days.len() == 0 {
        None
    } else if days[0].date == date {
        Some(days[0])
    } else {
        spec_find_day(days.drop_first(), date)
    }
}

proof fn lemma_find_day_at(days: Seq<Day>, date: Date, i: int)
    requires
        0 <= i < days.len(),
        days[i].date == date,
        forall|j: int| 0 <= j < i ==> (#[trigger] days[j].date) != date,
    ensures
        spec_find_day(days, date) == Some(days[i]),
    decreases i,
{
    if i > 0 {
        assert(days.drop_first()[i - 1] == days[i]);
        assert(forall|j: int|
            0 <= j < i - 1 ==> #[trigger] days.drop_first()[j].date == days[j + 1].date);
        lemma_find_day_at(days.drop_first(), date, i - 1);
    }
}

proof fn lemma_find_day_none(days: Seq<Day>, date: Date)
    requires
        forall|j: int| 0 <= j < days.len() ==> (#[trigger] days[j].date) != date,
    ensures
        spec_find_day(days, date) is None,
    decreases days.len(),
{
    if days.len() > 0 {
        assert(forall|j: int|
            0 <= j < days.drop_first().len() ==> #[trigger] days.drop_first()[j] == days[j + 1]);
        lemma_find_day_none(days.drop_first(), date);
    }
}

/// The first bar dated `date`, if any.
fn find_day<'a>(days: &'a Vec<Day>, date: Date) -> (r: Option<&'a Day>)
    ensures
        r matches Some(d) ==> spec_find_day(days@, date) == Some(*d),
        r matches Some(d) ==> exists|i: int| 0 <= i < days@.len() && (#[trigger] days@[i]) == *d,
        r is None ==> spec_find_day(days@, date) is None,
{
    let mut i: usize = 0;
    while i < days.len()
        invariant
            0 <= i <= days@.len(),
            forall|j: int| 0 <= j < i ==> (#[trigger] days@[j].date) != date,
        decreases days@.len() - i,
    {
        if days[i].date == date {
            proof {
                lemma_find_day_at(days@, date, i as int);
            }
            return Some(&days[i]);
        }
        i = i + 1;
    }
    proof {
        lemma_find_day_none(days@, date);
    }
    None
}

/// The quotes a date's replay delivers: for each symbol holding a bar dated
/// that day, one quote at the close, in symbol order.
pub open spec fn date_quotes(entries: Seq<(String, Vec<Day>)>, date: Date) -> Seq<Quote>
    decreases entries.len(),
{
    if entries.len() == 0 {
        Seq::empty()
    } else {
        let rest = date_quotes(entries.drop_first(), date);
        match spec_find_day(entries[0].1@, date) {
            Some(d) => seq![quote_of(entries[0].0, d)] + rest,
            None => rest,
        }
    }
}

proof fn lemma_date_quotes_push(entries: Seq<(String, Vec<Day>)>, e: (String, Vec<Day>), date: Date)
    ensures
        date_quotes(entries.push(e), date) == date_quotes(entries, date) + (
        match spec_find_day(e.1@, date) {
            Some(d) => seq![quote_of(e.0, d)],
            None => Seq::<Quote>::empty(),
        }),
    decreases entries.len(),
{
    let p = entries.push(e);
    let extra = match spec_find_day(e.1@, date) {
        Some(d) => seq![quote_of(e.0, d)],
        None => Seq::<Quote>::empty(),
    };
    if entries.len() == 0 {
        assert(p[0] == e);
        assert(p.drop_first() =~= Seq::<(String, Vec<Day>)>::empty());
        assert(date_quotes(entries, date) == Seq::<Quote>::empty());
        assert(date_quotes(p.drop_first(), date) == Seq::<Quote>::empty());
        match spec_find_day(e.1@, date) {
            Some(d) => {
                assert(date_quotes(p, date) == seq![quote_of(e.0, d)] + date_quotes(
                    p.drop_first(),
                    date,
                ));
                assert(date_quotes(p, date) =~= date_quotes(entries, date) + extra);
            },
            None => {
                assert(date_quotes(p, date) == date_quotes(p.drop_first(), date));
                assert(date_quotes(p, date) =~= date_quotes(entries, date) + extra);
            },
        }
    } else {
        assert(p[0] == entries[0]);
        assert(p.drop_first() =~= entries.drop_first().push(e));
        lemma_date_quotes_push(entries.drop_first(), e, date);
        match spec_find_day(entries[0].1@, date) {
            Some(d) => {
                assert(seq![quote_of(entries[0].0, d)] + (date_quotes(entries.drop_first(), date)
                    + extra) =~= (seq![quote_of(entries[0].0, d)] + date_quotes(
                    entries.drop_first(),
                    date,
                )) + extra);
            },
            None => {},
        }
        assert(date_quotes(p, date) =~= date_quotes(entries, date) + extra);
    }
}

/// The first bucket keyed `date`, if any.
pub open spec fn spec_date_lookup(s: Seq<(Date, Vec<Quote>)>, date: Date) -> Option<Seq<Quote>>
    decreases s.len(),
{
    if s.len() == 0 {
        None
    } else if s[0].0 == date {
        Some(s[0].1@)
    } else {
        spec_date_lookup(s.drop_first(), date)
    }
}

proof fn lemma_date_lookup_at(s: Seq<(Date, Vec<Quote>)>, date: Date, i: int)
    requires
        0 <= i < s.len(),
        s[i].0 == date,
        forall|j: int| 0 <= j < i ==> (#[trigger] s[j].0) != date,
    ensures
        spec_date_lookup(s, date) == Some(s[i].1@),
    decreases i,
{
    if i > 0 {
        assert(s.drop_first()[i - 1] == s[i]);
        assert(forall|j: int| 0 <= j < i - 1 ==> #[trigger] s.drop_first()[j].0 == s[j + 1].0);
        lemma_date_lookup_at(s.drop_first(), date, i - 1);
    }
}

proof fn lemma_date_lookup_none(s: Seq<(Date, Vec<Quote>)>, date: Date)
    requires
        forall|j: int| 0 <= j < s.len() ==> (#[trigger] s[j].0) != date,
    ensures
        spec_date_lookup(s, date) is None,
    decreases s.len(),
{
    if s.len() > 0 {
        assert(forall|j: int|
            0 <= j < s.drop_first().len() ==> #[trigger] s.drop_first()[j] == s[j + 1]);
        lemma_date_lookup_none(s.drop_first(), date);
    }
}

proof fn lemma_date_lookup_push(s: Seq<(Date, Vec<Quote>)>, e: (Date, Vec<Quote>), date: Date)
    requires
        forall|j: int| 0 <= j < s.len() ==> (#[trigger] s[j].0) != date,
    ensures
        spec_date_lookup(s.push(e), date) == if e.0 == date {
            Some(e.1@)
        } else {
            None::<Seq<Quote>>
        },
    decreases s.len(),
{
    let p = s.push(e);
    if s.len() == 0 {
        assert(p[0] == e);
        assert(p.drop_first() =~= Seq::<(Date, Vec<Quote>)>::empty());
        if e.0 != date {
            lemma_date_lookup_none(p, date);
        }
    } else {
        assert(p[0] == s[0]);
        assert(p.drop_first() =~= s.drop_first().push(e));
        assert(forall|j: int|
            0 <= j < s.drop_first().len() ==> #[trigger] s.drop_first()[j] == s[j + 1]);
        lemma_date_lookup_push(s.drop_first(), e, date);
    }
}

/// An unchanged lookup when an entry with a different key is appended behind
/// an existing match.
proof fn lemma_date_lookup_push_keeps(s: Seq<(Date, Vec<Quote>)>, e: (Date, Vec<Quote>), date: Date)
    requires
        spec_date_lookup(s, date) is Some,
    ensures
        spec_date_lookup(s.push(e), date) == spec_date_lookup(s, date),
    decreases s.len(),
{
    let p = s.push(e);
    assert(s.len() > 0) by {
        if s.len() == 0 {
            assert(spec_date_lookup(s, date) is None);
        }
    }
    assert(p[0] == s[0]);
    assert(p.drop_first() =~= s.drop_first().push(e));
    if s[0].0 != date {
        lemma_date_lookup_push_keeps(s.drop_first(), e, date);
    }
}

/// The per-date quote map: for every date in the replay window that has at
/// least one bar, the quotes its replay delivers.
pub struct BacktestMarketData {
    pub quotes: Vec<(Date, Vec<Quote>)>,
}

impl BacktestMarketData {
    pub open spec fn wf(&self) -> bool {
        &&& forall|i: int, j: int|
            0 <= i < j < self.quotes@.len() ==> (#[trigger] self.quotes@[i].0) != (
            #[trigger] self.quotes@[j].0)
        &&& forall|i: int, k: int|
            0 <= i < self.quotes@.len() && 0 <= k < (#[trigger] self.quotes@[i].1@).len()
                ==> wf_quote(#[trigger] self.quotes@[i].1@[k])
    }

    /// Builds the map from the snapshot: every date in
    /// `[end - (backtest_range + hist_data_range), end]` with data gets its
    /// bucket of synthetic quotes.
    pub fn new(
        access_token: String,
        symbols: Vec<String>,
        backtest_range: i64,
        end: Date,
        backtest_historical_data: &BacktestHistoricalData,
    ) -> (r: BacktestMarketData)
        requires
            backtest_historical_data.wf(),
            backtest_range == backtest_historical_data.range,
            MIN_DAYS <= end.days - (backtest_historical_data.range
                + backtest_historical_data.hist_data_range),
            end.days <= MAX_DAYS,
            ({
                let entries = backtest_historical_data.underlying.entries@;
                forall|i: int|
                    0 <= i < entries.len() ==> (#[trigger] entries[i].0@).len() > 0 && forall|
                        k: int,
                    |
                        0 <= k < entries[i].1@.len() ==> wf_day(#[trigger] entries[i].1@[k])
                            && date_in_range(entries[i].1@[k].date)
            }),
        ensures
            r.wf(),
            ({
                let entries = backtest_historical_data.underlying.entries@;
                let start = end.days - (backtest_historical_data.range
                    + backtest_historical_data.hist_data_range);
                forall|dd: int|
                    start <= dd <= end.days ==> {
                        let dq = date_quotes(entries, Date { days: dd as i64 });
                        (#[trigger] spec_date_lookup(r.quotes@, Date { days: dd as i64 }))
                            == if dq.len() > 0 {
                            Some(dq)
                        } else {
                            None::<Seq<Quote>>
                        }
                    }
            }),
    {
        let _ = access_token;
        let _ = symbols;
        let entries_ref = &backtest_historical_data.underlying.entries;
        let ghost entries = entries_ref@;
        let total: i64 = backtest_historical_data.range + backtest_historical_data.hist_data_range;
        let start: i64 = end.days - total;
        let mut out: Vec<(Date, Vec<Quote>)> = Vec::new();
        let mut dd: i64 = start;
        while dd <= end.days
            invariant
                entries == backtest_historical_data.underlying.entries@,
                entries_ref@ == entries,
                forall|i: int|
                    0 <= i < entries.len() ==> (#[trigger] entries[i].0@).len() > 0 && forall|
                        k: int,
                    |
                        0 <= k < entries[i].1@.len() ==> wf_day(#[trigger] entries[i].1@[k])
                            && date_in_range(entries[i].1@[k].date),
                start <= dd <= end.days + 1,
                MIN_DAYS <= start,
                end.days <= MAX_DAYS,
                forall|i: int|
                    0 <= i < out@.len() ==> start <= (#[trigger] out@[i].0).days < dd,
                forall|i: int, j: int|
                    0 <= i < j < out@.len() ==> (#[trigger] out@[i].0) != (#[trigger] out@[j].0),
                forall|i: int, k: int|
                    0 <= i < out@.len() && 0 <= k < (#[trigger] out@[i].1@).len() ==> wf_quote(
                        #[trigger] out@[i].1@[k],
                    ),
                forall|d2: int|
                    start <= d2 < dd ==> {
                        let dq = date_quotes(entries, Date { days: d2 as i64 });
                        (#[trigger] spec_date_lookup(out@, Date { days: d2 as i64 }))
                            == if dq.len() > 0 {
                            Some(dq)
                        } else {
                            None::<Seq<Quote>>
                        }
                    },
            decreases end.days + 1 - dd,
        {
            let date = Date { days: dd };
            let mut bucket: Vec<Quote> = Vec::new();
            let mut i: usize = 0;
            proof {
                assert(entries.subrange(0, 0) =~= Seq::<(String, Vec<Day>)>::empty());
            }
            while i < entries_ref.len()
                invariant
                    entries == backtest_historical_data.underlying.entries@,
                    entries_ref@ == entries,
                    forall|t: int|
                        0 <= t < entries.len() ==> (#[trigger] entries[t].0@).len() > 0 && forall|
                            k: int,
                        |
                            0 <= k < entries[t].1@.len() ==> wf_day(#[trigger] entries[t].1@[k])
                                && date_in_range(entries[t].1@[k].date),
                    0 <= i <= entries.len(),
                    date.days == dd,
                    MIN_DAYS <= date.days <= MAX_DAYS,
                    bucket@ == date_quotes(entries.subrange(0, i as int), date),
                    forall|k: int| 0 <= k < bucket@.len() ==> wf_quote(#[trigger] bucket@[k]),
                decreases entries.len() - i,
            {
                let ghost pre = entries.subrange(0, i as int);
                match find_day(&entries_ref[i].1, date) {
                    Some(day) => {
                        proof {
                            assert(entries[i as int].0@.len() > 0);
                            let k = choose|k: int|
                                0 <= k < entries[i as int].1@.len() && (#[trigger] entries[
                                    i as int
                                ].1@[k]) == *day;
                            assert(wf_day(entries[i as int].1@[k]) && date_in_range(
                                entries[i as int].1@[k].date,
                            ));
                            assert(wf_day(*day) && date_in_range(day.date));
                        }
                        let q = Quote {
                            symbol: entries_ref[i].0.clone(),
                            bid: day.close,
                            ask: day.close,
                            biddate: midnight_millis(day.date),
                            askdate: midnight_millis(day.date),
                        };
                        proof {
                            assert(q == quote_of(entries[i as int].0, *day));
                        }
                        bucket.push(q);
                    },
                    None => {},
                }
                proof {
                    assert(entries.subrange(0, i + 1 as int) =~= pre.push(entries[i as int]));
                    lemma_date_quotes_push(pre, entries[i as int], date);
                    assert(bucket@ =~= date_quotes(entries.subrange(0, i + 1 as int), date));
                }
                i = i + 1;
            }
            proof {
                assert(entries.subrange(0, entries.len() as int) =~= entries);
            }
            let ghost oldout = out@;
            if bucket.len() > 0 {
                out.push((date, bucket));
                proof {
                    assert(forall|j: int| 0 <= j < oldout.len() ==> #[trigger] out@[j] == oldout[j]);
                    assert forall|d2: int| start <= d2 < dd + 1 implies {
                        let dq = date_quotes(entries, Date { days: d2 as i64 });
                        (#[trigger] spec_date_lookup(out@, Date { days: d2 as i64 }))
                            == if dq.len() > 0 {
                            Some(dq)
                        } else {
                            None::<Seq<Quote>>
                        }
                    } by {
                        let d2date = Date { days: d2 as i64 };
                        if d2 == dd {
                            assert(forall|j: int|
                                0 <= j < oldout.len() ==> (#[trigger] oldout[j].0) != d2date);
                            lemma_date_lookup_push(oldout, (date, bucket), d2date);
                        } else {
                            if spec_date_lookup(oldout, d2date) is Some {
                                lemma_date_lookup_push_keeps(oldout, (date, bucket), d2date);
                            } else {
                                lemma_date_lookup_contrapos(oldout, d2date);
                                lemma_date_lookup_push(oldout, (date, bucket), d2date);
                            }
                        }
                    }
                }
            } else {
                proof {
                    assert forall|d2: int| start <= d2 < dd + 1 implies {
                        let dq = date_quotes(entries, Date { days: d2 as i64 });
                        (#[trigger] spec_date_lookup(out@, Date { days: d2 as i64 }))
                            == if dq.len() > 0 {
                            Some(dq)
                        } else {
                            None::<Seq<Quote>>
                        }
                    } by {
                        let d2date = Date { days: d2 as i64 };
                        if d2 == dd {
                            assert(forall|j: int|
                                0 <= j < out@.len() ==> (#[trigger] out@[j].0) != d2date);
                            lemma_date_lookup_none(out@, d2date);
                        }
                    }
                }
            }
            dd = dd + 1;
        }
        BacktestMarketData { quotes: out }
    }

    /// The quote source for one replay date; dates with no data (weekends,
    /// holidays) fail with a no-data kind.
    pub fn service_for_date(&self, date: Date) -> (r: Result<BacktestMarketDataService, String>)
        requires
            self.wf(),
        ensures
            r matches Ok(svc) ==> spec_date_lookup(self.quotes@, date) == Some(svc.quotes@)
                && svc.wf(),
            r is Err ==> spec_date_lookup(self.quotes@, date) is None && r->Err_0@
                == "No quotes for date"@,
    {
        let mut i: usize = 0;
        while i < self.quotes.len()
            invariant
                self.wf(),
                0 <= i <= self.quotes@.len(),
                forall|j: int| 0 <= j < i ==> (#[trigger] self.quotes@[j].0) != date,
            decreases self.quotes@.len() - i,
        {
            if self.quotes[i].0 == date {
                proof {
                    lemma_date_lookup_at(self.quotes@, date, i as int);
                }
                let src = &self.quotes[i].1;
                let mut copy: Vec<Quote> = Vec::new();
                let mut k: usize = 0;
                while k < src.len()
                    invariant
                        0 <= k <= src@.len(),
                        copy@ =~= src@.subrange(0, k as int),
                    decreases src@.len() - k,
                {
                    copy.push(src[k].clone());
                    k = k + 1;
                }
                assert(copy@ =~= src@);
                return Ok(BacktestMarketDataService { quotes: copy });
            }
            i = i + 1;
        }
        proof {
            lemma_date_lookup_none(self.quotes@, date);
        }
        Err(String::from_str("No quotes for date"))
    }
}

proof fn lemma_date_lookup_contrapos(s: Seq<(Date, Vec<Quote>)>, date: Date)
    requires
        spec_date_lookup(s, date) is None,
    ensures
        forall|j: int| 0 <= j < s.len() ==> (#[trigger] s[j].0) != date,
    decreases s.len(),
{
    if s.len() > 0 {
        assert(forall|j: int|
            0 <= j < s.drop_first().len() ==> #[trigger] s.drop_first()[j] == s[j + 1]);
        lemma_date_lookup_contrapos(s.drop_first(), date);
        assert(forall|j: int| 1 <= j < s.len() ==> (#[trigger] s[j].0) == s.drop_first()[j - 1].0);
    }
}

/// One replay date's quote source: `subscribe` hands back a queue already
/// holding every quote of the date, in order.
pub struct BacktestMarketDataService {
    pub quotes: Vec<Quote>,
}

impl BacktestMarketDataService {
    pub open spec fn wf(&self) -> bool {
        forall|k: int| 0 <= k < self.quotes@.len() ==> wf_quote(#[trigger] self.quotes@[k])
    }

    /// The live streaming loop has no place in a replay; starting one is
    /// always refused.
    pub fn init(&self) -> (r: Result<(), String>)
        ensures
            r is Err,
    {
        Err(String::from_str("The replay source runs no work loop"))
    }

    /// A fresh subscriber queue, synchronously preloaded with every quote of
    /// the date.
    pub fn subscribe(&self) -> (r: Result<QuoteChannel, String>)
        ensures
            r matches Ok(c) ==> channel_queue(c) == self.quotes@,
            r is Ok,
    {
        let mut chan = QuoteChannel::new();
        let mut i: usize = 0;
        while i < self.quotes.len()
            invariant
                0 <= i <= self.quotes@.len(),
                channel_queue(chan) =~= self.quotes@.subrange(0, i as int),
            decreases self.quotes@.len() - i,
        {
            chan.send(self.quotes[i].clone());
            i = i + 1;
        }
        proof {
            assert(channel_queue(chan) =~= self.quotes@);
        }
        Ok(chan)
    }

    /// Dropping the returned queue is all an unsubscribe needs here.
    pub fn unsubscribe(&self, subscriber: &QuoteChannel) -> (r: Result<(), String>)
        ensures
            r is Ok,
    {
        let _ = subscriber;
        Ok(())
    }
}

/// Whether a symbol's history supports statistics on a replay date: it is
/// in the snapshot, and its bars dated in the `hist_range` days ending at
/// the date number at least one and at most the statistics cap, all
/// well-formed.
pub open spec fn symbol_usable(
    und: Seq<(String, Vec<Day>)>,
    hist_range: int,
    date: Date,
    sym: Seq<char>,
) -> bool {
    &&& spec_history(und, sym) is Some
    &&& ({
        let w = window_of(spec_history(und, sym)->0, date.days - hist_range, date.days as int);
        &&& 1 <= w.len() <= MAX_HISTORY
        &&& forall|j: int| 0 <= j < w.len() ==> wf_day(#[trigger] w[j])
    })
}

/// The strategy symbols a replay date can trade: those whose windowed
/// history supports statistics.
pub open spec fn usable_symbols(
    und: Seq<(String, Vec<Day>)>,
    hist_range: int,
    date: Date,
    symbols: Seq<String>,
) -> Seq<String> {
    symbols.filter(|s: String| symbol_usable(und, hist_range, date, s@))
}

/// The statistics a replay date computes for a symbol: the floor-rounded
/// mean and standard deviation of the windowed closes.
pub open spec fn window_stats(
    und: Seq<(String, Vec<Day>)>,
    hist_range: int,
    date: Date,
    sym: Seq<char>,
) -> (int, int) {
    let w = window_of(spec_history(und, sym)->0, date.days - hist_range, date.days as int);
    (spec_mean(w), spec_isqrt(spec_variance(w)))
}

/// What one replay quote becomes against a book model: nothing for a symbol
/// the date cannot trade; otherwise the order its windowed statistics, the
/// held position and the capital cap decide.
pub open spec fn replay_decision(
    m: Map<Seq<char>, Position>,
    quote: Quote,
    und: Seq<(String, Vec<Day>)>,
    hist_range: int,
    date: Date,
    usable: Seq<String>,
    caps: Seq<(String, i64)>,
) -> Option<Order> {
    if seq_contains_sym(usable, quote.symbol@) {
        let stats = window_stats(und, hist_range, date, quote.symbol@);
        spec_order_decision(
            date,
            mean_reversion_signal(quote.ask as int, stats.0, stats.1),
            model_position(m, quote.symbol@),
            quote,
            crate::config::spec_capital_of(caps, quote.symbol@) as int,
        )
    } else {
        None
    }
}

/// The fills one strategy books on one replay date, quote by quote.
pub open spec fn strategy_date_trace(
    m: Map<Seq<char>, Position>,
    quotes: Seq<Quote>,
    und: Seq<(String, Vec<Day>)>,
    hist_range: int,
    date: Date,
    usable: Seq<String>,
    caps: Seq<(String, i64)>,
) -> Seq<(Order, i64)>
    decreases quotes.len(),
{
    if quotes.len() == 0 {
        Seq::empty()
    } else {
        let mid = spec_midnight_millis(date) as i64;
        match replay_decision(m, quotes[0], und, hist_range, date, usable, caps) {
            Some(o) => seq![(o, mid)] + strategy_date_trace(
                apply_fill(m, o, mid),
                quotes.drop_first(),
                und,
                hist_range,
                date,
                usable,
                caps,
            ),
            None => strategy_date_trace(m, quotes.drop_first(), und, hist_range, date, usable, caps),
        }
    }
}

/// The fills one replay date books across the strategies, in strategy
/// order; a date with no quotes books nothing.
pub open spec fn date_trace(
    m: Map<Seq<char>, Position>,
    market: Seq<(Date, Vec<Quote>)>,
    und: Seq<(String, Vec<Day>)>,
    hist_range: int,
    date: Date,
    strategies: Seq<crate::config::Strategy>,
) -> Seq<(Order, i64)>
    decreases strategies.len(),
{
    if strategies.len() == 0 {
        Seq::empty()
    } else {
        let seg = match spec_date_lookup(market, date) {
            Some(quotes) => strategy_date_trace(
                m,
                quotes,
                und,
                hist_range,
                date,
                usable_symbols(und, hist_range, date, strategies[0].symbols@),
                strategies[0].capital@,
            ),
            None => Seq::empty(),
        };
        seg + date_trace(apply_fills(m, seg), market, und, hist_range, date, strategies.drop_first())
    }
}

/// The whole replay's fills, dates ascending.
pub open spec fn replay_trace(
    m: Map<Seq<char>, Position>,
    market: Seq<(Date, Vec<Quote>)>,
    und: Seq<(String, Vec<Day>)>,
    hist_range: int,
    strategies: Seq<crate::config::Strategy>,
    day_from: int,
    day_to: int,
) -> Seq<(Order, i64)>
    decreases day_to + 1 - day_from,
{
    if day_from > day_to {
        Seq::empty()
    } else {
        let seg = date_trace(m, market, und, hist_range, Date { days: day_from as i64 }, strategies);
        seg + replay_trace(
            apply_fills(m, seg),
            market,
            und,
            hist_range,
            strategies,
            day_from + 1,
            day_to,
        )
    }
}

proof fn lemma_usable_empty(und: Seq<(String, Vec<Day>)>, hist_range: int, date: Date)
    ensures
        usable_symbols(und, hist_range, date, Seq::<String>::empty()) == Seq::<String>::empty(),
{
    reveal(Seq::filter);
}

proof fn lemma_usable_push(
    und: Seq<(String, Vec<Day>)>,
    hist_range: int,
    date: Date,
    symbols: Seq<String>,
    s: String,
)
    ensures
        usable_symbols(und, hist_range, date, symbols.push(s)) == if symbol_usable(
            und,
            hist_range,
            date,
            s@,
        ) {
            usable_symbols(und, hist_range, date, symbols).push(s)
        } else {
            usable_symbols(und, hist_range, date, symbols)
        },
{
    reveal(Seq::filter);
    assert(symbols.push(s).drop_last() =~= symbols);
}

/// The worker's trace over computed statistics equals the replay trace over
/// the windowed statistics those numbers came from.
proof fn lemma_trace_agrees(
    m: Map<Seq<char>, Position>,
    quotes: Seq<Quote>,
    data: Seq<SymbolData>,
    und: Seq<(String, Vec<Day>)>,
    hist_range: int,
    date: Date,
    usable: Seq<String>,
    caps: Seq<(String, i64)>,
)
    requires
        data.len() == usable.len(),
        forall|i: int|
            0 <= i < data.len() ==> (#[trigger] data[i]).symbol == usable[i] && data[i].mean
                == window_stats(und, hist_range, date, usable[i]@).0 && data[i].std_dev
                == window_stats(und, hist_range, date, usable[i]@).1,
    ensures
        spec_trace(m, quotes, data, usable, caps, date) == strategy_date_trace(
            m,
            quotes,
            und,
            hist_range,
            date,
            usable,
            caps,
        ),
    decreases quotes.len(),
{
    if quotes.len() > 0 {
        let q = quotes[0];
        let sym = q.symbol@;
        lemma_stats_lookup_member(data, sym);
        if spec_stats_lookup(data, sym) is Some {
            let d = spec_stats_lookup(data, sym)->0;
            let i = choose|i: int|
                0 <= i < data.len() && (#[trigger] data[i]) == d && data[i].symbol@ == sym;
            assert(usable[i]@ == sym);
            assert(seq_contains_sym(usable, sym));
            assert(d.mean == window_stats(und, hist_range, date, sym).0);
            assert(d.std_dev == window_stats(und, hist_range, date, sym).1);
        } else {
            assert(!seq_contains_sym(usable, sym)) by {
                if seq_contains_sym(usable, sym) {
                    let i = choose|i: int| 0 <= i < usable.len() && (#[trigger] usable[i]@) == sym;
                    assert(data[i].symbol@ == sym);
                }
            }
        }
        assert(spec_trade_decision(m, q, data, usable, caps, date) == replay_decision(
            m,
            q,
            und,
            hist_range,
            date,
            usable,
            caps,
        ));
        match replay_decision(m, q, und, hist_range, date, usable, caps) {
            Some(o) => {
                let mid = spec_midnight_millis(date) as i64;
                lemma_trace_agrees(
                    apply_fill(m, o, mid),
                    quotes.drop_first(),
                    data,
                    und,
                    hist_range,
                    date,
                    usable,
                    caps,
                );
            },
            None => {
                lemma_trace_agrees(m, quotes.drop_first(), data, und, hist_range, date, usable, caps);
            },
        }
    }
}

/// The deterministic replay driver.
pub trait BacktestService {
    spec fn wf(&self) -> bool;

    /// The profit-and-loss records emitted so far.
    spec fn records(&self) -> Seq<crate::domain::RealizedPnL>;

    /// The fills booked so far.
    spec fn fills(&self) -> Seq<(crate::domain::Order, i64)>;

    /// The order book, as a map from symbol characters to the held position.
    spec fn book(&self) -> Map<Seq<char>, Position>;

    /// The fills the whole replay books against a starting book model.
    spec fn replay_plan(&self, m: Map<Seq<char>, Position>) -> Seq<(Order, i64)>;

    /// For each date in the replay window, in order: dates with no data are
    /// skipped; for the others, every strategy gets a fresh trading worker
    /// fed that date's quotes against the shared in-memory order service.
    /// Emitted profit-and-loss records are never disturbed: the old record
    /// list is a prefix of the new one.
    fn run(&mut self) -> (r: Result<(), String>)
        requires
            old(self).wf(),
        ensures
            final(self).wf(),
            old(self).records().is_prefix_of(final(self).records()),
            old(self).fills().is_prefix_of(final(self).fills()),
            final(self).fills() == old(self).fills() + old(self).replay_plan(old(self).book()),
            r is Ok,
    ;
}

/// One replay over `[end - backtest_range, end]`.
pub struct Backtest {
    pub end: Date,
    pub backtest_range: i64,
    pub historical_data: BacktestHistoricalData,
    pub market_data_manager: BacktestMarketData,
    pub orders: BacktestOrders,
    pub strategies: Vec<crate::config::Strategy>,
}

/// Builds the replay driver.
pub fn new(
    end: Date,
    backtest_range: i64,
    historical_data: BacktestHistoricalData,
    market_data_manager: BacktestMarketData,
    orders: BacktestOrders,
    strategies: Vec<crate::config::Strategy>,
) -> (r: Backtest)
    ensures
        r == (Backtest {
            end,
            backtest_range,
            historical_data,
            market_data_manager,
            orders,
            strategies,
        }),
{
    Backtest { end, backtest_range, historical_data, market_data_manager, orders, strategies }
}

impl BacktestService for Backtest {
    open spec fn records(&self) -> Seq<crate::domain::RealizedPnL> {
        self.orders.pnl@
    }

    open spec fn fills(&self) -> Seq<(crate::domain::Order, i64)> {
        self.orders.fills@
    }

    open spec fn book(&self) -> Map<Seq<char>, Position> {
        book_model(self.orders.book)
    }

    open spec fn replay_plan(&self, m: Map<Seq<char>, Position>) -> Seq<(Order, i64)> {
        replay_trace(
            m,
            self.market_data_manager.quotes@,
            self.historical_data.underlying.entries@,
            self.historical_data.hist_data_range as int,
            self.strategies@,
            self.end.days - self.backtest_range,
            self.end.days as int,
        )
    }

    open spec fn wf(&self) -> bool {
        &&& self.orders.wf()
        &&& self.market_data_manager.wf()
        &&& self.historical_data.wf()
        &&& 0 <= self.backtest_range <= self.historical_data.range
        &&& DATE_MIN <= self.end.days - (self.historical_data.range
            + self.historical_data.hist_data_range)
        &&& self.end.days <= MAX_DAYS
        &&& forall|i: int|
            0 <= i < self.strategies@.len() ==> ((#[trigger] self.strategies@[i]).name@
                == "mean-reversion"@ && crate::config::wf_capital(self.strategies@[i].capital@))
    }

    fn run(&mut self) -> (r: Result<(), String>) {
        let start_days: i64 = self.end.days - self.backtest_range;
        let ghost und = self.historical_data.underlying.entries@;
        let ghost market = self.market_data_manager.quotes@;
        let ghost histr = self.historical_data.hist_data_range as int;
        let ghost strats = self.strategies@;
        let ghost m0 = book_model(self.orders.book);
        let ghost fills0 = self.orders.fills@;
        let ghost end_day = self.end.days as int;
        let mut i: i64 = 0;
        while i <= self.backtest_range
            invariant
                old(self).wf(),
                self.orders.wf(),
                self.end == old(self).end,
                self.backtest_range == old(self).backtest_range,
                self.historical_data == old(self).historical_data,
                self.market_data_manager == old(self).market_data_manager,
                self.strategies@ == old(self).strategies@,
                und == old(self).historical_data.underlying.entries@,
                market == old(self).market_data_manager.quotes@,
                histr == old(self).historical_data.hist_data_range as int,
                strats == old(self).strategies@,
                m0 == book_model(old(self).orders.book),
                fills0 == old(self).orders.fills@,
                end_day == old(self).end.days as int,
                start_days == self.end.days - self.backtest_range,
                0 <= i <= self.backtest_range + 1,
                old(self).orders.pnl@.is_prefix_of(self.orders.pnl@),
                old(self).orders.fills@.is_prefix_of(self.orders.fills@),
                self.orders.fills@ + replay_trace(
                    book_model(self.orders.book),
                    market,
                    und,
                    histr,
                    strats,
                    start_days + i,
                    end_day,
                ) == fills0 + replay_trace(m0, market, und, histr, strats, start_days as int, end_day),
            decreases self.backtest_range + 1 - i,
        {
            let date = Date { days: start_days + i };
            proof {
                let mcur = book_model(self.orders.book);
                let dtr = date_trace(mcur, market, und, histr, date, strats);
                assert(replay_trace(mcur, market, und, histr, strats, date.days as int, end_day)
                    == dtr + replay_trace(
                    apply_fills(mcur, dtr),
                    market,
                    und,
                    histr,
                    strats,
                    date.days + 1,
                    end_day,
                ));
                assert(strats.subrange(0, strats.len() as int) =~= strats);
            }
            let mut s: usize = 0;
            while s < self.strategies.len()
                invariant
                    old(self).wf(),
                    self.orders.wf(),
                    self.end == old(self).end,
                    self.backtest_range == old(self).backtest_range,
                    self.historical_data == old(self).historical_data,
                    self.market_data_manager == old(self).market_data_manager,
                    self.strategies@ == old(self).strategies@,
                    und == old(self).historical_data.underlying.entries@,
                    market == old(self).market_data_manager.quotes@,
                    histr == old(self).historical_data.hist_data_range as int,
                    strats == old(self).strategies@,
                    m0 == book_model(old(self).orders.book),
                    fills0 == old(self).orders.fills@,
                    end_day == old(self).end.days as int,
                    start_days == self.end.days - self.backtest_range,
                    0 <= i <= self.backtest_range,
                    date.days == start_days + i,
                    0 <= s <= self.strategies@.len(),
                    old(self).orders.pnl@.is_prefix_of(self.orders.pnl@),
                    old(self).orders.fills@.is_prefix_of(self.orders.fills@),
                    self.orders.fills@ + ({
                        let mcur = book_model(self.orders.book);
                        let dseg = date_trace(
                            mcur,
                            market,
                            und,
                            histr,
                            date,
                            strats.subrange(s as int, strats.len() as int),
                        );
                        dseg + replay_trace(
                            apply_fills(mcur, dseg),
                            market,
                            und,
                            histr,
                            strats,
                            date.days + 1,
                            end_day,
                        )
                    }) == fills0 + replay_trace(
                        m0,
                        market,
                        und,
                        histr,
                        strats,
                        start_days as int,
                        end_day,
                    ),
                decreases self.strategies@.len() - s,
            {
                let ghost mcur = book_model(self.orders.book);
                let ghost fillspre = self.orders.fills@;
                let ghost tail = strats.subrange(s as int, strats.len() as int);
                proof {
                    assert(tail[0] == strats[s as int]);
                    assert(tail.drop_first() =~= strats.subrange(s + 1 as int, strats.len() as int));
                }
                match self.market_data_manager.service_for_date(date) {
                    Ok(market_data) => {
                        let ghost quotes = market_data.quotes@;
                        let windowed = self.historical_data.fetch(date);
                        let ghost wseq = windowed.entries@;
                        let config = &self.strategies[s];
                        let mut symbols_ok: Vec<String> = Vec::new();
                        let mut k: usize = 0;
                        proof {
                            assert(config.symbols@.subrange(0, 0) =~= Seq::<String>::empty());
                            lemma_usable_empty(und, histr, date);
                            assert forall|t: int| 0 <= t < wseq.len() implies (#[trigger] wseq[t].0)
                                == und[t].0 && wseq[t].1@ == window_of(
                                und[t].1@,
                                date.days - histr,
                                date.days as int,
                            ) by {
                                assert(windowed.entries@[t].0
                                    == self.historical_data.underlying.entries@[t].0);
                            }
                        }
                        while k < config.symbols.len()
                            invariant
                                windowed.wf(),
                                wseq == windowed.entries@,
                                und == old(self).historical_data.underlying.entries@,
                                histr == old(self).historical_data.hist_data_range as int,
                                wseq.len() == und.len(),
                                date_in_range(date),
                                forall|t: int|
                                    0 <= t < wseq.len() ==> (#[trigger] wseq[t].0) == und[t].0
                                        && wseq[t].1@ == window_of(
                                        und[t].1@,
                                        date.days - histr,
                                        date.days as int,
                                    ),
                                config.symbols@ == self.strategies@[s as int].symbols@,
                                s < self.strategies@.len(),
                                self.strategies@ == old(self).strategies@,
                                strats == old(self).strategies@,
                                0 <= k <= config.symbols@.len(),
                                symbols_ok@ == usable_symbols(
                                    und,
                                    histr,
                                    date,
                                    config.symbols@.subrange(0, k as int),
                                ),
                            decreases config.symbols@.len() - k,
                        {
                            let symbol = &config.symbols[k];
                            let ghost pre = config.symbols@.subrange(0, k as int);
                            let mut ok = false;
                            match windowed.get(symbol) {
                                Some(days) => {
                                    if days.len() >= 1 && days.len() <= MAX_HISTORY && all_days_wf(
                                        days,
                                    ) {
                                        ok = true;
                                    }
                                },
                                None => {},
                            }
                            proof {
                                lemma_windowed_history(
                                    wseq,
                                    und,
                                    date.days - histr,
                                    date.days as int,
                                    symbol@,
                                );
                                assert(ok == symbol_usable(und, histr, date, symbol@));
                                assert(config.symbols@.subrange(0, k + 1 as int) =~= pre.push(
                                    config.symbols@[k as int],
                                ));
                                lemma_usable_push(und, histr, date, pre, config.symbols@[k as int]);
                            }
                            if ok {
                                symbols_ok.push(symbol.clone());
                            }
                            k = k + 1;
                        }
                        proof {
                            assert(config.symbols@.subrange(0, config.symbols@.len() as int)
                                =~= config.symbols@);
                            assert(old(self).strategies@[s as int].name@ == "mean-reversion"@
                                && crate::config::wf_capital(
                                old(self).strategies@[s as int].capital@,
                            ));
                            assert(date_in_range(date));
                        }
                        let ghost syms_ok = symbols_ok@;
                        proof {
                            broadcast use vstd::seq_lib::group_filter_ensures;

                            assert forall|t: int| 0 <= t < syms_ok.len() implies {
                                let h = #[trigger] windowed.spec_get(syms_ok[t]@);
                                &&& h is Some
                                &&& 1 <= h->0.len() <= MAX_HISTORY
                                &&& forall|j: int| 0 <= j < h->0.len() ==> wf_day(#[trigger] h->0[j])
                            } by {
                                assert(symbol_usable(und, histr, date, syms_ok[t]@)) by {
                                    assert(syms_ok == config.symbols@.filter(
                                        |s2: String| symbol_usable(und, histr, date, s2@),
                                    ));
                                    assert(syms_ok[t] == config.symbols@.filter(
                                        |s2: String| symbol_usable(und, histr, date, s2@),
                                    )[t]);
                                }
                                lemma_windowed_history(
                                    wseq,
                                    und,
                                    date.days - histr,
                                    date.days as int,
                                    syms_ok[t]@,
                                );
                            }
                        }
                        let caps = clone_capital(&config.capital);
                        let ghost capsv = caps@;
                        let mut worker = trading::new(
                            date,
                            config.name.clone(),
                            symbols_ok,
                            caps,
                            market_data,
                            windowed,
                        );
                        let ghost worker0 = worker;
                        let ghost pnl_before = self.orders.pnl@;
                        let run_result = worker.run(&mut self.orders);
                        proof {
                            assert(self.orders.pnl@.subrange(
                                0,
                                old(self).orders.pnl@.len() as int,
                            ) =~= pnl_before.subrange(0, old(self).orders.pnl@.len() as int));
                            assert(self.orders.fills@.subrange(
                                0,
                                old(self).orders.fills@.len() as int,
                            ) =~= fillspre.subrange(0, old(self).orders.fills@.len() as int));
                            let data = choose|data: Seq<SymbolData>|
                                (#[trigger] worker0.stats_ok(data)) && self.orders.fills@
                                    == fillspre + worker0.planned_fills(mcur, data);
                            broadcast use vstd::seq_lib::group_filter_ensures;

                            assert forall|tt: int| 0 <= tt < data.len() implies (#[trigger] data[tt]).symbol
                                == syms_ok[tt] && data[tt].mean == window_stats(
                                und,
                                histr,
                                date,
                                syms_ok[tt]@,
                            ).0 && data[tt].std_dev == window_stats(
                                und,
                                histr,
                                date,
                                syms_ok[tt]@,
                            ).1 by {
                                let sym = syms_ok[tt]@;
                                assert(symbol_usable(und, histr, date, sym)) by {
                                    assert(syms_ok == config.symbols@.filter(
                                        |s2: String| symbol_usable(und, histr, date, s2@),
                                    ));
                                    assert(syms_ok[tt] == config.symbols@.filter(
                                        |s2: String| symbol_usable(und, histr, date, s2@),
                                    )[tt]);
                                }
                                lemma_windowed_history(
                                    wseq,
                                    und,
                                    date.days - histr,
                                    date.days as int,
                                    sym,
                                );
                                assert(worker0.historical.spec_get(sym) == Some(
                                    window_of(
                                        spec_history(und, sym)->0,
                                        date.days - histr,
                                        date.days as int,
                                    ),
                                ));
                            }
                            lemma_trace_agrees(
                                mcur,
                                quotes,
                                data,
                                und,
                                histr,
                                date,
                                syms_ok,
                                capsv,
                            );
                            let seg = strategy_date_trace(
                                mcur,
                                quotes,
                                und,
                                histr,
                                date,
                                syms_ok,
                                capsv,
                            );
                            assert(worker0.planned_fills(mcur, data) == seg);
                            assert(self.orders.fills@ == fillspre + seg);
                            // the head segment of this date's remaining trace
                            assert(spec_date_lookup(market, date) == Some(quotes));
                            assert(usable_symbols(und, histr, date, strats[s as int].symbols@)
                                == syms_ok);
                            assert(capsv == strats[s as int].capital@);
                            let dseg = date_trace(mcur, market, und, histr, date, tail);
                            assert(tail.len() > 0);
                            let rest = date_trace(
                                apply_fills(mcur, seg),
                                market,
                                und,
                                histr,
                                date,
                                tail.drop_first(),
                            );
                            assert(dseg == seg + rest);
                            // the book after the worker is the model after its fills
                            assert(mcur == apply_fills(Map::empty(), fillspre));
                            lemma_apply_fills_concat(Map::empty(), fillspre, seg);
                            assert(book_model(self.orders.book) == apply_fills(
                                Map::empty(),
                                fillspre + seg,
                            ));
                            assert(book_model(self.orders.book) == apply_fills(mcur, seg));
                            // re-associate the conservation equation
                            lemma_apply_fills_concat(mcur, seg, rest);
                            assert(apply_fills(mcur, dseg) == apply_fills(
                                apply_fills(mcur, seg),
                                rest,
                            ));
                            let after = replay_trace(
                                apply_fills(mcur, dseg),
                                market,
                                und,
                                histr,
                                strats,
                                date.days + 1,
                                end_day,
                            );
                            assert(fillspre + (dseg + after) =~= (fillspre + seg) + (rest + after));
                        }
                        match run_result {
                            Ok(_) => (),
                            Err(_) => (),
                        }
                        let shutdown_result = worker.shutdown();
                        match shutdown_result {
                            Ok(_) => (),
                            Err(_) => (),
                        }
                    },
                    Err(_) => {
                        // No data for the date: a weekend or holiday; skip it.
                        proof {
                            assert(spec_date_lookup(market, date) is None);
                            assert(tail.len() > 0);
                            let rest = date_trace(
                                apply_fills(mcur, Seq::<(Order, i64)>::empty()),
                                market,
                                und,
                                histr,
                                date,
                                tail.drop_first(),
                            );
                            assert(apply_fills(mcur, Seq::<(Order, i64)>::empty()) == mcur);
                            let dseg = date_trace(mcur, market, und, histr, date, tail);
                            assert(dseg == Seq::<(Order, i64)>::empty() + rest);
                            assert(Seq::<(Order, i64)>::empty() + rest =~= rest);
                        }
                    },
                }
                s = s + 1;
            }
            proof {
                let mcur = book_model(self.orders.book);
                assert(strats.subrange(
                    strats.len() as int,
                    strats.len() as int,
                ) =~= Seq::<crate::config::Strategy>::empty());
                let dseg = date_trace(
                    mcur,
                    market,
                    und,
                    histr,
                    date,
                    strats.subrange(strats.len() as int, strats.len() as int),
                );
                assert(dseg == Seq::<(Order, i64)>::empty());
                assert(apply_fills(mcur, dseg) == mcur);
                assert(dseg + replay_trace(
                    apply_fills(mcur, dseg),
                    market,
                    und,
                    histr,
                    strats,
                    date.days + 1,
                    end_day,
                ) =~= replay_trace(mcur, market, und, histr, strats, date.days + 1, end_day));
            }
            i = i + 1;
        }
        proof {
            assert(start_days + i > end_day);
            assert(replay_trace(
                book_model(self.orders.book),
                market,
                und,
                histr,
                strats,
                start_days + i,
                end_day,
            ) == Seq::<(Order, i64)>::empty());
            assert(self.orders.fills@ + Seq::<(Order, i64)>::empty() =~= self.orders.fills@);
        }
        Ok(())
    }
}

/// Whether every bar is well-formed.
fn all_days_wf(days: &Vec<Day>) -> (r: bool)
    ensures
        r == forall|j: int| 0 <= j < days@.len() ==> crate::domain::wf_day(#[trigger] days@[j]),
{
    let mut k: usize = 0;
    while k < days.len()
        invariant
            0 <= k <= days@.len(),
            forall|j: int| 0 <= j < k ==> crate::domain::wf_day(#[trigger] days@[j]),
        decreases days@.len() - k,
    {
        if !day_is_wf(&days[k]) {
            return false;
        }
        k = k + 1;
    }
    true
}

/// A copy of each capital entry, in order.
fn clone_capital(v: &Vec<(String, i64)>) -> (r: Vec<(String, i64)>)
    ensures
        r@ == v@,
{
    let mut out: Vec<(String, i64)> = Vec::new();
    let mut i: usize = 0;
    while i < v.len()
        invariant
            0 <= i <= v@.len(),
            out@ =~= v@.subrange(0, i as int),
        decreases v@.len() - i,
    {
        out.push((v[i].0.clone(), v[i].1));
        i = i + 1;
    }
    assert(out@ =~= v@);
    out
}

} // verus!
