//! The in-memory order service used by the backtest: it books fills against
//! the position map and emits a realized profit-and-loss record for every
//! sell, exactly as the live service does, but with no broker round-trip.
//!
//! The accounting model: the book, viewed as a map from symbol characters to
//! the held position, always equals the fold of `apply_fill` over the fills
//! booked so far (starting empty), and the emitted profit-and-loss records
//! always sum to `fills_pnl_sum` over those fills — the sum over sells of
//! sell price times quantity less the cost basis of the position being
//! closed.

use vstd::prelude::*;
use crate::domain::{
    wf_order, wf_pnl, wf_position, Order, Position, RealizedPnL, Side, MAX_PNL_ABS, MAX_QTY,
};
use crate::positions::{
    calc_pnl, lemma_lookup_props, position_from, px_or_zero, spec_lookup, spec_sell_pnl,
    PositionBook,
};

verus! {

/// Largest number of profit-and-loss records whose total is computed
/// exactly.
pub const MAX_PNL_RECORDS: usize = 1000000000;

/// The book as a map from symbol characters to the held position.
pub open spec fn book_model(b: PositionBook) -> Map<Seq<char>, Position> {
    Map::new(
        |sym: Seq<char>| spec_lookup(b.entries@, sym) is Some,
        |sym: Seq<char>| spec_lookup(b.entries@, sym)->0,
    )
}

/// One fill applied to the book model: a buy adds its quantity to the
/// existing position (opening one at price times quantity when none exists,
/// acquired at the fill's timestamp); a sell closes the position out.
pub open spec fn apply_fill(
    m: Map<Seq<char>, Position>,
    o: Order,
    acquired: i64,
) -> Map<Seq<char>, Position> {
    let sym = o.symbol@;
    match o.side {
        Side::Buy => {
            if m.contains_key(sym) {
                m.insert(
                    sym,
                    Position { quantity: (m[sym].quantity + o.quantity) as i64, ..m[sym] },
                )
            } else {
                m.insert(
                    sym,
                    Position {
                        broker_id: None,
                        symbol: o.symbol,
                        quantity: o.quantity,
                        cost_basis: (px_or_zero(o) * o.quantity) as i128,
                        date: acquired,
                    },
                )
            }
        },
        Side::Sell => m.insert(sym, Position { quantity: 0i64, ..m[sym] }),
    }
}

/// The cash one fill realizes: sells realize price times quantity less the
/// closed position's cost basis; buys realize nothing.
pub open spec fn fill_pnl(m: Map<Seq<char>, Position>, o: Order) -> int {
    if o.side is Sell && m.contains_key(o.symbol@) {
        spec_sell_pnl(o, m[o.symbol@].cost_basis as int)
    } else {
        0
    }
}

/// The book model after a sequence of fills.
pub open spec fn apply_fills(
    m: Map<Seq<char>, Position>,
    fills: Seq<(Order, i64)>,
) -> Map<Seq<char>, Position>
    decreases fills.len(),
{
    if fills.len() == 0 {
        m
    } else {
        apply_fills(apply_fill(m, fills[0].0, fills[0].1), fills.drop_first())
    }
}

/// The total cash realized by a sequence of fills: the sum over its sells of
/// sell price times quantity less the cost basis of the position each sell
/// closes.
pub open spec fn fills_pnl_sum(m: Map<Seq<char>, Position>, fills: Seq<(Order, i64)>) -> int
    decreases fills.len(),
{
    if fills.len() == 0 {
        0
    } else {
        fill_pnl(m, fills[0].0) + fills_pnl_sum(
            apply_fill(m, fills[0].0, fills[0].1),
            fills.drop_first(),
        )
    }
}

/// Applying a concatenation of fills applies the parts in order.
pub proof fn lemma_apply_fills_concat(
    m: Map<Seq<char>, Position>,
    a: Seq<(Order, i64)>,
    b: Seq<(Order, i64)>,
)
    ensures
        apply_fills(m, a + b) == apply_fills(apply_fills(m, a), b),
    decreases a.len(),
{
    if a.len() == 0 {
        assert(a + b =~= b);
        assert(apply_fills(m, a) == m);
    } else {
        assert((a + b)[0] == a[0]);
        assert((a + b).len() > 0);
        assert((a + b).drop_first() =~= a.drop_first() + b);
        lemma_apply_fills_concat(apply_fill(m, a[0].0, a[0].1), a.drop_first(), b);
        assert(apply_fills(m, a + b) == apply_fills(apply_fill(m, (a + b)[0].0, (a + b)[0].1), (a
            + b).drop_first()));
        assert(apply_fills(m, a) == apply_fills(apply_fill(m, a[0].0, a[0].1), a.drop_first()));
    }
}

/// The sum of the profit-and-loss amounts of a record sequence.
pub open spec fn pnl_total(s: Seq<RealizedPnL>) -> int
    decreases s.len(),
{
    if s.len() == 0 {
        0
    } else {
        s[0].pnl + pnl_total(s.drop_first())
    }
}

/// Appending a record adds its amount to the total.
pub proof fn lemma_pnl_total_push(s: Seq<RealizedPnL>, r: RealizedPnL)
    ensures
        pnl_total(s.push(r)) == pnl_total(s) + r.pnl,
    decreases s.len(),
{
    if s.len() == 0 {
        assert(s.push(r).drop_first() =~= s);
    } else {
        assert(s.push(r).drop_first() =~= s.drop_first().push(r));
        lemma_pnl_total_push(s.drop_first(), r);
    }
}

/// Extending the fill history by one fill extends the model by one
/// `apply_fill` step and the realized total by that fill's cash.
pub proof fn lemma_fills_step(m: Map<Seq<char>, Position>, fills: Seq<(Order, i64)>, o: Order, acquired: i64)
    ensures
        apply_fills(m, fills.push((o, acquired))) == apply_fill(
            apply_fills(m, fills),
            o,
            acquired,
        ),
        fills_pnl_sum(m, fills.push((o, acquired))) == fills_pnl_sum(m, fills) + fill_pnl(
            apply_fills(m, fills),
            o,
        ),
    decreases fills.len(),
{
    let fp = fills.push((o, acquired));
    if fills.len() == 0 {
        assert(fp[0] == (o, acquired));
        assert(fp.drop_first() =~= Seq::<(Order, i64)>::empty());
        assert(apply_fills(m, fp) == apply_fills(apply_fill(m, fp[0].0, fp[0].1), fp.drop_first()));
        assert(apply_fills(apply_fill(m, o, acquired), Seq::<(Order, i64)>::empty()) == apply_fill(
            m,
            o,
            acquired,
        ));
        assert(fills_pnl_sum(m, fp) == fill_pnl(m, fp[0].0) + fills_pnl_sum(
            apply_fill(m, fp[0].0, fp[0].1),
            fp.drop_first(),
        ));
        assert(fills_pnl_sum(apply_fill(m, o, acquired), Seq::<(Order, i64)>::empty()) == 0);
        assert(fills_pnl_sum(m, fills) == 0);
        assert(apply_fills(m, fills) == m);
    } else {
        assert(fp[0] == fills[0]);
        assert(fp.drop_first() =~= fills.drop_first().push((o, acquired)));
        lemma_fills_step(apply_fill(m, fills[0].0, fills[0].1), fills.drop_first(), o, acquired);
        assert(apply_fills(m, fp) == apply_fills(apply_fill(m, fp[0].0, fp[0].1), fp.drop_first()));
        assert(apply_fills(m, fills) == apply_fills(
            apply_fill(m, fills[0].0, fills[0].1),
            fills.drop_first(),
        ));
        assert(fills_pnl_sum(m, fp) == fill_pnl(m, fp[0].0) + fills_pnl_sum(
            apply_fill(m, fp[0].0, fp[0].1),
            fp.drop_first(),
        ));
        assert(fills_pnl_sum(m, fills) == fill_pnl(m, fills[0].0) + fills_pnl_sum(
            apply_fill(m, fills[0].0, fills[0].1),
            fills.drop_first(),
        ));
    }
}

/// The backtest order service: the position book, the emitted
/// profit-and-loss records, and (in ghost state) the fills booked so far.
pub struct BacktestOrders {
    pub book: PositionBook,
    pub pnl: Vec<RealizedPnL>,
    pub fills: Ghost<Seq<(Order, i64)>>,
}

impl BacktestOrders {
    /// Structural well-formedness: a well-formed book and well-formed
    /// records.
    pub open spec fn wf_book(&self) -> bool {
        &&& self.book.wf()
        &&& forall|i: int| 0 <= i < self.pnl@.len() ==> wf_pnl(#[trigger] self.pnl@[i])
    }

    /// The accounting invariant: starting from an empty book, the fills
    /// booked so far reproduce the current book and their realized cash sum
    /// equals the total of the emitted records.
    pub open spec fn accounting(&self) -> bool {
        &&& book_model(self.book) == apply_fills(Map::empty(), self.fills@)
        &&& pnl_total(self.pnl@) == fills_pnl_sum(Map::empty(), self.fills@)
    }

    pub open spec fn wf(&self) -> bool {
        self.wf_book() && self.accounting()
    }

    pub fn new() -> (r: Self)
        ensures
            r.wf(),
            r.pnl@.len() == 0,
            r.fills@.len() == 0,
            r.book.entries@.len() == 0,
    {
        let r = BacktestOrders {
            book: PositionBook::new(),
            pnl: Vec::new(),
            fills: Ghost(Seq::empty()),
        };
        proof {
            lemma_lookup_props(r.book.entries@, arbitrary());
            assert forall|sym: Seq<char>| !(spec_lookup(r.book.entries@, sym) is Some) by {
                lemma_lookup_props(r.book.entries@, sym);
            }
            assert(book_model(r.book) =~= Map::empty());
        }
        r
    }

    /// The current position for a symbol, or none.
    pub fn get_position(&self, symbol: &String) -> (r: Option<Position>)
        requires
            self.wf_book(),
        ensures
            r == spec_lookup(self.book.entries@, symbol@),
            r matches Some(p) ==> wf_position(p),
    {
        self.book.get_position(symbol)
    }

    /// Replaces the stored position for its symbol.  This reseeds the book
    /// (as the broker snapshot does at startup) and is not a fill: the
    /// accounting tie to the fill history is not maintained through it.
    pub fn update_position(&mut self, position: &Position)
        requires
            old(self).wf_book(),
            wf_position(*position),
        ensures
            final(self).wf_book(),
            final(self).book.spec_get(position.symbol@) == Some(*position),
            forall|sym: Seq<char>|
                sym != position.symbol@ ==> final(self).book.spec_get(sym) == old(
                    self,
                ).book.spec_get(sym),
            final(self).pnl@ == old(self).pnl@,
    {
        self.book.update_position(position);
    }

    /// Books one fill: the position for the order's symbol is combined with
    /// the order, and a sell emits the realized profit-and-loss of the
    /// position it closes.  The backtest accepts every order.
    pub fn create_order(&mut self, order: Order, strategy: String, acquired: i64) -> (r: Result<
        Order,
        String,
    >)
        requires
            old(self).wf(),
            wf_order(order),
            order.side == Side::Buy ==> position_quantity_in(
                book_model(old(self).book),
                order.symbol@,
            ) + order.quantity <= MAX_QTY,
            order.side == Side::Sell ==> book_model(old(self).book).contains_key(order.symbol@)
                && order.quantity <= book_model(old(self).book)[order.symbol@].quantity,
        ensures
            final(self).wf(),
            r matches Ok(o) && o == order,
            final(self).fills@ == old(self).fills@.push((order, acquired)),
            book_model(final(self).book) == apply_fill(
                book_model(old(self).book),
                order,
                acquired,
            ),
            order.side == Side::Sell ==> {
                &&& final(self).pnl@.len() == old(self).pnl@.len() + 1
                &&& final(self).pnl@ == old(self).pnl@.push(final(self).pnl@.last())
                &&& final(self).pnl@.last().pnl == fill_pnl(book_model(old(self).book), order)
                &&& final(self).pnl@.last().symbol == order.symbol
                &&& final(self).pnl@.last().date == order.date
                &&& final(self).pnl@.last().strategy == strategy
            },
            order.side == Side::Buy ==> final(self).pnl@ == old(self).pnl@,
            // Position arithmetic, as the testable invariant states it: the
            // new quantity is the prior quantity plus the buy, and a sell
            // closes the position out.
            ({
                let q0 = position_quantity_in(book_model(old(self).book), order.symbol@);
                let m2 = book_model(final(self).book);
                &&& m2.contains_key(order.symbol@)
                &&& order.side == Side::Buy ==> m2[order.symbol@].quantity == q0 + order.quantity
                &&& order.side == Side::Sell ==> m2[order.symbol@].quantity == 0
            }),
    {
        let ghost m0 = book_model(self.book);
        let ghost olde = self.book.entries@;
        let existing = self.book.get_position(&order.symbol);
        proof {
            lemma_lookup_props(self.book.entries@, order.symbol@);
            if existing is Some {
                assert(m0.contains_key(order.symbol@) && m0[order.symbol@] == existing->0);
            } else {
                assert(!m0.contains_key(order.symbol@));
            }
        }
        let existing_copy: Option<Position> = match &existing {
            Some(p) => Some(p.clone()),
            None => None,
        };
        let position = position_from(&order, existing_copy, acquired);
        self.book.update_position(&position);
        proof {
            let m2 = apply_fill(m0, order, acquired);
            assert(position.symbol@ == order.symbol@);
            assert(m2 == m0.insert(order.symbol@, position));
            let bm = book_model(self.book);
            assert forall|sym: Seq<char>|
                #![trigger bm.contains_key(sym)]
                #![trigger m2.contains_key(sym)]
                bm.contains_key(sym) == m2.contains_key(sym) && (bm.contains_key(sym)
                    ==> bm[sym] == m2[sym]) by {
                if sym == order.symbol@ {
                    assert(self.book.spec_get(sym) == Some(position));
                    assert(bm.contains_key(sym) && bm[sym] == position);
                    assert(m2.contains_key(sym) && m2[sym] == position);
                } else {
                    assert(self.book.spec_get(sym) == spec_lookup(olde, sym));
                    assert(bm.contains_key(sym) <==> spec_lookup(olde, sym) is Some);
                    assert(m2.contains_key(sym) <==> m0.contains_key(sym));
                }
            }
            assert(bm =~= m2);
        }
        if matches!(order.side, Side::Sell) {
            let ghost p0 = self.pnl@;
            let pnl_rec = calc_pnl(
                match existing {
                    Some(p) => p,
                    None => {
                        proof {
                            assert(false);
                        }
                        position.clone()
                    },
                },
                &order,
                strategy,
            );
            self.pnl.push(pnl_rec);
            proof {
                lemma_pnl_total_push(p0, pnl_rec);
                lemma_fills_step(Map::empty(), self.fills@, order, acquired);
                self.fills@ = self.fills@.push((order, acquired));
            }
        } else {
            proof {
                lemma_fills_step(Map::empty(), self.fills@, order, acquired);
                self.fills@ = self.fills@.push((order, acquired));
            }
        }
        Ok(order)
    }

    /// Every open position: those with positive quantity.
    pub fn open_positions(&self) -> (r: Vec<Position>)
        requires
            self.wf_book(),
        ensures
            r@ == open_positions_of(self.book.entries@),
    {
        let mut out: Vec<Position> = Vec::new();
        let mut i: usize = 0;
        proof {
            assert(self.book.entries@.subrange(0, 0) =~= Seq::<Position>::empty());
            lemma_open_positions_empty();
        }
        while i < self.book.entries.len()
            invariant
                self.wf_book(),
                0 <= i <= self.book.entries@.len(),
                out@ == open_positions_of(self.book.entries@.subrange(0, i as int)),
            decreases self.book.entries@.len() - i,
        {
            let ghost pre = self.book.entries@.subrange(0, i as int);
            if self.book.entries[i].quantity > 0 {
                out.push(self.book.entries[i].clone());
            }
            proof {
                assert(self.book.entries@.subrange(0, i + 1 as int) =~= pre.push(
                    self.book.entries@[i as int],
                ));
                lemma_open_positions_push(pre, self.book.entries@[i as int]);
            }
            i = i + 1;
        }
        proof {
            assert(self.book.entries@.subrange(0, self.book.entries@.len() as int)
                =~= self.book.entries@);
        }
        out
    }

    /// Every realized profit-and-loss record emitted so far, in emission
    /// order.
    pub fn realized_pnl(&self) -> (r: Vec<RealizedPnL>)
        ensures
            r@ == self.pnl@,
    {
        let mut out: Vec<RealizedPnL> = Vec::new();
        let mut i: usize = 0;
        while i < self.pnl.len()
            invariant
                0 <= i <= self.pnl@.len(),
                out@ =~= self.pnl@.subrange(0, i as int),
            decreases self.pnl@.len() - i,
        {
            out.push(self.pnl[i].clone());
            i = i + 1;
        }
        assert(out@ =~= self.pnl@);
        out
    }

    /// The exact total of the emitted profit-and-loss records.
    pub fn total_pnl(&self) -> (r: i128)
        requires
            self.wf_book(),
            self.pnl@.len() <= MAX_PNL_RECORDS,
        ensures
            r == pnl_total(self.pnl@),
    {
        let mut sum: i128 = 0;
        let mut i: usize = 0;
        let ghost whole = self.pnl@;
        while i < self.pnl.len()
            invariant
                self.wf_book(),
                self.pnl@ == whole,
                0 <= i <= whole.len() <= MAX_PNL_RECORDS,
                sum == pnl_total(whole.subrange(0, i as int)),
                -(MAX_PNL_ABS * i) <= sum <= MAX_PNL_ABS * i,
            decreases whole.len() - i,
        {
            proof {
                assert(wf_pnl(self.pnl@[i as int]));
                assert(whole[i as int] == self.pnl@[i as int]);
                assert(whole.subrange(0, i + 1 as int) =~= whole.subrange(0, i as int).push(
                    whole[i as int],
                ));
                lemma_pnl_total_push(whole.subrange(0, i as int), whole[i as int]);
                assert(-(MAX_PNL_ABS * (i + 1)) <= sum + whole[i as int].pnl <= MAX_PNL_ABS * (i
                    + 1)) by (nonlinear_arith)
                    requires
                        -(MAX_PNL_ABS * i) <= sum <= MAX_PNL_ABS * i,
                        -MAX_PNL_ABS <= whole[i as int].pnl <= MAX_PNL_ABS,
                ;
                assert(MAX_PNL_ABS * (i + 1) <= MAX_PNL_ABS * (MAX_PNL_RECORDS as int)
                    && -(MAX_PNL_ABS * (MAX_PNL_RECORDS as int)) <= -(MAX_PNL_ABS * (i + 1)))
                    by (nonlinear_arith)
                    requires
                        i + 1 <= MAX_PNL_RECORDS as int,
                        MAX_PNL_ABS > 0,
                ;
                assert(MAX_PNL_ABS * (MAX_PNL_RECORDS as int)
                    == 20000000000000000000000000000000000000int);
                assert(-170141183460469231731687303715884105728int <= sum + whole[i as int].pnl
                    <= 170141183460469231731687303715884105727int);
            }
            sum = sum + self.pnl[i].pnl;
            i = i + 1;
        }
        proof {
            assert(whole.subrange(0, whole.len() as int) =~= whole);
        }
        sum
    }
}

/// The quantity the model holds for a symbol, or 0.
pub open spec fn position_quantity_in(m: Map<Seq<char>, Position>, sym: Seq<char>) -> int {
    if m.contains_key(sym) {
        m[sym].quantity as int
    } else {
        0
    }
}

/// The positions with positive quantity, in book order.
pub open spec fn open_positions_of(s: Seq<Position>) -> Seq<Position> {
    s.filter(|p: Position| p.quantity > 0)
}

proof fn lemma_open_positions_empty()
    ensures
        open_positions_of(Seq::<Position>::empty()) == Seq::<Position>::empty(),
{
    reveal(Seq::filter);
}

proof fn lemma_open_positions_push(s: Seq<Position>, p: Position)
    ensures
        open_positions_of(s.push(p)) == if p.quantity > 0 {
            open_positions_of(s).push(p)
        } else {
            open_positions_of(s)
        },
{
    reveal(Seq::filter);
    assert(s.push(p).drop_last() =~= s);
}

/// Position arithmetic after a fill: a buy leaves the prior quantity plus
/// the order's, a sell the prior quantity less the order's.  Sells always
/// close the whole position, so their order quantity equals the prior
/// quantity; a partial sell is excluded, since a fill sets the quantity to
/// zero regardless.
pub proof fn lemma_position_after_fill(
    m: Map<Seq<char>, Position>,
    o: Order,
    acquired: i64,
)
    requires
        o.side == Side::Sell ==> m.contains_key(o.symbol@) && o.quantity
            == m[o.symbol@].quantity,
        o.side == Side::Buy && m.contains_key(o.symbol@) ==> 0 <= m[o.symbol@].quantity
            && m[o.symbol@].quantity + o.quantity <= MAX_QTY,
        0 < o.quantity <= MAX_QTY,
    ensures
        apply_fill(m, o, acquired).contains_key(o.symbol@),
        apply_fill(m, o, acquired)[o.symbol@].quantity == if o.side == Side::Buy {
            position_quantity_in(m, o.symbol@) + o.quantity
        } else {
            position_quantity_in(m, o.symbol@) - o.quantity
        },
{
}

/// The total realized by the fills booked so far equals the total of the
/// emitted records: the backtest's profit-and-loss accounting law.
pub proof fn lemma_backtest_pnl_accounting(orders: &BacktestOrders)
    requires
        orders.wf(),
    ensures
        pnl_total(orders.pnl@) == fills_pnl_sum(Map::empty(), orders.fills@),
{
}

} // verus!
