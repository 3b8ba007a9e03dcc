//! Position arithmetic and the in-memory position map.
//!
//! One shared set of rules turns a filled order and the existing position
//! into the next position, and prices a closing sell; both the live order
//! service and the backtest book them through these functions.

use vstd::prelude::*;
use crate::domain::{
    wf_order, wf_pnl, wf_position, Order, Position, RealizedPnL, Side, MAX_MONEY, MAX_PRICE,
    MAX_QTY,
};

verus! {

/// The order's reference price, or 0 when none was attached.
pub open spec fn px_or_zero(o: Order) -> int {
    match o.px {
        Some(p) => p as int,
        None => 0,
    }
}

/// The cash a sell realizes against the closed position's full cost basis,
/// in scaled money units.
pub open spec fn spec_sell_pnl(o: Order, basis: int) -> int {
    px_or_zero(o) * o.quantity - basis
}

/// The next position after a buy fills: an existing position gains the
/// bought quantity (its cost basis is deliberately kept, not reaveraged);
/// otherwise a fresh position is opened with an estimated cost basis of
/// price times quantity, acquired at `acquired` (epoch milliseconds).
pub fn position_from_buy(order: &Order, existing: Option<Position>, acquired: i64) -> (r:
    Position)
    requires
        wf_order(*order),
        order.side == Side::Buy,
        existing matches Some(p) ==> wf_position(p) && p.quantity + order.quantity <= MAX_QTY,
    ensures
        existing matches Some(p) ==> r == (Position {
            quantity: (p.quantity + order.quantity) as i64,
            ..p
        }),
        existing is None ==> {
            &&& r.broker_id is None
            &&& r.symbol == order.symbol
            &&& r.quantity == order.quantity
            &&& r.cost_basis == px_or_zero(*order) * order.quantity
            &&& r.date == acquired
        },
        wf_position(r),
{
    match existing {
        Some(position) => Position { quantity: position.quantity + order.quantity, ..position },
        None => {
            let px: u64 = match order.px {
                Some(p) => p,
                None => 0,
            };
            proof {
                assert(0 <= px as int * order.quantity as int <= MAX_MONEY) by (nonlinear_arith)
                    requires
                        0 <= px as int <= MAX_PRICE as int,
                        0 < order.quantity as int <= MAX_QTY as int,
                        MAX_MONEY == MAX_PRICE as int * MAX_QTY as int,
                ;
            }
            Position {
                broker_id: None,
                symbol: order.symbol.clone(),
                quantity: order.quantity,
                cost_basis: px as i128 * order.quantity as i128,
                date: acquired,
            }
        },
    }
}

/// The next position after a sell fills: the position is closed out in full
/// (sells always unwind the whole position; sizes are computed upstream to
/// equal it).  A sell larger than the position, or with no position, is a
/// logic error and is excluded here.
pub fn position_from_sell(order: &Order, existing: Option<Position>) -> (r: Position)
    requires
        wf_order(*order),
        order.side == Side::Sell,
        existing matches Some(p) && order.quantity <= existing->0.quantity,
        wf_position(existing->0),
    ensures
        r == (Position { quantity: 0i64, ..existing->0 }),
        wf_position(r),
{
    match existing {
        Some(position) => Position { quantity: 0, ..position },
        None => {
            proof {
                assert(false);
            }
            Position {
                broker_id: None,
                symbol: order.symbol.clone(),
                quantity: 0,
                cost_basis: 0,
                date: 0,
            }
        },
    }
}

/// Dispatches on the order's side.
pub fn position_from(order: &Order, existing: Option<Position>, acquired: i64) -> (r: Position)
    requires
        wf_order(*order),
        existing matches Some(p) ==> wf_position(p),
        order.side == Side::Buy && existing is Some ==> existing->0.quantity + order.quantity
            <= MAX_QTY,
        order.side == Side::Sell ==> (existing matches Some(p) && order.quantity <= p.quantity),
    ensures
        order.side == Side::Buy && existing is Some ==> r == (Position {
            quantity: (existing->0.quantity + order.quantity) as i64,
            ..existing->0
        }),
        order.side == Side::Buy && existing is None ==> {
            &&& r.broker_id is None
            &&& r.symbol == order.symbol
            &&& r.quantity == order.quantity
            &&& r.cost_basis == px_or_zero(*order) * order.quantity
            &&& r.date == acquired
        },
        order.side == Side::Sell ==> r == (Position { quantity: 0i64, ..existing->0 }),
        wf_position(r),
{
    match order.side {
        Side::Buy => position_from_buy(order, existing, acquired),
        Side::Sell => position_from_sell(order, existing),
    }
}

/// Prices the realized profit-and-loss of a filled sell: the proceeds at the
/// order's price less the closed position's full cost basis.
pub fn calc_pnl(position: Position, order: &Order, strategy: String) -> (r: RealizedPnL)
    requires
        wf_order(*order),
        wf_position(position),
    ensures
        r.id == order.id.unwrap_or(0),
        r.symbol == order.symbol,
        r.date == order.date,
        r.strategy == strategy,
        r.pnl == spec_sell_pnl(*order, position.cost_basis as int),
        wf_pnl(r),
{
    let price: u64 = match order.px {
        Some(p) => p,
        None => 0,
    };
    proof {
        assert(0 <= price as int * order.quantity as int <= MAX_MONEY) by (nonlinear_arith)
            requires
                0 <= price as int <= MAX_PRICE as int,
                0 < order.quantity as int <= MAX_QTY as int,
                MAX_MONEY == MAX_PRICE as int * MAX_QTY as int,
        ;
    }
    let proceeds: i128 = price as i128 * order.quantity as i128;
    let pnl: i128 = proceeds - position.cost_basis;
    RealizedPnL {
        id: order.id(),
        symbol: order.symbol.clone(),
        date: order.date,
        pnl,
        strategy,
    }
}

/// No two entries share a symbol and every entry is well-formed; in
/// particular no position has negative quantity.
pub open spec fn wf_position_seq(s: Seq<Position>) -> bool {
    &&& forall|i: int| 0 <= i < s.len() ==> wf_position(#[trigger] s[i])
    &&& forall|i: int, j: int|
        0 <= i < j < s.len() ==> (#[trigger] s[i].symbol@) != (#[trigger] s[j].symbol@)
}

/// The first entry whose symbol has the characters `sym`, if any.
pub open spec fn spec_lookup(s: Seq<Position>, sym: Seq<char>) -> Option<Position>
    decreases s.len(),
{
    if s.len() == 0 {
        None
    } else if s[0].symbol@ == sym {
        Some(s[0])
    } else {
        spec_lookup(s.drop_first(), sym)
    }
}

/// What `spec_lookup` finds: the match at the unique matching index, or
/// nothing when no entry matches.
pub proof fn lemma_lookup_props(s: Seq<Position>, sym: Seq<char>)
    ensures
        (spec_lookup(s, sym) matches Some(p) ==> exists|i: int|
            0 <= i < s.len() && s[i] == p && (#[trigger] s[i].symbol@) == sym),
        spec_lookup(s, sym) is None <==> (forall|i: int|
            0 <= i < s.len() ==> (#[trigger] s[i].symbol@) != sym),
    decreases s.len(),
{
    if s.len() > 0 {
        lemma_lookup_props(s.drop_first(), sym);
        assert(forall|i: int|
            0 <= i < s.drop_first().len() ==> #[trigger] s.drop_first()[i] == s[i + 1]);
        assert(forall|i: int|
            1 <= i < s.len() ==> (#[trigger] s[i].symbol@) == s.drop_first()[i - 1].symbol@);
        if s[0].symbol@ != sym {
            if spec_lookup(s.drop_first(), sym) is Some {
                let p = spec_lookup(s.drop_first(), sym)->0;
                let i = choose|i: int|
                    0 <= i < s.drop_first().len() && s.drop_first()[i] == p && (#[trigger] s
                        .drop_first()[i].symbol@) == sym;
                assert(s[i + 1] == p && s[i + 1].symbol@ == sym);
            }
        }
    }
}

/// Under symbol uniqueness, a matching index pins the lookup result.
pub proof fn lemma_lookup_unique(s: Seq<Position>, sym: Seq<char>, i: int)
    requires
        wf_position_seq(s),
        0 <= i < s.len(),
        s[i].symbol@ == sym,
    ensures
        spec_lookup(s, sym) == Some(s[i]),
    decreases i,
{
    if i == 0 {
    } else {
        assert(s[0].symbol@ != sym);
        assert(s.drop_first()[i - 1] == s[i]);
        lemma_lookup_unique(s.drop_first(), sym, i - 1);
    }
}

/// No position a well-formed book holds has negative quantity.
pub proof fn lemma_no_negative_positions(s: Seq<Position>)
    requires
        wf_position_seq(s),
    ensures
        forall|i: int| 0 <= i < s.len() ==> (#[trigger] s[i]).quantity >= 0,
{
    assert(forall|i: int| 0 <= i < s.len() ==> wf_position(#[trigger] s[i]));
}

/// The in-memory position map: at most one position per symbol, mutated
/// only as orders fill or the broker snapshot is replayed.
#[derive(Debug)]
pub struct PositionBook {
    pub entries: Vec<Position>,
}

impl PositionBook {
    pub open spec fn wf(&self) -> bool {
        wf_position_seq(self.entries@)
    }

    /// The position the book holds for `sym`, if any.
    pub open spec fn spec_get(&self, sym: Seq<char>) -> Option<Position> {
        spec_lookup(self.entries@, sym)
    }

    pub fn new() -> (r: Self)
        ensures
            r.wf(),
            r.entries@.len() == 0,
    {
        PositionBook { entries: Vec::new() }
    }

    /// The current position for a symbol, or none.
    pub fn get_position(&self, symbol: &String) -> (r: Option<Position>)
        requires
            self.wf(),
        ensures
            r == self.spec_get(symbol@),
            r matches Some(p) ==> wf_position(p),
    {
        proof {
            lemma_lookup_props(self.entries@, symbol@);
        }
        let mut i: usize = 0;
        while i < self.entries.len()
            invariant
                self.wf(),
                0 <= i <= self.entries@.len(),
                forall|j: int| 0 <= j < i ==> (#[trigger] self.entries@[j].symbol@) != symbol@,
            decreases self.entries@.len() - i,
        {
            if self.entries[i].symbol == *symbol {
                proof {
                    lemma_lookup_unique(self.entries@, symbol@, i as int);
                }
                return Some(self.entries[i].clone());
            }
            i = i + 1;
        }
        None
    }

    /// Replaces the stored position for its symbol, or stores it anew.
    pub fn update_position(&mut self, position: &Position)
        requires
            old(self).wf(),
            wf_position(*position),
        ensures
            final(self).wf(),
            final(self).spec_get(position.symbol@) == Some(*position),
            forall|sym: Seq<char>|
                sym != position.symbol@ ==> final(self).spec_get(sym) == old(self).spec_get(sym),
            final(self).entries@.len() <= old(self).entries@.len() + 1,
    {
        let ghost olds = self.entries@;
        let mut i: usize = 0;
        while i < self.entries.len()
            invariant
                0 <= i <= self.entries@.len(),
                self.entries@ == olds,
                olds == old(self).entries@,
                wf_position_seq(olds),
                wf_position(*position),
                forall|j: int| 0 <= j < i ==> (#[trigger] olds[j].symbol@) != position.symbol@,
            decreases self.entries@.len() - i,
        {
            if self.entries[i].symbol == position.symbol {
                self.entries.set(i, position.clone());
                proof {
                    let news = self.entries@;
                    assert(news == olds.update(i as int, *position));
                    assert(wf_position_seq(news));
                    lemma_lookup_unique(news, position.symbol@, i as int);
                    assert forall|sym: Seq<char>| sym != position.symbol@ implies spec_lookup(
                        news,
                        sym,
                    ) == spec_lookup(olds, sym) by {
                        lemma_lookup_props(olds, sym);
                        lemma_lookup_props(news, sym);
                        if spec_lookup(olds, sym) is Some {
                            let p = spec_lookup(olds, sym)->0;
                            let k = choose|k: int|
                                0 <= k < olds.len() && olds[k] == p && (#[trigger] olds[k].symbol@)
                                    == sym;
                            assert(news[k] == p);
                            lemma_lookup_unique(news, sym, k);
                        } else {
                            assert(forall|k: int|
                                0 <= k < news.len() ==> (#[trigger] news[k].symbol@) != sym);
                        }
                    }
                }
                return ;
            }
            i = i + 1;
        }
        self.entries.push(position.clone());
        proof {
            let news = self.entries@;
            assert(news == olds.push(*position));
            assert(forall|j: int| 0 <= j < olds.len() ==> news[j] == olds[j]);
            assert(wf_position_seq(news));
            lemma_lookup_unique(news, position.symbol@, olds.len() as int);
            assert forall|sym: Seq<char>| sym != position.symbol@ implies spec_lookup(news, sym)
                == spec_lookup(olds, sym) by {
                lemma_lookup_props(olds, sym);
                lemma_lookup_props(news, sym);
                if spec_lookup(olds, sym) is Some {
                    let p = spec_lookup(olds, sym)->0;
                    let k = choose|k: int|
                        0 <= k < olds.len() && olds[k] == p && (#[trigger] olds[k].symbol@) == sym;
                    assert(news[k] == p);
                    lemma_lookup_unique(news, sym, k);
                } else {
                    assert(forall|k: int|
                        0 <= k < news.len() ==> (#[trigger] news[k].symbol@) != sym);
                }
            }
        }
    }

    /// Every held position, open (positive quantity) or flat.
    pub fn all_positions(&self) -> (r: Vec<Position>)
        requires
            self.wf(),
        ensures
            r@ == self.entries@,
    {
        let mut out: Vec<Position> = Vec::new();
        let mut i: usize = 0;
        while i < self.entries.len()
            invariant
                0 <= i <= self.entries@.len(),
                out@ =~= self.entries@.subrange(0, i as int),
            decreases self.entries@.len() - i,
        {
            out.push(self.entries[i].clone());
            i = i + 1;
        }
        assert(out@ =~= self.entries@);
        out
    }
}

} // verus!
