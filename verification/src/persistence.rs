//! Persistence routing: every domain entity the engine persists is a tagged
//! variant, routed to its document collection and upserted under its key —
//! orders by (symbol, date), positions by symbol, realized profit-and-loss
//! by id.  The store itself is a document store driven by the host program;
//! the model here fixes what each upsert means.

use vstd::prelude::*;
use crate::date::Date;
use crate::domain::{Order, Position, RealizedPnL};

verus! {

/// A persistable domain entity, tagged with its kind.
#[derive(Debug)]
pub enum Persistable {
    Order(Order),
    Position(Position),
    RealizedPnL(RealizedPnL),
}

impl Clone for Persistable {
    fn clone(&self) -> (r: Self)
        ensures
            r == *self,
    {
        match self {
            Persistable::Order(o) => Persistable::Order(o.clone()),
            Persistable::Position(p) => Persistable::Position(p.clone()),
            Persistable::RealizedPnL(p) => Persistable::RealizedPnL(p.clone()),
        }
    }
}

/// The key an entity is upserted under.
#[derive(Debug)]
pub enum UpsertKey {
    /// Orders: one per (symbol, trade date).
    SymbolDate { symbol: String, date: Date },
    /// Positions: one per symbol.
    Symbol { symbol: String },
    /// Realized profit-and-loss: one per record id.
    Id { id: i64 },
}

impl Persistable {
    /// The collection the entity belongs to.
    pub fn collection(&self) -> (r: &'static str)
        ensures
            *self is Order ==> r@ == "orders"@,
            *self is Position ==> r@ == "positions"@,
            *self is RealizedPnL ==> r@ == "pnl"@,
    {
        match self {
            Persistable::Order(_) => "orders",
            Persistable::Position(_) => "positions",
            Persistable::RealizedPnL(_) => "pnl",
        }
    }

    /// The key the entity is upserted under.
    pub fn key(&self) -> (r: UpsertKey)
        ensures
            self matches Persistable::Order(o) ==> r == (UpsertKey::SymbolDate {
                symbol: o.symbol,
                date: o.date,
            }),
            self matches Persistable::Position(p) ==> r == (UpsertKey::Symbol {
                symbol: p.symbol,
            }),
            self matches Persistable::RealizedPnL(p) ==> r == (UpsertKey::Id { id: p.id }),
    {
        match self {
            Persistable::Order(o) => UpsertKey::SymbolDate {
                symbol: o.symbol.clone(),
                date: o.date,
            },
            Persistable::Position(p) => UpsertKey::Symbol { symbol: p.symbol.clone() },
            Persistable::RealizedPnL(p) => UpsertKey::Id { id: p.id },
        }
    }

    /// The record id the entity reports, as the store logs it.
    pub fn id(&self) -> (r: i64)
        ensures
            self matches Persistable::Order(o) ==> r == o.id.unwrap_or(0),
            self matches Persistable::Position(p) ==> r == p.broker_id.unwrap_or(0),
            self matches Persistable::RealizedPnL(p) ==> r == p.id,
    {
        match self {
            Persistable::Order(o) => o.id(),
            Persistable::Position(p) => p.id(),
            Persistable::RealizedPnL(p) => p.id,
        }
    }
}

/// Whether two entities land in the same document: same collection, same
/// key.
pub open spec fn same_slot(a: Persistable, b: Persistable) -> bool {
    match (a, b) {
        (Persistable::Order(x), Persistable::Order(y)) => x.symbol@ == y.symbol@ && x.date
            == y.date,
        (Persistable::Position(x), Persistable::Position(y)) => x.symbol@ == y.symbol@,
        (Persistable::RealizedPnL(x), Persistable::RealizedPnL(y)) => x.id == y.id,
        _ => false,
    }
}

/// The executable check for `same_slot`.
pub fn is_same_slot(a: &Persistable, b: &Persistable) -> (r: bool)
    ensures
        r == same_slot(*a, *b),
{
    match (a, b) {
        (Persistable::Order(x), Persistable::Order(y)) => x.symbol == y.symbol && x.date == y.date,
        (Persistable::Position(x), Persistable::Position(y)) => x.symbol == y.symbol,
        (Persistable::RealizedPnL(x), Persistable::RealizedPnL(y)) => x.id == y.id,
        _ => false,
    }
}

/// What the document store holds, as the persistence actor maintains it: at
/// most one document per slot.
pub struct StoreModel {
    pub docs: Vec<Persistable>,
}

impl StoreModel {
    pub open spec fn wf(&self) -> bool {
        forall|i: int, j: int|
            0 <= i < j < self.docs@.len() ==> !same_slot(
                #[trigger] self.docs@[i],
                #[trigger] self.docs@[j],
            )
    }

    pub fn new() -> (r: Self)
        ensures
            r.wf(),
            r.docs@.len() == 0,
    {
        StoreModel { docs: Vec::new() }
    }

    /// Upserts one entity: the document in its slot is replaced, or a new
    /// document is inserted when the slot is empty.
    pub fn upsert(&mut self, p: Persistable)
        requires
            old(self).wf(),
        ensures
            final(self).wf(),
            (exists|i: int|
                0 <= i < old(self).docs@.len() && same_slot(#[trigger] old(self).docs@[i], p)
                    && final(self).docs@ == old(self).docs@.update(i, p)) || ((forall|i: int|
                0 <= i < old(self).docs@.len() ==> !same_slot(#[trigger] old(self).docs@[i], p))
                && final(self).docs@ == old(self).docs@.push(p)),
            exists|i: int|
                0 <= i < final(self).docs@.len() && (#[trigger] final(self).docs@[i]) == p,
    {
        let ghost olds = self.docs@;
        let mut i: usize = 0;
        while i < self.docs.len()
            invariant
                self.docs@ == olds,
                olds == old(self).docs@,
                old(self).wf(),
                0 <= i <= olds.len(),
                forall|j: int| 0 <= j < i ==> !same_slot(#[trigger] olds[j], p),
            decreases olds.len() - i,
        {
            if is_same_slot(&self.docs[i], &p) {
                self.docs.set(i, p);
                proof {
                    let news = self.docs@;
                    assert(news == olds.update(i as int, p));
                    assert forall|a: int, b: int| 0 <= a < b < news.len() implies !same_slot(
                        #[trigger] news[a],
                        #[trigger] news[b],
                    ) by {
                        if a != i as int && b != i as int {
                            assert(news[a] == olds[a] && news[b] == olds[b]);
                        } else if a == i as int {
                            assert(news[b] == olds[b]);
                            assert(!same_slot(olds[a], olds[b]));
                            lemma_same_slot_trans(olds[a], p, olds[b]);
                        } else {
                            assert(news[a] == olds[a]);
                            assert(!same_slot(olds[a], olds[b]));
                            lemma_same_slot_trans(olds[b], p, olds[a]);
                        }
                    }
                }
                assert(same_slot(old(self).docs@[i as int], p) && self.docs@ == old(
                    self,
                ).docs@.update(i as int, p));
                assert(self.docs@[i as int] == p);
                return ;
            }
            i = i + 1;
        }
        self.docs.push(p);
        proof {
            let news = self.docs@;
            assert(news == olds.push(p));
            assert(forall|j: int| 0 <= j < olds.len() ==> #[trigger] news[j] == olds[j]);
            assert(news[olds.len() as int] == p);
        }
    }

    /// Truncates the positions collection: every position document is
    /// dropped, everything else is kept in order.  Used only while the order
    /// service reseeds positions from the broker snapshot.
    pub fn drop_positions(&mut self)
        requires
            old(self).wf(),
        ensures
            final(self).wf(),
            final(self).docs@ == non_positions_of(old(self).docs@),
    {
        let ghost olds = self.docs@;
        let mut out: Vec<Persistable> = Vec::new();
        let mut i: usize = 0;
        proof {
            assert(olds.subrange(0, 0) =~= Seq::<Persistable>::empty());
            lemma_non_positions_empty();
        }
        while i < self.docs.len()
            invariant
                self.docs@ == olds,
                olds == old(self).docs@,
                old(self).wf(),
                0 <= i <= olds.len(),
                out@ == non_positions_of(olds.subrange(0, i as int)),
                forall|a: int|
                    0 <= a < out@.len() ==> exists|b: int|
                        0 <= b < olds.len() && (#[trigger] out@[a]) == olds[b],
                forall|a: int, b: int|
                    0 <= a < b < out@.len() ==> !same_slot(#[trigger] out@[a], #[trigger] out@[b]),
            decreases olds.len() - i,
        {
            let ghost pre = olds.subrange(0, i as int);
            let keep = match &self.docs[i] {
                Persistable::Position(_) => false,
                _ => true,
            };
            if keep {
                let ghost outpre = out@;
                out.push(self.docs[i].clone());
                proof {
                    assert(forall|a: int|
                        0 <= a < outpre.len() ==> #[trigger] out@[a] == outpre[a]);
                    assert forall|a: int, b: int| 0 <= a < b < out@.len() implies !same_slot(
                        #[trigger] out@[a],
                        #[trigger] out@[b],
                    ) by {
                        if b == out@.len() - 1 {
                            assert(out@[b] == olds[i as int]);
                            lemma_filtered_from_prefix(pre, olds, i as int, a, out@[a]);
                        }
                    }
                }
            }
            proof {
                assert(olds.subrange(0, i + 1 as int) =~= pre.push(olds[i as int]));
                lemma_non_positions_push(pre, olds[i as int]);
            }
            i = i + 1;
        }
        proof {
            assert(olds.subrange(0, olds.len() as int) =~= olds);
        }
        self.docs = out;
    }
}

/// The documents that are not positions, in order.
pub open spec fn non_positions_of(s: Seq<Persistable>) -> Seq<Persistable> {
    s.filter(|p: Persistable| !(p is Position))
}

proof fn lemma_non_positions_empty()
    ensures
        non_positions_of(Seq::<Persistable>::empty()) == Seq::<Persistable>::empty(),
{
    reveal(Seq::filter);
}

proof fn lemma_non_positions_push(s: Seq<Persistable>, p: Persistable)
    ensures
        non_positions_of(s.push(p)) == if !(p is Position) {
            non_positions_of(s).push(p)
        } else {
            non_positions_of(s)
        },
{
    reveal(Seq::filter);
    assert(s.push(p).drop_last() =~= s);
}

/// Two entities sharing a slot with a third share one with each other.
proof fn lemma_same_slot_trans(a: Persistable, b: Persistable, c: Persistable)
    requires
        same_slot(a, b),
    ensures
        same_slot(b, c) ==> same_slot(a, c),
        same_slot(c, b) ==> same_slot(c, a),
{
}

/// An element of the filtered prefix stands at some index of the prefix,
/// hence before `i` in the whole.
proof fn lemma_filtered_from_prefix(
    pre: Seq<Persistable>,
    olds: Seq<Persistable>,
    i: int,
    a: int,
    x: Persistable,
)
    requires
        0 <= i <= olds.len(),
        pre == olds.subrange(0, i),
        0 <= a < non_positions_of(pre).len(),
        non_positions_of(pre)[a] == x,
        forall|u: int, v: int|
            0 <= u < v < olds.len() ==> !same_slot(#[trigger] olds[u], #[trigger] olds[v]),
        i < olds.len(),
    ensures
        !same_slot(x, olds[i]),
    decreases pre.len(),
{
    broadcast use vstd::seq_lib::group_filter_ensures;

    assert(pre.contains(x)) by {
        lemma_filter_members(pre, a);
    }
    let w = choose|w: int| 0 <= w < pre.len() && pre[w] == x;
    assert(olds[w] == x);
    assert(!same_slot(olds[w], olds[i]));
}

/// Every element of the filtered sequence is an element of the unfiltered one.
proof fn lemma_filter_members(s: Seq<Persistable>, a: int)
    requires
        0 <= a < non_positions_of(s).len(),
    ensures
        s.contains(non_positions_of(s)[a]),
    decreases s.len(),
{
    reveal(Seq::filter);
    if s.len() > 0 {
        let last = s.last();
        let dl = s.drop_last();
        if !(last is Position) {
            if a < non_positions_of(dl).len() {
                lemma_filter_members(dl, a);
                let w = choose|w: int| 0 <= w < dl.len() && dl[w] == non_positions_of(dl)[a];
                assert(s[w] == non_positions_of(s)[a]);
            } else {
                assert(non_positions_of(s)[a] == last);
                assert(s[s.len() - 1] == last);
            }
        } else {
            lemma_filter_members(dl, a);
            let w = choose|w: int| 0 <= w < dl.len() && dl[w] == non_positions_of(dl)[a];
            assert(s[w] == non_positions_of(s)[a]);
        }
    }
}

} // verus!
