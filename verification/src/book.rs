//! Per-side order book with cached price bounds.

use crate::order::{in_price_range, wf_order, Order, TradeType, PRICE_MAX};
use vstd::prelude::*;
use vstd::seq_lib::group_seq_properties;

verus! {

/// Why a book mutation was refused.
#[derive(Clone, Copy, PartialEq, Eq, Structural, Debug)]
pub enum OrderError {
    /// Update or Cancel named a `trader_id` with no live order on this side.
    NotFound,
    /// Enter named a `trader_id` that already has a live order on this side.
    DuplicateId,
}

/// No two live orders share a `trader_id`.
pub open spec fn ids_unique(s: Seq<Order>) -> bool {
    forall|i: int, j: int|
        #![trigger s[i], s[j]]
        0 <= i < j < s.len() ==> s[i].trader_id@ != s[j].trader_id@
}

/// Orders are sorted by `p_high` ascending.
pub open spec fn sorted_by_p_high(s: Seq<Order>) -> bool {
    forall|i: int, j: int|
        #![trigger s[i], s[j]]
        0 <= i <= j < s.len() ==> s[i].p_high <= s[j].p_high
}

/// Some live order carries this `trader_id`.
pub open spec fn contains_id(s: Seq<Order>, id: Seq<char>) -> bool {
    exists|i: int| 0 <= i < s.len() && #[trigger] s[i].trader_id@ == id
}

/// Index of the live order carrying `id`; meaningful when the id is present
/// and unique.
pub open spec fn idx_of(s: Seq<Order>, id: Seq<char>) -> int {
    choose|i: int| 0 <= i < s.len() && #[trigger] s[i].trader_id@ == id
}

/// The sequence with the order carrying `id` taken out.
pub open spec fn remove_id(s: Seq<Order>, id: Seq<char>) -> Seq<Order> {
    s.remove(idx_of(s, id))
}

/// Position a sorted insert places an order with this `p_high` at: after
/// every earlier order whose `p_high` is not larger (a stable insert).
pub open spec fn insert_pos(s: Seq<Order>, ph: i64) -> int
    decreases s.len(),
{
    if s.len() == 0 {
        0
    } else if s[0].p_high > ph {
        0
    } else {
        1 + insert_pos(s.drop_first(), ph)
    }
}

/// The sequence with `o` inserted at its sorted position.
pub open spec fn insert_sorted_seq(s: Seq<Order>, o: Order) -> Seq<Order> {
    s.insert(insert_pos(s, o.p_high), o)
}

/// `insert_pos` is exactly the index where the prefix holds smaller-or-equal
/// `p_high` values and the rest holds strictly larger ones.
pub proof fn lemma_insert_pos_unique(s: Seq<Order>, ph: i64, i: int)
    requires
        0 <= i <= s.len(),
        forall|j: int| 0 <= j < i ==> #[trigger] s[j].p_high <= ph,
        i < s.len() ==> s[i].p_high > ph,
    ensures
        insert_pos(s, ph) == i,
    decreases s.len(),
{
    if s.len() == 0 {
    } else if s[0].p_high > ph {
        assert(i == 0);
    } else {
        let t = s.drop_first();
        assert(i >= 1);
        assert forall|j: int| 0 <= j < i - 1 implies #[trigger] t[j].p_high <= ph by {
            assert(t[j] == s[j + 1]);
        }
        assert(i - 1 < t.len() ==> t[i - 1].p_high > ph) by {
            if i - 1 < t.len() {
                assert(t[i - 1] == s[i]);
            }
        }
        lemma_insert_pos_unique(t, ph, i - 1);
    }
}

/// The insert position lies inside the sequence's bounds.
pub proof fn lemma_insert_pos_bounds(s: Seq<Order>, ph: i64)
    ensures
        0 <= insert_pos(s, ph) <= s.len(),
    decreases s.len(),
{
    if s.len() > 0 && !(s[0].p_high > ph) {
        lemma_insert_pos_bounds(s.drop_first(), ph);
    }
}

/// Fold of all `p_low` values under minimum, starting from the sentinel.
pub open spec fn min_plow(s: Seq<Order>) -> int
    decreases s.len(),
{
    if s.len() == 0 {
        PRICE_MAX as int
    } else {
        let rest = min_plow(s.drop_last());
        if s.last().p_low < rest {
            s.last().p_low as int
        } else {
            rest
        }
    }
}

/// Largest `p_high` of a non-empty sequence of orders.
pub open spec fn max_phigh(s: Seq<Order>) -> int
    recommends
        s.len() > 0,
    decreases s.len(),
{
    if s.len() <= 1 {
        s[0].p_high as int
    } else {
        let rest = max_phigh(s.drop_last());
        if s.last().p_high > rest {
            s.last().p_high as int
        } else {
            rest
        }
    }
}

/// Every order's fields are well formed and on this book's side.
pub open spec fn wf_orders(s: Seq<Order>, side: TradeType) -> bool {
    forall|i: int|
        0 <= i < s.len() ==> wf_order(#[trigger] s[i]) && s[i].trade_type == side
}

/// The struct for the order books in the exchange.  Each side keeps its live
/// orders sorted by `p_high` together with cached price bounds used to
/// bracket the clearing-price search.
#[derive(Debug)]
pub struct Book {
    pub book_type: TradeType,
    pub orders: Vec<Order>,
    pub min_price: i64,
    pub max_price: i64,
}

impl Book {
    /// Structural invariant: sorted, ids unique, orders well formed and on
    /// this side, caches inside the representable band.
    pub open spec fn wf(&self) -> bool {
        &&& sorted_by_p_high(self.orders@)
        &&& ids_unique(self.orders@)
        &&& wf_orders(self.orders@, self.book_type)
        &&& in_price_range(self.min_price as int)
        &&& in_price_range(self.max_price as int)
    }

    /// The bound caches dominate every live order's bounds (they are widened
    /// before an insert and rescanned after a boundary loss).
    pub open spec fn bounds_ok(&self) -> bool {
        forall|i: int|
            0 <= i < self.orders@.len() ==> self.min_price <= #[trigger] self.orders@[i].p_low
                && self.orders@[i].p_high <= self.max_price
    }

    /// The caches hold the exact extrema (or the sentinels when empty).
    pub open spec fn caches_exact(&self) -> bool {
        if self.orders@.len() == 0 {
            self.min_price == PRICE_MAX && self.max_price == 0
        } else {
            self.min_price == min_plow(self.orders@) && self.max_price == max_phigh(self.orders@)
        }
    }

    pub fn new(book_type: TradeType) -> (r: Book)
        ensures
            r.book_type == book_type,
            r.orders@ =~= Seq::<Order>::empty(),
            r.min_price == PRICE_MAX,
            r.max_price == 0,
            r.wf(),
            r.bounds_ok(),
            r.caches_exact(),
    {
        Book {
            book_type,
            orders: Vec::<Order>::new(),
            min_price: PRICE_MAX,
            max_price: 0,
        }
    }

    /// Inserts a new order at its sorted position.  The caller guarantees the
    /// `trader_id` is not already live on this side; the bound caches are not
    /// touched here (the queue processor widens them before inserting).
    pub fn add_order(&mut self, order: Order) -> (r: Result<(), OrderError>)
        requires
            old(self).wf(),
            wf_order(order),
            order.trade_type == old(self).book_type,
            !contains_id(old(self).orders@, order.trader_id@),
        ensures
            r is Ok,
            final(self).wf(),
            final(self).book_type == old(self).book_type,
            final(self).min_price == old(self).min_price,
            final(self).max_price == old(self).max_price,
            final(self).orders@.len() == old(self).orders@.len() + 1,
            final(self).orders@ == insert_sorted_seq(old(self).orders@, order),
            final(self).orders@.to_multiset() =~= old(self).orders@.to_multiset().insert(order),
            forall|id: Seq<char>|
                #[trigger] contains_id(final(self).orders@, id) <==> contains_id(
                    old(self).orders@,
                    id,
                ) || id == order.trader_id@,
    {
        broadcast use group_seq_properties;

        let ghost s0 = self.orders@;
        let mut i: usize = 0;
        let n: usize = self.orders.len();
        while i < n && self.orders[i].p_high <= order.p_high
            invariant
                0 <= i <= n,
                n == self.orders@.len(),
                *self == *old(self),
                forall|j: int| 0 <= j < i ==> #[trigger] self.orders@[j].p_high <= order.p_high,
            decreases n - i,
        {
            i = i + 1;
        }
        proof {
            assert(forall|j: int|
                i <= j < s0.len() ==> order.p_high < #[trigger] s0[j].p_high) by {
                assert forall|j: int| i <= j < s0.len() implies order.p_high
                    < #[trigger] s0[j].p_high by {
                    assert(s0[i as int].p_high <= s0[j].p_high);
                }
            }
            lemma_insert_pos_unique(s0, order.p_high, i as int);
        }
        self.orders.insert(i, order);
        proof {
            let s1 = self.orders@;
            assert(s1 == s0.insert(i as int, order));
            assert forall|a: int, b: int|
                #![trigger s1[a], s1[b]]
                0 <= a <= b < s1.len() implies s1[a].p_high <= s1[b].p_high by {
                if a < i && b < i {
                } else if a >= i + 1 && b >= i + 1 {
                    assert(s1[a] == s0[a - 1] && s1[b] == s0[b - 1]);
                } else if a == i {
                    if b > i {
                        assert(s1[b] == s0[b - 1]);
                    }
                } else if b == i {
                    assert(s1[a] == s0[a]);
                }
            }
            assert forall|a: int, b: int|
                #![trigger s1[a], s1[b]]
                0 <= a < b < s1.len() implies s1[a].trader_id@ != s1[b].trader_id@ by {
                if a == i {
                    assert(s1[b] == s0[b - 1] && contains_id(s0, s0[b - 1].trader_id@));
                } else if b == i {
                    assert(s1[a] == s0[a] && contains_id(s0, s0[a].trader_id@));
                } else {
                    let a0 = if a < i { a } else { a - 1 };
                    let b0 = if b < i { b } else { b - 1 };
                    assert(s1[a] == s0[a0] && s1[b] == s0[b0]);
                }
            }
            lemma_to_multiset_insert(s0, i as int, order);
            assert forall|id: Seq<char>| #[trigger]
                contains_id(s1, id) <==> contains_id(s0, id) || id == order.trader_id@ by {
                if contains_id(s1, id) {
                    let w = choose|w: int| 0 <= w < s1.len() && #[trigger] s1[w].trader_id@ == id;
                    if w == i {
                    } else {
                        let w0 = if w < i { w } else { w - 1 };
                        assert(s0[w0].trader_id@ == id);
                    }
                }
                if contains_id(s0, id) {
                    let w = choose|w: int| 0 <= w < s0.len() && #[trigger] s0[w].trader_id@ == id;
                    let w1 = if w < i { w } else { w + 1 };
                    assert(s1[w1].trader_id@ == id);
                }
                if id == order.trader_id@ {
                    assert(s1[i as int].trader_id@ == id);
                }
            }
        }
        Ok(())
    }

    /// Replaces the live order carrying the same `trader_id`, keeping the
    /// book sorted; fails with `NotFound` if no such order is live.  The
    /// bound caches are not touched here: the queue processor reconciles them
    /// after the replacement.
    pub fn update_order(&mut self, order: Order) -> (r: Result<(), OrderError>)
        requires
            old(self).wf(),
            wf_order(order),
            order.trade_type == old(self).book_type,
        ensures
            final(self).wf(),
            final(self).book_type == old(self).book_type,
            final(self).min_price == old(self).min_price,
            final(self).max_price == old(self).max_price,
            !contains_id(old(self).orders@, order.trader_id@) ==> r == Err::<(), OrderError>(
                OrderError::NotFound,
            ) && *final(self) == *old(self),
            contains_id(old(self).orders@, order.trader_id@) ==> {
                &&& r is Ok
                &&& final(self).orders@.len() == old(self).orders@.len()
                &&& final(self).orders@ == insert_sorted_seq(
                    remove_id(old(self).orders@, order.trader_id@),
                    order,
                )
                &&& final(self).orders@.to_multiset() =~= old(self).orders@.to_multiset().remove(
                    old(self).orders@[idx_of(old(self).orders@, order.trader_id@)],
                ).insert(order)
                &&& contains_id(final(self).orders@, order.trader_id@)
                &&& final(self).orders@[idx_of(final(self).orders@, order.trader_id@)] == order
                &&& forall|id: Seq<char>|
                    #[trigger] contains_id(final(self).orders@, id) <==> contains_id(
                        old(self).orders@,
                        id,
                    )
            },
    {
        let pos = match self.position_of(&order.trader_id) {
            Some(p) => p,
            None => {
                return Err(OrderError::NotFound);
            },
        };
        let ghost s0 = self.orders@;
        let ghost k = idx_of(s0, order.trader_id@);
        proof {
            assert(s0[pos as int].trader_id@ == order.trader_id@);
            assert(s0[k].trader_id@ == order.trader_id@);
            assert(k == pos as int);
        }
        let _removed = self.orders.remove(pos);
        proof {
            let s1 = self.orders@;
            assert(s1 == s0.remove(pos as int));
            lemma_remove_keeps_shape(s0, pos as int);
            assert(!contains_id(s1, order.trader_id@)) by {
                if contains_id(s1, order.trader_id@) {
                    let w = choose|w: int|
                        0 <= w < s1.len() && #[trigger] s1[w].trader_id@ == order.trader_id@;
                    let w0 = if w < pos as int { w } else { w + 1 };
                    assert(s0[w0].trader_id@ == order.trader_id@);
                    assert(w0 != pos as int);
                }
            }
            broadcast use group_seq_properties;

            s0.to_multiset_ensures();
        }
        let ghost s1 = self.orders@;
        let res = self.add_order(order);
        proof {
            let s2 = self.orders@;
            assert(contains_id(s2, order.trader_id@));
            let k2 = idx_of(s2, order.trader_id@);
            assert(s2[k2].trader_id@ == order.trader_id@);
            assert(s2[k2] == order) by {
                let posw = insert_pos(s1, order.p_high);
                lemma_insert_pos_bounds(s1, order.p_high);
                assert(s2 == s1.insert(posw, order));
                if k2 != posw {
                    let k0 = if k2 < posw { k2 } else { k2 - 1 };
                    assert(s2[k2] == s1[k0]);
                    assert(contains_id(s1, order.trader_id@));
                }
            }
            assert forall|id: Seq<char>| #[trigger]
                contains_id(s2, id) <==> contains_id(s0, id) by {
                if contains_id(s0, id) && id != order.trader_id@ {
                    let w0 = choose|w0: int| 0 <= w0 < s0.len() && #[trigger] s0[w0].trader_id@ == id;
                    assert(w0 != pos as int);
                    let w1 = if w0 < pos as int { w0 } else { w0 - 1 };
                    assert(s1[w1].trader_id@ == id);
                    assert(contains_id(s1, id));
                }
                if contains_id(s1, id) {
                    let w1 = choose|w1: int| 0 <= w1 < s1.len() && #[trigger] s1[w1].trader_id@ == id;
                    let w0 = if w1 < pos as int { w1 } else { w1 + 1 };
                    assert(s0[w0].trader_id@ == id);
                }
            }
        }
        res
    }

    /// Removes the live order carrying the same `trader_id`; fails with
    /// `NotFound` if no such order is live.  The bound caches are not touched
    /// here: the queue processor rescans them after a boundary loss.
    pub fn cancel_order(&mut self, order: Order) -> (r: Result<(), OrderError>)
        requires
            old(self).wf(),
        ensures
            final(self).wf(),
            final(self).book_type == old(self).book_type,
            final(self).min_price == old(self).min_price,
            final(self).max_price == old(self).max_price,
            !contains_id(old(self).orders@, order.trader_id@) ==> r == Err::<(), OrderError>(
                OrderError::NotFound,
            ) && *final(self) == *old(self),
            contains_id(old(self).orders@, order.trader_id@) ==> {
                &&& r is Ok
                &&& final(self).orders@ == remove_id(old(self).orders@, order.trader_id@)
                &&& final(self).orders@.len() + 1 == old(self).orders@.len()
                &&& final(self).orders@.to_multiset() =~= old(self).orders@.to_multiset().remove(
                    old(self).orders@[idx_of(old(self).orders@, order.trader_id@)],
                )
                &&& forall|id: Seq<char>|
                    #[trigger] contains_id(final(self).orders@, id) <==> (contains_id(
                        old(self).orders@,
                        id,
                    ) && id != order.trader_id@)
            },
    {
        let pos = match self.position_of(&order.trader_id) {
            Some(p) => p,
            None => {
                return Err(OrderError::NotFound);
            },
        };
        let ghost s0 = self.orders@;
        let ghost k = idx_of(s0, order.trader_id@);
        proof {
            assert(s0[pos as int].trader_id@ == order.trader_id@);
            assert(s0[k].trader_id@ == order.trader_id@);
            assert(k == pos as int);
        }
        let _removed = self.orders.remove(pos);
        proof {
            let s1 = self.orders@;
            lemma_remove_keeps_shape(s0, pos as int);
            s0.to_multiset_ensures();
            assert forall|id: Seq<char>| #[trigger]
                contains_id(s1, id) <==> (contains_id(s0, id) && id != order.trader_id@) by {
                if contains_id(s1, id) {
                    let w = choose|w: int| 0 <= w < s1.len() && #[trigger] s1[w].trader_id@ == id;
                    let w0 = if w < pos as int { w } else { w + 1 };
                    assert(s0[w0].trader_id@ == id);
                    assert(w0 != pos as int || id == order.trader_id@);
                    if id == order.trader_id@ {
                        assert(w0 != pos as int);
                        assert(s0[w0].trader_id@ == s0[pos as int].trader_id@);
                    }
                }
                if contains_id(s0, id) && id != order.trader_id@ {
                    let w0 = choose|w0: int| 0 <= w0 < s0.len() && #[trigger] s0[w0].trader_id@ == id;
                    assert(w0 != pos as int);
                    let w1 = if w0 < pos as int { w0 } else { w0 - 1 };
                    assert(s1[w1].trader_id@ == id);
                }
            }
        }
        Ok(())
    }

    /// Index of the first live order with this `trader_id`, if any.
    pub fn peek_id_pos(&self, trader_id: String) -> (r: Option<usize>)
        ensures
            match r {
                Some(i) => i < self.orders@.len() && self.orders@[i as int].trader_id@
                    == trader_id@ && forall|j: int|
                    0 <= j < i ==> #[trigger] self.orders@[j].trader_id@ != trader_id@,
                None => !contains_id(self.orders@, trader_id@),
            },
    {
        self.position_of(&trader_id)
    }

    /// Linear scan for the first order carrying `id`.
    fn position_of(&self, id: &String) -> (r: Option<usize>)
        ensures
            match r {
                Some(i) => i < self.orders@.len() && self.orders@[i as int].trader_id@ == id@
                    && forall|j: int|
                    0 <= j < i ==> #[trigger] self.orders@[j].trader_id@ != id@,
                None => !contains_id(self.orders@, id@),
            },
    {
        let n: usize = self.orders.len();
        let mut i: usize = 0;
        while i < n
            invariant
                0 <= i <= n,
                n == self.orders@.len(),
                forall|j: int| 0 <= j < i ==> #[trigger] self.orders@[j].trader_id@ != id@,
            decreases n - i,
        {
            if self.orders[i].trader_id.eq(id) {
                return Some(i);
            }
            i = i + 1;
        }
        None
    }

    /// Utility to see the depth of the order book.
    pub fn len(&self) -> (r: usize)
        ensures
            r == self.orders@.len(),
    {
        self.orders.len()
    }

    /// Widens the book's max price to cover `p_high`.
    pub fn update_max_price(&mut self, p_high: &i64)
        ensures
            final(self).max_price == if *p_high > old(self).max_price {
                *p_high
            } else {
                old(self).max_price
            },
            final(self).orders == old(self).orders,
            final(self).min_price == old(self).min_price,
            final(self).book_type == old(self).book_type,
    {
        if *p_high > self.max_price {
            self.max_price = *p_high;
        }
    }

    /// Widens the book's min price to cover `p_low`.
    pub fn update_min_price(&mut self, p_low: &i64)
        ensures
            final(self).min_price == if *p_low < old(self).min_price {
                *p_low
            } else {
                old(self).min_price
            },
            final(self).orders == old(self).orders,
            final(self).max_price == old(self).max_price,
            final(self).book_type == old(self).book_type,
    {
        if *p_low < self.min_price {
            self.min_price = *p_low;
        }
    }

    /// Returns the book's min price cache.
    pub fn get_min_price(&self) -> (r: i64)
        ensures
            r == self.min_price,
    {
        self.min_price
    }

    /// Returns the book's max price cache.
    pub fn get_max_price(&self) -> (r: i64)
        ensures
            r == self.max_price,
    {
        self.max_price
    }

    /// Rescans for the maximum `p_high` after the previous maximum left the
    /// book.  The book is sorted, so this is a last-element read.
    pub fn find_new_max(&mut self)
        requires
            old(self).wf(),
            old(self).orders@.len() > 0,
        ensures
            final(self).wf(),
            final(self).max_price == max_phigh(old(self).orders@),
            final(self).orders == old(self).orders,
            final(self).min_price == old(self).min_price,
            final(self).book_type == old(self).book_type,
    {
        let n: usize = self.orders.len();
        let new_max: i64 = self.orders[n - 1].p_high;
        proof {
            lemma_sorted_last_is_max(self.orders@);
            lemma_max_phigh_in_range(self.orders@, self.book_type);
        }
        self.max_price = new_max;
    }

    /// Rescans all orders for the minimum `p_low`, folding from the sentinel.
    pub fn find_new_min(&mut self)
        requires
            old(self).wf(),
        ensures
            final(self).wf(),
            final(self).min_price == min_plow(old(self).orders@),
            final(self).orders == old(self).orders,
            final(self).max_price == old(self).max_price,
            final(self).book_type == old(self).book_type,
    {
        let n: usize = self.orders.len();
        let mut new_min: i64 = PRICE_MAX;
        let mut i: usize = 0;
        proof {
            assert(self.orders@.subrange(0, 0) =~= Seq::<Order>::empty());
        }
        while i < n
            invariant
                0 <= i <= n,
                n == self.orders@.len(),
                *self == *old(self),
                self.wf(),
                new_min == min_plow(self.orders@.subrange(0, i as int)),
                in_price_range(new_min as int),
            decreases n - i,
        {
            let o_low: i64 = self.orders[i].p_low;
            proof {
                let s = self.orders@;
                assert(s.subrange(0, i + 1).drop_last() =~= s.subrange(0, i as int));
                assert(s.subrange(0, i + 1).last() == s[i as int]);
            }
            if o_low < new_min {
                new_min = o_low;
            }
            i = i + 1;
        }
        proof {
            assert(self.orders@.subrange(0, n as int) =~= self.orders@);
        }
        self.min_price = new_min;
    }
}

/// Removing an element keeps sortedness, uniqueness, well-formedness and the
/// side of every remaining order.
proof fn lemma_remove_keeps_shape(s: Seq<Order>, pos: int)
    requires
        0 <= pos < s.len(),
        sorted_by_p_high(s),
        ids_unique(s),
    ensures
        sorted_by_p_high(s.remove(pos)),
        ids_unique(s.remove(pos)),
        forall|side: TradeType| wf_orders(s, side) ==> wf_orders(#[trigger] s.remove(pos), side),
{
    let s1 = s.remove(pos);
    assert forall|a: int, b: int|
        #![trigger s1[a], s1[b]]
        0 <= a <= b < s1.len() implies s1[a].p_high <= s1[b].p_high by {
        let a0 = if a < pos { a } else { a + 1 };
        let b0 = if b < pos { b } else { b + 1 };
        assert(s1[a] == s[a0] && s1[b] == s[b0]);
    }
    assert forall|a: int, b: int|
        #![trigger s1[a], s1[b]]
        0 <= a < b < s1.len() implies s1[a].trader_id@ != s1[b].trader_id@ by {
        let a0 = if a < pos { a } else { a + 1 };
        let b0 = if b < pos { b } else { b + 1 };
        assert(s1[a] == s[a0] && s1[b] == s[b0]);
    }
    assert forall|side: TradeType| wf_orders(s, side) implies wf_orders(
        #[trigger] s.remove(pos),
        side,
    ) by {
        assert forall|i: int| 0 <= i < s1.len() implies wf_order(#[trigger] s1[i])
            && s1[i].trade_type == side by {
            let i0 = if i < pos { i } else { i + 1 };
            assert(s1[i] == s[i0]);
        }
    }
}

/// Inserting an element adds exactly it to the sequence's multiset.
proof fn lemma_to_multiset_insert(s: Seq<Order>, pos: int, o: Order)
    requires
        0 <= pos <= s.len(),
    ensures
        s.insert(pos, o).to_multiset() =~= s.to_multiset().insert(o),
{
    let s1 = s.insert(pos, o);
    s1.to_multiset_ensures();
    s.to_multiset_ensures();
    assert(s1.remove(pos) =~= s);
    assert(s1[pos] == o);
    assert(s1.remove(pos).to_multiset() =~= s1.to_multiset().remove(s1[pos]));
    assert(s1.to_multiset().count(o) > 0) by {
        assert(s1.contains(o));
    }
    assert forall|x: Order| s1.to_multiset().count(x) == #[trigger] s.to_multiset().insert(
        o,
    ).count(x) by {
        if x == o {
            assert(s.to_multiset().count(o) == s1.to_multiset().remove(o).count(o));
        } else {
            assert(s.to_multiset().count(x) == s1.to_multiset().remove(o).count(x));
        }
    }
}

/// In a sorted, non-empty sequence the last `p_high` is the maximum.
proof fn lemma_sorted_last_is_max(s: Seq<Order>)
    requires
        s.len() > 0,
        sorted_by_p_high(s),
    ensures
        max_phigh(s) == s.last().p_high,
    decreases s.len(),
{
    if s.len() > 1 {
        assert(s.drop_last().len() > 0);
        assert(sorted_by_p_high(s.drop_last())) by {
            assert forall|a: int, b: int|
                #![trigger s.drop_last()[a], s.drop_last()[b]]
                0 <= a <= b < s.drop_last().len() implies s.drop_last()[a].p_high
                <= s.drop_last()[b].p_high by {
                assert(s.drop_last()[a] == s[a] && s.drop_last()[b] == s[b]);
            }
        }
        lemma_sorted_last_is_max(s.drop_last());
        assert(s.drop_last().last() == s[s.len() - 2]);
        assert(s[s.len() - 2].p_high <= s.last().p_high);
    }
}

/// The maximum `p_high` of a well-formed book stays in the price band, and it
/// dominates every order.
pub proof fn lemma_max_phigh_in_range(s: Seq<Order>, side: TradeType)
    requires
        s.len() > 0,
        wf_orders(s, side),
    ensures
        in_price_range(max_phigh(s)),
        forall|i: int| 0 <= i < s.len() ==> #[trigger] s[i].p_high <= max_phigh(s),
        exists|i: int| 0 <= i < s.len() && #[trigger] s[i].p_high == max_phigh(s),
    decreases s.len(),
{
    if s.len() == 1 {
        assert(s[0].p_high == max_phigh(s));
    } else {
        assert(wf_orders(s.drop_last(), side)) by {
            assert forall|i: int| 0 <= i < s.drop_last().len() implies wf_order(
                #[trigger] s.drop_last()[i],
            ) && s.drop_last()[i].trade_type == side by {
                assert(s.drop_last()[i] == s[i]);
            }
        }
        lemma_max_phigh_in_range(s.drop_last(), side);
        assert forall|i: int| 0 <= i < s.len() implies #[trigger] s[i].p_high <= max_phigh(s) by {
            if i < s.len() - 1 {
                assert(s.drop_last()[i] == s[i]);
            }
        }
        let w = choose|w: int|
            0 <= w < s.drop_last().len() && #[trigger] s.drop_last()[w].p_high == max_phigh(
                s.drop_last(),
            );
        if s.last().p_high > max_phigh(s.drop_last()) {
            assert(s[s.len() - 1].p_high == max_phigh(s));
        } else {
            assert(s[w].p_high == max_phigh(s));
        }
    }
}

/// The minimum fold stays in the price band, lies below every order's
/// `p_low`, and is attained by some order unless it is the sentinel.
pub proof fn lemma_min_plow_facts(s: Seq<Order>, side: TradeType)
    requires
        wf_orders(s, side),
    ensures
        in_price_range(min_plow(s)),
        min_plow(s) <= PRICE_MAX as int,
        forall|i: int| 0 <= i < s.len() ==> min_plow(s) <= #[trigger] s[i].p_low,
        min_plow(s) == PRICE_MAX as int || exists|i: int|
            0 <= i < s.len() && #[trigger] s[i].p_low == min_plow(s),
    decreases s.len(),
{
    if s.len() > 0 {
        assert(wf_orders(s.drop_last(), side)) by {
            assert forall|i: int| 0 <= i < s.drop_last().len() implies wf_order(
                #[trigger] s.drop_last()[i],
            ) && s.drop_last()[i].trade_type == side by {
                assert(s.drop_last()[i] == s[i]);
            }
        }
        lemma_min_plow_facts(s.drop_last(), side);
        assert forall|i: int| 0 <= i < s.len() implies min_plow(s) <= #[trigger] s[i].p_low by {
            if i < s.len() - 1 {
                assert(s.drop_last()[i] == s[i]);
            }
        }
        if min_plow(s) != PRICE_MAX as int {
            if s.last().p_low < min_plow(s.drop_last()) {
                assert(s[s.len() - 1].p_low == min_plow(s));
            } else {
                let w = choose|w: int|
                    0 <= w < s.drop_last().len() && #[trigger] s.drop_last()[w].p_low == min_plow(
                        s.drop_last(),
                    );
                assert(s[w].p_low == min_plow(s));
            }
        }
    }
}

} // verus!
