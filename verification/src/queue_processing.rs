//! Applies queued Enter/Update/Cancel messages to the books, maintaining the
//! bound caches, and gates the whole tick on the engine's phase.

use crate::auction::all_live;
use crate::book::{
    contains_id, ids_unique, idx_of, insert_pos, insert_sorted_seq, lemma_insert_pos_bounds,
    lemma_max_phigh_in_range, lemma_min_plow_facts, max_phigh, min_plow, remove_id,
    sorted_by_p_high, wf_orders, Book, OrderError,
};
use crate::controller::State;
use crate::order::{live_order, wf_order, Order, OrderType, TradeType, PRICE_MAX};
use crate::queue::Queue;
use vstd::prelude::*;

verus! {

/// The queue-draining worker: the only component that mutates books.
pub struct QueueProcessor {}

/// Ghost image of a book: its live orders and the two bound caches.
#[verifier::ext_equal]
pub ghost struct BookState {
    pub orders: Seq<Order>,
    pub min_price: int,
    pub max_price: int,
}

/// The ghost image of an executable book.
pub open spec fn book_rep(b: &Book) -> BookState {
    BookState { orders: b.orders@, min_price: b.min_price as int, max_price: b.max_price as int }
}

/// Effect of an Enter on one book: widen both caches to cover the incoming
/// bounds, then insert at the sorted position.  An Enter whose `trader_id` is
/// already live is refused and leaves the book untouched.
pub open spec fn enter_tr(b: BookState, o: Order) -> BookState {
    if contains_id(b.orders, o.trader_id@) {
        b
    } else {
        BookState {
            orders: insert_sorted_seq(b.orders, o),
            min_price: if (o.p_low as int) < b.min_price {
                o.p_low as int
            } else {
                b.min_price
            },
            max_price: if o.p_high as int > b.max_price {
                o.p_high as int
            } else {
                b.max_price
            },
        }
    }
}

/// Effect of an Update on one book: replace the order carrying the same
/// `trader_id`, then reconcile each cache — rescan if the departing order sat
/// on the cached bound, widen if the incoming order lies outside it.  An
/// Update whose `trader_id` is not live leaves the book untouched.
pub open spec fn update_tr(b: BookState, o: Order) -> BookState {
    if !contains_id(b.orders, o.trader_id@) {
        b
    } else {
        let old_o = b.orders[idx_of(b.orders, o.trader_id@)];
        let orders2 = insert_sorted_seq(remove_id(b.orders, o.trader_id@), o);
        BookState {
            orders: orders2,
            min_price: if old_o.p_low as int == b.min_price {
                min_plow(orders2)
            } else if (o.p_low as int) < b.min_price {
                o.p_low as int
            } else {
                b.min_price
            },
            max_price: if old_o.p_high as int == b.max_price {
                max_phigh(orders2)
            } else if o.p_high as int > b.max_price {
                o.p_high as int
            } else {
                b.max_price
            },
        }
    }
}

/// Effect of a Cancel on one book: remove the order carrying the same
/// `trader_id`; restore the sentinels if the book empties, otherwise rescan
/// whichever cache the departing order sat on.  A Cancel whose `trader_id` is
/// not live leaves the book untouched.
pub open spec fn cancel_tr(b: BookState, o: Order) -> BookState {
    if !contains_id(b.orders, o.trader_id@) {
        b
    } else {
        let old_o = b.orders[idx_of(b.orders, o.trader_id@)];
        let orders2 = remove_id(b.orders, o.trader_id@);
        if orders2.len() == 0 {
            BookState { orders: orders2, min_price: PRICE_MAX as int, max_price: 0 }
        } else {
            BookState {
                orders: orders2,
                min_price: if old_o.p_low as int == b.min_price {
                    min_plow(orders2)
                } else {
                    b.min_price
                },
                max_price: if old_o.p_high as int == b.max_price {
                    max_phigh(orders2)
                } else {
                    b.max_price
                },
            }
        }
    }
}

/// Routes one order to the book its `trade_type` selects.
pub open spec fn apply_order(bids: BookState, asks: BookState, o: Order) -> (BookState, BookState) {
    match o.trade_type {
        TradeType::Bid => match o.order_type {
            OrderType::Enter => (enter_tr(bids, o), asks),
            OrderType::Update => (update_tr(bids, o), asks),
            OrderType::Cancel => (cancel_tr(bids, o), asks),
        },
        TradeType::Ask => match o.order_type {
            OrderType::Enter => (bids, enter_tr(asks, o)),
            OrderType::Update => (bids, update_tr(asks, o)),
            OrderType::Cancel => (bids, cancel_tr(asks, o)),
        },
    }
}

/// Applies a whole batch in arrival order.
pub open spec fn apply_all(bids: BookState, asks: BookState, s: Seq<Order>) -> (
    BookState,
    BookState,
)
    decreases s.len(),
{
    if s.len() == 0 {
        (bids, asks)
    } else {
        let prev = apply_all(bids, asks, s.drop_last());
        apply_order(prev.0, prev.1, s.last())
    }
}

impl QueueProcessor {
    /// Adds the order to the book: widens the bound caches to cover its
    /// bounds, then inserts at the sorted position.  A `trader_id` already
    /// live on this side is refused, which keeps per-side uniqueness intact.
    pub fn process_enter(order: Order, book: &mut Book) -> (r: Result<(), OrderError>)
        requires
            old(book).wf(),
            old(book).bounds_ok(),
            wf_order(order),
            order.trade_type == old(book).book_type,
        ensures
            final(book).wf(),
            final(book).bounds_ok(),
            final(book).book_type == old(book).book_type,
            book_rep(final(book)) == enter_tr(book_rep(old(book)), order),
            contains_id(old(book).orders@, order.trader_id@) ==> r == Err::<(), OrderError>(
                OrderError::DuplicateId,
            ) && *final(book) == *old(book),
            !contains_id(old(book).orders@, order.trader_id@) ==> r is Ok,
    {
        match book.peek_id_pos(order.trader_id.clone()) {
            Some(_) => {
                return Err(OrderError::DuplicateId);
            },
            None => {},
        }
        let ghost b0 = book_rep(book);
        let ghost o = order;
        book.update_max_price(&order.p_high);
        book.update_min_price(&order.p_low);
        let r = book.add_order(order);
        proof {
            let s0 = b0.orders;
            let s1 = book.orders@;
            let p = insert_pos(s0, o.p_high);
            lemma_insert_pos_bounds(s0, o.p_high);
            assert(s1 == s0.insert(p, o));
            assert forall|k: int| 0 <= k < s1.len() implies final(book).min_price
                <= #[trigger] s1[k].p_low && s1[k].p_high <= final(book).max_price by {
                if k < p {
                    assert(s1[k] == s0[k]);
                } else if k > p {
                    assert(s1[k] == s0[k - 1]);
                } else {
                    assert(s1[k] == o);
                }
            }
            assert(book_rep(book) =~= enter_tr(b0, o));
        }
        r
    }

    /// Replaces the order carrying the same `trader_id` in the book, then
    /// reconciles the bound caches: a rescan when the departing order sat on
    /// a cached bound, a widening when the incoming bounds lie outside it.
    /// `NotFound` leaves the book untouched; the order is simply dropped.
    #[verifier::rlimit(60)]
    #[verifier::spinoff_prover]
    pub fn process_update(order: Order, book: &mut Book) -> (r: Result<(), OrderError>)
        requires
            old(book).wf(),
            old(book).bounds_ok(),
            wf_order(order),
            order.trade_type == old(book).book_type,
        ensures
            final(book).wf(),
            final(book).bounds_ok(),
            final(book).book_type == old(book).book_type,
            book_rep(final(book)) == update_tr(book_rep(old(book)), order),
            !contains_id(old(book).orders@, order.trader_id@) ==> r == Err::<(), OrderError>(
                OrderError::NotFound,
            ) && *final(book) == *old(book),
            contains_id(old(book).orders@, order.trader_id@) ==> r is Ok,
    {
        let pos = match book.peek_id_pos(order.trader_id.clone()) {
            Some(p) => p,
            None => {
                return Err(OrderError::NotFound);
            },
        };
        let ghost b0 = book_rep(book);
        let ghost o = order;
        let ghost k = idx_of(b0.orders, o.trader_id@);
        proof {
            assert(b0.orders[k].trader_id@ == o.trader_id@);
            assert(k == pos as int);
        }
        let p_high_new: i64 = order.p_high;
        let p_low_new: i64 = order.p_low;
        let old_p_high: i64 = book.orders[pos].p_high;
        let old_p_low: i64 = book.orders[pos].p_low;
        let r = book.update_order(order);
        let ghost s2 = book.orders@;
        proof {
            assert(r is Ok);
            assert(s2 == insert_sorted_seq(remove_id(b0.orders, o.trader_id@), o));
            assert(s2.len() == b0.orders.len() >= 1);
        }
        let max_p: i64 = book.get_max_price();
        let min_p: i64 = book.get_min_price();
        if old_p_high == max_p {
            // The departing order may have carried the cached maximum.
            book.find_new_max();
        } else if p_high_new > max_p {
            book.update_max_price(&p_high_new);
        }
        if old_p_low == min_p {
            // The departing order may have carried the cached minimum.
            book.find_new_min();
        } else if p_low_new < min_p {
            book.update_min_price(&p_low_new);
        }
        proof {
            let s1 = remove_id(b0.orders, o.trader_id@);
            let p = insert_pos(s1, o.p_high);
            lemma_insert_pos_bounds(s1, o.p_high);
            assert(s2 == s1.insert(p, o));
            if old_p_high == max_p {
                lemma_max_phigh_in_range(s2, old(book).book_type);
            } else {
                assert forall|j: int| 0 <= j < s2.len() implies #[trigger] s2[j].p_high
                    <= final(book).max_price by {
                    if j < p {
                        assert(s2[j] == s1[j] && s1[j] == b0.orders[if j < k {
                            j
                        } else {
                            j + 1
                        }]);
                    } else if j > p {
                        assert(s2[j] == s1[j - 1] && s1[j - 1] == b0.orders[if j - 1 < k {
                            j - 1
                        } else {
                            j
                        }]);
                    } else {
                        assert(s2[j] == o);
                    }
                }
            }
            if old_p_low == min_p {
                lemma_min_plow_facts(s2, old(book).book_type);
            } else {
                assert forall|j: int| 0 <= j < s2.len() implies final(book).min_price
                    <= #[trigger] s2[j].p_low by {
                    if j < p {
                        assert(s2[j] == s1[j] && s1[j] == b0.orders[if j < k {
                            j
                        } else {
                            j + 1
                        }]);
                    } else if j > p {
                        assert(s2[j] == s1[j - 1] && s1[j - 1] == b0.orders[if j - 1 < k {
                            j - 1
                        } else {
                            j
                        }]);
                    } else {
                        assert(s2[j] == o);
                    }
                }
            }
            assert(book_rep(book) =~= update_tr(b0, o));
        }
        Ok(())
    }

    /// Removes the order carrying the same `trader_id` from the book.  If the
    /// book empties, the caches return to their sentinels; otherwise each
    /// cache the departing order sat on is rescanned.  `NotFound` leaves the
    /// book untouched; the order is simply dropped.
    pub fn process_cancel(order: Order, book: &mut Book) -> (r: Result<(), OrderError>)
        requires
            old(book).wf(),
            old(book).bounds_ok(),
        ensures
            final(book).wf(),
            final(book).bounds_ok(),
            final(book).book_type == old(book).book_type,
            book_rep(final(book)) == cancel_tr(book_rep(old(book)), order),
            !contains_id(old(book).orders@, order.trader_id@) ==> r == Err::<(), OrderError>(
                OrderError::NotFound,
            ) && *final(book) == *old(book),
            contains_id(old(book).orders@, order.trader_id@) ==> r is Ok,
    {
        let pos = match book.peek_id_pos(order.trader_id.clone()) {
            Some(p) => p,
            None => {
                return Err(OrderError::NotFound);
            },
        };
        let ghost b0 = book_rep(book);
        let ghost o = order;
        let ghost k = idx_of(b0.orders, o.trader_id@);
        proof {
            assert(b0.orders[k].trader_id@ == o.trader_id@);
            assert(k == pos as int);
        }
        let old_p_high: i64 = book.orders[pos].p_high;
        let old_p_low: i64 = book.orders[pos].p_low;
        let r = book.cancel_order(order);
        let ghost s2 = book.orders@;
        proof {
            assert(r is Ok);
            assert(s2 == remove_id(b0.orders, o.trader_id@));
        }
        if book.len() == 0 {
            // The caches are only consulted on a non-empty book: restore the
            // sentinels.
            book.max_price = 0;
            book.min_price = PRICE_MAX;
        } else {
            if old_p_high == book.get_max_price() {
                book.find_new_max();
            }
            if old_p_low == book.get_min_price() {
                book.find_new_min();
            }
            proof {
                if old_p_high as int == b0.max_price {
                    lemma_max_phigh_in_range(s2, old(book).book_type);
                } else {
                    assert forall|j: int| 0 <= j < s2.len() implies #[trigger] s2[j].p_high
                        <= final(book).max_price by {
                        assert(s2[j] == b0.orders[if j < k {
                            j
                        } else {
                            j + 1
                        }]);
                    }
                }
                if old_p_low as int == b0.min_price {
                    lemma_min_plow_facts(s2, old(book).book_type);
                } else {
                    assert forall|j: int| 0 <= j < s2.len() implies final(book).min_price
                        <= #[trigger] s2[j].p_low by {
                        assert(s2[j] == b0.orders[if j < k {
                            j
                        } else {
                            j + 1
                        }]);
                    }
                }
            }
        }
        proof {
            assert(book_rep(book) =~= cancel_tr(b0, o));
        }
        Ok(())
    }

    /// Drains the queue and applies every drained order, in arrival order, to
    /// the book its `trade_type` selects.  A refused order (`NotFound`,
    /// duplicate Enter) is dropped; the rest of the batch is unaffected.
    pub fn conc_process_order_queue(queue: &mut Queue, bids: &mut Book, asks: &mut Book)
        requires
            old(bids).wf(),
            old(bids).bounds_ok(),
            old(bids).book_type == TradeType::Bid,
            old(asks).wf(),
            old(asks).bounds_ok(),
            old(asks).book_type == TradeType::Ask,
            forall|i: int|
                0 <= i < old(queue)@.len() ==> wf_order(#[trigger] old(queue)@[i]),
        ensures
            final(queue)@ =~= Seq::<Order>::empty(),
            final(bids).wf(),
            final(bids).bounds_ok(),
            final(bids).book_type == TradeType::Bid,
            final(asks).wf(),
            final(asks).bounds_ok(),
            final(asks).book_type == TradeType::Ask,
            (book_rep(final(bids)), book_rep(final(asks))) == apply_all(
                book_rep(old(bids)),
                book_rep(old(asks)),
                old(queue)@,
            ),
    {
        let ghost q0 = old(queue)@;
        let ghost bids0 = book_rep(old(bids));
        let ghost asks0 = book_rep(old(asks));
        let mut orders: Vec<Order> = queue.pop_all();
        let n: usize = orders.len();
        let mut i: usize = 0;
        proof {
            assert(q0.subrange(0, 0) =~= Seq::<Order>::empty());
        }
        while orders.len() > 0
            invariant
                0 <= i <= n,
                n as int == q0.len() as int,
                orders@ =~= q0.subrange(i as int, n as int),
                bids.wf(),
                bids.bounds_ok(),
                bids.book_type == TradeType::Bid,
                asks.wf(),
                asks.bounds_ok(),
                asks.book_type == TradeType::Ask,
                forall|j: int| 0 <= j < q0.len() ==> wf_order(#[trigger] q0[j]),
                (book_rep(bids), book_rep(asks)) == apply_all(
                    bids0,
                    asks0,
                    q0.subrange(0, i as int),
                ),
            decreases orders@.len(),
        {
            let order = orders.remove(0);
            let ghost o = order;
            proof {
                assert(o == q0[i as int]);
                assert(orders@ =~= q0.subrange(i + 1, n as int));
            }
            match order.trade_type {
                TradeType::Bid => {
                    match order.order_type {
                        OrderType::Enter => {
                            let _ = QueueProcessor::process_enter(order, bids);
                        },
                        OrderType::Update => {
                            let _ = QueueProcessor::process_update(order, bids);
                        },
                        OrderType::Cancel => {
                            let _ = QueueProcessor::process_cancel(order, bids);
                        },
                    }
                },
                TradeType::Ask => {
                    match order.order_type {
                        OrderType::Enter => {
                            let _ = QueueProcessor::process_enter(order, asks);
                        },
                        OrderType::Update => {
                            let _ = QueueProcessor::process_update(order, asks);
                        },
                        OrderType::Cancel => {
                            let _ = QueueProcessor::process_cancel(order, asks);
                        },
                    }
                },
            }
            i = i + 1;
            proof {
                let pre = q0.subrange(0, i - 1);
                let cur = q0.subrange(0, i as int);
                assert(cur.drop_last() =~= pre);
                assert(cur.last() == o);
                assert((book_rep(bids), book_rep(asks)) == apply_all(bids0, asks0, cur));
            }
        }
        proof {
            assert(q0.subrange(0, n as int) =~= q0);
        }
    }

    /// Books on the auction path stay on it: applying a batch whose Enters
    /// and Updates all carry the piecewise schedule for their side leaves
    /// only such orders in both books — a polynomial schedule never reaches
    /// the auction.
    pub proof fn lemma_apply_all_preserves_live(
        bids: BookState,
        asks: BookState,
        s: Seq<Order>,
    )
        requires
            all_live(bids.orders),
            all_live(asks.orders),
            forall|i: int|
                0 <= i < s.len() ==> (#[trigger] s[i].order_type == OrderType::Enter || s[i].order_type
                    == OrderType::Update) ==> live_order(s[i]),
        ensures
            all_live(apply_all(bids, asks, s).0.orders),
            all_live(apply_all(bids, asks, s).1.orders),
        decreases s.len(),
    {
        if s.len() > 0 {
            let prefix = s.drop_last();
            assert forall|i: int|
                0 <= i < prefix.len() && (#[trigger] prefix[i].order_type == OrderType::Enter
                    || prefix[i].order_type == OrderType::Update) implies live_order(
                prefix[i],
            ) by {
                assert(prefix[i] == s[i]);
            }
            Self::lemma_apply_all_preserves_live(bids, asks, prefix);
            let prev = apply_all(bids, asks, prefix);
            let o = s.last();
            Self::lemma_apply_order_preserves_live(prev.0, prev.1, o);
        }
    }

    /// One order keeps both books live, provided an Enter or Update carries
    /// the piecewise schedule for its side.
    pub proof fn lemma_apply_order_preserves_live(bids: BookState, asks: BookState, o: Order)
        requires
            all_live(bids.orders),
            all_live(asks.orders),
            o.order_type == OrderType::Enter || o.order_type == OrderType::Update
                ==> live_order(o),
        ensures
            all_live(apply_order(bids, asks, o).0.orders),
            all_live(apply_order(bids, asks, o).1.orders),
    {
        let b = if o.trade_type == TradeType::Bid {
            bids
        } else {
            asks
        };
        match o.order_type {
            OrderType::Enter => Self::lemma_enter_tr_preserves_live(b, o),
            OrderType::Update => Self::lemma_update_tr_preserves_live(b, o),
            OrderType::Cancel => Self::lemma_cancel_tr_preserves_live(b, o),
        }
    }

    proof fn lemma_enter_tr_preserves_live(b: BookState, o: Order)
        requires
            all_live(b.orders),
            live_order(o),
        ensures
            all_live(enter_tr(b, o).orders),
    {
        if !contains_id(b.orders, o.trader_id@) {
            let p = insert_pos(b.orders, o.p_high);
            lemma_insert_pos_bounds(b.orders, o.p_high);
            let s1 = enter_tr(b, o).orders;
            assert(s1 == b.orders.insert(p, o));
            assert forall|i: int| 0 <= i < s1.len() implies live_order(#[trigger] s1[i]) by {
                if i < p {
                    assert(s1[i] == b.orders[i]);
                } else if i > p {
                    assert(s1[i] == b.orders[i - 1]);
                } else {
                    assert(s1[i] == o);
                }
            }
        }
    }

    proof fn lemma_update_tr_preserves_live(b: BookState, o: Order)
        requires
            all_live(b.orders),
            live_order(o),
        ensures
            all_live(update_tr(b, o).orders),
    {
        if contains_id(b.orders, o.trader_id@) {
            let k = idx_of(b.orders, o.trader_id@);
            let s1 = remove_id(b.orders, o.trader_id@);
            assert(all_live(s1)) by {
                assert forall|i: int| 0 <= i < s1.len() implies live_order(#[trigger] s1[i]) by {
                    assert(s1[i] == b.orders[if i < k {
                        i
                    } else {
                        i + 1
                    }]);
                }
            }
            let p = insert_pos(s1, o.p_high);
            lemma_insert_pos_bounds(s1, o.p_high);
            let s2 = update_tr(b, o).orders;
            assert(s2 == s1.insert(p, o));
            assert forall|i: int| 0 <= i < s2.len() implies live_order(#[trigger] s2[i]) by {
                if i < p {
                    assert(s2[i] == s1[i]);
                } else if i > p {
                    assert(s2[i] == s1[i - 1]);
                } else {
                    assert(s2[i] == o);
                }
            }
        }
    }

    proof fn lemma_cancel_tr_preserves_live(b: BookState, o: Order)
        requires
            all_live(b.orders),
        ensures
            all_live(cancel_tr(b, o).orders),
    {
        if contains_id(b.orders, o.trader_id@) {
            let k = idx_of(b.orders, o.trader_id@);
            let s1 = cancel_tr(b, o).orders;
            assert(s1 == b.orders.remove(k));
            assert forall|i: int| 0 <= i < s1.len() implies live_order(#[trigger] s1[i]) by {
                assert(s1[i] == b.orders[if i < k {
                    i
                } else {
                    i + 1
                }]);
            }
        }
    }

    /// Round trip: an Enter followed by a Cancel carrying the same (fresh)
    /// `trader_id` leaves the book exactly as it was — same live orders,
    /// same cached bounds — provided the caches held the exact extrema.
    pub proof fn lemma_enter_cancel_round_trip(b: BookState, o: Order, side: TradeType)
        requires
            sorted_by_p_high(b.orders),
            ids_unique(b.orders),
            wf_orders(b.orders, side),
            wf_order(o),
            !contains_id(b.orders, o.trader_id@),
            b.orders.len() == 0 ==> b.min_price == PRICE_MAX as int && b.max_price == 0,
            b.orders.len() > 0 ==> b.min_price == min_plow(b.orders) && b.max_price == max_phigh(
                b.orders,
            ),
        ensures
            cancel_tr(enter_tr(b, o), o) == b,
    {
        let s = b.orders;
        let b1 = enter_tr(b, o);
        let p = insert_pos(s, o.p_high);
        lemma_insert_pos_bounds(s, o.p_high);
        let s1 = b1.orders;
        assert(s1 == s.insert(p, o));
        assert(s1[p] == o);
        assert(contains_id(s1, o.trader_id@));
        let k = idx_of(s1, o.trader_id@);
        assert(s1[k].trader_id@ == o.trader_id@);
        assert(k == p) by {
            if k != p {
                let k0 = if k < p {
                    k
                } else {
                    k - 1
                };
                assert(s1[k] == s[k0]);
                assert(contains_id(s, o.trader_id@));
            }
        }
        let s2 = remove_id(s1, o.trader_id@);
        assert(s2 =~= s);
        let b2 = cancel_tr(b1, o);
        if s.len() == 0 {
            assert(b2.min_price == b.min_price && b2.max_price == b.max_price);
        } else {
            if o.p_high as int == b1.max_price {
                assert(b2.max_price == max_phigh(s2));
                assert(max_phigh(s2) == max_phigh(s));
            } else {
                // The entered order did not sit on the cached maximum, so the
                // widening kept the old value.
                assert(b1.max_price == b.max_price);
            }
            if o.p_low as int == b1.min_price {
                assert(b2.min_price == min_plow(s2));
                assert(min_plow(s2) == min_plow(s));
            } else {
                assert(b1.min_price == b.min_price);
            }
        }
        assert(b2 =~= b);
    }

    /// One firing of the queue task: the tick reads the phase once and drains
    /// the queue only when it is `Process`.  In any other phase the tick is a
    /// no-op — the queue and both books are left exactly as they were.
    pub fn queue_tick(state: &State, queue: &mut Queue, bids: &mut Book, asks: &mut Book)
        requires
            old(bids).wf(),
            old(bids).bounds_ok(),
            old(bids).book_type == TradeType::Bid,
            old(asks).wf(),
            old(asks).bounds_ok(),
            old(asks).book_type == TradeType::Ask,
            forall|i: int|
                0 <= i < old(queue)@.len() ==> wf_order(#[trigger] old(queue)@[i]),
        ensures
            final(bids).wf(),
            final(bids).bounds_ok(),
            final(bids).book_type == TradeType::Bid,
            final(asks).wf(),
            final(asks).bounds_ok(),
            final(asks).book_type == TradeType::Ask,
            *state == State::Process ==> final(queue)@ =~= Seq::<Order>::empty() && (
            book_rep(final(bids)), book_rep(final(asks))) == apply_all(
                book_rep(old(bids)),
                book_rep(old(asks)),
                old(queue)@,
            ),
            *state != State::Process ==> final(queue)@ == old(queue)@ && *final(bids) == *old(
                bids,
            ) && *final(asks) == *old(asks),
    {
        match *state {
            State::Process => {
                QueueProcessor::conc_process_order_queue(queue, bids, asks);
            },
            State::Auction => {},
            State::PreAuction => {},
        }
    }
}

} // verus!
