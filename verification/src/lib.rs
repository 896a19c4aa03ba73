//! A frequent-batch call-market exchange ("flow market").
//!
//! Traders submit piecewise-linear demand or supply schedules rather than
//! point limit orders.  Orders accumulate in a FIFO queue; a periodic queue
//! tick drains the queue into the two order books while the phase is
//! `Process`, and a periodic auction tick freezes the books, aggregates the
//! demand and supply curves, and locates a uniform clearing price by
//! bisection.
//!
//! Prices and quantities are fixed-point numbers: an `i64` counts units of
//! `10^-13`, so the constant [`order::PRICE_SCALE`] is one whole price unit
//! and [`order::EPSILON`] (`10^4` ticks) is the `10^-9` clearing tolerance.

use vstd::prelude::*;

pub mod auction;
pub mod book;
pub mod controller;
pub mod order;
pub mod order_processing;
pub mod queue;
pub mod queue_processing;
pub mod utility;

use book::Book;
use controller::State;
use order::TradeType;
use queue::Queue;

verus! {

/// Creates the four pieces of state the exchange runs on: the ingress queue,
/// the two (empty) order books, and the phase variable, initially `Process`.
pub fn setup_exchange() -> (r: (Queue, Book, Book, State))
    ensures
        r.0@ =~= Seq::<order::Order>::empty(),
        r.1.book_type == TradeType::Bid,
        r.1.orders@ =~= Seq::<order::Order>::empty(),
        r.1.min_price == order::PRICE_MAX,
        r.1.max_price == 0,
        r.1.wf(),
        r.1.bounds_ok(),
        r.1.caches_exact(),
        r.2.book_type == TradeType::Ask,
        r.2.orders@ =~= Seq::<order::Order>::empty(),
        r.2.min_price == order::PRICE_MAX,
        r.2.max_price == 0,
        r.2.wf(),
        r.2.bounds_ok(),
        r.2.caches_exact(),
        r.3 == State::Process,
{
    let queue = Queue::new();
    let bids_book = Book::new(TradeType::Bid);
    let asks_book = Book::new(TradeType::Ask);
    (queue, bids_book, asks_book, State::Process)
}

} // verus!
