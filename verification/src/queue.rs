//! FIFO buffer of unapplied order messages.

use crate::order::Order;
use vstd::prelude::*;

verus! {

/// A FIFO queue storing unprocessed orders arriving from traders, in arrival
/// order.  Its view is the sequence of buffered orders, oldest first.
pub struct Queue {
    items: Vec<Order>,
}

impl View for Queue {
    type V = Seq<Order>;

    closed spec fn view(&self) -> Seq<Order> {
        self.items@
    }
}

impl Queue {
    pub fn new() -> (r: Queue)
        ensures
            r@ =~= Seq::<Order>::empty(),
    {
        Queue { items: Vec::<Order>::new() }
    }

    /// New orders are appended at the end of the queue.
    pub fn add(&mut self, order: Order)
        ensures
            final(self)@ == old(self)@.push(order),
    {
        self.items.push(order);
    }

    /// Removes and returns the newest order, if any.
    pub fn pop(&mut self) -> (r: Option<Order>)
        ensures
            old(self)@.len() == 0 ==> r is None && final(self)@ == old(self)@,
            old(self)@.len() > 0 ==> r == Some(old(self)@.last()) && final(self)@ == old(
                self,
            )@.drop_last(),
    {
        self.items.pop()
    }

    /// Empties the queue and returns its contents in arrival order, so the
    /// caller processes orders first to last.
    pub fn pop_all(&mut self) -> (r: Vec<Order>)
        ensures
            r@ == old(self)@,
            final(self)@ =~= Seq::<Order>::empty(),
    {
        let mut out: Vec<Order> = Vec::<Order>::new();
        core::mem::swap(&mut self.items, &mut out);
        out
    }

    /// Number of buffered orders.
    pub fn len(&self) -> (r: usize)
        ensures
            r == self@.len(),
    {
        self.items.len()
    }
}

} // verus!
