//! The engine's macro-state.

use vstd::prelude::*;

verus! {

/// Phase of the exchange.  While the phase is `Auction` the books are
/// frozen: the queue tick leaves the queue and both books untouched.
/// `PreAuction` is reserved and gates mutations the same way.
#[derive(Clone, Copy, PartialEq, Eq, Structural, Debug)]
pub enum State {
    Process,
    PreAuction,
    Auction,
}

} // verus!
