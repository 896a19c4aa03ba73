//! Turns the fields of a parsed ingress message into an `Order` and hands
//! accepted orders to the queue.  Framing and deserialisation live outside
//! the engine; only plain field values reach this module.

use crate::order::{
    in_price_range, live_order, p_wise_dem, p_wise_sup, wf_order, Order, OrderType, Schedule,
    TradeType, PRICE_MAX, QTY_MAX,
};
use crate::queue::Queue;
use vstd::prelude::*;
use vstd::string::StrSliceExecFns;

verus! {

/// Receives orders on behalf of the exchange and appends them to the queue.
pub struct OrderProcessor {}

impl OrderProcessor {
    /// Appends the trader's order to the ingress queue.
    pub fn conc_recv_order(order: Order, queue: &mut Queue)
        ensures
            final(queue)@ == old(queue)@.push(order),
    {
        queue.add(order);
    }
}

/// ASCII upper-case letters fold to lower case; everything else is itself.
pub open spec fn lower_char(c: char) -> char {
    if 65 <= c as int && c as int <= 90 {
        (((c as int) + 32) as u8) as char
    } else {
        c
    }
}

/// `s` equals the (lower-case) keyword up to ASCII case.
pub open spec fn ci_matches(s: Seq<char>, kw: Seq<char>) -> bool {
    s.len() == kw.len() && forall|i: int| 0 <= i < s.len() ==> lower_char(s[i]) == #[trigger] kw[i]
}

/// The order kind a message's `order_type` field denotes, if any.
pub open spec fn spec_order_type_of(s: Seq<char>) -> Option<OrderType> {
    if ci_matches(s, "enter"@) {
        Some(OrderType::Enter)
    } else if ci_matches(s, "update"@) {
        Some(OrderType::Update)
    } else if ci_matches(s, "cancel"@) {
        Some(OrderType::Cancel)
    } else {
        None
    }
}

/// The book side a message's `trade_type` field denotes, if any.
pub open spec fn spec_trade_type_of(s: Seq<char>) -> Option<TradeType> {
    if ci_matches(s, "bid"@) {
        Some(TradeType::Bid)
    } else if ci_matches(s, "ask"@) {
        Some(TradeType::Ask)
    } else {
        None
    }
}

/// The field constraints the ingress schema puts on an order's numbers.
pub open spec fn fields_in_schema(p_low: i64, p_high: i64, u_max: i64) -> bool {
    &&& in_price_range(p_low as int)
    &&& in_price_range(p_high as int)
    &&& p_low <= p_high
    &&& 0 <= u_max <= QTY_MAX
}

/// Case-insensitive comparison against a lower-case keyword.
fn eq_ignore_case(s: &str, kw: &str) -> (r: bool)
    ensures
        r == ci_matches(s@, kw@),
{
    let n: usize = s.unicode_len();
    let m: usize = kw.unicode_len();
    if n != m {
        return false;
    }
    let mut i: usize = 0;
    while i < n
        invariant
            0 <= i <= n,
            n == s@.len(),
            n == kw@.len(),
            forall|j: int| 0 <= j < i ==> lower_char(s@[j]) == #[trigger] kw@[j],
        decreases n - i,
    {
        let c: char = s.get_char(i);
        let k: char = kw.get_char(i);
        let cu: u32 = c as u32;
        let lc: char = if cu >= 65 && cu <= 90 {
            ((cu + 32) as u8) as char
        } else {
            c
        };
        proof {
            assert(lc == lower_char(s@[i as int]));
        }
        if lc != k {
            return false;
        }
        i = i + 1;
    }
    true
}

/// Parses the `order_type` field: one of `enter`, `update`, `cancel`, in any
/// ASCII case.
pub fn parse_order_type(s: &str) -> (r: Option<OrderType>)
    ensures
        r == spec_order_type_of(s@),
{
    if eq_ignore_case(s, "enter") {
        Some(OrderType::Enter)
    } else if eq_ignore_case(s, "update") {
        Some(OrderType::Update)
    } else if eq_ignore_case(s, "cancel") {
        Some(OrderType::Cancel)
    } else {
        None
    }
}

/// Parses the `trade_type` field: `bid` or `ask`, in any ASCII case.
pub fn parse_trade_type(s: &str) -> (r: Option<TradeType>)
    ensures
        r == spec_trade_type_of(s@),
{
    if eq_ignore_case(s, "bid") {
        Some(TradeType::Bid)
    } else if eq_ignore_case(s, "ask") {
        Some(TradeType::Ask)
    } else {
        None
    }
}

/// Makes an `Order` from the fields of an ingress message: the enum fields
/// are matched case-insensitively, the numeric fields are held to the
/// schema's constraints, and the piecewise schedule for the order's side is
/// attached.  A message that fails any of these is dropped (`None`).
pub fn order_from_fields(
    trader_id: String,
    order_type: &str,
    trade_type: &str,
    p_low: i64,
    p_high: i64,
    u_max: i64,
) -> (r: Option<Order>)
    ensures
        r is Some <==> spec_order_type_of(order_type@) is Some && spec_trade_type_of(trade_type@)
            is Some && fields_in_schema(p_low, p_high, u_max),
        r matches Some(o) ==> {
            &&& o.trader_id@ == trader_id@
            &&& Some(o.order_type) == spec_order_type_of(order_type@)
            &&& Some(o.trade_type) == spec_trade_type_of(trade_type@)
            &&& o.p_low == p_low
            &&& o.p_high == p_high
            &&& o.u_max == u_max
            &&& wf_order(o)
            &&& live_order(o)
        },
{
    let ot = match parse_order_type(order_type) {
        Some(ot) => ot,
        None => {
            return None;
        },
    };
    let tt = match parse_trade_type(trade_type) {
        Some(tt) => tt,
        None => {
            return None;
        },
    };
    if !(-PRICE_MAX <= p_low && p_low <= p_high && p_high <= PRICE_MAX && 0 <= u_max && u_max
        <= QTY_MAX) {
        return None;
    }
    let func: Schedule = match tt {
        TradeType::Bid => p_wise_dem(p_low, p_high, u_max),
        TradeType::Ask => p_wise_sup(p_low, p_high, u_max),
    };
    Some(Order::new(trader_id, ot, tt, p_low, p_high, u_max, func))
}

/// The wire name of an order kind, for the egress path.
pub fn order_type_label(ot: &OrderType) -> (r: &'static str)
    ensures
        ot == OrderType::Enter ==> r@ == "enter"@,
        ot == OrderType::Update ==> r@ == "update"@,
        ot == OrderType::Cancel ==> r@ == "cancel"@,
{
    match ot {
        OrderType::Enter => "enter",
        OrderType::Update => "update",
        OrderType::Cancel => "cancel",
    }
}

/// The wire name of a book side, for the egress path.
pub fn trade_type_label(tt: &TradeType) -> (r: &'static str)
    ensures
        tt == TradeType::Bid ==> r@ == "bid"@,
        tt == TradeType::Ask ==> r@ == "ask"@,
{
    match tt {
        TradeType::Bid => "bid",
        TradeType::Ask => "ask",
    }
}

} // verus!
