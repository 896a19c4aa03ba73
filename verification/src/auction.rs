//! The sealed-batch auction: aggregates the demand and supply curves and
//! locates a clearing price by bisection.

use crate::book::{wf_orders, Book};
use crate::controller::State;
use crate::order::{
    dem_value, in_price_range, lemma_dem_value_bounds, lemma_dem_value_monotone,
    lemma_sup_value_bounds, lemma_sup_value_monotone, live_order, sup_value, Order, Schedule,
    TradeType, EPSILON, QTY_MAX,
};
use vstd::prelude::*;

verus! {

pub struct Auction {}

/// Number of bisection steps after which the search gives up and reports the
/// current midpoint.
pub const MAX_ITERS: u32 = 1000;

/// Magnitude of an integer.
pub open spec fn abs_val(a: int) -> int {
    if a >= 0 {
        a
    } else {
        -a
    }
}

/// Every order carries the piecewise schedule matching its side, so the
/// aggregate curves are monotone — the only form the auction admits.
pub open spec fn all_live(s: Seq<Order>) -> bool {
    forall|i: int| 0 <= i < s.len() ==> live_order(#[trigger] s[i])
}

/// Aggregate demand `D(p)`: the sum of every bid's schedule at `p`.
pub open spec fn agg_demand(s: Seq<Order>, p: int) -> int
    decreases s.len(),
{
    if s.len() == 0 {
        0
    } else {
        agg_demand(s.drop_last(), p) + dem_value(
            s.last().p_low as int,
            s.last().p_high as int,
            s.last().u_max as int,
            p,
        )
    }
}

/// Aggregate supply `S(p)`: the sum of every ask's schedule at `p`.
pub open spec fn agg_supply(s: Seq<Order>, p: int) -> int
    decreases s.len(),
{
    if s.len() == 0 {
        0
    } else {
        agg_supply(s.drop_last(), p) + sup_value(
            s.last().p_low as int,
            s.last().p_high as int,
            s.last().u_max as int,
            p,
        )
    }
}

/// Left end of the clearing-price search interval.
pub open spec fn low_bound(bids: &Book, asks: &Book) -> int {
    if bids.min_price <= asks.min_price {
        bids.min_price as int
    } else {
        asks.min_price as int
    }
}

/// Right end of the clearing-price search interval.
pub open spec fn high_bound(bids: &Book, asks: &Book) -> int {
    if bids.max_price >= asks.max_price {
        bids.max_price as int
    } else {
        asks.max_price as int
    }
}

/// Demand and supply at `p` balance within the clearing tolerance.
pub open spec fn balanced_at(bids: &Book, asks: &Book, p: int) -> bool {
    -(EPSILON as int) <= agg_demand(bids.orders@, p) - agg_supply(asks.orders@, p) <= EPSILON as int
}

/// How the bisection ended.
#[derive(Clone, Copy, PartialEq, Eq, Structural, Debug)]
pub enum CrossResult {
    /// A price at which demand and supply balance within the tolerance.
    Found(i64),
    /// The iteration cap fired; the current midpoint is reported.
    CapHit(i64),
    /// The interval was empty to begin with, or supply exceeds demand over
    /// the whole of it.
    NoCross,
}

impl Auction {
    /// Walks each book once and sums every schedule at the candidate price.
    pub fn calc_aggs(p: i64, bids: &Book, asks: &Book) -> (r: (i128, i128))
        requires
            in_price_range(p as int),
            all_live(bids.orders@),
            all_live(asks.orders@),
            wf_orders(bids.orders@, TradeType::Bid),
            wf_orders(asks.orders@, TradeType::Ask),
        ensures
            r.0 == agg_demand(bids.orders@, p as int),
            r.1 == agg_supply(asks.orders@, p as int),
            0 <= r.0,
            0 <= r.1,
    {
        let agg_dem: i128 = Auction::sum_demand(p, bids);
        let agg_sup: i128 = Auction::sum_supply(p, asks);
        (agg_dem, agg_sup)
    }

    fn sum_demand(p: i64, bids: &Book) -> (r: i128)
        requires
            in_price_range(p as int),
            all_live(bids.orders@),
            wf_orders(bids.orders@, TradeType::Bid),
        ensures
            r == agg_demand(bids.orders@, p as int),
            0 <= r,
    {
        let s = &bids.orders;
        let n: usize = s.len();
        let mut total: i128 = 0;
        let mut i: usize = 0;
        proof {
            assert(s@.subrange(0, 0) =~= Seq::<Order>::empty());
            lemma_qty_cap();
        }
        while i < n
            invariant
                0 <= i <= n,
                n == s@.len(),
                in_price_range(p as int),
                all_live(s@),
                wf_orders(s@, TradeType::Bid),
                total == agg_demand(s@.subrange(0, i as int), p as int),
                0 <= total <= (i as int) * (QTY_MAX as int),
                (n as int) * (QTY_MAX as int) < i128::MAX,
            decreases n - i,
        {
            let order = &s[i];
            let v: i64 = if p <= order.p_low {
                order.u_max
            } else if p > order.p_high {
                0
            } else {
                order.calculate(p)
            };
            proof {
                let o = s@[i as int];
                lemma_dem_value_bounds(o.p_low as int, o.p_high as int, o.u_max as int, p as int);
                assert(o.trade_type == TradeType::Bid && live_order(o));
                assert(o.function == (Schedule::PwDem {
                    p_low: o.p_low,
                    p_high: o.p_high,
                    u_max: o.u_max,
                }));
                assert(v == dem_value(o.p_low as int, o.p_high as int, o.u_max as int, p as int));
                assert(s@.subrange(0, i + 1).drop_last() =~= s@.subrange(0, i as int));
                assert(s@.subrange(0, i + 1).last() == o);
                assert((i as int) * (QTY_MAX as int) + (QTY_MAX as int) == (i + 1) * (
                QTY_MAX as int)) by (nonlinear_arith);
                assert((i + 1) * (QTY_MAX as int) <= (n as int) * (QTY_MAX as int))
                    by (nonlinear_arith)
                    requires
                        i + 1 <= n as int,
                ;
            }
            total = total + (v as i128);
            i = i + 1;
        }
        proof {
            assert(s@.subrange(0, n as int) =~= s@);
        }
        total
    }

    fn sum_supply(p: i64, asks: &Book) -> (r: i128)
        requires
            in_price_range(p as int),
            all_live(asks.orders@),
            wf_orders(asks.orders@, TradeType::Ask),
        ensures
            r == agg_supply(asks.orders@, p as int),
            0 <= r,
    {
        let s = &asks.orders;
        let n: usize = s.len();
        let mut total: i128 = 0;
        let mut i: usize = 0;
        proof {
            assert(s@.subrange(0, 0) =~= Seq::<Order>::empty());
            lemma_qty_cap();
        }
        while i < n
            invariant
                0 <= i <= n,
                n == s@.len(),
                in_price_range(p as int),
                all_live(s@),
                wf_orders(s@, TradeType::Ask),
                total == agg_supply(s@.subrange(0, i as int), p as int),
                0 <= total <= (i as int) * (QTY_MAX as int),
                (n as int) * (QTY_MAX as int) < i128::MAX,
            decreases n - i,
        {
            let order = &s[i];
            let v: i64 = if p < order.p_low {
                0
            } else if p >= order.p_high {
                order.u_max
            } else {
                order.calculate(p)
            };
            proof {
                let o = s@[i as int];
                lemma_sup_value_bounds(o.p_low as int, o.p_high as int, o.u_max as int, p as int);
                assert(o.trade_type == TradeType::Ask && live_order(o));
                assert(o.function == (Schedule::PwSup {
                    p_low: o.p_low,
                    p_high: o.p_high,
                    u_max: o.u_max,
                }));
                assert(v == sup_value(o.p_low as int, o.p_high as int, o.u_max as int, p as int));
                assert(s@.subrange(0, i + 1).drop_last() =~= s@.subrange(0, i as int));
                assert(s@.subrange(0, i + 1).last() == o);
                assert((i as int) * (QTY_MAX as int) + (QTY_MAX as int) == (i + 1) * (
                QTY_MAX as int)) by (nonlinear_arith);
                assert((i + 1) * (QTY_MAX as int) <= (n as int) * (QTY_MAX as int))
                    by (nonlinear_arith)
                    requires
                        i + 1 <= n as int,
                ;
            }
            total = total + (v as i128);
            i = i + 1;
        }
        proof {
            assert(s@.subrange(0, n as int) =~= s@);
        }
        total
    }

    /// The search interval: the smaller of the two cached minima to the
    /// larger of the two cached maxima.
    pub fn get_price_bounds(bids: &Book, asks: &Book) -> (r: (i64, i64))
        ensures
            r.0 as int == low_bound(bids, asks),
            r.1 as int == high_bound(bids, asks),
    {
        let bids_min: i64 = bids.get_min_price();
        let bids_max: i64 = bids.get_max_price();
        let asks_min: i64 = asks.get_min_price();
        let asks_max: i64 = asks.get_max_price();
        let low: i64 = if bids_min <= asks_min {
            bids_min
        } else {
            asks_min
        };
        let high: i64 = if bids_max >= asks_max {
            bids_max
        } else {
            asks_max
        };
        (low, high)
    }

    /// `true` if `a` exceeds `b` by more than the tolerance (magnitudes are
    /// compared).
    pub fn greater_than_e(a: &i128, b: &i128) -> (r: bool)
        requires
            i128::MIN < *a,
            i128::MIN < *b,
        ensures
            r == (abs_val(*a as int) - abs_val(*b as int) > EPSILON as int),
    {
        let aa: i128 = if *a >= 0 {
            *a
        } else {
            -*a
        };
        let bb: i128 = if *b >= 0 {
            *b
        } else {
            -*b
        };
        aa - bb > EPSILON as i128
    }

    /// `true` if `a` falls short of `b` by more than the tolerance
    /// (magnitudes are compared).
    pub fn less_than_e(a: &i128, b: &i128) -> (r: bool)
        requires
            i128::MIN < *a,
            i128::MIN < *b,
        ensures
            r == (abs_val(*b as int) - abs_val(*a as int) > EPSILON as int),
    {
        let aa: i128 = if *a >= 0 {
            *a
        } else {
            -*a
        };
        let bb: i128 = if *b >= 0 {
            *b
        } else {
            -*b
        };
        bb - aa > EPSILON as i128
    }

    /// `true` if `a` and `b` differ by less than the tolerance.
    pub fn equal_e(a: &i128, b: &i128) -> (r: bool)
        requires
            -(i128::MAX as int) <= *a - *b <= i128::MAX as int,
        ensures
            r == (abs_val(*a - *b) < EPSILON as int),
    {
        if *a >= *b {
            *a - *b < EPSILON as i128
        } else {
            *b - *a < EPSILON as i128
        }
    }

    /// Bisection for the intersection of aggregate demand and supply.
    ///
    /// Either a balanced price is found inside the initial interval, or the
    /// iteration cap fires and the current midpoint is reported, or there is
    /// no crossing to find: the interval was empty, or supply already
    /// exceeds demand (beyond the tolerance) at its left end — and since
    /// demand falls and supply rises with the price, everywhere above it.
    pub fn find_cross(bids: &Book, asks: &Book) -> (r: CrossResult)
        requires
            bids.wf(),
            asks.wf(),
            bids.book_type == TradeType::Bid,
            asks.book_type == TradeType::Ask,
            all_live(bids.orders@),
            all_live(asks.orders@),
        ensures
            match r {
                CrossResult::Found(p) => low_bound(bids, asks) <= p as int && (p as int)
                    < high_bound(bids, asks) && balanced_at(bids, asks, p as int),
                CrossResult::CapHit(p) => low_bound(bids, asks) <= p as int && (p as int)
                    < high_bound(bids, asks) && !balanced_at(bids, asks, p as int),
                CrossResult::NoCross => low_bound(bids, asks) >= high_bound(bids, asks)
                    || agg_supply(asks.orders@, low_bound(bids, asks)) > agg_demand(
                    bids.orders@,
                    low_bound(bids, asks),
                ) + EPSILON as int,
            },
            low_bound(bids, asks) >= high_bound(bids, asks) ==> r is NoCross,
    {
        let bounds = Auction::get_price_bounds(bids, asks);
        let mut left: i64 = bounds.0;
        let mut right: i64 = bounds.1;
        let ghost l0 = left as int;
        let ghost r0 = right as int;
        if left >= right {
            return CrossResult::NoCross;
        }
        let mut curr_iter: u32 = 0;
        while left < right
            invariant
                bids.wf(),
                asks.wf(),
                bids.book_type == TradeType::Bid,
                asks.book_type == TradeType::Ask,
                all_live(bids.orders@),
                all_live(asks.orders@),
                l0 == low_bound(bids, asks),
                r0 == high_bound(bids, asks),
                l0 <= left as int <= right as int <= r0,
                in_price_range(left as int),
                in_price_range(right as int),
                curr_iter < MAX_ITERS,
                left as int == l0 || agg_demand(bids.orders@, left as int) > agg_supply(
                    asks.orders@,
                    left as int,
                ) + EPSILON as int,
                right as int == r0 || agg_supply(asks.orders@, right as int) > agg_demand(
                    bids.orders@,
                    right as int,
                ) + EPSILON as int,
                left == right ==> l0 >= r0 || agg_supply(asks.orders@, l0) > agg_demand(
                    bids.orders@,
                    l0,
                ) + EPSILON as int,
            decreases MAX_ITERS - curr_iter,
        {
            curr_iter = curr_iter + 1;
            // Floor midpoint: always inside [left, right).
            let half: i64 = ((right - left) as u64 / 2) as i64;
            let index: i64 = left + half;
            let aggs = Auction::calc_aggs(index, bids, asks);
            let dem: i128 = aggs.0;
            let sup: i128 = aggs.1;
            if Auction::greater_than_e(&dem, &sup) {
                // Demand wins: the crossing lies to the right.
                left = index;
            } else if Auction::less_than_e(&dem, &sup) {
                // Supply wins: the crossing lies to the left.
                right = index;
            } else {
                return CrossResult::Found(index);
            }
            if curr_iter == MAX_ITERS {
                return CrossResult::CapHit(index);
            }
        }
        CrossResult::NoCross
    }

    /// Calculates the market clearing price from the bids and asks books by
    /// binary search, reporting the midpoint when the iteration cap fires
    /// and nothing when there is no crossing to find.
    pub fn bs_cross(bids: &Book, asks: &Book) -> (r: Option<i64>)
        requires
            bids.wf(),
            asks.wf(),
            bids.book_type == TradeType::Bid,
            asks.book_type == TradeType::Ask,
            all_live(bids.orders@),
            all_live(asks.orders@),
        ensures
            match r {
                Some(p) => low_bound(bids, asks) <= p as int && (p as int) < high_bound(bids, asks),
                None => low_bound(bids, asks) >= high_bound(bids, asks) || agg_supply(
                    asks.orders@,
                    low_bound(bids, asks),
                ) > agg_demand(bids.orders@, low_bound(bids, asks)) + EPSILON as int,
            },
            low_bound(bids, asks) >= high_bound(bids, asks) ==> r is None,
    {
        match Auction::find_cross(bids, asks) {
            CrossResult::Found(p) => Some(p),
            CrossResult::CapHit(p) => Some(p),
            CrossResult::NoCross => None,
        }
    }

    /// One firing of the auction task: flip the phase to `Auction`, run the
    /// clearing-price search against the frozen books, and restore `Process`
    /// — also when no price was found.
    pub fn auction_tick(state: &mut State, bids: &Book, asks: &Book) -> (r: Option<i64>)
        requires
            bids.wf(),
            asks.wf(),
            bids.book_type == TradeType::Bid,
            asks.book_type == TradeType::Ask,
            all_live(bids.orders@),
            all_live(asks.orders@),
        ensures
            *final(state) == State::Process,
            match r {
                Some(p) => low_bound(bids, asks) <= p as int && (p as int) < high_bound(bids, asks),
                None => low_bound(bids, asks) >= high_bound(bids, asks) || agg_supply(
                    asks.orders@,
                    low_bound(bids, asks),
                ) > agg_demand(bids.orders@, low_bound(bids, asks)) + EPSILON as int,
            },
    {
        *state = State::Auction;
        let r = Auction::bs_cross(bids, asks);
        *state = State::Process;
        r
    }
}

/// Even a full-length book of saturated orders sums below the accumulator's
/// range.
proof fn lemma_qty_cap()
    ensures
        (usize::MAX as int) * (QTY_MAX as int) < i128::MAX,
{
    assert((usize::MAX as int) * (QTY_MAX as int) < i128::MAX) by (nonlinear_arith);
}

/// Aggregate demand is non-increasing in the price (each bid's schedule is).
pub proof fn lemma_agg_demand_monotone(s: Seq<Order>, p1: int, p2: int)
    requires
        all_live(s),
        p1 <= p2,
    ensures
        agg_demand(s, p1) >= agg_demand(s, p2),
    decreases s.len(),
{
    if s.len() > 0 {
        assert(all_live(s.drop_last())) by {
            assert forall|i: int| 0 <= i < s.drop_last().len() implies live_order(
                #[trigger] s.drop_last()[i],
            ) by {
                assert(s.drop_last()[i] == s[i]);
            }
        }
        lemma_agg_demand_monotone(s.drop_last(), p1, p2);
        let o = s.last();
        lemma_dem_value_monotone(o.p_low as int, o.p_high as int, o.u_max as int, p1, p2);
    }
}

/// The difference of aggregate demand and aggregate supply is non-increasing
/// in the price, so the curves cross at most once beyond the tolerance.
pub proof fn lemma_agg_diff_monotone(bids: Seq<Order>, asks: Seq<Order>, p1: int, p2: int)
    requires
        all_live(bids),
        all_live(asks),
        p1 <= p2,
    ensures
        agg_demand(bids, p1) - agg_supply(asks, p1) >= agg_demand(bids, p2) - agg_supply(asks, p2),
{
    lemma_agg_demand_monotone(bids, p1, p2);
    lemma_agg_supply_monotone(asks, p1, p2);
}

/// Aggregate supply is non-decreasing in the price (each ask's schedule is).
pub proof fn lemma_agg_supply_monotone(s: Seq<Order>, p1: int, p2: int)
    requires
        all_live(s),
        p1 <= p2,
    ensures
        agg_supply(s, p1) <= agg_supply(s, p2),
    decreases s.len(),
{
    if s.len() > 0 {
        assert(all_live(s.drop_last())) by {
            assert forall|i: int| 0 <= i < s.drop_last().len() implies live_order(
                #[trigger] s.drop_last()[i],
            ) by {
                assert(s.drop_last()[i] == s[i]);
            }
        }
        lemma_agg_supply_monotone(s.drop_last(), p1, p2);
        let o = s.last();
        lemma_sup_value_monotone(o.p_low as int, o.p_high as int, o.u_max as int, p1, p2);
    }
}

} // verus!
