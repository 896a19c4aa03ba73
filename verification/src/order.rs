//! Order value types and the piecewise-linear schedule evaluator.
//!
//! A schedule maps a price to a quantity.  Both are fixed-point `i64` values
//! counting units of `10^-13`, so `PRICE_SCALE` ticks make one whole unit.
//! A bid's demand schedule is non-increasing in the price and an ask's supply
//! schedule is non-decreasing; those monotonicity facts are proved here and
//! underpin the clearing-price search.

use vstd::arithmetic::div_mod::{
    lemma_div_is_ordered, lemma_div_multiples_vanish, lemma_div_pos_is_pos,
};
use vstd::prelude::*;

verus! {

/// One whole price or quantity unit expressed in fixed-point ticks.
pub const PRICE_SCALE: i64 = 10_000_000_000_000;

/// Largest magnitude (in ticks) a price may take; also the empty-book
/// sentinel for a minimum price cache.
pub const PRICE_MAX: i64 = 1_000_000_000_000_000_000;

/// Largest quantity (in ticks) a single order may offer.
pub const QTY_MAX: i64 = 1_000_000_000_000_000_000;

/// Absolute tolerance used when comparing aggregate quantities: `10^4` ticks,
/// i.e. `10^-9` whole units.
pub const EPSILON: i64 = 10_000;

/// How an order mutates the book it is routed to.
#[derive(Clone, Copy, PartialEq, Eq, Structural, Debug)]
pub enum OrderType {
    Enter,
    Update,
    Cancel,
}

/// Which book an order belongs to.
#[derive(Clone, Copy, PartialEq, Eq, Structural, Debug)]
pub enum TradeType {
    Bid,
    Ask,
}

/// A trader's demand or supply schedule.  The runtime uses the two
/// piecewise-linear forms; the polynomial form exists to exercise the
/// evaluator and is not monotone, so it must not reach the auction path.
#[derive(Debug)]
pub enum Schedule {
    PwDem { p_low: i64, p_high: i64, u_max: i64 },
    PwSup { p_low: i64, p_high: i64, u_max: i64 },
    Poly { coefs: Vec<i64> },
}

/// The internal record the flow market operates on.
///
/// `trader_id` identifies the trader and their single live order per side;
/// `p_low` and `p_high` bound the schedule's sloped region and `u_max` is the
/// quantity at its saturated end.
#[derive(Debug)]
pub struct Order {
    pub trader_id: String,
    pub order_type: OrderType,
    pub trade_type: TradeType,
    pub p_low: i64,
    pub p_high: i64,
    pub u_max: i64,
    pub function: Schedule,
}

/// Truncating (round toward zero) division, matching the machine semantics
/// used by the evaluator.
pub open spec fn tdiv(a: int, b: int) -> int
    recommends
        b > 0,
{
    if a >= 0 {
        a / b
    } else {
        -((-a) / b)
    }
}

/// Price is inside the representable band.
pub open spec fn in_price_range(p: int) -> bool {
    -(PRICE_MAX as int) <= p <= PRICE_MAX as int
}

/// Demand quantity at `p` for a piecewise-linear bid schedule: saturated at
/// `u` below `p_low`, zero above `p_high`, linear in between.
pub open spec fn dem_value(p_low: int, p_high: int, u_max: int, p: int) -> int {
    if p <= p_low {
        u_max
    } else if p > p_high {
        0
    } else {
        u_max * (p_high - p) / (p_high - p_low)
    }
}

/// Supply quantity at `p` for a piecewise-linear ask schedule: zero below
/// `p_low`, saturated at `u` above `p_high`, linear in between.
pub open spec fn sup_value(p_low: int, p_high: int, u_max: int, p: int) -> int {
    if p < p_low {
        0
    } else if p >= p_high {
        u_max
    } else {
        u_max * (p - p_low) / (p_high - p_low)
    }
}

/// One Horner step of the fixed-point polynomial evaluator: multiply the
/// accumulator by the (scaled) point, drop the scale again, add the next
/// coefficient as a whole unit.
pub open spec fn horner_step(v: int, c: int, x: int) -> int {
    tdiv(v * x, PRICE_SCALE as int) + c * (PRICE_SCALE as int)
}

/// Accumulator value after consuming the first `k` coefficients (highest
/// degree first).
pub open spec fn horner_prefix(coefs: Seq<i64>, x: int, k: int) -> int
    decreases k,
{
    if k <= 0 {
        0
    } else {
        horner_step(horner_prefix(coefs, x, k - 1), coefs[k - 1] as int, x)
    }
}

/// Value of the polynomial with the given coefficients at the point `x`.
pub open spec fn poly_value(coefs: Seq<i64>, x: int) -> int {
    horner_prefix(coefs, x, coefs.len() as int)
}

/// Every intermediate accumulator stays inside the representable quantity
/// band, so the machine evaluation cannot overflow.
pub open spec fn poly_fits(coefs: Seq<i64>, x: int) -> bool {
    forall|k: int|
        0 <= k <= coefs.len() ==> -(QTY_MAX as int) <= #[trigger] horner_prefix(coefs, x, k)
            <= QTY_MAX as int
}

/// The schedule's parameters are inside the representable bands.
pub open spec fn wf_sched(s: Schedule) -> bool {
    match s {
        Schedule::PwDem { p_low, p_high, u_max } => in_price_range(p_low as int) && in_price_range(
            p_high as int,
        ) && 0 <= u_max <= QTY_MAX,
        Schedule::PwSup { p_low, p_high, u_max } => in_price_range(p_low as int) && in_price_range(
            p_high as int,
        ) && 0 <= u_max <= QTY_MAX,
        Schedule::Poly { coefs } => true,
    }
}

/// The schedule can be evaluated at `p` without leaving the machine range.
pub open spec fn can_eval(s: Schedule, p: int) -> bool {
    wf_sched(s) && in_price_range(p) && match s {
        Schedule::Poly { coefs } => poly_fits(coefs@, p),
        _ => true,
    }
}

/// Quantity the schedule yields at price `p`.
pub open spec fn sched_value(s: Schedule, p: int) -> int {
    match s {
        Schedule::PwDem { p_low, p_high, u_max } => dem_value(
            p_low as int,
            p_high as int,
            u_max as int,
            p,
        ),
        Schedule::PwSup { p_low, p_high, u_max } => sup_value(
            p_low as int,
            p_high as int,
            u_max as int,
            p,
        ),
        Schedule::Poly { coefs } => poly_value(coefs@, p),
    }
}

/// The order's own price and quantity fields are inside the representable
/// bands and ordered.
pub open spec fn wf_order(o: Order) -> bool {
    &&& in_price_range(o.p_low as int)
    &&& in_price_range(o.p_high as int)
    &&& o.p_low <= o.p_high
    &&& 0 <= o.u_max <= QTY_MAX
}

/// The order carries the piecewise schedule matching its side, built from its
/// own bounds — the only form admitted to the auction path.
pub open spec fn live_order(o: Order) -> bool {
    &&& wf_order(o)
    &&& match o.trade_type {
        TradeType::Bid => o.function == (Schedule::PwDem {
            p_low: o.p_low,
            p_high: o.p_high,
            u_max: o.u_max,
        }),
        TradeType::Ask => o.function == (Schedule::PwSup {
            p_low: o.p_low,
            p_high: o.p_high,
            u_max: o.u_max,
        }),
    }
}

pub fn add_one(num: u32) -> (r: u32)
    requires
        num < u32::MAX,
    ensures
        r == num + 1,
{
    num + 1
}

/// Creates a piecewise linear demand schedule from the `p_low`, `p_high` and
/// `u_max` parameters.
pub fn p_wise_dem(p_l: i64, p_h: i64, u: i64) -> (r: Schedule)
    ensures
        r == (Schedule::PwDem { p_low: p_l, p_high: p_h, u_max: u }),
{
    Schedule::PwDem { p_low: p_l, p_high: p_h, u_max: u }
}

/// Creates a piecewise linear supply schedule from the `p_low`, `p_high` and
/// `u_max` parameters.
pub fn p_wise_sup(p_l: i64, p_h: i64, u: i64) -> (r: Schedule)
    ensures
        r == (Schedule::PwSup { p_low: p_l, p_high: p_h, u_max: u }),
{
    Schedule::PwSup { p_low: p_l, p_high: p_h, u_max: u }
}

/// Creates a polynomial schedule from a coefficient vector, highest degree
/// first: `[3, 5, 4, 1]` stands for `3x^3 + 5x^2 + 4x + 1`.
pub fn poly_clos_from_coef(coefs: Vec<i64>) -> (r: Schedule)
    ensures
        r == (Schedule::Poly { coefs }),
{
    Schedule::Poly { coefs }
}

impl Order {
    pub fn new(
        t_id: String,
        o_t: OrderType,
        t_t: TradeType,
        pl: i64,
        ph: i64,
        u: i64,
        function: Schedule,
    ) -> (r: Order)
        ensures
            r.trader_id == t_id,
            r.order_type == o_t,
            r.trade_type == t_t,
            r.p_low == pl,
            r.p_high == ph,
            r.u_max == u,
            r.function == function,
    {
        Order {
            trader_id: t_id,
            order_type: o_t,
            trade_type: t_t,
            p_low: pl,
            p_high: ph,
            u_max: u,
            function,
        }
    }

    /// Evaluates the order's schedule at the given price.
    pub fn calculate(&self, arg: i64) -> (r: i64)
        requires
            can_eval(self.function, arg as int),
        ensures
            r == sched_value(self.function, arg as int),
    {
        self.function.value(arg)
    }
}

impl Schedule {
    /// Evaluates the schedule at the given price.
    pub fn value(&self, price: i64) -> (r: i64)
        requires
            can_eval(*self, price as int),
        ensures
            r == sched_value(*self, price as int),
    {
        match self {
            Schedule::PwDem { p_low, p_high, u_max } => piecewise_dem(
                *p_low,
                *p_high,
                *u_max,
                price,
            ),
            Schedule::PwSup { p_low, p_high, u_max } => piecewise_sup(
                *p_low,
                *p_high,
                *u_max,
                price,
            ),
            Schedule::Poly { coefs } => poly_eval(coefs, price),
        }
    }
}

/// Machine evaluation of the demand form.
fn piecewise_dem(p_low: i64, p_high: i64, u_max: i64, price: i64) -> (r: i64)
    requires
        in_price_range(p_low as int),
        in_price_range(p_high as int),
        in_price_range(price as int),
        0 <= u_max <= QTY_MAX,
    ensures
        r == dem_value(p_low as int, p_high as int, u_max as int, price as int),
{
    if price <= p_low {
        u_max
    } else {
        if price > p_high {
            0
        } else {
            // p_low < price <= p_high, so the denominator is positive.
            let diff: i64 = p_high - price;
            let den: i64 = p_high - p_low;
            proof {
                let pl = p_low as int;
                let ph = p_high as int;
                let u = u_max as int;
                let p = price as int;
                assert(0 <= u * (ph - p) <= u * (ph - pl)) by (nonlinear_arith)
                    requires
                        0 <= u && pl <= p <= ph,
                ;
                assert(u * (ph - pl) < u128::MAX) by (nonlinear_arith)
                    requires
                        0 <= u <= QTY_MAX as int && -(PRICE_MAX as int) <= pl && ph
                            <= PRICE_MAX as int,
                ;
                lemma_div_is_ordered(u * (ph - p), u * (ph - pl), ph - pl);
                lemma_div_multiples_vanish(u, ph - pl);
                lemma_div_pos_is_pos(u * (ph - p), ph - pl);
            }
            let num: u128 = (u_max as u128) * (diff as u128);
            let q: u128 = num / (den as u128);
            q as i64
        }
    }
}

/// Machine evaluation of the supply form.
fn piecewise_sup(p_low: i64, p_high: i64, u_max: i64, price: i64) -> (r: i64)
    requires
        in_price_range(p_low as int),
        in_price_range(p_high as int),
        in_price_range(price as int),
        0 <= u_max <= QTY_MAX,
    ensures
        r == sup_value(p_low as int, p_high as int, u_max as int, price as int),
{
    if price < p_low {
        0
    } else {
        if price >= p_high {
            u_max
        } else {
            // p_low <= price < p_high, so the denominator is positive.
            let diff: i64 = price - p_low;
            let den: i64 = p_high - p_low;
            proof {
                let pl = p_low as int;
                let ph = p_high as int;
                let u = u_max as int;
                let p = price as int;
                assert(0 <= u * (p - pl) <= u * (ph - pl)) by (nonlinear_arith)
                    requires
                        0 <= u && pl <= p <= ph,
                ;
                assert(u * (ph - pl) < u128::MAX) by (nonlinear_arith)
                    requires
                        0 <= u <= QTY_MAX as int && -(PRICE_MAX as int) <= pl && ph
                            <= PRICE_MAX as int,
                ;
                lemma_div_is_ordered(u * (p - pl), u * (ph - pl), ph - pl);
                lemma_div_multiples_vanish(u, ph - pl);
                lemma_div_pos_is_pos(u * (p - pl), ph - pl);
            }
            let num: u128 = (u_max as u128) * (diff as u128);
            let q: u128 = num / (den as u128);
            q as i64
        }
    }
}

/// Truncating division of a bounded product by the scale.
fn tdiv_scale(num: i128) -> (r: i128)
    requires
        -(QTY_MAX as int) * (PRICE_MAX as int) <= num <= (QTY_MAX as int) * (PRICE_MAX as int),
    ensures
        r == tdiv(num as int, PRICE_SCALE as int),
{
    proof {
        lemma_scale_products();
    }
    if num >= 0 {
        let q: u128 = (num as u128) / (PRICE_SCALE as u128);
        proof {
            lemma_div_is_ordered(num as int, (QTY_MAX as int) * (PRICE_MAX as int), PRICE_SCALE as int);
            lemma_div_pos_is_pos(num as int, PRICE_SCALE as int);
        }
        q as i128
    } else {
        let neg: u128 = (-num) as u128;
        let q: u128 = neg / (PRICE_SCALE as u128);
        proof {
            lemma_div_is_ordered(-num as int, (QTY_MAX as int) * (PRICE_MAX as int), PRICE_SCALE as int);
            lemma_div_pos_is_pos(-num as int, PRICE_SCALE as int);
        }
        -(q as i128)
    }
}

/// Machine evaluation of the polynomial form by Horner's rule over the
/// fixed-point representation.
fn poly_eval(coefs: &Vec<i64>, x: i64) -> (r: i64)
    requires
        in_price_range(x as int),
        poly_fits(coefs@, x as int),
    ensures
        r == poly_value(coefs@, x as int),
{
    let mut v: i128 = 0;
    let mut k: usize = 0;
    let n: usize = coefs.len();
    assert(v == horner_prefix(coefs@, x as int, 0));
    while k < n
        invariant
            0 <= k <= n,
            n == coefs@.len(),
            in_price_range(x as int),
            poly_fits(coefs@, x as int),
            v == horner_prefix(coefs@, x as int, k as int),
        decreases n - k,
    {
        let c: i64 = coefs[k];
        proof {
            assert(-(QTY_MAX as int) <= v <= QTY_MAX as int);
            assert(-(QTY_MAX as int) * (PRICE_MAX as int) <= (v as int) * (x as int) <= (
            QTY_MAX as int) * (PRICE_MAX as int)) by (nonlinear_arith)
                requires
                    -(QTY_MAX as int) <= v <= QTY_MAX as int && -(PRICE_MAX as int) <= x as int
                        <= PRICE_MAX as int,
            ;
            lemma_scale_products();
            lemma_tdiv_magnitude((v as int) * (x as int), PRICE_SCALE as int);
        }
        let prod: i128 = v * (x as i128);
        let scaled: i128 = tdiv_scale(prod);
        v = scaled + (c as i128) * (PRICE_SCALE as i128);
        k = k + 1;
        assert(v == horner_prefix(coefs@, x as int, k as int));
    }
    proof {
        assert(-(QTY_MAX as int) <= v <= QTY_MAX as int);
    }
    v as i64
}

/// Constant bounds on the products the evaluator forms, so they fit `i128`.
proof fn lemma_scale_products()
    ensures
        (QTY_MAX as int) * (PRICE_MAX as int) == 1_000_000_000_000_000_000_000_000_000_000_000_000int,
        (QTY_MAX as int) * (PRICE_MAX as int) / (PRICE_SCALE as int) == 100_000_000_000_000_000_000_000int,
        (QTY_MAX as int) * (PRICE_MAX as int) + (i64::MAX as int) * (PRICE_SCALE as int)
            < i128::MAX,
{
    assert((QTY_MAX as int) * (PRICE_MAX as int)
        == 1_000_000_000_000_000_000_000_000_000_000_000_000int) by (nonlinear_arith);
    assert(100_000_000_000_000_000_000_000int * (PRICE_SCALE as int)
        == 1_000_000_000_000_000_000_000_000_000_000_000_000int) by (nonlinear_arith);
    vstd::arithmetic::div_mod::lemma_div_by_multiple(
        100_000_000_000_000_000_000_000int,
        PRICE_SCALE as int,
    );
    assert((i64::MAX as int) * (PRICE_SCALE as int) < 100_000_000_000_000_000_000_000_000_000_000int)
        by (nonlinear_arith);
}

/// The magnitude of a truncating quotient never exceeds the dividend's.
proof fn lemma_tdiv_magnitude(a: int, b: int)
    requires
        b >= 1,
    ensures
        a >= 0 ==> 0 <= tdiv(a, b) <= a,
        a < 0 ==> a <= tdiv(a, b) <= 0,
{
    if a >= 0 {
        lemma_div_pos_is_pos(a, b);
        vstd::arithmetic::div_mod::lemma_div_nonincreasing(a, b);
    } else {
        lemma_div_pos_is_pos(-a, b);
        vstd::arithmetic::div_mod::lemma_div_nonincreasing(-a, b);
    }
}

/// A demand schedule's value lies between zero and its `u_max`.
pub proof fn lemma_dem_value_bounds(p_low: int, p_high: int, u_max: int, p: int)
    requires
        0 <= u_max,
    ensures
        0 <= dem_value(p_low, p_high, u_max, p) <= u_max,
{
    if p <= p_low {
    } else if p > p_high {
    } else {
        assert(u_max * (p_high - p) <= u_max * (p_high - p_low)) by (nonlinear_arith)
            requires
                0 <= u_max && p >= p_low,
        ;
        assert(u_max * (p_high - p) >= 0) by (nonlinear_arith)
            requires
                0 <= u_max && p <= p_high,
        ;
        lemma_div_is_ordered(u_max * (p_high - p), u_max * (p_high - p_low), p_high - p_low);
        lemma_div_multiples_vanish(u_max, p_high - p_low);
        lemma_div_pos_is_pos(u_max * (p_high - p), p_high - p_low);
    }
    assert(0 <= dem_value(p_low, p_high, u_max, p));
    assert(dem_value(p_low, p_high, u_max, p) <= u_max);
}

/// A supply schedule's value lies between zero and its `u_max`.
pub proof fn lemma_sup_value_bounds(p_low: int, p_high: int, u_max: int, p: int)
    requires
        0 <= u_max,
    ensures
        0 <= sup_value(p_low, p_high, u_max, p) <= u_max,
{
    if p < p_low {
    } else if p >= p_high {
    } else {
        assert(u_max * (p - p_low) <= u_max * (p_high - p_low)) by (nonlinear_arith)
            requires
                0 <= u_max && p <= p_high,
        ;
        assert(u_max * (p - p_low) >= 0) by (nonlinear_arith)
            requires
                0 <= u_max && p >= p_low,
        ;
        lemma_div_is_ordered(u_max * (p - p_low), u_max * (p_high - p_low), p_high - p_low);
        lemma_div_multiples_vanish(u_max, p_high - p_low);
        lemma_div_pos_is_pos(u_max * (p - p_low), p_high - p_low);
    }
    assert(0 <= sup_value(p_low, p_high, u_max, p));
    assert(sup_value(p_low, p_high, u_max, p) <= u_max);
}

/// Demand is non-increasing in the price.
pub proof fn lemma_dem_value_monotone(p_low: int, p_high: int, u_max: int, p1: int, p2: int)
    requires
        0 <= u_max,
        p1 <= p2,
    ensures
        dem_value(p_low, p_high, u_max, p1) >= dem_value(p_low, p_high, u_max, p2),
{
    lemma_dem_value_bounds(p_low, p_high, u_max, p1);
    lemma_dem_value_bounds(p_low, p_high, u_max, p2);
    if p1 <= p_low || p2 > p_high {
    } else {
        // Both are in the sloped region: the numerators are ordered.
        assert(u_max * (p_high - p2) <= u_max * (p_high - p1)) by (nonlinear_arith)
            requires
                0 <= u_max && p1 <= p2,
        ;
        lemma_div_is_ordered(u_max * (p_high - p2), u_max * (p_high - p1), p_high - p_low);
    }
}

/// Supply is non-decreasing in the price.
pub proof fn lemma_sup_value_monotone(p_low: int, p_high: int, u_max: int, p1: int, p2: int)
    requires
        0 <= u_max,
        p1 <= p2,
    ensures
        sup_value(p_low, p_high, u_max, p1) <= sup_value(p_low, p_high, u_max, p2),
{
    lemma_sup_value_bounds(p_low, p_high, u_max, p1);
    lemma_sup_value_bounds(p_low, p_high, u_max, p2);
    if p1 < p_low || p2 >= p_high {
    } else {
        assert(u_max * (p1 - p_low) <= u_max * (p2 - p_low)) by (nonlinear_arith)
            requires
                0 <= u_max && p1 <= p2,
        ;
        lemma_div_is_ordered(u_max * (p1 - p_low), u_max * (p2 - p_low), p_high - p_low);
    }
}

} // verus!
