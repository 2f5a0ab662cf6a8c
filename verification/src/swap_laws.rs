//! What holds of every swap step: the price stays between the current price
//! and the target, and an exact-input step never takes more than it was given.

use vstd::prelude::*;
use crate::full_math::{
    ceil_div,
    mul_div_ceil,
    mul_div_floor,
    lemma_below_ceil_div,
    lemma_ceil_div_bounds,
    lemma_ceil_div_least,
    lemma_floor_div_bounds,
    lemma_within_floor_div,
};
use crate::liquidity_math::{delta_amount_0, delta_amount_1, price_max, price_min};
use crate::sqrt_price_math::next_price_from_output_spec;
use crate::swap_math::{
    FEE_RATE_DENOMINATOR_VALUE,
    amount_in_range_spec,
    compute_swap_step_spec,
    limit_or_zero,
    step_budget,
    step_next_price,
    step_reaches_target,
    step_settle,
};
use crate::wide::pow64;

verus! {

/// Token 0 in, price falling: an input below the amount that the whole way
/// down to `tgt` takes leaves the price strictly above `tgt`.
pub proof fn lemma_input_0_stops_short(n: nat, cur: nat, tgt: nat, b: nat)
    requires
        0 < tgt < cur,
        b < ceil_div(mul_div_ceil(n, (cur - tgt) as nat, cur), tgt),
    ensures
        n + b * cur > 0,
        tgt < mul_div_ceil(n, cur, n + b * cur) <= cur,
{
    let gap = (cur - tgt) as nat;
    let inner = mul_div_ceil(n, gap, cur);
    lemma_below_ceil_div(inner, tgt, b);
    lemma_below_ceil_div(n * gap, cur, b * tgt);
    assert(n > 0) by (nonlinear_arith)
        requires
            (b * tgt) * cur < n * gap,
            b >= 0,
            tgt > 0,
            cur > 0,
            gap >= 0,
            n >= 0,
    ;
    let den = n + b * cur;
    assert(den > 0) by (nonlinear_arith)
        requires
            den == n + b * cur,
            n > 0,
            b >= 0,
            cur > 0,
    ;
    let x = mul_div_ceil(n, cur, den);
    lemma_ceil_div_bounds(n * cur, den);
    assert(tgt * den < n * cur) by (nonlinear_arith)
        requires
            (b * tgt) * cur < n * gap,
            gap == cur - tgt,
            den == n + b * cur,
    ;
    assert(tgt < x) by (nonlinear_arith)
        requires
            tgt * den < n * cur,
            n * cur <= x * den,
            den > 0,
            x >= 0,
            tgt >= 0,
    ;
    crate::sqrt_price_math::lemma_added_amount_0_lowers_price(n, cur, b);
}

/// Token 1 in, price rising: an input below the amount that the whole way up
/// to `tgt` takes leaves the price strictly below `tgt`.
pub proof fn lemma_input_1_stops_short(liq: nat, cur: nat, tgt: nat, b: nat)
    requires
        cur < tgt,
        liq > 0,
        b < mul_div_ceil(liq, (tgt - cur) as nat, pow64()),
    ensures
        cur + (b * pow64()) / liq < tgt,
{
    let gap = (tgt - cur) as nat;
    lemma_below_ceil_div(liq * gap, pow64(), b);
    let q = (b * pow64()) / liq;
    lemma_floor_div_bounds(b * pow64(), liq);
    assert(q < gap) by (nonlinear_arith)
        requires
            q * liq <= b * pow64(),
            b * pow64() < liq * gap,
            liq > 0,
    ;
}

/// Token 1 out, price falling: an output below the amount that the whole way
/// down to `tgt` gives leaves the price at or above `tgt`.
pub proof fn lemma_output_1_stops_short(liq: nat, cur: nat, tgt: nat, b: nat)
    requires
        tgt < cur,
        liq > 0,
        b < mul_div_floor(liq, (cur - tgt) as nat, pow64()),
    ensures
        ceil_div(b * pow64(), liq) <= cur - tgt,
{
    let gap = (cur - tgt) as nat;
    lemma_within_floor_div(liq * gap, pow64(), b + 1);
    assert(gap * liq >= b * pow64()) by (nonlinear_arith)
        requires
            (b + 1) * pow64() <= liq * gap,
    ;
    lemma_ceil_div_least(b * pow64(), liq, gap);
}

/// Token 0 out, price rising: an output below the amount that the whole way
/// up to `tgt` gives leaves the price at or below `tgt`, and not below `cur`.
pub proof fn lemma_output_0_stops_short(n: nat, cur: nat, tgt: nat, b: nat)
    requires
        0 < cur < tgt,
        b < mul_div_floor(n, (tgt - cur) as nat, tgt) / cur,
    ensures
        n > b * cur,
        cur <= mul_div_ceil(n, cur, (n - b * cur) as nat) <= tgt,
{
    let gap = (tgt - cur) as nat;
    let inner = mul_div_floor(n, gap, tgt);
    lemma_within_floor_div(inner, cur, b + 1);
    lemma_floor_div_bounds(n * gap, tgt);
    assert((b + 1) * cur * tgt <= n * gap) by (nonlinear_arith)
        requires
            (b + 1) * cur <= inner,
            inner * tgt <= n * gap,
            tgt > 0,
    ;
    assert(n > b * cur) by (nonlinear_arith)
        requires
            (b + 1) * cur * tgt <= n * gap,
            gap == tgt - cur,
            cur > 0,
            tgt > cur,
            b >= 0,
            n >= 0,
    ;
    let den = (n - b * cur) as nat;
    assert(tgt * den >= n * cur) by (nonlinear_arith)
        requires
            (b + 1) * cur * tgt <= n * gap,
            gap == tgt - cur,
            den == n - b * cur,
            cur > 0,
            tgt > 0,
            b >= 0,
    ;
    lemma_ceil_div_least(n * cur, den, tgt);
    let x = mul_div_ceil(n, cur, den);
    lemma_ceil_div_bounds(n * cur, den);
    assert(cur <= x) by (nonlinear_arith)
        requires
            n * cur <= x * den,
            den <= n,
            den > 0,
            cur >= 0,
            x >= 0,
    ;
}

/// The price at the end of a step lies between the current price and the
/// target, and an exact-input step ends at the target only where its budget
/// covers the whole way.
///
/// The direction must be the one in which the target lies.
pub proof fn lemma_next_price_between(
    cur: u128,
    tgt: u128,
    liq: u128,
    budget: u64,
    is_base_input: bool,
    zero_for_one: bool,
)
    requires
        cur != tgt,
        zero_for_one == (tgt < cur),
        amount_in_range_spec(cur, tgt, liq, zero_for_one, is_base_input).is_ok(),
        step_next_price(
            cur,
            tgt,
            liq,
            amount_in_range_spec(cur, tgt, liq, zero_for_one, is_base_input).unwrap(),
            budget,
            is_base_input,
            zero_for_one,
        ).is_ok(),
    ensures
        ({
            let limit = amount_in_range_spec(cur, tgt, liq, zero_for_one, is_base_input).unwrap();
            let next = step_next_price(
                cur,
                tgt,
                liq,
                limit,
                budget,
                is_base_input,
                zero_for_one,
            ).unwrap();
            &&& price_min(cur, tgt) <= next <= price_max(cur, tgt)
            &&& is_base_input && !step_reaches_target(limit, budget) ==> next != tgt
        }),
{
    let limit = amount_in_range_spec(cur, tgt, liq, zero_for_one, is_base_input).unwrap();
    let next = step_next_price(cur, tgt, liq, limit, budget, is_base_input, zero_for_one).unwrap();
    let n = liq as nat * pow64();
    let b = budget as nat;
    if step_reaches_target(limit, budget) {
    } else if is_base_input {
        if zero_for_one {
            assert(b < delta_amount_0(tgt as nat, cur as nat, liq as nat, true));
            if budget != 0 {
                lemma_input_0_stops_short(n, cur as nat, tgt as nat, b);
            }
        } else {
            assert(b < delta_amount_1(cur as nat, tgt as nat, liq as nat, true));
            lemma_input_1_stops_short(liq as nat, cur as nat, tgt as nat, b);
        }
    } else {
        if zero_for_one {
            assert(b < delta_amount_1(tgt as nat, cur as nat, liq as nat, false));
            lemma_output_1_stops_short(liq as nat, cur as nat, tgt as nat, b);
        } else {
            assert(b < delta_amount_0(cur as nat, tgt as nat, liq as nat, false));
            if budget != 0 {
                lemma_output_0_stops_short(n, cur as nat, tgt as nat, b);
            }
        }
    }
}

/// Every step that succeeds ends at a price between the current price and the
/// target price, both included.
///
/// The direction must be the one in which the target lies.
pub proof fn lemma_step_price_between(
    cur: u128,
    tgt: u128,
    liq: u128,
    amount_remaining: u64,
    fee_rate: u32,
    is_base_input: bool,
    zero_for_one: bool,
)
    requires
        cur != tgt,
        zero_for_one == (tgt < cur),
        compute_swap_step_spec(
            cur,
            tgt,
            liq,
            amount_remaining,
            fee_rate,
            is_base_input,
            zero_for_one,
        ).is_ok(),
    ensures
        ({
            let step = compute_swap_step_spec(
                cur,
                tgt,
                liq,
                amount_remaining,
                fee_rate,
                is_base_input,
                zero_for_one,
            ).unwrap();
            price_min(cur, tgt) <= step.sqrt_price_next_x64 <= price_max(cur, tgt)
        }),
{
    let budget = step_budget(amount_remaining, fee_rate, is_base_input);
    lemma_next_price_between(cur, tgt, liq, budget, is_base_input, zero_for_one);
}

/// An exact-input step that succeeds uses up all that was left where it stops
/// short of the target, and no more than that where it reaches the target:
/// `amount_in + fee_amount == amount_remaining` in the first case and
/// `amount_in + fee_amount <= amount_remaining` in the second.
///
/// The direction must be the one in which the target lies.
pub proof fn lemma_exact_input_uses_budget(
    cur: u128,
    tgt: u128,
    liq: u128,
    amount_remaining: u64,
    fee_rate: u32,
    zero_for_one: bool,
)
    requires
        cur != tgt,
        zero_for_one == (tgt < cur),
        compute_swap_step_spec(cur, tgt, liq, amount_remaining, fee_rate, true, zero_for_one).is_ok(),
    ensures
        ({
            let step = compute_swap_step_spec(
                cur,
                tgt,
                liq,
                amount_remaining,
                fee_rate,
                true,
                zero_for_one,
            ).unwrap();
            &&& step.sqrt_price_next_x64 != tgt ==> step.amount_in + step.fee_amount
                == amount_remaining
            &&& step.sqrt_price_next_x64 == tgt ==> step.amount_in + step.fee_amount
                <= amount_remaining
        }),
{
    let limit = amount_in_range_spec(cur, tgt, liq, zero_for_one, true).unwrap();
    let budget = step_budget(amount_remaining, fee_rate, true);
    let next = step_next_price(cur, tgt, liq, limit, budget, true, zero_for_one).unwrap();
    let step = step_settle(
        cur,
        tgt,
        next,
        liq,
        limit,
        amount_remaining,
        fee_rate,
        true,
        zero_for_one,
    ).unwrap();
    lemma_next_price_between(cur, tgt, liq, budget, true, zero_for_one);
    if next == tgt {
        assert(step_reaches_target(limit, budget));
        let m = limit.unwrap() as nat;
        assert(step.amount_in == m);
        let d = FEE_RATE_DENOMINATOR_VALUE as nat;
        let k = (FEE_RATE_DENOMINATOR_VALUE - fee_rate) as nat;
        let f = fee_rate as nat;
        let rem = amount_remaining as nat;
        crate::swap_math::lemma_amount_less_fee_bounded(amount_remaining, fee_rate);
        lemma_within_floor_div(rem * k, d, m);
        assert(m <= rem);
        assert((rem - m) * k >= m * f) by (nonlinear_arith)
            requires
                m * d <= rem * k,
                d == k + f,
                m <= rem,
        ;
        lemma_ceil_div_least(m * f, k, (rem - m) as nat);
    }
}

/// An exact-output step that succeeds gives out no more than was asked for.
pub proof fn lemma_exact_output_capped(
    cur: u128,
    tgt: u128,
    liq: u128,
    amount_remaining: u64,
    fee_rate: u32,
    zero_for_one: bool,
)
    requires
        compute_swap_step_spec(cur, tgt, liq, amount_remaining, fee_rate, false, zero_for_one).is_ok(),
    ensures
        compute_swap_step_spec(
            cur,
            tgt,
            liq,
            amount_remaining,
            fee_rate,
            false,
            zero_for_one,
        ).unwrap().amount_out <= amount_remaining,
{
    let limit = amount_in_range_spec(cur, tgt, liq, zero_for_one, false).unwrap();
    let next = step_next_price(cur, tgt, liq, limit, amount_remaining, false, zero_for_one).unwrap();
    if next == tgt && !step_reaches_target(limit, amount_remaining) {
        if limit.is_some() {
            assert(limit_or_zero(limit) > amount_remaining);
        }
    }
}

/// An exact-output step that succeeds and stops short of the target gives
/// out all that was asked for.
pub proof fn lemma_exact_output_met(
    cur: u128,
    tgt: u128,
    liq: u128,
    amount_remaining: u64,
    fee_rate: u32,
    zero_for_one: bool,
)
    requires
        compute_swap_step_spec(cur, tgt, liq, amount_remaining, fee_rate, false, zero_for_one).is_ok(),
        compute_swap_step_spec(
            cur,
            tgt,
            liq,
            amount_remaining,
            fee_rate,
            false,
            zero_for_one,
        ).unwrap().sqrt_price_next_x64 != tgt,
    ensures
        compute_swap_step_spec(
            cur,
            tgt,
            liq,
            amount_remaining,
            fee_rate,
            false,
            zero_for_one,
        ).unwrap().amount_out == amount_remaining,
{
    let limit = amount_in_range_spec(cur, tgt, liq, zero_for_one, false).unwrap();
    let next = step_next_price(cur, tgt, liq, limit, amount_remaining, false, zero_for_one).unwrap();
    let b = amount_remaining as nat;
    let n = liq as nat * pow64();
    assert(next == next_price_from_output_spec(cur, liq, amount_remaining, zero_for_one).unwrap());
    if zero_for_one {
        let q = ceil_div(b * pow64(), liq as nat);
        lemma_ceil_div_bounds(b * pow64(), liq as nat);
        assert(liq as nat * q >= b * pow64()) by (nonlinear_arith)
            requires
                b * pow64() <= q * liq as nat,
        ;
        crate::full_math::lemma_floor_div_greatest(liq as nat * q, pow64(), b);
    } else if amount_remaining != 0 {
        let c = cur as nat;
        let den = (n - b * c) as nat;
        let v = mul_div_ceil(n, c, den);
        lemma_ceil_div_bounds(n * c, den);
        assert(c <= v) by (nonlinear_arith)
            requires
                n * c <= v * den,
                den <= n,
                den > 0,
                c >= 0,
                v >= 0,
        ;
        let gap = (v - c) as nat;
        assert(n * gap >= (b * c) * v) by (nonlinear_arith)
            requires
                n * c <= v * den,
                den == n - b * c,
                gap == v - c,
        ;
        crate::full_math::lemma_floor_div_greatest(n * gap, v, b * c);
        crate::full_math::lemma_floor_div_greatest(mul_div_floor(n, gap, v), c, b);
    }
}

/// An exact-input step that succeeds and stops short of the target uses up
/// all that was left, whatever the direction.
pub proof fn lemma_exact_input_exhausts(
    cur: u128,
    tgt: u128,
    liq: u128,
    amount_remaining: u64,
    fee_rate: u32,
    zero_for_one: bool,
)
    requires
        compute_swap_step_spec(cur, tgt, liq, amount_remaining, fee_rate, true, zero_for_one).is_ok(),
        compute_swap_step_spec(
            cur,
            tgt,
            liq,
            amount_remaining,
            fee_rate,
            true,
            zero_for_one,
        ).unwrap().sqrt_price_next_x64 != tgt,
    ensures
        ({
            let step = compute_swap_step_spec(
                cur,
                tgt,
                liq,
                amount_remaining,
                fee_rate,
                true,
                zero_for_one,
            ).unwrap();
            step.amount_in + step.fee_amount == amount_remaining
        }),
{
}

} // verus!
