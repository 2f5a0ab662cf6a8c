//! Laws of the token amounts between two prices: a target that lies further
//! away costs more and pays more, where the liquidity is large enough to
//! tell the two targets apart.

use vstd::prelude::*;
use crate::full_math::{
    ceil_div,
    lemma_below_ceil_div,
    lemma_ceil_div_bounds,
    lemma_floor_div_bounds,
    lemma_floor_div_greatest,
};
use crate::liquidity_math::{delta_amount_0, delta_amount_1};
use crate::swap_laws::lemma_next_price_between;
use crate::swap_math::{compute_swap_step_spec, step_budget};
use crate::wide::pow64;

verus! {

/// Two rounded-down quotients lie at least `k` apart where the dividends,
/// each multiplied by the other's divisor, lie `k` products of the divisors
/// apart.
pub proof fn lemma_floor_quotients_apart(x: nat, a: nat, y: nat, b: nat, k: nat)
    requires
        a > 0,
        b > 0,
        y * a >= x * b + k * a * b,
    ensures
        y / b >= x / a + k,
{
    let q = x / a;
    lemma_floor_div_bounds(x, a);
    assert((q + k) * b <= y) by (nonlinear_arith)
        requires
            q * a <= x,
            y * a >= x * b + k * a * b,
            a > 0,
            b > 0,
    ;
    lemma_floor_div_greatest(y, b, q + k);
}

/// The same of two rounded-up quotients.
pub proof fn lemma_ceil_quotients_apart(x: nat, a: nat, y: nat, b: nat, k: nat)
    requires
        a > 0,
        b > 0,
        y * a >= x * b + k * a * b,
    ensures
        ceil_div(y, b) >= ceil_div(x, a) + k,
{
    let c = ceil_div(x, a);
    let e = ceil_div(y, b);
    lemma_ceil_div_bounds(y, b);
    if e < c + k {
        if c > 0 {
            lemma_below_ceil_div(x, a, (c - 1) as nat);
            assert(false) by (nonlinear_arith)
                requires
                    (c - 1) * a < x,
                    y <= e * b,
                    e <= c + k - 1,
                    y * a >= x * b + k * a * b,
                    a > 0,
                    b > 0,
                    c > 0,
            ;
        } else {
            assert(false) by (nonlinear_arith)
                requires
                    y <= e * b,
                    e < k,
                    y * a >= x * b + k * a * b,
                    a > 0,
                    b > 0,
            ;
        }
    }
}

/// The amount of token 1 up to a higher price is larger, where the liquidity
/// times the difference of the two prices is at least `2^64`.
pub proof fn lemma_delta_amount_1_rises(lo: nat, nearer: nat, farther: nat, liq: nat, round_up: bool)
    requires
        lo <= nearer < farther,
        liq * (farther - nearer) >= pow64(),
    ensures
        delta_amount_1(lo, nearer, liq, round_up) < delta_amount_1(lo, farther, liq, round_up),
{
    let q = pow64();
    let x = liq * ((nearer - lo) as nat);
    let y = liq * ((farther - lo) as nat);
    assert(y * q >= x * q + 1 * q * q) by (nonlinear_arith)
        requires
            x == liq * (nearer - lo),
            y == liq * (farther - lo),
            liq * (farther - nearer) >= q,
            q > 0,
    ;
    if round_up {
        lemma_ceil_quotients_apart(x, q, y, q, 1);
    } else {
        lemma_floor_quotients_apart(x, q, y, q, 1);
    }
}

/// The amount of token 0 up to a higher price is larger, where the liquidity
/// times `2^64` times the difference of the two prices is at least the
/// product of the two prices.
pub proof fn lemma_delta_amount_0_rises(lo: nat, nearer: nat, farther: nat, liq: nat, round_up: bool)
    requires
        0 < lo <= nearer < farther,
        liq * pow64() * (farther - nearer) >= nearer * farther,
    ensures
        delta_amount_0(lo, nearer, liq, round_up) < delta_amount_0(lo, farther, liq, round_up),
{
    let n = liq * pow64();
    let x = n * ((nearer - lo) as nat);
    let y = n * ((farther - lo) as nat);
    assert(y * nearer >= x * farther + lo * nearer * farther) by (nonlinear_arith)
        requires
            x == n * (nearer - lo),
            y == n * (farther - lo),
            n * (farther - nearer) >= nearer * farther,
            0 < lo <= nearer < farther,
    ;
    if round_up {
        lemma_ceil_quotients_apart(x, nearer, y, farther, lo);
        let inner_near = ceil_div(x, nearer);
        let inner_far = ceil_div(y, farther);
        assert(inner_far * lo >= inner_near * lo + 1 * lo * lo) by (nonlinear_arith)
            requires
                inner_far >= inner_near + lo,
                lo > 0,
        ;
        lemma_ceil_quotients_apart(inner_near, lo, inner_far, lo, 1);
    } else {
        lemma_floor_quotients_apart(x, nearer, y, farther, lo);
        let inner_near = x / nearer;
        let inner_far = y / farther;
        assert(inner_far * lo >= inner_near * lo + 1 * lo * lo) by (nonlinear_arith)
            requires
                inner_far >= inner_near + lo,
                lo > 0,
        ;
        lemma_floor_quotients_apart(inner_near, lo, inner_far, lo, 1);
    }
}

/// Of two exact-input steps upward from one price that reach their targets,
/// the step to the target further up takes in more and gives out more,
/// where the liquidity is large enough to tell the two targets apart.
pub proof fn lemma_step_amounts_rise_with_target(
    cur: u128,
    nearer: u128,
    farther: u128,
    liq: u128,
    amount_remaining: u64,
    fee_rate: u32,
)
    requires
        0 < cur < nearer < farther,
        liq * (farther - nearer) >= pow64(),
        liq * pow64() * (farther - nearer) >= nearer * farther,
        compute_swap_step_spec(cur, nearer, liq, amount_remaining, fee_rate, true, false) is Ok,
        compute_swap_step_spec(cur, farther, liq, amount_remaining, fee_rate, true, false) is Ok,
        compute_swap_step_spec(
            cur,
            nearer,
            liq,
            amount_remaining,
            fee_rate,
            true,
            false,
        ).unwrap().sqrt_price_next_x64 == nearer,
        compute_swap_step_spec(
            cur,
            farther,
            liq,
            amount_remaining,
            fee_rate,
            true,
            false,
        ).unwrap().sqrt_price_next_x64 == farther,
    ensures
        ({
            let near = compute_swap_step_spec(
                cur,
                nearer,
                liq,
                amount_remaining,
                fee_rate,
                true,
                false,
            ).unwrap();
            let far = compute_swap_step_spec(
                cur,
                farther,
                liq,
                amount_remaining,
                fee_rate,
                true,
                false,
            ).unwrap();
            &&& near.amount_in < far.amount_in
            &&& near.amount_out < far.amount_out
        }),
{
    let budget = step_budget(amount_remaining, fee_rate, true);
    lemma_next_price_between(cur, nearer, liq, budget, true, false);
    lemma_next_price_between(cur, farther, liq, budget, true, false);
    lemma_delta_amount_1_rises(cur as nat, nearer as nat, farther as nat, liq as nat, true);
    lemma_delta_amount_0_rises(cur as nat, nearer as nat, farther as nat, liq as nat, false);
}

} // verus!
