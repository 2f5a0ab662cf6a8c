//! The tick/price oracle is strictly monotone, and the tick of a price is the
//! greatest tick whose price does not exceed it.

use vstd::prelude::*;
use vstd::arithmetic::div_mod::{
    lemma_breakdown,
    lemma_div_is_ordered,
    lemma_fundamental_div_mod,
    lemma_fundamental_div_mod_converse,
    lemma_mod_bound,
    lemma_small_mod,
};
use vstd::arithmetic::power2::{pow2, lemma2_to64, lemma_pow2_pos, lemma_pow2_unfold};
use crate::full_math::{lemma_floor_div_bounds, lemma_floor_div_greatest};
use crate::tick_math::{
    MAX_SQRT_PRICE_X64,
    MAX_TICK,
    MIN_SQRT_PRICE_X64,
    MIN_TICK,
    is_tick_of_price,
    ladder,
    ladder_factor,
    ladder_floor,
    lemma_factor_below_one,
    lemma_ladder_bounds,
    lemma_ladder_floor_values,
    lemma_price_at_extremes,
    sqrt_price_at_tick,
    tick_bit,
    tick_in_range,
};
use crate::wide::{pow64, pow128};

verus! {

/// The ratios of two neighbouring ticks differ by about one part in this many.
pub open spec fn gap_scale() -> nat {
    20002
}

/// `x` exceeds `y` by at least `x / gap_scale()`, less a slack of `s`.
pub open spec fn gap_holds(x: nat, y: nat, s: nat) -> bool {
    y <= x && gap_scale() * (x - y) + s * gap_scale() >= x
}

/// Multiplying both numbers by one factor and dropping 64 bits costs the gap
/// one unit of slack.
proof fn lemma_gap_survives_factor(x: nat, y: nat, s: nat, f: nat)
    requires
        gap_holds(x, y, s),
        f <= pow64(),
    ensures
        gap_holds(x * f / pow64(), y * f / pow64(), s + 1),
{
    let q = pow64();
    let m = gap_scale();
    let xf = x * f;
    let yf = y * f;
    let sf = s * f;
    let x2 = xf / q;
    let y2 = yf / q;
    lemma_floor_div_bounds(xf, q);
    lemma_floor_div_bounds(yf, q);
    assert(yf <= xf) by (nonlinear_arith)
        requires
            yf == y * f,
            xf == x * f,
            y <= x,
            f >= 0,
    ;
    lemma_div_is_ordered(yf as int, xf as int, q as int);
    assert(m * (xf - yf) + m * sf >= xf) by (nonlinear_arith)
        requires
            m * (x - y) + s * m >= x,
            xf == x * f,
            yf == y * f,
            sf == s * f,
            f >= 0,
    ;
    assert(sf <= s * q) by (nonlinear_arith)
        requires
            sf == s * f,
            f <= q,
            s >= 0,
    ;
    assert((x2 + 1) * q == x2 * q + q) by (nonlinear_arith);
    assert(m * (x2 - y2) + (s + 1) * m >= x2) by (nonlinear_arith)
        requires
            x2 * q <= xf,
            xf < x2 * q + q,
            y2 * q <= yf,
            m * (xf - yf) + m * sf >= xf,
            sf <= s * q,
            q > 0,
            m > 0,
            y2 <= x2,
    ;
}

/// The lowest `i + 1` digits of a number: its lowest `i` digits and digit `i`.
proof fn lemma_low_digits_split(a: nat, i: nat)
    ensures
        a % pow2(i + 1) == a % pow2(i) + (if tick_bit(a, i) {
            pow2(i)
        } else {
            0
        }),
        a % pow2(i) < pow2(i),
{
    let p = pow2(i);
    lemma_pow2_pos(i);
    lemma_pow2_unfold(i + 1);
    lemma_breakdown(a as int, p as int, 2);
    lemma_mod_bound(a as int, p as int);
    let b = (a / p) % 2;
    assert(p * b == (if b == 1 {
        p
    } else {
        0
    })) by (nonlinear_arith)
        requires
            b == 0 || b == 1,
    ;
    assert(p * 2 == pow2(i + 1));
}

/// The digits of a number's successor: either the lowest `i` digits go up by
/// one and digit `i` stays, or they wrap to zero and digit `i` flips.
proof fn lemma_successor_digits(a: nat, i: nat)
    ensures
        a % pow2(i) != pow2(i) - 1 ==> tick_bit(a + 1, i) == tick_bit(a, i) && (a + 1) % pow2(i)
            == a % pow2(i) + 1,
        a % pow2(i) == pow2(i) - 1 ==> tick_bit(a + 1, i) == !tick_bit(a, i) && (a + 1) % pow2(i)
            == 0,
{
    let p = pow2(i);
    lemma_pow2_pos(i);
    lemma_fundamental_div_mod(a as int, p as int);
    lemma_mod_bound(a as int, p as int);
    let q = a / p;
    let r = a % p;
    assert(p * q == q * p) by (nonlinear_arith);
    if r != p - 1 {
        lemma_fundamental_div_mod_converse((a + 1) as int, p as int, q as int, (r + 1) as int);
    } else {
        assert((q + 1) * p == q * p + p) by (nonlinear_arith);
        lemma_fundamental_div_mod_converse((a + 1) as int, p as int, (q + 1) as int, 0);
    }
}

/// A number whose lowest `i` digits are all set has the smallest ratio.
proof fn lemma_ladder_all_digits(a: nat, i: nat)
    requires
        a % pow2(i) == pow2(i) - 1,
    ensures
        ladder(a, i) == ladder_floor(i),
    decreases i,
{
    if i > 0 {
        let j = (i - 1) as nat;
        lemma_low_digits_split(a, j);
        lemma_pow2_unfold(i);
        lemma_ladder_all_digits(a, j);
    }
}

/// A number whose lowest `i` digits are all clear has the ratio `2^64`.
proof fn lemma_ladder_no_digits(a: nat, i: nat)
    requires
        a % pow2(i) == 0,
    ensures
        ladder(a, i) == pow64(),
    decreases i,
{
    if i > 0 {
        let j = (i - 1) as nat;
        lemma_low_digits_split(a, j);
        lemma_pow2_pos(j);
        lemma_ladder_no_digits(a, j);
    }
}

/// The all-digits-set ratio of `i` digits exceeds the factor of digit `i` by
/// the gap.
proof fn lemma_first_gaps(i: nat)
    requires
        i < 19,
    ensures
        gap_holds(ladder_floor(i), ladder_factor(i), 0),
{
    lemma_ladder_floor_values();
}

/// After `i` digits, the ratio of a number exceeds that of its successor by
/// the gap, with a slack of `i`, unless the successor differs beyond digit `i`.
proof fn lemma_successor_gap(a: nat, i: nat)
    requires
        i <= 19,
        a % pow2(i) != pow2(i) - 1,
    ensures
        gap_holds(ladder(a, i), ladder(a + 1, i), i),
    decreases i,
{
    if i == 0 {
        lemma2_to64();
        assert(a % 1 == 0);
    } else {
        let j = (i - 1) as nat;
        lemma_low_digits_split(a, j);
        lemma_successor_digits(a, j);
        lemma_pow2_unfold(i);
        lemma_pow2_pos(j);
        lemma_factor_below_one(j);
        let f = ladder_factor(j);
        if a % pow2(j) != pow2(j) - 1 {
            lemma_successor_gap(a, j);
            if tick_bit(a, j) {
                lemma_gap_survives_factor(ladder(a, j), ladder(a + 1, j), j, f);
            }
        } else {
            lemma_ladder_all_digits(a, j);
            lemma_ladder_no_digits(a + 1, j);
            lemma_first_gaps(j);
            assert(pow64() * f / pow64() == f) by (nonlinear_arith)
                requires
                    pow64() > 0,
            ;
        }
    }
}

/// The ratio of a tick's magnitude falls by at least two from one magnitude
/// to the next.
pub proof fn lemma_ratio_decreases(a: nat)
    requires
        a < MAX_TICK,
    ensures
        ladder(a + 1, 19) + 2 <= ladder(a, 19),
        0 < ladder(a + 1, 19),
        ladder(a, 19) <= pow64(),
{
    lemma2_to64();
    assert(pow2(19) == 0x80000) by {
        lemma_pow2_unfold(19);
        lemma_pow2_unfold(18);
        lemma_pow2_unfold(17);
    }
    lemma_small_mod(a, pow2(19));
    lemma_successor_gap(a, 19);
    lemma_ladder_bounds(a, 19);
    lemma_ladder_bounds(a + 1, 19);
    lemma_ladder_floor_values();
}

/// The price of a tick is below the price of the next tick.
pub proof fn lemma_price_step(tick: int)
    requires
        MIN_TICK <= tick < MAX_TICK,
    ensures
        sqrt_price_at_tick(tick) < sqrt_price_at_tick(tick + 1),
{
    if tick < 0 {
        lemma_ratio_decreases((-tick - 1) as nat);
    } else {
        lemma_ratio_decreases(tick as nat);
        let top = (pow128() - 1) as nat;
        let x = ladder(tick as nat, 19);
        let y = ladder((tick + 1) as nat, 19);
        let qy = top / y;
        lemma_floor_div_bounds(top, y);
        if tick == 0 {
            lemma_pow2_pos(19);
            lemma_ladder_no_digits(0, 19);
            assert(qy > pow64()) by (nonlinear_arith)
                requires
                    top < (qy + 1) * y,
                    y + 2 <= pow64(),
                    top == pow128() - 1,
                    pow64() * pow64() == pow128(),
                    y > 0,
                    qy >= 0,
            ;
        } else {
            let qx = top / x;
            lemma_floor_div_bounds(top, x);
            assert(qx + 2 > pow64()) by (nonlinear_arith)
                requires
                    top < (qx + 1) * x,
                    x <= pow64(),
                    top == pow128() - 1,
                    pow64() * pow64() == pow128(),
                    x > 0,
                    qx >= 0,
            ;
            assert((qx + 1) * y <= top) by (nonlinear_arith)
                requires
                    qx * x <= top,
                    y + 2 <= x,
                    x <= pow64(),
                    qx + 2 > pow64(),
                    y > 0,
            ;
            lemma_floor_div_greatest(top, y, qx + 1);
        }
    }
}

/// The square-root price grows strictly with the tick.
pub proof fn lemma_sqrt_price_strictly_monotone(t1: int, t2: int)
    requires
        MIN_TICK <= t1 < t2 <= MAX_TICK,
    ensures
        sqrt_price_at_tick(t1) < sqrt_price_at_tick(t2),
    decreases t2 - t1,
{
    lemma_price_step(t2 - 1);
    if t1 < t2 - 1 {
        lemma_sqrt_price_strictly_monotone(t1, t2 - 1);
    }
}

/// Every tick's price lies between the two extreme prices.
pub proof fn lemma_sqrt_price_in_range(tick: int)
    requires
        tick_in_range(tick),
    ensures
        MIN_SQRT_PRICE_X64 <= sqrt_price_at_tick(tick) <= MAX_SQRT_PRICE_X64,
{
    lemma_price_at_extremes();
    if tick > MIN_TICK {
        lemma_sqrt_price_strictly_monotone(MIN_TICK as int, tick);
    }
    if tick < MAX_TICK {
        lemma_sqrt_price_strictly_monotone(tick, MAX_TICK as int);
    }
}

/// The tick of a price is the greatest tick whose price does not exceed it.
pub proof fn lemma_tick_of_price_is_greatest(tick: int, price: nat, other: int)
    requires
        is_tick_of_price(tick, price),
        tick_in_range(other),
        sqrt_price_at_tick(other) <= price,
    ensures
        other <= tick,
{
    if other > tick {
        if other > tick + 1 {
            lemma_sqrt_price_strictly_monotone(tick + 1, other);
        }
    }
}

/// The tick of a tick's own price is that tick: looking a price up undoes
/// computing it.
pub proof fn lemma_tick_of_price_inverts(tick: int, found: int)
    requires
        tick_in_range(tick),
        is_tick_of_price(found, sqrt_price_at_tick(tick)),
    ensures
        found == tick,
{
    lemma_tick_of_price_is_greatest(found, sqrt_price_at_tick(tick), tick);
    if found > tick {
        lemma_sqrt_price_strictly_monotone(tick, found);
    }
}

/// A price has one tick: where one tick is the tick of a price, whatever is
/// chosen as the tick of that price is the same tick.
pub proof fn lemma_tick_of_price_unique(tick: int, chosen: int, price: nat)
    requires
        is_tick_of_price(tick, price),
        chosen == crate::tick_math::tick_at_sqrt_price(price),
    ensures
        chosen == tick,
{
    assert(is_tick_of_price(chosen, price));
    lemma_tick_of_price_is_greatest(tick, price, chosen);
    lemma_tick_of_price_is_greatest(chosen, price, tick);
}

} // verus!
