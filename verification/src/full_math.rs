//! Multiply-then-divide with a chosen rounding, on 64-, 128- and 256-bit
//! operands. The product is always formed at full width, so the only failures
//! are a zero divisor and a quotient too large for the operand type.

use vstd::prelude::*;
use vstd::arithmetic::div_mod::{
    lemma_fundamental_div_mod,
    lemma_fundamental_div_mod_converse,
    lemma_mod_bound,
};
use crate::wide::{U256, mul_u128, pow256, lemma_product_bound};

verus! {

/// The quotient rounded up: the least `q` with `q * d >= n`.
pub open spec fn ceil_div(n: nat, d: nat) -> nat {
    if n % d == 0 {
        n / d
    } else {
        n / d + 1
    }
}

/// `floor(a * b / d)`.
pub open spec fn mul_div_floor(a: nat, b: nat, d: nat) -> nat {
    (a * b) / d
}

/// `ceil(a * b / d)`.
pub open spec fn mul_div_ceil(a: nat, b: nat, d: nat) -> nat {
    ceil_div(a * b, d)
}

/// The rounded-down quotient is the largest `q` with `q * d <= n`.
pub proof fn lemma_floor_div_bounds(n: nat, d: nat)
    requires
        d > 0,
    ensures
        (n / d) * d <= n < (n / d + 1) * d,
{
    lemma_fundamental_div_mod(n as int, d as int);
    lemma_mod_bound(n as int, d as int);
    assert((n / d + 1) * d == (n / d) * d + d) by (nonlinear_arith);
    assert(d * (n / d) == (n / d) * d) by (nonlinear_arith);
}

/// Any `q` with `q * d <= n` is at most the rounded-down quotient.
pub proof fn lemma_floor_div_greatest(n: nat, d: nat, q: nat)
    requires
        d > 0,
        q * d <= n,
    ensures
        q <= n / d,
{
    lemma_floor_div_bounds(n, d);
    assert(q < n / d + 1) by (nonlinear_arith)
        requires
            q * d < (n / d + 1) * d,
            d > 0,
    ;
}

/// The rounded-up quotient is the least `q` with `q * d >= n`.
pub proof fn lemma_ceil_div_bounds(n: nat, d: nat)
    requires
        d > 0,
    ensures
        n <= ceil_div(n, d) * d < n + d,
        ceil_div(n, d) == (n + d - 1) / (d as int),
{
    lemma_fundamental_div_mod(n as int, d as int);
    lemma_mod_bound(n as int, d as int);
    let q = n / d;
    let r = n % d;
    assert(d * q == q * d) by (nonlinear_arith);
    assert((q + 1) * d == q * d + d) by (nonlinear_arith);
    if r == 0 {
        lemma_fundamental_div_mod_converse(n + d - 1, d as int, q as int, d - 1);
    } else {
        assert(n + d - 1 == (q + 1) * d + (r - 1));
        assert(d * (q + 1) == (q + 1) * d) by (nonlinear_arith);
        lemma_fundamental_div_mod_converse(n + d - 1, d as int, (q + 1) as int, r - 1);
    }
}

/// Any `q` with `q * d >= n` is at least the rounded-up quotient.
pub proof fn lemma_ceil_div_least(n: nat, d: nat, q: nat)
    requires
        d > 0,
        q * d >= n,
    ensures
        ceil_div(n, d) <= q,
{
    lemma_ceil_div_bounds(n, d);
    let c = ceil_div(n, d);
    assert(c < q + 1) by (nonlinear_arith)
        requires
            c * d < n + d,
            n <= q * d,
            d > 0,
    ;
}

/// `floor(a * b / d)` on 64-bit operands, or `None` where `d` is zero or the
/// quotient exceeds `u64::MAX`.
pub fn mul_div_floor_u64(a: u64, b: u64, d: u64) -> (r: Option<u64>)
    ensures
        d != 0 && mul_div_floor(a as nat, b as nat, d as nat) <= u64::MAX <==> r.is_some(),
        r.is_some() ==> r.unwrap() == mul_div_floor(a as nat, b as nat, d as nat),
{
    if d == 0 {
        return None;
    }
    proof {
        lemma_product_bound(a as int, b as int, u64::MAX as int, u64::MAX as int);
    }
    let p: u128 = (a as u128) * (b as u128);
    let q: u128 = p / (d as u128);
    if q > u64::MAX as u128 {
        None
    } else {
        Some(q as u64)
    }
}

/// `ceil(a * b / d)` on 64-bit operands, or `None` where `d` is zero or the
/// quotient exceeds `u64::MAX`.
pub fn mul_div_ceil_u64(a: u64, b: u64, d: u64) -> (r: Option<u64>)
    ensures
        d != 0 && mul_div_ceil(a as nat, b as nat, d as nat) <= u64::MAX <==> r.is_some(),
        r.is_some() ==> r.unwrap() == mul_div_ceil(a as nat, b as nat, d as nat),
{
    if d == 0 {
        return None;
    }
    proof {
        lemma_product_bound(a as int, b as int, u64::MAX as int, u64::MAX as int);
    }
    let p: u128 = (a as u128) * (b as u128);
    let q: u128 = p / (d as u128);
    let q: u128 = if p % (d as u128) == 0 { q } else { q + 1 };
    if q > u64::MAX as u128 {
        None
    } else {
        Some(q as u64)
    }
}

/// `floor(a * b / d)` on 128-bit operands, or `None` where `d` is zero or the
/// quotient exceeds `u128::MAX`.
pub fn mul_div_floor_u128(a: u128, b: u128, d: u128) -> (r: Option<u128>)
    ensures
        d != 0 && mul_div_floor(a as nat, b as nat, d as nat) <= u128::MAX <==> r.is_some(),
        r.is_some() ==> r.unwrap() == mul_div_floor(a as nat, b as nat, d as nat),
{
    let p = mul_u128(a, b);
    match p.div_rem(&U256::from_u128(d)) {
        None => None,
        Some((q, _)) => q.checked_as_u128(),
    }
}

/// `ceil(a * b / d)` on 128-bit operands, or `None` where `d` is zero or the
/// quotient exceeds `u128::MAX`.
pub fn mul_div_ceil_u128(a: u128, b: u128, d: u128) -> (r: Option<u128>)
    ensures
        d != 0 && mul_div_ceil(a as nat, b as nat, d as nat) <= u128::MAX <==> r.is_some(),
        r.is_some() ==> r.unwrap() == mul_div_ceil(a as nat, b as nat, d as nat),
{
    let p = mul_u128(a, b);
    match p.div_rounding_up(&U256::from_u128(d)) {
        None => None,
        Some(q) => q.checked_as_u128(),
    }
}

impl U256 {
    /// `floor(self * num / denom)`, or `None` where `denom` is zero or the
    /// quotient does not fit 256 bits.
    pub fn mul_div_floor(&self, num: &U256, denom: &U256) -> (r: Option<U256>)
        ensures
            denom@ != 0 && mul_div_floor(self@, num@, denom@) < pow256() <==> r.is_some(),
            r.is_some() ==> r.unwrap()@ == mul_div_floor(self@, num@, denom@),
    {
        let (hi, lo) = self.full_mul(num);
        let res = U256::div_rem_wide(&hi, &lo, denom);
        proof {
            if denom@ != 0 {
                lemma_quotient_fits(hi@, lo@, denom@);
            }
        }
        match res {
            None => None,
            Some((q, _)) => Some(q),
        }
    }

    /// `ceil(self * num / denom)`, or `None` where `denom` is zero or the
    /// quotient does not fit 256 bits.
    pub fn mul_div_ceil(&self, num: &U256, denom: &U256) -> (r: Option<U256>)
        ensures
            denom@ != 0 && mul_div_ceil(self@, num@, denom@) < pow256() <==> r.is_some(),
            r.is_some() ==> r.unwrap()@ == mul_div_ceil(self@, num@, denom@),
    {
        let (hi, lo) = self.full_mul(num);
        let res = U256::div_rem_wide(&hi, &lo, denom);
        proof {
            if denom@ != 0 {
                lemma_quotient_fits(hi@, lo@, denom@);
            }
        }
        match res {
            None => None,
            Some((q, rem)) => {
                if rem.is_zero() {
                    Some(q)
                } else {
                    q.checked_add(&U256::from_u128(1))
                }
            },
        }
    }

    /// `ceil(self / d)`, or `None` where `d` is zero.
    pub fn div_rounding_up(&self, d: &U256) -> (r: Option<U256>)
        ensures
            d@ != 0 <==> r.is_some(),
            r.is_some() ==> r.unwrap()@ == ceil_div(self@, d@),
    {
        match self.div_rem(d) {
            None => None,
            Some((q, rem)) => {
                if rem.is_zero() {
                    Some(q)
                } else {
                    proof {
                        self.lemma_bounded();
                        lemma_fundamental_div_mod(self@ as int, d@ as int);
                        assert(self@ / d@ + 1 <= self@) by (nonlinear_arith)
                            requires
                                self@ == d@ * (self@ / d@) + self@ % d@,
                                d@ >= 1,
                                self@ % d@ >= 1,
                                self@ / d@ >= 0,
                        ;
                    }
                    q.checked_add(&U256::from_u128(1))
                }
            },
        }
    }

    /// `floor(self / d)`, or `None` where `d` is zero.
    pub fn checked_div(&self, d: &U256) -> (r: Option<U256>)
        ensures
            d@ != 0 <==> r.is_some(),
            r.is_some() ==> r.unwrap()@ == self@ / d@,
    {
        match self.div_rem(d) {
            None => None,
            Some((q, _)) => Some(q),
        }
    }
}

/// A 512-bit dividend has a 256-bit quotient exactly when its upper half is
/// below the divisor.
pub proof fn lemma_quotient_fits(hi: nat, lo: nat, d: nat)
    requires
        d > 0,
        lo < pow256(),
    ensures
        hi < d <==> (hi * pow256() + lo) / d < pow256(),
{
    let n = hi * pow256() + lo;
    lemma_floor_div_bounds(n, d);
    let q = n / d;
    if hi < d {
        assert(q < pow256()) by (nonlinear_arith)
            requires
                q * d <= n,
                n == hi * pow256() + lo,
                lo < pow256(),
                hi + 1 <= d,
                d > 0,
        ;
    } else {
        assert(q >= pow256()) by (nonlinear_arith)
            requires
                n < (q + 1) * d,
                n == hi * pow256() + lo,
                hi >= d,
                d > 0,
        ;
    }
}

/// Below the rounded-up quotient, the product with the divisor stays below
/// the dividend.
pub proof fn lemma_below_ceil_div(n: nat, d: nat, q: nat)
    requires
        d > 0,
        q < ceil_div(n, d),
    ensures
        q * d < n,
{
    if q * d >= n {
        lemma_ceil_div_least(n, d, q);
    }
}

/// Up to the rounded-down quotient, the product with the divisor stays within
/// the dividend.
pub proof fn lemma_within_floor_div(n: nat, d: nat, q: nat)
    requires
        d > 0,
        q <= n / d,
    ensures
        q * d <= n,
{
    lemma_floor_div_bounds(n, d);
    assert(q * d <= (n / d) * d) by (nonlinear_arith)
        requires
            q <= n / d,
    ;
}

} // verus!
