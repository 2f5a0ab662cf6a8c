//! Unsigned 256-bit integers built from two 128-bit halves, with the widening
//! product and the long division that the fixed-point formulas need.

use vstd::prelude::*;
use vstd::arithmetic::div_mod::lemma_fundamental_div_mod_converse;
use vstd::arithmetic::power2::{
    pow2,
    lemma_pow2_unfold,
    lemma2_to64,
    lemma_pow2_adds,
    lemma_pow2_pos,
};

verus! {

/// Two to the power 64.
pub open spec fn pow64() -> nat {
    0x1_0000_0000_0000_0000nat
}

/// Two to the power 128.
pub open spec fn pow128() -> nat {
    0x1_0000_0000_0000_0000_0000_0000_0000_0000nat
}

/// Two to the power 256.
pub open spec fn pow256() -> nat {
    0x1_0000_0000_0000_0000_0000_0000_0000_0000_0000_0000_0000_0000_0000_0000_0000_0000nat
}

/// Two to the power 64, as a machine value.
pub const Q64: u128 = 0x1_0000_0000_0000_0000u128;

/// Two to the power 127: the top bit of a 128-bit word.
pub const TOP_BIT: u128 = 0x8000_0000_0000_0000_0000_0000_0000_0000u128;

/// An unsigned 256-bit integer, `hi * 2^128 + lo`.
#[derive(Clone, Copy, Debug, PartialEq, Eq, Structural)]
pub struct U256 {
    pub hi: u128,
    pub lo: u128,
}

impl View for U256 {
    type V = nat;

    open spec fn view(&self) -> nat {
        (self.hi as nat) * pow128() + (self.lo as nat)
    }
}

/// The sum of two words and a carry bit, as a word and the carry out.
pub fn add_carry(a: u128, b: u128, carry_in: bool) -> (r: (u128, bool))
    ensures
        r.0 + (if r.1 { pow128() } else { 0 }) == a + b + (if carry_in { 1nat } else { 0 }),
{
    let c: u128 = if carry_in { 1 } else { 0 };
    if a <= u128::MAX - b {
        let s: u128 = a + b;
        if s <= u128::MAX - c {
            (s + c, false)
        } else {
            (0, true)
        }
    } else {
        let s: u128 = a - (u128::MAX - b) - 1;
        (s + c, true)
    }
}

/// The difference of two words less a borrow bit, as a word and the borrow out.
pub fn sub_borrow(a: u128, b: u128, borrow_in: bool) -> (r: (u128, bool))
    ensures
        r.0 - (if r.1 { pow128() as int } else { 0 }) == a - b - (if borrow_in { 1int } else { 0 }),
{
    let c: u128 = if borrow_in { 1 } else { 0 };
    if a >= b {
        let d: u128 = a - b;
        if d >= c {
            (d - c, false)
        } else {
            (u128::MAX, true)
        }
    } else {
        let d: u128 = u128::MAX - (b - a) + 1;
        (d - c, true)
    }
}

/// The product of two two-digit numbers in base `b`, digit by digit.
pub proof fn lemma_two_digit_product(
    x: int,
    y: int,
    x1: int,
    x0: int,
    y1: int,
    y0: int,
    b: int,
    b2: int,
)
    requires
        x == x1 * b + x0,
        y == y1 * b + y0,
        b2 == b * b,
    ensures
        x * y == (x1 * y1) * b2 + (x0 * y1) * b + (x1 * y0) * b + x0 * y0,
{
    let t = x1 * b;
    let u = y1 * b;
    assert(x * y == t * y + x0 * y) by (nonlinear_arith)
        requires
            x == t + x0,
    ;
    assert(t * y == t * u + t * y0) by (nonlinear_arith)
        requires
            y == u + y0,
    ;
    assert(x0 * y == x0 * u + x0 * y0) by (nonlinear_arith)
        requires
            y == u + y0,
    ;
    assert(t * u == (x1 * y1) * b2) by (nonlinear_arith)
        requires
            t == x1 * b,
            u == y1 * b,
            b2 == b * b,
    ;
    assert(t * y0 == (x1 * y0) * b) by (nonlinear_arith)
        requires
            t == x1 * b,
    ;
    assert(x0 * u == (x0 * y1) * b) by (nonlinear_arith)
        requires
            u == y1 * b,
    ;
}

/// The product of two numbers below a bound is at most the bound's square.
pub proof fn lemma_product_bound(x: int, y: int, bx: int, by_: int)
    by (nonlinear_arith)
    requires
        0 <= x <= bx,
        0 <= y <= by_,
    ensures
        0 <= x * y <= bx * by_,
{
}

/// The full product of two 128-bit words.
pub fn mul_u128(a: u128, b: u128) -> (r: U256)
    ensures
        r@ == a * b,
{
    let a0: u128 = a % Q64;
    let a1: u128 = a / Q64;
    let b0: u128 = b % Q64;
    let b1: u128 = b / Q64;
    proof {
        lemma_product_bound(a0 as int, b0 as int, 0xffff_ffff_ffff_ffff, 0xffff_ffff_ffff_ffff);
        lemma_product_bound(a0 as int, b1 as int, 0xffff_ffff_ffff_ffff, 0xffff_ffff_ffff_ffff);
        lemma_product_bound(a1 as int, b0 as int, 0xffff_ffff_ffff_ffff, 0xffff_ffff_ffff_ffff);
        lemma_product_bound(a1 as int, b1 as int, 0xffff_ffff_ffff_ffff, 0xffff_ffff_ffff_ffff);
    }
    let p00: u128 = a0 * b0;
    let p01: u128 = a0 * b1;
    let p10: u128 = a1 * b0;
    let p11: u128 = a1 * b1;
    let t: u128 = p00 / Q64 + p01 % Q64 + p10 % Q64;
    let lo: u128 = (t % Q64) * Q64 + p00 % Q64;
    proof {
        lemma_two_digit_product(
            a as int,
            b as int,
            a1 as int,
            a0 as int,
            b1 as int,
            b0 as int,
            pow64() as int,
            pow128() as int,
        );
        lemma_product_bound(a as int, b as int, u128::MAX as int, u128::MAX as int);
        assert(a * b == p11 * pow128() + p01 * pow64() + p10 * pow64() + p00);
        assert(p01 == (p01 / Q64) * pow64() + p01 % Q64);
        assert(p10 == (p10 / Q64) * pow64() + p10 % Q64);
        assert(p00 == (p00 / Q64) * pow64() + p00 % Q64);
        assert(t == (t / Q64) * pow64() + t % Q64);
        assert(a * b == (p11 + p01 / Q64 + p10 / Q64 + t / Q64) * pow128() + lo);
    }
    let hi: u128 = p11 + p01 / Q64 + p10 / Q64 + t / Q64;
    U256 { hi, lo }
}

impl U256 {
    /// The value zero.
    pub fn zero() -> (r: U256)
        ensures
            r@ == 0,
    {
        U256 { hi: 0, lo: 0 }
    }

    /// The largest value, `2^256 - 1`.
    pub fn max_value() -> (r: U256)
        ensures
            r@ == pow256() - 1,
    {
        U256 { hi: u128::MAX, lo: u128::MAX }
    }

    /// Widens a 128-bit value.
    pub fn from_u128(x: u128) -> (r: U256)
        ensures
            r@ == x,
    {
        U256 { hi: 0, lo: x }
    }

    /// Widens a 64-bit value.
    pub fn from_u64(x: u64) -> (r: U256)
        ensures
            r@ == x,
    {
        U256 { hi: 0, lo: x as u128 }
    }

    /// A 128-bit value moved up by 64 bits: `x * 2^64`.
    pub fn from_u128_shl64(x: u128) -> (r: U256)
        ensures
            r@ == x * pow64(),
    {
        U256 { hi: x / Q64, lo: (x % Q64) * Q64 }
    }

    /// Every value is below `2^256`.
    pub proof fn lemma_bounded(self)
        ensures
            self@ < pow256(),
    {
        assert(pow128() * pow128() == pow256());
    }

    /// Whether the value is zero.
    pub fn is_zero(&self) -> (r: bool)
        ensures
            r == (self@ == 0),
    {
        self.hi == 0 && self.lo == 0
    }

    /// Whether `self < other`.
    pub fn lt(&self, other: &U256) -> (r: bool)
        ensures
            r == (self@ < other@),
    {
        self.hi < other.hi || (self.hi == other.hi && self.lo < other.lo)
    }

    /// Whether `self <= other`.
    pub fn le(&self, other: &U256) -> (r: bool)
        ensures
            r == (self@ <= other@),
    {
        self.hi < other.hi || (self.hi == other.hi && self.lo <= other.lo)
    }

    /// The sum, or `None` where it does not fit 256 bits.
    pub fn checked_add(&self, other: &U256) -> (r: Option<U256>)
        ensures
            self@ + other@ < pow256() ==> r.is_some() && r.unwrap()@ == self@ + other@,
            self@ + other@ >= pow256() ==> r.is_none(),
    {
        proof {
            assert(pow128() * pow128() == pow256());
        }
        let (lo, c0) = add_carry(self.lo, other.lo, false);
        let (hi, c1) = add_carry(self.hi, other.hi, c0);
        if c1 {
            None
        } else {
            Some(U256 { hi, lo })
        }
    }

    /// The difference, or `None` where `other` is the larger.
    pub fn checked_sub(&self, other: &U256) -> (r: Option<U256>)
        ensures
            self@ >= other@ ==> r.is_some() && r.unwrap()@ == self@ - other@,
            self@ < other@ ==> r.is_none(),
    {
        let (lo, b0) = sub_borrow(self.lo, other.lo, false);
        let (hi, b1) = sub_borrow(self.hi, other.hi, b0);
        proof {
            let c = pow128() as int;
            let k0: int = if b0 { 1 } else { 0 };
            let k1: int = if b1 { 1 } else { 0 };
            assert(lo - k0 * c == self.lo - other.lo);
            assert(hi - k1 * c == self.hi - other.hi - k0);
            assert(self@ - other@ == (hi * c + lo) - k1 * (c * c));
        }
        if b1 {
            None
        } else {
            Some(U256 { hi, lo })
        }
    }

    /// The value as 128 bits, or `None` where it is larger.
    pub fn checked_as_u128(&self) -> (r: Option<u128>)
        ensures
            self@ <= u128::MAX ==> r == Some(self@ as u128),
            self@ > u128::MAX ==> r.is_none(),
    {
        if self.hi == 0 {
            Some(self.lo)
        } else {
            None
        }
    }

    /// The value as 64 bits, or `None` where it is larger.
    pub fn checked_as_u64(&self) -> (r: Option<u64>)
        ensures
            self@ <= u64::MAX ==> r == Some(self@ as u64),
            self@ > u64::MAX ==> r.is_none(),
    {
        if self.hi == 0 && self.lo <= u64::MAX as u128 {
            Some(self.lo as u64)
        } else {
            None
        }
    }

    /// The 512-bit product, as its upper and lower 256 bits.
    pub fn full_mul(&self, other: &U256) -> (r: (U256, U256))
        ensures
            r.0@ * pow256() + r.1@ == self@ * other@,
    {
        let ll = mul_u128(self.lo, other.lo);
        let lh = mul_u128(self.lo, other.hi);
        let hl = mul_u128(self.hi, other.lo);
        let hh = mul_u128(self.hi, other.hi);
        proof {
            lemma_two_digit_product(
                self@ as int,
                other@ as int,
                self.hi as int,
                self.lo as int,
                other.hi as int,
                other.lo as int,
                pow128() as int,
                pow256() as int,
            );
            self.lemma_bounded();
            other.lemma_bounded();
            lemma_product_bound(
                self@ as int,
                other@ as int,
                pow256() - 1,
                pow256() - 1,
            );
        }
        let r0: u128 = ll.lo;
        let (mid_1, c1a) = add_carry(ll.hi, lh.lo, false);
        let (r1, c1b) = add_carry(mid_1, hl.lo, false);
        let (mid_2, c2a) = add_carry(lh.hi, hl.hi, c1a);
        let (r2, c2b) = add_carry(mid_2, hh.lo, c1b);
        let k: u128 = if c2a { 1 } else { 0 };
        let m: u128 = if c2b { 1 } else { 0 };
        proof {
            let c = pow128() as int;
            let c2 = pow256() as int;
            let top = hh.hi as int + k as int + m as int;
            assert(self@ * other@ == hh@ * c2 + lh@ * c + hl@ * c + ll@);
            assert(self@ * other@ == (top * c + r2 as int) * c2 + ((r1 as int) * c + r0 as int));
            assert(self@ * other@ < c2 * c2);
            assert(top < c);
        }
        let r3: u128 = hh.hi + k + m;
        (U256 { hi: r3, lo: r2 }, U256 { hi: r1, lo: r0 })
    }

    /// The product, or `None` where it does not fit 256 bits.
    pub fn checked_mul(&self, other: &U256) -> (r: Option<U256>)
        ensures
            self@ * other@ < pow256() ==> r.is_some() && r.unwrap()@ == self@ * other@,
            self@ * other@ >= pow256() ==> r.is_none(),
    {
        let (hi, lo) = self.full_mul(other);
        proof {
            lo.lemma_bounded();
            assert(hi@ >= 1 ==> hi@ * pow256() >= pow256()) by (nonlinear_arith);
        }
        if hi.is_zero() {
            Some(lo)
        } else {
            None
        }
    }
}

/// The value of `2^256` as a power of two.
pub proof fn lemma_pow2_256()
    ensures
        pow2(64) == pow64(),
        pow2(128) == pow128(),
        pow2(256) == pow256(),
{
    lemma_pow_squares();
    lemma2_to64();
    lemma_pow2_adds(64, 64);
    lemma_pow2_adds(128, 128);
}

/// How the three named powers of two square into each other.
pub proof fn lemma_pow_squares()
    ensures
        pow64() * pow64() == pow128(),
        pow128() * pow128() == pow256(),
{
}

/// One step of long division on the dividend's side: the next bit of the
/// dividend is the top bit of what is left of it, moved to the top of a word.
proof fn lemma_next_bit(rest: int, rest2: int, bit: int, low: int, pw: int, pw2: int, m: int)
    requires
        0 <= rest < m,
        0 <= low < pw,
        pw == 2 * pw2,
        pw2 > 0,
        m > 0,
        rest * pw == low * m,
        bit == 0 || bit == 1,
        rest2 + bit * m == 2 * rest,
        0 <= rest2 < m,
    ensures
        0 <= low - bit * pw2 < pw2,
        rest2 * pw2 == (low - bit * pw2) * m,
{
    assert(2 * (rest * pw2) == low * m) by (nonlinear_arith)
        requires
            rest * pw == low * m,
            pw == 2 * pw2,
    ;
    assert(rest2 * pw2 == 2 * (rest * pw2) - (bit * pw2) * m) by (nonlinear_arith)
        requires
            rest2 + bit * m == 2 * rest,
    ;
    assert((low - bit * pw2) * m == low * m - (bit * pw2) * m) by (nonlinear_arith);
    assert(rest2 * pw2 == (low - bit * pw2) * m);
    assert(0 <= low - bit * pw2 < pw2) by (nonlinear_arith)
        requires
            rest2 * pw2 == (low - bit * pw2) * m,
            0 <= rest2 < m,
            pw2 > 0,
            m > 0,
    ;
}

/// One step of long division on the quotient's side.
proof fn lemma_quotient_step(
    pre: int,
    q: int,
    d: int,
    r: int,
    bit: int,
    take: int,
    pw: int,
    pw2: int,
    m: int,
)
    requires
        pre == q * d + r,
        0 <= r < d,
        0 <= q,
        bit == 0 || bit == 1,
        take == 0 || take == 1,
        pw == 2 * pw2,
        pw2 > 0,
        (q + 1) * pw <= m,
    ensures
        2 * pre + bit == (2 * q + take) * d + (2 * r + bit - take * d),
        (2 * q + take + 1) * pw2 <= m,
        2 * q + 1 < m,
{
    assert((2 * q + take) * d == 2 * (q * d) + take * d) by (nonlinear_arith);
    assert((q + 1) * pw == (2 * q + 2) * pw2) by (nonlinear_arith)
        requires
            pw == 2 * pw2,
    ;
    assert((2 * q + take + 1) * pw2 <= (2 * q + 2) * pw2) by (nonlinear_arith)
        requires
            take <= 1,
            pw2 > 0,
    ;
    assert(2 * q + 2 <= (2 * q + 2) * pw2) by (nonlinear_arith)
        requires
            pw2 >= 1,
            q >= 0,
    ;
}

impl U256 {
    /// Twice the value plus a bit, as 256 bits and the bit that falls off the top.
    pub fn double_with(&self, bit: bool) -> (r: (U256, bool))
        ensures
            r.0@ + (if r.1 { pow256() } else { 0 }) == 2 * self@ + (if bit { 1nat } else { 0 }),
    {
        proof {
            assert(pow128() * pow128() == pow256());
        }
        let b: u128 = if bit { 1 } else { 0 };
        let (lo, c0): (u128, u128) = if self.lo >= TOP_BIT {
            ((self.lo - TOP_BIT) * 2 + b, 1)
        } else {
            (self.lo * 2 + b, 0)
        };
        let (hi, c1): (u128, bool) = if self.hi >= TOP_BIT {
            ((self.hi - TOP_BIT) * 2 + c0, true)
        } else {
            (self.hi * 2 + c0, false)
        };
        (U256 { hi, lo }, c1)
    }

    /// The difference modulo `2^256`.
    pub fn wrapping_sub(&self, other: &U256) -> (r: U256)
        ensures
            self@ >= other@ ==> r@ == self@ - other@,
            self@ < other@ ==> r@ == self@ + pow256() - other@,
    {
        let (lo, b0) = sub_borrow(self.lo, other.lo, false);
        let (hi, b1) = sub_borrow(self.hi, other.hi, b0);
        proof {
            let c = pow128() as int;
            let k0: int = if b0 { 1 } else { 0 };
            let k1: int = if b1 { 1 } else { 0 };
            assert(lo - k0 * c == self.lo - other.lo);
            assert(hi - k1 * c == self.hi - other.hi - k0);
            assert(self@ - other@ == (hi * c + lo) - k1 * (c * c));
            assert(pow128() * pow128() == pow256());
        }
        U256 { hi, lo }
    }

    /// Divides the 512-bit number `n_hi * 2^256 + n_lo` by `d`.
    ///
    /// Returns the quotient and the remainder, or `None` where `d` is zero or
    /// the quotient does not fit 256 bits.
    pub fn div_rem_wide(n_hi: &U256, n_lo: &U256, d: &U256) -> (res: Option<(U256, U256)>)
        ensures
            d@ == 0 || n_hi@ >= d@ <==> res.is_none(),
            res.is_some() ==> {
                let n = n_hi@ * pow256() + n_lo@;
                &&& res.unwrap().0@ == n / d@
                &&& res.unwrap().1@ == n % d@
            },
    {
        if d.is_zero() || d.le(n_hi) {
            return None;
        }
        let ghost n: int = (n_hi@ * pow256() + n_lo@) as int;
        let ghost m: int = pow256() as int;
        let mut r: U256 = *n_hi;
        let mut q: U256 = U256::zero();
        let mut rest: U256 = *n_lo;
        let mut i: u32 = 256;
        let ghost mut pre: int = n_hi@ as int;
        let ghost mut low: int = n_lo@ as int;
        proof {
            lemma_pow2_256();
            n_lo.lemma_bounded();
        }
        while i > 0
            invariant
                i <= 256,
                m == pow256(),
                n == n_hi@ * pow256() + n_lo@,
                pre * pow2(i as nat) + low == n,
                0 <= low < pow2(i as nat),
                rest@ * pow2(i as nat) == low * m,
                pre == q@ * d@ + r@,
                r@ < d@,
                (q@ + 1) * pow2(i as nat) <= m,
            decreases i,
        {
            let ghost pw: int = pow2(i as nat) as int;
            let ghost pw2: int = pow2((i - 1) as nat) as int;
            proof {
                lemma_pow2_unfold(i as nat);
                lemma_pow2_pos((i - 1) as nat);
                rest.lemma_bounded();
                r.lemma_bounded();
                q.lemma_bounded();
                d.lemma_bounded();
            }
            let (rest2, bit) = rest.double_with(false);
            let (r2, top) = r.double_with(bit);
            let ghost b: int = if bit { 1 } else { 0 };
            let take: bool = top || d.le(&r2);
            let ghost t: int = if take { 1 } else { 0 };
            proof {
                rest2.lemma_bounded();
                r2.lemma_bounded();
                lemma_next_bit(rest@ as int, rest2@ as int, b, low, pw, pw2, m);
                lemma_quotient_step(pre, q@ as int, d@ as int, r@ as int, b, t, pw, pw2, m);
                assert(pre * pw == (2 * pre) * pw2) by (nonlinear_arith)
                    requires
                        pw == 2 * pw2,
                ;
                assert((2 * pre + b) * pw2 == (2 * pre) * pw2 + b * pw2) by (nonlinear_arith);
            }
            let (q2, over) = q.double_with(take);
            if take {
                r = r2.wrapping_sub(d);
            } else {
                r = r2;
            }
            q = q2;
            rest = rest2;
            i = i - 1;
            proof {
                pre = 2 * pre + b;
                low = low - b * pw2;
            }
        }
        proof {
            lemma2_to64();
            assert(pow2(0) == 1);
            assert(n == q@ * d@ + r@);
            lemma_fundamental_div_mod_converse(n, d@ as int, q@ as int, r@ as int);
        }
        Some((q, r))
    }

    /// The quotient and the remainder, or `None` where `d` is zero.
    pub fn div_rem(&self, d: &U256) -> (res: Option<(U256, U256)>)
        ensures
            d@ == 0 <==> res.is_none(),
            res.is_some() ==> res.unwrap().0@ == self@ / d@ && res.unwrap().1@ == self@ % d@,
    {
        let z = U256::zero();
        U256::div_rem_wide(&z, self, d)
    }
}

} // verus!
