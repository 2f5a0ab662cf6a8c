//! Token amounts that a liquidity position holds between two prices, and the
//! signed update of a liquidity total.

use vstd::prelude::*;
use crate::error::ErrorCode;
use crate::full_math::{
    ceil_div,
    mul_div_ceil,
    mul_div_floor,
    lemma_ceil_div_least,
    lemma_floor_div_bounds,
};
use crate::wide::{U256, pow64, lemma_product_bound, lemma_pow_squares};

verus! {

/// Amount of token 0 between the prices `lo <= hi` for liquidity `liq`:
/// `liq * 2^64 * (hi - lo) / (hi * lo)`, each of the two divisions rounded
/// in the chosen direction.
pub open spec fn delta_amount_0(lo: nat, hi: nat, liq: nat, round_up: bool) -> nat {
    if round_up {
        ceil_div(mul_div_ceil(liq * pow64(), (hi - lo) as nat, hi), lo)
    } else {
        mul_div_floor(liq * pow64(), (hi - lo) as nat, hi) / lo
    }
}

/// Amount of token 1 between the prices `lo <= hi` for liquidity `liq`:
/// `liq * (hi - lo) / 2^64`, rounded in the chosen direction.
pub open spec fn delta_amount_1(lo: nat, hi: nat, liq: nat, round_up: bool) -> nat {
    if round_up {
        mul_div_ceil(liq, (hi - lo) as nat, pow64())
    } else {
        mul_div_floor(liq, (hi - lo) as nat, pow64())
    }
}

/// The smaller of two prices.
pub open spec fn price_min(a: u128, b: u128) -> u128 {
    if a <= b {
        a
    } else {
        b
    }
}

/// The larger of two prices.
pub open spec fn price_max(a: u128, b: u128) -> u128 {
    if a <= b {
        b
    } else {
        a
    }
}

/// What `get_delta_amount_0_unsigned` returns: the amount where it fits 64
/// bits, `MaxTokenOverflow` where it does not, `SqrtPriceX64` where the lower
/// price is zero.
pub open spec fn get_delta_amount_0_spec(a: u128, b: u128, liq: u128, round_up: bool) -> Result<
    u64,
    ErrorCode,
> {
    let lo = price_min(a, b);
    let hi = price_max(a, b);
    if lo == 0 {
        Err(ErrorCode::SqrtPriceX64)
    } else {
        let v = delta_amount_0(lo as nat, hi as nat, liq as nat, round_up);
        if v > u64::MAX {
            Err(ErrorCode::MaxTokenOverflow)
        } else {
            Ok(v as u64)
        }
    }
}

/// What `get_delta_amount_1_unsigned` returns: the amount where it fits 64
/// bits, `MaxTokenOverflow` where it does not.
pub open spec fn get_delta_amount_1_spec(a: u128, b: u128, liq: u128, round_up: bool) -> Result<
    u64,
    ErrorCode,
> {
    let lo = price_min(a, b);
    let hi = price_max(a, b);
    let v = delta_amount_1(lo as nat, hi as nat, liq as nat, round_up);
    if v > u64::MAX {
        Err(ErrorCode::MaxTokenOverflow)
    } else {
        Ok(v as u64)
    }
}

/// What `add_delta` returns: `x + y` where that is a 128-bit unsigned value.
pub open spec fn add_delta_spec(x: u128, y: i128) -> Result<u128, ErrorCode> {
    if 0 <= x + y <= u128::MAX {
        Ok((x + y) as u128)
    } else {
        Err(ErrorCode::LiquidityAddValueErr)
    }
}

/// Amount of token 0 for `liquidity` between two square-root prices, given in
/// either order.
pub fn get_delta_amount_0_unsigned(
    sqrt_ratio_a_x64: u128,
    sqrt_ratio_b_x64: u128,
    liquidity: u128,
    round_up: bool,
) -> (r: Result<u64, ErrorCode>)
    ensures
        r == get_delta_amount_0_spec(sqrt_ratio_a_x64, sqrt_ratio_b_x64, liquidity, round_up),
{
    let (lo, hi): (u128, u128) = if sqrt_ratio_a_x64 > sqrt_ratio_b_x64 {
        (sqrt_ratio_b_x64, sqrt_ratio_a_x64)
    } else {
        (sqrt_ratio_a_x64, sqrt_ratio_b_x64)
    };
    if lo == 0 {
        return Err(ErrorCode::SqrtPriceX64);
    }
    let numerator_1 = U256::from_u128_shl64(liquidity);
    let numerator_2 = U256::from_u128(hi - lo);
    let hi_wide = U256::from_u128(hi);
    let lo_wide = U256::from_u128(lo);
    proof {
        let n1 = numerator_1@;
        let n2 = numerator_2@;
        lemma_pow_squares();
        numerator_1.lemma_bounded();
        assert(n1 * n2 <= n1 * (hi as nat)) by (nonlinear_arith)
            requires
                n2 <= hi,
        ;
        lemma_ceil_div_least(n1 * n2, hi as nat, n1);
        lemma_floor_div_bounds(n1 * n2, hi as nat);
    }
    let result = if round_up {
        match numerator_1.mul_div_ceil(&numerator_2, &hi_wide) {
            Some(inner) => inner.div_rounding_up(&lo_wide),
            None => None,
        }
    } else {
        match numerator_1.mul_div_floor(&numerator_2, &hi_wide) {
            Some(inner) => inner.checked_div(&lo_wide),
            None => None,
        }
    };
    match result {
        Some(v) => match v.checked_as_u64() {
            Some(amount) => Ok(amount),
            None => Err(ErrorCode::MaxTokenOverflow),
        },
        None => Err(ErrorCode::MaxTokenOverflow),
    }
}

/// Amount of token 1 for `liquidity` between two square-root prices, given in
/// either order.
pub fn get_delta_amount_1_unsigned(
    sqrt_ratio_a_x64: u128,
    sqrt_ratio_b_x64: u128,
    liquidity: u128,
    round_up: bool,
) -> (r: Result<u64, ErrorCode>)
    ensures
        r == get_delta_amount_1_spec(sqrt_ratio_a_x64, sqrt_ratio_b_x64, liquidity, round_up),
{
    let (lo, hi): (u128, u128) = if sqrt_ratio_a_x64 > sqrt_ratio_b_x64 {
        (sqrt_ratio_b_x64, sqrt_ratio_a_x64)
    } else {
        (sqrt_ratio_a_x64, sqrt_ratio_b_x64)
    };
    let liq = U256::from_u128(liquidity);
    let diff = U256::from_u128(hi - lo);
    let q64 = U256::from_u128(crate::wide::Q64);
    proof {
        lemma_pow_squares();
        lemma_product_bound(liquidity as int, (hi - lo) as int, u128::MAX as int, u128::MAX as int);
        lemma_ceil_div_least(liq@ * diff@, pow64(), liq@ * diff@);
        lemma_floor_div_bounds(liq@ * diff@, pow64());
    }
    let result = if round_up {
        liq.mul_div_ceil(&diff, &q64)
    } else {
        liq.mul_div_floor(&diff, &q64)
    };
    match result {
        Some(v) => match v.checked_as_u64() {
            Some(amount) => Ok(amount),
            None => Err(ErrorCode::MaxTokenOverflow),
        },
        None => Err(ErrorCode::MaxTokenOverflow),
    }
}

/// Adds a signed liquidity change to a liquidity total.
pub fn add_delta(x: u128, y: i128) -> (r: Result<u128, ErrorCode>)
    ensures
        r == add_delta_spec(x, y),
{
    if y < 0 {
        let magnitude: u128 = if y == i128::MIN {
            0x8000_0000_0000_0000_0000_0000_0000_0000u128
        } else {
            (-y) as u128
        };
        match x.checked_sub(magnitude) {
            Some(z) => Ok(z),
            None => Err(ErrorCode::LiquidityAddValueErr),
        }
    } else {
        match x.checked_add(y as u128) {
            Some(z) => Ok(z),
            None => Err(ErrorCode::LiquidityAddValueErr),
        }
    }
}

} // verus!
