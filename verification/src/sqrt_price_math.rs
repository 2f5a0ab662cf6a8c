//! The square-root price after a given amount of one token enters or leaves
//! the pool at constant liquidity.

use vstd::prelude::*;
use crate::error::ErrorCode;
use crate::full_math::{ceil_div, mul_div_ceil, lemma_ceil_div_least, lemma_floor_div_bounds};
use crate::wide::{U256, Q64, pow64, lemma_product_bound, lemma_pow_squares};

verus! {

/// What `get_next_sqrt_price_from_amount_0_rounding_up` returns.
///
/// With `n = liq * 2^64`, adding gives `ceil(n * price / (n + amount * price))`
/// and removing gives `ceil(n * price / (n - amount * price))`. A zero amount
/// leaves the price as it is. A denominator that is zero or negative, which
/// is a division by zero or a subtraction below zero, is `SqrtPriceX64`; a
/// result above `u128::MAX` is `CalculateOverflow`.
pub open spec fn next_price_from_amount_0_spec(price: u128, liq: u128, amount: u64, add: bool) -> Result<
    u128,
    ErrorCode,
> {
    let n = liq as nat * pow64();
    let product = amount as nat * price as nat;
    if amount == 0 {
        Ok(price)
    } else if add {
        if n + product == 0 {
            Err(ErrorCode::SqrtPriceX64)
        } else {
            Ok(mul_div_ceil(n, price as nat, n + product) as u128)
        }
    } else if n <= product {
        Err(ErrorCode::SqrtPriceX64)
    } else {
        let v = mul_div_ceil(n, price as nat, (n - product) as nat);
        if v > u128::MAX {
            Err(ErrorCode::CalculateOverflow)
        } else {
            Ok(v as u128)
        }
    }
}

/// What `get_next_sqrt_price_from_amount_1_rounding_down` returns.
///
/// Adding gives `price + floor(amount * 2^64 / liq)` and removing gives
/// `price - ceil(amount * 2^64 / liq)`. Zero liquidity is `InvalidLiquidity`;
/// a subtraction that would take the price below zero is `SqrtPriceX64`; a
/// sum above `u128::MAX` is `CalculateOverflow`.
pub open spec fn next_price_from_amount_1_spec(price: u128, liq: u128, amount: u64, add: bool) -> Result<
    u128,
    ErrorCode,
> {
    let shifted = amount as nat * pow64();
    if liq == 0 {
        Err(ErrorCode::InvalidLiquidity)
    } else if add {
        let v = price as nat + shifted / (liq as nat);
        if v > u128::MAX {
            Err(ErrorCode::CalculateOverflow)
        } else {
            Ok(v as u128)
        }
    } else {
        let q = ceil_div(shifted, liq as nat);
        if q > price {
            Err(ErrorCode::SqrtPriceX64)
        } else {
            Ok((price - q) as u128)
        }
    }
}

/// What `get_next_sqrt_price_from_input` returns: the price after `amount_in`
/// of the input token has been added.
pub open spec fn next_price_from_input_spec(
    price: u128,
    liq: u128,
    amount_in: u64,
    zero_for_one: bool,
) -> Result<u128, ErrorCode> {
    if price == 0 {
        Err(ErrorCode::SqrtPriceX64)
    } else if liq == 0 {
        Err(ErrorCode::InvalidLiquidity)
    } else if zero_for_one {
        next_price_from_amount_0_spec(price, liq, amount_in, true)
    } else {
        next_price_from_amount_1_spec(price, liq, amount_in, true)
    }
}

/// What `get_next_sqrt_price_from_output` returns: the price after
/// `amount_out` of the output token has been removed.
pub open spec fn next_price_from_output_spec(
    price: u128,
    liq: u128,
    amount_out: u64,
    zero_for_one: bool,
) -> Result<u128, ErrorCode> {
    if price == 0 {
        Err(ErrorCode::SqrtPriceX64)
    } else if liq == 0 {
        Err(ErrorCode::InvalidLiquidity)
    } else if zero_for_one {
        next_price_from_amount_1_spec(price, liq, amount_out, false)
    } else {
        next_price_from_amount_0_spec(price, liq, amount_out, false)
    }
}

/// With a positive denominator `n + a * p`, the price `ceil(n * p / (n + a * p))`
/// is at most `p`.
pub proof fn lemma_added_amount_0_lowers_price(n: nat, p: nat, a: nat)
    requires
        n + a * p > 0,
    ensures
        mul_div_ceil(n, p, n + a * p) <= p,
{
    assert(p * (n + a * p) >= n * p) by (nonlinear_arith);
    lemma_ceil_div_least(n * p, n + a * p, p);
}

/// The next square-root price after `amount` of token 0 is added to or
/// removed from the pool, rounded up.
pub fn get_next_sqrt_price_from_amount_0_rounding_up(
    sqrt_price_x64: u128,
    liquidity: u128,
    amount: u64,
    add: bool,
) -> (r: Result<u128, ErrorCode>)
    ensures
        r == next_price_from_amount_0_spec(sqrt_price_x64, liquidity, amount, add),
{
    if amount == 0 {
        return Ok(sqrt_price_x64);
    }
    let numerator_1 = U256::from_u128_shl64(liquidity);
    let price = U256::from_u128(sqrt_price_x64);
    let amount_wide = U256::from_u64(amount);
    proof {
        lemma_pow_squares();
        lemma_product_bound(amount as int, sqrt_price_x64 as int, u64::MAX as int, u128::MAX as int);
        lemma_product_bound(liquidity as int, pow64() as int, u128::MAX as int, pow64() as int);
    }
    if add {
        if let Some(product) = amount_wide.checked_mul(&price) {
            if let Some(denominator) = numerator_1.checked_add(&product) {
                proof {
                    if denominator@ != 0 {
                        lemma_added_amount_0_lowers_price(
                            numerator_1@,
                            sqrt_price_x64 as nat,
                            amount as nat,
                        );
                    }
                }
                return match numerator_1.mul_div_ceil(&price, &denominator) {
                    Some(v) => match v.checked_as_u128() {
                        Some(next) => Ok(next),
                        None => Err(ErrorCode::CalculateOverflow),
                    },
                    None => Err(ErrorCode::SqrtPriceX64),
                };
            }
        }
        // The product or the sum left 256 bits: use `n / (n / price + amount)`.
        let quotient = match numerator_1.checked_div(&price) {
            Some(q) => q,
            None => {
                return Err(ErrorCode::SqrtPriceX64);
            },
        };
        let denominator = match quotient.checked_add(&amount_wide) {
            Some(d) => d,
            None => {
                return Err(ErrorCode::CalculateOverflow);
            },
        };
        match numerator_1.div_rounding_up(&denominator) {
            Some(v) => match v.checked_as_u128() {
                Some(next) => Ok(next),
                None => Err(ErrorCode::CalculateOverflow),
            },
            None => Err(ErrorCode::CalculateOverflow),
        }
    } else {
        let product = match amount_wide.checked_mul(&price) {
            Some(p) => p,
            None => {
                return Err(ErrorCode::CalculateOverflow);
            },
        };
        let denominator = match numerator_1.checked_sub(&product) {
            Some(d) => d,
            None => {
                return Err(ErrorCode::SqrtPriceX64);
            },
        };
        if denominator.is_zero() {
            return Err(ErrorCode::SqrtPriceX64);
        }
        match numerator_1.mul_div_ceil(&price, &denominator) {
            Some(v) => match v.checked_as_u128() {
                Some(next) => Ok(next),
                None => Err(ErrorCode::CalculateOverflow),
            },
            None => Err(ErrorCode::CalculateOverflow),
        }
    }
}

/// The next square-root price after `amount` of token 1 is added to or
/// removed from the pool, rounded down.
pub fn get_next_sqrt_price_from_amount_1_rounding_down(
    sqrt_price_x64: u128,
    liquidity: u128,
    amount: u64,
    add: bool,
) -> (r: Result<u128, ErrorCode>)
    ensures
        r == next_price_from_amount_1_spec(sqrt_price_x64, liquidity, amount, add),
{
    if liquidity == 0 {
        return Err(ErrorCode::InvalidLiquidity);
    }
    proof {
        lemma_product_bound(amount as int, pow64() as int, u64::MAX as int, pow64() as int);
    }
    let shifted: u128 = (amount as u128) * Q64;
    if add {
        let quotient: u128 = shifted / liquidity;
        match sqrt_price_x64.checked_add(quotient) {
            Some(next) => Ok(next),
            None => Err(ErrorCode::CalculateOverflow),
        }
    } else {
        let quotient: u128 = shifted / liquidity;
        proof {
            lemma_floor_div_bounds(shifted as nat, liquidity as nat);
            assert(quotient <= shifted) by (nonlinear_arith)
                requires
                    quotient * liquidity <= shifted,
                    liquidity >= 1,
            ;
            if shifted % liquidity != 0 {
                vstd::arithmetic::div_mod::lemma_fundamental_div_mod(
                    shifted as int,
                    liquidity as int,
                );
                assert(quotient < shifted) by (nonlinear_arith)
                    requires
                        quotient * liquidity <= shifted,
                        shifted == liquidity * quotient + shifted % liquidity,
                        shifted % liquidity > 0,
                        liquidity >= 1,
                ;
            }
        }
        let quotient: u128 = if shifted % liquidity == 0 {
            quotient
        } else {
            quotient + 1
        };
        match sqrt_price_x64.checked_sub(quotient) {
            Some(next) => Ok(next),
            None => Err(ErrorCode::SqrtPriceX64),
        }
    }
}

/// The next square-root price after `amount_in` of the input token has been
/// swapped in. Fails where the price or the liquidity is zero.
pub fn get_next_sqrt_price_from_input(
    sqrt_price_x64: u128,
    liquidity: u128,
    amount_in: u64,
    zero_for_one: bool,
) -> (r: Result<u128, ErrorCode>)
    ensures
        r == next_price_from_input_spec(sqrt_price_x64, liquidity, amount_in, zero_for_one),
{
    if sqrt_price_x64 == 0 {
        return Err(ErrorCode::SqrtPriceX64);
    }
    if liquidity == 0 {
        return Err(ErrorCode::InvalidLiquidity);
    }
    if zero_for_one {
        get_next_sqrt_price_from_amount_0_rounding_up(sqrt_price_x64, liquidity, amount_in, true)
    } else {
        get_next_sqrt_price_from_amount_1_rounding_down(sqrt_price_x64, liquidity, amount_in, true)
    }
}

/// The next square-root price after `amount_out` of the output token has been
/// swapped out. Fails where the price or the liquidity is zero.
pub fn get_next_sqrt_price_from_output(
    sqrt_price_x64: u128,
    liquidity: u128,
    amount_out: u64,
    zero_for_one: bool,
) -> (r: Result<u128, ErrorCode>)
    ensures
        r == next_price_from_output_spec(sqrt_price_x64, liquidity, amount_out, zero_for_one),
{
    if sqrt_price_x64 == 0 {
        return Err(ErrorCode::SqrtPriceX64);
    }
    if liquidity == 0 {
        return Err(ErrorCode::InvalidLiquidity);
    }
    if zero_for_one {
        get_next_sqrt_price_from_amount_1_rounding_down(
            sqrt_price_x64,
            liquidity,
            amount_out,
            false,
        )
    } else {
        get_next_sqrt_price_from_amount_0_rounding_up(sqrt_price_x64, liquidity, amount_out, false)
    }
}

} // verus!
