//! One step of a swap: from the current price toward a target price, for as
//! much of the remaining amount as the liquidity between the two allows.

use vstd::prelude::*;
use crate::error::ErrorCode;
use crate::full_math::{mul_div_ceil, mul_div_floor, mul_div_ceil_u64, mul_div_floor_u64};
use crate::liquidity_math::{
    get_delta_amount_0_spec,
    get_delta_amount_0_unsigned,
    get_delta_amount_1_spec,
    get_delta_amount_1_unsigned,
};
use crate::sqrt_price_math::{
    get_next_sqrt_price_from_input,
    get_next_sqrt_price_from_output,
    next_price_from_input_spec,
    next_price_from_output_spec,
};

verus! {

/// Fee rates are parts of this number.
pub const FEE_RATE_DENOMINATOR_VALUE: u32 = 1_000_000;

/// Result of a swap step.
#[derive(Clone, Copy, Debug, PartialEq, Eq, Structural)]
pub struct SwapStep {
    /// The price after swapping the amount in or out; never beyond the target.
    pub sqrt_price_next_x64: u128,
    pub amount_in: u64,
    pub amount_out: u64,
    pub fee_amount: u64,
}

impl Default for SwapStep {
    fn default() -> (r: SwapStep)
        ensures
            r == (SwapStep { sqrt_price_next_x64: 0, amount_in: 0, amount_out: 0, fee_amount: 0 }),
    {
        SwapStep { sqrt_price_next_x64: 0, amount_in: 0, amount_out: 0, fee_amount: 0 }
    }
}

/// The most that a step from `cur` to `tgt` can take in (exact input) or give
/// out (exact output): `Some` amount, `None` where that amount is above
/// `u64::MAX` and the target is therefore out of reach, or
/// `SqrtPriceLimitOverflow` for any other failure.
pub open spec fn amount_in_range_spec(
    cur: u128,
    tgt: u128,
    liq: u128,
    zero_for_one: bool,
    is_base_input: bool,
) -> Result<Option<u64>, ErrorCode> {
    let result = if is_base_input {
        if zero_for_one {
            get_delta_amount_0_spec(tgt, cur, liq, true)
        } else {
            get_delta_amount_1_spec(cur, tgt, liq, true)
        }
    } else {
        if zero_for_one {
            get_delta_amount_1_spec(tgt, cur, liq, false)
        } else {
            get_delta_amount_0_spec(cur, tgt, liq, false)
        }
    };
    match result {
        Ok(v) => Ok(Some(v)),
        Err(ErrorCode::MaxTokenOverflow) => Ok(None),
        Err(_) => Err(ErrorCode::SqrtPriceLimitOverflow),
    }
}

/// The remaining amount after the fee has been set aside, rounded down.
pub open spec fn amount_less_fee(amount_remaining: u64, fee_rate: u32) -> nat {
    mul_div_floor(
        amount_remaining as nat,
        (FEE_RATE_DENOMINATOR_VALUE - fee_rate) as nat,
        FEE_RATE_DENOMINATOR_VALUE as nat,
    )
}

/// The amount that moves the price: the remaining input less the fee, or the
/// remaining output.
pub open spec fn step_budget(amount_remaining: u64, fee_rate: u32, is_base_input: bool) -> u64 {
    if is_base_input {
        amount_less_fee(amount_remaining, fee_rate) as u64
    } else {
        amount_remaining
    }
}

/// Whether the step goes all the way to the target: the limit is known and
/// the budget covers it.
pub open spec fn step_reaches_target(limit: Option<u64>, budget: u64) -> bool {
    limit.is_some() && budget >= limit.unwrap()
}

/// The price at the end of the step.
pub open spec fn step_next_price(
    cur: u128,
    tgt: u128,
    liq: u128,
    limit: Option<u64>,
    budget: u64,
    is_base_input: bool,
    zero_for_one: bool,
) -> Result<u128, ErrorCode> {
    if step_reaches_target(limit, budget) {
        Ok(tgt)
    } else if is_base_input {
        next_price_from_input_spec(cur, liq, budget, zero_for_one)
    } else {
        next_price_from_output_spec(cur, liq, budget, zero_for_one)
    }
}

/// The input amount between `cur` and `next`, rounded up.
pub open spec fn step_amount_in(cur: u128, next: u128, liq: u128, zero_for_one: bool) -> Result<
    u64,
    ErrorCode,
> {
    if zero_for_one {
        get_delta_amount_0_spec(next, cur, liq, true)
    } else {
        get_delta_amount_1_spec(cur, next, liq, true)
    }
}

/// The output amount between `cur` and `next`, rounded down.
pub open spec fn step_amount_out(cur: u128, next: u128, liq: u128, zero_for_one: bool) -> Result<
    u64,
    ErrorCode,
> {
    if zero_for_one {
        get_delta_amount_1_spec(next, cur, liq, false)
    } else {
        get_delta_amount_0_spec(cur, next, liq, false)
    }
}

/// The limit as an amount: zero where it is unknown.
pub open spec fn limit_or_zero(limit: Option<u64>) -> u64 {
    match limit {
        Some(v) => v,
        None => 0,
    }
}

/// The fee of a step. Where an exact-input step stops short of the target,
/// all that is left of the input after `amount_in`; otherwise
/// `ceil(amount_in * fee_rate / (FEE_RATE_DENOMINATOR_VALUE - fee_rate))`.
/// `CalculateOverflow` where the subtraction would go below zero, the divisor
/// is zero, or the fee is above `u64::MAX`.
pub open spec fn step_fee(
    amount_remaining: u64,
    amount_in: u64,
    fee_rate: u32,
    is_base_input: bool,
    reached: bool,
) -> Result<u64, ErrorCode> {
    if is_base_input && !reached {
        if amount_in > amount_remaining {
            Err(ErrorCode::CalculateOverflow)
        } else {
            Ok((amount_remaining - amount_in) as u64)
        }
    } else if fee_rate == FEE_RATE_DENOMINATOR_VALUE {
        Err(ErrorCode::CalculateOverflow)
    } else {
        let fee = mul_div_ceil(
            amount_in as nat,
            fee_rate as nat,
            (FEE_RATE_DENOMINATOR_VALUE - fee_rate) as nat,
        );
        if fee > u64::MAX {
            Err(ErrorCode::CalculateOverflow)
        } else {
            Ok(fee as u64)
        }
    }
}

/// The amounts and the fee of a step that ends at `next`, given the limit
/// found for the whole way to the target.
pub open spec fn step_settle(
    cur: u128,
    tgt: u128,
    next: u128,
    liq: u128,
    limit: Option<u64>,
    amount_remaining: u64,
    fee_rate: u32,
    is_base_input: bool,
    zero_for_one: bool,
) -> Result<SwapStep, ErrorCode> {
    let reached = next == tgt;
    let amount_in = if reached && is_base_input {
        Ok(limit_or_zero(limit))
    } else {
        step_amount_in(cur, next, liq, zero_for_one)
    };
    let amount_out = if reached && !is_base_input {
        Ok(limit_or_zero(limit))
    } else {
        step_amount_out(cur, next, liq, zero_for_one)
    };
    match (amount_in, amount_out) {
        (Err(e), _) => Err(e),
        (Ok(_), Err(e)) => Err(e),
        (Ok(a_in), Ok(a_out)) => {
            let capped = if !is_base_input && a_out > amount_remaining {
                amount_remaining
            } else {
                a_out
            };
            match step_fee(amount_remaining, a_in, fee_rate, is_base_input, reached) {
                Err(e) => Err(e),
                Ok(fee) => Ok(
                    SwapStep {
                        sqrt_price_next_x64: next,
                        amount_in: a_in,
                        amount_out: capped,
                        fee_amount: fee,
                    },
                ),
            }
        },
    }
}

/// What `compute_swap_step` returns.
///
/// A fee rate above the denominator is `CalculateOverflow`. Otherwise the
/// limit of the whole way to the target is found, then the price at which the
/// step ends, then the amounts and the fee for that price; the first failure
/// among these is the result.
pub open spec fn compute_swap_step_spec(
    cur: u128,
    tgt: u128,
    liq: u128,
    amount_remaining: u64,
    fee_rate: u32,
    is_base_input: bool,
    zero_for_one: bool,
) -> Result<SwapStep, ErrorCode> {
    if fee_rate > FEE_RATE_DENOMINATOR_VALUE {
        Err(ErrorCode::CalculateOverflow)
    } else {
        match amount_in_range_spec(cur, tgt, liq, zero_for_one, is_base_input) {
            Err(e) => Err(e),
            Ok(limit) => {
                let budget = step_budget(amount_remaining, fee_rate, is_base_input);
                match step_next_price(cur, tgt, liq, limit, budget, is_base_input, zero_for_one) {
                    Err(e) => Err(e),
                    Ok(next) => step_settle(
                        cur,
                        tgt,
                        next,
                        liq,
                        limit,
                        amount_remaining,
                        fee_rate,
                        is_base_input,
                        zero_for_one,
                    ),
                }
            },
        }
    }
}

/// The remaining amount less the fee never exceeds the remaining amount.
pub proof fn lemma_amount_less_fee_bounded(amount_remaining: u64, fee_rate: u32)
    requires
        fee_rate <= FEE_RATE_DENOMINATOR_VALUE,
    ensures
        amount_less_fee(amount_remaining, fee_rate) <= amount_remaining,
{
    let a = amount_remaining as nat;
    let k = (FEE_RATE_DENOMINATOR_VALUE - fee_rate) as nat;
    let d = FEE_RATE_DENOMINATOR_VALUE as nat;
    crate::full_math::lemma_floor_div_bounds(a * k, d);
    assert((a * k) / d <= a) by (nonlinear_arith)
        requires
            ((a * k) / d) * d <= a * k,
            k <= d,
            d > 0,
    ;
}

/// Computes the most that can be taken in or given out on the way from the
/// current price to the target price.
///
/// An amount above `u64::MAX` is no failure here: it comes back as `None`,
/// which tells the caller that the target cannot be reached in one step.
pub fn calculate_amount_in_range(
    sqrt_price_current_x64: u128,
    sqrt_price_target_x64: u128,
    liquidity: u128,
    zero_for_one: bool,
    is_base_input: bool,
    _block_timestamp: u32,
) -> (r: Result<Option<u64>, ErrorCode>)
    ensures
        r == amount_in_range_spec(
            sqrt_price_current_x64,
            sqrt_price_target_x64,
            liquidity,
            zero_for_one,
            is_base_input,
        ),
{
    let result = if is_base_input {
        if zero_for_one {
            get_delta_amount_0_unsigned(
                sqrt_price_target_x64,
                sqrt_price_current_x64,
                liquidity,
                true,
            )
        } else {
            get_delta_amount_1_unsigned(
                sqrt_price_current_x64,
                sqrt_price_target_x64,
                liquidity,
                true,
            )
        }
    } else {
        if zero_for_one {
            get_delta_amount_1_unsigned(
                sqrt_price_target_x64,
                sqrt_price_current_x64,
                liquidity,
                false,
            )
        } else {
            get_delta_amount_0_unsigned(
                sqrt_price_current_x64,
                sqrt_price_target_x64,
                liquidity,
                false,
            )
        }
    };
    match result {
        Ok(v) => Ok(Some(v)),
        Err(ErrorCode::MaxTokenOverflow) => Ok(None),
        Err(_) => Err(ErrorCode::SqrtPriceLimitOverflow),
    }
}

/// Computes the result of swapping some amount in, or amount out, between the
/// current price and the target price.
pub fn compute_swap_step(
    sqrt_price_current_x64: u128,
    sqrt_price_target_x64: u128,
    liquidity: u128,
    amount_remaining: u64,
    fee_rate: u32,
    is_base_input: bool,
    zero_for_one: bool,
    block_timestamp: u32,
) -> (r: Result<SwapStep, ErrorCode>)
    ensures
        r == compute_swap_step_spec(
            sqrt_price_current_x64,
            sqrt_price_target_x64,
            liquidity,
            amount_remaining,
            fee_rate,
            is_base_input,
            zero_for_one,
        ),
{
    if fee_rate > FEE_RATE_DENOMINATOR_VALUE {
        return Err(ErrorCode::CalculateOverflow);
    }
    let mut swap_step = SwapStep::default();
    let limit = calculate_amount_in_range(
        sqrt_price_current_x64,
        sqrt_price_target_x64,
        liquidity,
        zero_for_one,
        is_base_input,
        block_timestamp,
    )?;
    if is_base_input {
        proof {
            lemma_amount_less_fee_bounded(amount_remaining, fee_rate);
        }
        let amount_remaining_less_fee = match mul_div_floor_u64(
            amount_remaining,
            (FEE_RATE_DENOMINATOR_VALUE - fee_rate) as u64,
            FEE_RATE_DENOMINATOR_VALUE as u64,
        ) {
            Some(v) => v,
            None => {
                return Err(ErrorCode::CalculateOverflow);
            },
        };
        if let Some(amount_in) = limit {
            swap_step.amount_in = amount_in;
        }
        swap_step.sqrt_price_next_x64 = if limit.is_some() && amount_remaining_less_fee
            >= swap_step.amount_in {
            sqrt_price_target_x64
        } else {
            get_next_sqrt_price_from_input(
                sqrt_price_current_x64,
                liquidity,
                amount_remaining_less_fee,
                zero_for_one,
            )?
        };
    } else {
        if let Some(amount_out) = limit {
            swap_step.amount_out = amount_out;
        }
        swap_step.sqrt_price_next_x64 = if limit.is_some() && amount_remaining
            >= swap_step.amount_out {
            sqrt_price_target_x64
        } else {
            get_next_sqrt_price_from_output(
                sqrt_price_current_x64,
                liquidity,
                amount_remaining,
                zero_for_one,
            )?
        };
    }

    // Whether the step went all the way to the target price.
    let max = sqrt_price_target_x64 == swap_step.sqrt_price_next_x64;
    if zero_for_one {
        // A step that reaches the target keeps the amount that the caller asked for.
        if !(max && is_base_input) {
            swap_step.amount_in = get_delta_amount_0_unsigned(
                swap_step.sqrt_price_next_x64,
                sqrt_price_current_x64,
                liquidity,
                true,
            )?;
        }
        if !(max && !is_base_input) {
            swap_step.amount_out = get_delta_amount_1_unsigned(
                swap_step.sqrt_price_next_x64,
                sqrt_price_current_x64,
                liquidity,
                false,
            )?;
        }
    } else {
        if !(max && is_base_input) {
            swap_step.amount_in = get_delta_amount_1_unsigned(
                sqrt_price_current_x64,
                swap_step.sqrt_price_next_x64,
                liquidity,
                true,
            )?;
        }
        if !(max && !is_base_input) {
            swap_step.amount_out = get_delta_amount_0_unsigned(
                sqrt_price_current_x64,
                swap_step.sqrt_price_next_x64,
                liquidity,
                false,
            )?;
        }
    }

    // An exact-output step never gives out more than was asked for.
    if !is_base_input && swap_step.amount_out > amount_remaining {
        swap_step.amount_out = amount_remaining;
    }

    swap_step.fee_amount = if is_base_input && !max {
        // The target was not reached: what is left of the input is the fee.
        match amount_remaining.checked_sub(swap_step.amount_in) {
            Some(fee) => fee,
            None => {
                return Err(ErrorCode::CalculateOverflow);
            },
        }
    } else {
        match mul_div_ceil_u64(
            swap_step.amount_in,
            fee_rate as u64,
            (FEE_RATE_DENOMINATOR_VALUE - fee_rate) as u64,
        ) {
            Some(fee) => fee,
            None => {
                return Err(ErrorCode::CalculateOverflow);
            },
        }
    };

    Ok(swap_step)
}

} // verus!
