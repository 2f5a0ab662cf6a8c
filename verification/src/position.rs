//! The fees that a position has earned, from the fee growth inside its range.

use vstd::prelude::*;
use crate::error::ErrorCode;
use crate::full_math::{mul_div_floor, mul_div_floor_u128};
use crate::tick::wrap_sub;
use crate::wide::{Q64, pow64};

verus! {

/// The fees that a position of `liquidity` earns while the fee growth inside
/// its range goes from `last` to `latest`:
/// `liquidity * ((latest - last) mod 2^128) / 2^64`, rounded down.
pub open spec fn fees_for_growth(last: u128, latest: u128, liquidity: u128) -> nat {
    mul_div_floor(wrap_sub(latest, last) as nat, liquidity as nat, pow64())
}

/// What `calculate_latest_token_fees` returns: the fees so far and the fees
/// for the growth since, where the latter are counted as zero from
/// `u64::MAX` on. `CalculateOverflow` where the fees for the growth leave 128
/// bits or the sum leaves 64 bits.
pub open spec fn latest_token_fees_spec(
    last_total_fees: u64,
    fee_growth_inside_last_x64: u128,
    fee_growth_inside_latest_x64: u128,
    liquidity: u128,
) -> Result<u64, ErrorCode> {
    let earned = fees_for_growth(
        fee_growth_inside_last_x64,
        fee_growth_inside_latest_x64,
        liquidity,
    );
    let counted = if earned < u64::MAX {
        earned
    } else {
        0
    };
    if earned > u128::MAX || last_total_fees + counted > u64::MAX {
        Err(ErrorCode::CalculateOverflow)
    } else {
        Ok((last_total_fees + counted) as u64)
    }
}

/// The fees of a position after the fee growth inside its range has gone
/// from `fee_growth_inside_last_x64` to `fee_growth_inside_latest_x64`.
pub fn calculate_latest_token_fees(
    last_total_fees: u64,
    fee_growth_inside_last_x64: u128,
    fee_growth_inside_latest_x64: u128,
    liquidity: u128,
) -> (r: Result<u64, ErrorCode>)
    ensures
        r == latest_token_fees_spec(
            last_total_fees,
            fee_growth_inside_last_x64,
            fee_growth_inside_latest_x64,
            liquidity,
        ),
{
    let growth = fee_growth_inside_latest_x64.wrapping_sub(fee_growth_inside_last_x64);
    let earned = match mul_div_floor_u128(growth, liquidity, Q64) {
        Some(v) => v,
        None => {
            return Err(ErrorCode::CalculateOverflow);
        },
    };
    let counted: u64 = if earned < u64::MAX as u128 {
        earned as u64
    } else {
        0
    };
    match last_total_fees.checked_add(counted) {
        Some(total) => Ok(total),
        None => Err(ErrorCode::CalculateOverflow),
    }
}

} // verus!
