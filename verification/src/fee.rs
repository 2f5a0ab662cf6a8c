//! The fee schedule: a base trade fee, and a decay fee that starts high when
//! the pool opens and falls by a fixed share in each interval.

use vstd::prelude::*;
use crate::full_math::{mul_div_ceil, mul_div_ceil_u64, lemma_ceil_div_least};
use crate::pool::{AmmConfig, PoolState};

verus! {

/// One, in hundredths of a bip.
pub open spec fn fee_unit() -> nat {
    1_000_000
}

/// Whether the decay fee is on.
pub open spec fn decay_fee_enabled(pool_state: PoolState) -> bool {
    pool_state.decay_fee_flag & 1u8 != 0
}

/// Whether the decay fee applies to swaps that sell token 0.
pub open spec fn decay_fee_on_sell_mint0(pool_state: PoolState) -> bool {
    pool_state.decay_fee_flag & 2u8 != 0
}

/// Whether the decay fee applies to swaps that sell token 1.
pub open spec fn decay_fee_on_sell_mint1(pool_state: PoolState) -> bool {
    pool_state.decay_fee_flag & 4u8 != 0
}

/// `rate * base^exp` in units of `fee_unit()`, by squaring, with every
/// product rounded up.
pub open spec fn decayed(rate: nat, base: nat, exp: nat) -> nat
    decreases exp,
{
    if exp == 0 {
        rate
    } else {
        let next_rate = if exp % 2 == 1 {
            mul_div_ceil(rate, base, fee_unit())
        } else {
            rate
        };
        decayed(next_rate, mul_div_ceil(base, base, fee_unit()), exp / 2)
    }
}

/// What is left of one after a fall by `decrease_rate` percent, in units of
/// `fee_unit()`.
pub open spec fn decay_base(decrease_rate: u8) -> nat {
    if decrease_rate >= 100 {
        0
    } else {
        (fee_unit() - decrease_rate * 10_000) as nat
    }
}

/// The decay fee after `intervals` whole intervals:
/// `init_rate% * (1 - decrease_rate%)^intervals`, in hundredths of a bip.
pub open spec fn decay_fee_after(init_fee_rate: u8, decrease_rate: u8, intervals: nat) -> nat {
    mul_div_ceil(
        decayed(fee_unit(), decay_base(decrease_rate), intervals),
        init_fee_rate as nat,
        100,
    )
}

/// The decay fee at a time: zero while the decay fee is off, before the pool
/// opens, or where the interval is zero; else the fee after the whole
/// intervals that have passed since the pool opened.
pub open spec fn decay_fee_rate_spec(pool_state: PoolState, current_timestamp: u64) -> nat {
    if !decay_fee_enabled(pool_state) || current_timestamp < pool_state.open_time
        || pool_state.decay_fee_decrease_interval == 0 {
        0
    } else {
        decay_fee_after(
            pool_state.decay_fee_init_fee_rate,
            pool_state.decay_fee_decrease_rate,
            ((current_timestamp - pool_state.open_time) / (
            pool_state.decay_fee_decrease_interval as int)) as nat,
        )
    }
}

/// The fee that applies to a swap: the larger of the base fee and, where the
/// decay fee applies to the swap's direction, the decay fee.
pub open spec fn effective_fee_rate_spec(
    pool_state: PoolState,
    amm_config: AmmConfig,
    zero_for_one: bool,
    current_timestamp: u64,
) -> nat {
    let applies = decay_fee_enabled(pool_state) && (if zero_for_one {
        decay_fee_on_sell_mint0(pool_state)
    } else {
        decay_fee_on_sell_mint1(pool_state)
    });
    let decay: nat = if applies {
        decay_fee_rate_spec(pool_state, current_timestamp)
    } else {
        0
    };
    if decay > amm_config.trade_fee_rate {
        decay
    } else {
        amm_config.trade_fee_rate as nat
    }
}

/// A product of two shares of one, rounded up, is a share of one.
pub proof fn lemma_share_product(a: nat, b: nat)
    requires
        a <= fee_unit(),
        b <= fee_unit(),
    ensures
        mul_div_ceil(a, b, fee_unit()) <= a,
        mul_div_ceil(a, b, fee_unit()) <= fee_unit(),
{
    assert(a * b <= a * fee_unit()) by (nonlinear_arith)
        requires
            b <= fee_unit(),
    ;
    lemma_ceil_div_least(a * b, fee_unit(), a);
}

/// A decayed share of one is a share of one.
pub proof fn lemma_decayed_bounded(rate: nat, base: nat, exp: nat)
    requires
        rate <= fee_unit(),
        base <= fee_unit(),
    ensures
        decayed(rate, base, exp) <= fee_unit(),
    decreases exp,
{
    if exp > 0 {
        lemma_share_product(rate, base);
        lemma_share_product(base, base);
        let next_rate = if exp % 2 == 1 {
            mul_div_ceil(rate, base, fee_unit())
        } else {
            rate
        };
        lemma_decayed_bounded(next_rate, mul_div_ceil(base, base, fee_unit()), exp / 2);
    }
}

/// The decay fee fits 32 bits: it is at most `init_fee_rate` percent.
pub proof fn lemma_decay_fee_bounded(init_fee_rate: u8, decrease_rate: u8, intervals: nat)
    ensures
        decay_fee_after(init_fee_rate, decrease_rate, intervals) <= 10_000 * init_fee_rate,
{
    let d = decayed(fee_unit(), decay_base(decrease_rate), intervals);
    lemma_decayed_bounded(fee_unit(), decay_base(decrease_rate), intervals);
    assert((10_000 * init_fee_rate) * 100 >= d * init_fee_rate) by (nonlinear_arith)
        requires
            d <= 1_000_000,
    ;
    lemma_ceil_div_least(d * init_fee_rate as nat, 100, 10_000 * init_fee_rate as nat);
}

/// At the start of interval `k`, and all through it, the decay fee is the
/// fee after `k` intervals.
pub proof fn lemma_decay_fee_within_interval(pool_state: PoolState, k: nat, current_timestamp: u64)
    requires
        decay_fee_enabled(pool_state),
        pool_state.decay_fee_decrease_interval > 0,
        pool_state.open_time + k * pool_state.decay_fee_decrease_interval <= current_timestamp,
        current_timestamp < pool_state.open_time + (k + 1)
            * pool_state.decay_fee_decrease_interval,
    ensures
        decay_fee_rate_spec(pool_state, current_timestamp) == decay_fee_after(
            pool_state.decay_fee_init_fee_rate,
            pool_state.decay_fee_decrease_rate,
            k,
        ),
{
    let interval = pool_state.decay_fee_decrease_interval as int;
    let elapsed = current_timestamp - pool_state.open_time;
    assert(k * interval >= 0) by (nonlinear_arith)
        requires
            k >= 0,
            interval > 0,
    ;
    assert((k + 1) * interval == k * interval + interval) by (nonlinear_arith);
    vstd::arithmetic::div_mod::lemma_fundamental_div_mod_converse(
        elapsed,
        interval,
        k as int,
        elapsed - k * interval,
    );
}

/// Check if decay fee is enabled.
pub fn is_decay_fee_enabled(pool_state: &PoolState) -> (r: bool)
    ensures
        r == decay_fee_enabled(*pool_state),
{
    pool_state.decay_fee_flag & 1u8 != 0
}

/// Check if decay fee is enabled for selling mint0.
pub fn is_decay_fee_on_sell_mint0(pool_state: &PoolState) -> (r: bool)
    ensures
        r == decay_fee_on_sell_mint0(*pool_state),
{
    pool_state.decay_fee_flag & 2u8 != 0
}

/// Check if decay fee is enabled for selling mint1.
pub fn is_decay_fee_on_sell_mint1(pool_state: &PoolState) -> (r: bool)
    ensures
        r == decay_fee_on_sell_mint1(*pool_state),
{
    pool_state.decay_fee_flag & 4u8 != 0
}

/// Calculate the decay fee rate at `current_timestamp`, in hundredths of a
/// bip.
pub fn get_decay_fee_rate(pool_state: &PoolState, current_timestamp: u64) -> (r: u32)
    ensures
        r == decay_fee_rate_spec(*pool_state, current_timestamp),
{
    if !is_decay_fee_enabled(pool_state) {
        return 0u32;
    }
    if current_timestamp < pool_state.open_time {
        return 0u32;
    }
    if pool_state.decay_fee_decrease_interval == 0 {
        return 0u32;
    }
    let interval_count: u64 = (current_timestamp - pool_state.open_time) / (
    pool_state.decay_fee_decrease_interval as u64);
    let decay_fee_decrease_rate: u64 = pool_state.decay_fee_decrease_rate as u64 * 10_000;
    let hundredths_of_a_bip: u64 = 1_000_000u64;
    let mut rate: u64 = hundredths_of_a_bip;
    let mut exp: u64 = interval_count;
    let mut base: u64 = hundredths_of_a_bip.saturating_sub(decay_fee_decrease_rate);
    let ghost target = decayed(
        fee_unit(),
        decay_base(pool_state.decay_fee_decrease_rate),
        interval_count as nat,
    );
    while exp > 0
        invariant
            rate <= 1_000_000,
            base <= 1_000_000,
            hundredths_of_a_bip == 1_000_000,
            decayed(rate as nat, base as nat, exp as nat) == target,
        decreases exp,
    {
        proof {
            lemma_share_product(rate as nat, base as nat);
            lemma_share_product(base as nat, base as nat);
        }
        if exp % 2 == 1 {
            rate = match mul_div_ceil_u64(rate, base, hundredths_of_a_bip) {
                Some(v) => v,
                None => rate,
            };
        }
        base = match mul_div_ceil_u64(base, base, hundredths_of_a_bip) {
            Some(v) => v,
            None => base,
        };
        exp /= 2;
    }
    proof {
        lemma_decay_fee_bounded(
            pool_state.decay_fee_init_fee_rate,
            pool_state.decay_fee_decrease_rate,
            interval_count as nat,
        );
    }
    match mul_div_ceil_u64(rate, pool_state.decay_fee_init_fee_rate as u64, 100u64) {
        Some(v) => v as u32,
        None => 0u32,
    }
}

/// Get the effective fee rate, considering both the base fee and the decay
/// fee.
pub fn get_effective_fee_rate(
    pool_state: &PoolState,
    amm_config: &AmmConfig,
    zero_for_one: bool,
    current_timestamp: u64,
) -> (r: u32)
    ensures
        r == effective_fee_rate_spec(*pool_state, *amm_config, zero_for_one, current_timestamp),
{
    let mut fee_rate = amm_config.trade_fee_rate;
    if is_decay_fee_enabled(pool_state) {
        let mut decay_fee_rate = 0u32;
        if zero_for_one && is_decay_fee_on_sell_mint0(pool_state) {
            decay_fee_rate = get_decay_fee_rate(pool_state, current_timestamp);
        } else if !zero_for_one && is_decay_fee_on_sell_mint1(pool_state) {
            decay_fee_rate = get_decay_fee_rate(pool_state, current_timestamp);
        }
        if decay_fee_rate > fee_rate {
            fee_rate = decay_fee_rate;
        }
    }
    fee_rate
}

} // verus!
