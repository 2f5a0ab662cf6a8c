//! What the swap logic reads of a pool and of its fee configuration.

use vstd::prelude::*;
use crate::error::ErrorCode;
use crate::tick::{array_start_index, array_start_index_wide, lemma_array_start_index};
use crate::tick_math::{MAX_TICK, MIN_TICK};

verus! {

/// How many tick arrays a pool's own bitmap tells of, on each side of tick
/// zero.
pub const TICK_ARRAY_BITMAP_SIZE: i32 = 512;

/// The operations that a pool's status bits can switch off, by the place of
/// their bit.
#[derive(Clone, Copy, Debug, PartialEq, Eq, Structural)]
pub enum PoolStatusBitIndex {
    OpenPositionOrIncreaseLiquidity,
    DecreaseLiquidity,
    CollectFee,
    CollectReward,
    Swap,
}

impl PoolStatusBitIndex {
    /// The bit of the operation in the status.
    pub open spec fn spec_mask(self) -> u8 {
        match self {
            PoolStatusBitIndex::OpenPositionOrIncreaseLiquidity => 1u8,
            PoolStatusBitIndex::DecreaseLiquidity => 2u8,
            PoolStatusBitIndex::CollectFee => 4u8,
            PoolStatusBitIndex::CollectReward => 8u8,
            PoolStatusBitIndex::Swap => 16u8,
        }
    }

    /// The bit of the operation in the status.
    #[verifier::when_used_as_spec(spec_mask)]
    pub fn mask(self) -> (r: u8)
        ensures
            r == self.spec_mask(),
    {
        match self {
            PoolStatusBitIndex::OpenPositionOrIncreaseLiquidity => 1u8,
            PoolStatusBitIndex::DecreaseLiquidity => 2u8,
            PoolStatusBitIndex::CollectFee => 4u8,
            PoolStatusBitIndex::CollectReward => 8u8,
            PoolStatusBitIndex::Swap => 16u8,
        }
    }
}

/// The state of a pool, as far as prices, liquidity and fees go.
#[derive(Clone, Copy, Debug, PartialEq, Eq)]
pub struct PoolState {
    /// The current price as a Q64.64 square root.
    pub sqrt_price_x64: u128,
    /// The tick of the current price.
    pub tick_current: i32,
    /// The liquidity that is in range at the current price.
    pub liquidity: u128,
    /// The stride of usable ticks.
    pub tick_spacing: u16,
    /// Fee growth per unit of liquidity so far, for each token, modulo `2^128`.
    pub fee_growth_global_0_x64: u128,
    pub fee_growth_global_1_x64: u128,
    /// The time at which the pool opens, in seconds.
    pub open_time: u64,
    /// Bit 0: the decay fee is on. Bit 1: it applies when token 0 is sold.
    /// Bit 2: it applies when token 1 is sold.
    pub decay_fee_flag: u8,
    /// The decay fee at the opening time, in percent.
    pub decay_fee_init_fee_rate: u8,
    /// By how many percent the decay fee falls in each interval.
    pub decay_fee_decrease_rate: u8,
    /// The length of an interval, in seconds.
    pub decay_fee_decrease_interval: u32,
    /// Bits that switch operations off.
    pub status: u8,
    /// Which tick arrays near tick zero hold an initialized tick: bit `i`
    /// of the 1024 stands for the tick array whose start index is
    /// `(i - 512) * 60 * tick_spacing`.
    pub tick_array_bitmap: [u64; 16],
}

/// The fee configuration of a pool.
#[derive(Clone, Copy, Debug, PartialEq, Eq, Structural)]
pub struct AmmConfig {
    /// The trade fee, in parts of `FEE_RATE_DENOMINATOR_VALUE`.
    pub trade_fee_rate: u32,
    /// The protocol's share of the trade fee.
    pub protocol_fee_rate: u32,
    /// The fund's share of the trade fee.
    pub fund_fee_rate: u32,
    /// The stride of usable ticks.
    pub tick_spacing: u16,
}

/// The running state of a swap.
#[derive(Clone, Copy, Debug, PartialEq, Eq, Structural)]
pub struct SwapState {
    /// What is left of the amount that the caller specified.
    pub amount_specified_remaining: u64,
    /// What has been swapped out (exact input) or in (exact output) so far.
    pub amount_calculated: u64,
    /// The current price.
    pub sqrt_price_x64: u128,
    /// The tick of the current price.
    pub tick: i32,
    /// The fee growth of the input token.
    pub fee_growth_global_x64: u128,
    /// The protocol's fees so far.
    pub protocol_fee: u64,
    /// The fund's fees so far.
    pub fund_fee: u64,
    /// The liquidity in range.
    pub liquidity: u128,
    /// The fees of all steps so far.
    pub fee_amount: u64,
}

/// The first tick beyond the tick arrays that a pool's own bitmap tells of:
/// `512 * 60 * tick_spacing`.
pub open spec fn max_tick_in_tickarray_bitmap(tick_spacing: int) -> int {
    512 * 60 * tick_spacing
}

/// The start indexes that a pool's own bitmap can tell of: from the first
/// of the pair up to, but not including, the second. The bitmap's own range
/// is cut to the tick arrays that hold a tick of the tick range.
pub open spec fn tick_array_start_index_range_spec(tick_spacing: int) -> (int, int) {
    let boundary = max_tick_in_tickarray_bitmap(tick_spacing);
    (
        if -boundary < MIN_TICK {
            array_start_index(MIN_TICK as int, tick_spacing)
        } else {
            -boundary
        },
        if boundary > MAX_TICK {
            array_start_index(MAX_TICK as int, tick_spacing) + 60 * tick_spacing
        } else {
            boundary
        },
    )
}

/// Whether the tick array of a tick is beyond what a pool's own bitmap can
/// tell of.
pub open spec fn overflows_default_bitmap(tick_index: i32, tick_spacing: u16) -> bool {
    let range = tick_array_start_index_range_spec(tick_spacing as int);
    let start = array_start_index(tick_index as int, tick_spacing as int);
    start >= range.1 || start < range.0
}

impl PoolState {
    /// Whether an operation is allowed: its bit in the status is clear.
    pub open spec fn spec_get_status_by_bit(&self, bit: PoolStatusBitIndex) -> bool {
        self.status & bit.spec_mask() == 0
    }

    /// Whether an operation is allowed: its bit in the status is clear.
    #[verifier::when_used_as_spec(spec_get_status_by_bit)]
    pub fn get_status_by_bit(&self, bit: PoolStatusBitIndex) -> (r: bool)
        ensures
            r == self.spec_get_status_by_bit(bit),
    {
        self.status & bit.mask() == 0
    }

    /// The start indexes that the pool's own bitmap can tell of: from the
    /// first of the pair up to, but not including, the second.
    pub fn tick_array_start_index_range(&self) -> (r: (i32, i32))
        requires
            self.tick_spacing > 0,
        ensures
            r.0 == tick_array_start_index_range_spec(self.tick_spacing as int).0,
            r.1 == tick_array_start_index_range_spec(self.tick_spacing as int).1,
    {
        let boundary: i64 = 30720i64 * (self.tick_spacing as i64);
        proof {
            lemma_array_start_index(MIN_TICK as int, self.tick_spacing as int);
            lemma_array_start_index(MAX_TICK as int, self.tick_spacing as int);
        }
        let max_boundary: i64 = if boundary > MAX_TICK as i64 {
            array_start_index_wide(MAX_TICK, self.tick_spacing) + 60 * (self.tick_spacing as i64)
        } else {
            boundary
        };
        let min_boundary: i64 = if -boundary < MIN_TICK as i64 {
            array_start_index_wide(MIN_TICK, self.tick_spacing)
        } else {
            -boundary
        };
        (min_boundary as i32, max_boundary as i32)
    }

    /// Whether the tick array of any of the ticks is beyond what the pool's
    /// own bitmap can tell of, so that the bitmap extension is needed.
    pub fn is_overflow_default_tickarray_bitmap(&self, tick_indexs: Vec<i32>) -> (r: bool)
        requires
            self.tick_spacing > 0,
        ensures
            r == exists|i: int|
                0 <= i < tick_indexs@.len() && overflows_default_bitmap(
                    #[trigger] tick_indexs@[i],
                    self.tick_spacing,
                ),
    {
        let (min_boundary, max_boundary) = self.tick_array_start_index_range();
        let mut i: usize = 0;
        while i < tick_indexs.len()
            invariant
                i <= tick_indexs@.len(),
                self.tick_spacing > 0,
                min_boundary == tick_array_start_index_range_spec(self.tick_spacing as int).0,
                max_boundary == tick_array_start_index_range_spec(self.tick_spacing as int).1,
                forall|k: int|
                    0 <= k < i ==> !overflows_default_bitmap(
                        #[trigger] tick_indexs@[k],
                        self.tick_spacing,
                    ),
            decreases tick_indexs@.len() - i,
        {
            let start = array_start_index_wide(tick_indexs[i], self.tick_spacing);
            if start >= max_boundary as i64 || start < min_boundary as i64 {
                return true;
            }
            i += 1;
        }
        false
    }

    /// Checks that positions may be opened and liquidity increased:
    /// `NotApproved` where the pool's status forbids it.
    pub fn check_increase_liquidity_allowed(&self) -> (r: Result<(), ErrorCode>)
        ensures
            r == (if self.spec_get_status_by_bit(
                PoolStatusBitIndex::OpenPositionOrIncreaseLiquidity,
            ) {
                Ok::<(), ErrorCode>(())
            } else {
                Err::<(), ErrorCode>(ErrorCode::NotApproved)
            }),
    {
        if !self.get_status_by_bit(PoolStatusBitIndex::OpenPositionOrIncreaseLiquidity) {
            return Err(ErrorCode::NotApproved);
        }
        Ok(())
    }
}

} // verus!
