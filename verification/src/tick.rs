//! The state kept at one tick, and the arithmetic that places a tick in its
//! array and reads fee and reward growth inside a range of ticks.

use vstd::prelude::*;
use vstd::arithmetic::div_mod::{
    lemma_fundamental_div_mod,
    lemma_fundamental_div_mod_converse,
    lemma_mod_bound,
};
use crate::address::Address;
use crate::error::ErrorCode;
use crate::tick_math::{MAX_TICK, MIN_TICK};

verus! {

/// How many ticks one tick array holds.
pub const TICK_ARRAY_SIZE: i32 = 60;

/// How many ticks one tick array holds, as an index bound.
pub const TICK_ARRAY_SIZE_USIZE: usize = 60;

/// How many reward tokens a pool can have.
pub const REWARD_NUM: usize = 3;

/// The difference of two 128-bit accumulators modulo `2^128`.
pub open spec fn wrap_sub(a: u128, b: u128) -> u128 {
    if a >= b {
        (a - b) as u128
    } else {
        (a + 0x1_0000_0000_0000_0000_0000_0000_0000_0000 - b) as u128
    }
}

/// The sum of two 128-bit accumulators modulo `2^128`.
pub open spec fn wrap_add(a: u128, b: u128) -> u128 {
    if a + b <= u128::MAX {
        (a + b) as u128
    } else {
        (a + b - 0x1_0000_0000_0000_0000_0000_0000_0000_0000) as u128
    }
}

/// What the tick logic reads of a reward: its token, which is the zero
/// address while the reward is unused, and its growth so far.
#[derive(Clone, Copy, Debug, PartialEq, Eq)]
pub struct RewardInfo {
    pub token_mint: Address,
    pub reward_growth_global_x64: u128,
}

impl Default for RewardInfo {
    fn default() -> (r: RewardInfo)
        ensures
            !r.spec_initialized(),
            r.reward_growth_global_x64 == 0,
    {
        RewardInfo { token_mint: Address::default(), reward_growth_global_x64: 0 }
    }
}

impl RewardInfo {
    /// Whether the reward is in use.
    pub open spec fn spec_initialized(&self) -> bool {
        self.token_mint@ != Seq::new(32, |i: int| 0u8)
    }

    /// Whether the reward is in use: its token is not the zero address.
    #[verifier::when_used_as_spec(spec_initialized)]
    pub fn initialized(&self) -> (r: bool)
        ensures
            r == self.spec_initialized(),
    {
        !self.token_mint.is_default()
    }
}

/// The state of one tick.
#[derive(Clone, Copy, Debug, PartialEq, Eq)]
pub struct TickState {
    pub tick: i32,
    /// Liquidity added (or, where negative, removed) when the price crosses
    /// the tick from left to right.
    pub liquidity_net: i128,
    /// The liquidity of all positions that use the tick as a bound.
    pub liquidity_gross: u128,
    /// Fee growth per unit of liquidity on the other side of the tick,
    /// relative to the current tick.
    pub fee_growth_outside_0_x64: u128,
    pub fee_growth_outside_1_x64: u128,
    /// Reward growth per unit of liquidity on the other side of the tick.
    pub reward_growths_outside_x64: [u128; 3],
    pub padding: [u32; 13],
}

impl Default for TickState {
    fn default() -> (r: TickState)
        ensures
            r.is_zero(),
    {
        let r = TickState {
            tick: 0,
            liquidity_net: 0,
            liquidity_gross: 0,
            fee_growth_outside_0_x64: 0,
            fee_growth_outside_1_x64: 0,
            reward_growths_outside_x64: [0u128; 3],
            padding: [0u32; 13],
        };
        assert(r.reward_growths_outside_x64@ =~= seq![0u128, 0u128, 0u128]);
        assert(r.padding@ =~= Seq::new(13, |i: int| 0u32));
        r
    }
}

/// A reward's growth outside a tick after the tick is crossed: flipped
/// against the reward's growth so far where the reward is in use.
pub open spec fn crossed_reward(outside: u128, info: RewardInfo) -> u128 {
    if info.spec_initialized() {
        wrap_sub(info.reward_growth_global_x64, outside)
    } else {
        outside
    }
}

impl TickState {
    /// The length of a tick state in an account's data.
    pub const LEN: usize = 168;

    /// Whether every field of the tick state is zero.
    pub open spec fn is_zero(&self) -> bool {
        &&& self.tick == 0
        &&& self.liquidity_net == 0
        &&& self.liquidity_gross == 0
        &&& self.fee_growth_outside_0_x64 == 0
        &&& self.fee_growth_outside_1_x64 == 0
        &&& self.reward_growths_outside_x64@ == seq![0u128, 0u128, 0u128]
        &&& self.padding@ == Seq::new(13, |i: int| 0u32)
    }

    /// Whether the tick state names `tick` and is zero in every other
    /// field.
    pub open spec fn is_new_for(&self, tick: i32) -> bool {
        self.tick == tick && (TickState { tick: 0, ..*self }).is_zero()
    }

    /// Whether any position uses the tick.
    pub open spec fn spec_is_initialized(&self) -> bool {
        self.liquidity_gross != 0
    }

    /// Whether any position uses the tick.
    #[verifier::when_used_as_spec(spec_is_initialized)]
    pub fn is_initialized(&self) -> (r: bool)
        ensures
            r == self.spec_is_initialized(),
    {
        self.liquidity_gross != 0
    }

    /// Whether a tick lies outside `[MIN_TICK, MAX_TICK]`.
    pub fn check_is_out_of_boundary(tick: i32) -> (r: bool)
        ensures
            r == (tick < MIN_TICK || tick > MAX_TICK),
    {
        tick < MIN_TICK || tick > MAX_TICK
    }

    /// Gives the state its tick. The tick must be in range and a multiple of
    /// the spacing.
    pub fn initialize(&mut self, tick: i32, tick_spacing: u16) -> (r: Result<(), ErrorCode>)
        requires
            tick_spacing > 0,
        ensures
            tick < MIN_TICK || tick > MAX_TICK ==> r == Err::<(), ErrorCode>(
                ErrorCode::InvalidTickIndex,
            ),
            MIN_TICK <= tick <= MAX_TICK && tick as int % tick_spacing as int != 0 ==> r == Err::<
                (),
                ErrorCode,
            >(ErrorCode::TickAndSpacingNotMatch),
            MIN_TICK <= tick <= MAX_TICK && tick as int % tick_spacing as int == 0 ==> r.is_ok(),
            r.is_ok() ==> *final(self) == (TickState { tick, ..*old(self) }),
            r.is_err() ==> *final(self) == *old(self),
    {
        if TickState::check_is_out_of_boundary(tick) {
            return Err(ErrorCode::InvalidTickIndex);
        }
        if !is_multiple_of_spacing(tick, tick_spacing) {
            return Err(ErrorCode::TickAndSpacingNotMatch);
        }
        self.tick = tick;
        Ok(())
    }

    /// Takes a change of liquidity into the tick, for a position that uses
    /// the tick as its lower or, with `upper`, as its upper bound. Returns
    /// whether the tick went from not initialized to initialized or back.
    ///
    /// A tick that was not initialized takes the growth so far as its growth
    /// outside where it is at or below the current tick: all growth before a
    /// tick is first used counts as having come about below it.
    /// `LiquidityAddValueErr` where the gross liquidity would leave 128
    /// bits, `CalculateOverflow` where the net liquidity would leave its 128
    /// bits; the tick then stays as it is.
    pub fn update(
        &mut self,
        tick_current: i32,
        liquidity_delta: i128,
        fee_growth_global_0_x64: u128,
        fee_growth_global_1_x64: u128,
        upper: bool,
        reward_infos: &[RewardInfo; 3],
    ) -> (r: Result<bool, ErrorCode>)
        ensures
            ({
                let before = *old(self);
                let gross = before.liquidity_gross + liquidity_delta;
                let net = if upper {
                    before.liquidity_net - liquidity_delta
                } else {
                    before.liquidity_net + liquidity_delta
                };
                let takes_growth = before.liquidity_gross == 0 && before.tick <= tick_current;
                if !(0 <= gross <= u128::MAX) {
                    r == Err::<bool, ErrorCode>(ErrorCode::LiquidityAddValueErr) && *final(self)
                        == before
                } else if !(i128::MIN <= net <= i128::MAX) {
                    r == Err::<bool, ErrorCode>(ErrorCode::CalculateOverflow) && *final(self)
                        == before
                } else {
                    &&& r == Ok::<bool, ErrorCode>((gross == 0) != (before.liquidity_gross == 0))
                    &&& final(self).tick == before.tick
                    &&& final(self).padding == before.padding
                    &&& final(self).liquidity_gross == gross
                    &&& final(self).liquidity_net == net
                    &&& final(self).fee_growth_outside_0_x64 == (if takes_growth {
                        fee_growth_global_0_x64
                    } else {
                        before.fee_growth_outside_0_x64
                    })
                    &&& final(self).fee_growth_outside_1_x64 == (if takes_growth {
                        fee_growth_global_1_x64
                    } else {
                        before.fee_growth_outside_1_x64
                    })
                    &&& forall|i: int|
                        0 <= i < 3 ==> #[trigger] final(self).reward_growths_outside_x64[i] == (
                        if takes_growth {
                            reward_infos[i].reward_growth_global_x64
                        } else {
                            before.reward_growths_outside_x64[i]
                        })
                }
            }),
    {
        let liquidity_gross_before = self.liquidity_gross;
        let liquidity_gross_after = crate::liquidity_math::add_delta(
            liquidity_gross_before,
            liquidity_delta,
        )?;
        let liquidity_net_after = match if upper {
            self.liquidity_net.checked_sub(liquidity_delta)
        } else {
            self.liquidity_net.checked_add(liquidity_delta)
        } {
            Some(net) => net,
            None => {
                return Err(ErrorCode::CalculateOverflow);
            },
        };
        let flipped = (liquidity_gross_after == 0) != (liquidity_gross_before == 0);
        if liquidity_gross_before == 0 && self.tick <= tick_current {
            self.fee_growth_outside_0_x64 = fee_growth_global_0_x64;
            self.fee_growth_outside_1_x64 = fee_growth_global_1_x64;
            self.reward_growths_outside_x64 = [
                reward_infos[0].reward_growth_global_x64,
                reward_infos[1].reward_growth_global_x64,
                reward_infos[2].reward_growth_global_x64,
            ];
        }
        self.liquidity_gross = liquidity_gross_after;
        self.liquidity_net = liquidity_net_after;
        Ok(flipped)
    }

    /// Empties the tick: nothing is left of it but its padding.
    pub fn clear(&mut self)
        ensures
            final(self).tick == 0,
            final(self).liquidity_net == 0,
            final(self).liquidity_gross == 0,
            final(self).fee_growth_outside_0_x64 == 0,
            final(self).fee_growth_outside_1_x64 == 0,
            final(self).reward_growths_outside_x64@ == seq![0u128, 0u128, 0u128],
            final(self).padding == old(self).padding,
    {
        self.tick = 0;
        self.liquidity_net = 0;
        self.liquidity_gross = 0;
        self.fee_growth_outside_0_x64 = 0;
        self.fee_growth_outside_1_x64 = 0;
        self.reward_growths_outside_x64 = [0u128; 3];
        assert(self.reward_growths_outside_x64@ =~= seq![0u128, 0u128, 0u128]);
    }

    /// Moves the tick to the other side of the price: each growth outside
    /// becomes the growth so far less what it was, modulo `2^128`. Returns the
    /// liquidity to add when the tick is crossed from left to right.
    pub fn cross(
        &mut self,
        fee_growth_global_0_x64: u128,
        fee_growth_global_1_x64: u128,
        reward_infos: &[RewardInfo; 3],
    ) -> (r: i128)
        ensures
            r == old(self).liquidity_net,
            final(self).tick == old(self).tick,
            final(self).liquidity_net == old(self).liquidity_net,
            final(self).liquidity_gross == old(self).liquidity_gross,
            final(self).padding == old(self).padding,
            final(self).fee_growth_outside_0_x64 == wrap_sub(
                fee_growth_global_0_x64,
                old(self).fee_growth_outside_0_x64,
            ),
            final(self).fee_growth_outside_1_x64 == wrap_sub(
                fee_growth_global_1_x64,
                old(self).fee_growth_outside_1_x64,
            ),
            forall|i: int|
                0 <= i < 3 ==> #[trigger] final(self).reward_growths_outside_x64[i]
                    == crossed_reward(old(self).reward_growths_outside_x64[i], reward_infos[i]),
    {
        self.fee_growth_outside_0_x64 =
        fee_growth_global_0_x64.wrapping_sub(self.fee_growth_outside_0_x64);
        self.fee_growth_outside_1_x64 =
        fee_growth_global_1_x64.wrapping_sub(self.fee_growth_outside_1_x64);
        let mut i: usize = 0;
        while i < 3
            invariant
                i <= 3,
                self.tick == old(self).tick,
                self.liquidity_net == old(self).liquidity_net,
                self.liquidity_gross == old(self).liquidity_gross,
                self.padding == old(self).padding,
                self.fee_growth_outside_0_x64 == wrap_sub(
                    fee_growth_global_0_x64,
                    old(self).fee_growth_outside_0_x64,
                ),
                self.fee_growth_outside_1_x64 == wrap_sub(
                    fee_growth_global_1_x64,
                    old(self).fee_growth_outside_1_x64,
                ),
                forall|k: int|
                    0 <= k < i ==> #[trigger] self.reward_growths_outside_x64[k] == crossed_reward(
                        old(self).reward_growths_outside_x64[k],
                        reward_infos[k],
                    ),
                forall|k: int|
                    i <= k < 3 ==> #[trigger] self.reward_growths_outside_x64[k] == old(
                        self,
                    ).reward_growths_outside_x64[k],
            decreases 3 - i,
        {
            if reward_infos[i].initialized() {
                let flipped = reward_infos[i].reward_growth_global_x64.wrapping_sub(
                    self.reward_growths_outside_x64[i],
                );
                self.reward_growths_outside_x64[i] = flipped;
            }
            i += 1;
        }
        self.liquidity_net
    }
}

/// Whether `tick` is a multiple of the spacing.
pub fn is_multiple_of_spacing(tick: i32, tick_spacing: u16) -> (r: bool)
    requires
        tick_spacing > 0,
    ensures
        r == (tick as int % tick_spacing as int == 0),
{
    let spacing: i64 = tick_spacing as i64;
    let magnitude: i64 = if tick < 0 {
        -(tick as i64)
    } else {
        tick as i64
    };
    proof {
        lemma_negation_keeps_multiples(tick as int, tick_spacing as int);
    }
    magnitude % spacing == 0
}

/// A number is a multiple of `d` exactly when its negation is.
pub proof fn lemma_negation_keeps_multiples(x: int, d: int)
    requires
        d > 0,
    ensures
        (x % d == 0) == ((-x) % d == 0),
{
    lemma_fundamental_div_mod(x, d);
    lemma_fundamental_div_mod(-x, d);
    lemma_mod_bound(x, d);
    lemma_mod_bound(-x, d);
    if x % d == 0 {
        assert((-(x / d)) * d == -(d * (x / d))) by (nonlinear_arith);
        lemma_fundamental_div_mod_converse(-x, d, -(x / d), 0);
    }
    if (-x) % d == 0 {
        assert((-((-x) / d)) * d == -(d * ((-x) / d))) by (nonlinear_arith);
        lemma_fundamental_div_mod_converse(x, d, -((-x) / d), 0);
    }
}

/// How many ticks lie between the starts of two neighbouring arrays.
pub open spec fn ticks_in_array(tick_spacing: int) -> int {
    60 * tick_spacing
}

/// The start index of the array that holds `tick`: the greatest multiple of
/// `60 * tick_spacing` that is at most `tick`.
pub open spec fn array_start_index(tick: int, tick_spacing: int) -> int {
    (tick / ticks_in_array(tick_spacing)) * ticks_in_array(tick_spacing)
}

/// The slot of `tick` in the array that starts at `start`.
pub open spec fn slot_of_tick(start: int, tick: int, tick_spacing: int) -> int {
    (tick - start) / tick_spacing
}

/// Whether `start` can be the start index of a tick array: a multiple of
/// `60 * tick_spacing` in the tick range, or the start of the array that
/// holds `MIN_TICK`.
pub open spec fn is_valid_start_index(start: int, tick_spacing: int) -> bool {
    if start < MIN_TICK {
        start == array_start_index(MIN_TICK as int, tick_spacing)
    } else if start > MAX_TICK {
        false
    } else {
        start % ticks_in_array(tick_spacing) == 0
    }
}

/// The growth on the far side of the lower tick, seen from `current`.
pub open spec fn growth_below(lower_tick: i32, outside: u128, current: i32, global: u128) -> u128 {
    if current >= lower_tick {
        outside
    } else {
        wrap_sub(global, outside)
    }
}

/// The growth on the far side of the upper tick, seen from `current`.
pub open spec fn growth_above(upper_tick: i32, outside: u128, current: i32, global: u128) -> u128 {
    if current < upper_tick {
        outside
    } else {
        wrap_sub(global, outside)
    }
}

/// The growth between two ticks: the growth so far less the growth below the
/// lower tick and the growth above the upper tick, modulo `2^128`.
pub open spec fn growth_inside(
    lower_tick: i32,
    lower_outside: u128,
    upper_tick: i32,
    upper_outside: u128,
    current: i32,
    global: u128,
) -> u128 {
    wrap_sub(
        wrap_sub(global, growth_below(lower_tick, lower_outside, current, global)),
        growth_above(upper_tick, upper_outside, current, global),
    )
}

/// The start index, and with it the facts that place `tick` in its array.
pub proof fn lemma_array_start_index(tick: int, tick_spacing: int)
    requires
        tick_spacing > 0,
    ensures
        array_start_index(tick, tick_spacing) <= tick < array_start_index(tick, tick_spacing)
            + ticks_in_array(tick_spacing),
        array_start_index(tick, tick_spacing) % ticks_in_array(tick_spacing) == 0,
        0 <= slot_of_tick(array_start_index(tick, tick_spacing), tick, tick_spacing) < 60,
{
    let d = ticks_in_array(tick_spacing);
    let q = tick / d;
    lemma_fundamental_div_mod(tick, d);
    lemma_mod_bound(tick, d);
    assert(q * d == d * q) by (nonlinear_arith);
    lemma_fundamental_div_mod_converse(q * d, d, q, 0);
    let off = tick - q * d;
    let slot = off / tick_spacing;
    lemma_fundamental_div_mod(off, tick_spacing);
    lemma_mod_bound(off, tick_spacing);
    assert(0 <= slot < 60) by (nonlinear_arith)
        requires
            off == tick_spacing * slot + off % tick_spacing,
            0 <= off % tick_spacing < tick_spacing,
            0 <= off < 60 * tick_spacing,
            tick_spacing > 0,
    ;
}

/// Rounded-down division of a negative number, by way of its magnitude.
pub proof fn lemma_floor_div_negative(x: int, d: int)
    requires
        x < 0,
        d > 0,
    ensures
        x / d == -((-x + d - 1) / d),
{
    let m = -x + d - 1;
    let c = m / d;
    lemma_fundamental_div_mod(m, d);
    lemma_mod_bound(m, d);
    let r = m % d;
    assert((-c) * d == -(d * c)) by (nonlinear_arith);
    lemma_fundamental_div_mod_converse(x, d, -c, d - 1 - r);
}

/// The start index of the array that holds `tick_index`, without a limit on
/// the result.
pub fn array_start_index_wide(tick_index: i32, tick_spacing: u16) -> (r: i64)
    requires
        tick_spacing > 0,
    ensures
        r == array_start_index(tick_index as int, tick_spacing as int),
{
    let per_array: i64 = 60 * (tick_spacing as i64);
    let tick: i64 = tick_index as i64;
    if tick >= 0 {
        let count: i64 = tick / per_array;
        proof {
            lemma_fundamental_div_mod(tick as int, per_array as int);
            lemma_mod_bound(tick as int, per_array as int);
            assert(0 <= count * per_array <= tick) by (nonlinear_arith)
                requires
                    tick == per_array * count + tick % per_array,
                    0 <= tick % per_array,
                    count >= 0,
                    per_array > 0,
            ;
        }
        count * per_array
    } else {
        let up: i64 = -tick + per_array - 1;
        let count: i64 = up / per_array;
        proof {
            lemma_floor_div_negative(tick as int, per_array as int);
            lemma_fundamental_div_mod(up as int, per_array as int);
            lemma_mod_bound(up as int, per_array as int);
            assert(0 <= count * per_array <= up) by (nonlinear_arith)
                requires
                    up == per_array * count + up % per_array,
                    0 <= up % per_array,
                    count >= 0,
                    per_array > 0,
            ;
            assert((-count) * per_array == -(count * per_array)) by (nonlinear_arith);
        }
        -(count * per_array)
    }
}

/// Placement of ticks in arrays, and growth inside a range of ticks.
pub struct TickUtils;

impl TickUtils {
    /// The start index of the array that holds `tick_index`.
    ///
    /// The start index must fit an `i32`, as it does for every tick of the
    /// tick range.
    pub fn get_array_start_index(tick_index: i32, tick_spacing: u16) -> (r: i32)
        requires
            tick_spacing > 0,
            i32::MIN <= array_start_index(tick_index as int, tick_spacing as int),
        ensures
            r == array_start_index(tick_index as int, tick_spacing as int),
    {
        proof {
            lemma_array_start_index(tick_index as int, tick_spacing as int);
        }
        array_start_index_wide(tick_index, tick_spacing) as i32
    }

    /// Whether `tick_index` can be the start index of a tick array.
    pub fn check_is_valid_start_index(tick_index: i32, tick_spacing: u16) -> (r: bool)
        requires
            tick_spacing > 0,
        ensures
            r == is_valid_start_index(tick_index as int, tick_spacing as int),
    {
        if TickState::check_is_out_of_boundary(tick_index) {
            if tick_index > MAX_TICK {
                return false;
            }
            let min_start_index = array_start_index_wide(MIN_TICK, tick_spacing);
            return tick_index as i64 == min_start_index;
        }
        let per_array: i64 = 60 * (tick_spacing as i64);
        let magnitude: i64 = if tick_index < 0 {
            -(tick_index as i64)
        } else {
            tick_index as i64
        };
        proof {
            lemma_negation_keeps_multiples(tick_index as int, per_array as int);
        }
        magnitude % per_array == 0
    }

    /// The slot of `tick_index` in the array that starts at
    /// `tick_array_start_index`, or `InvalidTickArray` where the tick belongs
    /// to another array.
    pub fn get_tick_offset_in_tick_array(
        tick_array_start_index: i32,
        tick_index: i32,
        tick_spacing: u16,
    ) -> (r: Result<usize, ErrorCode>)
        requires
            tick_spacing > 0,
        ensures
            array_start_index(tick_index as int, tick_spacing as int) == tick_array_start_index
                <==> r.is_ok(),
            r.is_ok() ==> r.unwrap() == slot_of_tick(
                tick_array_start_index as int,
                tick_index as int,
                tick_spacing as int,
            ) && r.unwrap() < 60,
            r.is_err() ==> r == Err::<usize, ErrorCode>(ErrorCode::InvalidTickArray),
    {
        let start = array_start_index_wide(tick_index, tick_spacing);
        if start != tick_array_start_index as i64 {
            return Err(ErrorCode::InvalidTickArray);
        }
        proof {
            lemma_array_start_index(tick_index as int, tick_spacing as int);
        }
        let offset: i64 = (tick_index as i64 - tick_array_start_index as i64) / (
        tick_spacing as i64);
        Ok(offset as usize)
    }

    /// Checks that `tick_index` is a usable tick of the array that starts at
    /// `tick_array_start_index`.
    pub fn check_tick_array_start_index(
        tick_array_start_index: i32,
        tick_index: i32,
        tick_spacing: u16,
    ) -> (r: Result<(), ErrorCode>)
        requires
            tick_spacing > 0,
        ensures
            r == (if tick_index < MIN_TICK || tick_index > MAX_TICK {
                Err::<(), ErrorCode>(ErrorCode::InvalidTickIndex)
            } else if tick_index as int % tick_spacing as int != 0 {
                Err::<(), ErrorCode>(ErrorCode::TickAndSpacingNotMatch)
            } else if array_start_index(tick_index as int, tick_spacing as int)
                != tick_array_start_index {
                Err::<(), ErrorCode>(ErrorCode::InvalidTickArray)
            } else {
                Ok::<(), ErrorCode>(())
            }),
    {
        if TickState::check_is_out_of_boundary(tick_index) {
            return Err(ErrorCode::InvalidTickIndex);
        }
        if !is_multiple_of_spacing(tick_index, tick_spacing) {
            return Err(ErrorCode::TickAndSpacingNotMatch);
        }
        let expected = array_start_index_wide(tick_index, tick_spacing);
        if expected != tick_array_start_index as i64 {
            return Err(ErrorCode::InvalidTickArray);
        }
        Ok(())
    }

    /// The fee growth of both tokens between two ticks, for the price at
    /// `tick_current`.
    pub fn get_fee_growth_inside(
        tick_lower: &TickState,
        tick_upper: &TickState,
        tick_current: i32,
        fee_growth_global_0_x64: u128,
        fee_growth_global_1_x64: u128,
    ) -> (r: (u128, u128))
        ensures
            r.0 == growth_inside(
                tick_lower.tick,
                tick_lower.fee_growth_outside_0_x64,
                tick_upper.tick,
                tick_upper.fee_growth_outside_0_x64,
                tick_current,
                fee_growth_global_0_x64,
            ),
            r.1 == growth_inside(
                tick_lower.tick,
                tick_lower.fee_growth_outside_1_x64,
                tick_upper.tick,
                tick_upper.fee_growth_outside_1_x64,
                tick_current,
                fee_growth_global_1_x64,
            ),
    {
        let (below_0, below_1): (u128, u128) = if tick_current >= tick_lower.tick {
            (tick_lower.fee_growth_outside_0_x64, tick_lower.fee_growth_outside_1_x64)
        } else {
            (
                fee_growth_global_0_x64.wrapping_sub(tick_lower.fee_growth_outside_0_x64),
                fee_growth_global_1_x64.wrapping_sub(tick_lower.fee_growth_outside_1_x64),
            )
        };
        let (above_0, above_1): (u128, u128) = if tick_current < tick_upper.tick {
            (tick_upper.fee_growth_outside_0_x64, tick_upper.fee_growth_outside_1_x64)
        } else {
            (
                fee_growth_global_0_x64.wrapping_sub(tick_upper.fee_growth_outside_0_x64),
                fee_growth_global_1_x64.wrapping_sub(tick_upper.fee_growth_outside_1_x64),
            )
        };
        (
            fee_growth_global_0_x64.wrapping_sub(below_0).wrapping_sub(above_0),
            fee_growth_global_1_x64.wrapping_sub(below_1).wrapping_sub(above_1),
        )
    }

    /// The growth of each reward between two ticks, for the price at
    /// `tick_current_index`; zero for a reward that is not in use.
    pub fn get_reward_growths_inside(
        tick_lower: &TickState,
        tick_upper: &TickState,
        tick_current_index: i32,
        reward_infos: &[RewardInfo; 3],
    ) -> (r: [u128; 3])
        ensures
            forall|i: int|
                0 <= i < 3 ==> #[trigger] r[i] == (if reward_infos[i].spec_initialized() {
                    growth_inside(
                        tick_lower.tick,
                        tick_lower.reward_growths_outside_x64[i],
                        tick_upper.tick,
                        tick_upper.reward_growths_outside_x64[i],
                        tick_current_index,
                        reward_infos[i].reward_growth_global_x64,
                    )
                } else {
                    0
                }),
    {
        let mut inside: [u128; 3] = [0u128; 3];
        let mut i: usize = 0;
        while i < 3
            invariant
                i <= 3,
                forall|k: int|
                    0 <= k < i ==> #[trigger] inside[k] == (if reward_infos[k].spec_initialized() {
                        growth_inside(
                            tick_lower.tick,
                            tick_lower.reward_growths_outside_x64[k],
                            tick_upper.tick,
                            tick_upper.reward_growths_outside_x64[k],
                            tick_current_index,
                            reward_infos[k].reward_growth_global_x64,
                        )
                    } else {
                        0
                    }),
                forall|k: int| i <= k < 3 ==> #[trigger] inside[k] == 0,
            decreases 3 - i,
        {
            if reward_infos[i].initialized() {
                let global = reward_infos[i].reward_growth_global_x64;
                let below = if tick_current_index >= tick_lower.tick {
                    tick_lower.reward_growths_outside_x64[i]
                } else {
                    global.wrapping_sub(tick_lower.reward_growths_outside_x64[i])
                };
                let above = if tick_current_index < tick_upper.tick {
                    tick_upper.reward_growths_outside_x64[i]
                } else {
                    global.wrapping_sub(tick_upper.reward_growths_outside_x64[i])
                };
                inside[i] = global.wrapping_sub(below).wrapping_sub(above);
            }
            i += 1;
        }
        inside
    }
}

} // verus!
