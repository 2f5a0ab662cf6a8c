//! The swap quoter: what an exact-input or exact-output swap would do to a
//! pool, step by step from one initialized tick to the next.

use vstd::prelude::*;
use crate::address::{Address, get_tick_array_address, program_address, tick_array_seeds};
use crate::error::ErrorCode;
use crate::fee::{effective_fee_rate_spec, get_effective_fee_rate};
use crate::liquidity_math::add_delta;
use crate::pool::{AmmConfig, PoolState, SwapState};
use crate::swap_laws::{lemma_exact_input_exhausts, lemma_exact_output_met};
use crate::swap_math::{SwapStep, compute_swap_step, compute_swap_step_spec};
use crate::tick::{TickUtils, array_start_index, array_start_index_wide, lemma_array_start_index};
use crate::tick_array_map::TickArrayMap;
use crate::tick_math::{
    MAX_SQRT_PRICE_X64,
    MIN_SQRT_PRICE_X64,
    get_sqrt_price_at_tick,
    get_tick_at_sqrt_price,
    sqrt_price_at_tick,
    tick_at_sqrt_price,
    tick_in_range,
};

verus! {

/// After this many crossings of initialized ticks a quote stops, with what it
/// has so far.
pub const MAX_TICK_ARRAY_CROSSINGS: usize = 10;

/// Result of a swap computation.
#[derive(Clone, Copy, Debug, PartialEq, Eq, Structural)]
pub struct SwapQuoteResult {
    pub amount_in: u64,
    pub amount_out: u64,
    pub fee_amount: u64,
    pub fee_rate: u32,
    /// The price before the swap.
    pub sqrt_price_start_x64: u128,
    /// The price after the swap.
    pub sqrt_price_end_x64: u128,
}

/// What stays the same through all steps of one quote.
#[derive(Clone, Copy, Debug)]
pub struct QuoteParams {
    pub pool_key: Address,
    pub program_id: Address,
    pub tick_spacing: u16,
    pub fee_rate: u32,
    pub sqrt_price_limit: u128,
    pub is_base_input: bool,
    pub zero_for_one: bool,
}

/// The quotient rounded toward zero.
pub open spec fn trunc_div(a: int, b: int) -> int {
    if a >= 0 {
        a / b
    } else {
        -((-a) / b)
    }
}

/// The next point of the tick grid in the direction of the swap:
/// `(current / spacing - 1) * spacing` where the price falls and
/// `(current / spacing + 1) * spacing` where it rises, the quotient rounded
/// toward zero.
pub open spec fn next_grid_tick(current_tick: int, tick_spacing: int, zero_for_one: bool) -> int {
    (trunc_div(current_tick, tick_spacing) + (if zero_for_one {
        -1int
    } else {
        1int
    })) * tick_spacing
}

/// The next point of the tick grid as a tick, or `InvalidTickIndex` where it
/// is no 32-bit number.
pub open spec fn grid_fallback(current_tick: i32, tick_spacing: u16, zero_for_one: bool) -> Result<
    i32,
    ErrorCode,
> {
    let tick = next_grid_tick(current_tick as int, tick_spacing as int, zero_for_one);
    if i32::MIN <= tick <= i32::MAX {
        Ok(tick as i32)
    } else {
        Err(ErrorCode::InvalidTickIndex)
    }
}

/// A tick that a tick array offers to the search for the next initialized
/// tick: the start index of the tick array, and the tick.
#[derive(Clone, Copy, Debug, PartialEq, Eq, Structural)]
pub struct TickOffer {
    pub start: i32,
    pub tick: i32,
}

/// What the tick array at an address offers to the search from
/// `current_tick`. The tick array of the current tick offers its next
/// initialized tick from the current tick on. A tick array that starts
/// further in the direction of the swap offers its first initialized tick
/// from the side of the current tick. A tick array that starts behind, and
/// an address without a tick array, offer nothing.
pub open spec fn offer_at(
    tick_arrays: TickArrayMap,
    address: Seq<u8>,
    current_tick: i32,
    tick_spacing: u16,
    zero_for_one: bool,
) -> Option<TickOffer> {
    match tick_arrays.spec_get(address) {
        None => None,
        Some(array) => {
            let start = array.spec_start_tick_index();
            let current_start = array_start_index(current_tick as int, tick_spacing as int);
            let found = if start == current_start {
                array.spec_next_initialized_tick(current_tick, tick_spacing, zero_for_one, false)
            } else if zero_for_one == (start < current_start) {
                array.spec_next_initialized_tick(current_tick, tick_spacing, zero_for_one, true)
            } else {
                None
            };
            match found {
                Some(tick) => Some(TickOffer { start, tick }),
                None => None,
            }
        },
    }
}

/// Whether the first offer is nearer than the second in the direction of
/// the swap: its tick array starts nearer, or the two tick arrays start at
/// the same tick and its tick is nearer.
pub open spec fn is_nearer(zero_for_one: bool, first: TickOffer, second: TickOffer) -> bool {
    if zero_for_one {
        first.start > second.start || (first.start == second.start && first.tick > second.tick)
    } else {
        first.start < second.start || (first.start == second.start && first.tick < second.tick)
    }
}

/// The nearer of two offers; the first where neither is nearer.
pub open spec fn nearer_offer(
    zero_for_one: bool,
    first: Option<TickOffer>,
    second: Option<TickOffer>,
) -> Option<TickOffer> {
    match (first, second) {
        (None, _) => second,
        (Some(_), None) => first,
        (Some(a), Some(b)) => if is_nearer(zero_for_one, b, a) {
            second
        } else {
            first
        },
    }
}

/// The nearest offer of the tick arrays at the first `count` addresses.
pub open spec fn nearest_offer(
    tick_arrays: TickArrayMap,
    addresses: Seq<Address>,
    count: int,
    current_tick: i32,
    tick_spacing: u16,
    zero_for_one: bool,
) -> Option<TickOffer>
    decreases count,
{
    if count <= 0 || count > addresses.len() {
        None
    } else {
        nearer_offer(
            zero_for_one,
            nearest_offer(
                tick_arrays,
                addresses,
                count - 1,
                current_tick,
                tick_spacing,
                zero_for_one,
            ),
            offer_at(tick_arrays, addresses[count - 1]@, current_tick, tick_spacing, zero_for_one),
        )
    }
}

/// What `find_next_initialized_tick` returns.
///
/// The next initialized tick in the tick array of the current tick; failing
/// that, the first initialized tick of the nearest tick array in the
/// direction of the swap that has one; failing that too, the next point of
/// the tick grid. Which tick array is the nearest goes by the start
/// indexes, whatever the order of the addresses.
pub open spec fn find_next_initialized_tick_spec(
    current_tick: i32,
    zero_for_one: bool,
    tick_spacing: u16,
    tick_arrays: TickArrayMap,
    addresses: Seq<Address>,
) -> Result<i32, ErrorCode> {
    match nearest_offer(
        tick_arrays,
        addresses,
        addresses.len() as int,
        current_tick,
        tick_spacing,
        zero_for_one,
    ) {
        Some(offer) => Ok(offer.tick),
        None => grid_fallback(current_tick, tick_spacing, zero_for_one),
    }
}

/// The next point of the tick grid in the direction of the swap.
pub fn next_grid_point(current_tick: i32, tick_spacing: u16, zero_for_one: bool) -> (r: Result<
    i32,
    ErrorCode,
>)
    requires
        tick_spacing > 0,
    ensures
        r == grid_fallback(current_tick, tick_spacing, zero_for_one),
{
    let step: i64 = tick_spacing as i64;
    let current: i64 = current_tick as i64;
    let quotient: i64 = if current >= 0 {
        current / step
    } else {
        -((-current) / step)
    };
    proof {
        let magnitude: int = if current >= 0 {
            current as int
        } else {
            -current
        };
        crate::full_math::lemma_floor_div_bounds(magnitude as nat, step as nat);
        assert(magnitude / (step as int) <= magnitude) by (nonlinear_arith)
            requires
                (magnitude / (step as int)) * step <= magnitude,
                step >= 1,
                magnitude >= 0,
        ;
        crate::wide::lemma_product_bound(
            magnitude / (step as int) + 1,
            step as int,
            0x8000_0001,
            u16::MAX as int,
        );
    }
    let moved: i64 = if zero_for_one {
        quotient - 1
    } else {
        quotient + 1
    };
    proof {
        assert(-0x8000_0001 * 0xffff <= moved * step <= 0x8000_0001 * 0xffff) by (nonlinear_arith)
            requires
                -0x8000_0001 <= moved <= 0x8000_0001,
                1 <= step <= 0xffff,
        ;
    }
    let tick: i64 = moved * step;
    if tick < i32::MIN as i64 || tick > i32::MAX as i64 {
        Err(ErrorCode::InvalidTickIndex)
    } else {
        Ok(tick as i32)
    }
}

/// What the tick array at an address offers to the search from
/// `current_tick`.
pub fn offer_in_array(
    tick_arrays: &TickArrayMap,
    address: &Address,
    current_tick: i32,
    tick_spacing: u16,
    zero_for_one: bool,
) -> (r: Option<TickOffer>)
    requires
        tick_spacing > 0,
    ensures
        r == offer_at(*tick_arrays, address@, current_tick, tick_spacing, zero_for_one),
{
    match tick_arrays.get(address) {
        None => None,
        Some(array) => {
            let start = array.start_tick_index();
            let wide_start: i64 = start as i64;
            let current_start: i64 = array_start_index_wide(current_tick, tick_spacing);
            let found = if wide_start == current_start {
                array.next_initialized_tick(current_tick, tick_spacing, zero_for_one, false)
            } else if zero_for_one == (wide_start < current_start) {
                array.next_initialized_tick(current_tick, tick_spacing, zero_for_one, true)
            } else {
                None
            };
            match found {
                Some(tick) => Some(TickOffer { start, tick }),
                None => None,
            }
        },
    }
}

/// Find the next initialized tick in the given direction, among the tick
/// arrays at the given addresses.
pub fn find_next_initialized_tick(
    current_tick: i32,
    zero_for_one: bool,
    tick_spacing: u16,
    tick_arrays: &TickArrayMap,
    tick_array_addrs: &[Address],
) -> (r: Result<i32, ErrorCode>)
    requires
        tick_spacing > 0,
    ensures
        r == find_next_initialized_tick_spec(
            current_tick,
            zero_for_one,
            tick_spacing,
            *tick_arrays,
            tick_array_addrs@,
        ),
{
    let count: usize = tick_array_addrs.len();
    let mut best: Option<TickOffer> = None;
    let mut i: usize = 0;
    while i < count
        invariant
            i <= count,
            count == tick_array_addrs@.len(),
            tick_spacing > 0,
            best == nearest_offer(
                *tick_arrays,
                tick_array_addrs@,
                i as int,
                current_tick,
                tick_spacing,
                zero_for_one,
            ),
        decreases count - i,
    {
        let offer = offer_in_array(
            tick_arrays,
            &tick_array_addrs[i],
            current_tick,
            tick_spacing,
            zero_for_one,
        );
        best = match (best, offer) {
            (None, _) => offer,
            (Some(_), None) => best,
            (Some(a), Some(b)) => {
                let nearer = if zero_for_one {
                    b.start > a.start || (b.start == a.start && b.tick > a.tick)
                } else {
                    b.start < a.start || (b.start == a.start && b.tick < a.tick)
                };
                if nearer {
                    offer
                } else {
                    best
                }
            },
        };
        i += 1;
    }
    match best {
        Some(offer) => Ok(offer.tick),
        None => next_grid_point(current_tick, tick_spacing, zero_for_one),
    }
}

/// Whether a quote goes on: something is left to swap, the price is not at
/// its limit, and fewer than ten initialized ticks have been crossed.
pub open spec fn quote_continues(state: SwapState, sqrt_price_limit: u128, crossings: nat) -> bool {
    state.amount_specified_remaining != 0 && state.sqrt_price_x64 != sqrt_price_limit && crossings
        < 10
}

/// The price limit of a quote that names none: just inside the price range,
/// at the end toward which the price moves.
pub open spec fn default_price_limit(zero_for_one: bool) -> u128 {
    if zero_for_one {
        (MIN_SQRT_PRICE_X64 + 1) as u128
    } else {
        (MAX_SQRT_PRICE_X64 - 1) as u128
    }
}

/// The target of a step: the price of the next tick, or the price limit
/// where the next tick lies beyond it.
pub open spec fn quote_target(next_tick_price: u128, sqrt_price_limit: u128, zero_for_one: bool) -> u128 {
    if (zero_for_one && next_tick_price < sqrt_price_limit) || (!zero_for_one && next_tick_price
        > sqrt_price_limit) {
        sqrt_price_limit
    } else {
        next_tick_price
    }
}

/// The state after a step: the step's price, the fee added to the fees so
/// far, the amount on the specified side taken off what was left, and the
/// amount on the other side added to what was calculated, both without
/// leaving 64 bits. `CalculateOverflow` where the fees so far, or the step's
/// input and fee together, leave 64 bits.
pub open spec fn state_after_step(state: SwapState, step: SwapStep, is_base_input: bool) -> Result<
    SwapState,
    ErrorCode,
> {
    let fees = state.fee_amount + step.fee_amount;
    let paid = step.amount_in + step.fee_amount;
    let used = if is_base_input {
        paid
    } else {
        step.amount_out as int
    };
    let gained = if is_base_input {
        step.amount_out as int
    } else {
        paid
    };
    if fees > u64::MAX || paid > u64::MAX {
        Err(ErrorCode::CalculateOverflow)
    } else {
        Ok(
            SwapState {
                sqrt_price_x64: step.sqrt_price_next_x64,
                fee_amount: fees as u64,
                amount_specified_remaining: if used >= state.amount_specified_remaining {
                    0
                } else {
                    (state.amount_specified_remaining - used) as u64
                },
                amount_calculated: if state.amount_calculated + gained > u64::MAX {
                    u64::MAX
                } else {
                    (state.amount_calculated + gained) as u64
                },
                ..state
            },
        )
    }
}

/// The liquidity that crossing a tick adds, as the tick array at `address`
/// has it; nothing where there is no address, no tick array at it, or no
/// state for the tick in it.
pub open spec fn liquidity_net_at(
    tick_arrays: TickArrayMap,
    address: Option<Seq<u8>>,
    tick: i32,
    tick_spacing: u16,
) -> Option<i128> {
    match address {
        Some(a) => match tick_arrays.spec_get(a) {
            Some(array) => array.spec_tick_liquidity_net(tick, tick_spacing),
            None => None,
        },
        None => None,
    }
}

/// The state after a tick has been crossed: the tick's liquidity is added
/// where the price rises and taken off where it falls, and the current tick
/// becomes the crossed tick, or the tick below it where the price falls.
/// `LiquidityAddValueErr` where the liquidity would leave 128 bits.
pub open spec fn state_after_cross(
    state: SwapState,
    next_tick: i32,
    liquidity_net: Option<i128>,
    zero_for_one: bool,
) -> Result<SwapState, ErrorCode> {
    let tick = if zero_for_one {
        (next_tick - 1) as i32
    } else {
        next_tick
    };
    match liquidity_net {
        None => Ok(SwapState { tick, ..state }),
        Some(net) => {
            let change = if zero_for_one {
                -net
            } else {
                net as int
            };
            if 0 <= state.liquidity + change <= u128::MAX {
                Ok(SwapState { tick, liquidity: (state.liquidity + change) as u128, ..state })
            } else {
                Err(ErrorCode::LiquidityAddValueErr)
            }
        },
    }
}

/// The address of the tick array that holds `tick`.
pub open spec fn tick_array_address_of(params: QuoteParams, tick: i32) -> Option<Seq<u8>> {
    program_address(
        tick_array_seeds(
            params.pool_key@,
            array_start_index(tick as int, params.tick_spacing as int) as i32,
        ),
        params.program_id@,
    )
}

/// One round of a quote: find the next initialized tick, step toward its
/// price or the price limit, take the step's amounts into the state, and
/// either cross the tick, where the step reached it, or find the tick of the
/// price at which the step stopped. Returns the state and the count of
/// crossings after the round.
pub open spec fn quote_iteration(
    params: QuoteParams,
    tick_arrays: TickArrayMap,
    state: SwapState,
    crossings: nat,
) -> Result<(SwapState, nat), ErrorCode> {
    match find_next_initialized_tick_spec(
        state.tick,
        params.zero_for_one,
        params.tick_spacing,
        tick_arrays,
        tick_arrays.addresses(),
    ) {
        Err(e) => Err(e),
        Ok(next_tick) => if !tick_in_range(next_tick as int) {
            Err(ErrorCode::SqrtPriceX64)
        } else {
            let next_tick_price = sqrt_price_at_tick(next_tick as int) as u128;
            let target = quote_target(next_tick_price, params.sqrt_price_limit, params.zero_for_one);
            match compute_swap_step_spec(
                state.sqrt_price_x64,
                target,
                state.liquidity,
                state.amount_specified_remaining,
                params.fee_rate,
                params.is_base_input,
                params.zero_for_one,
            ) {
                Err(e) => Err(e),
                Ok(step) => match state_after_step(state, step, params.is_base_input) {
                    Err(e) => Err(e),
                    Ok(stepped) => if stepped.sqrt_price_x64 == next_tick_price {
                        match state_after_cross(
                            stepped,
                            next_tick,
                            liquidity_net_at(
                                tick_arrays,
                                tick_array_address_of(params, next_tick),
                                next_tick,
                                params.tick_spacing,
                            ),
                            params.zero_for_one,
                        ) {
                            Err(e) => Err(e),
                            Ok(crossed) => Ok((crossed, crossings + 1)),
                        }
                    } else if MIN_SQRT_PRICE_X64 <= stepped.sqrt_price_x64 <= MAX_SQRT_PRICE_X64 {
                        Ok(
                            (
                                SwapState {
                                    tick: tick_at_sqrt_price(stepped.sqrt_price_x64 as nat) as i32,
                                    ..stepped
                                },
                                crossings,
                            ),
                        )
                    } else {
                        Err(ErrorCode::SqrtPriceX64)
                    },
                },
            }
        },
    }
}

/// How far a quote is from its end: two for each crossing that is still
/// allowed, and one more while the quote goes on.
pub open spec fn quote_measure(state: SwapState, sqrt_price_limit: u128, crossings: nat) -> nat {
    if crossings >= 10 {
        0
    } else {
        (2 * (10 - crossings) + (if quote_continues(state, sqrt_price_limit, crossings) {
            1int
        } else {
            0int
        })) as nat
    }
}

/// A round of a quote brings the quote nearer its end: it crosses a tick, or
/// it uses up what was left, or it ends at the price limit.
pub proof fn lemma_quote_round_progress(
    params: QuoteParams,
    tick_arrays: TickArrayMap,
    state: SwapState,
    crossings: nat,
)
    requires
        quote_continues(state, params.sqrt_price_limit, crossings),
        quote_iteration(params, tick_arrays, state, crossings).is_ok(),
    ensures
        ({
            let after = quote_iteration(params, tick_arrays, state, crossings).unwrap();
            &&& quote_measure(after.0, params.sqrt_price_limit, after.1) < quote_measure(
                state,
                params.sqrt_price_limit,
                crossings,
            )
            &&& after.1 <= crossings + 1
            &&& after.0.amount_specified_remaining <= state.amount_specified_remaining
        }),
{
    let next_tick = find_next_initialized_tick_spec(
        state.tick,
        params.zero_for_one,
        params.tick_spacing,
        tick_arrays,
        tick_arrays.addresses(),
    ).unwrap();
    let next_tick_price = sqrt_price_at_tick(next_tick as int) as u128;
    let target = quote_target(next_tick_price, params.sqrt_price_limit, params.zero_for_one);
    let step = compute_swap_step_spec(
        state.sqrt_price_x64,
        target,
        state.liquidity,
        state.amount_specified_remaining,
        params.fee_rate,
        params.is_base_input,
        params.zero_for_one,
    ).unwrap();
    let stepped = state_after_step(state, step, params.is_base_input).unwrap();
    if stepped.sqrt_price_x64 != next_tick_price && step.sqrt_price_next_x64 != target {
        if params.is_base_input {
            lemma_exact_input_exhausts(
                state.sqrt_price_x64,
                target,
                state.liquidity,
                state.amount_specified_remaining,
                params.fee_rate,
                params.zero_for_one,
            );
        } else {
            lemma_exact_output_met(
                state.sqrt_price_x64,
                target,
                state.liquidity,
                state.amount_specified_remaining,
                params.fee_rate,
                params.zero_for_one,
            );
        }
    }
}

/// The state at the end of a quote: rounds follow one another while the
/// quote goes on; the first failure of a round is the result.
pub open spec fn quote_run(
    params: QuoteParams,
    tick_arrays: TickArrayMap,
    state: SwapState,
    crossings: nat,
) -> Result<SwapState, ErrorCode>
    decreases quote_measure(state, params.sqrt_price_limit, crossings),
{
    if !quote_continues(state, params.sqrt_price_limit, crossings) {
        Ok(state)
    } else {
        match quote_iteration(params, tick_arrays, state, crossings) {
            Err(e) => Err(e),
            Ok(after) => {
                proof {
                    lemma_quote_round_progress(params, tick_arrays, state, crossings);
                }
                quote_run(params, tick_arrays, after.0, after.1)
            },
        }
    }
}

/// What `compute_swap_quote` returns: the amounts, the fee and the prices of
/// the quote that starts at the pool's price, tick and liquidity and runs to
/// its end.
pub open spec fn compute_swap_quote_spec(
    pool_state: PoolState,
    amm_config: AmmConfig,
    zero_for_one: bool,
    amount_specified: u64,
    is_base_input: bool,
    sqrt_price_limit_x64: Option<u128>,
    current_timestamp: u64,
    pool_key: Address,
    program_id: Address,
    tick_arrays: TickArrayMap,
) -> Result<SwapQuoteResult, ErrorCode> {
    let fee_rate = effective_fee_rate_spec(
        pool_state,
        amm_config,
        zero_for_one,
        current_timestamp,
    ) as u32;
    let params = QuoteParams {
        pool_key,
        program_id,
        tick_spacing: pool_state.tick_spacing,
        fee_rate,
        sqrt_price_limit: match sqrt_price_limit_x64 {
            Some(limit) => limit,
            None => default_price_limit(zero_for_one),
        },
        is_base_input,
        zero_for_one,
    };
    let start = SwapState {
        amount_specified_remaining: amount_specified,
        amount_calculated: 0,
        sqrt_price_x64: pool_state.sqrt_price_x64,
        tick: pool_state.tick_current,
        fee_growth_global_x64: 0,
        protocol_fee: 0,
        fund_fee: 0,
        liquidity: pool_state.liquidity,
        fee_amount: 0,
    };
    match quote_run(params, tick_arrays, start, 0) {
        Err(e) => Err(e),
        Ok(end) => {
            let specified = (amount_specified - end.amount_specified_remaining) as u64;
            Ok(
                SwapQuoteResult {
                    amount_in: if is_base_input {
                        specified
                    } else {
                        end.amount_calculated
                    },
                    amount_out: if is_base_input {
                        end.amount_calculated
                    } else {
                        specified
                    },
                    fee_amount: end.fee_amount,
                    fee_rate,
                    sqrt_price_start_x64: pool_state.sqrt_price_x64,
                    sqrt_price_end_x64: end.sqrt_price_x64,
                },
            )
        },
    }
}

/// Takes the amounts of a step into the state of a swap.
pub fn apply_step(state: &SwapState, step: &SwapStep, is_base_input: bool) -> (r: Result<
    SwapState,
    ErrorCode,
>)
    ensures
        r == state_after_step(*state, *step, is_base_input),
{
    let fees = match state.fee_amount.checked_add(step.fee_amount) {
        Some(v) => v,
        None => {
            return Err(ErrorCode::CalculateOverflow);
        },
    };
    let paid = match step.amount_in.checked_add(step.fee_amount) {
        Some(v) => v,
        None => {
            return Err(ErrorCode::CalculateOverflow);
        },
    };
    let mut next = *state;
    next.sqrt_price_x64 = step.sqrt_price_next_x64;
    next.fee_amount = fees;
    if is_base_input {
        next.amount_specified_remaining = state.amount_specified_remaining.saturating_sub(paid);
        next.amount_calculated = state.amount_calculated.saturating_add(step.amount_out);
    } else {
        next.amount_specified_remaining = state.amount_specified_remaining.saturating_sub(
            step.amount_out,
        );
        next.amount_calculated = state.amount_calculated.saturating_add(paid);
    }
    Ok(next)
}

/// Crosses the tick `next_tick`: takes the tick's liquidity, as the tick
/// array at `address` has it, into the state of a swap, and moves the
/// current tick.
pub fn cross_tick(
    state: &SwapState,
    tick_arrays: &TickArrayMap,
    address: Option<Address>,
    next_tick: i32,
    tick_spacing: u16,
    zero_for_one: bool,
) -> (r: Result<SwapState, ErrorCode>)
    requires
        tick_spacing > 0,
        next_tick > i32::MIN,
    ensures
        r == state_after_cross(
            *state,
            next_tick,
            liquidity_net_at(
                *tick_arrays,
                match address {
                    Some(a) => Some(a@),
                    None => None,
                },
                next_tick,
                tick_spacing,
            ),
            zero_for_one,
        ),
{
    let mut next = *state;
    let liquidity_net: Option<i128> = match address {
        Some(a) => match tick_arrays.get(&a) {
            Some(array) => array.get_tick_liquidity_net(next_tick, tick_spacing),
            None => None,
        },
        None => None,
    };
    if let Some(net) = liquidity_net {
        let raised: Result<u128, ErrorCode> = if zero_for_one && net == i128::MIN {
            match state.liquidity.checked_add(0x8000_0000_0000_0000_0000_0000_0000_0000u128) {
                Some(v) => Ok(v),
                None => Err(ErrorCode::LiquidityAddValueErr),
            }
        } else if zero_for_one {
            add_delta(state.liquidity, -net)
        } else {
            add_delta(state.liquidity, net)
        };
        next.liquidity = match raised {
            Ok(v) => v,
            Err(_) => {
                return Err(ErrorCode::LiquidityAddValueErr);
            },
        };
    }
    next.tick = if zero_for_one {
        next_tick - 1
    } else {
        next_tick
    };
    Ok(next)
}

/// Runs one round of a quote.
pub fn quote_step(
    params: &QuoteParams,
    tick_arrays: &TickArrayMap,
    tick_array_addrs: &[Address],
    state: &SwapState,
    crossings: usize,
) -> (r: Result<(SwapState, usize), ErrorCode>)
    requires
        params.tick_spacing > 0,
        tick_array_addrs@ == tick_arrays.addresses(),
        crossings < 10,
    ensures
        match r {
            Ok(after) => quote_iteration(*params, *tick_arrays, *state, crossings as nat) == Ok::<
                (SwapState, nat),
                ErrorCode,
            >((after.0, after.1 as nat)),
            Err(e) => quote_iteration(*params, *tick_arrays, *state, crossings as nat) == Err::<
                (SwapState, nat),
                ErrorCode,
            >(e),
        },
{
    let next_tick = find_next_initialized_tick(
        state.tick,
        params.zero_for_one,
        params.tick_spacing,
        tick_arrays,
        tick_array_addrs,
    )?;
    let sqrt_price_next = match get_sqrt_price_at_tick(next_tick) {
        Ok(price) => price,
        Err(_) => {
            return Err(ErrorCode::SqrtPriceX64);
        },
    };
    let target_price = if (params.zero_for_one && sqrt_price_next < params.sqrt_price_limit) || (
    !params.zero_for_one && sqrt_price_next > params.sqrt_price_limit) {
        params.sqrt_price_limit
    } else {
        sqrt_price_next
    };
    let step = compute_swap_step(
        state.sqrt_price_x64,
        target_price,
        state.liquidity,
        state.amount_specified_remaining,
        params.fee_rate,
        params.is_base_input,
        params.zero_for_one,
        0,
    )?;
    let stepped = apply_step(state, &step, params.is_base_input)?;
    if stepped.sqrt_price_x64 == sqrt_price_next {
        proof {
            lemma_array_start_index(next_tick as int, params.tick_spacing as int);
        }
        let start = TickUtils::get_array_start_index(next_tick, params.tick_spacing);
        let address = get_tick_array_address(params.pool_key, start, params.program_id);
        let crossed = cross_tick(
            &stepped,
            tick_arrays,
            address,
            next_tick,
            params.tick_spacing,
            params.zero_for_one,
        )?;
        Ok((crossed, crossings + 1))
    } else {
        let tick = match get_tick_at_sqrt_price(stepped.sqrt_price_x64) {
            Ok(tick) => tick,
            Err(_) => {
                return Err(ErrorCode::SqrtPriceX64);
            },
        };
        let mut moved = stepped;
        moved.tick = tick;
        Ok((moved, crossings))
    }
}

/// Compute a swap quote.
///
/// * `pool_state` - the pool state
/// * `amm_config` - the fee configuration
/// * `zero_for_one` - the direction: `true` sells token 0 for token 1
/// * `amount_specified` - the input or the output amount, as `is_base_input` says
/// * `is_base_input` - `true` for exact input, `false` for exact output
/// * `sqrt_price_limit_x64` - the price at which the swap stops, if any
/// * `current_timestamp` - the time, in seconds, for the decay fee
/// * `pool_key`, `program_id` - from which the addresses of tick arrays derive
/// * `tick_arrays` - the tick arrays by address
pub fn compute_swap_quote(
    pool_state: &PoolState,
    amm_config: &AmmConfig,
    zero_for_one: bool,
    amount_specified: u64,
    is_base_input: bool,
    sqrt_price_limit_x64: Option<u128>,
    current_timestamp: u64,
    pool_key: Address,
    program_id: Address,
    tick_arrays: &TickArrayMap,
) -> (r: Result<SwapQuoteResult, ErrorCode>)
    requires
        pool_state.tick_spacing > 0,
    ensures
        r == compute_swap_quote_spec(
            *pool_state,
            *amm_config,
            zero_for_one,
            amount_specified,
            is_base_input,
            sqrt_price_limit_x64,
            current_timestamp,
            pool_key,
            program_id,
            *tick_arrays,
        ),
{
    let sqrt_price_limit = match sqrt_price_limit_x64 {
        Some(limit) => limit,
        None => if zero_for_one {
            MIN_SQRT_PRICE_X64 + 1
        } else {
            MAX_SQRT_PRICE_X64 - 1
        },
    };
    let fee_rate = get_effective_fee_rate(pool_state, amm_config, zero_for_one, current_timestamp);
    let params = QuoteParams {
        pool_key,
        program_id,
        tick_spacing: pool_state.tick_spacing,
        fee_rate,
        sqrt_price_limit,
        is_base_input,
        zero_for_one,
    };
    let mut state = SwapState {
        amount_specified_remaining: amount_specified,
        amount_calculated: 0,
        sqrt_price_x64: pool_state.sqrt_price_x64,
        tick: pool_state.tick_current,
        fee_growth_global_x64: 0,
        protocol_fee: 0,
        fund_fee: 0,
        liquidity: pool_state.liquidity,
        fee_amount: 0,
    };
    let tick_array_addrs: Vec<Address> = tick_arrays.keys();
    let mut tick_crossings: usize = 0;
    let ghost start = state;
    while state.amount_specified_remaining != 0 && state.sqrt_price_x64 != sqrt_price_limit
        && tick_crossings < MAX_TICK_ARRAY_CROSSINGS
        invariant
            params.tick_spacing > 0,
            params.sqrt_price_limit == sqrt_price_limit,
            tick_array_addrs@ == tick_arrays.addresses(),
            tick_crossings <= 10,
            state.amount_specified_remaining <= amount_specified,
            quote_run(params, *tick_arrays, start, 0) == quote_run(
                params,
                *tick_arrays,
                state,
                tick_crossings as nat,
            ),
            quote_starts_as_stated(
                pool_state,
                amm_config,
                zero_for_one,
                amount_specified,
                is_base_input,
                sqrt_price_limit_x64,
                current_timestamp,
                pool_key,
                program_id,
                tick_arrays,
                params,
                start,
            ),
        decreases quote_measure(state, sqrt_price_limit, tick_crossings as nat),
    {
        proof {
            if quote_iteration(params, *tick_arrays, state, tick_crossings as nat).is_ok() {
                lemma_quote_round_progress(params, *tick_arrays, state, tick_crossings as nat);
            }
        }
        let after = quote_step(
            &params,
            tick_arrays,
            tick_array_addrs.as_slice(),
            &state,
            tick_crossings,
        )?;
        state = after.0;
        tick_crossings = after.1;
    }
    Ok(
        SwapQuoteResult {
            amount_in: if is_base_input {
                amount_specified - state.amount_specified_remaining
            } else {
                state.amount_calculated
            },
            amount_out: if is_base_input {
                state.amount_calculated
            } else {
                amount_specified - state.amount_specified_remaining
            },
            fee_amount: state.fee_amount,
            fee_rate,
            sqrt_price_start_x64: pool_state.sqrt_price_x64,
            sqrt_price_end_x64: state.sqrt_price_x64,
        },
    )
}

/// The parameters and the first state of the quote that
/// `compute_swap_quote_spec` runs.
pub open spec fn quote_starts_as_stated(
    pool_state: &PoolState,
    amm_config: &AmmConfig,
    zero_for_one: bool,
    amount_specified: u64,
    is_base_input: bool,
    sqrt_price_limit_x64: Option<u128>,
    current_timestamp: u64,
    pool_key: Address,
    program_id: Address,
    tick_arrays: &TickArrayMap,
    params: QuoteParams,
    start: SwapState,
) -> bool {
    &&& params == (QuoteParams {
        pool_key,
        program_id,
        tick_spacing: pool_state.tick_spacing,
        fee_rate: effective_fee_rate_spec(
            *pool_state,
            *amm_config,
            zero_for_one,
            current_timestamp,
        ) as u32,
        sqrt_price_limit: match sqrt_price_limit_x64 {
            Some(limit) => limit,
            None => default_price_limit(zero_for_one),
        },
        is_base_input,
        zero_for_one,
    })
    &&& start == (SwapState {
        amount_specified_remaining: amount_specified,
        amount_calculated: 0,
        sqrt_price_x64: pool_state.sqrt_price_x64,
        tick: pool_state.tick_current,
        fee_growth_global_x64: 0,
        protocol_fee: 0,
        fund_fee: 0,
        liquidity: pool_state.liquidity,
        fee_amount: 0,
    })
}

/// Through a quote, what is left of the specified amount never grows.
pub proof fn lemma_quote_run_uses_up(
    params: QuoteParams,
    tick_arrays: TickArrayMap,
    state: SwapState,
    crossings: nat,
)
    requires
        quote_run(params, tick_arrays, state, crossings) is Ok,
    ensures
        quote_run(params, tick_arrays, state, crossings)->Ok_0.amount_specified_remaining
            <= state.amount_specified_remaining,
    decreases quote_measure(state, params.sqrt_price_limit, crossings),
{
    if quote_continues(state, params.sqrt_price_limit, crossings) {
        let after = quote_iteration(params, tick_arrays, state, crossings)->Ok_0;
        lemma_quote_round_progress(params, tick_arrays, state, crossings);
        lemma_quote_run_uses_up(params, tick_arrays, after.0, after.1);
    }
}

/// A quote never takes in, in exact-input mode, or gives out, in
/// exact-output mode, more than the amount that was specified.
pub proof fn lemma_quote_within_specified_amount(
    pool_state: PoolState,
    amm_config: AmmConfig,
    zero_for_one: bool,
    amount_specified: u64,
    is_base_input: bool,
    sqrt_price_limit_x64: Option<u128>,
    current_timestamp: u64,
    pool_key: Address,
    program_id: Address,
    tick_arrays: TickArrayMap,
)
    requires
        compute_swap_quote_spec(
            pool_state,
            amm_config,
            zero_for_one,
            amount_specified,
            is_base_input,
            sqrt_price_limit_x64,
            current_timestamp,
            pool_key,
            program_id,
            tick_arrays,
        ) is Ok,
    ensures
        ({
            let quoted = compute_swap_quote_spec(
                pool_state,
                amm_config,
                zero_for_one,
                amount_specified,
                is_base_input,
                sqrt_price_limit_x64,
                current_timestamp,
                pool_key,
                program_id,
                tick_arrays,
            )->Ok_0;
            if is_base_input {
                quoted.amount_in <= amount_specified
            } else {
                quoted.amount_out <= amount_specified
            }
        }),
{
    let params = QuoteParams {
        pool_key,
        program_id,
        tick_spacing: pool_state.tick_spacing,
        fee_rate: effective_fee_rate_spec(
            pool_state,
            amm_config,
            zero_for_one,
            current_timestamp,
        ) as u32,
        sqrt_price_limit: match sqrt_price_limit_x64 {
            Some(limit) => limit,
            None => default_price_limit(zero_for_one),
        },
        is_base_input,
        zero_for_one,
    };
    let start = SwapState {
        amount_specified_remaining: amount_specified,
        amount_calculated: 0,
        sqrt_price_x64: pool_state.sqrt_price_x64,
        tick: pool_state.tick_current,
        fee_growth_global_x64: 0,
        protocol_fee: 0,
        fund_fee: 0,
        liquidity: pool_state.liquidity,
        fee_amount: 0,
    };
    lemma_quote_run_uses_up(params, tick_arrays, start, 0);
}

} // verus!
