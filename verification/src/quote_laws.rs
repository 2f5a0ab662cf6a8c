//! Laws of a quote: that it goes by what the tick arrays hold and not by
//! their order, how far its price moves, that its tick follows its price,
//! that its fee is part of what goes in, and what a range without liquidity
//! costs.

use vstd::prelude::*;
use crate::address::Address;
use crate::fee::effective_fee_rate_spec;
use crate::liquidity_math::{delta_amount_0, delta_amount_1};
use crate::pool::{AmmConfig, PoolState, SwapState};
use crate::quote::{
    QuoteParams,
    SwapQuoteResult,
    compute_swap_quote_spec,
    default_price_limit,
    find_next_initialized_tick_spec,
    is_nearer,
    liquidity_net_at,
    nearest_offer,
    next_grid_tick,
    offer_at,
    tick_array_address_of,
    quote_continues,
    quote_iteration,
    quote_measure,
    quote_run,
    quote_target,
    state_after_step,
    lemma_quote_round_progress,
};
use crate::amount_laws::{lemma_ceil_quotients_apart, lemma_step_amounts_rise_with_target};
use crate::error::ErrorCode;
use crate::swap_laws::{
    lemma_exact_input_uses_budget,
    lemma_next_price_between,
    lemma_step_price_between,
};
use crate::swap_math::{
    FEE_RATE_DENOMINATOR_VALUE,
    SwapStep,
    compute_swap_step_spec,
    step_amount_out,
    step_budget,
};
use crate::tick::{array_start_index, lemma_array_start_index, slot_of_tick, ticks_in_array};
use crate::tick_array::{
    first_set_at_or_above,
    last_set_at_or_below,
    lemma_first_set_at_or_above,
    lemma_last_set_at_or_below,
};
use crate::tick_array_map::{TickArrayMap, arrays_on_grid, lemma_position_from, position_from};
use crate::tick_laws::{lemma_sqrt_price_in_range, lemma_sqrt_price_strictly_monotone};
use crate::wide::pow64;
use crate::tick_math::{
    MAX_SQRT_PRICE_X64,
    MAX_TICK,
    MIN_SQRT_PRICE_X64,
    MIN_TICK,
    is_tick_of_price,
    lemma_price_at_extremes,
    sqrt_price_at_tick,
    tick_at_sqrt_price,
    tick_in_range,
};

verus! {

/// From a tick whose price is at most `price`, a tick of `price` is found
/// upward.
proof fn lemma_tick_found_from(price: nat, tick: int)
    requires
        tick_in_range(tick),
        sqrt_price_at_tick(tick) <= price,
    ensures
        exists|found: int| is_tick_of_price(found, price),
    decreases MAX_TICK - tick,
{
    if tick < MAX_TICK && sqrt_price_at_tick(tick + 1) <= price {
        lemma_tick_found_from(price, tick + 1);
    } else {
        assert(is_tick_of_price(tick, price));
    }
}

/// Every price of the price range has a tick: the price of that tick is at
/// most the price, and the price of the tick above it is larger.
pub proof fn lemma_price_has_tick(price: nat)
    requires
        MIN_SQRT_PRICE_X64 <= price <= MAX_SQRT_PRICE_X64,
    ensures
        is_tick_of_price(tick_at_sqrt_price(price), price),
{
    lemma_price_at_extremes();
    lemma_tick_found_from(price, MIN_TICK as int);
}

/// No liquidity, or no way to go, is no amount: between a price and itself,
/// and for a liquidity of zero, both amounts are zero.
pub proof fn lemma_no_amount(lo: nat, hi: nat, liq: nat, round_up: bool)
    requires
        0 < lo <= hi,
        liq == 0 || lo == hi,
    ensures
        delta_amount_0(lo, hi, liq, round_up) == 0,
        delta_amount_1(lo, hi, liq, round_up) == 0,
{
    let way = (hi - lo) as nat;
    assert(liq * way == 0) by (nonlinear_arith)
        requires
            liq == 0 || way == 0,
    ;
    assert((liq * crate::wide::pow64()) * way == 0) by (nonlinear_arith)
        requires
            liq == 0 || way == 0,
    ;
    assert(0nat / hi == 0 && 0nat % hi == 0) by (nonlinear_arith)
        requires
            hi > 0,
    ;
    assert(0nat / lo == 0 && 0nat % lo == 0) by (nonlinear_arith)
        requires
            lo > 0,
    ;
    assert(0nat / crate::wide::pow64() == 0 && 0nat % crate::wide::pow64() == 0)
        by (nonlinear_arith)
        requires
            crate::wide::pow64() > 0,
    ;
}

/// A step through a range without liquidity reaches its target and moves
/// no tokens: nothing goes in, nothing comes out, and no fee is taken.
pub proof fn lemma_step_without_liquidity(
    cur: u128,
    tgt: u128,
    amount_remaining: u64,
    fee_rate: u32,
    is_base_input: bool,
    zero_for_one: bool,
)
    requires
        cur > 0,
        tgt > 0,
        fee_rate < FEE_RATE_DENOMINATOR_VALUE,
    ensures
        compute_swap_step_spec(
            cur,
            tgt,
            0,
            amount_remaining,
            fee_rate,
            is_base_input,
            zero_for_one,
        ) == Ok::<SwapStep, crate::error::ErrorCode>(
            SwapStep { sqrt_price_next_x64: tgt, amount_in: 0, amount_out: 0, fee_amount: 0 },
        ),
{
    let lo = crate::liquidity_math::price_min(cur, tgt);
    let hi = crate::liquidity_math::price_max(cur, tgt);
    lemma_no_amount(lo as nat, hi as nat, 0, true);
    lemma_no_amount(lo as nat, hi as nat, 0, false);
    let rest = (FEE_RATE_DENOMINATOR_VALUE - fee_rate) as nat;
    assert(0nat * (fee_rate as nat) == 0) by (nonlinear_arith);
    assert(0nat / rest == 0 && 0nat % rest == 0) by (nonlinear_arith)
        requires
            rest > 0,
    ;
}

/// A step whose target is the current price stays there and moves no
/// tokens.
pub proof fn lemma_step_at_target(
    cur: u128,
    liq: u128,
    amount_remaining: u64,
    fee_rate: u32,
    is_base_input: bool,
    zero_for_one: bool,
)
    requires
        compute_swap_step_spec(
            cur,
            cur,
            liq,
            amount_remaining,
            fee_rate,
            is_base_input,
            zero_for_one,
        ) is Ok,
    ensures
        compute_swap_step_spec(
            cur,
            cur,
            liq,
            amount_remaining,
            fee_rate,
            is_base_input,
            zero_for_one,
        ) == Ok::<SwapStep, crate::error::ErrorCode>(
            SwapStep { sqrt_price_next_x64: cur, amount_in: 0, amount_out: 0, fee_amount: 0 },
        ),
{
    if cur > 0 {
        lemma_no_amount(cur as nat, cur as nat, liq as nat, true);
        lemma_no_amount(cur as nat, cur as nat, liq as nat, false);
    } else {
        let way = 0nat;
        assert((liq as nat) * way == 0) by (nonlinear_arith)
            requires
                way == 0,
        ;
        assert(0nat / crate::wide::pow64() == 0 && 0nat % crate::wide::pow64() == 0)
            by (nonlinear_arith)
            requires
                crate::wide::pow64() > 0,
        ;
    }
    if fee_rate < FEE_RATE_DENOMINATOR_VALUE {
        let rest = (FEE_RATE_DENOMINATOR_VALUE - fee_rate) as nat;
        assert(0nat * (fee_rate as nat) == 0) by (nonlinear_arith);
        assert(0nat / rest == 0 && 0nat % rest == 0) by (nonlinear_arith)
            requires
                rest > 0,
        ;
    }
}

/// Whether the tick of a state follows its price on the side from which the
/// price moves away: where the price falls, the tick's price is at most the
/// price; where it rises, the price of the tick above is at least the
/// price. The tick may stand one below the smallest tick, after that tick
/// has been crossed downward.
pub open spec fn tick_follows_price(state: SwapState, zero_for_one: bool) -> bool {
    &&& MIN_TICK - 1 <= state.tick <= MAX_TICK
    &&& if zero_for_one {
        state.tick >= MIN_TICK ==> sqrt_price_at_tick(state.tick as int) <= state.sqrt_price_x64
    } else {
        state.tick < MAX_TICK ==> state.sqrt_price_x64 <= sqrt_price_at_tick(state.tick + 1)
    }
}

/// Whether a pool's tick and price agree within one step: the price lies
/// between the price of the tick and the price of the tick above, both
/// included. The upper end is the price just after a tick has been crossed
/// downward.
pub open spec fn pool_tick_agrees(pool_state: PoolState) -> bool {
    &&& MIN_TICK - 1 <= pool_state.tick_current <= MAX_TICK
    &&& pool_state.tick_current >= MIN_TICK ==> sqrt_price_at_tick(
        pool_state.tick_current as int,
    ) <= pool_state.sqrt_price_x64
    &&& pool_state.tick_current < MAX_TICK ==> pool_state.sqrt_price_x64 <= sqrt_price_at_tick(
        pool_state.tick_current + 1,
    )
}

/// The keys of a list of addresses.
pub open spec fn address_set(addresses: Seq<Address>) -> Set<Seq<u8>> {
    Set::new(|key: Seq<u8>| exists|i: int| 0 <= i < addresses.len() && addresses[i]@ == key)
}

/// The addresses of a map are the keys at which it holds a tick array.
pub proof fn lemma_addresses_are_keys(tick_arrays: TickArrayMap, key: Seq<u8>)
    ensures
        address_set(tick_arrays.addresses()).contains(key) <==> tick_arrays.spec_get(key) is Some,
{
    lemma_position_from(tick_arrays.entries@, key, 0);
    if tick_arrays.spec_get(key) is Some {
        let i = position_from(tick_arrays.entries@, key, 0)->Some_0;
        assert(tick_arrays.addresses()[i]@ == key);
    }
}

/// The nearest offer is an offer of one of the tick arrays, and none of
/// them offers a nearer one; where there is none, no tick array offers
/// anything.
pub proof fn lemma_nearest_offer(
    tick_arrays: TickArrayMap,
    addresses: Seq<Address>,
    count: int,
    current_tick: i32,
    tick_spacing: u16,
    zero_for_one: bool,
)
    requires
        0 <= count <= addresses.len(),
    ensures
        match nearest_offer(
            tick_arrays,
            addresses,
            count,
            current_tick,
            tick_spacing,
            zero_for_one,
        ) {
            Some(best) => {
                &&& exists|i: int|
                    0 <= i < count && #[trigger] offer_at(
                        tick_arrays,
                        addresses[i]@,
                        current_tick,
                        tick_spacing,
                        zero_for_one,
                    ) == Some(best)
                &&& forall|i: int|
                    0 <= i < count ==> match #[trigger] offer_at(
                        tick_arrays,
                        addresses[i]@,
                        current_tick,
                        tick_spacing,
                        zero_for_one,
                    ) {
                        Some(other) => !is_nearer(zero_for_one, other, best),
                        None => true,
                    }
            },
            None => forall|i: int|
                0 <= i < count ==> #[trigger] offer_at(
                    tick_arrays,
                    addresses[i]@,
                    current_tick,
                    tick_spacing,
                    zero_for_one,
                ) is None,
        },
    decreases count,
{
    if count > 0 {
        lemma_nearest_offer(
            tick_arrays,
            addresses,
            count - 1,
            current_tick,
            tick_spacing,
            zero_for_one,
        );
        let last = offer_at(
            tick_arrays,
            addresses[count - 1]@,
            current_tick,
            tick_spacing,
            zero_for_one,
        );
        let before = nearest_offer(
            tick_arrays,
            addresses,
            count - 1,
            current_tick,
            tick_spacing,
            zero_for_one,
        );
        let now = nearest_offer(
            tick_arrays,
            addresses,
            count,
            current_tick,
            tick_spacing,
            zero_for_one,
        );
        if now is Some {
            if now == last {
                assert(offer_at(
                    tick_arrays,
                    addresses[count - 1]@,
                    current_tick,
                    tick_spacing,
                    zero_for_one,
                ) == now);
            } else {
                let i = choose|i: int|
                    0 <= i < count - 1 && #[trigger] offer_at(
                        tick_arrays,
                        addresses[i]@,
                        current_tick,
                        tick_spacing,
                        zero_for_one,
                    ) == before;
                assert(offer_at(
                    tick_arrays,
                    addresses[i]@,
                    current_tick,
                    tick_spacing,
                    zero_for_one,
                ) == now);
            }
        }
    }
}

/// The search for the next initialized tick goes by what the tick arrays
/// hold, not by the order of the addresses: two lists of the same addresses,
/// and two maps that hold the same tick array at each address, give the same
/// tick.
pub proof fn lemma_search_ignores_order(
    a: TickArrayMap,
    a_addresses: Seq<Address>,
    b: TickArrayMap,
    b_addresses: Seq<Address>,
    current_tick: i32,
    tick_spacing: u16,
    zero_for_one: bool,
)
    requires
        address_set(a_addresses) == address_set(b_addresses),
        forall|key: Seq<u8>| a.spec_get(key) == b.spec_get(key),
    ensures
        find_next_initialized_tick_spec(current_tick, zero_for_one, tick_spacing, a, a_addresses)
            == find_next_initialized_tick_spec(
            current_tick,
            zero_for_one,
            tick_spacing,
            b,
            b_addresses,
        ),
{
    let in_a = nearest_offer(
        a,
        a_addresses,
        a_addresses.len() as int,
        current_tick,
        tick_spacing,
        zero_for_one,
    );
    let in_b = nearest_offer(
        b,
        b_addresses,
        b_addresses.len() as int,
        current_tick,
        tick_spacing,
        zero_for_one,
    );
    lemma_nearest_offer(
        a,
        a_addresses,
        a_addresses.len() as int,
        current_tick,
        tick_spacing,
        zero_for_one,
    );
    lemma_nearest_offer(
        b,
        b_addresses,
        b_addresses.len() as int,
        current_tick,
        tick_spacing,
        zero_for_one,
    );
    if in_a is Some {
        let i = choose|i: int|
            0 <= i < a_addresses.len() && #[trigger] offer_at(
                a,
                a_addresses[i]@,
                current_tick,
                tick_spacing,
                zero_for_one,
            ) == in_a;
        let key = a_addresses[i]@;
        assert(address_set(a_addresses).contains(key));
        assert(address_set(b_addresses).contains(key));
        let j = choose|j: int| 0 <= j < b_addresses.len() && b_addresses[j]@ == key;
        assert(offer_at(b, b_addresses[j]@, current_tick, tick_spacing, zero_for_one) == in_a);
    }
    if in_b is Some {
        let j = choose|j: int|
            0 <= j < b_addresses.len() && #[trigger] offer_at(
                b,
                b_addresses[j]@,
                current_tick,
                tick_spacing,
                zero_for_one,
            ) == in_b;
        let key = b_addresses[j]@;
        assert(address_set(b_addresses).contains(key));
        assert(address_set(a_addresses).contains(key));
        let i = choose|i: int| 0 <= i < a_addresses.len() && a_addresses[i]@ == key;
        assert(offer_at(a, a_addresses[i]@, current_tick, tick_spacing, zero_for_one) == in_b);
    }
}

/// A round of a quote goes by what the tick arrays hold, not by the order
/// in which they were put into the map.
pub proof fn lemma_quote_round_ignores_order(
    params: QuoteParams,
    a: TickArrayMap,
    b: TickArrayMap,
    state: SwapState,
    crossings: nat,
)
    requires
        forall|key: Seq<u8>| a.spec_get(key) == b.spec_get(key),
    ensures
        quote_iteration(params, a, state, crossings) == quote_iteration(
            params,
            b,
            state,
            crossings,
        ),
{
    assert(address_set(a.addresses()) =~= address_set(b.addresses())) by {
        assert forall|key: Seq<u8>|
            address_set(a.addresses()).contains(key) == address_set(b.addresses()).contains(
                key,
            ) by {
            lemma_addresses_are_keys(a, key);
            lemma_addresses_are_keys(b, key);
        }
    }
    lemma_search_ignores_order(
        a,
        a.addresses(),
        b,
        b.addresses(),
        state.tick,
        params.tick_spacing,
        params.zero_for_one,
    );
}

/// A quote goes by what the tick arrays hold, not by the order in which
/// they were put into the map.
pub proof fn lemma_quote_run_ignores_order(
    params: QuoteParams,
    a: TickArrayMap,
    b: TickArrayMap,
    state: SwapState,
    crossings: nat,
)
    requires
        forall|key: Seq<u8>| a.spec_get(key) == b.spec_get(key),
    ensures
        quote_run(params, a, state, crossings) == quote_run(params, b, state, crossings),
    decreases quote_measure(state, params.sqrt_price_limit, crossings),
{
    if quote_continues(state, params.sqrt_price_limit, crossings) {
        lemma_quote_round_ignores_order(params, a, b, state, crossings);
        if quote_iteration(params, a, state, crossings) is Ok {
            let after = quote_iteration(params, a, state, crossings).unwrap();
            lemma_quote_round_progress(params, a, state, crossings);
            lemma_quote_run_ignores_order(params, a, b, after.0, after.1);
        }
    }
}

/// Two maps that hold the same tick array at each address give the same
/// quote, whatever the order in which the tick arrays were put into them.
pub proof fn lemma_quote_ignores_order(
    pool_state: PoolState,
    amm_config: AmmConfig,
    zero_for_one: bool,
    amount_specified: u64,
    is_base_input: bool,
    sqrt_price_limit_x64: Option<u128>,
    current_timestamp: u64,
    pool_key: Address,
    program_id: Address,
    a: TickArrayMap,
    b: TickArrayMap,
)
    requires
        forall|key: Seq<u8>| a.spec_get(key) == b.spec_get(key),
    ensures
        compute_swap_quote_spec(
            pool_state,
            amm_config,
            zero_for_one,
            amount_specified,
            is_base_input,
            sqrt_price_limit_x64,
            current_timestamp,
            pool_key,
            program_id,
            a,
        ) == compute_swap_quote_spec(
            pool_state,
            amm_config,
            zero_for_one,
            amount_specified,
            is_base_input,
            sqrt_price_limit_x64,
            current_timestamp,
            pool_key,
            program_id,
            b,
        ),
{
    let params = QuoteParams {
        pool_key,
        program_id,
        tick_spacing: pool_state.tick_spacing,
        fee_rate: effective_fee_rate_spec(
            pool_state,
            amm_config,
            zero_for_one,
            current_timestamp,
        ) as u32,
        sqrt_price_limit: price_limit_of(sqrt_price_limit_x64, zero_for_one),
        is_base_input,
        zero_for_one,
    };
    let start = SwapState {
        amount_specified_remaining: amount_specified,
        amount_calculated: 0,
        sqrt_price_x64: pool_state.sqrt_price_x64,
        tick: pool_state.tick_current,
        fee_growth_global_x64: 0,
        protocol_fee: 0,
        fund_fee: 0,
        liquidity: pool_state.liquidity,
        fee_amount: 0,
    };
    lemma_quote_run_ignores_order(params, a, b, start, 0);
}

/// What a tick array on the tick grid offers to the search lies in the
/// direction of the swap: at or below the current tick where the price
/// falls, above it where the price rises.
pub proof fn lemma_offer_lies_ahead(
    tick_arrays: TickArrayMap,
    address: Seq<u8>,
    current_tick: i32,
    tick_spacing: u16,
    zero_for_one: bool,
)
    requires
        tick_spacing > 0,
        arrays_on_grid(tick_arrays, tick_spacing),
    ensures
        match offer_at(tick_arrays, address, current_tick, tick_spacing, zero_for_one) {
            Some(offer) => if zero_for_one {
                offer.tick <= current_tick
            } else {
                offer.tick > current_tick
            },
            None => true,
        },
{
    let offer = offer_at(tick_arrays, address, current_tick, tick_spacing, zero_for_one);
    if offer is Some {
        let array = tick_arrays.spec_get(address)->Some_0;
        assert(array.is_on_grid(tick_spacing));
        let flags = array.initialized_flags();
        let start = array.spec_start_tick_index() as int;
        let spacing = tick_spacing as int;
        let current_start = array_start_index(current_tick as int, spacing);
        lemma_array_start_index(current_tick as int, spacing);
        assert(flags.len() == 60);
        if start == current_start {
            let slot = slot_of_tick(start, current_tick as int, spacing);
            let way = current_tick - start;
            vstd::arithmetic::div_mod::lemma_fundamental_div_mod(way, spacing);
            vstd::arithmetic::div_mod::lemma_mod_bound(way, spacing);
            if zero_for_one {
                lemma_last_set_at_or_below(flags, slot);
                let k = last_set_at_or_below(flags, slot)->Some_0;
                assert(start + k * spacing <= current_tick) by (nonlinear_arith)
                    requires
                        0 <= k <= slot,
                        way == spacing * slot + way % spacing,
                        0 <= way % spacing,
                        way == current_tick - start,
                        spacing > 0,
                ;
            } else {
                lemma_first_set_at_or_above(flags, slot + 1);
                let k = first_set_at_or_above(flags, slot + 1)->Some_0;
                assert(start + k * spacing > current_tick) by (nonlinear_arith)
                    requires
                        k >= slot + 1,
                        way == spacing * slot + way % spacing,
                        way % spacing < spacing,
                        way == current_tick - start,
                        spacing > 0,
                ;
            }
        } else {
            let per_array = ticks_in_array(spacing);
            lemma_array_start_index(MIN_TICK as int, spacing);
            lemma_multiples_apart(start, current_start, per_array);
            if zero_for_one {
                lemma_last_set_at_or_below(flags, 59);
                let k = last_set_at_or_below(flags, 59)->Some_0;
                assert(start + k * spacing < start + per_array) by (nonlinear_arith)
                    requires
                        0 <= k <= 59,
                        per_array == 60 * spacing,
                        spacing > 0,
                ;
            } else {
                lemma_first_set_at_or_above(flags, 0);
                let k = first_set_at_or_above(flags, 0)->Some_0;
                assert(start + k * spacing >= start) by (nonlinear_arith)
                    requires
                        0 <= k,
                        spacing > 0,
                ;
            }
        }
    }
}

/// Two different multiples of a number lie at least that number apart.
pub proof fn lemma_multiples_apart(x: int, y: int, d: int)
    requires
        d > 0,
        x % d == 0,
        y % d == 0,
    ensures
        x < y ==> x + d <= y,
        y < x ==> y + d <= x,
{
    vstd::arithmetic::div_mod::lemma_fundamental_div_mod(x, d);
    vstd::arithmetic::div_mod::lemma_fundamental_div_mod(y, d);
    let p = x / d;
    let q = y / d;
    assert(x < y ==> x + d <= y) by (nonlinear_arith)
        requires
            x == d * p,
            y == d * q,
            d > 0,
    ;
    assert(y < x ==> y + d <= x) by (nonlinear_arith)
        requires
            x == d * p,
            y == d * q,
            d > 0,
    ;
}

/// Among tick arrays on the tick grid the search finds a tick in the
/// direction of the swap: at or below the current tick where the price
/// falls, above it where the price rises.
pub proof fn lemma_search_finds_ahead(
    tick_arrays: TickArrayMap,
    addresses: Seq<Address>,
    current_tick: i32,
    tick_spacing: u16,
    zero_for_one: bool,
)
    requires
        tick_spacing > 0,
        arrays_on_grid(tick_arrays, tick_spacing),
    ensures
        match find_next_initialized_tick_spec(
            current_tick,
            zero_for_one,
            tick_spacing,
            tick_arrays,
            addresses,
        ) {
            Ok(next) => if zero_for_one {
                next <= current_tick
            } else {
                next > current_tick
            },
            Err(_) => true,
        },
{
    let best = nearest_offer(
        tick_arrays,
        addresses,
        addresses.len() as int,
        current_tick,
        tick_spacing,
        zero_for_one,
    );
    lemma_nearest_offer(
        tick_arrays,
        addresses,
        addresses.len() as int,
        current_tick,
        tick_spacing,
        zero_for_one,
    );
    if best is Some {
        let i = choose|i: int|
            0 <= i < addresses.len() && #[trigger] offer_at(
                tick_arrays,
                addresses[i]@,
                current_tick,
                tick_spacing,
                zero_for_one,
            ) == best;
        lemma_offer_lies_ahead(
            tick_arrays,
            addresses[i]@,
            current_tick,
            tick_spacing,
            zero_for_one,
        );
    } else {
        lemma_next_grid_tick(current_tick as int, tick_spacing as int, zero_for_one);
    }
}

/// Whether `later` lies between `earlier` and `limit` on the way of the
/// swap, both included.
pub open spec fn price_on_the_way(
    earlier: u128,
    later: u128,
    limit: u128,
    zero_for_one: bool,
) -> bool {
    if zero_for_one {
        limit <= later <= earlier
    } else {
        earlier <= later <= limit
    }
}

/// The target of a round lies ahead: it is the current price, or it lies
/// on the side to which the price moves, and never beyond the limit; where
/// the price rises and the tick is the tick of the price, the price of the
/// next tick and the target lie above the current price. This holds where
/// the tick arrays stand on the tick grid, the tick follows the price, and
/// the limit lies ahead.
pub proof fn lemma_quote_target_lies_ahead(
    params: QuoteParams,
    tick_arrays: TickArrayMap,
    state: SwapState,
)
    requires
        params.tick_spacing > 0,
        arrays_on_grid(tick_arrays, params.tick_spacing),
        tick_follows_price(state, params.zero_for_one),
        price_on_the_way(
            state.sqrt_price_x64,
            state.sqrt_price_x64,
            params.sqrt_price_limit,
            params.zero_for_one,
        ),
        state.sqrt_price_x64 != params.sqrt_price_limit,
        find_next_initialized_tick_spec(
            state.tick,
            params.zero_for_one,
            params.tick_spacing,
            tick_arrays,
            tick_arrays.addresses(),
        ) is Ok,
        tick_in_range(
            find_next_initialized_tick_spec(
                state.tick,
                params.zero_for_one,
                params.tick_spacing,
                tick_arrays,
                tick_arrays.addresses(),
            ).unwrap() as int,
        ),
    ensures
        ({
            let next_tick = find_next_initialized_tick_spec(
                state.tick,
                params.zero_for_one,
                params.tick_spacing,
                tick_arrays,
                tick_arrays.addresses(),
            ).unwrap();
            let next_tick_price = sqrt_price_at_tick(next_tick as int) as u128;
            let target = quote_target(
                next_tick_price,
                params.sqrt_price_limit,
                params.zero_for_one,
            );
            &&& next_tick_price == sqrt_price_at_tick(next_tick as int)
            &&& if params.zero_for_one {
                next_tick <= state.tick && next_tick_price <= state.sqrt_price_x64
            } else {
                next_tick > state.tick && next_tick_price >= state.sqrt_price_x64
            }
            &&& price_on_the_way(
                state.sqrt_price_x64,
                target,
                params.sqrt_price_limit,
                params.zero_for_one,
            )
            &&& target != state.sqrt_price_x64 ==> params.zero_for_one == (target
                < state.sqrt_price_x64)
            &&& !params.zero_for_one && is_tick_of_price(
                state.tick as int,
                state.sqrt_price_x64 as nat,
            ) ==> next_tick_price > state.sqrt_price_x64 && target > state.sqrt_price_x64
        }),
{
    lemma_search_finds_ahead(
        tick_arrays,
        tick_arrays.addresses(),
        state.tick,
        params.tick_spacing,
        params.zero_for_one,
    );
    let next_tick = find_next_initialized_tick_spec(
        state.tick,
        params.zero_for_one,
        params.tick_spacing,
        tick_arrays,
        tick_arrays.addresses(),
    ).unwrap();
    lemma_sqrt_price_in_range(next_tick as int);
    if params.zero_for_one {
        if next_tick < state.tick {
            lemma_sqrt_price_strictly_monotone(next_tick as int, state.tick as int);
        }
    } else {
        if state.tick + 1 < next_tick {
            lemma_sqrt_price_strictly_monotone(state.tick + 1, next_tick as int);
        }
    }
}

/// A round of a quote never moves the price backwards or beyond the limit,
/// and the tick follows the price after it as before; where the price
/// rises, the tick after the round is the tick of the price; and where the
/// quote goes on after the round, the tick has moved ahead. This holds
/// where the tick arrays stand on the tick grid, the tick followed the price
/// before, and the limit lies ahead.
pub proof fn lemma_quote_round_moves_ahead(
    params: QuoteParams,
    tick_arrays: TickArrayMap,
    state: SwapState,
    crossings: nat,
)
    requires
        params.tick_spacing > 0,
        arrays_on_grid(tick_arrays, params.tick_spacing),
        tick_follows_price(state, params.zero_for_one),
        price_on_the_way(
            state.sqrt_price_x64,
            state.sqrt_price_x64,
            params.sqrt_price_limit,
            params.zero_for_one,
        ),
        quote_continues(state, params.sqrt_price_limit, crossings),
        quote_iteration(params, tick_arrays, state, crossings) is Ok,
    ensures
        ({
            let round = quote_iteration(params, tick_arrays, state, crossings).unwrap();
            let after = round.0;
            &&& quote_continues(after, params.sqrt_price_limit, round.1) ==> if params.zero_for_one {
                after.tick < state.tick
            } else {
                after.tick > state.tick
            }
            &&& price_on_the_way(
                state.sqrt_price_x64,
                after.sqrt_price_x64,
                params.sqrt_price_limit,
                params.zero_for_one,
            )
            &&& tick_follows_price(after, params.zero_for_one)
            &&& !params.zero_for_one ==> is_tick_of_price(
                after.tick as int,
                after.sqrt_price_x64 as nat,
            )
        }),
{
    lemma_quote_round_progress(params, tick_arrays, state, crossings);
    lemma_quote_target_lies_ahead(params, tick_arrays, state);
    let zero_for_one = params.zero_for_one;
    let next_tick = find_next_initialized_tick_spec(
        state.tick,
        zero_for_one,
        params.tick_spacing,
        tick_arrays,
        tick_arrays.addresses(),
    ).unwrap();
    let next_tick_price = sqrt_price_at_tick(next_tick as int) as u128;
    let cur = state.sqrt_price_x64;
    let target = quote_target(next_tick_price, params.sqrt_price_limit, zero_for_one);
    let step = compute_swap_step_spec(
        cur,
        target,
        state.liquidity,
        state.amount_specified_remaining,
        params.fee_rate,
        params.is_base_input,
        zero_for_one,
    ).unwrap();
    if target == cur {
        lemma_step_at_target(
            cur,
            state.liquidity,
            state.amount_specified_remaining,
            params.fee_rate,
            params.is_base_input,
            zero_for_one,
        );
    } else {
        lemma_step_price_between(
            cur,
            target,
            state.liquidity,
            state.amount_specified_remaining,
            params.fee_rate,
            params.is_base_input,
            zero_for_one,
        );
    }
    let stepped = state_after_step(state, step, params.is_base_input).unwrap();
    assert(stepped.sqrt_price_x64 == step.sqrt_price_next_x64);
    if stepped.sqrt_price_x64 == next_tick_price {
        if zero_for_one {
            if next_tick > MIN_TICK {
                lemma_sqrt_price_strictly_monotone(next_tick - 1, next_tick as int);
            }
        } else {
            if next_tick < MAX_TICK {
                lemma_sqrt_price_strictly_monotone(next_tick as int, next_tick + 1);
            }
        }
    } else {
        lemma_price_has_tick(stepped.sqrt_price_x64 as nat);
    }
}

/// The price at the end of a quote lies between the price at its start and
/// the price limit, both included, and the tick at the end follows the
/// price; where the price rises and the tick at the start is the tick of
/// the price, so is the tick at the end. This holds where the tick arrays
/// stand on the tick grid, the tick at the start follows the price, and the
/// limit lies ahead.
pub proof fn lemma_quote_run_moves_ahead(
    params: QuoteParams,
    tick_arrays: TickArrayMap,
    state: SwapState,
    crossings: nat,
)
    requires
        params.tick_spacing > 0,
        arrays_on_grid(tick_arrays, params.tick_spacing),
        tick_follows_price(state, params.zero_for_one),
        price_on_the_way(
            state.sqrt_price_x64,
            state.sqrt_price_x64,
            params.sqrt_price_limit,
            params.zero_for_one,
        ),
        quote_run(params, tick_arrays, state, crossings) is Ok,
    ensures
        ({
            let end = quote_run(params, tick_arrays, state, crossings).unwrap();
            &&& price_on_the_way(
                state.sqrt_price_x64,
                end.sqrt_price_x64,
                params.sqrt_price_limit,
                params.zero_for_one,
            )
            &&& tick_follows_price(end, params.zero_for_one)
            &&& !params.zero_for_one && is_tick_of_price(
                state.tick as int,
                state.sqrt_price_x64 as nat,
            ) ==> is_tick_of_price(end.tick as int, end.sqrt_price_x64 as nat)
        }),
    decreases quote_measure(state, params.sqrt_price_limit, crossings),
{
    if quote_continues(state, params.sqrt_price_limit, crossings) {
        let after = quote_iteration(params, tick_arrays, state, crossings).unwrap();
        lemma_quote_round_progress(params, tick_arrays, state, crossings);
        lemma_quote_round_moves_ahead(params, tick_arrays, state, crossings);
        lemma_quote_run_moves_ahead(params, tick_arrays, after.0, after.1);
    }
}

/// The price limit of a quote: the one that the caller names, or the one
/// just inside the price range.
pub open spec fn price_limit_of(sqrt_price_limit_x64: Option<u128>, zero_for_one: bool) -> u128 {
    match sqrt_price_limit_x64 {
        Some(limit) => limit,
        None => default_price_limit(zero_for_one),
    }
}

/// The end price of a quote lies between the pool's price and the price
/// limit, both included: the price never moves backwards and never passes
/// the limit. This holds where the pool's tick and price agree, the limit
/// lies ahead of the pool's price, and the tick arrays stand on the tick
/// grid.
pub proof fn lemma_quote_ends_between(
    pool_state: PoolState,
    amm_config: AmmConfig,
    zero_for_one: bool,
    amount_specified: u64,
    is_base_input: bool,
    sqrt_price_limit_x64: Option<u128>,
    current_timestamp: u64,
    pool_key: Address,
    program_id: Address,
    tick_arrays: TickArrayMap,
)
    requires
        pool_state.tick_spacing > 0,
        arrays_on_grid(tick_arrays, pool_state.tick_spacing),
        pool_tick_agrees(pool_state),
        price_on_the_way(
            pool_state.sqrt_price_x64,
            pool_state.sqrt_price_x64,
            price_limit_of(sqrt_price_limit_x64, zero_for_one),
            zero_for_one,
        ),
        compute_swap_quote_spec(
            pool_state,
            amm_config,
            zero_for_one,
            amount_specified,
            is_base_input,
            sqrt_price_limit_x64,
            current_timestamp,
            pool_key,
            program_id,
            tick_arrays,
        ) is Ok,
    ensures
        ({
            let quote = compute_swap_quote_spec(
                pool_state,
                amm_config,
                zero_for_one,
                amount_specified,
                is_base_input,
                sqrt_price_limit_x64,
                current_timestamp,
                pool_key,
                program_id,
                tick_arrays,
            ).unwrap();
            &&& quote.sqrt_price_start_x64 == pool_state.sqrt_price_x64
            &&& price_on_the_way(
                pool_state.sqrt_price_x64,
                quote.sqrt_price_end_x64,
                price_limit_of(sqrt_price_limit_x64, zero_for_one),
                zero_for_one,
            )
        }),
{
    let params = QuoteParams {
        pool_key,
        program_id,
        tick_spacing: pool_state.tick_spacing,
        fee_rate: effective_fee_rate_spec(
            pool_state,
            amm_config,
            zero_for_one,
            current_timestamp,
        ) as u32,
        sqrt_price_limit: price_limit_of(sqrt_price_limit_x64, zero_for_one),
        is_base_input,
        zero_for_one,
    };
    let start = SwapState {
        amount_specified_remaining: amount_specified,
        amount_calculated: 0,
        sqrt_price_x64: pool_state.sqrt_price_x64,
        tick: pool_state.tick_current,
        fee_growth_global_x64: 0,
        protocol_fee: 0,
        fund_fee: 0,
        liquidity: pool_state.liquidity,
        fee_amount: 0,
    };
    lemma_quote_run_moves_ahead(params, tick_arrays, start, 0);
}

/// The next point of the tick grid lies below the tick where the price
/// falls, and above it where the price rises.
pub proof fn lemma_next_grid_tick(tick: int, tick_spacing: int, zero_for_one: bool)
    requires
        tick_spacing > 0,
    ensures
        zero_for_one ==> next_grid_tick(tick, tick_spacing, zero_for_one) < tick,
        !zero_for_one ==> next_grid_tick(tick, tick_spacing, zero_for_one) > tick,
{
    let size = if tick >= 0 {
        tick
    } else {
        -tick
    };
    let q = size / tick_spacing;
    vstd::arithmetic::div_mod::lemma_fundamental_div_mod(size, tick_spacing);
    vstd::arithmetic::div_mod::lemma_mod_bound(size, tick_spacing);
    assert(q * tick_spacing <= size < q * tick_spacing + tick_spacing) by (nonlinear_arith)
        requires
            size == tick_spacing * q + size % tick_spacing,
            0 <= size % tick_spacing < tick_spacing,
    ;
    assert((q + 1) * tick_spacing == q * tick_spacing + tick_spacing) by (nonlinear_arith);
    assert((q - 1) * tick_spacing == q * tick_spacing - tick_spacing) by (nonlinear_arith);
    assert((-q + 1) * tick_spacing == -(q * tick_spacing) + tick_spacing) by (nonlinear_arith);
    assert((-q - 1) * tick_spacing == -(q * tick_spacing) - tick_spacing) by (nonlinear_arith);
}

/// A round of a quote through a range without liquidity moves no tokens:
/// what is left, what was calculated and the fees stay as they were.
pub proof fn lemma_quote_round_without_liquidity(
    params: QuoteParams,
    tick_arrays: TickArrayMap,
    state: SwapState,
    crossings: nat,
)
    requires
        state.liquidity == 0,
        state.sqrt_price_x64 > 0,
        params.sqrt_price_limit > 0,
        params.fee_rate < FEE_RATE_DENOMINATOR_VALUE,
        quote_iteration(params, tick_arrays, state, crossings) is Ok,
    ensures
        ({
            let after = quote_iteration(params, tick_arrays, state, crossings).unwrap().0;
            &&& after.amount_specified_remaining == state.amount_specified_remaining
            &&& after.amount_calculated == state.amount_calculated
            &&& after.fee_amount == state.fee_amount
        }),
{
    let next_tick = find_next_initialized_tick_spec(
        state.tick,
        params.zero_for_one,
        params.tick_spacing,
        tick_arrays,
        tick_arrays.addresses(),
    ).unwrap();
    lemma_sqrt_price_in_range(next_tick as int);
    let next_tick_price = sqrt_price_at_tick(next_tick as int) as u128;
    let target = quote_target(next_tick_price, params.sqrt_price_limit, params.zero_for_one);
    lemma_step_without_liquidity(
        state.sqrt_price_x64,
        target,
        state.amount_specified_remaining,
        params.fee_rate,
        params.is_base_input,
        params.zero_for_one,
    );
}

/// A round of a quote through a range without liquidity succeeds where the
/// next tick is a tick of the tick range, crossing it changes no liquidity,
/// and the price limit is a price of the price range.
pub proof fn lemma_quote_round_without_liquidity_succeeds(
    params: QuoteParams,
    tick_arrays: TickArrayMap,
    state: SwapState,
    crossings: nat,
)
    requires
        state.liquidity == 0,
        state.sqrt_price_x64 > 0,
        MIN_SQRT_PRICE_X64 <= params.sqrt_price_limit <= MAX_SQRT_PRICE_X64,
        params.fee_rate < FEE_RATE_DENOMINATOR_VALUE,
        match find_next_initialized_tick_spec(
            state.tick,
            params.zero_for_one,
            params.tick_spacing,
            tick_arrays,
            tick_arrays.addresses(),
        ) {
            Ok(next_tick) => tick_in_range(next_tick as int) && match liquidity_net_at(
                tick_arrays,
                tick_array_address_of(params, next_tick),
                next_tick,
                params.tick_spacing,
            ) {
                Some(net) => net == 0,
                None => true,
            },
            Err(_) => false,
        },
    ensures
        quote_iteration(params, tick_arrays, state, crossings) is Ok,
        quote_iteration(params, tick_arrays, state, crossings).unwrap().0.liquidity == 0,
{
    let next_tick = find_next_initialized_tick_spec(
        state.tick,
        params.zero_for_one,
        params.tick_spacing,
        tick_arrays,
        tick_arrays.addresses(),
    ).unwrap();
    lemma_sqrt_price_in_range(next_tick as int);
    let next_tick_price = sqrt_price_at_tick(next_tick as int) as u128;
    let target = quote_target(next_tick_price, params.sqrt_price_limit, params.zero_for_one);
    lemma_step_without_liquidity(
        state.sqrt_price_x64,
        target,
        state.amount_specified_remaining,
        params.fee_rate,
        params.is_base_input,
        params.zero_for_one,
    );
}

/// Whether no tick ahead of `from`, in the direction of the swap, adds or
/// takes liquidity when it is crossed.
pub open spec fn no_liquidity_ahead(
    params: QuoteParams,
    tick_arrays: TickArrayMap,
    from: i32,
) -> bool {
    forall|tick: i32|
        (if params.zero_for_one {
            tick <= from
        } else {
            tick > from
        }) ==> match #[trigger] liquidity_net_at(
            tick_arrays,
            tick_array_address_of(params, tick),
            tick,
            params.tick_spacing,
        ) {
            Some(net) => net == 0,
            None => true,
        }
}

/// A quote that has come to a range without liquidity, with no liquidity
/// ahead, moves no more tokens: it ends with the amounts and the fees that
/// it had. This holds where the tick arrays stand on the tick grid.
pub proof fn lemma_quote_run_without_liquidity(
    params: QuoteParams,
    tick_arrays: TickArrayMap,
    state: SwapState,
    crossings: nat,
)
    requires
        state.liquidity == 0,
        state.sqrt_price_x64 > 0,
        params.sqrt_price_limit > 0,
        params.fee_rate < FEE_RATE_DENOMINATOR_VALUE,
        params.tick_spacing > 0,
        arrays_on_grid(tick_arrays, params.tick_spacing),
        no_liquidity_ahead(params, tick_arrays, state.tick),
        quote_run(params, tick_arrays, state, crossings) is Ok,
    ensures
        ({
            let end = quote_run(params, tick_arrays, state, crossings).unwrap();
            &&& end.amount_specified_remaining == state.amount_specified_remaining
            &&& end.amount_calculated == state.amount_calculated
            &&& end.fee_amount == state.fee_amount
            &&& end.liquidity == 0
        }),
    decreases quote_measure(state, params.sqrt_price_limit, crossings),
{
    if quote_continues(state, params.sqrt_price_limit, crossings) {
        let after = quote_iteration(params, tick_arrays, state, crossings).unwrap();
        lemma_quote_round_progress(params, tick_arrays, state, crossings);
        lemma_quote_round_without_liquidity(params, tick_arrays, state, crossings);
        lemma_search_finds_ahead(
            tick_arrays,
            tick_arrays.addresses(),
            state.tick,
            params.tick_spacing,
            params.zero_for_one,
        );
        let next_tick = find_next_initialized_tick_spec(
            state.tick,
            params.zero_for_one,
            params.tick_spacing,
            tick_arrays,
            tick_arrays.addresses(),
        ).unwrap();
        lemma_sqrt_price_in_range(next_tick as int);
        let next_tick_price = sqrt_price_at_tick(next_tick as int) as u128;
        let target = quote_target(next_tick_price, params.sqrt_price_limit, params.zero_for_one);
        lemma_step_without_liquidity(
            state.sqrt_price_x64,
            target,
            state.amount_specified_remaining,
            params.fee_rate,
            params.is_base_input,
            params.zero_for_one,
        );
        assert(after.0.sqrt_price_x64 == target);
        if target == next_tick_price {
            let net = liquidity_net_at(
                tick_arrays,
                tick_array_address_of(params, next_tick),
                next_tick,
                params.tick_spacing,
            );
            assert(after.0.liquidity == 0);
            assert forall|tick: i32|
                (if params.zero_for_one {
                    tick <= after.0.tick
                } else {
                    tick > after.0.tick
                }) implies match #[trigger] liquidity_net_at(
                tick_arrays,
                tick_array_address_of(params, tick),
                tick,
                params.tick_spacing,
            ) {
                Some(net) => net == 0,
                None => true,
            } by {}
            lemma_quote_run_without_liquidity(params, tick_arrays, after.0, after.1);
        } else {
            assert(!quote_continues(after.0, params.sqrt_price_limit, after.1));
        }
    }
}

/// What an exact-input round pays out is the output amount between the
/// price at which it starts and the price at which it ends, for the
/// liquidity with which it starts; the sum of what was calculated stays
/// within 64 bits.
pub proof fn lemma_quote_round_pays_for_its_range(
    params: QuoteParams,
    tick_arrays: TickArrayMap,
    state: SwapState,
    crossings: nat,
)
    requires
        params.is_base_input,
        quote_iteration(params, tick_arrays, state, crossings) is Ok,
    ensures
        ({
            let after = quote_iteration(params, tick_arrays, state, crossings).unwrap().0;
            let paid = step_amount_out(
                state.sqrt_price_x64,
                after.sqrt_price_x64,
                state.liquidity,
                params.zero_for_one,
            );
            &&& paid is Ok
            &&& after.amount_calculated == if state.amount_calculated + paid->Ok_0 > u64::MAX {
                u64::MAX
            } else {
                (state.amount_calculated + paid->Ok_0) as u64
            }
        }),
{
}

/// Whether the fees so far are within what has gone in so far: within what
/// has been used of the amount specified, for an exact-input quote of
/// `amount_specified`; within what has been calculated, for an exact-output
/// quote.
pub open spec fn fees_within_input(
    state: SwapState,
    amount_specified: u64,
    is_base_input: bool,
) -> bool {
    if is_base_input {
        state.fee_amount + state.amount_specified_remaining <= amount_specified
    } else {
        state.fee_amount <= state.amount_calculated
    }
}

/// A round of a quote keeps the fees within what has gone in. For an
/// exact-input quote this holds where the tick arrays stand on the tick
/// grid, the tick follows the price, and the limit lies ahead.
pub proof fn lemma_quote_round_fees_within_input(
    params: QuoteParams,
    tick_arrays: TickArrayMap,
    state: SwapState,
    crossings: nat,
    amount_specified: u64,
)
    requires
        params.tick_spacing > 0,
        arrays_on_grid(tick_arrays, params.tick_spacing),
        tick_follows_price(state, params.zero_for_one),
        price_on_the_way(
            state.sqrt_price_x64,
            state.sqrt_price_x64,
            params.sqrt_price_limit,
            params.zero_for_one,
        ),
        quote_continues(state, params.sqrt_price_limit, crossings),
        quote_iteration(params, tick_arrays, state, crossings) is Ok,
        fees_within_input(state, amount_specified, params.is_base_input),
    ensures
        fees_within_input(
            quote_iteration(params, tick_arrays, state, crossings).unwrap().0,
            amount_specified,
            params.is_base_input,
        ),
{
    if params.is_base_input {
        lemma_quote_target_lies_ahead(params, tick_arrays, state);
        let next_tick = find_next_initialized_tick_spec(
            state.tick,
            params.zero_for_one,
            params.tick_spacing,
            tick_arrays,
            tick_arrays.addresses(),
        ).unwrap();
        let next_tick_price = sqrt_price_at_tick(next_tick as int) as u128;
        let target = quote_target(next_tick_price, params.sqrt_price_limit, params.zero_for_one);
        if target == state.sqrt_price_x64 {
            lemma_step_at_target(
                state.sqrt_price_x64,
                state.liquidity,
                state.amount_specified_remaining,
                params.fee_rate,
                true,
                params.zero_for_one,
            );
        } else {
            lemma_exact_input_uses_budget(
                state.sqrt_price_x64,
                target,
                state.liquidity,
                state.amount_specified_remaining,
                params.fee_rate,
                params.zero_for_one,
            );
        }
    }
}

/// A quote keeps the fees within what has gone in, under the premises of
/// the law on one round.
pub proof fn lemma_quote_run_fees_within_input(
    params: QuoteParams,
    tick_arrays: TickArrayMap,
    state: SwapState,
    crossings: nat,
    amount_specified: u64,
)
    requires
        params.tick_spacing > 0,
        arrays_on_grid(tick_arrays, params.tick_spacing),
        tick_follows_price(state, params.zero_for_one),
        price_on_the_way(
            state.sqrt_price_x64,
            state.sqrt_price_x64,
            params.sqrt_price_limit,
            params.zero_for_one,
        ),
        quote_run(params, tick_arrays, state, crossings) is Ok,
        fees_within_input(state, amount_specified, params.is_base_input),
    ensures
        fees_within_input(
            quote_run(params, tick_arrays, state, crossings).unwrap(),
            amount_specified,
            params.is_base_input,
        ),
    decreases quote_measure(state, params.sqrt_price_limit, crossings),
{
    if quote_continues(state, params.sqrt_price_limit, crossings) {
        let after = quote_iteration(params, tick_arrays, state, crossings).unwrap();
        lemma_quote_round_progress(params, tick_arrays, state, crossings);
        lemma_quote_round_moves_ahead(params, tick_arrays, state, crossings);
        lemma_quote_round_fees_within_input(
            params,
            tick_arrays,
            state,
            crossings,
            amount_specified,
        );
        lemma_quote_run_fees_within_input(
            params,
            tick_arrays,
            after.0,
            after.1,
            amount_specified,
        );
    }
}

/// The fee of a quote never exceeds its amount in. This holds where the
/// pool's tick and price agree, the limit lies ahead of the pool's price,
/// and the tick arrays stand on the tick grid.
pub proof fn lemma_quote_fee_within_amount_in(
    pool_state: PoolState,
    amm_config: AmmConfig,
    zero_for_one: bool,
    amount_specified: u64,
    is_base_input: bool,
    sqrt_price_limit_x64: Option<u128>,
    current_timestamp: u64,
    pool_key: Address,
    program_id: Address,
    tick_arrays: TickArrayMap,
)
    requires
        pool_state.tick_spacing > 0,
        arrays_on_grid(tick_arrays, pool_state.tick_spacing),
        pool_tick_agrees(pool_state),
        price_on_the_way(
            pool_state.sqrt_price_x64,
            pool_state.sqrt_price_x64,
            price_limit_of(sqrt_price_limit_x64, zero_for_one),
            zero_for_one,
        ),
        compute_swap_quote_spec(
            pool_state,
            amm_config,
            zero_for_one,
            amount_specified,
            is_base_input,
            sqrt_price_limit_x64,
            current_timestamp,
            pool_key,
            program_id,
            tick_arrays,
        ) is Ok,
    ensures
        ({
            let quote = compute_swap_quote_spec(
                pool_state,
                amm_config,
                zero_for_one,
                amount_specified,
                is_base_input,
                sqrt_price_limit_x64,
                current_timestamp,
                pool_key,
                program_id,
                tick_arrays,
            ).unwrap();
            quote.fee_amount <= quote.amount_in
        }),
{
    let params = QuoteParams {
        pool_key,
        program_id,
        tick_spacing: pool_state.tick_spacing,
        fee_rate: effective_fee_rate_spec(
            pool_state,
            amm_config,
            zero_for_one,
            current_timestamp,
        ) as u32,
        sqrt_price_limit: price_limit_of(sqrt_price_limit_x64, zero_for_one),
        is_base_input,
        zero_for_one,
    };
    let start = SwapState {
        amount_specified_remaining: amount_specified,
        amount_calculated: 0,
        sqrt_price_x64: pool_state.sqrt_price_x64,
        tick: pool_state.tick_current,
        fee_growth_global_x64: 0,
        protocol_fee: 0,
        fund_fee: 0,
        liquidity: pool_state.liquidity,
        fee_amount: 0,
    };
    lemma_quote_run_fees_within_input(params, tick_arrays, start, 0, amount_specified);
}

/// Whether the next `rounds` ticks that the search finds, from `tick` on,
/// are ticks of the tick range that change no liquidity when they are
/// crossed.
pub open spec fn next_ticks_change_nothing(
    params: QuoteParams,
    tick_arrays: TickArrayMap,
    tick: i32,
    rounds: nat,
) -> bool
    decreases rounds,
{
    rounds == 0 || match find_next_initialized_tick_spec(
        tick,
        params.zero_for_one,
        params.tick_spacing,
        tick_arrays,
        tick_arrays.addresses(),
    ) {
        Ok(next_tick) => {
            &&& tick_in_range(next_tick as int)
            &&& match liquidity_net_at(
                tick_arrays,
                tick_array_address_of(params, next_tick),
                next_tick,
                params.tick_spacing,
            ) {
                Some(net) => net == 0,
                None => true,
            }
            &&& next_ticks_change_nothing(
                params,
                tick_arrays,
                if params.zero_for_one {
                    (next_tick - 1) as i32
                } else {
                    next_tick
                },
                (rounds - 1) as nat,
            )
        },
        Err(_) => false,
    }
}

/// A quote that has come to a range without liquidity ends without a
/// failure, and with the amounts and the fees that it had, where the ticks
/// that are left to it to cross are ticks of the tick range that change no
/// liquidity, and the price limit is a price of the price range.
pub proof fn lemma_quote_run_without_liquidity_succeeds(
    params: QuoteParams,
    tick_arrays: TickArrayMap,
    state: SwapState,
    crossings: nat,
)
    requires
        state.liquidity == 0,
        state.sqrt_price_x64 > 0,
        MIN_SQRT_PRICE_X64 <= params.sqrt_price_limit <= MAX_SQRT_PRICE_X64,
        params.fee_rate < FEE_RATE_DENOMINATOR_VALUE,
        crossings <= 10,
        next_ticks_change_nothing(params, tick_arrays, state.tick, (10 - crossings) as nat),
    ensures
        quote_run(params, tick_arrays, state, crossings) is Ok,
        ({
            let end = quote_run(params, tick_arrays, state, crossings).unwrap();
            &&& end.amount_specified_remaining == state.amount_specified_remaining
            &&& end.amount_calculated == state.amount_calculated
            &&& end.fee_amount == state.fee_amount
            &&& end.liquidity == 0
        }),
    decreases quote_measure(state, params.sqrt_price_limit, crossings),
{
    if quote_continues(state, params.sqrt_price_limit, crossings) {
        lemma_quote_round_without_liquidity_succeeds(params, tick_arrays, state, crossings);
        lemma_quote_round_without_liquidity(params, tick_arrays, state, crossings);
        lemma_quote_round_progress(params, tick_arrays, state, crossings);
        let after = quote_iteration(params, tick_arrays, state, crossings).unwrap();
        let next_tick = find_next_initialized_tick_spec(
            state.tick,
            params.zero_for_one,
            params.tick_spacing,
            tick_arrays,
            tick_arrays.addresses(),
        ).unwrap();
        lemma_sqrt_price_in_range(next_tick as int);
        let next_tick_price = sqrt_price_at_tick(next_tick as int) as u128;
        let target = quote_target(next_tick_price, params.sqrt_price_limit, params.zero_for_one);
        lemma_step_without_liquidity(
            state.sqrt_price_x64,
            target,
            state.amount_specified_remaining,
            params.fee_rate,
            params.is_base_input,
            params.zero_for_one,
        );
        assert(after.0.sqrt_price_x64 == target);
        assert(quote_run(params, tick_arrays, state, crossings) == quote_run(
            params,
            tick_arrays,
            after.0,
            after.1,
        ));
        if target == next_tick_price {
            assert(after.1 == crossings + 1);
            assert(after.0.tick == if params.zero_for_one {
                (next_tick - 1) as i32
            } else {
                next_tick
            });
            assert(next_ticks_change_nothing(
                params,
                tick_arrays,
                after.0.tick,
                (10 - after.1) as nat,
            ));
            lemma_quote_run_without_liquidity_succeeds(params, tick_arrays, after.0, after.1);
        } else {
            assert(!quote_continues(after.0, params.sqrt_price_limit, after.1));
        }
    }
}

/// The exact-input quote of a rising price with the price limit
/// `sqrt_price_limit`.
pub open spec fn quote_up_to(
    pool_state: PoolState,
    amm_config: AmmConfig,
    amount_specified: u64,
    sqrt_price_limit: u128,
    current_timestamp: u64,
    pool_key: Address,
    program_id: Address,
    tick_arrays: TickArrayMap,
) -> Result<SwapQuoteResult, ErrorCode> {
    compute_swap_quote_spec(
        pool_state,
        amm_config,
        false,
        amount_specified,
        true,
        Some(sqrt_price_limit),
        current_timestamp,
        pool_key,
        program_id,
        tick_arrays,
    )
}

/// The step that an exact-input quote of a rising price takes first, with
/// the price limit as its target.
pub open spec fn first_step_up_to(
    pool_state: PoolState,
    amm_config: AmmConfig,
    amount_specified: u64,
    sqrt_price_limit: u128,
    current_timestamp: u64,
) -> Result<SwapStep, ErrorCode> {
    compute_swap_step_spec(
        pool_state.sqrt_price_x64,
        sqrt_price_limit,
        pool_state.liquidity,
        amount_specified,
        effective_fee_rate_spec(pool_state, amm_config, false, current_timestamp) as u32,
        true,
        false,
    )
}

/// An exact-input quote of a rising price whose first step reaches the
/// price limit, before the next tick or at it, is that step: what goes in is
/// the step's input and fee, what comes out is the step's output.
pub proof fn lemma_quote_is_its_first_step(
    pool_state: PoolState,
    amm_config: AmmConfig,
    amount_specified: u64,
    sqrt_price_limit: u128,
    current_timestamp: u64,
    pool_key: Address,
    program_id: Address,
    tick_arrays: TickArrayMap,
)
    requires
        amount_specified != 0,
        pool_state.sqrt_price_x64 < sqrt_price_limit,
        match find_next_initialized_tick_spec(
            pool_state.tick_current,
            false,
            pool_state.tick_spacing,
            tick_arrays,
            tick_arrays.addresses(),
        ) {
            Ok(next_tick) => tick_in_range(next_tick as int) && sqrt_price_limit
                <= sqrt_price_at_tick(next_tick as int),
            Err(_) => false,
        },
        quote_up_to(
            pool_state,
            amm_config,
            amount_specified,
            sqrt_price_limit,
            current_timestamp,
            pool_key,
            program_id,
            tick_arrays,
        ) is Ok,
        first_step_up_to(
            pool_state,
            amm_config,
            amount_specified,
            sqrt_price_limit,
            current_timestamp,
        ) is Ok,
        first_step_up_to(
            pool_state,
            amm_config,
            amount_specified,
            sqrt_price_limit,
            current_timestamp,
        ).unwrap().sqrt_price_next_x64 == sqrt_price_limit,
    ensures
        ({
            let quote = quote_up_to(
                pool_state,
                amm_config,
                amount_specified,
                sqrt_price_limit,
                current_timestamp,
                pool_key,
                program_id,
                tick_arrays,
            ).unwrap();
            let step = first_step_up_to(
                pool_state,
                amm_config,
                amount_specified,
                sqrt_price_limit,
                current_timestamp,
            ).unwrap();
            &&& quote.amount_in == step.amount_in + step.fee_amount
            &&& quote.amount_out == step.amount_out
            &&& quote.fee_amount == step.fee_amount
            &&& quote.sqrt_price_end_x64 == sqrt_price_limit
        }),
{
    let fee_rate = effective_fee_rate_spec(pool_state, amm_config, false, current_timestamp) as u32;
    let params = QuoteParams {
        pool_key,
        program_id,
        tick_spacing: pool_state.tick_spacing,
        fee_rate,
        sqrt_price_limit,
        is_base_input: true,
        zero_for_one: false,
    };
    let start = SwapState {
        amount_specified_remaining: amount_specified,
        amount_calculated: 0,
        sqrt_price_x64: pool_state.sqrt_price_x64,
        tick: pool_state.tick_current,
        fee_growth_global_x64: 0,
        protocol_fee: 0,
        fund_fee: 0,
        liquidity: pool_state.liquidity,
        fee_amount: 0,
    };
    let next_tick = find_next_initialized_tick_spec(
        pool_state.tick_current,
        false,
        pool_state.tick_spacing,
        tick_arrays,
        tick_arrays.addresses(),
    ).unwrap();
    lemma_sqrt_price_in_range(next_tick as int);
    assert(quote_continues(start, sqrt_price_limit, 0));
    lemma_exact_input_uses_budget(
        pool_state.sqrt_price_x64,
        sqrt_price_limit,
        pool_state.liquidity,
        amount_specified,
        fee_rate,
        false,
    );
    let after = quote_iteration(params, tick_arrays, start, 0).unwrap();
    lemma_quote_round_progress(params, tick_arrays, start, 0);
    assert(after.0.sqrt_price_x64 == sqrt_price_limit);
    assert(!quote_continues(after.0, sqrt_price_limit, after.1));
    assert(quote_run(params, tick_arrays, after.0, after.1) == Ok::<SwapState, ErrorCode>(
        after.0,
    ));
}

/// Of two exact-input quotes of a rising price, each of which reaches its
/// price limit in its first step, before the next tick or at it, the quote
/// with the limit further up takes in more and gives out more, where the
/// pool's liquidity is large enough to tell the two limits apart.
pub proof fn lemma_quote_amounts_rise_with_limit(
    pool_state: PoolState,
    amm_config: AmmConfig,
    amount_specified: u64,
    nearer: u128,
    farther: u128,
    current_timestamp: u64,
    pool_key: Address,
    program_id: Address,
    tick_arrays: TickArrayMap,
)
    requires
        amount_specified != 0,
        0 < pool_state.sqrt_price_x64 < nearer < farther,
        pool_state.liquidity * (farther - nearer) >= pow64(),
        pool_state.liquidity * pow64() * (farther - nearer) >= nearer * farther,
        match find_next_initialized_tick_spec(
            pool_state.tick_current,
            false,
            pool_state.tick_spacing,
            tick_arrays,
            tick_arrays.addresses(),
        ) {
            Ok(next_tick) => tick_in_range(next_tick as int) && farther <= sqrt_price_at_tick(
                next_tick as int,
            ),
            Err(_) => false,
        },
        quote_up_to(
            pool_state,
            amm_config,
            amount_specified,
            nearer,
            current_timestamp,
            pool_key,
            program_id,
            tick_arrays,
        ) is Ok,
        quote_up_to(
            pool_state,
            amm_config,
            amount_specified,
            farther,
            current_timestamp,
            pool_key,
            program_id,
            tick_arrays,
        ) is Ok,
        first_step_up_to(pool_state, amm_config, amount_specified, nearer, current_timestamp)
            is Ok,
        first_step_up_to(pool_state, amm_config, amount_specified, farther, current_timestamp)
            is Ok,
        first_step_up_to(
            pool_state,
            amm_config,
            amount_specified,
            nearer,
            current_timestamp,
        ).unwrap().sqrt_price_next_x64 == nearer,
        first_step_up_to(
            pool_state,
            amm_config,
            amount_specified,
            farther,
            current_timestamp,
        ).unwrap().sqrt_price_next_x64 == farther,
    ensures
        ({
            let near = quote_up_to(
                pool_state,
                amm_config,
                amount_specified,
                nearer,
                current_timestamp,
                pool_key,
                program_id,
                tick_arrays,
            ).unwrap();
            let far = quote_up_to(
                pool_state,
                amm_config,
                amount_specified,
                farther,
                current_timestamp,
                pool_key,
                program_id,
                tick_arrays,
            ).unwrap();
            &&& near.amount_in < far.amount_in
            &&& near.amount_out < far.amount_out
        }),
{
    let fee_rate = effective_fee_rate_spec(pool_state, amm_config, false, current_timestamp) as u32;
    lemma_quote_is_its_first_step(
        pool_state,
        amm_config,
        amount_specified,
        nearer,
        current_timestamp,
        pool_key,
        program_id,
        tick_arrays,
    );
    lemma_quote_is_its_first_step(
        pool_state,
        amm_config,
        amount_specified,
        farther,
        current_timestamp,
        pool_key,
        program_id,
        tick_arrays,
    );
    lemma_step_amounts_rise_with_target(
        pool_state.sqrt_price_x64,
        nearer,
        farther,
        pool_state.liquidity,
        amount_specified,
        fee_rate,
    );
    let near = first_step_up_to(
        pool_state,
        amm_config,
        amount_specified,
        nearer,
        current_timestamp,
    ).unwrap();
    let far = first_step_up_to(
        pool_state,
        amm_config,
        amount_specified,
        farther,
        current_timestamp,
    ).unwrap();
    let budget = step_budget(amount_specified, fee_rate, true);
    lemma_next_price_between(
        pool_state.sqrt_price_x64,
        nearer,
        pool_state.liquidity,
        budget,
        true,
        false,
    );
    lemma_next_price_between(
        pool_state.sqrt_price_x64,
        farther,
        pool_state.liquidity,
        budget,
        true,
        false,
    );
    let rest = (FEE_RATE_DENOMINATOR_VALUE - fee_rate) as nat;
    let rate = fee_rate as nat;
    assert((far.amount_in as nat * rate) * rest >= (near.amount_in as nat * rate) * rest + 0
        * rest * rest) by (nonlinear_arith)
        requires
            near.amount_in < far.amount_in,
    ;
    lemma_ceil_quotients_apart(
        near.amount_in as nat * rate,
        rest,
        far.amount_in as nat * rate,
        rest,
        0,
    );
}

} // verus!
