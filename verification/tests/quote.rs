use clmm_core::address::{get_bitmap_extension_address, get_tick_array_address, Address};
use clmm_core::dyn_tick_array::DynTickArrayState;
use clmm_core::error::ErrorCode;
use clmm_core::liquidity_math::get_delta_amount_0_unsigned;
use clmm_core::fee::{
    get_decay_fee_rate, get_effective_fee_rate, is_decay_fee_enabled, is_decay_fee_on_sell_mint0,
    is_decay_fee_on_sell_mint1,
};
use clmm_core::pool::{AmmConfig, PoolState, SwapState};
use clmm_core::quote::{
    apply_step, compute_swap_quote, cross_tick, find_next_initialized_tick, next_grid_point,
    quote_step, QuoteParams, SwapQuoteResult, MAX_TICK_ARRAY_CROSSINGS,
};
use clmm_core::swap_math::SwapStep;
use clmm_core::tick::TickState;
use clmm_core::tick_array::TickArrayState;
use clmm_core::tick_array_data::TickArrayData;
use clmm_core::tick_array_map::TickArrayMap;
use clmm_core::tick_math::{
    get_sqrt_price_at_tick, MAX_SQRT_PRICE_X64, MIN_SQRT_PRICE_X64,
};

fn address(seed: u8) -> Address {
    let mut bytes = [seed; 32];
    bytes[0] = 2;
    Address::new_from_array(bytes)
}

fn pool_key() -> Address {
    address(11)
}

fn program_id() -> Address {
    address(22)
}

fn pool(tick: i32, liquidity: u128) -> PoolState {
    PoolState {
        sqrt_price_x64: get_sqrt_price_at_tick(tick).unwrap(),
        tick_current: tick,
        liquidity,
        tick_spacing: 60,
        fee_growth_global_0_x64: 0,
        fee_growth_global_1_x64: 0,
        open_time: 1000,
        decay_fee_flag: 0,
        decay_fee_init_fee_rate: 0,
        decay_fee_decrease_rate: 0,
        decay_fee_decrease_interval: 0,
        status: 0,
        tick_array_bitmap: [0; 16],
    }
}

fn config(trade_fee_rate: u32) -> AmmConfig {
    AmmConfig {
        trade_fee_rate,
        protocol_fee_rate: 0,
        fund_fee_rate: 0,
        tick_spacing: 60,
    }
}

fn initialized(tick: i32, liquidity_net: i128) -> TickState {
    TickState {
        tick,
        liquidity_net,
        liquidity_gross: liquidity_net.unsigned_abs(),
        ..Default::default()
    }
}

/// Ticks -60, 0 and 60 in two tick arrays of the fixed layout.
fn fixed_arrays() -> (TickArrayData, TickArrayData) {
    let mut below = TickArrayState::default();
    below.start_tick_index = -3600;
    below.pool_id = pool_key();
    below.ticks[59] = initialized(-60, 1_000_000);
    let mut above = TickArrayState::default();
    above.start_tick_index = 0;
    above.pool_id = pool_key();
    above.ticks[0] = initialized(0, 1_000_000);
    above.ticks[1] = initialized(60, -2_000_000);
    (TickArrayData::Fixed(below), TickArrayData::Fixed(above))
}

/// The same ticks in two tick arrays of the dynamic layout.
fn dynamic_arrays() -> (TickArrayData, TickArrayData) {
    let mut below = DynTickArrayState::default();
    below.initialize(-3600, 60, pool_key(), 0).unwrap();
    below.use_one_tick(-60, 60).unwrap();
    let mut above = DynTickArrayState::default();
    above.initialize(0, 60, pool_key(), 0).unwrap();
    above.use_one_tick(60, 60).unwrap();
    above.use_one_tick(0, 60).unwrap();
    (
        TickArrayData::Dynamic {
            header: below,
            ticks: vec![initialized(-60, 1_000_000)],
        },
        TickArrayData::Dynamic {
            header: above,
            ticks: vec![initialized(60, -2_000_000), initialized(0, 1_000_000)],
        },
    )
}

fn directory(arrays: (TickArrayData, TickArrayData)) -> TickArrayMap {
    let mut map = TickArrayMap::new();
    map.insert(
        get_tick_array_address(pool_key(), -3600, program_id()).unwrap(),
        arrays.0,
    );
    map.insert(
        get_tick_array_address(pool_key(), 0, program_id()).unwrap(),
        arrays.1,
    );
    map
}

#[test]
fn a_swap_that_crosses_ticks() {
    for arrays in [fixed_arrays(), dynamic_arrays()] {
        let tick_arrays = directory(arrays);
        let pool_state = pool(-30, 1_000_000);
        let params = QuoteParams {
            pool_key: pool_key(),
            program_id: program_id(),
            tick_spacing: 60,
            fee_rate: 3000,
            sqrt_price_limit: MAX_SQRT_PRICE_X64 - 1,
            is_base_input: true,
            zero_for_one: false,
        };
        let start = SwapState {
            amount_specified_remaining: 1_000_000_000,
            amount_calculated: 0,
            sqrt_price_x64: pool_state.sqrt_price_x64,
            tick: -30,
            fee_growth_global_x64: 0,
            protocol_fee: 0,
            fund_fee: 0,
            liquidity: 1_000_000,
            fee_amount: 0,
        };
        let addrs = tick_arrays.keys();
        // The first round crosses tick 0, the second tick 60.
        let (first, crossings) = quote_step(&params, &tick_arrays, &addrs, &start, 0).unwrap();
        assert_eq!(crossings, 1);
        assert_eq!(first.tick, 0);
        assert_eq!(first.liquidity, 2_000_000);
        assert_eq!(first.sqrt_price_x64, 1 << 64);
        assert_eq!(first.amount_specified_remaining, 999_998_496);
        assert_eq!(first.amount_calculated, 1501);
        assert_eq!(first.fee_amount, 5);
        let (second, crossings) = quote_step(&params, &tick_arrays, &addrs, &first, 1).unwrap();
        assert_eq!(crossings, 2);
        assert_eq!(second.tick, 60);
        assert_eq!(second.liquidity, 0);
        assert_eq!(second.amount_specified_remaining, 999_992_468);
        assert_eq!(second.amount_calculated, 7491);
        assert_eq!(second.fee_amount, 24);
        // Without liquidity the price walks the grid until ten ticks are crossed.
        let quote = compute_swap_quote(
            &pool_state,
            &config(3000),
            false,
            1_000_000_000,
            true,
            None,
            0,
            pool_key(),
            program_id(),
            &tick_arrays,
        )
        .unwrap();
        assert_eq!(
            quote,
            SwapQuoteResult {
                amount_in: 7532,
                amount_out: 7491,
                fee_amount: 24,
                fee_rate: 3000,
                sqrt_price_start_x64: pool_state.sqrt_price_x64,
                sqrt_price_end_x64: 18951565344222267077,
            }
        );
        assert_eq!(quote.sqrt_price_end_x64, get_sqrt_price_at_tick(540).unwrap());
        assert_eq!(MAX_TICK_ARRAY_CROSSINGS, 10);
    }
}

#[test]
fn a_swap_downward_and_an_exact_output_swap() {
    for arrays in [fixed_arrays(), dynamic_arrays()] {
        let tick_arrays = directory(arrays);
        let quote = compute_swap_quote(
            &pool(30, 2_000_000),
            &config(3000),
            true,
            4000,
            true,
            None,
            0,
            pool_key(),
            program_id(),
            &tick_arrays,
        )
        .unwrap();
        assert_eq!(
            quote,
            SwapQuoteResult {
                amount_in: 4000,
                amount_out: 3990,
                fee_amount: 13,
                fee_rate: 3000,
                sqrt_price_start_x64: get_sqrt_price_at_tick(30).unwrap(),
                sqrt_price_end_x64: 18428518269141370801,
            }
        );
        let quote = compute_swap_quote(
            &pool(30, 2_000_000),
            &config(3000),
            true,
            1_000_000_000,
            true,
            None,
            0,
            pool_key(),
            program_id(),
            &tick_arrays,
        )
        .unwrap();
        assert_eq!(quote.amount_in, 1_000_000_000 - 999_993_977);
        assert_eq!(quote.amount_out, 5997);
        assert_eq!(quote.fee_amount, 20);
        assert_eq!(quote.sqrt_price_end_x64, 17955369951785000998);
        let quote = compute_swap_quote(
            &pool(-30, 1_000_000),
            &config(3000),
            false,
            5000,
            false,
            None,
            0,
            pool_key(),
            program_id(),
            &tick_arrays,
        )
        .unwrap();
        assert_eq!(
            quote,
            SwapQuoteResult {
                amount_in: 5021,
                amount_out: 5000,
                fee_amount: 16,
                fee_rate: 3000,
                sqrt_price_start_x64: get_sqrt_price_at_tick(-30).unwrap(),
                sqrt_price_end_x64: 18479073212294460776,
            }
        );
    }
}

#[test]
fn the_price_limit_stops_the_swap() {
    let limit = get_sqrt_price_at_tick(30).unwrap();
    let quote = compute_swap_quote(
        &pool(0, 1_000_000),
        &config(500),
        false,
        1_000_000_000,
        true,
        Some(limit),
        0,
        pool_key(),
        program_id(),
        &TickArrayMap::new(),
    )
    .unwrap();
    assert!(quote.sqrt_price_end_x64 <= limit);
    assert_eq!(
        quote,
        SwapQuoteResult {
            amount_in: 1503,
            amount_out: 1498,
            fee_amount: 1,
            fee_rate: 500,
            sqrt_price_start_x64: 1 << 64,
            sqrt_price_end_x64: limit,
        }
    );
    // A swap that starts at its limit, and a swap of nothing, do nothing.
    let quote = compute_swap_quote(
        &pool(30, 1_000_000),
        &config(500),
        false,
        1_000_000_000,
        true,
        Some(limit),
        0,
        pool_key(),
        program_id(),
        &TickArrayMap::new(),
    )
    .unwrap();
    assert_eq!((quote.amount_in, quote.amount_out, quote.fee_amount), (0, 0, 0));
    assert_eq!(quote.sqrt_price_end_x64, limit);
    let quote = compute_swap_quote(
        &pool(0, 1_000_000),
        &config(500),
        true,
        0,
        false,
        None,
        0,
        pool_key(),
        program_id(),
        &TickArrayMap::new(),
    )
    .unwrap();
    assert_eq!((quote.amount_in, quote.amount_out, quote.fee_amount), (0, 0, 0));
}

fn decaying_pool() -> PoolState {
    let mut pool_state = pool(0, 1_000_000_000);
    pool_state.decay_fee_flag = 7;
    pool_state.decay_fee_init_fee_rate = 1;
    pool_state.decay_fee_decrease_rate = 75;
    pool_state.decay_fee_decrease_interval = 100;
    pool_state
}

#[test]
fn the_decay_fee_wins_over_a_smaller_base_fee() {
    let pool_state = decaying_pool();
    assert_eq!(get_decay_fee_rate(&pool_state, 1100), 2500);
    assert_eq!(get_effective_fee_rate(&pool_state, &config(100), true, 1100), 2500);
    let quote = compute_swap_quote(
        &pool_state,
        &config(100),
        true,
        100_000,
        true,
        None,
        1100,
        pool_key(),
        program_id(),
        &TickArrayMap::new(),
    )
    .unwrap();
    assert_eq!(quote.fee_rate, 2500);
    assert_eq!(quote.fee_amount, 250);
    assert_eq!(quote.amount_out, 99740);
    assert_eq!(quote.sqrt_price_end_x64, 18444904194516148631);
    // Before the pool opens the base fee applies.
    let quote = compute_swap_quote(
        &pool_state,
        &config(100),
        true,
        100_000,
        true,
        None,
        999,
        pool_key(),
        program_id(),
        &TickArrayMap::new(),
    )
    .unwrap();
    assert_eq!(quote.fee_rate, 100);
    assert_eq!(quote.fee_amount, 10);
    assert_eq!(quote.amount_out, 99980);
    assert_eq!(quote.sqrt_price_end_x64, 18444899768181731125);
}

#[test]
fn decay_fee_by_interval() {
    let mut pool_state = decaying_pool();
    pool_state.decay_fee_init_fee_rate = 50;
    pool_state.decay_fee_decrease_rate = 50;
    let expected: [u32; 8] = [500000, 250000, 125000, 62500, 31250, 15625, 7813, 3907];
    for (k, fee) in expected.iter().enumerate() {
        let at = 1000 + 100 * k as u64;
        // The same all through the interval, from its first second on.
        assert_eq!(get_decay_fee_rate(&pool_state, at), *fee);
        assert_eq!(get_decay_fee_rate(&pool_state, at + 99), *fee);
    }
    pool_state.decay_fee_init_fee_rate = 80;
    pool_state.decay_fee_decrease_rate = 10;
    let expected: [u32; 5] = [800000, 720000, 648000, 583200, 524880];
    for (k, fee) in expected.iter().enumerate() {
        assert_eq!(get_decay_fee_rate(&pool_state, 1000 + 100 * k as u64), *fee);
    }
    pool_state.decay_fee_init_fee_rate = 100;
    pool_state.decay_fee_decrease_rate = 3;
    assert_eq!(get_decay_fee_rate(&pool_state, 1000 + 700), 807984);
    assert_eq!(get_decay_fee_rate(&pool_state, 1000 + 100_000), 1);
    assert_eq!(get_decay_fee_rate(&pool_state, u64::MAX), 1);
    pool_state.decay_fee_decrease_rate = 100;
    assert_eq!(get_decay_fee_rate(&pool_state, 1000), 1_000_000);
    assert_eq!(get_decay_fee_rate(&pool_state, 1100), 0);
    pool_state.decay_fee_decrease_rate = 255;
    assert_eq!(get_decay_fee_rate(&pool_state, 1100), 0);
    pool_state.decay_fee_init_fee_rate = 255;
    pool_state.decay_fee_decrease_rate = 0;
    assert_eq!(get_decay_fee_rate(&pool_state, 123456), 2_550_000);
}

#[test]
fn decay_fee_switches() {
    let mut pool_state = decaying_pool();
    assert!(is_decay_fee_enabled(&pool_state));
    assert!(is_decay_fee_on_sell_mint0(&pool_state));
    assert!(is_decay_fee_on_sell_mint1(&pool_state));
    // Not open yet, or no interval.
    assert_eq!(get_decay_fee_rate(&pool_state, 999), 0);
    pool_state.decay_fee_decrease_interval = 0;
    assert_eq!(get_decay_fee_rate(&pool_state, 1100), 0);
    pool_state.decay_fee_decrease_interval = 100;
    // Only where token 1 is sold.
    pool_state.decay_fee_flag = 1 | 4;
    assert!(!is_decay_fee_on_sell_mint0(&pool_state));
    assert_eq!(get_effective_fee_rate(&pool_state, &config(100), true, 1100), 100);
    assert_eq!(get_effective_fee_rate(&pool_state, &config(100), false, 1100), 2500);
    // Only where token 0 is sold.
    pool_state.decay_fee_flag = 1 | 2;
    assert!(!is_decay_fee_on_sell_mint1(&pool_state));
    assert_eq!(get_effective_fee_rate(&pool_state, &config(100), true, 1100), 2500);
    assert_eq!(get_effective_fee_rate(&pool_state, &config(100), false, 1100), 100);
    // A larger base fee stays.
    assert_eq!(get_effective_fee_rate(&pool_state, &config(2501), true, 1100), 2501);
    assert_eq!(get_effective_fee_rate(&pool_state, &config(2500), true, 1100), 2500);
    // Switched off.
    pool_state.decay_fee_flag = 6;
    assert!(!is_decay_fee_enabled(&pool_state));
    assert_eq!(get_decay_fee_rate(&pool_state, 1100), 0);
    assert_eq!(get_effective_fee_rate(&pool_state, &config(100), true, 1100), 100);
}

#[test]
fn the_next_tick_without_tick_arrays_is_the_next_grid_point() {
    let none = TickArrayMap::new();
    assert_eq!(find_next_initialized_tick(0, false, 60, &none, &[]), Ok(60));
    assert_eq!(find_next_initialized_tick(0, true, 60, &none, &[]), Ok(-60));
    assert_eq!(find_next_initialized_tick(59, false, 60, &none, &[]), Ok(60));
    assert_eq!(find_next_initialized_tick(61, true, 60, &none, &[]), Ok(0));
    // The quotient is rounded toward zero.
    assert_eq!(find_next_initialized_tick(-1, true, 60, &none, &[]), Ok(-60));
    assert_eq!(find_next_initialized_tick(-1, false, 60, &none, &[]), Ok(60));
    assert_eq!(find_next_initialized_tick(-61, true, 60, &none, &[]), Ok(-120));
    assert_eq!(find_next_initialized_tick(-61, false, 60, &none, &[]), Ok(0));
    assert_eq!(next_grid_point(i32::MAX, 1, false), Err(ErrorCode::InvalidTickIndex));
    assert_eq!(next_grid_point(i32::MIN, 1, true), Err(ErrorCode::InvalidTickIndex));
    assert_eq!(next_grid_point(i32::MIN, 1, false), Ok(i32::MIN + 1));
    assert_eq!(next_grid_point(i32::MAX, 65535, true), Ok(32767 * 65535));
}

#[test]
fn the_next_tick_in_the_tick_arrays() {
    for arrays in [fixed_arrays(), dynamic_arrays()] {
        let tick_arrays = directory(arrays);
        let addrs = tick_arrays.keys();
        assert_eq!(addrs.len(), 2);
        // In the array of the current tick.
        assert_eq!(find_next_initialized_tick(30, true, 60, &tick_arrays, &addrs), Ok(0));
        assert_eq!(find_next_initialized_tick(30, false, 60, &tick_arrays, &addrs), Ok(60));
        assert_eq!(find_next_initialized_tick(0, true, 60, &tick_arrays, &addrs), Ok(0));
        assert_eq!(find_next_initialized_tick(0, false, 60, &tick_arrays, &addrs), Ok(60));
        assert_eq!(find_next_initialized_tick(-60, false, 60, &tick_arrays, &addrs), Ok(0));
        // In the neighbouring array.
        assert_eq!(find_next_initialized_tick(-1, false, 60, &tick_arrays, &addrs), Ok(0));
        assert_eq!(find_next_initialized_tick(-1, true, 60, &tick_arrays, &addrs), Ok(-60));
        assert_eq!(find_next_initialized_tick(-3000, false, 60, &tick_arrays, &addrs), Ok(-60));
        // Nothing further in the direction: the grid.
        assert_eq!(find_next_initialized_tick(60, false, 60, &tick_arrays, &addrs), Ok(120));
        assert_eq!(find_next_initialized_tick(-61, true, 60, &tick_arrays, &addrs), Ok(-120));
        // The current tick in an array that is not among those given: the
        // first initialized tick of the nearest array given.
        assert_eq!(find_next_initialized_tick(4000, true, 60, &tick_arrays, &addrs), Ok(60));
        assert_eq!(find_next_initialized_tick(-4000, false, 60, &tick_arrays, &addrs), Ok(-60));
        // Addresses without a tick array are passed over.
        let with_unknown = vec![address(1), addrs[0], address(2), addrs[1]];
        assert_eq!(
            find_next_initialized_tick(-1, false, 60, &tick_arrays, &with_unknown),
            Ok(0)
        );
        assert_eq!(
            find_next_initialized_tick(30, true, 60, &tick_arrays, &with_unknown),
            Ok(0)
        );
    }
}

#[test]
fn taking_a_step_into_the_state() {
    let state = SwapState {
        amount_specified_remaining: 100,
        amount_calculated: 5,
        sqrt_price_x64: 7,
        tick: 1,
        fee_growth_global_x64: 0,
        protocol_fee: 0,
        fund_fee: 0,
        liquidity: 9,
        fee_amount: 3,
    };
    let step = SwapStep {
        sqrt_price_next_x64: 8,
        amount_in: 60,
        amount_out: 50,
        fee_amount: 2,
    };
    let after = apply_step(&state, &step, true).unwrap();
    assert_eq!(after.amount_specified_remaining, 38);
    assert_eq!(after.amount_calculated, 55);
    assert_eq!(after.fee_amount, 5);
    assert_eq!(after.sqrt_price_x64, 8);
    assert_eq!((after.tick, after.liquidity), (1, 9));
    let after = apply_step(&state, &step, false).unwrap();
    assert_eq!(after.amount_specified_remaining, 50);
    assert_eq!(after.amount_calculated, 67);
    // What is left does not go below zero, what is calculated not above 64 bits.
    let big = SwapStep {
        amount_in: u64::MAX - 2,
        amount_out: u64::MAX,
        ..step
    };
    let after = apply_step(&state, &big, true).unwrap();
    assert_eq!(after.amount_specified_remaining, 0);
    assert_eq!(after.amount_calculated, u64::MAX);
    let too_big = SwapStep {
        amount_in: u64::MAX - 1,
        ..step
    };
    assert_eq!(apply_step(&state, &too_big, true), Err(ErrorCode::CalculateOverflow));
    let fees = SwapStep {
        amount_in: 0,
        fee_amount: u64::MAX - 2,
        ..step
    };
    assert_eq!(apply_step(&state, &fees, false), Err(ErrorCode::CalculateOverflow));
}

#[test]
fn crossing_a_tick() {
    let tick_arrays = directory(fixed_arrays());
    let at = get_tick_array_address(pool_key(), 0, program_id());
    let state = SwapState {
        amount_specified_remaining: 1,
        amount_calculated: 0,
        sqrt_price_x64: 1 << 64,
        tick: 59,
        fee_growth_global_x64: 0,
        protocol_fee: 0,
        fund_fee: 0,
        liquidity: 2_500_000,
        fee_amount: 0,
    };
    let up = cross_tick(&state, &tick_arrays, at, 60, 60, false).unwrap();
    assert_eq!((up.tick, up.liquidity), (60, 500_000));
    let down = cross_tick(&state, &tick_arrays, at, 60, 60, true).unwrap();
    assert_eq!((down.tick, down.liquidity), (59, 4_500_000));
    // No tick array at the address, or no address: the liquidity stays.
    let nowhere = cross_tick(&state, &tick_arrays, Some(address(1)), 60, 60, false).unwrap();
    assert_eq!((nowhere.tick, nowhere.liquidity), (60, 2_500_000));
    let nowhere = cross_tick(&state, &tick_arrays, None, 60, 60, true).unwrap();
    assert_eq!((nowhere.tick, nowhere.liquidity), (59, 2_500_000));
    // More liquidity leaves than there is.
    let thin = SwapState {
        liquidity: 1_999_999,
        ..state
    };
    assert_eq!(
        cross_tick(&thin, &tick_arrays, at, 60, 60, false),
        Err(ErrorCode::LiquidityAddValueErr)
    );
    let full = SwapState {
        liquidity: u128::MAX,
        ..state
    };
    assert_eq!(
        cross_tick(&full, &tick_arrays, at, 60, 60, true),
        Err(ErrorCode::LiquidityAddValueErr)
    );
}

#[test]
fn a_quote_fails_where_a_step_fails() {
    // A fee rate above one whole.
    assert_eq!(
        compute_swap_quote(
            &pool(0, 1_000_000),
            &config(1_000_001),
            true,
            100,
            true,
            None,
            0,
            pool_key(),
            program_id(),
            &TickArrayMap::new(),
        ),
        Err(ErrorCode::CalculateOverflow)
    );
    // A current tick from which the grid leads out of the tick range.
    let mut far = pool(0, 0);
    far.tick_current = 443_640;
    far.sqrt_price_x64 = MAX_SQRT_PRICE_X64 - 10;
    assert_eq!(
        compute_swap_quote(
            &far,
            &config(100),
            false,
            100,
            true,
            None,
            0,
            pool_key(),
            program_id(),
            &TickArrayMap::new(),
        ),
        Err(ErrorCode::SqrtPriceX64)
    );
    // A price below the price range, left by a step that does not cross.
    let mut low = pool(0, 1_000_000);
    low.tick_current = -443_636;
    low.sqrt_price_x64 = MIN_SQRT_PRICE_X64;
    low.tick_spacing = 1;
    assert_eq!(
        compute_swap_quote(
            &low,
            &config(100),
            true,
            1_000_000_000_000,
            true,
            Some(1),
            0,
            pool_key(),
            program_id(),
            &TickArrayMap::new(),
        )
        .map(|q| q.sqrt_price_end_x64),
        Err(ErrorCode::SqrtPriceX64)
    );
    // Liquidity that a crossing would take below zero.
    let tick_arrays = directory(fixed_arrays());
    assert_eq!(
        compute_swap_quote(
            &pool(30, 1_000_000),
            &config(100),
            false,
            1_000_000_000,
            true,
            None,
            0,
            pool_key(),
            program_id(),
            &tick_arrays,
        ),
        Err(ErrorCode::LiquidityAddValueErr)
    );
}

#[test]
fn bitmap_extension_address_differs_from_tick_array_addresses() {
    let extension = get_bitmap_extension_address(pool_key(), program_id()).unwrap();
    assert_ne!(extension, pool_key());
    assert_ne!(
        Some(extension),
        get_tick_array_address(pool_key(), 0, program_id())
    );
    assert_ne!(
        Some(extension),
        get_bitmap_extension_address(address(12), program_id())
    );
}

#[test]
fn a_swap_across_two_ticks_pays_for_the_two_ranges() {
    let price = |tick: i32| get_sqrt_price_at_tick(tick).unwrap();
    // Liquidity of 10^6 up to tick 0, of 2 * 10^6 up to tick 60, none beyond.
    let paid_out = get_delta_amount_0_unsigned(price(-60), price(0), 1_000_000, false).unwrap()
        + get_delta_amount_0_unsigned(price(0), price(60), 2_000_000, false).unwrap();
    assert_eq!(paid_out, 3004 + 5990);
    let by_fee_rate: [(u32, u64, u64); 4] =
        [(0, 9005, 0), (1, 9007, 2), (500, 9011, 6), (3000, 9034, 29)];
    for arrays in [fixed_arrays(), dynamic_arrays()] {
        let tick_arrays = directory(arrays);
        for (fee_rate, amount_in, fee_amount) in by_fee_rate {
            for amount_specified in [100_000, 1_000_000_000, 1_000_000_000_000_000_000, u64::MAX] {
                let quote = compute_swap_quote(
                    &pool(-60, 1_000_000),
                    &config(fee_rate),
                    false,
                    amount_specified,
                    true,
                    None,
                    0,
                    pool_key(),
                    program_id(),
                    &tick_arrays,
                )
                .unwrap();
                assert_eq!(quote.amount_out, paid_out);
                assert_eq!(quote.amount_in, amount_in);
                assert_eq!(quote.fee_amount, fee_amount);
                assert!(quote.amount_in < amount_specified);
                // Ticks 0 and 60, then eight points of the grid.
                assert_eq!(quote.sqrt_price_end_x64, price(540));
            }
        }
        // Nearly all of the input is fee.
        let quote = compute_swap_quote(
            &pool(-60, 1_000_000),
            &config(999_999),
            false,
            1_000_000_000_000_000_000,
            true,
            None,
            0,
            pool_key(),
            program_id(),
            &tick_arrays,
        )
        .unwrap();
        assert_eq!(
            (quote.amount_in, quote.amount_out, quote.fee_amount),
            (9_005_000_000, paid_out, 9_004_990_995)
        );
        // An input that does not reach the first tick.
        let quote = compute_swap_quote(
            &pool(-60, 1_000_000),
            &config(999_999),
            false,
            1_000_000_000,
            true,
            None,
            0,
            pool_key(),
            program_id(),
            &tick_arrays,
        )
        .unwrap();
        assert_eq!(
            (quote.amount_in, quote.amount_out, quote.fee_amount),
            (1_000_000_000, 1005, 999_999_000)
        );
        assert_eq!(quote.sqrt_price_end_x64, 18409936271501675842);
    }
}

#[test]
fn a_pool_without_liquidity_moves_no_tokens() {
    let price = |tick: i32| get_sqrt_price_at_tick(tick).unwrap();
    for (zero_for_one, end_tick) in [(false, 600), (true, -600)] {
        for is_base_input in [true, false] {
            let quote = compute_swap_quote(
                &pool(0, 0),
                &config(500),
                zero_for_one,
                1_000_000,
                is_base_input,
                None,
                0,
                pool_key(),
                program_id(),
                &TickArrayMap::new(),
            )
            .unwrap();
            assert_eq!((quote.amount_in, quote.amount_out, quote.fee_amount), (0, 0, 0));
            // Ten points of the grid are crossed, then the quote ends.
            assert_eq!(quote.sqrt_price_end_x64, price(end_tick));
        }
    }
    // Near the end of the tick range the next point of the grid has no price.
    assert_eq!(
        compute_swap_quote(
            &pool(443_580, 0),
            &config(500),
            false,
            1_000_000,
            true,
            None,
            0,
            pool_key(),
            program_id(),
            &TickArrayMap::new(),
        ),
        Err(ErrorCode::SqrtPriceX64)
    );
}

#[test]
fn amounts_rise_with_the_price_limit() {
    let price = |tick: i32| get_sqrt_price_at_tick(tick).unwrap();
    let quote_up_to = |tick: i32| {
        compute_swap_quote(
            &pool(0, 1_000_000),
            &config(500),
            false,
            1_000_000_000_000_000_000,
            true,
            Some(price(tick)),
            1,
            pool_key(),
            program_id(),
            &TickArrayMap::new(),
        )
        .unwrap()
    };
    let nearer = quote_up_to(30);
    let farther = quote_up_to(60);
    assert_eq!((nearer.amount_in, nearer.amount_out, nearer.fee_amount), (1503, 1498, 1));
    assert_eq!((farther.amount_in, farther.amount_out, farther.fee_amount), (3007, 2995, 2));
    assert_eq!(nearer.sqrt_price_end_x64, price(30));
    assert_eq!(farther.sqrt_price_end_x64, price(60));
    for (a, b) in [(1, 2), (10, 30), (30, 60), (59, 60)] {
        let (nearer, farther) = (quote_up_to(a), quote_up_to(b));
        assert!(nearer.amount_in < farther.amount_in);
        assert!(nearer.amount_out < farther.amount_out);
        assert_eq!(nearer.sqrt_price_end_x64, price(a));
        assert_eq!(farther.sqrt_price_end_x64, price(b));
    }
}

#[test]
fn the_end_price_lies_between_start_and_limit() {
    let price = |tick: i32| get_sqrt_price_at_tick(tick).unwrap();
    for arrays in [fixed_arrays(), dynamic_arrays()] {
        let tick_arrays = directory(arrays);
        for amount_specified in [1, 1000, 5000, 1_000_000_000] {
            for is_base_input in [true, false] {
                // Upward from tick -30, to tick 45 at most.
                let up = compute_swap_quote(
                    &pool(-30, 1_000_000),
                    &config(3000),
                    false,
                    amount_specified,
                    is_base_input,
                    Some(price(45)),
                    0,
                    pool_key(),
                    program_id(),
                    &tick_arrays,
                )
                .unwrap();
                assert_eq!(up.sqrt_price_start_x64, price(-30));
                assert!(price(-30) <= up.sqrt_price_end_x64);
                assert!(up.sqrt_price_end_x64 <= price(45));
                // Downward from tick 30, to tick -45 at most.
                let down = compute_swap_quote(
                    &pool(30, 2_000_000),
                    &config(3000),
                    true,
                    amount_specified,
                    is_base_input,
                    Some(price(-45)),
                    0,
                    pool_key(),
                    program_id(),
                    &tick_arrays,
                )
                .unwrap();
                assert_eq!(down.sqrt_price_start_x64, price(30));
                assert!(price(-45) <= down.sqrt_price_end_x64);
                assert!(down.sqrt_price_end_x64 <= price(30));
            }
        }
        let far = compute_swap_quote(
            &pool(-30, 1_000_000),
            &config(3000),
            false,
            1_000_000_000,
            true,
            Some(price(45)),
            0,
            pool_key(),
            program_id(),
            &tick_arrays,
        )
        .unwrap();
        assert_eq!(far.sqrt_price_end_x64, price(45));
    }
}

/// The two tick arrays, the one that starts at 0 put in first.
fn directory_in_the_other_order(arrays: (TickArrayData, TickArrayData)) -> TickArrayMap {
    let mut map = TickArrayMap::new();
    map.insert(
        get_tick_array_address(pool_key(), 0, program_id()).unwrap(),
        arrays.1,
    );
    map.insert(
        get_tick_array_address(pool_key(), -3600, program_id()).unwrap(),
        arrays.0,
    );
    map
}

#[test]
fn the_order_of_the_tick_arrays_does_not_matter() {
    for arrays in [fixed_arrays(), dynamic_arrays()] {
        let one = directory(arrays.clone());
        let other = directory_in_the_other_order(arrays);
        assert_eq!(one.keys().len(), 2);
        assert_eq!(one.keys()[0], other.keys()[1]);
        assert_eq!(one.keys()[1], other.keys()[0]);
        // Beyond tick 60 no tick array lies ahead: the grid is next, not
        // tick -60 of the tick array behind.
        for tick_arrays in [&one, &other] {
            let addrs = tick_arrays.keys();
            assert_eq!(find_next_initialized_tick(60, false, 60, tick_arrays, &addrs), Ok(120));
            assert_eq!(find_next_initialized_tick(3600, false, 60, tick_arrays, &addrs), Ok(3660));
            assert_eq!(find_next_initialized_tick(-61, true, 60, tick_arrays, &addrs), Ok(-120));
            assert_eq!(
                find_next_initialized_tick(-3601, true, 60, tick_arrays, &addrs),
                Ok(-3660)
            );
            // From far away the nearest tick array ahead is the one that counts.
            assert_eq!(find_next_initialized_tick(4000, true, 60, tick_arrays, &addrs), Ok(60));
            assert_eq!(find_next_initialized_tick(-4000, false, 60, tick_arrays, &addrs), Ok(-60));
            assert_eq!(find_next_initialized_tick(-7300, false, 60, tick_arrays, &addrs), Ok(-60));
            assert_eq!(find_next_initialized_tick(7300, true, 60, tick_arrays, &addrs), Ok(60));
        }
        let (forward, backward) = (one.keys(), other.keys());
        for tick in (-7500..7500).step_by(7) {
            for zero_for_one in [true, false] {
                let found = find_next_initialized_tick(tick, zero_for_one, 60, &one, &forward);
                assert_eq!(
                    find_next_initialized_tick(tick, zero_for_one, 60, &other, &backward),
                    found
                );
                assert_eq!(
                    find_next_initialized_tick(tick, zero_for_one, 60, &one, &backward),
                    found
                );
                let next = found.unwrap();
                assert!(if zero_for_one { next <= tick } else { next > tick });
            }
        }
        // The swap crosses ticks 0 and 60, and nothing is paid beyond.
        for tick_arrays in [&one, &other] {
            let quote = compute_swap_quote(
                &pool(-60, 1_000_000),
                &config(500),
                false,
                1_000_000_000_000_000_000,
                true,
                None,
                1,
                pool_key(),
                program_id(),
                tick_arrays,
            )
            .unwrap();
            assert_eq!(
                quote,
                SwapQuoteResult {
                    amount_in: 9011,
                    amount_out: 8994,
                    fee_amount: 6,
                    fee_rate: 500,
                    sqrt_price_start_x64: get_sqrt_price_at_tick(-60).unwrap(),
                    sqrt_price_end_x64: get_sqrt_price_at_tick(540).unwrap(),
                }
            );
            for (zero_for_one, is_base_input, amount) in
                [(true, true, 5000), (true, false, 5000), (false, false, 7000), (true, true, u64::MAX)]
            {
                let quote_of = |tick_arrays: &TickArrayMap| {
                    compute_swap_quote(
                        &pool(30, 2_000_000),
                        &config(3000),
                        zero_for_one,
                        amount,
                        is_base_input,
                        None,
                        0,
                        pool_key(),
                        program_id(),
                        tick_arrays,
                    )
                };
                assert_eq!(quote_of(tick_arrays), quote_of(&one));
            }
        }
    }
}

#[test]
fn tick_arrays_on_the_tick_grid() {
    for arrays in [fixed_arrays(), dynamic_arrays()] {
        assert!(arrays.0.stands_on_grid(60));
        assert!(arrays.1.stands_on_grid(60));
        // With another spacing tick 60 is not at the place of its slot, and
        // -3600 starts no tick array.
        assert_eq!(arrays.1.stands_on_grid(30), matches!(arrays.1, TickArrayData::Dynamic { .. }));
        assert!(!arrays.0.stands_on_grid(70));
        assert!(directory(arrays.clone()).stands_on_grid(60));
        assert!(!directory(arrays).stands_on_grid(70));
    }
    assert!(TickArrayMap::new().stands_on_grid(60));
    // A slot that names the tick of another place.
    let mut misplaced = TickArrayState::default();
    misplaced.ticks[3] = initialized(120, 5);
    assert!(!TickArrayData::Fixed(misplaced).stands_on_grid(60));
    misplaced.ticks[3] = initialized(180, 5);
    assert!(TickArrayData::Fixed(misplaced).stands_on_grid(60));
    // A slot that is not in use may name any tick.
    misplaced.ticks[4] = initialized(7, 0);
    assert!(TickArrayData::Fixed(misplaced).stands_on_grid(60));
    // A start index between two tick arrays.
    misplaced.start_tick_index = 60;
    assert!(!TickArrayData::Fixed(misplaced).stands_on_grid(60));
    let mut map = TickArrayMap::new();
    map.insert(address(1), TickArrayData::Fixed(TickArrayState::default()));
    map.insert(address(2), TickArrayData::Fixed(misplaced));
    assert!(!map.stands_on_grid(60));
}

#[test]
fn the_fee_is_part_of_the_amount_in() {
    for arrays in [fixed_arrays(), dynamic_arrays()] {
        let tick_arrays = directory(arrays);
        for fee_rate in [0, 1, 500, 3000, 500_000, 999_999] {
            for amount_specified in [1, 7, 1000, 5000, 1_000_000_000, u64::MAX] {
                for (zero_for_one, is_base_input) in
                    [(false, true), (false, false), (true, true), (true, false)]
                {
                    let quote = compute_swap_quote(
                        &pool(-30, 1_000_000),
                        &config(fee_rate),
                        zero_for_one,
                        amount_specified,
                        is_base_input,
                        None,
                        0,
                        pool_key(),
                        program_id(),
                        &tick_arrays,
                    )
                    .unwrap();
                    assert!(quote.fee_amount <= quote.amount_in);
                    if is_base_input {
                        assert!(quote.amount_in <= amount_specified);
                    } else {
                        assert!(quote.amount_out <= amount_specified);
                    }
                }
            }
        }
    }
}
