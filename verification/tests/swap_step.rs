use clmm_core::error::ErrorCode;
use clmm_core::liquidity_math::{
    add_delta, get_delta_amount_0_unsigned, get_delta_amount_1_unsigned,
};
use clmm_core::sqrt_price_math::{
    get_next_sqrt_price_from_amount_0_rounding_up, get_next_sqrt_price_from_amount_1_rounding_down,
    get_next_sqrt_price_from_input, get_next_sqrt_price_from_output,
};
use clmm_core::swap_math::{
    calculate_amount_in_range, compute_swap_step, SwapStep, FEE_RATE_DENOMINATOR_VALUE,
};
use clmm_core::tick_math::{
    get_sqrt_price_at_tick, MAX_SQRT_PRICE_X64, MIN_SQRT_PRICE_X64,
};

const PRICE_ONE: u128 = 18446744073709551616;
const PRICE_ABOVE: u128 = 18502164624211742928;
const PRICE_BELOW: u128 = 18391489527427966291;

#[test]
fn exact_input_without_reaching_the_target() {
    let current = get_sqrt_price_at_tick(0).unwrap();
    let target = get_sqrt_price_at_tick(60).unwrap();
    assert_eq!(current, PRICE_ONE);
    assert_eq!(target, PRICE_ABOVE);
    let step = compute_swap_step(current, target, 1_000_000, 1000, 500, true, false, 1).unwrap();
    assert_eq!(step.amount_in + step.fee_amount, 1000);
    assert!(step.sqrt_price_next_x64 > current);
    assert!(step.sqrt_price_next_x64 < target);
    assert_eq!(
        step,
        SwapStep {
            sqrt_price_next_x64: 18465172371039187458,
            amount_in: 999,
            amount_out: 998,
            fee_amount: 1,
        }
    );
}

#[test]
fn exact_input_reaching_the_target() {
    let step =
        compute_swap_step(PRICE_ONE, PRICE_ABOVE, 1_000_000, 1_000_000_000_000_000_000, 500, true, false, 1)
            .unwrap();
    assert_eq!(step.sqrt_price_next_x64, PRICE_ABOVE);
    assert!(step.amount_in + step.fee_amount <= 1_000_000_000_000_000_000);
    // Token 1 comes in, rounded up; token 0 goes out, rounded down.
    assert_eq!(
        step.amount_in,
        get_delta_amount_1_unsigned(PRICE_ONE, PRICE_ABOVE, 1_000_000, true).unwrap()
    );
    assert_eq!(
        step.amount_out,
        get_delta_amount_0_unsigned(PRICE_ONE, PRICE_ABOVE, 1_000_000, false).unwrap()
    );
    assert_eq!(step.amount_in, 3005);
    assert_eq!(step.amount_out, 2995);
    assert_eq!(step.fee_amount, 2);
}

#[test]
fn exact_output_is_capped() {
    let step = compute_swap_step(PRICE_ONE, PRICE_BELOW, 1000, 50, 500, false, true, 1).unwrap();
    assert!(step.amount_out <= 50);
    assert_eq!(
        step,
        SwapStep {
            sqrt_price_next_x64: PRICE_BELOW,
            amount_in: 4,
            amount_out: 2,
            fee_amount: 1,
        }
    );
    // With more liquidity the step stops short of the target and gives out
    // exactly what was asked for.
    let step = compute_swap_step(PRICE_ONE, PRICE_BELOW, 1_000_000_000, 50, 500, false, true, 1).unwrap();
    assert_eq!(step.amount_out, 50);
    assert!(step.sqrt_price_next_x64 < PRICE_ONE);
    assert!(step.sqrt_price_next_x64 > PRICE_BELOW);
    let step = compute_swap_step(PRICE_ONE, PRICE_ABOVE, 1_000_000_000, 50, 500, false, false, 1).unwrap();
    assert_eq!(step.amount_out, 50);
    assert!(step.sqrt_price_next_x64 > PRICE_ONE);
    assert!(step.sqrt_price_next_x64 < PRICE_ABOVE);
}

#[test]
fn exact_input_with_price_falling() {
    let step = compute_swap_step(PRICE_ONE, PRICE_BELOW, 1_000_000_000, 100_000, 3000, true, true, 0).unwrap();
    assert_eq!(
        step,
        SwapStep {
            sqrt_price_next_x64: 18444905116669419675,
            amount_in: 99700,
            amount_out: 99690,
            fee_amount: 300,
        }
    );
    let step = compute_swap_step(PRICE_ONE, PRICE_BELOW, 1_000_000, 1_000_000_000, 3000, true, true, 0).unwrap();
    assert_eq!(
        step,
        SwapStep {
            sqrt_price_next_x64: PRICE_BELOW,
            amount_in: 3005,
            amount_out: 2995,
            fee_amount: 10,
        }
    );
}

#[test]
fn the_step_stays_between_current_and_target() {
    // A spread of prices, liquidities, amounts and fees, both modes.
    let prices: Vec<u128> = [-443636, -200000, -887, -60, -1, 0, 1, 59, 4055, 250000, 443636]
        .iter()
        .map(|t| get_sqrt_price_at_tick(*t).unwrap())
        .collect();
    let liquidities: [u128; 5] = [1, 1000, 1_000_000, 4_000_000_000, 1 << 70];
    let amounts: [u64; 5] = [1, 999, 1_000_000, 1 << 40, u64::MAX];
    let fees: [u32; 4] = [0, 1, 3000, 499_999];
    let mut ok = 0;
    for current in prices.iter() {
        for target in prices.iter() {
            if current == target {
                continue;
            }
            let zero_for_one = current > target;
            for liquidity in liquidities {
                for amount in amounts {
                    for fee in fees {
                        for is_base_input in [true, false] {
                            let result = compute_swap_step(
                                *current,
                                *target,
                                liquidity,
                                amount,
                                fee,
                                is_base_input,
                                zero_for_one,
                                1,
                            );
                            let step = match result {
                                Ok(step) => step,
                                Err(_) => continue,
                            };
                            ok += 1;
                            assert!(step.sqrt_price_next_x64 >= *current.min(target));
                            assert!(step.sqrt_price_next_x64 <= *current.max(target));
                            if is_base_input {
                                let used = step.amount_in as u128 + step.fee_amount as u128;
                                if step.sqrt_price_next_x64 != *target {
                                    assert_eq!(used, amount as u128);
                                } else {
                                    assert!(used <= amount as u128);
                                }
                            } else if step.sqrt_price_next_x64 != *target {
                                assert_eq!(step.amount_out, amount);
                            } else {
                                assert!(step.amount_out <= amount);
                            }
                        }
                    }
                }
            }
        }
    }
    assert!(ok > 1000);
}

#[test]
fn an_amount_above_u64_is_no_error_in_the_range_but_is_one_after_it() {
    let low = get_sqrt_price_at_tick(-400000).unwrap();
    let high = get_sqrt_price_at_tick(400000).unwrap();
    let liquidity: u128 = 1_000_000_000_000_000_000_000_000_000_000;
    assert_eq!(
        get_delta_amount_1_unsigned(low, high, liquidity, true),
        Err(ErrorCode::MaxTokenOverflow)
    );
    assert_eq!(
        get_delta_amount_0_unsigned(low, high, liquidity, false),
        Err(ErrorCode::MaxTokenOverflow)
    );
    // The target is out of reach, which is no failure of the range.
    assert_eq!(calculate_amount_in_range(low, high, liquidity, false, true, 0), Ok(None));
    assert_eq!(calculate_amount_in_range(low, high, liquidity, false, false, 7), Ok(None));
    assert_eq!(calculate_amount_in_range(high, low, liquidity, true, true, 0), Ok(None));
    assert_eq!(
        calculate_amount_in_range(PRICE_ONE, PRICE_ABOVE, 1_000_000, false, true, 0),
        Ok(Some(3005))
    );
    assert_eq!(
        calculate_amount_in_range(PRICE_ONE, PRICE_ABOVE, 1_000_000, false, false, 0),
        Ok(Some(2995))
    );
    // The step goes as far as the amount takes it.
    let step = compute_swap_step(low, high, liquidity, 1_000_000, 3000, true, false, 0).unwrap();
    assert_eq!(
        step,
        SwapStep {
            sqrt_price_next_x64: 38059611423,
            amount_in: 0,
            amount_out: 0,
            fee_amount: 1_000_000,
        }
    );
    // Any other failure of the range is a failure of the step.
    assert_eq!(
        calculate_amount_in_range(PRICE_ONE, 0, 5, true, true, 0),
        Err(ErrorCode::SqrtPriceLimitOverflow)
    );
    assert_eq!(
        compute_swap_step(PRICE_ONE, 0, 5, 10, 0, true, true, 0),
        Err(ErrorCode::SqrtPriceLimitOverflow)
    );
}

#[test]
fn step_failures() {
    // A fee rate above the denominator.
    assert_eq!(
        compute_swap_step(PRICE_ONE, PRICE_ABOVE, 1, 1, FEE_RATE_DENOMINATOR_VALUE + 1, true, false, 0),
        Err(ErrorCode::CalculateOverflow)
    );
    // A fee rate of one whole where the fee is a share of the input.
    assert_eq!(
        compute_swap_step(PRICE_ONE, PRICE_ABOVE, 1_000_000, 1_000_000, FEE_RATE_DENOMINATOR_VALUE, false, false, 0),
        Err(ErrorCode::CalculateOverflow)
    );
    // No liquidity and a target that the amount does not reach.
    assert_eq!(
        compute_swap_step(PRICE_ONE, MAX_SQRT_PRICE_X64, 0, 1, 500, false, false, 0).map(|s| s.amount_out),
        Ok(0)
    );
    // A target of zero, reached: no amount of token 0 ends at a price of zero.
    assert_eq!(
        compute_swap_step(MIN_SQRT_PRICE_X64 + 5, 0, 1, u64::MAX, 500, false, true, 0),
        Err(ErrorCode::SqrtPriceX64)
    );
    // An input amount above u64::MAX for the stretch actually covered.
    let low = get_sqrt_price_at_tick(-400000).unwrap();
    let high = get_sqrt_price_at_tick(400000).unwrap();
    assert_eq!(
        compute_swap_step(low, high, 1u128 << 100, u64::MAX, 3000, false, false, 0),
        Err(ErrorCode::MaxTokenOverflow)
    );
}

#[test]
fn delta_amounts() {
    let liquidity: u128 = 1_000_000_000_000;
    assert_eq!(get_delta_amount_0_unsigned(PRICE_ONE, PRICE_ABOVE, liquidity, true), Ok(2995354956));
    assert_eq!(get_delta_amount_0_unsigned(PRICE_ONE, PRICE_ABOVE, liquidity, false), Ok(2995354955));
    assert_eq!(get_delta_amount_1_unsigned(PRICE_ONE, PRICE_ABOVE, liquidity, true), Ok(3004354063));
    assert_eq!(get_delta_amount_1_unsigned(PRICE_ONE, PRICE_ABOVE, liquidity, false), Ok(3004354062));
    // The order of the two prices does not matter.
    assert_eq!(get_delta_amount_0_unsigned(PRICE_ABOVE, PRICE_ONE, liquidity, true), Ok(2995354956));
    assert_eq!(get_delta_amount_1_unsigned(PRICE_ABOVE, PRICE_ONE, liquidity, false), Ok(3004354062));
    // Nothing between a price and itself.
    assert_eq!(get_delta_amount_0_unsigned(PRICE_ONE, PRICE_ONE, liquidity, true), Ok(0));
    assert_eq!(get_delta_amount_1_unsigned(PRICE_ONE, PRICE_ONE, liquidity, true), Ok(0));
    // A lower price of zero.
    assert_eq!(
        get_delta_amount_0_unsigned(0, PRICE_ONE, liquidity, true),
        Err(ErrorCode::SqrtPriceX64)
    );
    assert_eq!(get_delta_amount_1_unsigned(0, 1 << 64, 7, true), Ok(7));
    // Exactly at the limit of 64 bits.
    assert_eq!(
        get_delta_amount_1_unsigned(0, 1 << 64, u64::MAX as u128, false),
        Ok(u64::MAX)
    );
    assert_eq!(
        get_delta_amount_1_unsigned(0, 1 << 64, u64::MAX as u128 + 1, false),
        Err(ErrorCode::MaxTokenOverflow)
    );
    assert_eq!(
        get_delta_amount_1_unsigned(0, u128::MAX, u128::MAX, true),
        Err(ErrorCode::MaxTokenOverflow)
    );
    assert_eq!(
        get_delta_amount_0_unsigned(1, u128::MAX, u128::MAX, true),
        Err(ErrorCode::MaxTokenOverflow)
    );
}

#[test]
fn liquidity_changes() {
    assert_eq!(add_delta(5, 3), Ok(8));
    assert_eq!(add_delta(5, -5), Ok(0));
    assert_eq!(add_delta(5, -6), Err(ErrorCode::LiquidityAddValueErr));
    assert_eq!(add_delta(u128::MAX, 1), Err(ErrorCode::LiquidityAddValueErr));
    assert_eq!(add_delta(u128::MAX, 0), Ok(u128::MAX));
    assert_eq!(add_delta(1 << 127, i128::MIN), Ok(0));
    assert_eq!(add_delta((1 << 127) - 1, i128::MIN), Err(ErrorCode::LiquidityAddValueErr));
    assert_eq!(add_delta(1, i128::MAX), Ok(1 << 127));
}

#[test]
fn next_prices() {
    assert_eq!(
        get_next_sqrt_price_from_amount_0_rounding_up(PRICE_ONE, 1_000_000, 1000, true),
        Ok(18428315757951600016)
    );
    assert_eq!(
        get_next_sqrt_price_from_amount_0_rounding_up(PRICE_ONE, 1_000_000, 1000, false),
        Ok(18465209282992544161)
    );
    assert_eq!(
        get_next_sqrt_price_from_amount_1_rounding_down(PRICE_ONE, 1_000_000, 1000, true),
        Ok(18465190817783261167)
    );
    assert_eq!(
        get_next_sqrt_price_from_amount_1_rounding_down(PRICE_ONE, 1_000_000, 1000, false),
        Ok(18428297329635842064)
    );
    // A zero amount leaves the price.
    assert_eq!(get_next_sqrt_price_from_amount_0_rounding_up(PRICE_ONE, 7, 0, true), Ok(PRICE_ONE));
    assert_eq!(get_next_sqrt_price_from_amount_0_rounding_up(PRICE_ONE, 7, 0, false), Ok(PRICE_ONE));
    assert_eq!(get_next_sqrt_price_from_amount_1_rounding_down(PRICE_ONE, 7, 0, true), Ok(PRICE_ONE));
    assert_eq!(get_next_sqrt_price_from_amount_1_rounding_down(PRICE_ONE, 7, 0, false), Ok(PRICE_ONE));
    // By direction.
    assert_eq!(
        get_next_sqrt_price_from_input(PRICE_ONE, 1_000_000, 1000, true),
        Ok(18428315757951600016)
    );
    assert_eq!(
        get_next_sqrt_price_from_input(PRICE_ONE, 1_000_000, 1000, false),
        Ok(18465190817783261167)
    );
    assert_eq!(
        get_next_sqrt_price_from_output(PRICE_ONE, 1_000_000, 1000, true),
        Ok(18428297329635842064)
    );
    assert_eq!(
        get_next_sqrt_price_from_output(PRICE_ONE, 1_000_000, 1000, false),
        Ok(18465209282992544161)
    );
}

#[test]
fn next_price_failures() {
    assert_eq!(
        get_next_sqrt_price_from_input(0, 1, 1, true),
        Err(ErrorCode::SqrtPriceX64)
    );
    assert_eq!(
        get_next_sqrt_price_from_input(1, 0, 1, true),
        Err(ErrorCode::InvalidLiquidity)
    );
    assert_eq!(
        get_next_sqrt_price_from_output(0, 0, 1, false),
        Err(ErrorCode::SqrtPriceX64)
    );
    assert_eq!(
        get_next_sqrt_price_from_output(1, 0, 1, false),
        Err(ErrorCode::InvalidLiquidity)
    );
    assert_eq!(
        get_next_sqrt_price_from_amount_1_rounding_down(PRICE_ONE, 0, 1, true),
        Err(ErrorCode::InvalidLiquidity)
    );
    // More of token 1 out than the price allows: the price would fall below zero.
    assert_eq!(
        get_next_sqrt_price_from_amount_1_rounding_down(PRICE_ONE, 1, 2, false),
        Err(ErrorCode::SqrtPriceX64)
    );
    assert_eq!(
        get_next_sqrt_price_from_output(1u128 << 64, 1, 2, true),
        Err(ErrorCode::SqrtPriceX64)
    );
    assert_eq!(
        get_next_sqrt_price_from_amount_1_rounding_down(PRICE_ONE, 1, 1, false),
        Ok(0)
    );
    assert_eq!(
        get_next_sqrt_price_from_amount_1_rounding_down(u128::MAX, 1, 1, true),
        Err(ErrorCode::CalculateOverflow)
    );
    // More of token 0 out than the liquidity holds.
    assert_eq!(
        get_next_sqrt_price_from_amount_0_rounding_up(PRICE_ONE, 1, 1, false),
        Err(ErrorCode::SqrtPriceX64)
    );
    assert_eq!(
        get_next_sqrt_price_from_amount_0_rounding_up(PRICE_ONE, 1, 2, false),
        Err(ErrorCode::SqrtPriceX64)
    );
    assert_eq!(
        get_next_sqrt_price_from_output(PRICE_ONE, 1, 2, false),
        Err(ErrorCode::SqrtPriceX64)
    );
    assert_eq!(
        get_next_sqrt_price_from_amount_0_rounding_up(0, 0, 1, false),
        Err(ErrorCode::SqrtPriceX64)
    );
    assert_eq!(
        get_next_sqrt_price_from_amount_0_rounding_up(0, 0, 1, true),
        Err(ErrorCode::SqrtPriceX64)
    );
    assert_eq!(get_next_sqrt_price_from_amount_0_rounding_up(PRICE_ONE, 0, 1, true), Ok(0));
    assert_eq!(
        get_next_sqrt_price_from_amount_0_rounding_up(u128::MAX, u128::MAX, u64::MAX, false),
        Err(ErrorCode::CalculateOverflow)
    );
}

#[test]
fn a_target_further_up_costs_more_and_pays_more() {
    let halfway: u128 = 18474433567297172384;
    let step_to = |target: u128, liquidity: u128| {
        compute_swap_step(PRICE_ONE, target, liquidity, 1_000_000_000_000_000_000, 500, true, false, 0)
            .unwrap()
    };
    let (near, far) = (step_to(halfway, 1_000_000), step_to(PRICE_ABOVE, 1_000_000));
    assert_eq!((near.sqrt_price_next_x64, far.sqrt_price_next_x64), (halfway, PRICE_ABOVE));
    assert_eq!((near.amount_in, near.amount_out), (1502, 1498));
    assert_eq!((far.amount_in, far.amount_out), (3005, 2995));
    // Liquidity too small to tell the two targets apart.
    let (near, far) = (step_to(halfway, 100), step_to(PRICE_ABOVE, 100));
    assert_eq!((near.sqrt_price_next_x64, far.sqrt_price_next_x64), (halfway, PRICE_ABOVE));
    assert_eq!((near.amount_in, near.amount_out), (1, 0));
    assert_eq!((far.amount_in, far.amount_out), (1, 0));
    for round_up in [true, false] {
        assert!(
            get_delta_amount_1_unsigned(PRICE_ONE, halfway, 1_000_000, round_up).unwrap()
                < get_delta_amount_1_unsigned(PRICE_ONE, PRICE_ABOVE, 1_000_000, round_up).unwrap()
        );
        assert!(
            get_delta_amount_0_unsigned(PRICE_ONE, halfway, 1_000_000, round_up).unwrap()
                < get_delta_amount_0_unsigned(PRICE_ONE, PRICE_ABOVE, 1_000_000, round_up).unwrap()
        );
    }
}
