use clmm_core::account::AccountView;
use clmm_core::address::{get_bitmap_extension_address, Address};
use clmm_core::dyn_tick_array::DynTickArrayState;
use clmm_core::error::{AccountError, ErrorCode};
use clmm_core::increase_liquidity::{
    increase_liquidity, PersonalPositionState, PositionRewardInfo,
};
use clmm_core::loader::TickArrayContainer;
use clmm_core::pool::PoolState;
use clmm_core::test_account_utils::mock_anchor_account_info;
use clmm_core::tick::TickState;
use clmm_core::tick_array::TickArrayState;
use clmm_core::tick_array_data::TickArrayData;
use clmm_core::tick_array_map::TickArrayMap;

fn address(seed: u8) -> Address {
    let mut bytes = [seed; 32];
    bytes[0] = 8;
    Address::new_from_array(bytes)
}

fn program() -> Address {
    address(100)
}

fn pool_key() -> Address {
    address(101)
}

fn pool(tick_spacing: u16) -> PoolState {
    PoolState {
        sqrt_price_x64: 1 << 64,
        tick_current: 0,
        liquidity: 0,
        tick_spacing,
        fee_growth_global_0_x64: 0,
        fee_growth_global_1_x64: 0,
        open_time: 0,
        decay_fee_flag: 0,
        decay_fee_init_fee_rate: 0,
        decay_fee_decrease_rate: 0,
        decay_fee_decrease_interval: 0,
        status: 0,
        tick_array_bitmap: [0; 16],
    }
}

fn position(tick_lower_index: i32, tick_upper_index: i32) -> PersonalPositionState {
    PersonalPositionState {
        nft_mint: address(1),
        pool_id: pool_key(),
        tick_lower_index,
        tick_upper_index,
        liquidity: 1000,
        fee_growth_inside_0_last_x64: 5 << 64,
        fee_growth_inside_1_last_x64: u128::MAX,
        token_fees_owed_0: 10,
        token_fees_owed_1: 20,
        reward_infos: [
            PositionRewardInfo { growth_inside_last_x64: 1 << 64, reward_amount_owed: 5 },
            PositionRewardInfo { growth_inside_last_x64: u128::MAX, reward_amount_owed: u64::MAX },
            PositionRewardInfo { growth_inside_last_x64: 0, reward_amount_owed: 7 },
        ],
        recent_epoch: 1,
    }
}

/// Reward growths inside the range: 3 more for the first reward, a half
/// more, across the wrap of the accumulator, for the second, and for the
/// third more than an amount of 64 bits can hold.
fn reward_growths() -> [u128; 3] {
    let q64: u128 = 1 << 64;
    [4 * q64, q64 / 2 - 1, u128::MAX]
}

fn fixed_account(start: i32, tick: i32, slot: usize, pool_id: Address) -> AccountView {
    let mut array = TickArrayState::default();
    array.start_tick_index = start;
    array.pool_id = pool_id;
    array.ticks[slot].tick = tick;
    mock_anchor_account_info(
        &address(30),
        &program(),
        false,
        true,
        0,
        &TickArrayData::Fixed(array),
    )
}

fn dynamic_account(start: i32, tick: i32, tick_spacing: u16, pool_id: Address) -> AccountView {
    let mut header = DynTickArrayState::default();
    header.initialize(start, tick_spacing, pool_id, 0).unwrap();
    header.use_one_tick(tick, tick_spacing).unwrap();
    let state = TickState {
        tick,
        ..Default::default()
    };
    mock_anchor_account_info(
        &address(31),
        &program(),
        false,
        true,
        0,
        &TickArrayData::Dynamic {
            header,
            ticks: vec![state],
        },
    )
}

#[test]
fn the_checks_before_liquidity_is_added() {
    let lower = fixed_account(-600, -100, 50, pool_key());
    let upper = dynamic_account(0, 200, 10, pool_key());
    let access = increase_liquidity(
        &pool(10),
        &pool_key(),
        &program(),
        &position(-100, 200),
        &lower,
        &upper,
        None,
    )
    .unwrap();
    assert!(!access.use_tickarray_bitmap_extension);
    assert!(matches!(access.tick_array_lower, TickArrayContainer::Fixed(_)));
    assert!(matches!(access.tick_array_upper, TickArrayContainer::Dynamic(_)));
    assert_eq!(access.tick_array_lower.get_start_tick_index(), Ok(-600));
    assert_eq!(access.tick_array_upper.get_start_tick_index(), Ok(0));

    // The pool forbids it.
    let mut closed = pool(10);
    closed.status = 1;
    assert_eq!(
        increase_liquidity(&closed, &pool_key(), &program(), &position(-100, 200), &lower, &upper, None)
            .unwrap_err(),
        AccountError::Program(ErrorCode::NotApproved)
    );
    // The lower tick has no state in its tick array; the upper tick is of
    // another tick array.
    assert_eq!(
        increase_liquidity(&pool(10), &pool_key(), &program(), &position(-110, 200), &lower, &upper, None)
            .unwrap_err(),
        AccountError::Program(ErrorCode::InvalidTickIndex)
    );
    assert_eq!(
        increase_liquidity(&pool(10), &pool_key(), &program(), &position(-100, 600), &lower, &upper, None)
            .unwrap_err(),
        AccountError::Program(ErrorCode::InvalidTickArray)
    );
    // The lower account fails before the upper one is looked at.
    assert_eq!(
        increase_liquidity(&pool(10), &pool_key(), &program(), &position(-105, 600), &lower, &upper, None)
            .unwrap_err(),
        AccountError::Program(ErrorCode::TickAndSpacingNotMatch)
    );
    // A tick array of another pool.
    let foreign = dynamic_account(0, 200, 10, address(5));
    assert_eq!(
        increase_liquidity(&pool(10), &pool_key(), &program(), &position(-100, 200), &lower, &foreign, None)
            .unwrap_err(),
        AccountError::RequireKeysEqViolated
    );
    // An account of another program.
    let mut stolen = lower.clone();
    stolen.owner = address(6);
    assert_eq!(
        increase_liquidity(&pool(10), &pool_key(), &program(), &position(-100, 200), &stolen, &upper, None)
            .unwrap_err(),
        AccountError::AccountOwnedByWrongProgram
    );
}

#[test]
fn the_bitmap_extension_is_asked_for_beyond_the_pools_own_bitmap() {
    // With a spacing of one the pool's own bitmap ends at tick 30720.
    let lower = fixed_account(0, 30, 30, pool_key());
    let upper = dynamic_account(30720, 30725, 1, pool_key());
    let extension = get_bitmap_extension_address(pool_key(), program()).unwrap();
    let access = increase_liquidity(
        &pool(1),
        &pool_key(),
        &program(),
        &position(30, 30725),
        &lower,
        &upper,
        Some(extension),
    )
    .unwrap();
    assert!(access.use_tickarray_bitmap_extension);
    assert_eq!(
        increase_liquidity(&pool(1), &pool_key(), &program(), &position(30, 30725), &lower, &upper, None)
            .unwrap_err(),
        AccountError::RequireKeysEqViolated
    );
    assert_eq!(
        increase_liquidity(
            &pool(1),
            &pool_key(),
            &program(),
            &position(30, 30725),
            &lower,
            &upper,
            Some(address(9)),
        )
        .unwrap_err(),
        AccountError::RequireKeysEqViolated
    );
    // Within the pool's own bitmap the remaining account is not looked at.
    let near = dynamic_account(30660, 30719, 1, pool_key());
    let access = increase_liquidity(
        &pool(1),
        &pool_key(),
        &program(),
        &position(30, 30719),
        &lower,
        &near,
        Some(address(9)),
    )
    .unwrap();
    assert!(!access.use_tickarray_bitmap_extension);
}

#[test]
fn a_position_takes_its_fees_and_grows() {
    let q64: u128 = 1 << 64;
    let mut mine = position(-100, 200);
    // Token 0: growth of 3 on liquidity 1000; token 1: growth of 2.5, across
    // the wrap of the accumulator.
    assert_eq!(
        mine.increase_liquidity(500, 8 * q64, 2 * q64 + q64 / 2 - 1, reward_growths(), 77),
        Ok(())
    );
    assert_eq!(mine.token_fees_owed_0, 10 + 3000);
    assert_eq!(mine.token_fees_owed_1, 20 + 2500);
    assert_eq!(mine.liquidity, 1500);
    assert_eq!(mine.fee_growth_inside_0_last_x64, 8 * q64);
    assert_eq!(mine.fee_growth_inside_1_last_x64, 2 * q64 + q64 / 2 - 1);
    assert_eq!(mine.recent_epoch, 77);
    assert_eq!((mine.tick_lower_index, mine.tick_upper_index), (-100, 200));
    // No growth, no fees.
    let before = mine;
    assert_eq!(
        mine.increase_liquidity(0, 8 * q64, 2 * q64 + q64 / 2 - 1, reward_growths(), 77),
        Ok(())
    );
    assert_eq!(mine, before);
    // A position that cannot take the change stays as it is.
    assert_eq!(
        mine.increase_liquidity(u128::MAX, 8 * q64, 2 * q64 + q64 / 2 - 1, [0; 3], 78),
        Err(ErrorCode::LiquidityAddValueErr)
    );
    assert_eq!(mine, before);
    mine.token_fees_owed_1 = u64::MAX;
    let before = mine;
    assert_eq!(
        mine.increase_liquidity(1, 8 * q64, 3 * q64, [0; 3], 78),
        Err(ErrorCode::CalculateOverflow)
    );
    assert_eq!(mine, before);
}

#[test]
fn a_position_takes_its_rewards() {
    let q64: u128 = 1 << 64;
    let mut mine = position(-100, 200);
    assert_eq!(
        mine.increase_liquidity(500, 5 * q64, u128::MAX, reward_growths(), 2),
        Ok(())
    );
    // Growth of 3 on the liquidity of 1000 that the position had.
    assert_eq!(
        mine.reward_infos[0],
        PositionRewardInfo { growth_inside_last_x64: 4 * q64, reward_amount_owed: 5 + 3000 }
    );
    // Growth of a half: 500 more, and the amount owed wraps.
    assert_eq!(
        mine.reward_infos[1],
        PositionRewardInfo { growth_inside_last_x64: q64 / 2 - 1, reward_amount_owed: 499 }
    );
    // What 64 bits cannot hold is counted as nothing.
    assert_eq!(
        mine.reward_infos[2],
        PositionRewardInfo { growth_inside_last_x64: u128::MAX, reward_amount_owed: 7 }
    );
    assert_eq!(mine.liquidity, 1500);
    assert_eq!((mine.token_fees_owed_0, mine.token_fees_owed_1), (10, 20));

    let mut reward = PositionRewardInfo { growth_inside_last_x64: 10, reward_amount_owed: 1 };
    // One short of the growth that earns one more.
    reward.update(10 + q64 / 4 - 1, 4);
    assert_eq!(
        reward,
        PositionRewardInfo { growth_inside_last_x64: 10 + q64 / 4 - 1, reward_amount_owed: 1 }
    );
    reward.update(10 + q64 / 2, 4);
    assert_eq!(
        reward,
        PositionRewardInfo { growth_inside_last_x64: 10 + q64 / 2, reward_amount_owed: 2 }
    );
    // The largest amount that is counted.
    reward.update(10 + q64 / 2 + (u64::MAX as u128 - 1), 1 << 64);
    assert_eq!(reward.reward_amount_owed, 0);
    // From `u64::MAX` on, nothing is.
    let mut reward = PositionRewardInfo { growth_inside_last_x64: 0, reward_amount_owed: 3 };
    reward.update(u64::MAX as u128, 1 << 64);
    assert_eq!(reward.reward_amount_owed, 3);
}

#[test]
fn tick_arrays_by_address() {
    let mut map = TickArrayMap::new();
    assert_eq!(map.len(), 0);
    assert!(map.get(&address(1)).is_none());
    let array = |start: i32| {
        let mut array = TickArrayState::default();
        array.start_tick_index = start;
        TickArrayData::Fixed(array)
    };
    map.insert(address(3), array(30));
    map.insert(address(1), array(10));
    map.insert(address(2), array(20));
    assert_eq!(map.len(), 3);
    // In the order in which they were put in.
    assert_eq!(map.keys(), vec![address(3), address(1), address(2)]);
    assert_eq!(map.get(&address(1)).unwrap().start_tick_index(), 10);
    assert_eq!(map.get(&address(2)).unwrap().start_tick_index(), 20);
    assert_eq!(map.position(&address(2)), Some(2));
    assert!(map.get(&address(4)).is_none());
    // An address holds one tick array: the later one takes the place.
    map.insert(address(1), array(11));
    assert_eq!(map.len(), 3);
    assert_eq!(map.keys(), vec![address(3), address(1), address(2)]);
    assert_eq!(map.get(&address(1)).unwrap().start_tick_index(), 11);
    assert_eq!(map.get(&address(3)).unwrap().start_tick_index(), 30);
}
