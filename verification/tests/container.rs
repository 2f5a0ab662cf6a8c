use clmm_core::account::AccountView;
use clmm_core::address::{get_tick_array_address, Address};
use clmm_core::container::TickArrayContainerRefMut;
use clmm_core::dyn_tick_array::DynTickArrayState;
use clmm_core::error::{AccountError, ErrorCode};
use clmm_core::loader::{DynTickArrayLoader, TickArrayAccess, TickArrayContainer};
use clmm_core::system::{
    create_or_allocate_account, get_recent_epoch, realloc_account_if_needed, AccountCreationPlan,
    ReallocPlan,
};
use clmm_core::test_account_utils::{mock_account_info, mock_anchor_account_info};
use clmm_core::tick::{RewardInfo, TickState};
use clmm_core::tick_array::TickArrayState;
use clmm_core::tick_array_data::TickArrayData;

fn address(seed: u8) -> Address {
    let mut bytes = [seed; 32];
    bytes[0] = 6;
    Address::new_from_array(bytes)
}

fn program() -> Address {
    address(100)
}

fn system_program() -> Address {
    Address::default()
}

fn pool_key() -> Address {
    address(101)
}

fn initialized(tick: i32) -> TickState {
    TickState {
        tick,
        liquidity_gross: 5,
        liquidity_net: -5,
        ..Default::default()
    }
}

fn fixed() -> TickArrayContainerRefMut {
    let mut array = TickArrayState::default();
    array.start_tick_index = -600;
    array.pool_id = pool_key();
    array.ticks[0] = initialized(-600);
    array.ticks[59] = initialized(-10);
    array.ticks[30].tick = -300;
    array.initialized_tick_count = 2;
    TickArrayContainerRefMut::Fixed(array)
}

fn dynamic() -> TickArrayContainerRefMut {
    let mut header = DynTickArrayState::default();
    header.initialize(-600, 10, pool_key(), 0).unwrap();
    header.use_one_tick(-10, 10).unwrap();
    header.use_one_tick(-300, 10).unwrap();
    header.use_one_tick(-600, 10).unwrap();
    header.initialized_tick_count = 2;
    let mut unused = TickState::default();
    unused.tick = -300;
    TickArrayContainerRefMut::Dynamic((header, vec![initialized(-10), unused, initialized(-600)]))
}

#[test]
fn both_layouts_answer_alike() {
    for mut container in [fixed(), dynamic()] {
        assert_eq!(container.get_pool_id(), pool_key());
        assert_eq!(container.get_start_tick_index(), -600);
        assert_eq!(container.get_initialized_tick_count(), 2);
        assert_eq!(
            container.key(program()),
            get_tick_array_address(pool_key(), -600, program())
        );
        assert_eq!(container.first_initialized_tick(true).unwrap().tick, -10);
        assert_eq!(container.first_initialized_tick(false).unwrap().tick, -600);
        for (current, zero_for_one, expected) in [
            (-600, true, Some(-600)),
            (-595, true, Some(-600)),
            (-600, false, Some(-10)),
            (-300, false, Some(-10)),
            (-300, true, Some(-600)),
            (-11, false, Some(-10)),
            (-10, false, None),
            (-10, true, Some(-10)),
            (-1, true, Some(-10)),
            (0, true, None),
            (-601, false, None),
        ] {
            let found = container
                .next_initialized_tick(current, 10, zero_for_one)
                .unwrap()
                .map(|state| state.tick);
            assert_eq!(found, expected);
        }
        assert_eq!(container.get_tick_state_mut(-300, 10).unwrap().liquidity_gross, 0);
        assert_eq!(container.get_tick_state_mut(-10, 10).unwrap().liquidity_net, -5);
        // What is written through the reference is there afterwards.
        container.get_tick_state_mut(-300, 10).unwrap().liquidity_gross = 77;
        assert_eq!(container.get_tick_state_mut(-300, 10).unwrap().liquidity_gross, 77);
        assert_eq!(
            container
                .next_initialized_tick(-600, 10, false)
                .unwrap()
                .map(|state| state.tick),
            Some(-300)
        );
        container.first_initialized_tick(true).unwrap().liquidity_gross = 0;
        assert_eq!(container.first_initialized_tick(true).unwrap().tick, -300);
        let replaced = TickState {
            tick: -600,
            ..Default::default()
        };
        container.update_tick_state(-600, 10, &replaced, 42).unwrap();
        assert_eq!(container.first_initialized_tick(false).unwrap().tick, -300);
        container.update_initialized_tick_count(false).unwrap();
        container.update_initialized_tick_count(false).unwrap();
        assert_eq!(container.get_initialized_tick_count(), 0);
        assert_eq!(
            container.update_initialized_tick_count(false),
            Err(ErrorCode::CalculateOverflow)
        );
        container.update_initialized_tick_count(true).unwrap();
        assert_eq!(container.get_initialized_tick_count(), 1);
        match container.into_data() {
            TickArrayData::Fixed(array) => assert_eq!(array.recent_epoch, 42),
            TickArrayData::Dynamic { header, .. } => assert_eq!(header.recent_epoch, 42),
        }
    }
}

#[test]
fn ticks_without_a_state() {
    let mut array = fixed();
    assert_eq!(
        array.get_tick_state_mut(0, 10).unwrap_err(),
        ErrorCode::InvalidTickArray
    );
    assert_eq!(
        array.update_tick_state(-601, 10, &TickState::default(), 1),
        Err(ErrorCode::InvalidTickArray)
    );
    let mut array = dynamic();
    assert_eq!(
        array.get_tick_state_mut(0, 10).unwrap_err(),
        ErrorCode::InvalidTickIndex
    );
    assert_eq!(
        array.get_tick_state_mut(-20, 10).unwrap_err(),
        ErrorCode::InvalidTickIndex
    );
    assert_eq!(
        array.update_tick_state(-20, 10, &TickState::default(), 1),
        Err(ErrorCode::InvalidTickIndex)
    );
    let mut empty = TickArrayContainerRefMut::Dynamic((DynTickArrayState::default(), vec![]));
    assert_eq!(
        empty.first_initialized_tick(true).unwrap_err(),
        ErrorCode::InvalidTickArray
    );
    let mut empty = TickArrayContainerRefMut::Fixed(TickArrayState::default());
    assert_eq!(
        empty.first_initialized_tick(false).unwrap_err(),
        ErrorCode::InvalidTickArray
    );
    assert!(empty.next_initialized_tick(0, 1, true).unwrap().is_none());
}

fn account_of(container: TickArrayContainerRefMut, is_writable: bool) -> AccountView {
    let data = container.into_data();
    mock_anchor_account_info(&address(7), &program(), false, is_writable, 3, &data)
}

#[test]
fn containers_from_accounts() {
    for (container, is_fixed) in [(fixed(), true), (dynamic(), false)] {
        let account = account_of(container, true);
        let loaded = TickArrayContainer::try_from(&account, &program(), -10, 10).unwrap();
        assert_eq!(matches!(loaded, TickArrayContainer::Fixed(_)), is_fixed);
        assert_eq!(loaded.get_pool_id(), Ok(pool_key()));
        assert_eq!(loaded.get_start_tick_index(), Ok(-600));
        assert_eq!(loaded.get_initialized_tick_count(), Ok(2));
        assert_eq!(
            loaded.key(program()),
            Ok(get_tick_array_address(pool_key(), -600, program()))
        );
        let mut open = loaded.get_ref_mut().unwrap();
        assert_eq!(open.first_initialized_tick(true).unwrap().tick, -10);
        let mut open = TickArrayContainer::load_data_mut(&account, &program()).unwrap();
        assert_eq!(open.first_initialized_tick(false).unwrap().tick, -600);
        // A tick whose slot names a tick, initialized or not, is let in.
        assert!(TickArrayContainer::try_from(&account, &program(), -300, 10).is_ok());
        // A tick whose slot names none, a tick off the grid, a tick of
        // another array, a tick out of range.
        assert_eq!(
            TickArrayContainer::try_from(&account, &program(), -20, 10).unwrap_err(),
            AccountError::Program(ErrorCode::InvalidTickIndex)
        );
        assert_eq!(
            TickArrayContainer::try_from(&account, &program(), -15, 10).unwrap_err(),
            AccountError::Program(ErrorCode::TickAndSpacingNotMatch)
        );
        assert_eq!(
            TickArrayContainer::try_from(&account, &program(), 0, 10).unwrap_err(),
            AccountError::Program(ErrorCode::InvalidTickArray)
        );
        assert_eq!(
            TickArrayContainer::try_from(&account, &program(), 443_640, 10).unwrap_err(),
            AccountError::Program(ErrorCode::InvalidTickIndex)
        );
        assert_eq!(
            TickArrayContainer::try_from(&account, &address(1), -10, 10).unwrap_err(),
            AccountError::AccountOwnedByWrongProgram
        );
        assert!(TickArrayContainer::try_from_without_check(&account, &program()).is_ok());
        let mut read_only = account.clone();
        read_only.is_writable = false;
        let loaded = TickArrayContainer::try_from(&read_only, &program(), -10, 10).unwrap();
        assert_eq!(loaded.get_ref_mut().unwrap_err(), AccountError::AccountNotMutable);
        assert_eq!(
            TickArrayContainer::load_data_mut(&read_only, &program()).unwrap_err(),
            AccountError::AccountNotMutable
        );
    }
    let blank = mock_account_info(&address(7), &program(), false, true, 0, 300);
    assert_eq!(
        TickArrayContainer::try_from(&blank, &program(), 0, 10).unwrap_err(),
        AccountError::AccountDiscriminatorMismatch
    );
    assert_eq!(
        TickArrayContainer::try_from_without_check(&blank, &program()).unwrap_err(),
        AccountError::AccountDiscriminatorMismatch
    );
    assert_eq!(
        TickArrayContainer::load_data_mut(&blank, &program()).unwrap_err(),
        AccountError::AccountDiscriminatorMismatch
    );
    let tiny = mock_account_info(&address(7), &program(), false, true, 0, 3);
    assert_eq!(
        TickArrayContainer::try_from(&tiny, &program(), 0, 10).unwrap_err(),
        AccountError::AccountDiscriminatorNotFound
    );
}

#[test]
fn a_tick_array_is_created_where_there_is_none() {
    let key = get_tick_array_address(pool_key(), 1200, program()).unwrap();
    let missing = mock_account_info(&key, &system_program(), false, true, 0, 0);
    let plan = TickArrayContainer::get_or_create_tick_array(
        &missing,
        &system_program(),
        &program(),
        &pool_key(),
        1200,
        1250,
        10,
    )
    .unwrap();
    assert!(matches!(plan, TickArrayAccess::Create { space: 384 }));
    // At another address than the derived one.
    let elsewhere = mock_account_info(&address(9), &system_program(), false, true, 0, 0);
    assert_eq!(
        TickArrayContainer::get_or_create_tick_array(
            &elsewhere,
            &system_program(),
            &program(),
            &pool_key(),
            1200,
            1250,
            10,
        )
        .unwrap_err(),
        AccountError::RequireKeysEqViolated
    );
    // A start index that no tick array has, a tick off the grid.
    assert_eq!(
        TickArrayContainer::get_or_create_tick_array(
            &missing,
            &system_program(),
            &program(),
            &pool_key(),
            1210,
            1250,
            10,
        )
        .unwrap_err(),
        AccountError::Program(ErrorCode::InvalidTickIndex)
    );
    assert_eq!(
        TickArrayContainer::get_or_create_tick_array(
            &missing,
            &system_program(),
            &program(),
            &pool_key(),
            1200,
            1255,
            10,
        )
        .unwrap_err(),
        AccountError::Program(ErrorCode::TickAndSpacingNotMatch)
    );
    // The account after its creation: 384 zero bytes, owned by the program.
    let created = mock_account_info(&key, &program(), false, true, 5, 384);
    let loader = TickArrayContainer::create_dyn_tick_array_account(
        &created,
        &program(),
        &pool_key(),
        1200,
        1250,
        10,
        33,
    )
    .unwrap();
    let (header, ticks) = loader.load().unwrap();
    assert_eq!(header.start_tick_index, 1200);
    assert_eq!(header.pool_id, pool_key());
    assert_eq!(header.recent_epoch, 33);
    assert_eq!(header.alloc_tick_count, 1);
    assert_eq!(header.tick_offset_index[5], 1);
    assert_eq!(ticks.len(), 1);
    assert_eq!(ticks[0], TickState { tick: 1250, ..Default::default() });
    // The tick now has a state; another tick of the array asks for room.
    let ready = TickArrayContainer::get_or_create_tick_array(
        &loader.acc_info,
        &system_program(),
        &program(),
        &pool_key(),
        1200,
        1250,
        10,
    )
    .unwrap();
    assert!(matches!(ready, TickArrayAccess::Ready(TickArrayContainer::Dynamic(_))));
    let grow = TickArrayContainer::get_or_create_tick_array(
        &loader.acc_info,
        &system_program(),
        &program(),
        &pool_key(),
        1200,
        1790,
        10,
    )
    .unwrap();
    assert!(matches!(grow, TickArrayAccess::Grow { new_space: 552 }));
    // The account after it has been made larger.
    let mut larger = loader.acc_info.clone();
    larger.data.extend_from_slice(&[0u8; 168]);
    let loader = TickArrayContainer::check_and_load_dyn_tick_array_account(
        &larger,
        &program(),
        1790,
        10,
    )
    .unwrap();
    // The data keeps its length and holds the two tick states.
    assert_eq!(loader.acc_info.data.len(), larger.data.len());
    assert_eq!(loader.acc_info.data.len(), 216 + 2 * 168);
    let (header, ticks) = loader.load().unwrap();
    assert_eq!(ticks.len(), 2);
    assert_eq!(header.alloc_tick_count, 2);
    assert_eq!(header.tick_offset_index[59], 2);
    assert_eq!(ticks[1], TickState { tick: 1790, ..Default::default() });
    assert_eq!(ticks[0].tick, 1250);
    let (before, earlier) = DynTickArrayLoader::try_from(&larger, &program())
        .unwrap()
        .load_mut(true)
        .unwrap();
    assert_eq!(ticks[0], earlier[0]);
    assert_eq!(header.start_tick_index, before.start_tick_index);
    assert_eq!(header.pool_id, before.pool_id);
    assert_eq!(header.initialized_tick_count, before.initialized_tick_count);
    assert_eq!(header.recent_epoch, before.recent_epoch);
    assert_eq!(header.tick_offset_index[..59], before.tick_offset_index[..59]);
    // Whatever the new room held, the new tick state is zero but for its tick.
    let mut dirty = larger.clone();
    let length = dirty.data.len();
    dirty.data[length - 168..].copy_from_slice(&[0xa5u8; 168]);
    let cleaned = TickArrayContainer::check_and_load_dyn_tick_array_account(
        &dirty,
        &program(),
        1790,
        10,
    )
    .unwrap();
    assert_eq!(cleaned.acc_info.data, loader.acc_info.data);
    assert_eq!(
        cleaned.load().unwrap().1[1],
        TickState { tick: 1790, ..Default::default() }
    );
    // Without the room the tick state has no place.
    assert_eq!(
        TickArrayContainer::check_and_load_dyn_tick_array_account(
            &loader.acc_info,
            &program(),
            1780,
            10,
        )
        .unwrap_err(),
        AccountError::AccountDidNotDeserialize
    );
    assert_eq!(
        TickArrayContainer::check_and_load_dyn_tick_array_account(&larger, &program(), 1250, 10)
            .unwrap_err(),
        AccountError::Program(ErrorCode::InvalidTickIndex)
    );
    // Another pool, another start index.
    assert_eq!(
        TickArrayContainer::get_or_create_tick_array(
            &loader.acc_info,
            &system_program(),
            &program(),
            &address(55),
            1200,
            1250,
            10,
        )
        .unwrap_err(),
        AccountError::Program(ErrorCode::InvalidTickArray)
    );
    assert_eq!(
        TickArrayContainer::get_or_create_tick_array(
            &loader.acc_info,
            &system_program(),
            &program(),
            &pool_key(),
            1800,
            1800,
            10,
        )
        .unwrap_err(),
        AccountError::Program(ErrorCode::InvalidTickArray)
    );
}

#[test]
fn a_fixed_tick_array_names_the_tick_when_it_is_first_used() {
    let account = account_of(fixed(), true);
    let access = TickArrayContainer::get_or_create_tick_array(
        &account,
        &system_program(),
        &program(),
        &pool_key(),
        -600,
        -20,
        10,
    )
    .unwrap();
    let loader = match access {
        TickArrayAccess::Ready(TickArrayContainer::Fixed(loader)) => loader,
        _ => panic!("a fixed tick array is ready"),
    };
    let array = loader.load().unwrap();
    assert_eq!(array.ticks[58].tick, -20);
    assert_eq!(array.ticks[59], initialized(-10));
    assert_eq!(array.ticks[57], TickState::default());
    // A slot that names a tick keeps it.
    let access = TickArrayContainer::get_or_create_tick_array(
        &account,
        &system_program(),
        &program(),
        &pool_key(),
        -600,
        -10,
        10,
    )
    .unwrap();
    match access {
        TickArrayAccess::Ready(TickArrayContainer::Fixed(loader)) => {
            assert_eq!(loader.acc_info.data, account.data)
        }
        _ => panic!("a fixed tick array is ready"),
    }
    let read_only = account_of(fixed(), false);
    assert_eq!(
        TickArrayContainer::get_or_create_tick_array(
            &read_only,
            &system_program(),
            &program(),
            &pool_key(),
            -600,
            -20,
            10,
        )
        .unwrap_err(),
        AccountError::AccountNotMutable
    );
    let foreign = mock_account_info(&address(7), &address(8), false, true, 0, 300);
    assert_eq!(
        TickArrayContainer::get_or_create_tick_array(
            &foreign,
            &system_program(),
            &program(),
            &pool_key(),
            -600,
            -20,
            10,
        )
        .unwrap_err(),
        AccountError::AccountOwnedByWrongProgram
    );
}

#[test]
fn plans_for_accounts() {
    assert_eq!(
        create_or_allocate_account(0, 2_000, 384),
        AccountCreationPlan::Create { lamports: 2_000, space: 384 }
    );
    assert_eq!(
        create_or_allocate_account(500, 2_000, 384),
        AccountCreationPlan::Fund { transfer: 1_500, space: 384 }
    );
    assert_eq!(
        create_or_allocate_account(2_000, 2_000, 384),
        AccountCreationPlan::Fund { transfer: 0, space: 384 }
    );
    assert_eq!(
        create_or_allocate_account(5, 0, 10),
        AccountCreationPlan::Fund { transfer: 0, space: 10 }
    );
    let system = system_program();
    assert_eq!(
        realloc_account_if_needed(&address(1), &program(), 10, 20, 0, 0, &system, &system),
        Err(ErrorCode::IllegalAccountOwner)
    );
    assert_eq!(
        realloc_account_if_needed(&program(), &program(), 20, 20, 0, 100, &address(1), &system),
        Ok(ReallocPlan { resize: false, top_up: 0 })
    );
    assert_eq!(
        realloc_account_if_needed(&program(), &program(), 384, 552, 900, 1_000, &system, &system),
        Ok(ReallocPlan { resize: true, top_up: 100 })
    );
    assert_eq!(
        realloc_account_if_needed(&program(), &program(), 384, 552, 900, 1_000, &address(1), &system),
        Err(ErrorCode::InvalidAccount)
    );
    assert_eq!(
        realloc_account_if_needed(&program(), &program(), 384, 552, 1_000, 1_000, &address(1), &system),
        Ok(ReallocPlan { resize: true, top_up: 0 })
    );
    assert_eq!(
        realloc_account_if_needed(&program(), &program(), 384, 552, 0, 0, &system, &system),
        Ok(ReallocPlan { resize: true, top_up: 1 })
    );
    assert_eq!(get_recent_epoch(0), 0);
    assert_eq!(get_recent_epoch(172_799), 0);
    assert_eq!(get_recent_epoch(172_800), 1);
    assert_eq!(get_recent_epoch(1_700_000_000), 9837);
}

#[test]
fn a_tick_takes_liquidity_and_gives_it_back() {
    let rewards = [
        RewardInfo { token_mint: address(1), reward_growth_global_x64: 11 },
        RewardInfo { token_mint: address(2), reward_growth_global_x64: 22 },
        RewardInfo::default(),
    ];
    let mut tick = TickState::default();
    assert_eq!(tick.initialize(443_637, 1), Err(ErrorCode::InvalidTickIndex));
    assert_eq!(tick.initialize(-443_637, 1), Err(ErrorCode::InvalidTickIndex));
    assert_eq!(tick.initialize(-25, 10), Err(ErrorCode::TickAndSpacingNotMatch));
    assert_eq!(tick.initialize(-20, 10), Ok(()));
    assert_eq!(tick.tick, -20);
    assert!(!tick.is_initialized());
    // First use at or below the current tick: the growth so far is outside.
    assert_eq!(tick.update(-20, 100, 7, 8, false, &rewards), Ok(true));
    assert!(tick.is_initialized());
    assert_eq!((tick.liquidity_gross, tick.liquidity_net), (100, 100));
    assert_eq!((tick.fee_growth_outside_0_x64, tick.fee_growth_outside_1_x64), (7, 8));
    assert_eq!(tick.reward_growths_outside_x64, [11, 22, 0]);
    // As an upper bound the net liquidity falls.
    assert_eq!(tick.update(-20, 30, 70, 80, true, &rewards), Ok(false));
    assert_eq!((tick.liquidity_gross, tick.liquidity_net), (130, 70));
    assert_eq!((tick.fee_growth_outside_0_x64, tick.fee_growth_outside_1_x64), (7, 8));
    assert_eq!(tick.update(-20, -131, 0, 0, false, &rewards), Err(ErrorCode::LiquidityAddValueErr));
    assert_eq!((tick.liquidity_gross, tick.liquidity_net), (130, 70));
    assert_eq!(tick.update(-20, -30, 0, 0, true, &rewards), Ok(false));
    assert_eq!(tick.update(-20, -100, 0, 0, false, &rewards), Ok(true));
    assert_eq!((tick.liquidity_gross, tick.liquidity_net), (0, 0));
    // First use above the current tick: nothing is outside.
    let mut above = TickState { tick: 50, ..Default::default() };
    assert_eq!(above.update(49, 5, 7, 8, true, &rewards), Ok(true));
    assert_eq!((above.liquidity_gross, above.liquidity_net), (5, -5));
    assert_eq!((above.fee_growth_outside_0_x64, above.fee_growth_outside_1_x64), (0, 0));
    assert_eq!(above.reward_growths_outside_x64, [0, 0, 0]);
    let mut wide = TickState { liquidity_net: i128::MIN, liquidity_gross: 1, ..Default::default() };
    assert_eq!(wide.update(0, 1, 0, 0, true, &rewards), Err(ErrorCode::CalculateOverflow));
    assert_eq!(wide.liquidity_gross, 1);
    tick.padding[3] = 9;
    tick.reward_growths_outside_x64 = [1, 2, 3];
    tick.clear();
    assert_eq!(tick, TickState { padding: tick.padding, ..Default::default() });
    assert_eq!(tick.padding[3], 9);
    assert!(TickState::check_is_out_of_boundary(443_637));
    assert!(!TickState::check_is_out_of_boundary(-443_636));
}
