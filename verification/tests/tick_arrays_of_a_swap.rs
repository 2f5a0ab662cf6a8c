use clmm_core::address::{get_tick_array_address, Address};
use clmm_core::error::ErrorCode;
use clmm_core::pool::{PoolState, PoolStatusBitIndex};
use clmm_core::start_indexes::{insert_start, insert_starts, starts_in_order};
use clmm_core::swap_tick_arrays::{
    get_all_tick_array_addresses, get_all_tick_array_start_indexes,
    get_swap_tick_array_start_indexes, get_swap_tick_arrays,
};
use std::collections::BTreeSet;
use clmm_core::tick_array_bitmap::{array_number, is_array_marked, TickArrayBitmapExtension};

fn address(seed: u8) -> Address {
    let mut bytes = [seed; 32];
    bytes[0] = 4;
    Address::new_from_array(bytes)
}

fn pool(tick: i32, tick_spacing: u16) -> PoolState {
    PoolState {
        sqrt_price_x64: 1 << 64,
        tick_current: tick,
        liquidity: 0,
        tick_spacing,
        fee_growth_global_0_x64: 0,
        fee_growth_global_1_x64: 0,
        open_time: 0,
        decay_fee_flag: 0,
        decay_fee_init_fee_rate: 0,
        decay_fee_decrease_rate: 0,
        decay_fee_decrease_interval: 0,
        status: 0,
        tick_array_bitmap: [0; 16],
    }
}

fn mark(pool_state: &mut PoolState, number: i32) {
    let bit = (number + 512) as usize;
    pool_state.tick_array_bitmap[bit / 64] |= 1 << (bit % 64);
}

fn extension() -> TickArrayBitmapExtension {
    TickArrayBitmapExtension {
        pool_id: address(1),
        positive_tick_array_bitmap: [[0; 8]; 14],
        negative_tick_array_bitmap: [[0; 8]; 14],
    }
}

#[test]
fn array_numbers() {
    assert_eq!(array_number(0, 10), 0);
    assert_eq!(array_number(599, 10), 0);
    assert_eq!(array_number(600, 10), 1);
    assert_eq!(array_number(-1, 10), -1);
    assert_eq!(array_number(-600, 10), -1);
    assert_eq!(array_number(-601, 10), -2);
    assert_eq!(array_number(-443636, 1), -7394);
    assert_eq!(array_number(443636, 1), 7393);
    assert_eq!(array_number(i32::MIN, 65535), -547);
    assert_eq!(array_number(i32::MAX, 1), 35791394);
}

#[test]
fn marks_of_the_pool_and_of_the_extension() {
    let mut pool_state = pool(0, 1);
    mark(&mut pool_state, -512);
    mark(&mut pool_state, 0);
    mark(&mut pool_state, 511);
    let none = None;
    for number in [-512, 0, 511] {
        assert!(is_array_marked(&pool_state.tick_array_bitmap, &none, number));
    }
    for number in [-513, -511, -1, 1, 510, 512, 7679, -7680, 100_000] {
        assert!(!is_array_marked(&pool_state.tick_array_bitmap, &none, number));
    }
    let mut ext = extension();
    ext.positive_tick_array_bitmap[0][0] |= 1; // 512
    ext.positive_tick_array_bitmap[13][7] |= 1 << 63; // 7679
    ext.positive_tick_array_bitmap[1][1] |= 1 << 2; // 1024 + 66
    ext.negative_tick_array_bitmap[0][7] |= 1 << 63; // -513
    ext.negative_tick_array_bitmap[0][0] |= 1; // -1024
    ext.negative_tick_array_bitmap[13][0] |= 1; // -7680
    let some = Some(ext);
    for number in [512, 7679, 1090, -513, -1024, -7680, -512, 0, 511] {
        assert!(is_array_marked(&pool_state.tick_array_bitmap, &some, number));
    }
    for number in [513, 7678, 1089, 1091, -514, -1023, -1025, -7679, 7680, -7681] {
        assert!(!is_array_marked(&pool_state.tick_array_bitmap, &some, number));
    }
}

#[test]
fn the_next_marked_tick_array() {
    let mut pool_state = pool(0, 10);
    mark(&mut pool_state, -3);
    mark(&mut pool_state, 2);
    mark(&mut pool_state, 5);
    let none = None;
    assert_eq!(pool_state.next_initialized_tick_array_start_index(&none, 0, false), Some(1200));
    assert_eq!(pool_state.next_initialized_tick_array_start_index(&none, 1199, false), Some(1200));
    assert_eq!(pool_state.next_initialized_tick_array_start_index(&none, 1200, false), Some(3000));
    assert_eq!(pool_state.next_initialized_tick_array_start_index(&none, 3000, false), None);
    assert_eq!(pool_state.next_initialized_tick_array_start_index(&none, 3000, true), Some(1200));
    assert_eq!(pool_state.next_initialized_tick_array_start_index(&none, 0, true), Some(-1800));
    assert_eq!(pool_state.next_initialized_tick_array_start_index(&none, -1800, true), None);
    assert_eq!(pool_state.next_initialized_tick_array_start_index(&none, i32::MAX, true), Some(3000));
    assert_eq!(pool_state.next_initialized_tick_array_start_index(&none, i32::MIN, false), Some(-1800));
    // The tick array of the current tick comes first where it is marked.
    assert_eq!(pool_state.get_first_initialized_tick_array(&none, true), Some((false, -1800)));
    assert_eq!(pool_state.get_first_initialized_tick_array(&none, false), Some((false, 1200)));
    pool_state.tick_current = 1234;
    assert_eq!(pool_state.get_first_initialized_tick_array(&none, true), Some((true, 1200)));
    assert_eq!(pool_state.get_first_initialized_tick_array(&none, false), Some((true, 1200)));
    pool_state.tick_current = 3600;
    assert_eq!(pool_state.get_first_initialized_tick_array(&none, false), None);
}

#[test]
fn the_extension_carries_the_search_on() {
    let mut pool_state = pool(0, 1);
    mark(&mut pool_state, 3);
    let mut ext = extension();
    ext.positive_tick_array_bitmap[0][0] |= 2; // 513
    ext.negative_tick_array_bitmap[2][3] |= 1 << 5; // -2048 + 197
    let some = Some(ext);
    assert_eq!(pool_state.next_initialized_tick_array_start_index(&some, 0, false), Some(180));
    assert_eq!(
        pool_state.next_initialized_tick_array_start_index(&some, 180, false),
        Some(513 * 60)
    );
    assert_eq!(pool_state.next_initialized_tick_array_start_index(&some, 513 * 60, false), None);
    assert_eq!(
        pool_state.next_initialized_tick_array_start_index(&some, 0, true),
        Some(-1851 * 60)
    );
    assert_eq!(pool_state.next_initialized_tick_array_start_index(&None, 180, false), None);
    assert_eq!(pool_state.next_initialized_tick_array_start_index(&None, 0, true), None);
}

#[test]
fn start_indexes_for_one_direction() {
    let mut pool_state = pool(15, 10);
    // No mark: the tick array of the current tick and ten neighbours.
    assert_eq!(
        get_swap_tick_array_start_indexes(&pool_state, &None, false),
        vec![0, 600, 1200, 1800, 2400, 3000, 3600, 4200, 4800, 5400, 6000]
    );
    assert_eq!(
        get_swap_tick_array_start_indexes(&pool_state, &None, true),
        vec![0, -600, -1200, -1800, -2400, -3000, -3600, -4200, -4800, -5400, -6000]
    );
    for number in [-20, -3, 0, 2, 5, 6, 7, 8, 9, 10, 11, 12, 13, 14, 15] {
        mark(&mut pool_state, number);
    }
    assert_eq!(
        get_swap_tick_array_start_indexes(&pool_state, &None, true),
        vec![0, -1800, -12000]
    );
    // The first and at most ten more.
    assert_eq!(
        get_swap_tick_array_start_indexes(&pool_state, &None, false),
        vec![0, 1200, 3000, 3600, 4200, 4800, 5400, 6000, 6600, 7200, 7800]
    );
    pool_state.tick_current = 700;
    assert_eq!(
        get_swap_tick_array_start_indexes(&pool_state, &None, true),
        vec![0, -1800, -12000]
    );
    let program = address(9);
    let pool_key = address(8);
    let addresses = get_swap_tick_arrays(&pool_state, pool_key, &None, true, program);
    assert_eq!(
        addresses,
        vec![
            get_tick_array_address(pool_key, 0, program).unwrap(),
            get_tick_array_address(pool_key, -1800, program).unwrap(),
            get_tick_array_address(pool_key, -12000, program).unwrap(),
        ]
    );
}

#[test]
fn start_indexes_for_both_directions() {
    let mut pool_state = pool(15, 10);
    // No mark: the tick array of the current tick and twelve neighbours on
    // either side, in rising order.
    let expected: Vec<i32> = (-12..=12).map(|i| i * 600).collect();
    assert_eq!(get_all_tick_array_start_indexes(&pool_state, &None), expected);
    for number in [-20, -3, 2, 5] {
        mark(&mut pool_state, number);
    }
    assert_eq!(
        get_all_tick_array_start_indexes(&pool_state, &None),
        vec![-12000, -1800, 1200, 3000]
    );
    mark(&mut pool_state, 0);
    assert_eq!(
        get_all_tick_array_start_indexes(&pool_state, &None),
        vec![-12000, -1800, 0, 1200, 3000]
    );
    let program = address(9);
    let pool_key = address(8);
    let addresses = get_all_tick_array_addresses(&pool_state, pool_key, &None, program);
    let expected: Vec<Address> = [-12000, -1800, 0, 1200, 3000]
        .iter()
        .map(|s| get_tick_array_address(pool_key, *s, program).unwrap())
        .collect();
    assert_eq!(addresses, expected);
    // Near the end of 32 bits the neighbours stop at the end.
    let far = pool(i32::MAX - 5, 65535);
    let starts = get_all_tick_array_start_indexes(&far, &None);
    assert_eq!(*starts.last().unwrap(), i32::MAX);
    assert_eq!(starts.len(), 14);
    let mut sorted = starts.clone();
    sorted.sort();
    sorted.dedup();
    assert_eq!(sorted, starts);
}

#[test]
fn start_indexes_are_kept_in_order_and_once() {
    let mut starts = BTreeSet::new();
    assert_eq!(starts_in_order(&starts), Vec::<i32>::new());
    for start in [5, -3, 5, 9, 0, -3, 9, i32::MIN, i32::MAX, 7] {
        insert_start(&mut starts, start);
    }
    assert_eq!(starts_in_order(&starts), vec![i32::MIN, -3, 0, 5, 7, 9, i32::MAX]);
    insert_starts(&mut starts, &vec![8, 7, -4, 8]);
    assert_eq!(starts_in_order(&starts), vec![i32::MIN, -4, -3, 0, 5, 7, 8, 9, i32::MAX]);
}

#[test]
fn status_bits_and_the_reach_of_the_bitmap() {
    let mut pool_state = pool(0, 10);
    assert!(pool_state.get_status_by_bit(PoolStatusBitIndex::OpenPositionOrIncreaseLiquidity));
    assert_eq!(pool_state.check_increase_liquidity_allowed(), Ok(()));
    pool_state.status = 1;
    assert!(!pool_state.get_status_by_bit(PoolStatusBitIndex::OpenPositionOrIncreaseLiquidity));
    assert!(pool_state.get_status_by_bit(PoolStatusBitIndex::Swap));
    assert_eq!(pool_state.check_increase_liquidity_allowed(), Err(ErrorCode::NotApproved));
    pool_state.status = 16 | 4;
    assert!(!pool_state.get_status_by_bit(PoolStatusBitIndex::Swap));
    assert!(!pool_state.get_status_by_bit(PoolStatusBitIndex::CollectFee));
    assert!(pool_state.get_status_by_bit(PoolStatusBitIndex::DecreaseLiquidity));
    assert!(pool_state.get_status_by_bit(PoolStatusBitIndex::CollectReward));
    assert_eq!(pool_state.check_increase_liquidity_allowed(), Ok(()));

    assert_eq!(pool(0, 1).tick_array_start_index_range(), (-30720, 30720));
    assert_eq!(pool(0, 10).tick_array_start_index_range(), (-307200, 307200));
    assert_eq!(pool(0, 60).tick_array_start_index_range(), (-446400, 446400));
    let narrow = pool(0, 1);
    assert!(!narrow.is_overflow_default_tickarray_bitmap(vec![]));
    assert!(!narrow.is_overflow_default_tickarray_bitmap(vec![-30720, 30719, 0]));
    assert!(narrow.is_overflow_default_tickarray_bitmap(vec![0, 30720]));
    assert!(narrow.is_overflow_default_tickarray_bitmap(vec![-30721, 0]));
    assert!(!pool(0, 60).is_overflow_default_tickarray_bitmap(vec![-443636, 443636]));
}
