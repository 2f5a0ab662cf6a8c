use clmm_core::address::Address;
use clmm_core::dyn_tick_array::DynTickArrayState;
use clmm_core::error::ErrorCode;
use clmm_core::tick::{TickState, TickUtils};
use clmm_core::tick_math::{MAX_TICK, MIN_TICK};

/// The order in which the tick states of a dynamic tick array are used.
enum DynamicTickArrayBuildType {
    /// The first tick state is that of the lowest tick.
    FromStartIndex,
    /// The first tick state is that of the highest tick.
    FromEndIndex,
}

fn build_dyn_tick_array(
    start_index: i32,
    tick_spacing: u16,
    build_type: DynamicTickArrayBuildType,
    initialized_tick_offsets: Vec<usize>,
) -> (DynTickArrayState, Vec<TickState>) {
    let mut dyn_tick_header = DynTickArrayState::default();
    dyn_tick_header
        .initialize(start_index, tick_spacing, Address::default(), 0)
        .unwrap();
    let mut dyn_tick_states = vec![];
    let mut tick_offsets = initialized_tick_offsets.clone();
    tick_offsets.sort();
    if let DynamicTickArrayBuildType::FromEndIndex = build_type {
        tick_offsets.reverse();
    }
    for offset in tick_offsets {
        let mut new_tick = TickState::default();
        new_tick.liquidity_gross = 1;
        new_tick.tick = start_index + (offset * tick_spacing as usize) as i32;
        dyn_tick_header
            .use_one_tick(new_tick.tick, tick_spacing)
            .unwrap();
        dyn_tick_states.push(new_tick);
    }
    (dyn_tick_header, dyn_tick_states)
}

#[test]
fn get_dyn_array_start_index_test() {
    assert_eq!(TickUtils::get_array_start_index(120, 3), 0);
    assert_eq!(TickUtils::get_array_start_index(1002, 30), 0);
    assert_eq!(TickUtils::get_array_start_index(-120, 3), -180);
    assert_eq!(TickUtils::get_array_start_index(-1002, 30), -1800);
    assert_eq!(TickUtils::get_array_start_index(-20, 10), -600);
    assert_eq!(TickUtils::get_array_start_index(20, 10), 0);
    assert_eq!(TickUtils::get_array_start_index(-1002, 10), -1200);
    assert_eq!(TickUtils::get_array_start_index(-600, 10), -600);
    assert_eq!(TickUtils::get_array_start_index(-30720, 1), -30720);
    assert_eq!(TickUtils::get_array_start_index(30720, 1), 30720);
    assert_eq!(TickUtils::get_array_start_index(MIN_TICK, 1), -443640);
    assert_eq!(TickUtils::get_array_start_index(MAX_TICK, 1), 443580);
    assert_eq!(TickUtils::get_array_start_index(MAX_TICK, 60), 442800);
    assert_eq!(TickUtils::get_array_start_index(MIN_TICK, 60), -446400);
}

#[test]
fn next_tick_arrary_start_index_test() {
    let tick_spacing = 15;
    let (dyn_tick_header, _) = build_dyn_tick_array(
        -1800,
        tick_spacing,
        DynamicTickArrayBuildType::FromEndIndex,
        vec![],
    );
    // zero_for_one, next tickarray start_index < current
    assert_eq!(
        -2700,
        dyn_tick_header.next_tick_arrary_start_index(tick_spacing, true)
    );
    // one_for_zero, next tickarray start_index > current
    assert_eq!(
        -900,
        dyn_tick_header.next_tick_arrary_start_index(tick_spacing, false)
    );
}

#[test]
fn get_tick_index_in_array_test() {
    let tick_spacing = 4;
    // tick range [960, 1196]
    let (mut dyn_tick_header, _) = build_dyn_tick_array(
        960,
        tick_spacing,
        DynamicTickArrayBuildType::FromStartIndex,
        vec![],
    );

    // not in tickarray
    assert_eq!(
        dyn_tick_header
            .get_tick_index_in_array(808, tick_spacing)
            .unwrap_err(),
        ErrorCode::InvalidTickIndex
    );

    // first index is tickarray start tick
    let array_index = dyn_tick_header.use_one_tick(960, tick_spacing).unwrap();
    assert_eq!(dyn_tick_header.tick_offset_index[0], array_index + 1);
    assert_eq!(
        dyn_tick_header
            .get_tick_index_in_array(960, tick_spacing)
            .unwrap(),
        array_index
    );

    // tick_index % tick_spacing != 0
    let array_index = dyn_tick_header.use_one_tick(1105, tick_spacing).unwrap();
    assert_eq!(dyn_tick_header.tick_offset_index[36], array_index + 1);
    assert_eq!(
        dyn_tick_header
            .get_tick_index_in_array(1105, tick_spacing)
            .unwrap(),
        array_index
    );

    // (1108-960) / tick_spacing
    let array_index = dyn_tick_header.use_one_tick(1108, tick_spacing).unwrap();
    assert_eq!(dyn_tick_header.tick_offset_index[37], array_index + 1);
    assert_eq!(
        dyn_tick_header
            .get_tick_index_in_array(1108, tick_spacing)
            .unwrap(),
        array_index
    );

    // the end index of tickarray
    let array_index = dyn_tick_header.use_one_tick(1196, tick_spacing).unwrap();
    assert_eq!(dyn_tick_header.tick_offset_index[59], array_index + 1);
    assert_eq!(
        dyn_tick_header
            .get_tick_index_in_array(1196, tick_spacing)
            .unwrap(),
        array_index
    );
}

#[test]
fn first_initialized_tick_test() {
    let tick_spacing = 15;

    // initialized ticks[-300,-15]
    let (dyn_tick_header, tick_array) = build_dyn_tick_array(
        -900,
        tick_spacing,
        DynamicTickArrayBuildType::FromStartIndex,
        vec![40, 59],
    );

    // one_for_zero, the price increase, tick from small to large
    let arry_index = dyn_tick_header
        .first_initialized_tick_index(&tick_array, false)
        .unwrap() as usize;
    let tick = tick_array[arry_index].tick;
    assert_eq!(-300, tick);

    // zero_for_one, the price decrease, tick from large to small
    let arry_index = dyn_tick_header
        .first_initialized_tick_index(&tick_array, true)
        .unwrap() as usize;
    let tick = tick_array[arry_index].tick;
    assert_eq!(-15, tick);
}

fn next_tick_of(
    header: &DynTickArrayState,
    tick_array: &[TickState],
    current: i32,
    zero_for_one: bool,
) -> Option<i32> {
    header
        .next_initialized_tick_index(tick_array, current, 15, zero_for_one)
        .unwrap()
        .map(|index| tick_array[index as usize].tick)
}

#[test]
fn next_initialized_tick_when_tick_is_positive() {
    // init tick_index [0,30,105]
    let (dyn_tick_header, tick_array) = build_dyn_tick_array(
        0,
        15,
        DynamicTickArrayBuildType::FromStartIndex,
        vec![0, 2, 7],
    );

    // test zero_for_one
    assert_eq!(next_tick_of(&dyn_tick_header, &tick_array, 0, true).unwrap(), 0);
    assert_eq!(next_tick_of(&dyn_tick_header, &tick_array, 1, true).unwrap(), 0);
    assert_eq!(next_tick_of(&dyn_tick_header, &tick_array, 29, true).unwrap(), 0);
    assert_eq!(next_tick_of(&dyn_tick_header, &tick_array, 30, true).unwrap(), 30);
    assert_eq!(next_tick_of(&dyn_tick_header, &tick_array, 31, true).unwrap(), 30);

    // test one for zero
    assert_eq!(next_tick_of(&dyn_tick_header, &tick_array, 0, false).unwrap(), 30);
    assert_eq!(next_tick_of(&dyn_tick_header, &tick_array, 29, false).unwrap(), 30);
    assert_eq!(next_tick_of(&dyn_tick_header, &tick_array, 30, false).unwrap(), 105);
    assert_eq!(next_tick_of(&dyn_tick_header, &tick_array, 31, false).unwrap(), 105);

    let array_index = dyn_tick_header
        .next_initialized_tick_index(&tick_array, 105, 15, false)
        .unwrap();
    assert!(array_index.is_none());

    // tick not in tickarray
    let array_index = dyn_tick_header
        .next_initialized_tick_index(&tick_array, 900, 15, false)
        .unwrap();
    assert!(array_index.is_none());
}

#[test]
fn next_initialized_tick_when_tick_is_negative() {
    // init tick_index [-900,-870,-795]
    let (dyn_tick_header, tick_array) = build_dyn_tick_array(
        -900,
        15,
        DynamicTickArrayBuildType::FromEndIndex,
        vec![0, 2, 7],
    );

    // test zero for one
    assert_eq!(next_tick_of(&dyn_tick_header, &tick_array, -900, true).unwrap(), -900);
    assert_eq!(next_tick_of(&dyn_tick_header, &tick_array, -899, true).unwrap(), -900);
    assert_eq!(next_tick_of(&dyn_tick_header, &tick_array, -871, true).unwrap(), -900);
    assert_eq!(next_tick_of(&dyn_tick_header, &tick_array, -870, true).unwrap(), -870);
    assert_eq!(next_tick_of(&dyn_tick_header, &tick_array, -869, true).unwrap(), -870);

    // test one for zero
    assert_eq!(next_tick_of(&dyn_tick_header, &tick_array, -900, false).unwrap(), -870);
    assert_eq!(next_tick_of(&dyn_tick_header, &tick_array, -871, false).unwrap(), -870);
    assert_eq!(next_tick_of(&dyn_tick_header, &tick_array, -870, false).unwrap(), -795);
    assert_eq!(next_tick_of(&dyn_tick_header, &tick_array, -869, false).unwrap(), -795);

    let array_index = dyn_tick_header
        .next_initialized_tick_index(&tick_array, -795, 15, false)
        .unwrap();
    assert!(array_index.is_none());

    // tick not in tickarray
    let array_index = dyn_tick_header
        .next_initialized_tick_index(&tick_array, -10, 15, false)
        .unwrap();
    assert!(array_index.is_none());
}

#[test]
fn use_one_tick_refuses_a_used_slot_and_a_foreign_tick() {
    let (mut header, _) = build_dyn_tick_array(
        0,
        10,
        DynamicTickArrayBuildType::FromStartIndex,
        vec![3],
    );
    assert_eq!(header.alloc_tick_count, 1);
    assert_eq!(header.use_one_tick(30, 10), Err(ErrorCode::InvalidTickIndex));
    assert_eq!(header.use_one_tick(35, 10), Err(ErrorCode::InvalidTickIndex));
    assert_eq!(header.use_one_tick(600, 10), Err(ErrorCode::InvalidTickIndex));
    assert_eq!(header.use_one_tick(-1, 10), Err(ErrorCode::InvalidTickIndex));
    assert_eq!(header.alloc_tick_count, 1);
    assert_eq!(header.use_one_tick(590, 10), Ok(1));
    assert_eq!(header.tick_offset_index[59], 2);
    assert_eq!(header.alloc_tick_count, 2);
    assert_eq!(header.all_data_len(), 216 + 2 * 168);
}

#[test]
fn every_slot_can_be_used_once() {
    let mut header = DynTickArrayState::default();
    header.initialize(-600, 10, Address::default(), 7).unwrap();
    for k in 0..60 {
        assert_eq!(header.use_one_tick(-600 + 10 * k, 10), Ok(k as u8));
    }
    assert_eq!(header.alloc_tick_count, 60);
    assert_eq!(header.recent_epoch, 7);
    for k in 0..60 {
        assert_eq!(header.use_one_tick(-600 + 10 * k, 10), Err(ErrorCode::InvalidTickIndex));
    }
}

#[test]
fn an_unused_tick_state_is_not_an_initialized_tick() {
    let (header, mut tick_array) = build_dyn_tick_array(
        0,
        1,
        DynamicTickArrayBuildType::FromStartIndex,
        vec![5, 9],
    );
    tick_array[0].liquidity_gross = 0;
    assert_eq!(
        header.next_initialized_tick_index(&tick_array, 0, 1, false),
        Ok(Some(1))
    );
    assert_eq!(header.first_initialized_tick_index(&tick_array, false), Ok(1));
    tick_array[1].liquidity_gross = 0;
    assert_eq!(
        header.first_initialized_tick_index(&tick_array, true),
        Err(ErrorCode::InvalidTickArray)
    );
    // A slot whose tick state lies beyond the list counts as not initialized.
    let (header, tick_array) = build_dyn_tick_array(
        0,
        1,
        DynamicTickArrayBuildType::FromStartIndex,
        vec![5, 9],
    );
    assert_eq!(header.first_initialized_tick_index(&tick_array[..1], true), Ok(0));
}

#[test]
fn start_index_checks() {
    assert!(TickUtils::check_is_valid_start_index(0, 10));
    assert!(TickUtils::check_is_valid_start_index(-600, 10));
    assert!(!TickUtils::check_is_valid_start_index(-610, 10));
    assert!(TickUtils::check_is_valid_start_index(-443640, 1));
    assert!(!TickUtils::check_is_valid_start_index(-443700, 1));
    assert!(!TickUtils::check_is_valid_start_index(443640, 1));
    assert!(TickUtils::check_is_valid_start_index(443580, 1));
    assert_eq!(TickUtils::get_tick_offset_in_tick_array(960, 1105, 4), Ok(36));
    assert_eq!(
        TickUtils::get_tick_offset_in_tick_array(960, 808, 4),
        Err(ErrorCode::InvalidTickArray)
    );
    assert_eq!(TickUtils::check_tick_array_start_index(0, 30, 10), Ok(()));
    assert_eq!(
        TickUtils::check_tick_array_start_index(0, 35, 10),
        Err(ErrorCode::TickAndSpacingNotMatch)
    );
    assert_eq!(
        TickUtils::check_tick_array_start_index(0, 600, 10),
        Err(ErrorCode::InvalidTickArray)
    );
    assert_eq!(
        TickUtils::check_tick_array_start_index(0, 443640, 10),
        Err(ErrorCode::InvalidTickIndex)
    );
}
