use clmm_core::account::AccountView;
use clmm_core::address::Address;
use clmm_core::dyn_tick_array::DynTickArrayState;
use clmm_core::error::AccountError;
use clmm_core::loader::{AccountLoad, DynTickArrayLoader, TickArrayContainer};
use clmm_core::test_account_utils::{
    mock_account_info, mock_anchor_account_info, mock_anchor_account_info_v2,
    mock_anchor_account_info_v3,
};
use clmm_core::tick::{TickState, REWARD_NUM, TICK_ARRAY_SIZE};
use clmm_core::tick_array::TickArrayState;
use clmm_core::tick_array_data::TickArrayData;

fn address(seed: u8) -> Address {
    let mut bytes = [seed; 32];
    bytes[0] = 1;
    Address::new_from_array(bytes)
}

#[test]
fn dyn_test_tick_array_layout() {
    let pool_id = address(77);
    let start_tick_index: i32 = 60;
    let tick_spacing: u16 = 1;
    let mut padding: [u8; 107] = [0u8; 107];
    let mut padding_data = [0u8; 107];
    for i in 0..107 {
        padding[i] = i as u8;
        padding_data[i] = i as u8;
    }
    assert_eq!(padding, padding_data);

    let liquidity_net: i128 = 0x11002233445566778899aabbccddeeff;
    let liquidity_gross: u128 = 0x11220033445566778899aabbccddeeff;
    let fee_growth_outside_0_x64: u128 = 0x11223300445566778899aabbccddeeff;
    let fee_growth_outside_1_x64: u128 = 0x11223344005566778899aabbccddeeff;
    let reward_growths_outside_x64: [u128; REWARD_NUM] = [
        0x11223344550066778899aabbccddeeff,
        0x11223344556600778899aabbccddeeff,
        0x11223344556677008899aabbccddeeff,
    ];
    let mut tick_padding: [u32; 13] = [0u32; 13];
    let mut tick_padding_data = [0u8; 4 * 13];
    let mut offset = 0;
    for i in 0..13 {
        tick_padding[i] = u32::MAX - 3 * i as u32;
        tick_padding_data[offset..offset + 4].copy_from_slice(&tick_padding[i].to_le_bytes());
        offset += 4;
    }

    let use_tick_index = start_tick_index + 2;
    let mut tick_state_item = TickState::default();
    tick_state_item.tick = use_tick_index;
    tick_state_item.liquidity_net = liquidity_net;
    tick_state_item.liquidity_gross = liquidity_gross;
    tick_state_item.fee_growth_outside_0_x64 = fee_growth_outside_0_x64;
    tick_state_item.fee_growth_outside_1_x64 = fee_growth_outside_1_x64;
    tick_state_item.reward_growths_outside_x64 = reward_growths_outside_x64;
    tick_state_item.padding = tick_padding;

    // Room for all 60 tick states.
    let mut account = mock_account_info(
        &address(1),
        &address(2),
        false,
        true,
        0,
        DynTickArrayState::HEADER_LEN + (TICK_ARRAY_SIZE as usize) * TickState::LEN,
    );
    // write discriminator
    account.data[..8].copy_from_slice(&DynTickArrayState::DISCRIMINATOR);
    let mut loader = DynTickArrayLoader::new(account);

    // The first reading: initialize the header and add one tick state.
    {
        let (mut header, mut ticks) = loader.load_mut(true).unwrap();
        assert_eq!(ticks.len(), 60);
        header
            .initialize(start_tick_index, tick_spacing, pool_id, 3)
            .unwrap();
        assert!(header.alloc_tick_count == 0);

        let _ = header.use_one_tick(use_tick_index, tick_spacing);
        ticks[0] = tick_state_item;
        loader.store(&header, ticks);
    }

    // The second reading finds the tick state.
    {
        let (header, ticks) = loader.load_mut(true).unwrap();

        assert!(header.alloc_tick_count == 1);
        assert!(header.start_tick_index == start_tick_index);
        assert!(header.pool_id == pool_id);

        let tick_state = &ticks[0];

        assert!(tick_state.tick == use_tick_index);
        assert!(tick_state.liquidity_net == liquidity_net);
        assert!(tick_state.liquidity_gross == liquidity_gross);
        assert!(tick_state.fee_growth_outside_0_x64 == fee_growth_outside_0_x64);
        assert!(tick_state.fee_growth_outside_1_x64 == fee_growth_outside_1_x64);
        assert!(tick_state.reward_growths_outside_x64 == reward_growths_outside_x64);
        assert!(tick_state.padding == tick_padding);
    }

    // Byte for byte: the tick state stands right after the header, its
    // fields little end first, its padding last.
    let data = &loader.acc_info.data;
    assert_eq!(&data[8..40], &pool_id.bytes[..]);
    assert_eq!(&data[40..44], &60i32.to_le_bytes()[..]);
    assert_eq!(data[48 + 2], 1);
    assert_eq!(data[108], 1);
    assert_eq!(&data[112..120], &3u64.to_le_bytes()[..]);
    let at = DynTickArrayState::HEADER_LEN;
    assert_eq!(&data[at..at + 4], &62i32.to_le_bytes()[..]);
    assert_eq!(&data[at + 4..at + 20], &liquidity_net.to_le_bytes()[..]);
    assert_eq!(&data[at + 20..at + 36], &liquidity_gross.to_le_bytes()[..]);
    assert_eq!(&data[at + 68..at + 84], &reward_growths_outside_x64[0].to_le_bytes()[..]);
    assert_eq!(&data[at + 116..at + 168], &tick_padding_data[..]);
    // The length that the header asks for is not the account's length.
    assert_eq!(loader.load().unwrap_err(), AccountError::AccountDidNotDeserialize);
}

#[test]
fn test_is_match_discriminator() {
    let key = address(3);
    let owner = address(4);

    let dyn_tick_header = DynTickArrayState::default();
    let account_info = mock_anchor_account_info_v3(
        &key,
        &owner,
        &TickArrayData::Dynamic {
            header: dyn_tick_header,
            ticks: vec![],
        },
        None,
    );

    let is_dyn = TickArrayContainer::is_match_discriminator(
        &account_info,
        &DynTickArrayState::DISCRIMINATOR,
    )
    .unwrap();
    assert!(is_dyn);

    let is_fixed =
        TickArrayContainer::is_match_discriminator(&account_info, &TickArrayState::DISCRIMINATOR)
            .unwrap();
    assert!(!is_fixed);
}

#[test]
fn discriminator_of_short_data_is_not_found() {
    let account = mock_account_info(&address(1), &address(2), false, true, 0, 7);
    assert_eq!(
        TickArrayContainer::is_match_discriminator(&account, &TickArrayState::DISCRIMINATOR),
        Err(AccountError::AccountDiscriminatorNotFound)
    );
    let account = mock_account_info(&address(1), &address(2), false, true, 0, 8);
    assert_eq!(
        TickArrayContainer::is_match_discriminator(&account, &[0u8; 8]),
        Ok(true)
    );
    assert_eq!(
        TickArrayContainer::is_match_discriminator(&account, &[0u8; 7]),
        Ok(false)
    );
}

fn sample_tick(seed: u128) -> TickState {
    TickState {
        tick: -(seed as i32) - 1,
        liquidity_net: -((seed * 1_000_003) as i128) - 5,
        liquidity_gross: seed * 7 + 1,
        fee_growth_outside_0_x64: u128::MAX - seed,
        fee_growth_outside_1_x64: seed << 100,
        reward_growths_outside_x64: [seed, seed + 1, u128::MAX],
        padding: [seed as u32; 13],
    }
}

fn sample_fixed() -> TickArrayState {
    let mut array = TickArrayState::default();
    array.pool_id = address(9);
    array.start_tick_index = -3600;
    array.initialized_tick_count = 3;
    array.recent_epoch = u64::MAX - 1;
    for k in 0..60 {
        array.ticks[k] = sample_tick(k as u128);
    }
    for k in 0..107 {
        array.padding[k] = (k * 2) as u8;
    }
    array
}

#[test]
fn fixed_layout_round_trip() {
    let array = sample_fixed();
    let bytes = TickArrayData::Fixed(array).to_bytes();
    assert_eq!(bytes.len(), TickArrayState::LEN);
    assert_eq!(bytes.len(), 10240);
    assert_eq!(&bytes[..8], &TickArrayState::DISCRIMINATOR[..]);
    assert_eq!(&bytes[8..40], &address(9).bytes[..]);
    assert_eq!(&bytes[40..44], &(-3600i32).to_le_bytes()[..]);
    assert_eq!(&bytes[44..48], &(-1i32).to_le_bytes()[..]);
    assert_eq!(&bytes[44 + 168..48 + 168], &(-2i32).to_le_bytes()[..]);
    assert_eq!(bytes[10124], 3);
    assert_eq!(&bytes[10125..10133], &(u64::MAX - 1).to_le_bytes()[..]);
    assert_eq!(bytes[10133 + 5], 10);
    match TickArrayData::from_bytes(&bytes) {
        Some(TickArrayData::Fixed(read)) => assert_eq!(read, array),
        _ => panic!("the fixed layout is read back"),
    }
    // The bytes come back too.
    let again = TickArrayData::from_bytes(&bytes).unwrap().to_bytes();
    assert_eq!(again, bytes);
}

#[test]
fn dynamic_layout_round_trip() {
    let mut header = DynTickArrayState::default();
    header.initialize(120, 2, address(5), 11).unwrap();
    header.use_one_tick(130, 2).unwrap();
    header.use_one_tick(120, 2).unwrap();
    header.initialized_tick_count = 2;
    let ticks = vec![sample_tick(4), sample_tick(1 << 40)];
    let bytes = TickArrayData::Dynamic {
        header,
        ticks: ticks.clone(),
    }
    .to_bytes();
    assert_eq!(bytes.len(), DynTickArrayState::HEADER_LEN + 2 * TickState::LEN);
    assert_eq!(bytes.len(), header.all_data_len());
    assert_eq!(&bytes[..8], &DynTickArrayState::DISCRIMINATOR[..]);
    assert_eq!(bytes[48], 2);
    assert_eq!(bytes[48 + 5], 1);
    assert_eq!(bytes[108], 2);
    assert_eq!(bytes[109], 2);
    match TickArrayData::from_bytes(&bytes) {
        Some(TickArrayData::Dynamic {
            header: read_header,
            ticks: read_ticks,
        }) => {
            assert_eq!(read_header, header);
            assert_eq!(read_ticks, ticks);
        }
        _ => panic!("the dynamic layout is read back"),
    }
    let again = TickArrayData::from_bytes(&bytes).unwrap().to_bytes();
    assert_eq!(again, bytes);
}

#[test]
fn from_bytes_refuses_what_is_no_tick_array() {
    assert!(TickArrayData::from_bytes(&[]).is_none());
    assert!(TickArrayData::from_bytes(&[0u8; 7]).is_none());
    assert!(TickArrayData::from_bytes(&[0u8; 10240]).is_none());
    let mut fixed = TickArrayData::Fixed(sample_fixed()).to_bytes();
    fixed.push(0);
    assert!(TickArrayData::from_bytes(&fixed).is_none());
    fixed.truncate(10239);
    assert!(TickArrayData::from_bytes(&fixed).is_none());
    let mut dynamic = TickArrayData::Dynamic {
        header: DynTickArrayState::default(),
        ticks: vec![TickState::default()],
    }
    .to_bytes();
    assert!(TickArrayData::from_bytes(&dynamic).is_some());
    dynamic.push(1);
    assert!(TickArrayData::from_bytes(&dynamic).is_none());
    dynamic.truncate(215);
    assert!(TickArrayData::from_bytes(&dynamic).is_none());
    dynamic.push(0);
    match TickArrayData::from_bytes(&dynamic) {
        Some(TickArrayData::Dynamic { ticks, .. }) => assert!(ticks.is_empty()),
        _ => panic!("a header alone is a dynamic tick array without tick states"),
    }
}

fn program() -> Address {
    address(200)
}

fn account_with(data: Vec<u8>, owner: Address, is_writable: bool) -> AccountView {
    AccountView {
        key: address(50),
        owner,
        is_signer: false,
        is_writable,
        lamports: 1,
        data,
    }
}

#[test]
fn loaders_check_owner_tag_and_length_in_that_order() {
    let header = DynTickArrayState::default();
    let dynamic = TickArrayData::Dynamic {
        header,
        ticks: vec![],
    };
    let good = mock_anchor_account_info(&address(50), &program(), false, true, 0, &dynamic);
    assert!(DynTickArrayLoader::try_from(&good, &program()).is_ok());
    assert_eq!(
        DynTickArrayLoader::try_from(&good, &address(3)).unwrap_err(),
        AccountError::AccountOwnedByWrongProgram
    );
    assert_eq!(
        AccountLoad::try_from(&good, &program()).unwrap_err(),
        AccountError::AccountDiscriminatorMismatch
    );
    let short = account_with(vec![106, 139, 152], program(), true);
    assert_eq!(
        DynTickArrayLoader::try_from(&short, &program()).unwrap_err(),
        AccountError::AccountDiscriminatorNotFound
    );
    assert_eq!(
        DynTickArrayLoader::try_from(&short, &address(1)).unwrap_err(),
        AccountError::AccountOwnedByWrongProgram
    );
    assert!(DynTickArrayLoader::try_from_unchecked(&short, &program()).is_ok());
    assert_eq!(
        DynTickArrayLoader::try_from_unchecked(&short, &address(1)).unwrap_err(),
        AccountError::AccountOwnedByWrongProgram
    );

    // A header that asks for one tick state in an account that has none.
    let mut longer = header;
    longer.use_one_tick(0, 1).unwrap();
    let lying = mock_anchor_account_info(
        &address(50),
        &program(),
        false,
        false,
        0,
        &TickArrayData::Dynamic {
            header: longer,
            ticks: vec![],
        },
    );
    let loader = DynTickArrayLoader::try_from(&lying, &program()).unwrap();
    assert_eq!(loader.load().unwrap_err(), AccountError::AccountDidNotDeserialize);
    assert_eq!(loader.load_mut(true).unwrap_err(), AccountError::AccountNotMutable);
    let mut writable = loader.clone();
    writable.acc_info.is_writable = true;
    assert!(writable.load_mut(true).is_ok());
    assert_eq!(
        writable.load_mut(false).unwrap_err(),
        AccountError::AccountDidNotDeserialize
    );
    // Half a tick state after the header.
    let ragged = mock_anchor_account_info_v2(
        &address(50),
        &program(),
        false,
        true,
        0,
        &dynamic,
        Some(&[0u8; 84]),
    );
    let loader = DynTickArrayLoader::try_from(&ragged, &program()).unwrap();
    assert_eq!(loader.load_mut(true).unwrap_err(), AccountError::AccountDidNotDeserialize);
}

#[test]
fn load_init_sets_the_tag_once() {
    let blank = mock_account_info(&address(50), &program(), false, true, 0, 384);
    let mut loader = DynTickArrayLoader::try_from_unchecked(&blank, &program()).unwrap();
    let (header, ticks) = loader.load_init().unwrap();
    assert_eq!(header, DynTickArrayState::default());
    assert_eq!(ticks, vec![TickState::default()]);
    assert_eq!(&loader.acc_info.data[..8], &DynTickArrayState::DISCRIMINATOR[..]);
    assert_eq!(&loader.acc_info.data[8..], &[0u8; 376][..]);
    assert_eq!(
        loader.load_init().unwrap_err(),
        AccountError::AccountDiscriminatorAlreadySet
    );
    let mut read_only = DynTickArrayLoader::new(mock_account_info(
        &address(50),
        &program(),
        false,
        false,
        0,
        384,
    ));
    assert_eq!(read_only.load_init().unwrap_err(), AccountError::AccountNotMutable);
    let mut tiny =
        DynTickArrayLoader::new(mock_account_info(&address(50), &program(), false, true, 0, 4));
    assert_eq!(
        tiny.load_init().unwrap_err(),
        AccountError::AccountDiscriminatorNotFound
    );
    let mut small =
        DynTickArrayLoader::new(mock_account_info(&address(50), &program(), false, true, 0, 100));
    assert_eq!(small.load_init().unwrap_err(), AccountError::AccountDidNotDeserialize);
    assert_eq!(small.acc_info.data, vec![0u8; 100]);
}

#[test]
fn fixed_loader_reads_and_stores() {
    let array = sample_fixed();
    let account = mock_anchor_account_info(
        &address(50),
        &program(),
        false,
        true,
        0,
        &TickArrayData::Fixed(array),
    );
    let mut loader = AccountLoad::try_from(&account, &program()).unwrap();
    assert_eq!(loader.load().unwrap(), array);
    let mut changed = loader.load_mut().unwrap();
    changed.ticks[7].liquidity_gross = 99;
    loader.store(&changed);
    assert_eq!(loader.load().unwrap().ticks[7].liquidity_gross, 99);
    assert_eq!(loader.load().unwrap().ticks[8], array.ticks[8]);
    loader.acc_info.is_writable = false;
    assert_eq!(loader.load_mut().unwrap_err(), AccountError::AccountNotMutable);
    loader.acc_info.data.truncate(10000);
    assert_eq!(loader.load().unwrap_err(), AccountError::AccountDidNotDeserialize);
}

#[test]
fn both_layouts_find_the_same_ticks() {
    // The same initialized ticks in a fixed and in a dynamic tick array,
    // the dynamic one filled in another order and with a tick state that is
    // allocated but not initialized.
    let tick_spacing: u16 = 7;
    let start = -420;
    let slots = [0usize, 1, 17, 18, 40, 59];
    let mut fixed = TickArrayState::default();
    fixed.start_tick_index = start;
    let mut header = DynTickArrayState::default();
    header.initialize(start, tick_spacing, address(1), 0).unwrap();
    let mut ticks = vec![];
    for slot in [40usize, 0, 59, 33, 18, 1, 17] {
        let tick = start + slot as i32 * tick_spacing as i32;
        let mut state = TickState::default();
        state.tick = tick;
        if slots.contains(&slot) {
            state.liquidity_gross = 1 + slot as u128;
        }
        fixed.ticks[slot] = state;
        header.use_one_tick(tick, tick_spacing).unwrap();
        ticks.push(state);
    }
    let fixed = TickArrayData::Fixed(fixed);
    let dynamic = TickArrayData::Dynamic { header, ticks };
    assert_eq!(fixed.start_tick_index(), dynamic.start_tick_index());
    let mut found = 0;
    for current in (start - 10)..(start + 60 * tick_spacing as i32 + 10) {
        for zero_for_one in [true, false] {
            for allow_first in [true, false] {
                let a = fixed.next_initialized_tick(current, tick_spacing, zero_for_one, allow_first);
                let b = dynamic.next_initialized_tick(current, tick_spacing, zero_for_one, allow_first);
                assert_eq!(a, b);
                if a.is_some() {
                    found += 1;
                }
            }
            assert_eq!(
                fixed.get_tick_liquidity_net(current, tick_spacing).is_some(),
                current >= start && current < start + 420
            );
        }
    }
    assert!(found > 1000);
    assert_eq!(fixed.next_initialized_tick(0, tick_spacing, true, true), Some(start + 59 * 7));
    assert_eq!(dynamic.next_initialized_tick(0, tick_spacing, false, true), Some(start));
    assert_eq!(dynamic.next_initialized_tick(start + 2 * 7, tick_spacing, false, false), Some(start + 17 * 7));
    assert_eq!(fixed.next_initialized_tick(start + 39 * 7 + 6, tick_spacing, true, false), Some(start + 18 * 7));
    // A tick state that is allocated but holds no liquidity has a net
    // liquidity to give, an unallocated slot of a dynamic array has none.
    assert_eq!(dynamic.get_tick_liquidity_net(start + 33 * 7, tick_spacing), Some(0));
    assert_eq!(dynamic.get_tick_liquidity_net(start + 34 * 7, tick_spacing), None);
    assert_eq!(fixed.get_tick_liquidity_net(start + 34 * 7, tick_spacing), Some(0));
}
