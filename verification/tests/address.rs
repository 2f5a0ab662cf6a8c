use anchor_lang::prelude::Pubkey;
use clmm_core::address::{
    get_bitmap_extension_address, get_tick_array_address, i32_to_be_bytes, Address,
};

fn address(seed: u8) -> Address {
    let mut bytes = [seed; 32];
    bytes[3] = 200;
    Address::new_from_array(bytes)
}

#[test]
fn tick_array_address_is_the_program_derived_address() {
    let pool = address(5);
    let program = address(6);
    for start in [0, 60, -60, 443_580, -443_640, i32::MAX, i32::MIN, 1, -1, 256, -256] {
        let expected = Pubkey::find_program_address(
            &[
                "tick_array".as_bytes(),
                Pubkey::new_from_array(pool.bytes).as_ref(),
                &start.to_be_bytes(),
            ],
            &Pubkey::new_from_array(program.bytes),
        )
        .0;
        let found = get_tick_array_address(pool, start, program).unwrap();
        assert_eq!(found.to_bytes(), expected.to_bytes());
        assert_ne!(found, pool);
        assert_ne!(found, program);
    }
    assert_ne!(
        get_tick_array_address(pool, 0, program),
        get_tick_array_address(pool, 60, program)
    );
    assert_ne!(
        get_tick_array_address(pool, 0, program),
        get_tick_array_address(program, 0, pool)
    );
}

#[test]
fn bitmap_extension_address_is_the_program_derived_address() {
    let pool = address(9);
    let program = address(10);
    let expected = Pubkey::find_program_address(
        &[
            "pool_tick_array_bitmap_extension".as_bytes(),
            Pubkey::new_from_array(pool.bytes).as_ref(),
        ],
        &Pubkey::new_from_array(program.bytes),
    )
    .0;
    let found = get_bitmap_extension_address(pool, program).unwrap();
    assert_eq!(found.to_bytes(), expected.to_bytes());
    assert_ne!(found, pool);
}

#[test]
fn big_endian_bytes() {
    for x in [0, 1, -1, 255, 256, -256, 443_636, -443_636, i32::MAX, i32::MIN] {
        assert_eq!(i32_to_be_bytes(x), x.to_be_bytes().to_vec());
    }
}

#[test]
fn addresses_compare_by_their_bytes() {
    let a = address(1);
    let mut b = address(1);
    assert!(a.same(&b));
    assert_eq!(a, b);
    b.bytes[31] ^= 1;
    assert!(!a.same(&b));
    assert!(Address::default().is_default());
    assert!(!a.is_default());
    assert_eq!(Address::new_from_array([7; 32]).to_bytes(), [7; 32]);
}
