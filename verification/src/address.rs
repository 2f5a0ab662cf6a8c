//! Account addresses: 32 bytes.

use vstd::prelude::*;
use vstd::slice::slice_to_vec;

verus! {

/// The address of an account: 32 bytes.
#[derive(Clone, Copy, Debug, PartialEq, Eq, Hash)]
pub struct Address {
    pub bytes: [u8; 32],
}

impl View for Address {
    type V = Seq<u8>;

    open spec fn view(&self) -> Seq<u8> {
        self.bytes@
    }
}

impl Default for Address {
    fn default() -> (r: Address)
        ensures
            r@ == Seq::new(32, |i: int| 0u8),
    {
        let r = Address { bytes: [0u8; 32] };
        assert(r@ =~= Seq::new(32, |i: int| 0u8));
        r
    }
}

impl Address {
    /// An address from its bytes.
    pub fn new_from_array(bytes: [u8; 32]) -> (r: Address)
        ensures
            r.bytes == bytes,
    {
        Address { bytes }
    }

    /// The bytes of the address.
    pub fn to_bytes(&self) -> (r: [u8; 32])
        ensures
            r == self.bytes,
    {
        self.bytes
    }

    /// Whether two addresses hold the same bytes.
    pub fn same(&self, other: &Address) -> (r: bool)
        ensures
            r == (self@ == other@),
            r == (*self == *other),
    {
        let mut i: usize = 0;
        while i < 32
            invariant
                i <= 32,
                forall|k: int| 0 <= k < i ==> self.bytes[k] == other.bytes[k],
            decreases 32 - i,
        {
            if self.bytes[i] != other.bytes[i] {
                return false;
            }
            i += 1;
        }
        assert(self.bytes =~= other.bytes);
        assert(self@ =~= other@);
        true
    }

    /// Whether the address is all zero bytes: the address that stands for
    /// "none".
    pub fn is_default(&self) -> (r: bool)
        ensures
            r == (self@ == Seq::new(32, |i: int| 0u8)),
    {
        let zero = Address::default();
        self.same(&zero)
    }
}

/// The program-derived address for a list of seeds and a program: the
/// SHA-256 hash of the seeds, a bump seed, the program's address and a
/// marker, for the largest bump seed from 255 down to 1 whose hash is not a
/// point of the ed25519 curve. `None` where none of these bump seeds gives
/// such a hash, where there are sixteen seeds or more, or where a seed is
/// longer than 32 bytes.
pub uninterp spec fn program_address(seeds: Seq<Seq<u8>>, program_id: Seq<u8>) -> Option<Seq<u8>>;

/// The seed that marks the address of a tick array: the text `tick_array`.
pub open spec fn tick_array_seed() -> Seq<u8> {
    seq![116u8, 105u8, 99u8, 107u8, 95u8, 97u8, 114u8, 114u8, 97u8, 121u8]
}

/// The seed that marks the address of a pool's bitmap extension: the text
/// `pool_tick_array_bitmap_extension`.
pub open spec fn bitmap_extension_seed() -> Seq<u8> {
    seq![
        112u8, 111u8, 111u8, 108u8, 95u8, 116u8, 105u8, 99u8, 107u8, 95u8, 97u8, 114u8, 114u8,
        97u8, 121u8, 95u8, 98u8, 105u8, 116u8, 109u8, 97u8, 112u8, 95u8, 101u8, 120u8, 116u8,
        101u8, 110u8, 115u8, 105u8, 111u8, 110u8,
    ]
}

/// The four bytes of a 32-bit signed number in two's complement, most
/// significant first.
pub open spec fn be_bytes_i32(x: i32) -> Seq<u8> {
    let bits: int = if x >= 0 {
        x as int
    } else {
        x + 0x1_0000_0000
    };
    seq![
        (bits / 0x100_0000) as u8,
        ((bits / 0x1_0000) % 0x100) as u8,
        ((bits / 0x100) % 0x100) as u8,
        (bits % 0x100) as u8,
    ]
}

/// The seeds of a tick array's address: the marker, the pool's address and
/// the array's start index.
pub open spec fn tick_array_seeds(pool_key: Seq<u8>, start_index: i32) -> Seq<Seq<u8>> {
    seq![tick_array_seed(), pool_key, be_bytes_i32(start_index)]
}

/// The seeds of a bitmap extension's address: the marker and the pool's
/// address.
pub open spec fn bitmap_extension_seeds(pool_key: Seq<u8>) -> Seq<Seq<u8>> {
    seq![bitmap_extension_seed(), pool_key]
}

/// Calls `Pubkey::try_find_program_address` of `anchor_lang`. The result is
/// the program-derived address that the call computes from the seeds and the
/// program's address, or `None` where the call finds none.
#[verifier::external_body]
fn try_find_program_address(seeds: &Vec<Vec<u8>>, program_id: &Address) -> (r: Option<Address>)
    ensures
        match r {
            Some(found) => program_address(seeds.deep_view(), program_id@) == Some(found@),
            None => program_address(seeds.deep_view(), program_id@).is_none(),
        },
{
    let parts: Vec<&[u8]> = seeds.iter().map(|seed| seed.as_slice()).collect();
    let program = anchor_lang::prelude::Pubkey::new_from_array(program_id.bytes);
    match anchor_lang::prelude::Pubkey::try_find_program_address(&parts, &program) {
        Some((key, _)) => Some(Address { bytes: key.to_bytes() }),
        None => None,
    }
}

/// The bytes of a 32-bit signed number, most significant first.
pub fn i32_to_be_bytes(x: i32) -> (r: Vec<u8>)
    ensures
        r@ == be_bytes_i32(x),
{
    let bits: i64 = if x >= 0 {
        x as i64
    } else {
        x as i64 + 0x1_0000_0000i64
    };
    let r = vec![
        (bits / 0x100_0000) as u8,
        ((bits / 0x1_0000) % 0x100) as u8,
        ((bits / 0x100) % 0x100) as u8,
        (bits % 0x100) as u8,
    ];
    assert(r@ =~= be_bytes_i32(x));
    r
}

/// Get the address of the tick array of a pool that starts at `start_index`:
/// the address that the program derives from the marker `tick_array`, the
/// pool's address and the start index. `None` where there is no such
/// address.
pub fn get_tick_array_address(pool_key: Address, start_index: i32, program_id: Address) -> (r:
    Option<Address>)
    ensures
        match r {
            Some(found) => program_address(
                tick_array_seeds(pool_key@, start_index),
                program_id@,
            ) == Some(found@),
            None => program_address(
                tick_array_seeds(pool_key@, start_index),
                program_id@,
            ).is_none(),
        },
{
    let marker: Vec<u8> = vec![116u8, 105u8, 99u8, 107u8, 95u8, 97u8, 114u8, 114u8, 97u8, 121u8];
    assert(marker@ =~= tick_array_seed());
    let pool: Vec<u8> = slice_to_vec(pool_key.bytes.as_slice());
    let index: Vec<u8> = i32_to_be_bytes(start_index);
    let seeds: Vec<Vec<u8>> = vec![marker, pool, index];
    assert(seeds.deep_view() =~~= tick_array_seeds(pool_key@, start_index));
    try_find_program_address(&seeds, &program_id)
}

/// Get the address of the bitmap extension of a pool: the address that the
/// program derives from the marker `pool_tick_array_bitmap_extension` and the
/// pool's address. `None` where there is no such address.
pub fn get_bitmap_extension_address(pool_key: Address, program_id: Address) -> (r: Option<Address>)
    ensures
        match r {
            Some(found) => program_address(bitmap_extension_seeds(pool_key@), program_id@)
                == Some(found@),
            None => program_address(bitmap_extension_seeds(pool_key@), program_id@).is_none(),
        },
{
    let marker: Vec<u8> = vec![
        112u8, 111u8, 111u8, 108u8, 95u8, 116u8, 105u8, 99u8, 107u8, 95u8, 97u8, 114u8, 114u8,
        97u8, 121u8, 95u8, 98u8, 105u8, 116u8, 109u8, 97u8, 112u8, 95u8, 101u8, 120u8, 116u8,
        101u8, 110u8, 115u8, 105u8, 111u8, 110u8,
    ];
    assert(marker@ =~= bitmap_extension_seed());
    let pool: Vec<u8> = slice_to_vec(pool_key.bytes.as_slice());
    let seeds: Vec<Vec<u8>> = vec![marker, pool];
    assert(seeds.deep_view() =~~= bitmap_extension_seeds(pool_key@));
    try_find_program_address(&seeds, &program_id)
}

} // verus!
