//! Which tick array accounts a swap may need: their start indexes, found by
//! way of the pool's bitmap, and their addresses.

use std::collections::BTreeSet;
use vstd::prelude::*;
use crate::address::{Address, get_tick_array_address, program_address, tick_array_seeds};
use crate::pool::PoolState;
use crate::start_indexes::{
    insert_start,
    insert_starts,
    lemma_start_set_take,
    start_set,
    starts_in_order,
    strictly_rising,
};
use crate::tick::{TickUtils, array_start_index};
use crate::tick_array_bitmap::TickArrayBitmapExtension;

verus! {

/// A start index and the start indexes of up to `more` marked tick arrays
/// that follow it in the direction of the swap.
pub open spec fn guided_starts(
    pool_state: PoolState,
    extension: Option<TickArrayBitmapExtension>,
    zero_for_one: bool,
    first: i32,
    more: nat,
) -> Seq<i32>
    decreases more,
{
    if more == 0 {
        seq![first]
    } else {
        match pool_state.spec_next_initialized_tick_array_start_index(
            extension,
            first,
            zero_for_one,
        ) {
            Some(next) => seq![first] + guided_starts(
                pool_state,
                extension,
                zero_for_one,
                next,
                (more - 1) as nat,
            ),
            None => seq![first],
        }
    }
}

/// A start index moved by a number of tick arrays, but not beyond 32 bits.
pub open spec fn moved_start(start: i32, arrays: int, tick_spacing: u16) -> i32 {
    let moved = start + arrays * 60 * tick_spacing;
    if moved < i32::MIN {
        i32::MIN
    } else if moved > i32::MAX {
        i32::MAX
    } else {
        moved as i32
    }
}

/// The start index of the tick array of the current tick and of its `count`
/// neighbours in the direction of the swap.
pub open spec fn neighbour_starts(
    current_start: i32,
    tick_spacing: u16,
    zero_for_one: bool,
    count: nat,
) -> Seq<i32> {
    Seq::new(
        count + 1,
        |i: int|
            moved_start(
                current_start,
                if zero_for_one {
                    -i
                } else {
                    i
                },
                tick_spacing,
            ),
    )
}

/// The start indexes of the tick arrays that a swap in one direction may
/// need: the first marked tick array and up to ten that follow it; or,
/// where the bitmap marks none, the tick array of the current tick and its
/// ten neighbours in the direction of the swap.
pub open spec fn swap_tick_array_starts(
    pool_state: PoolState,
    extension: Option<TickArrayBitmapExtension>,
    zero_for_one: bool,
) -> Seq<i32> {
    match pool_state.spec_get_first_initialized_tick_array(extension, zero_for_one) {
        Some((_, first)) => guided_starts(pool_state, extension, zero_for_one, first, 10),
        None => neighbour_starts(
            array_start_index(
                pool_state.tick_current as int,
                pool_state.tick_spacing as int,
            ) as i32,
            pool_state.tick_spacing,
            zero_for_one,
            10,
        ),
    }
}

/// The addresses that can be derived for a list of start indexes, in the
/// order of the list.
pub open spec fn derived_addresses(starts: Seq<i32>, pool_key: Seq<u8>, program_id: Seq<u8>) -> Seq<
    Seq<u8>,
>
    decreases starts.len(),
{
    if starts.len() == 0 {
        Seq::empty()
    } else {
        let before = derived_addresses(starts.drop_last(), pool_key, program_id);
        match program_address(tick_array_seeds(pool_key, starts.last()), program_id) {
            Some(address) => before.push(address),
            None => before,
        }
    }
}

/// The bytes of each address of a list.
pub open spec fn address_views(addresses: Seq<Address>) -> Seq<Seq<u8>> {
    Seq::new(addresses.len(), |i: int| addresses[i]@)
}

/// A start index moved by a number of tick arrays, but not beyond 32 bits.
pub fn move_start(start: i32, arrays: i32, tick_spacing: u16) -> (r: i32)
    requires
        -16 <= arrays <= 16,
    ensures
        r == moved_start(start, arrays as int, tick_spacing),
{
    proof {
        assert(-16 * 60 * 65535 <= arrays * 60 * tick_spacing <= 16 * 60 * 65535)
            by (nonlinear_arith)
            requires
                -16 <= arrays <= 16,
                0 <= tick_spacing <= 65535,
        ;
        assert(arrays * 60 * tick_spacing == (arrays * 60) * tick_spacing) by (nonlinear_arith);
    }
    let moved: i64 = start as i64 + (arrays as i64 * 60) * (tick_spacing as i64);
    if moved < i32::MIN as i64 {
        i32::MIN
    } else if moved > i32::MAX as i64 {
        i32::MAX
    } else {
        moved as i32
    }
}

/// A start index and the start indexes of up to `more` marked tick arrays
/// that follow it in the direction of the swap.
pub fn collect_guided_starts(
    pool_state: &PoolState,
    bitmap_extension: &Option<TickArrayBitmapExtension>,
    zero_for_one: bool,
    first: i32,
    more: usize,
) -> (r: Vec<i32>)
    requires
        pool_state.tick_spacing > 0,
    ensures
        r@ == guided_starts(*pool_state, *bitmap_extension, zero_for_one, first, more as nat),
        r@.len() >= 1,
{
    let mut starts: Vec<i32> = Vec::new();
    starts.push(first);
    let mut current = first;
    let mut left: usize = more;
    let ghost goal = guided_starts(
        *pool_state,
        *bitmap_extension,
        zero_for_one,
        first,
        more as nat,
    );
    let mut done = false;
    while left > 0 && !done
        invariant
            pool_state.tick_spacing > 0,
            starts@.len() >= 1,
            current == starts@.last(),
            !done ==> goal == starts@.drop_last() + guided_starts(
                *pool_state,
                *bitmap_extension,
                zero_for_one,
                current,
                left as nat,
            ),
            done ==> goal == starts@,
        decreases left + (if done {
            0int
        } else {
            1int
        }),
    {
        match pool_state.next_initialized_tick_array_start_index(
            bitmap_extension,
            current,
            zero_for_one,
        ) {
            Some(next) => {
                let ghost before = starts@;
                starts.push(next);
                proof {
                    assert(starts@.drop_last() =~= before);
                    assert(before =~= before.drop_last() + seq![current]);
                    assert(before.drop_last() + (seq![current] + guided_starts(
                        *pool_state,
                        *bitmap_extension,
                        zero_for_one,
                        next,
                        (left - 1) as nat,
                    )) =~= before + guided_starts(
                        *pool_state,
                        *bitmap_extension,
                        zero_for_one,
                        next,
                        (left - 1) as nat,
                    ));
                }
                current = next;
                left -= 1;
            },
            None => {
                proof {
                    assert(starts@ =~= starts@.drop_last() + seq![current]);
                }
                done = true;
            },
        }
    }
    proof {
        if !done {
            assert(starts@ =~= starts@.drop_last() + seq![current]);
        }
    }
    starts
}

/// Get the start indexes of the tick arrays needed for a specific swap
/// direction.
pub fn get_swap_tick_array_start_indexes(
    pool_state: &PoolState,
    bitmap_extension: &Option<TickArrayBitmapExtension>,
    zero_for_one: bool,
) -> (r: Vec<i32>)
    requires
        pool_state.tick_spacing > 0,
        i32::MIN <= array_start_index(
            pool_state.tick_current as int,
            pool_state.tick_spacing as int,
        ),
    ensures
        r@ == swap_tick_array_starts(*pool_state, *bitmap_extension, zero_for_one),
        1 <= r@.len() <= 11,
{
    if let Some((_, first_start)) = pool_state.get_first_initialized_tick_array(
        bitmap_extension,
        zero_for_one,
    ) {
        let starts = collect_guided_starts(
            pool_state,
            bitmap_extension,
            zero_for_one,
            first_start,
            10,
        );
        proof {
            lemma_guided_starts_len(*pool_state, *bitmap_extension, zero_for_one, first_start, 10);
        }
        return starts;
    }
    let current_start_index = TickUtils::get_array_start_index(
        pool_state.tick_current,
        pool_state.tick_spacing,
    );
    let mut starts: Vec<i32> = Vec::new();
    let mut i: i32 = 0;
    while i <= 10
        invariant
            0 <= i <= 11,
            starts@.len() == i,
            forall|k: int|
                0 <= k < i ==> starts@[k] == moved_start(
                    current_start_index,
                    if zero_for_one {
                        -k
                    } else {
                        k
                    },
                    pool_state.tick_spacing,
                ),
        decreases 11 - i,
    {
        let arrays: i32 = if zero_for_one {
            -i
        } else {
            i
        };
        starts.push(move_start(current_start_index, arrays, pool_state.tick_spacing));
        i += 1;
    }
    assert(starts@ =~= neighbour_starts(
        current_start_index,
        pool_state.tick_spacing,
        zero_for_one,
        10,
    ));
    starts
}

/// A start index with up to `more` that follow it makes a list of one to
/// `more + 1` start indexes.
pub proof fn lemma_guided_starts_len(
    pool_state: PoolState,
    extension: Option<TickArrayBitmapExtension>,
    zero_for_one: bool,
    first: i32,
    more: nat,
)
    ensures
        1 <= guided_starts(pool_state, extension, zero_for_one, first, more).len() <= more + 1,
    decreases more,
{
    if more > 0 {
        match pool_state.spec_next_initialized_tick_array_start_index(
            extension,
            first,
            zero_for_one,
        ) {
            Some(next) => {
                lemma_guided_starts_len(
                    pool_state,
                    extension,
                    zero_for_one,
                    next,
                    (more - 1) as nat,
                );
            },
            None => {},
        }
    }
}

/// The addresses of the tick arrays of a list of start indexes, in the
/// order of the list. A start index for which no address can be derived is
/// left out.
pub fn derive_tick_array_addresses(starts: &Vec<i32>, pool_key: Address, program_id: Address) -> (r:
    Vec<Address>)
    ensures
        address_views(r@) == derived_addresses(starts@, pool_key@, program_id@),
{
    let mut addrs: Vec<Address> = Vec::new();
    let mut i: usize = 0;
    assert(address_views(addrs@) =~= derived_addresses(
        starts@.take(0),
        pool_key@,
        program_id@,
    ));
    while i < starts.len()
        invariant
            i <= starts@.len(),
            address_views(addrs@) == derived_addresses(
                starts@.take(i as int),
                pool_key@,
                program_id@,
            ),
        decreases starts@.len() - i,
    {
        let ghost before = addrs@;
        proof {
            assert(starts@.take(i + 1).drop_last() =~= starts@.take(i as int));
            assert(starts@.take(i + 1).last() == starts@[i as int]);
        }
        if let Some(address) = get_tick_array_address(pool_key, starts[i], program_id) {
            addrs.push(address);
            assert(address_views(addrs@) =~= address_views(before).push(address@));
        }
        i += 1;
    }
    assert(starts@.take(starts@.len() as int) =~= starts@);
    addrs
}

/// Get the tick arrays needed for a specific swap direction: the addresses
/// of the first tick array that the pool's bitmap marks and of up to ten
/// that follow it; or, where the bitmap marks none, of the tick array of
/// the current tick and of its ten neighbours in the direction.
pub fn get_swap_tick_arrays(
    pool_state: &PoolState,
    pool_key: Address,
    bitmap_extension: &Option<TickArrayBitmapExtension>,
    zero_for_one: bool,
    program_id: Address,
) -> (r: Vec<Address>)
    requires
        pool_state.tick_spacing > 0,
        i32::MIN <= array_start_index(
            pool_state.tick_current as int,
            pool_state.tick_spacing as int,
        ),
    ensures
        address_views(r@) == derived_addresses(
            swap_tick_array_starts(*pool_state, *bitmap_extension, zero_for_one),
            pool_key@,
            program_id@,
        ),
{
    let starts = get_swap_tick_array_start_indexes(pool_state, bitmap_extension, zero_for_one);
    derive_tick_array_addresses(&starts, pool_key, program_id)
}

/// The start indexes that the pool's bitmap leads to in one direction: the
/// first marked tick array and up to nine that follow it; none where the
/// bitmap marks none.
pub open spec fn direction_starts(
    pool_state: PoolState,
    extension: Option<TickArrayBitmapExtension>,
    zero_for_one: bool,
) -> Seq<i32> {
    match pool_state.spec_get_first_initialized_tick_array(extension, zero_for_one) {
        Some((_, first)) => guided_starts(pool_state, extension, zero_for_one, first, 9),
        None => Seq::empty(),
    }
}

/// The start indexes of all tick arrays that a swap in either direction may
/// need: those that the bitmap leads to in the two directions; or, where it
/// leads to none, the tick array of the current tick and its twelve
/// neighbours on either side.
pub open spec fn all_tick_array_starts(
    pool_state: PoolState,
    extension: Option<TickArrayBitmapExtension>,
) -> Set<i32> {
    let down = direction_starts(pool_state, extension, true);
    let up = direction_starts(pool_state, extension, false);
    let current = array_start_index(
        pool_state.tick_current as int,
        pool_state.tick_spacing as int,
    ) as i32;
    if down.len() + up.len() == 0 {
        start_set(neighbour_starts(current, pool_state.tick_spacing, true, 12)).union(
            start_set(neighbour_starts(current, pool_state.tick_spacing, false, 12)),
        )
    } else {
        start_set(down).union(start_set(up))
    }
}

/// Get the start indexes of all tick arrays needed for the simulation of a
/// swap in either direction, in rising order.
pub fn get_all_tick_array_start_indexes(
    pool_state: &PoolState,
    bitmap_extension: &Option<TickArrayBitmapExtension>,
) -> (r: Vec<i32>)
    requires
        pool_state.tick_spacing > 0,
        i32::MIN <= array_start_index(
            pool_state.tick_current as int,
            pool_state.tick_spacing as int,
        ),
    ensures
        strictly_rising(r@),
        start_set(r@) == all_tick_array_starts(*pool_state, *bitmap_extension),
{
    let mut start_indexes: BTreeSet<i32> = BTreeSet::new();
    let mut found_any = false;
    let ghost mut down: Seq<i32> = Seq::empty();
    assert(start_set(Seq::<i32>::empty()) =~= Set::empty());
    if let Some((_, start)) = pool_state.get_first_initialized_tick_array(bitmap_extension, true) {
        let found = collect_guided_starts(pool_state, bitmap_extension, true, start, 9);
        insert_starts(&mut start_indexes, &found);
        found_any = true;
        proof {
            down = found@;
        }
    }
    assert(down == direction_starts(*pool_state, *bitmap_extension, true));
    assert(start_indexes@ =~= start_set(down));
    if let Some((_, start)) = pool_state.get_first_initialized_tick_array(bitmap_extension, false) {
        let found = collect_guided_starts(pool_state, bitmap_extension, false, start, 9);
        insert_starts(&mut start_indexes, &found);
        found_any = true;
    }
    if found_any {
        assert(start_indexes@ =~= all_tick_array_starts(*pool_state, *bitmap_extension));
        return starts_in_order(&start_indexes);
    }
    let current_start_index = TickUtils::get_array_start_index(
        pool_state.tick_current,
        pool_state.tick_spacing,
    );
    let ghost spacing = pool_state.tick_spacing;
    let mut i: i32 = 0;
    assert(start_set(neighbour_starts(current_start_index, spacing, true, 12).take(0))
        =~= Set::empty());
    assert(start_set(neighbour_starts(current_start_index, spacing, false, 12).take(0))
        =~= Set::empty());
    while i <= 12
        invariant
            0 <= i <= 13,
            spacing == pool_state.tick_spacing,
            start_indexes@ =~= start_set(
                neighbour_starts(current_start_index, spacing, true, 12).take(i as int),
            ).union(
                start_set(neighbour_starts(current_start_index, spacing, false, 12).take(i as int)),
            ),
        decreases 13 - i,
    {
        let below = move_start(current_start_index, -i, pool_state.tick_spacing);
        let above = move_start(current_start_index, i, pool_state.tick_spacing);
        insert_start(&mut start_indexes, below);
        insert_start(&mut start_indexes, above);
        proof {
            let downs = neighbour_starts(current_start_index, spacing, true, 12);
            let ups = neighbour_starts(current_start_index, spacing, false, 12);
            lemma_start_set_take(downs, i as int);
            lemma_start_set_take(ups, i as int);
            assert(downs[i as int] == below);
            assert(ups[i as int] == above);
            assert(start_indexes@ =~= start_set(downs.take(i + 1)).union(
                start_set(ups.take(i + 1)),
            ));
        }
        i += 1;
    }
    proof {
        let downs = neighbour_starts(current_start_index, spacing, true, 12);
        let ups = neighbour_starts(current_start_index, spacing, false, 12);
        assert(downs.take(13) =~= downs);
        assert(ups.take(13) =~= ups);
    }
    starts_in_order(&start_indexes)
}

/// Get the addresses of all tick arrays needed for the simulation of a swap
/// in either direction, in the rising order of their start indexes.
pub fn get_all_tick_array_addresses(
    pool_state: &PoolState,
    pool_key: Address,
    bitmap_extension: &Option<TickArrayBitmapExtension>,
    program_id: Address,
) -> (r: Vec<Address>)
    requires
        pool_state.tick_spacing > 0,
        i32::MIN <= array_start_index(
            pool_state.tick_current as int,
            pool_state.tick_spacing as int,
        ),
    ensures
        exists|starts: Seq<i32>|
            {
                &&& strictly_rising(starts)
                &&& start_set(starts) == all_tick_array_starts(*pool_state, *bitmap_extension)
                &&& address_views(r@) == #[trigger] derived_addresses(
                    starts,
                    pool_key@,
                    program_id@,
                )
            },
{
    let starts = get_all_tick_array_start_indexes(pool_state, bitmap_extension);
    derive_tick_array_addresses(&starts, pool_key, program_id)
}

} // verus!
