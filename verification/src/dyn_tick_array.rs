//! The dynamic layout of a tick array: a header that says, slot by slot,
//! where in a growing list of tick states the slot's state stands.

use vstd::prelude::*;
use crate::address::Address;
use crate::error::ErrorCode;
use crate::tick::{
    TickState,
    TickUtils,
    TICK_ARRAY_SIZE,
    array_start_index,
    slot_of_tick,
    ticks_in_array,
};
use crate::tick_array::{
    first_initialized_slot,
    first_set_at_or_above,
    last_set_at_or_below,
    next_initialized_slot,
};

verus! {

/// How many of the first `n` slots have a tick state.
pub open spec fn allocated_count(offsets: Seq<u8>, n: int) -> int
    decreases n,
{
    if n <= 0 {
        0
    } else {
        allocated_count(offsets, n - 1) + (if offsets[n - 1] != 0 {
            1int
        } else {
            0int
        })
    }
}

/// Which slots hold an initialized tick: those that have a tick state in the
/// list, with liquidity.
pub open spec fn dyn_initialized_flags(offsets: Seq<u8>, ticks: Seq<TickState>) -> Seq<bool> {
    Seq::new(
        60,
        |k: int|
            offsets[k] > 0 && offsets[k] - 1 < ticks.len() && ticks[offsets[k]
                - 1].spec_is_initialized(),
    )
}

/// No more slots are counted than there are, and fewer where one is free.
pub proof fn lemma_allocated_count_bound(offsets: Seq<u8>, n: int)
    requires
        0 <= n <= offsets.len(),
    ensures
        0 <= allocated_count(offsets, n) <= n,
        forall|k: int| 0 <= k < n && offsets[k] == 0 ==> allocated_count(offsets, n) < n,
    decreases n,
{
    if n > 0 {
        lemma_allocated_count_bound(offsets, n - 1);
    }
}

/// Giving a free slot a tick state counts one more.
pub proof fn lemma_allocated_count_update(offsets: Seq<u8>, n: int, slot: int, value: u8)
    requires
        0 <= n <= offsets.len(),
        0 <= slot < offsets.len(),
        offsets[slot] == 0,
        value != 0,
    ensures
        allocated_count(offsets.update(slot, value), n) == allocated_count(offsets, n) + (if slot
            < n {
            1int
        } else {
            0int
        }),
    decreases n,
{
    if n > 0 {
        lemma_allocated_count_update(offsets, n - 1, slot, value);
    }
}

/// The header of a tick array in the dynamic layout. The tick states follow
/// it in the account's data, in the order in which they were first used.
#[derive(Clone, Copy, Debug, PartialEq, Eq)]
pub struct DynTickArrayState {
    pub pool_id: Address,
    pub start_tick_index: i32,
    pub padding_0: [u8; 4],
    /// For each slot, zero where the slot has no tick state, else one more
    /// than the position of its tick state in the list.
    pub tick_offset_index: [u8; 60],
    /// How many tick states the list holds.
    pub alloc_tick_count: u8,
    /// How many ticks are initialized.
    pub initialized_tick_count: u8,
    pub padding_1: [u8; 2],
    /// The epoch of the last update.
    pub recent_epoch: u64,
    pub padding_2: [u8; 96],
}

impl Default for DynTickArrayState {
    fn default() -> (r: DynTickArrayState)
        ensures
            r.start_tick_index == 0,
            r.alloc_tick_count == 0,
            r.initialized_tick_count == 0,
            r.recent_epoch == 0,
            r.pool_id@ == Seq::new(32, |i: int| 0u8),
            forall|k: int| 0 <= k < 60 ==> #[trigger] r.tick_offset_index[k] == 0,
            r.padding_0@ == Seq::new(4, |i: int| 0u8),
            r.padding_1@ == Seq::new(2, |i: int| 0u8),
            r.padding_2@ == Seq::new(96, |i: int| 0u8),
            r.wf(),
    {
        let r = DynTickArrayState {
            pool_id: Address::default(),
            start_tick_index: 0,
            padding_0: [0u8; 4],
            tick_offset_index: [0u8; 60],
            alloc_tick_count: 0,
            initialized_tick_count: 0,
            padding_1: [0u8; 2],
            recent_epoch: 0,
            padding_2: [0u8; 96],
        };
        proof {
            lemma_no_slot_allocated(r.tick_offset_index@, 60);
            assert(r.padding_0@ =~= Seq::new(4, |i: int| 0u8));
            assert(r.padding_1@ =~= Seq::new(2, |i: int| 0u8));
            assert(r.padding_2@ =~= Seq::new(96, |i: int| 0u8));
        }
        r
    }
}

/// Where every slot is free, none is counted.
pub proof fn lemma_no_slot_allocated(offsets: Seq<u8>, n: int)
    requires
        0 <= n <= offsets.len(),
        forall|k: int| 0 <= k < n ==> offsets[k] == 0,
    ensures
        allocated_count(offsets, n) == 0,
    decreases n,
{
    if n > 0 {
        lemma_no_slot_allocated(offsets, n - 1);
    }
}

impl DynTickArrayState {
    /// The tag that opens an account in the dynamic layout.
    pub const DISCRIMINATOR: [u8; 8] = [106, 139, 152, 36, 117, 153, 184, 56];

    /// The length of the tag and the header.
    pub const HEADER_LEN: usize = 216;

    /// The length of a new account: the header and one tick state.
    pub const FIRST_CREATE_LEN: usize = 384;

    /// The header's invariant: the count of tick states is the number of
    /// slots that have one, no slot points beyond the list, no two slots
    /// share a tick state, and every tick state of the list belongs to a
    /// slot.
    pub open spec fn wf(&self) -> bool {
        &&& self.alloc_tick_count == allocated_count(self.tick_offset_index@, 60)
        &&& forall|k: int|
            0 <= k < 60 ==> #[trigger] self.tick_offset_index[k] <= self.alloc_tick_count
        &&& forall|j: int, k: int|
            0 <= j < 60 && 0 <= k < 60 && j != k && self.tick_offset_index[j] != 0
                ==> #[trigger] self.tick_offset_index[j] != #[trigger] self.tick_offset_index[k]
        &&& forall|v: int|
            1 <= v <= self.alloc_tick_count ==> self.slot_of_position(v) is Some
    }

    /// The slot whose tick state stands at position `v - 1` of the list, if
    /// there is one.
    pub open spec fn slot_of_position(&self, v: int) -> Option<int> {
        if exists|k: int| 0 <= k < 60 && #[trigger] self.tick_offset_index[k] == v {
            Some(choose|k: int| 0 <= k < 60 && #[trigger] self.tick_offset_index[k] == v)
        } else {
            None
        }
    }

    /// In a well-formed header the count of tick states is the largest
    /// entry of the slots: no entry is larger, and where there is a tick
    /// state at all, some slot has the count as its entry.
    pub proof fn lemma_alloc_is_max(&self)
        requires
            self.wf(),
        ensures
            forall|k: int|
                0 <= k < 60 ==> #[trigger] self.tick_offset_index[k] <= self.alloc_tick_count,
            self.alloc_tick_count > 0 ==> exists|k: int|
                0 <= k < 60 && #[trigger] self.tick_offset_index[k] == self.alloc_tick_count,
            self.alloc_tick_count <= 60,
    {
        lemma_allocated_count_bound(self.tick_offset_index@, 60);
        if self.alloc_tick_count > 0 {
            assert(self.slot_of_position(self.alloc_tick_count as int) is Some);
        }
    }

    /// Which slots hold an initialized tick, given the list of tick states.
    pub open spec fn initialized_flags(&self, ticks: Seq<TickState>) -> Seq<bool> {
        dyn_initialized_flags(self.tick_offset_index@, ticks)
    }

    /// The length of the account's data: the header and the tick states.
    pub fn all_data_len(&self) -> (r: usize)
        ensures
            r == 216 + self.alloc_tick_count * 168,
    {
        Self::HEADER_LEN + self.alloc_tick_count as usize * TickState::LEN
    }

    /// Sets the array's start index and pool.
    pub fn initialize(
        &mut self,
        start_index: i32,
        tick_spacing: u16,
        pool_key: Address,
        recent_epoch: u64,
    ) -> (r: Result<(), ErrorCode>)
        ensures
            r.is_ok(),
            *final(self) == (DynTickArrayState {
                start_tick_index: start_index,
                pool_id: pool_key,
                recent_epoch,
                ..*old(self)
            }),
    {
        self.start_tick_index = start_index;
        self.pool_id = pool_key;
        self.recent_epoch = recent_epoch;
        Ok(())
    }

    /// Gives the slot of `tick_index` the next tick state of the list and
    /// returns that state's position. `InvalidTickIndex` where the tick
    /// belongs to another array or its slot already has a tick state;
    /// `InvalidTickArray` where the count of tick states is at its limit,
    /// which no well-formed header with a free slot reaches.
    pub fn use_one_tick(&mut self, tick_index: i32, tick_spacing: u16) -> (r: Result<u8, ErrorCode>)
        requires
            tick_spacing > 0,
        ensures
            old(self).wf() ==> final(self).wf(),
            ({
                let slot = slot_of_tick(
                    old(self).start_tick_index as int,
                    tick_index as int,
                    tick_spacing as int,
                );
                let usable = array_start_index(tick_index as int, tick_spacing as int) == old(
                    self,
                ).start_tick_index && old(self).tick_offset_index[slot] == 0;
                &&& usable && old(self).alloc_tick_count < 255 <==> r.is_ok()
                &&& !usable ==> r == Err::<u8, ErrorCode>(ErrorCode::InvalidTickIndex)
                &&& usable && old(self).alloc_tick_count == 255 ==> r == Err::<u8, ErrorCode>(
                    ErrorCode::InvalidTickArray,
                )
                &&& usable && old(self).wf() ==> r.is_ok()
                &&& r.is_err() ==> *final(self) == *old(self)
                &&& r.is_ok() ==> {
                    &&& 0 <= slot < 60
                    &&& r.unwrap() == old(self).alloc_tick_count
                    &&& *final(self) == (DynTickArrayState {
                        alloc_tick_count: (old(self).alloc_tick_count + 1) as u8,
                        tick_offset_index: final(self).tick_offset_index,
                        ..*old(self)
                    })
                    &&& final(self).tick_offset_index@ == old(self).tick_offset_index@.update(
                        slot,
                        (old(self).alloc_tick_count + 1) as u8,
                    )
                }
            }),
    {
        let offset = match TickUtils::get_tick_offset_in_tick_array(
            self.start_tick_index,
            tick_index,
            tick_spacing,
        ) {
            Ok(offset) => offset,
            Err(_) => {
                return Err(ErrorCode::InvalidTickIndex);
            },
        };
        if self.tick_offset_index[offset] != 0 {
            return Err(ErrorCode::InvalidTickIndex);
        }
        proof {
            lemma_allocated_count_bound(self.tick_offset_index@, 60);
        }
        if self.alloc_tick_count == u8::MAX {
            return Err(ErrorCode::InvalidTickArray);
        }
        proof {
            lemma_allocated_count_update(
                self.tick_offset_index@,
                60,
                offset as int,
                (self.alloc_tick_count + 1) as u8,
            );
        }
        self.alloc_tick_count += 1;
        self.tick_offset_index[offset] = self.alloc_tick_count;
        proof {
            if old(self).wf() {
                assert forall|v: int| 1 <= v <= self.alloc_tick_count implies self.slot_of_position(
                    v,
                ) is Some by {
                    if v == self.alloc_tick_count {
                        assert(self.tick_offset_index[offset as int] == v);
                    } else {
                        assert(old(self).slot_of_position(v) is Some);
                        let k = choose|k: int|
                            0 <= k < 60 && #[trigger] old(self).tick_offset_index[k] == v;
                        assert(self.tick_offset_index[k] == v);
                    }
                }
            }
        }
        Ok(self.alloc_tick_count - 1)
    }

    /// The position in the list of the tick state of `tick_index`.
    /// `InvalidTickIndex` where the tick belongs to another array or its slot
    /// has no tick state.
    pub fn get_tick_index_in_array(&self, tick_index: i32, tick_spacing: u16) -> (r: Result<
        u8,
        ErrorCode,
    >)
        requires
            tick_spacing > 0,
        ensures
            ({
                let slot = slot_of_tick(
                    self.start_tick_index as int,
                    tick_index as int,
                    tick_spacing as int,
                );
                let found = array_start_index(tick_index as int, tick_spacing as int)
                    == self.start_tick_index && self.tick_offset_index[slot] > 0;
                &&& found <==> r.is_ok()
                &&& r.is_err() ==> r == Err::<u8, ErrorCode>(ErrorCode::InvalidTickIndex)
                &&& r.is_ok() ==> 0 <= slot < 60 && r.unwrap() == self.tick_offset_index[slot] - 1
            }),
    {
        let offset = match TickUtils::get_tick_offset_in_tick_array(
            self.start_tick_index,
            tick_index,
            tick_spacing,
        ) {
            Ok(offset) => offset,
            Err(_) => {
                return Err(ErrorCode::InvalidTickIndex);
            },
        };
        let tick_state_index = self.tick_offset_index[offset];
        if tick_state_index == 0 {
            return Err(ErrorCode::InvalidTickIndex);
        }
        Ok(tick_state_index - 1)
    }

    /// Whether slot `slot` holds an initialized tick.
    pub fn slot_is_initialized(&self, tick_state_slice: &[TickState], slot: usize) -> (r: bool)
        requires
            slot < 60,
        ensures
            r == self.initialized_flags(tick_state_slice@)[slot as int],
    {
        let position = self.tick_offset_index[slot];
        position > 0 && (position as usize - 1) < tick_state_slice.len() && tick_state_slice[(
        position as usize - 1)].is_initialized()
    }

    /// The first initialized slot in the direction of the swap.
    pub fn first_initialized_slot(&self, tick_state_slice: &[TickState], zero_for_one: bool) -> (r:
        Option<usize>)
        ensures
            match r {
                Some(k) => first_initialized_slot(
                    self.initialized_flags(tick_state_slice@),
                    zero_for_one,
                ) == Some(k as int) && k < 60 && self.initialized_flags(tick_state_slice@)[k as int],
                None => first_initialized_slot(
                    self.initialized_flags(tick_state_slice@),
                    zero_for_one,
                ).is_none(),
            },
    {
        let ghost flags = self.initialized_flags(tick_state_slice@);
        if zero_for_one {
            let mut i: usize = 60;
            while i > 0
                invariant
                    i <= 60,
                    zero_for_one,
                    flags == self.initialized_flags(tick_state_slice@),
                    last_set_at_or_below(flags, 59) == last_set_at_or_below(flags, i - 1),
                decreases i,
            {
                i -= 1;
                if self.slot_is_initialized(tick_state_slice, i) {
                    return Some(i);
                }
            }
            None
        } else {
            let mut i: usize = 0;
            while i < 60
                invariant
                    i <= 60,
                    !zero_for_one,
                    flags == self.initialized_flags(tick_state_slice@),
                    first_set_at_or_above(flags, 0) == first_set_at_or_above(flags, i as int),
                decreases 60 - i,
            {
                if self.slot_is_initialized(tick_state_slice, i) {
                    return Some(i);
                }
                i += 1;
            }
            None
        }
    }

    /// The next initialized slot from `current_tick_index` in the direction of
    /// the swap.
    pub fn next_initialized_slot(
        &self,
        tick_state_slice: &[TickState],
        current_tick_index: i32,
        tick_spacing: u16,
        zero_for_one: bool,
    ) -> (r: Option<usize>)
        requires
            tick_spacing > 0,
        ensures
            match r {
                Some(k) => next_initialized_slot(
                    self.initialized_flags(tick_state_slice@),
                    self.start_tick_index as int,
                    current_tick_index as int,
                    tick_spacing as int,
                    zero_for_one,
                ) == Some(k as int) && k < 60 && self.initialized_flags(tick_state_slice@)[k as int],
                None => next_initialized_slot(
                    self.initialized_flags(tick_state_slice@),
                    self.start_tick_index as int,
                    current_tick_index as int,
                    tick_spacing as int,
                    zero_for_one,
                ).is_none(),
            },
    {
        let ghost flags = self.initialized_flags(tick_state_slice@);
        let offset = match TickUtils::get_tick_offset_in_tick_array(
            self.start_tick_index,
            current_tick_index,
            tick_spacing,
        ) {
            Ok(offset) => offset,
            Err(_) => {
                return None;
            },
        };
        if zero_for_one {
            let mut i: usize = offset + 1;
            while i > 0
                invariant
                    i <= offset + 1,
                    offset < 60,
                    zero_for_one,
                    array_start_index(current_tick_index as int, tick_spacing as int)
                        == self.start_tick_index,
                    offset == slot_of_tick(
                        self.start_tick_index as int,
                        current_tick_index as int,
                        tick_spacing as int,
                    ),
                    flags == self.initialized_flags(tick_state_slice@),
                    last_set_at_or_below(flags, offset as int) == last_set_at_or_below(
                        flags,
                        i - 1,
                    ),
                decreases i,
            {
                i -= 1;
                if self.slot_is_initialized(tick_state_slice, i) {
                    return Some(i);
                }
            }
            None
        } else {
            let mut i: usize = offset + 1;
            while i < 60
                invariant
                    offset + 1 <= i <= 60,
                    !zero_for_one,
                    array_start_index(current_tick_index as int, tick_spacing as int)
                        == self.start_tick_index,
                    offset == slot_of_tick(
                        self.start_tick_index as int,
                        current_tick_index as int,
                        tick_spacing as int,
                    ),
                    flags == self.initialized_flags(tick_state_slice@),
                    first_set_at_or_above(flags, offset + 1) == first_set_at_or_above(
                        flags,
                        i as int,
                    ),
                decreases 60 - i,
            {
                if self.slot_is_initialized(tick_state_slice, i) {
                    return Some(i);
                }
                i += 1;
            }
            None
        }
    }

    /// The position in the list of the next initialized tick from
    /// `current_tick_index` in the direction of the swap, if this array holds
    /// one.
    pub fn next_initialized_tick_index(
        &self,
        tick_state_slice: &[TickState],
        current_tick_index: i32,
        tick_spacing: u16,
        zero_for_one: bool,
    ) -> (r: Result<Option<u8>, ErrorCode>)
        requires
            tick_spacing > 0,
        ensures
            r.is_ok(),
            ({
                let slot = next_initialized_slot(
                    self.initialized_flags(tick_state_slice@),
                    self.start_tick_index as int,
                    current_tick_index as int,
                    tick_spacing as int,
                    zero_for_one,
                );
                match r.unwrap() {
                    Some(position) => slot.is_some() && 0 <= slot.unwrap() < 60 && position
                        == self.tick_offset_index[slot.unwrap()] - 1 && position
                        < tick_state_slice@.len(),
                    None => slot.is_none(),
                }
            }),
    {
        match self.next_initialized_slot(
            tick_state_slice,
            current_tick_index,
            tick_spacing,
            zero_for_one,
        ) {
            Some(slot) => Ok(Some(self.tick_offset_index[slot] - 1)),
            None => Ok(None),
        }
    }

    /// The position in the list of the first initialized tick in the
    /// direction of the swap, or `InvalidTickArray` where the array holds
    /// none.
    pub fn first_initialized_tick_index(
        &self,
        tick_state_slice: &[TickState],
        zero_for_one: bool,
    ) -> (r: Result<u8, ErrorCode>)
        ensures
            ({
                let slot = first_initialized_slot(
                    self.initialized_flags(tick_state_slice@),
                    zero_for_one,
                );
                &&& slot.is_some() <==> r.is_ok()
                &&& r.is_err() ==> r == Err::<u8, ErrorCode>(ErrorCode::InvalidTickArray)
                &&& r.is_ok() ==> 0 <= slot.unwrap() < 60 && r.unwrap()
                    == self.tick_offset_index[slot.unwrap()] - 1 && r.unwrap()
                    < tick_state_slice@.len()
            }),
    {
        match self.first_initialized_slot(tick_state_slice, zero_for_one) {
            Some(slot) => Ok(self.tick_offset_index[slot] - 1),
            None => Err(ErrorCode::InvalidTickArray),
        }
    }

    /// The start index of the neighbouring array in the direction of the
    /// swap, which must fit 32 bits.
    pub fn next_tick_arrary_start_index(&self, tick_spacing: u16, zero_for_one: bool) -> (r: i32)
        requires
            zero_for_one ==> i32::MIN <= self.start_tick_index - ticks_in_array(
                tick_spacing as int,
            ),
            !zero_for_one ==> self.start_tick_index + ticks_in_array(tick_spacing as int)
                <= i32::MAX,
        ensures
            r == (if zero_for_one {
                self.start_tick_index - ticks_in_array(tick_spacing as int)
            } else {
                self.start_tick_index + ticks_in_array(tick_spacing as int)
            }),
    {
        let per_array: i32 = TICK_ARRAY_SIZE * (tick_spacing as i32);
        if zero_for_one {
            self.start_tick_index - per_array
        } else {
            self.start_tick_index + per_array
        }
    }
}

} // verus!
