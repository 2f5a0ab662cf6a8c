//! The fixed layout of a tick array: sixty tick states, one per slot, and the
//! search for the next initialized slot that both layouts share.

use vstd::prelude::*;
use crate::address::Address;
use crate::error::ErrorCode;
use crate::tick::{
    TickState,
    TickUtils,
    TICK_ARRAY_SIZE,
    array_start_index,
    slot_of_tick,
    ticks_in_array,
};

verus! {

/// The greatest slot at or below `from` whose flag is set.
pub open spec fn last_set_at_or_below(flags: Seq<bool>, from: int) -> Option<int>
    decreases from + 1,
{
    if from < 0 || from >= flags.len() {
        None
    } else if flags[from] {
        Some(from)
    } else {
        last_set_at_or_below(flags, from - 1)
    }
}

/// The least slot at or above `from` whose flag is set.
pub open spec fn first_set_at_or_above(flags: Seq<bool>, from: int) -> Option<int>
    decreases flags.len() - from,
{
    if from < 0 || from >= flags.len() {
        None
    } else if flags[from] {
        Some(from)
    } else {
        first_set_at_or_above(flags, from + 1)
    }
}

/// The first initialized slot in the direction of the swap, over the whole
/// array: the rightmost one where the price falls, the leftmost one where it
/// rises.
pub open spec fn first_initialized_slot(flags: Seq<bool>, zero_for_one: bool) -> Option<int> {
    if zero_for_one {
        last_set_at_or_below(flags, flags.len() - 1)
    } else {
        first_set_at_or_above(flags, 0)
    }
}

/// The next initialized slot from `current_tick` in the direction of the
/// swap: at or below the tick's slot where the price falls, above it where
/// the price rises. `None` where the tick belongs to another array.
pub open spec fn next_initialized_slot(
    flags: Seq<bool>,
    start: int,
    current_tick: int,
    tick_spacing: int,
    zero_for_one: bool,
) -> Option<int> {
    if array_start_index(current_tick, tick_spacing) != start {
        None
    } else if zero_for_one {
        last_set_at_or_below(flags, slot_of_tick(start, current_tick, tick_spacing))
    } else {
        first_set_at_or_above(flags, slot_of_tick(start, current_tick, tick_spacing) + 1)
    }
}

/// What the downward search finds is a set slot at or below the start, with
/// no set slot between the two.
pub proof fn lemma_last_set_at_or_below(flags: Seq<bool>, from: int)
    requires
        from < flags.len(),
    ensures
        match last_set_at_or_below(flags, from) {
            Some(k) => 0 <= k <= from && flags[k] && forall|j: int| k < j <= from ==> !flags[j],
            None => forall|j: int| 0 <= j <= from ==> !flags[j],
        },
    decreases from + 1,
{
    if from >= 0 && !flags[from] {
        lemma_last_set_at_or_below(flags, from - 1);
    }
}

/// What the upward search finds is a set slot at or above the start, with no
/// set slot between the two.
pub proof fn lemma_first_set_at_or_above(flags: Seq<bool>, from: int)
    requires
        0 <= from,
    ensures
        match first_set_at_or_above(flags, from) {
            Some(k) => from <= k < flags.len() && flags[k] && forall|j: int|
                from <= j < k ==> !flags[j],
            None => forall|j: int| from <= j < flags.len() ==> !flags[j],
        },
    decreases flags.len() - from,
{
    if from < flags.len() && !flags[from] {
        lemma_first_set_at_or_above(flags, from + 1);
    }
}

/// A tick array in the fixed layout.
#[derive(Clone, Copy, Debug, PartialEq, Eq)]
pub struct TickArrayState {
    pub pool_id: Address,
    pub start_tick_index: i32,
    pub ticks: [TickState; 60],
    pub initialized_tick_count: u8,
    /// The epoch of the last update.
    pub recent_epoch: u64,
    pub padding: [u8; 107],
}

impl Default for TickArrayState {
    fn default() -> (r: TickArrayState)
        ensures
            r.start_tick_index == 0,
            r.initialized_tick_count == 0,
            r.recent_epoch == 0,
            r.pool_id@ == Seq::new(32, |i: int| 0u8),
            forall|k: int| 0 <= k < 60 ==> (#[trigger] r.ticks[k]).is_zero(),
            r.padding@ == Seq::new(107, |i: int| 0u8),
    {
        let r = TickArrayState {
            pool_id: Address::default(),
            start_tick_index: 0,
            ticks: [TickState::default(); 60],
            initialized_tick_count: 0,
            recent_epoch: 0,
            padding: [0u8; 107],
        };
        assert(r.padding@ =~= Seq::new(107, |i: int| 0u8));
        r
    }
}

impl TickArrayState {
    /// The tag that opens an account in the fixed layout.
    pub const DISCRIMINATOR: [u8; 8] = [192, 155, 85, 205, 49, 249, 129, 42];

    /// The length of an account in the fixed layout.
    pub const LEN: usize = 10240;

    /// Which slots hold an initialized tick.
    pub open spec fn initialized_flags(&self) -> Seq<bool> {
        Seq::new(60, |k: int| self.ticks[k].spec_is_initialized())
    }

    /// Sets the array's start index and pool.
    pub fn initialize(
        &mut self,
        start_index: i32,
        tick_spacing: u16,
        pool_key: Address,
        recent_epoch: u64,
    ) -> (r: Result<(), ErrorCode>)
        ensures
            r.is_ok(),
            *final(self) == (TickArrayState {
                start_tick_index: start_index,
                pool_id: pool_key,
                recent_epoch,
                ..*old(self)
            }),
    {
        self.start_tick_index = start_index;
        self.pool_id = pool_key;
        self.recent_epoch = recent_epoch;
        Ok(())
    }

    /// Counts one more, or one less, initialized tick. `CalculateOverflow`
    /// where the count would leave `0..=255`.
    pub fn update_initialized_tick_count(&mut self, add: bool) -> (r: Result<(), ErrorCode>)
        ensures
            add && old(self).initialized_tick_count < 255 ==> r.is_ok() && *final(self) == (
            TickArrayState {
                initialized_tick_count: (old(self).initialized_tick_count + 1) as u8,
                ..*old(self)
            }),
            !add && old(self).initialized_tick_count > 0 ==> r.is_ok() && *final(self) == (
            TickArrayState {
                initialized_tick_count: (old(self).initialized_tick_count - 1) as u8,
                ..*old(self)
            }),
            (add && old(self).initialized_tick_count == 255) || (!add && old(self).initialized_tick_count == 0) ==> r == Err::<(), ErrorCode>(
                ErrorCode::CalculateOverflow,
            ) && *final(self) == *old(self),
    {
        if add {
            if self.initialized_tick_count == u8::MAX {
                return Err(ErrorCode::CalculateOverflow);
            }
            self.initialized_tick_count += 1;
        } else {
            if self.initialized_tick_count == 0 {
                return Err(ErrorCode::CalculateOverflow);
            }
            self.initialized_tick_count -= 1;
        }
        Ok(())
    }

    /// The slot of `tick_index`, or `InvalidTickArray` where the tick belongs
    /// to another array.
    pub fn get_tick_offset_in_array(&self, tick_index: i32, tick_spacing: u16) -> (r: Result<
        usize,
        ErrorCode,
    >)
        requires
            tick_spacing > 0,
        ensures
            array_start_index(tick_index as int, tick_spacing as int) == self.start_tick_index
                <==> r.is_ok(),
            r.is_ok() ==> r.unwrap() == slot_of_tick(
                self.start_tick_index as int,
                tick_index as int,
                tick_spacing as int,
            ) && r.unwrap() < 60,
            r.is_err() ==> r == Err::<usize, ErrorCode>(ErrorCode::InvalidTickArray),
    {
        TickUtils::get_tick_offset_in_tick_array(self.start_tick_index, tick_index, tick_spacing)
    }

    /// The state of `tick_index`, to read or to change.
    pub fn get_tick_state_mut(&mut self, tick_index: i32, tick_spacing: u16) -> (r: Result<
        &mut TickState,
        ErrorCode,
    >)
        requires
            tick_spacing > 0,
        ensures
            array_start_index(tick_index as int, tick_spacing as int) == old(self).start_tick_index <==> r.is_ok(),
            r.is_err() ==> r.unwrap_err() == ErrorCode::InvalidTickArray && *final(self) == *old(self),
            r.is_ok() ==> ({
                let slot = slot_of_tick(
                    old(self).start_tick_index as int,
                    tick_index as int,
                    tick_spacing as int,
                );
                &&& 0 <= slot < 60
                &&& *r.unwrap() == old(self).ticks[slot]
                &&& *final(self) == (TickArrayState {
                    ticks: final(self).ticks,
                    ..*old(self)
                })
                &&& final(self).ticks@ == old(self).ticks@.update(slot, *final(r.unwrap()))
            }),
    {
        match self.get_tick_offset_in_array(tick_index, tick_spacing) {
            Ok(offset) => Ok(&mut self.ticks[offset]),
            Err(e) => Err(e),
        }
    }

    /// Replaces the state of `tick_index` and records the epoch.
    pub fn update_tick_state(
        &mut self,
        tick_index: i32,
        tick_spacing: u16,
        tick_state: &TickState,
        recent_epoch: u64,
    ) -> (r: Result<(), ErrorCode>)
        requires
            tick_spacing > 0,
        ensures
            array_start_index(tick_index as int, tick_spacing as int) == old(self).start_tick_index <==> r.is_ok(),
            r.is_err() ==> r == Err::<(), ErrorCode>(ErrorCode::InvalidTickArray) && *final(self)
                == *old(self),
            r.is_ok() ==> ({
                let slot = slot_of_tick(
                    old(self).start_tick_index as int,
                    tick_index as int,
                    tick_spacing as int,
                );
                &&& 0 <= slot < 60
                &&& *final(self) == (TickArrayState {
                    ticks: final(self).ticks,
                    recent_epoch,
                    ..*old(self)
                })
                &&& final(self).ticks@ == old(self).ticks@.update(slot, *tick_state)
            }),
    {
        let offset = self.get_tick_offset_in_array(tick_index, tick_spacing)?;
        self.ticks[offset] = *tick_state;
        self.recent_epoch = recent_epoch;
        Ok(())
    }

    /// The first initialized slot in the direction of the swap.
    pub fn first_initialized_slot(&self, zero_for_one: bool) -> (r: Option<usize>)
        ensures
            match r {
                Some(k) => first_initialized_slot(self.initialized_flags(), zero_for_one) == Some(
                    k as int,
                ) && k < 60,
                None => first_initialized_slot(self.initialized_flags(), zero_for_one).is_none(),
            },
    {
        let ghost flags = self.initialized_flags();
        if zero_for_one {
            let mut i: usize = 60;
            while i > 0
                invariant
                    i <= 60,
                    zero_for_one,
                    flags == self.initialized_flags(),
                    last_set_at_or_below(flags, 59) == last_set_at_or_below(flags, i - 1),
                decreases i,
            {
                i -= 1;
                assert(flags[i as int] == self.ticks[i as int].spec_is_initialized());
                if self.ticks[i].is_initialized() {
                    return Some(i);
                }
            }
            None
        } else {
            let mut i: usize = 0;
            while i < 60
                invariant
                    i <= 60,
                    !zero_for_one,
                    flags == self.initialized_flags(),
                    first_set_at_or_above(flags, 0) == first_set_at_or_above(flags, i as int),
                decreases 60 - i,
            {
                assert(flags[i as int] == self.ticks[i as int].spec_is_initialized());
                if self.ticks[i].is_initialized() {
                    return Some(i);
                }
                i += 1;
            }
            None
        }
    }

    /// The next initialized slot from `current_tick_index` in the direction of
    /// the swap.
    pub fn next_initialized_slot(
        &self,
        current_tick_index: i32,
        tick_spacing: u16,
        zero_for_one: bool,
    ) -> (r: Option<usize>)
        requires
            tick_spacing > 0,
        ensures
            match r {
                Some(k) => next_initialized_slot(
                    self.initialized_flags(),
                    self.start_tick_index as int,
                    current_tick_index as int,
                    tick_spacing as int,
                    zero_for_one,
                ) == Some(k as int) && k < 60,
                None => next_initialized_slot(
                    self.initialized_flags(),
                    self.start_tick_index as int,
                    current_tick_index as int,
                    tick_spacing as int,
                    zero_for_one,
                ).is_none(),
            },
    {
        let ghost flags = self.initialized_flags();
        let offset = match self.get_tick_offset_in_array(current_tick_index, tick_spacing) {
            Ok(offset) => offset,
            Err(_) => {
                return None;
            },
        };
        if zero_for_one {
            let mut i: usize = offset + 1;
            while i > 0
                invariant
                    i <= offset + 1,
                    offset < 60,
                    zero_for_one,
                    array_start_index(current_tick_index as int, tick_spacing as int)
                        == self.start_tick_index,
                    offset == slot_of_tick(
                        self.start_tick_index as int,
                        current_tick_index as int,
                        tick_spacing as int,
                    ),
                    flags == self.initialized_flags(),
                    last_set_at_or_below(flags, offset as int) == last_set_at_or_below(
                        flags,
                        i - 1,
                    ),
                decreases i,
            {
                i -= 1;
                assert(flags[i as int] == self.ticks[i as int].spec_is_initialized());
                if self.ticks[i].is_initialized() {
                    return Some(i);
                }
            }
            None
        } else {
            let mut i: usize = offset + 1;
            while i < 60
                invariant
                    offset + 1 <= i <= 60,
                    !zero_for_one,
                    array_start_index(current_tick_index as int, tick_spacing as int)
                        == self.start_tick_index,
                    offset == slot_of_tick(
                        self.start_tick_index as int,
                        current_tick_index as int,
                        tick_spacing as int,
                    ),
                    flags == self.initialized_flags(),
                    first_set_at_or_above(flags, offset + 1) == first_set_at_or_above(
                        flags,
                        i as int,
                    ),
                decreases 60 - i,
            {
                assert(flags[i as int] == self.ticks[i as int].spec_is_initialized());
                if self.ticks[i].is_initialized() {
                    return Some(i);
                }
                i += 1;
            }
            None
        }
    }

    /// The first initialized tick in the direction of the swap, or
    /// `InvalidTickArray` where the array holds none.
    pub fn first_initialized_tick(&mut self, zero_for_one: bool) -> (r: Result<
        &mut TickState,
        ErrorCode,
    >)
        ensures
            first_initialized_slot(old(self).initialized_flags(), zero_for_one).is_some()
                <==> r.is_ok(),
            r.is_err() ==> r.unwrap_err() == ErrorCode::InvalidTickArray && *final(self) == *old(self),
            r.is_ok() ==> ({
                let slot = first_initialized_slot(
                    old(self).initialized_flags(),
                    zero_for_one,
                ).unwrap();
                &&& 0 <= slot < 60
                &&& *r.unwrap() == old(self).ticks[slot]
                &&& *final(self) == (TickArrayState {
                    ticks: final(self).ticks,
                    ..*old(self)
                })
                &&& final(self).ticks@ == old(self).ticks@.update(slot, *final(r.unwrap()))
            }),
    {
        match self.first_initialized_slot(zero_for_one) {
            Some(slot) => Ok(&mut self.ticks[slot]),
            None => Err(ErrorCode::InvalidTickArray),
        }
    }

    /// The next initialized tick from `current_tick_index` in the direction of
    /// the swap: at or below it where the price falls, above it where the
    /// price rises. `current_tick_index` need not be a multiple of the
    /// spacing.
    pub fn next_initialized_tick(
        &mut self,
        current_tick_index: i32,
        tick_spacing: u16,
        zero_for_one: bool,
    ) -> (r: Result<Option<&mut TickState>, ErrorCode>)
        requires
            tick_spacing > 0,
        ensures
            r.is_ok(),
            ({
                let slot = next_initialized_slot(
                    old(self).initialized_flags(),
                    old(self).start_tick_index as int,
                    current_tick_index as int,
                    tick_spacing as int,
                    zero_for_one,
                );
                match r.unwrap() {
                    Some(tick) => {
                        &&& slot.is_some()
                        &&& 0 <= slot.unwrap() < 60
                        &&& *tick == old(self).ticks[slot.unwrap()]
                        &&& *final(self) == (TickArrayState {
                            ticks: final(self).ticks,
                            ..*old(self)
                        })
                        &&& final(self).ticks@ == old(self).ticks@.update(
                            slot.unwrap(),
                            *final(tick),
                        )
                    },
                    None => slot.is_none() && *final(self) == *old(self),
                }
            }),
    {
        match self.next_initialized_slot(current_tick_index, tick_spacing, zero_for_one) {
            Some(slot) => Ok(Some(&mut self.ticks[slot])),
            None => Ok(None),
        }
    }

    /// The start index of the neighbouring array in the direction of the
    /// swap, which must fit 32 bits.
    pub fn next_tick_arrary_start_index(&self, tick_spacing: u16, zero_for_one: bool) -> (r: i32)
        requires
            zero_for_one ==> i32::MIN <= self.start_tick_index - ticks_in_array(
                tick_spacing as int,
            ),
            !zero_for_one ==> self.start_tick_index + ticks_in_array(tick_spacing as int)
                <= i32::MAX,
        ensures
            r == (if zero_for_one {
                self.start_tick_index - ticks_in_array(tick_spacing as int)
            } else {
                self.start_tick_index + ticks_in_array(tick_spacing as int)
            }),
    {
        let per_array: i32 = TICK_ARRAY_SIZE * (tick_spacing as i32);
        if zero_for_one {
            self.start_tick_index - per_array
        } else {
            self.start_tick_index + per_array
        }
    }
}

} // verus!
