//! A tick array that is open for changes, in whichever of the two layouts
//! its account has.

use vstd::prelude::*;
use crate::address::{Address, get_tick_array_address, program_address, tick_array_seeds};
use crate::dyn_tick_array::DynTickArrayState;
use crate::error::ErrorCode;
use crate::tick::{TickState, array_start_index, slot_of_tick};
use crate::tick_array::{TickArrayState, first_initialized_slot, next_initialized_slot};
use crate::tick_array_data::TickArrayData;

verus! {

/// A tick array whose states can be changed: the whole array in the fixed
/// layout, the header and the list of tick states in the dynamic layout.
#[derive(Debug)]
pub enum TickArrayContainerRefMut {
    Fixed(TickArrayState),
    Dynamic((DynTickArrayState, Vec<TickState>)),
}

impl TickArrayContainerRefMut {
    /// The pool of the tick array.
    pub open spec fn spec_pool_id(&self) -> Address {
        match self {
            TickArrayContainerRefMut::Fixed(tick_array) => tick_array.pool_id,
            TickArrayContainerRefMut::Dynamic((header, _)) => header.pool_id,
        }
    }

    /// The start tick index of the tick array.
    pub open spec fn spec_start_tick_index(&self) -> i32 {
        match self {
            TickArrayContainerRefMut::Fixed(tick_array) => tick_array.start_tick_index,
            TickArrayContainerRefMut::Dynamic((header, _)) => header.start_tick_index,
        }
    }

    /// How many ticks the tick array counts as initialized.
    pub open spec fn spec_initialized_tick_count(&self) -> u8 {
        match self {
            TickArrayContainerRefMut::Fixed(tick_array) => tick_array.initialized_tick_count,
            TickArrayContainerRefMut::Dynamic((header, _)) => header.initialized_tick_count,
        }
    }

    /// The epoch of the last update.
    pub open spec fn spec_recent_epoch(&self) -> u64 {
        match self {
            TickArrayContainerRefMut::Fixed(tick_array) => tick_array.recent_epoch,
            TickArrayContainerRefMut::Dynamic((header, _)) => header.recent_epoch,
        }
    }

    /// The tick states that the tick array holds: sixty in the fixed layout,
    /// as many as have been used in the dynamic layout.
    pub open spec fn tick_states(&self) -> Seq<TickState> {
        match self {
            TickArrayContainerRefMut::Fixed(tick_array) => tick_array.ticks@,
            TickArrayContainerRefMut::Dynamic((_, states)) => states@,
        }
    }

    /// Which slots hold an initialized tick.
    pub open spec fn initialized_flags(&self) -> Seq<bool> {
        match self {
            TickArrayContainerRefMut::Fixed(tick_array) => tick_array.initialized_flags(),
            TickArrayContainerRefMut::Dynamic((header, states)) => header.initialized_flags(
                states@,
            ),
        }
    }

    /// Where among the tick states the state of a slot stands.
    pub open spec fn position_of_slot(&self, slot: int) -> int {
        match self {
            TickArrayContainerRefMut::Fixed(_) => slot,
            TickArrayContainerRefMut::Dynamic((header, _)) => header.tick_offset_index[slot] - 1,
        }
    }

    /// Where among the tick states the state of a tick stands, if the tick
    /// belongs to this array and has a state.
    pub open spec fn position_of_tick(&self, tick_index: i32, tick_spacing: u16) -> Option<int> {
        let slot = slot_of_tick(
            self.spec_start_tick_index() as int,
            tick_index as int,
            tick_spacing as int,
        );
        let position = self.position_of_slot(slot);
        if array_start_index(tick_index as int, tick_spacing as int)
            == self.spec_start_tick_index() && 0 <= position < self.tick_states().len() {
            Some(position)
        } else {
            None
        }
    }

    /// What a tick that has no state here is refused with.
    pub open spec fn missing_tick_error(&self) -> ErrorCode {
        match self {
            TickArrayContainerRefMut::Fixed(_) => ErrorCode::InvalidTickArray,
            TickArrayContainerRefMut::Dynamic(_) => ErrorCode::InvalidTickIndex,
        }
    }

    /// Whether `after` is this tick array with other tick states.
    pub open spec fn differs_in_tick_states_only(&self, after: &TickArrayContainerRefMut) -> bool {
        match (self, after) {
            (TickArrayContainerRefMut::Fixed(a), TickArrayContainerRefMut::Fixed(b)) => *b == (
            TickArrayState { ticks: b.ticks, ..*a }),
            (
                TickArrayContainerRefMut::Dynamic((a, _)),
                TickArrayContainerRefMut::Dynamic((b, _)),
            ) => a == b,
            _ => false,
        }
    }

    /// Whether `after` is this tick array with the given epoch and count of
    /// initialized ticks, and whatever tick states.
    pub open spec fn differs_in_epoch_count_and_states(
        &self,
        after: &TickArrayContainerRefMut,
        recent_epoch: u64,
        initialized_tick_count: u8,
    ) -> bool {
        match (self, after) {
            (TickArrayContainerRefMut::Fixed(a), TickArrayContainerRefMut::Fixed(b)) => *b == (
            TickArrayState { ticks: b.ticks, recent_epoch, initialized_tick_count, ..*a }),
            (
                TickArrayContainerRefMut::Dynamic((a, _)),
                TickArrayContainerRefMut::Dynamic((b, _)),
            ) => *b == (DynTickArrayState { recent_epoch, initialized_tick_count, ..*a }),
            _ => false,
        }
    }

    /// Whether `after` is this tick array with the state at `position`
    /// replaced by `state`.
    pub open spec fn differs_at(
        &self,
        after: &TickArrayContainerRefMut,
        position: int,
        state: TickState,
    ) -> bool {
        self.differs_in_tick_states_only(after) && after.tick_states() == self.tick_states().update(
            position,
            state,
        )
    }

    /// Get the address of this tick array's account: the address that the
    /// program derives from the pool and the start index.
    pub fn key(&self, program_id: Address) -> (r: Option<Address>)
        ensures
            match r {
                Some(found) => program_address(
                    tick_array_seeds(self.spec_pool_id()@, self.spec_start_tick_index()),
                    program_id@,
                ) == Some(found@),
                None => program_address(
                    tick_array_seeds(self.spec_pool_id()@, self.spec_start_tick_index()),
                    program_id@,
                ).is_none(),
            },
    {
        get_tick_array_address(self.get_pool_id(), self.get_start_tick_index(), program_id)
    }

    /// Get the pool of this tick array.
    pub fn get_pool_id(&self) -> (r: Address)
        ensures
            r == self.spec_pool_id(),
    {
        match self {
            TickArrayContainerRefMut::Fixed(tick_array) => tick_array.pool_id,
            TickArrayContainerRefMut::Dynamic((header, _)) => header.pool_id,
        }
    }

    /// Get how many ticks are counted as initialized in this tick array.
    pub fn get_initialized_tick_count(&self) -> (r: u8)
        ensures
            r == self.spec_initialized_tick_count(),
    {
        match self {
            TickArrayContainerRefMut::Fixed(tick_array) => tick_array.initialized_tick_count,
            TickArrayContainerRefMut::Dynamic((header, _)) => header.initialized_tick_count,
        }
    }

    /// Get the start tick index of this tick array.
    pub fn get_start_tick_index(&self) -> (r: i32)
        ensures
            r == self.spec_start_tick_index(),
    {
        match self {
            TickArrayContainerRefMut::Fixed(tick_array) => tick_array.start_tick_index,
            TickArrayContainerRefMut::Dynamic((header, _)) => header.start_tick_index,
        }
    }

    /// Get the state of `tick_index`, to read or to change.
    pub fn get_tick_state_mut(&mut self, tick_index: i32, tick_spacing: u16) -> (r: Result<
        &mut TickState,
        ErrorCode,
    >)
        requires
            tick_spacing > 0,
        ensures
            old(self).position_of_tick(tick_index, tick_spacing).is_some() <==> r.is_ok(),
            r.is_err() ==> r.unwrap_err() == old(self).missing_tick_error() && *final(self)
                == *old(self),
            r.is_ok() ==> ({
                let position = old(self).position_of_tick(tick_index, tick_spacing).unwrap();
                &&& *r.unwrap() == old(self).tick_states()[position]
                &&& old(self).differs_at(final(self), position, *final(r.unwrap()))
            }),
    {
        match self {
            TickArrayContainerRefMut::Fixed(tick_array) => tick_array.get_tick_state_mut(
                tick_index,
                tick_spacing,
            ),
            TickArrayContainerRefMut::Dynamic((header, states)) => {
                let index = match header.get_tick_index_in_array(tick_index, tick_spacing) {
                    Ok(index) => index as usize,
                    Err(e) => {
                        return Err(e);
                    },
                };
                if index >= states.len() {
                    return Err(ErrorCode::InvalidTickIndex);
                }
                Ok(&mut states[index])
            },
        }
    }

    /// Replaces the state of `tick_index` and records the epoch.
    pub fn update_tick_state(
        &mut self,
        tick_index: i32,
        tick_spacing: u16,
        tick_state: &TickState,
        recent_epoch: u64,
    ) -> (r: Result<(), ErrorCode>)
        requires
            tick_spacing > 0,
        ensures
            old(self).position_of_tick(tick_index, tick_spacing).is_some() <==> r.is_ok(),
            r.is_err() ==> r == Err::<(), ErrorCode>(old(self).missing_tick_error()) && *final(self) == *old(self),
            r.is_ok() ==> ({
                let position = old(self).position_of_tick(tick_index, tick_spacing).unwrap();
                &&& final(self).tick_states() == old(self).tick_states().update(
                    position,
                    *tick_state,
                )
                &&& old(self).differs_in_epoch_count_and_states(
                    final(self),
                    recent_epoch,
                    old(self).spec_initialized_tick_count(),
                )
            }),
    {
        match self {
            TickArrayContainerRefMut::Fixed(tick_array) => tick_array.update_tick_state(
                tick_index,
                tick_spacing,
                tick_state,
                recent_epoch,
            ),
            TickArrayContainerRefMut::Dynamic((header, states)) => {
                let index = match header.get_tick_index_in_array(tick_index, tick_spacing) {
                    Ok(index) => index as usize,
                    Err(e) => {
                        return Err(e);
                    },
                };
                if index >= states.len() {
                    return Err(ErrorCode::InvalidTickIndex);
                }
                states[index] = *tick_state;
                header.recent_epoch = recent_epoch;
                Ok(())
            },
        }
    }

    /// Counts one more, or one less, initialized tick. `CalculateOverflow`
    /// where the count would leave `0..=255`.
    pub fn update_initialized_tick_count(&mut self, add: bool) -> (r: Result<(), ErrorCode>)
        ensures
            ({
                let before = old(self).spec_initialized_tick_count();
                let fits = if add {
                    before < 255
                } else {
                    before > 0
                };
                &&& fits <==> r.is_ok()
                &&& r.is_err() ==> r == Err::<(), ErrorCode>(ErrorCode::CalculateOverflow)
                    && *final(self) == *old(self)
                &&& r.is_ok() ==> final(self).tick_states() == old(self).tick_states() && old(
                    self,
                ).differs_in_epoch_count_and_states(
                    final(self),
                    old(self).spec_recent_epoch(),
                    (if add {
                        before + 1
                    } else {
                        before - 1
                    }) as u8,
                )
            }),
    {
        match self {
            TickArrayContainerRefMut::Fixed(tick_array) => {
                tick_array.update_initialized_tick_count(add)
            },
            TickArrayContainerRefMut::Dynamic((header, _)) => {
                if add {
                    if header.initialized_tick_count == u8::MAX {
                        return Err(ErrorCode::CalculateOverflow);
                    }
                    header.initialized_tick_count += 1;
                } else {
                    if header.initialized_tick_count == 0 {
                        return Err(ErrorCode::CalculateOverflow);
                    }
                    header.initialized_tick_count -= 1;
                }
                Ok(())
            },
        }
    }

    /// Get the next initialized tick in the tick array. `current_tick_index`
    /// can be any tick, a multiple of the spacing or not: where the price
    /// falls the tick found is at or below it, where the price rises the
    /// tick found is above it.
    pub fn next_initialized_tick(
        &mut self,
        current_tick_index: i32,
        tick_spacing: u16,
        zero_for_one: bool,
    ) -> (r: Result<Option<&mut TickState>, ErrorCode>)
        requires
            tick_spacing > 0,
        ensures
            r.is_ok(),
            ({
                let slot = next_initialized_slot(
                    old(self).initialized_flags(),
                    old(self).spec_start_tick_index() as int,
                    current_tick_index as int,
                    tick_spacing as int,
                    zero_for_one,
                );
                match r.unwrap() {
                    Some(tick) => {
                        &&& slot.is_some()
                        &&& 0 <= old(self).position_of_slot(slot.unwrap()) < old(self).tick_states().len()
                        &&& *tick == old(self).tick_states()[old(self).position_of_slot(
                            slot.unwrap(),
                        )]
                        &&& old(self).differs_at(
                            final(self),
                            old(self).position_of_slot(slot.unwrap()),
                            *final(tick),
                        )
                    },
                    None => slot.is_none() && *final(self) == *old(self),
                }
            }),
    {
        match self {
            TickArrayContainerRefMut::Fixed(tick_array) => tick_array.next_initialized_tick(
                current_tick_index,
                tick_spacing,
                zero_for_one,
            ),
            TickArrayContainerRefMut::Dynamic((header, states)) => {
                let index = match header.next_initialized_tick_index(
                    states.as_slice(),
                    current_tick_index,
                    tick_spacing,
                    zero_for_one,
                ) {
                    Ok(index) => index,
                    Err(e) => {
                        return Err(e);
                    },
                };
                match index {
                    Some(i) => Ok(Some(&mut states[i as usize])),
                    None => Ok(None),
                }
            },
        }
    }

    /// Get the first initialized tick in the tick array in the direction of
    /// the swap, or `InvalidTickArray` where the array holds none.
    pub fn first_initialized_tick(&mut self, zero_for_one: bool) -> (r: Result<
        &mut TickState,
        ErrorCode,
    >)
        ensures
            first_initialized_slot(old(self).initialized_flags(), zero_for_one).is_some()
                <==> r.is_ok(),
            r.is_err() ==> r.unwrap_err() == ErrorCode::InvalidTickArray && *final(self) == *old(self),
            r.is_ok() ==> ({
                let slot = first_initialized_slot(
                    old(self).initialized_flags(),
                    zero_for_one,
                ).unwrap();
                let position = old(self).position_of_slot(slot);
                &&& 0 <= position < old(self).tick_states().len()
                &&& *r.unwrap() == old(self).tick_states()[position]
                &&& old(self).differs_at(final(self), position, *final(r.unwrap()))
            }),
    {
        match self {
            TickArrayContainerRefMut::Fixed(tick_array) => tick_array.first_initialized_tick(
                zero_for_one,
            ),
            TickArrayContainerRefMut::Dynamic((header, states)) => {
                let index = match header.first_initialized_tick_index(
                    states.as_slice(),
                    zero_for_one,
                ) {
                    Ok(index) => index as usize,
                    Err(e) => {
                        return Err(e);
                    },
                };
                Ok(&mut states[index])
            },
        }
    }

    /// The tick array as it is written to account data.
    pub fn into_data(self) -> (r: TickArrayData)
        ensures
            match (self, r) {
                (TickArrayContainerRefMut::Fixed(a), TickArrayData::Fixed(b)) => a == b,
                (
                    TickArrayContainerRefMut::Dynamic((h1, t1)),
                    TickArrayData::Dynamic { header: h2, ticks: t2 },
                ) => h1 == h2 && t1@ == t2@,
                _ => false,
            },
    {
        match self {
            TickArrayContainerRefMut::Fixed(tick_array) => TickArrayData::Fixed(tick_array),
            TickArrayContainerRefMut::Dynamic((header, ticks)) => TickArrayData::Dynamic {
                header,
                ticks,
            },
        }
    }
}

} // verus!
