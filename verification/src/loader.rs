//! Loading tick arrays from accounts: the checks that an account passes
//! before its data is taken as a tick array, in either layout.

use vstd::prelude::*;
use vstd::slice::slice_subrange;
use crate::account::AccountView;
use crate::address::{Address, get_tick_array_address, program_address, tick_array_seeds};
use crate::container::TickArrayContainerRefMut;
use crate::dyn_tick_array::DynTickArrayState;
use crate::error::{AccountError, ErrorCode};
use crate::layout::{
    are_dyn_ticks_of,
    dyn_header_body,
    has_discriminator,
    i32_at,
    is_dyn_header_of,
    is_fixed_array_of,
    is_tick_state_at,
    read_dyn_header,
    read_dyn_ticks,
    read_fixed_array,
    tick_states_bytes,
};
use crate::tick::{
    TickState,
    TickUtils,
    array_start_index,
    is_multiple_of_spacing,
    is_valid_start_index,
    slot_of_tick,
};
use crate::tick_array::TickArrayState;
use crate::tick_array_data::{
    TickArrayData,
    dyn_discriminator,
    fixed_discriminator,
    has_tag,
    lemma_tags_differ,
};
use crate::tick_math::{MAX_TICK, MIN_TICK};

verus! {

/// The first failure among the checks that every account of the program
/// passes before its tag is looked at: the program owns it, and its data is
/// long enough for a tag.
pub open spec fn owned_account_check(account: AccountView, program_id: Address) -> Result<
    (),
    AccountError,
> {
    if account.owner@ != program_id@ {
        Err(AccountError::AccountOwnedByWrongProgram)
    } else if account.data@.len() < 8 {
        Err(AccountError::AccountDiscriminatorNotFound)
    } else {
        Ok(())
    }
}

/// The first failure among the checks of an account that is to hold a given
/// tag: the program owns it, its data is long enough for a tag, and it opens
/// with the tag.
pub open spec fn tagged_account_check(
    account: AccountView,
    program_id: Address,
    tag: Seq<u8>,
) -> Result<(), AccountError> {
    match owned_account_check(account, program_id) {
        Err(e) => Err(e),
        Ok(_) => if account.data@.subrange(0, 8) != tag {
            Err(AccountError::AccountDiscriminatorMismatch)
        } else {
            Ok(())
        },
    }
}

/// The first failure among the checks of data that is read as a tick array
/// in the fixed layout: the tag, then the length.
pub open spec fn fixed_data_check(data: Seq<u8>) -> Result<(), AccountError> {
    if data.len() < 8 {
        Err(AccountError::AccountDiscriminatorNotFound)
    } else if data.subrange(0, 8) != fixed_discriminator() {
        Err(AccountError::AccountDiscriminatorMismatch)
    } else if data.len() < 10240 {
        Err(AccountError::AccountDidNotDeserialize)
    } else {
        Ok(())
    }
}

/// The first failure among the checks of data that is read as a tick array
/// in the dynamic layout: the tag, then a whole header and a whole number of
/// tick states, then, unless the account has just been made larger, the
/// length that the header's count of tick states asks for.
pub open spec fn dyn_data_check(data: Seq<u8>, is_after_resize: bool) -> Result<(), AccountError> {
    if data.len() < 8 {
        Err(AccountError::AccountDiscriminatorNotFound)
    } else if data.subrange(0, 8) != dyn_discriminator() {
        Err(AccountError::AccountDiscriminatorMismatch)
    } else if data.len() < 216 || (data.len() - 216) % 168 != 0 {
        Err(AccountError::AccountDidNotDeserialize)
    } else if !is_after_resize && data.len() != 216 + 168 * data[108] {
        Err(AccountError::AccountDidNotDeserialize)
    } else {
        Ok(())
    }
}

/// Checks that the program owns the account.
pub fn check_owner(acc_info: &AccountView, program_id: &Address) -> (r: Result<(), AccountError>)
    ensures
        r == (if acc_info.owner@ != program_id@ {
            Err::<(), AccountError>(AccountError::AccountOwnedByWrongProgram)
        } else {
            Ok::<(), AccountError>(())
        }),
{
    if !acc_info.owner.same(program_id) {
        Err(AccountError::AccountOwnedByWrongProgram)
    } else {
        Ok(())
    }
}

/// Loader for tick array accounts in the fixed layout.
#[derive(Clone, Debug)]
pub struct AccountLoad {
    pub acc_info: AccountView,
}

impl AccountLoad {
    /// A loader for the account.
    pub fn new(acc_info: AccountView) -> (r: AccountLoad)
        ensures
            r.acc_info == acc_info,
    {
        AccountLoad { acc_info }
    }

    /// A loader for an account that holds a tick array in the fixed layout.
    pub fn try_from(acc_info: &AccountView, program_id: &Address) -> (r: Result<
        AccountLoad,
        AccountError,
    >)
        ensures
            match r {
                Ok(loader) => tagged_account_check(*acc_info, *program_id, fixed_discriminator())
                    .is_ok() && loader.acc_info.same_as(acc_info),
                Err(e) => tagged_account_check(*acc_info, *program_id, fixed_discriminator())
                    == Err::<(), AccountError>(e),
            },
    {
        check_owner(acc_info, program_id)?;
        if acc_info.data.len() < 8 {
            return Err(AccountError::AccountDiscriminatorNotFound);
        }
        if !has_discriminator(acc_info.data.as_slice(), &TickArrayState::DISCRIMINATOR) {
            return Err(AccountError::AccountDiscriminatorMismatch);
        }
        Ok(AccountLoad::new(acc_info.duplicate()))
    }

    /// The tick array that the account holds.
    pub fn load(&self) -> (r: Result<TickArrayState, AccountError>)
        ensures
            match r {
                Ok(tick_array) => fixed_data_check(self.acc_info.data@).is_ok()
                    && is_fixed_array_of(tick_array, self.acc_info.data@.subrange(0, 10240)),
                Err(e) => fixed_data_check(self.acc_info.data@) == Err::<(), AccountError>(e),
            },
    {
        let data = self.acc_info.data.as_slice();
        if data.len() < 8 {
            return Err(AccountError::AccountDiscriminatorNotFound);
        }
        if !has_discriminator(data, &TickArrayState::DISCRIMINATOR) {
            return Err(AccountError::AccountDiscriminatorMismatch);
        }
        if data.len() < TickArrayState::LEN {
            return Err(AccountError::AccountDidNotDeserialize);
        }
        Ok(read_fixed_array(slice_subrange(data, 0, TickArrayState::LEN)))
    }

    /// The tick array that the account holds, to be changed and stored
    /// again: the account must be writable.
    pub fn load_mut(&self) -> (r: Result<TickArrayState, AccountError>)
        ensures
            match r {
                Ok(tick_array) => self.acc_info.is_writable && fixed_data_check(
                    self.acc_info.data@,
                ).is_ok() && is_fixed_array_of(tick_array, self.acc_info.data@.subrange(0, 10240)),
                Err(e) => if !self.acc_info.is_writable {
                    e == AccountError::AccountNotMutable
                } else {
                    fixed_data_check(self.acc_info.data@) == Err::<(), AccountError>(e)
                },
            },
    {
        if !self.acc_info.is_writable {
            return Err(AccountError::AccountNotMutable);
        }
        self.load()
    }

    /// Stores a tick array as the account's data.
    pub fn store(&mut self, tick_array: &TickArrayState)
        ensures
            final(self).acc_info.data@ == TickArrayData::Fixed(*tick_array).spec_bytes(),
            final(self).acc_info.key == old(self).acc_info.key,
            final(self).acc_info.owner == old(self).acc_info.owner,
            final(self).acc_info.is_writable == old(self).acc_info.is_writable,
            final(self).acc_info.lamports == old(self).acc_info.lamports,
    {
        let data = TickArrayData::Fixed(*tick_array);
        self.acc_info.data = data.to_bytes();
    }
}

/// Loader for tick array accounts in the dynamic layout.
#[derive(Clone, Debug)]
pub struct DynTickArrayLoader {
    pub acc_info: AccountView,
}

impl DynTickArrayLoader {
    /// A loader for the account.
    pub fn new(acc_info: AccountView) -> (r: DynTickArrayLoader)
        ensures
            r.acc_info == acc_info,
    {
        DynTickArrayLoader { acc_info }
    }

    /// Constructs a loader from an account that holds a tick array in the
    /// dynamic layout.
    pub fn try_from(acc_info: &AccountView, program_id: &Address) -> (r: Result<
        DynTickArrayLoader,
        AccountError,
    >)
        ensures
            match r {
                Ok(loader) => tagged_account_check(*acc_info, *program_id, dyn_discriminator())
                    .is_ok() && loader.acc_info.same_as(acc_info),
                Err(e) => tagged_account_check(*acc_info, *program_id, dyn_discriminator())
                    == Err::<(), AccountError>(e),
            },
    {
        check_owner(acc_info, program_id)?;
        if acc_info.data.len() < 8 {
            return Err(AccountError::AccountDiscriminatorNotFound);
        }
        if !has_discriminator(acc_info.data.as_slice(), &DynTickArrayState::DISCRIMINATOR) {
            return Err(AccountError::AccountDiscriminatorMismatch);
        }
        Ok(DynTickArrayLoader::new(acc_info.duplicate()))
    }

    /// Constructs a loader from an account that holds no tick array yet.
    pub fn try_from_unchecked(acc_info: &AccountView, program_id: &Address) -> (r: Result<
        DynTickArrayLoader,
        AccountError,
    >)
        ensures
            match r {
                Ok(loader) => acc_info.owner@ == program_id@ && loader.acc_info.same_as(acc_info),
                Err(e) => acc_info.owner@ != program_id@ && e
                    == AccountError::AccountOwnedByWrongProgram,
            },
    {
        check_owner(acc_info, program_id)?;
        Ok(DynTickArrayLoader::new(acc_info.duplicate()))
    }

    /// Reads the header and the tick states from data that has passed its
    /// checks.
    fn read(data: &[u8]) -> (r: Result<(DynTickArrayState, Vec<TickState>), AccountError>)
        requires
            data@.len() >= 8,
            data@.subrange(0, 8) == dyn_discriminator(),
        ensures
            match r {
                Ok((header, ticks)) => dyn_data_check(data@, true).is_ok() && is_dyn_header_of(
                    header,
                    data@,
                ) && are_dyn_ticks_of(ticks@, data@),
                Err(e) => dyn_data_check(data@, true) == Err::<(), AccountError>(e) && e
                    == AccountError::AccountDidNotDeserialize,
            },
    {
        if data.len() < DynTickArrayState::HEADER_LEN {
            return Err(AccountError::AccountDidNotDeserialize);
        }
        let header = read_dyn_header(data);
        let ticks = match read_dyn_ticks(data) {
            Some(ticks) => ticks,
            None => {
                return Err(AccountError::AccountDidNotDeserialize);
            },
        };
        Ok((header, ticks))
    }

    /// Gives an account without a tag the tag of the dynamic layout, and
    /// returns the header and the tick states that its data then holds.
    /// Called once, when the account is being initialized.
    pub fn load_init(&mut self) -> (r: Result<(DynTickArrayState, Vec<TickState>), AccountError>)
        ensures
            final(self).acc_info.key == old(self).acc_info.key,
            final(self).acc_info.owner == old(self).acc_info.owner,
            final(self).acc_info.is_writable == old(self).acc_info.is_writable,
            final(self).acc_info.lamports == old(self).acc_info.lamports,
            ({
                let data = old(self).acc_info.data@;
                let failure = if !old(self).acc_info.is_writable {
                    Some(AccountError::AccountNotMutable)
                } else if data.len() < 8 {
                    Some(AccountError::AccountDiscriminatorNotFound)
                } else if data.subrange(0, 8) != Seq::new(8, |i: int| 0u8) {
                    Some(AccountError::AccountDiscriminatorAlreadySet)
                } else if data.len() < 216 || (data.len() - 216) % 168 != 0 {
                    Some(AccountError::AccountDidNotDeserialize)
                } else {
                    None
                };
                match r {
                    Err(e) => failure == Some(e) && final(self).acc_info.data@ == data,
                    Ok((header, ticks)) => {
                        &&& failure.is_none()
                        &&& final(self).acc_info.data@ == dyn_discriminator() + data.subrange(
                            8,
                            data.len() as int,
                        )
                        &&& is_dyn_header_of(header, final(self).acc_info.data@)
                        &&& are_dyn_ticks_of(ticks@, final(self).acc_info.data@)
                    },
                }
            }),
    {
        if !self.acc_info.is_writable {
            return Err(AccountError::AccountNotMutable);
        }
        let len: usize = self.acc_info.data.len();
        if len < 8 {
            return Err(AccountError::AccountDiscriminatorNotFound);
        }
        let zero: [u8; 8] = [0u8; 8];
        if !has_discriminator(self.acc_info.data.as_slice(), &zero) {
            assert(zero@ =~= Seq::new(8, |i: int| 0u8));
            return Err(AccountError::AccountDiscriminatorAlreadySet);
        }
        assert(zero@ =~= Seq::new(8, |i: int| 0u8));
        if len < DynTickArrayState::HEADER_LEN || (len - DynTickArrayState::HEADER_LEN)
            % TickState::LEN != 0 {
            return Err(AccountError::AccountDidNotDeserialize);
        }
        let ghost before = self.acc_info.data@;
        let mut i: usize = 0;
        while i < 8
            invariant
                i <= 8,
                self.acc_info.data@.len() == before.len(),
                before.len() >= 216,
                self.acc_info.key == old(self).acc_info.key,
                self.acc_info.owner == old(self).acc_info.owner,
                self.acc_info.is_writable == old(self).acc_info.is_writable,
                self.acc_info.lamports == old(self).acc_info.lamports,
                forall|k: int| 0 <= k < i ==> self.acc_info.data@[k] == dyn_discriminator()[k],
                forall|k: int| i <= k < before.len() ==> self.acc_info.data@[k] == before[k],
            decreases 8 - i,
        {
            self.acc_info.data[i] = DynTickArrayState::DISCRIMINATOR[i];
            i += 1;
        }
        assert(self.acc_info.data@ =~= dyn_discriminator() + before.subrange(
            8,
            before.len() as int,
        ));
        assert(self.acc_info.data@.subrange(0, 8) =~= dyn_discriminator());
        match DynTickArrayLoader::read(self.acc_info.data.as_slice()) {
            Ok(loaded) => Ok(loaded),
            Err(e) => Err(e),
        }
    }

    /// The header and the tick states that the account holds, to be changed
    /// and stored again: the account must be writable. `is_after_resize`
    /// says that the account has just been made larger, so that its length
    /// is not yet the length that the header asks for.
    pub fn load_mut(&self, is_after_resize: bool) -> (r: Result<
        (DynTickArrayState, Vec<TickState>),
        AccountError,
    >)
        ensures
            match r {
                Ok((header, ticks)) => self.acc_info.is_writable && dyn_data_check(
                    self.acc_info.data@,
                    is_after_resize,
                ).is_ok() && is_dyn_header_of(header, self.acc_info.data@) && are_dyn_ticks_of(
                    ticks@,
                    self.acc_info.data@,
                ),
                Err(e) => if !self.acc_info.is_writable {
                    e == AccountError::AccountNotMutable
                } else {
                    dyn_data_check(self.acc_info.data@, is_after_resize) == Err::<
                        (),
                        AccountError,
                    >(e)
                },
            },
    {
        if !self.acc_info.is_writable {
            return Err(AccountError::AccountNotMutable);
        }
        self.load_checked(is_after_resize)
    }

    /// Returns the header and the tick states that the account holds.
    pub fn load(&self) -> (r: Result<(DynTickArrayState, Vec<TickState>), AccountError>)
        ensures
            match r {
                Ok((header, ticks)) => dyn_data_check(self.acc_info.data@, false).is_ok()
                    && is_dyn_header_of(header, self.acc_info.data@) && are_dyn_ticks_of(
                    ticks@,
                    self.acc_info.data@,
                ),
                Err(e) => dyn_data_check(self.acc_info.data@, false) == Err::<(), AccountError>(
                    e,
                ),
            },
    {
        self.load_checked(false)
    }

    /// The checks of the data, and the header and the tick states that it
    /// holds.
    fn load_checked(&self, is_after_resize: bool) -> (r: Result<
        (DynTickArrayState, Vec<TickState>),
        AccountError,
    >)
        ensures
            match r {
                Ok((header, ticks)) => dyn_data_check(self.acc_info.data@, is_after_resize).is_ok()
                    && is_dyn_header_of(header, self.acc_info.data@) && are_dyn_ticks_of(
                    ticks@,
                    self.acc_info.data@,
                ),
                Err(e) => dyn_data_check(self.acc_info.data@, is_after_resize) == Err::<
                    (),
                    AccountError,
                >(e),
            },
    {
        let data = self.acc_info.data.as_slice();
        let data_len: usize = data.len();
        if data_len < 8 {
            return Err(AccountError::AccountDiscriminatorNotFound);
        }
        if !has_discriminator(data, &DynTickArrayState::DISCRIMINATOR) {
            return Err(AccountError::AccountDiscriminatorMismatch);
        }
        let (header, ticks) = match DynTickArrayLoader::read(data) {
            Ok(loaded) => loaded,
            Err(e) => {
                return Err(e);
            },
        };
        if !is_after_resize && data_len != header.all_data_len() {
            return Err(AccountError::AccountDidNotDeserialize);
        }
        Ok((header, ticks))
    }

    /// Stores a header and its tick states as the account's data.
    pub fn store(&mut self, header: &DynTickArrayState, ticks: Vec<TickState>)
        ensures
            final(self).acc_info.data@ == (TickArrayData::Dynamic {
                header: *header,
                ticks,
            }).spec_bytes(),
            final(self).acc_info.key == old(self).acc_info.key,
            final(self).acc_info.owner == old(self).acc_info.owner,
            final(self).acc_info.is_writable == old(self).acc_info.is_writable,
            final(self).acc_info.lamports == old(self).acc_info.lamports,
    {
        let data = TickArrayData::Dynamic { header: *header, ticks };
        self.acc_info.data = data.to_bytes();
    }
}

/// The first failure of the check of a tick against the array that is to
/// hold it: the tick is in the tick range, it is a multiple of the spacing,
/// and the array that holds it starts at `start`.
pub open spec fn access_tick_check(start: i32, tick_index: i32, tick_spacing: u16) -> Result<
    (),
    ErrorCode,
> {
    if tick_index < MIN_TICK || tick_index > MAX_TICK {
        Err(ErrorCode::InvalidTickIndex)
    } else if tick_index as int % tick_spacing as int != 0 {
        Err(ErrorCode::TickAndSpacingNotMatch)
    } else if array_start_index(tick_index as int, tick_spacing as int) != start {
        Err(ErrorCode::InvalidTickArray)
    } else {
        Ok(())
    }
}

/// The first failure of the checks of a tick in a tick array of the fixed
/// layout: the tick passes the check against the array, and its slot names
/// a tick.
pub open spec fn fixed_access_check(
    tick_array: TickArrayState,
    tick_index: i32,
    tick_spacing: u16,
) -> Result<(), ErrorCode> {
    match access_tick_check(tick_array.start_tick_index, tick_index, tick_spacing) {
        Err(e) => Err(e),
        Ok(_) => if tick_array.ticks[slot_of_tick(
            tick_array.start_tick_index as int,
            tick_index as int,
            tick_spacing as int,
        )].tick == 0 {
            Err(ErrorCode::InvalidTickIndex)
        } else {
            Ok(())
        },
    }
}

/// The first failure of the checks of a tick in a tick array of the dynamic
/// layout: the tick passes the check against the array, its slot has a tick
/// state in the list, and that state names a tick.
pub open spec fn dyn_access_check(
    header: DynTickArrayState,
    ticks: Seq<TickState>,
    tick_index: i32,
    tick_spacing: u16,
) -> Result<(), ErrorCode> {
    let position = header.tick_offset_index[slot_of_tick(
        header.start_tick_index as int,
        tick_index as int,
        tick_spacing as int,
    )];
    match access_tick_check(header.start_tick_index, tick_index, tick_spacing) {
        Err(e) => Err(e),
        Ok(_) => if position == 0 || position > ticks.len() || ticks[position - 1].tick == 0 {
            Err(ErrorCode::InvalidTickIndex)
        } else {
            Ok(())
        },
    }
}

/// The first failure of the checks of a tick in the data of a tick array of
/// the fixed layout: the tick passes the check against the array, and the
/// tick state of its slot names a tick.
pub open spec fn fixed_access_check_in(data: Seq<u8>, tick_index: i32, tick_spacing: u16) -> Result<
    (),
    ErrorCode,
> {
    let start = i32_at(data, 40);
    let slot = slot_of_tick(start as int, tick_index as int, tick_spacing as int);
    match access_tick_check(start, tick_index, tick_spacing) {
        Err(e) => Err(e),
        Ok(_) => if i32_at(data, 44 + 168 * slot) == 0 {
            Err(ErrorCode::InvalidTickIndex)
        } else {
            Ok(())
        },
    }
}

/// The first failure of the checks of a tick in the data of a tick array of
/// the dynamic layout: the tick passes the check against the array, its
/// slot has a tick state in the list, and that state names a tick.
pub open spec fn dyn_access_check_in(data: Seq<u8>, tick_index: i32, tick_spacing: u16) -> Result<
    (),
    ErrorCode,
> {
    let start = i32_at(data, 40);
    let slot = slot_of_tick(start as int, tick_index as int, tick_spacing as int);
    let position = data[48 + slot];
    match access_tick_check(start, tick_index, tick_spacing) {
        Err(e) => Err(e),
        Ok(_) => if position == 0 || 216 + 168 * position > data.len() || i32_at(
            data,
            216 + 168 * (position - 1),
        ) == 0 {
            Err(ErrorCode::InvalidTickIndex)
        } else {
            Ok(())
        },
    }
}

/// The first failure of the checks that `TickArrayContainer::try_from`
/// makes of an account and a tick: the owner and the length for a tag; the
/// tag; the data that the tag promises; the tick in that data.
pub open spec fn tick_array_account_check(
    account: AccountView,
    program_id: Address,
    tick_index: i32,
    tick_spacing: u16,
) -> Result<(), AccountError> {
    let data = account.data@;
    match owned_account_check(account, program_id) {
        Err(e) => Err(e),
        Ok(_) => if has_tag(data, fixed_discriminator()) {
            match fixed_data_check(data) {
                Err(e) => Err(e),
                Ok(_) => match fixed_access_check_in(data, tick_index, tick_spacing) {
                    Err(e) => Err(AccountError::Program(e)),
                    Ok(_) => Ok(()),
                },
            }
        } else if has_tag(data, dyn_discriminator()) {
            match dyn_data_check(data, false) {
                Err(e) => Err(e),
                Ok(_) => match dyn_access_check_in(data, tick_index, tick_spacing) {
                    Err(e) => Err(AccountError::Program(e)),
                    Ok(_) => Ok(()),
                },
            }
        } else {
            Err(AccountError::AccountDiscriminatorMismatch)
        },
    }
}

/// The tick that a tick state names is the number at the start of its
/// bytes.
pub proof fn lemma_tick_of_state_at(state: TickState, data: Seq<u8>, at: int)
    requires
        is_tick_state_at(state, data, at),
    ensures
        state.tick == i32_at(data, at),
{
    assert(data.subrange(at, at + 168).subrange(0, 4) =~= data.subrange(at, at + 4));
}

/// The checks of a tick in a tick array of the fixed layout are the checks
/// of the tick in the array's data.
pub proof fn lemma_fixed_access_check_in(
    tick_array: TickArrayState,
    data: Seq<u8>,
    tick_index: i32,
    tick_spacing: u16,
)
    requires
        tick_spacing > 0,
        data.len() >= 10240,
        is_fixed_array_of(tick_array, data.subrange(0, 10240)),
    ensures
        fixed_access_check(tick_array, tick_index, tick_spacing) == fixed_access_check_in(
            data,
            tick_index,
            tick_spacing,
        ),
{
    let head = data.subrange(0, 10240);
    assert(head.subrange(40, 44) =~= data.subrange(40, 44));
    if access_tick_check(tick_array.start_tick_index, tick_index, tick_spacing) is Ok {
        crate::tick::lemma_array_start_index(tick_index as int, tick_spacing as int);
        let slot = slot_of_tick(
            tick_array.start_tick_index as int,
            tick_index as int,
            tick_spacing as int,
        );
        assert(is_tick_state_at(tick_array.ticks[slot], head, 44 + 168 * slot));
        lemma_tick_of_state_at(tick_array.ticks[slot], head, 44 + 168 * slot);
        assert(head.subrange(44 + 168 * slot, 44 + 168 * slot + 4) =~= data.subrange(
            44 + 168 * slot,
            44 + 168 * slot + 4,
        ));
    }
}

/// The checks of a tick in a tick array of the dynamic layout are the
/// checks of the tick in the array's data.
pub proof fn lemma_dyn_access_check_in(
    header: DynTickArrayState,
    ticks: Seq<TickState>,
    data: Seq<u8>,
    tick_index: i32,
    tick_spacing: u16,
)
    requires
        tick_spacing > 0,
        is_dyn_header_of(header, data),
        are_dyn_ticks_of(ticks, data),
    ensures
        dyn_access_check(header, ticks, tick_index, tick_spacing) == dyn_access_check_in(
            data,
            tick_index,
            tick_spacing,
        ),
{
    if access_tick_check(header.start_tick_index, tick_index, tick_spacing) is Ok {
        crate::tick::lemma_array_start_index(tick_index as int, tick_spacing as int);
        let slot = slot_of_tick(
            header.start_tick_index as int,
            tick_index as int,
            tick_spacing as int,
        );
        assert(header.tick_offset_index[slot] == data.subrange(48, 108)[slot]);
        let position = header.tick_offset_index[slot];
        if position != 0 && position <= ticks.len() {
            assert(is_tick_state_at(ticks[position - 1], data, 216 + 168 * (position - 1)));
            lemma_tick_of_state_at(ticks[position - 1], data, 216 + 168 * (position - 1));
        }
    }
}

/// A tick array account in whichever layout it has.
#[derive(Clone, Debug)]
pub enum TickArrayContainer {
    Fixed(AccountLoad),
    Dynamic(DynTickArrayLoader),
}

impl TickArrayContainer {
    /// The account of the tick array.
    pub open spec fn account(&self) -> AccountView {
        match self {
            TickArrayContainer::Fixed(loader) => loader.acc_info,
            TickArrayContainer::Dynamic(loader) => loader.acc_info,
        }
    }

    /// Whether `loaded` is what the data holds, read as this container's
    /// layout.
    pub open spec fn holds(&self, loaded: &TickArrayContainerRefMut) -> bool {
        match (self, loaded) {
            (
                TickArrayContainer::Fixed(loader),
                TickArrayContainerRefMut::Fixed(tick_array),
            ) => is_fixed_array_of(*tick_array, loader.acc_info.data@.subrange(0, 10240)),
            (
                TickArrayContainer::Dynamic(loader),
                TickArrayContainerRefMut::Dynamic((header, ticks)),
            ) => is_dyn_header_of(*header, loader.acc_info.data@) && are_dyn_ticks_of(
                ticks@,
                loader.acc_info.data@,
            ),
            _ => false,
        }
    }

    /// The first failure of the checks of the data, read as this container's
    /// layout.
    pub open spec fn data_check(&self) -> Result<(), AccountError> {
        match self {
            TickArrayContainer::Fixed(loader) => fixed_data_check(loader.acc_info.data@),
            TickArrayContainer::Dynamic(loader) => dyn_data_check(loader.acc_info.data@, false),
        }
    }

    /// The account of the tick array, as the container has it.
    pub fn account_view(&self) -> (r: &AccountView)
        ensures
            *r == self.account(),
    {
        match self {
            TickArrayContainer::Fixed(loader) => &loader.acc_info,
            TickArrayContainer::Dynamic(loader) => &loader.acc_info,
        }
    }

    /// The tick array that the account holds, read only.
    pub fn load(&self) -> (r: Result<TickArrayContainerRefMut, AccountError>)
        ensures
            match r {
                Ok(loaded) => self.data_check().is_ok() && self.holds(&loaded),
                Err(e) => self.data_check() == Err::<(), AccountError>(e),
            },
    {
        match self {
            TickArrayContainer::Fixed(loader) => match loader.load() {
                Ok(tick_array) => Ok(TickArrayContainerRefMut::Fixed(tick_array)),
                Err(e) => Err(e),
            },
            TickArrayContainer::Dynamic(loader) => match loader.load() {
                Ok(loaded) => Ok(TickArrayContainerRefMut::Dynamic(loaded)),
                Err(e) => Err(e),
            },
        }
    }

    /// Get the tick array that the account holds, to be changed and stored
    /// again: the account must be writable.
    pub fn get_ref_mut(&self) -> (r: Result<TickArrayContainerRefMut, AccountError>)
        ensures
            match r {
                Ok(loaded) => self.account().is_writable && self.data_check().is_ok()
                    && self.holds(&loaded),
                Err(e) => if !self.account().is_writable {
                    e == AccountError::AccountNotMutable
                } else {
                    self.data_check() == Err::<(), AccountError>(e)
                },
            },
    {
        match self {
            TickArrayContainer::Fixed(loader) => match loader.load_mut() {
                Ok(tick_array) => Ok(TickArrayContainerRefMut::Fixed(tick_array)),
                Err(e) => Err(e),
            },
            TickArrayContainer::Dynamic(loader) => match loader.load_mut(false) {
                Ok(loaded) => Ok(TickArrayContainerRefMut::Dynamic(loaded)),
                Err(e) => Err(e),
            },
        }
    }

    /// The tick array that an account holds, to be changed and stored again,
    /// without a loader: the program must own the account, the account must
    /// be writable, and its tag says which layout it has.
    pub fn load_data_mut(acc_info: &AccountView, program_id: &Address) -> (r: Result<
        TickArrayContainerRefMut,
        AccountError,
    >)
        ensures
            ({
                let data = acc_info.data@;
                let failure = if acc_info.owner@ != program_id@ {
                    Some(AccountError::AccountOwnedByWrongProgram)
                } else if !acc_info.is_writable {
                    Some(AccountError::AccountNotMutable)
                } else if data.len() < 8 {
                    Some(AccountError::AccountDiscriminatorNotFound)
                } else if has_tag(data, dyn_discriminator()) {
                    match dyn_data_check(data, false) {
                        Err(e) => Some(e),
                        Ok(_) => None,
                    }
                } else if has_tag(data, fixed_discriminator()) {
                    match fixed_data_check(data) {
                        Err(e) => Some(e),
                        Ok(_) => None,
                    }
                } else {
                    Some(AccountError::AccountDiscriminatorMismatch)
                };
                match r {
                    Err(e) => failure == Some(e),
                    Ok(TickArrayContainerRefMut::Fixed(tick_array)) => failure.is_none()
                        && has_tag(data, fixed_discriminator()) && is_fixed_array_of(
                        tick_array,
                        data.subrange(0, 10240),
                    ),
                    Ok(TickArrayContainerRefMut::Dynamic((header, ticks))) => failure.is_none()
                        && has_tag(data, dyn_discriminator()) && is_dyn_header_of(header, data)
                        && are_dyn_ticks_of(ticks@, data),
                }
            }),
    {
        check_owner(acc_info, program_id)?;
        if !acc_info.is_writable {
            return Err(AccountError::AccountNotMutable);
        }
        if acc_info.data.len() < 8 {
            return Err(AccountError::AccountDiscriminatorNotFound);
        }
        proof {
            crate::tick_array_data::lemma_tags_differ();
        }
        if has_discriminator(acc_info.data.as_slice(), &DynTickArrayState::DISCRIMINATOR) {
            let loader = DynTickArrayLoader::new(acc_info.duplicate());
            match loader.load() {
                Ok(loaded) => Ok(TickArrayContainerRefMut::Dynamic(loaded)),
                Err(e) => Err(e),
            }
        } else if has_discriminator(acc_info.data.as_slice(), &TickArrayState::DISCRIMINATOR) {
            let loader = AccountLoad::new(acc_info.duplicate());
            match loader.load() {
                Ok(tick_array) => Ok(TickArrayContainerRefMut::Fixed(tick_array)),
                Err(e) => Err(e),
            }
        } else {
            Err(AccountError::AccountDiscriminatorMismatch)
        }
    }

    /// Whether the account's data opens with the given tag.
    /// `AccountDiscriminatorNotFound` where the data is too short for a tag.
    pub fn is_match_discriminator(acc_info: &AccountView, discriminator: &[u8]) -> (r: Result<
        bool,
        AccountError,
    >)
        ensures
            acc_info.data@.len() < 8 ==> r == Err::<bool, AccountError>(
                AccountError::AccountDiscriminatorNotFound,
            ),
            acc_info.data@.len() >= 8 ==> r == Ok::<bool, AccountError>(
                acc_info.data@.subrange(0, 8) == discriminator@,
            ),
    {
        if acc_info.data.len() < 8 {
            return Err(AccountError::AccountDiscriminatorNotFound);
        }
        if discriminator.len() != 8 {
            return Ok(false);
        }
        let mut i: usize = 0;
        while i < 8
            invariant
                i <= 8,
                acc_info.data@.len() >= 8,
                discriminator@.len() == 8,
                forall|k: int| 0 <= k < i ==> acc_info.data@[k] == discriminator@[k],
            decreases 8 - i,
        {
            if acc_info.data[i] != discriminator[i] {
                assert(acc_info.data@.subrange(0, 8)[i as int] != discriminator@[i as int]);
                return Ok(false);
            }
            i += 1;
        }
        assert(acc_info.data@.subrange(0, 8) =~= discriminator@);
        Ok(true)
    }

    /// A container for a tick array account of either layout, without a
    /// look at what the tick array holds.
    pub fn try_from_without_check(acc_info: &AccountView, program_id: &Address) -> (r: Result<
        TickArrayContainer,
        AccountError,
    >)
        ensures
            ({
                let data = acc_info.data@;
                match r {
                    Err(e) => match owned_account_check(*acc_info, *program_id) {
                        Err(first) => e == first,
                        Ok(_) => e == AccountError::AccountDiscriminatorMismatch && !has_tag(
                            data,
                            fixed_discriminator(),
                        ) && !has_tag(data, dyn_discriminator()),
                    },
                    Ok(container) => {
                        &&& owned_account_check(*acc_info, *program_id).is_ok()
                        &&& container.account().same_as(acc_info)
                        &&& container is Fixed <==> has_tag(data, fixed_discriminator())
                        &&& container is Dynamic <==> has_tag(data, dyn_discriminator())
                    },
                }
            }),
    {
        check_owner(acc_info, program_id)?;
        if acc_info.data.len() < 8 {
            return Err(AccountError::AccountDiscriminatorNotFound);
        }
        proof {
            crate::tick_array_data::lemma_tags_differ();
        }
        if has_discriminator(acc_info.data.as_slice(), &TickArrayState::DISCRIMINATOR) {
            Ok(TickArrayContainer::Fixed(AccountLoad::new(acc_info.duplicate())))
        } else if has_discriminator(acc_info.data.as_slice(), &DynTickArrayState::DISCRIMINATOR) {
            Ok(TickArrayContainer::Dynamic(DynTickArrayLoader::new(acc_info.duplicate())))
        } else {
            Err(AccountError::AccountDiscriminatorMismatch)
        }
    }

    /// Checks a tick against a tick array in the fixed layout.
    pub fn check_fixed_access(tick_array: &TickArrayState, tick_index: i32, tick_spacing: u16) -> (r:
        Result<(), ErrorCode>)
        requires
            tick_spacing > 0,
        ensures
            r == fixed_access_check(*tick_array, tick_index, tick_spacing),
    {
        TickUtils::check_tick_array_start_index(
            tick_array.start_tick_index,
            tick_index,
            tick_spacing,
        )?;
        let offset = tick_array.get_tick_offset_in_array(tick_index, tick_spacing)?;
        if tick_array.ticks[offset].tick == 0 {
            return Err(ErrorCode::InvalidTickIndex);
        }
        Ok(())
    }

    /// Checks a tick against a tick array in the dynamic layout.
    pub fn check_dyn_access(
        header: &DynTickArrayState,
        ticks: &[TickState],
        tick_index: i32,
        tick_spacing: u16,
    ) -> (r: Result<(), ErrorCode>)
        requires
            tick_spacing > 0,
        ensures
            r == dyn_access_check(*header, ticks@, tick_index, tick_spacing),
    {
        TickUtils::check_tick_array_start_index(header.start_tick_index, tick_index, tick_spacing)?;
        let position = header.get_tick_index_in_array(tick_index, tick_spacing)?;
        if position as usize >= ticks.len() {
            return Err(ErrorCode::InvalidTickIndex);
        }
        if ticks[position as usize].tick == 0 {
            return Err(ErrorCode::InvalidTickIndex);
        }
        Ok(())
    }

    /// A container for a tick array account of either layout in which
    /// `access_tick_index` has a state that names a tick.
    ///
    /// The program must own the account; its tag says which layout it has;
    /// its data must hold a tick array of that layout in full; and the tick
    /// must pass the checks of that layout.
    pub fn try_from(
        acc_info: &AccountView,
        program_id: &Address,
        access_tick_index: i32,
        tick_spacing: u16,
    ) -> (r: Result<TickArrayContainer, AccountError>)
        requires
            tick_spacing > 0,
        ensures
            match r {
                Ok(container) => {
                    &&& tick_array_account_check(
                        *acc_info,
                        *program_id,
                        access_tick_index,
                        tick_spacing,
                    ) is Ok
                    &&& container.account().same_as(acc_info)
                    &&& container is Fixed <==> has_tag(acc_info.data@, fixed_discriminator())
                    &&& container is Dynamic <==> has_tag(acc_info.data@, dyn_discriminator())
                    &&& container.data_check() is Ok
                },
                Err(e) => tick_array_account_check(
                    *acc_info,
                    *program_id,
                    access_tick_index,
                    tick_spacing,
                ) == Err::<(), AccountError>(e),
            },
    {
        let container = TickArrayContainer::try_from_without_check(acc_info, program_id)?;
        let loaded = match container.load() {
            Ok(loaded) => loaded,
            Err(e) => {
                return Err(e);
            },
        };
        let checked = match &loaded {
            TickArrayContainerRefMut::Fixed(tick_array) => {
                proof {
                    lemma_fixed_access_check_in(
                        *tick_array,
                        acc_info.data@,
                        access_tick_index,
                        tick_spacing,
                    );
                }
                TickArrayContainer::check_fixed_access(tick_array, access_tick_index, tick_spacing)
            },
            TickArrayContainerRefMut::Dynamic((header, ticks)) => {
                proof {
                    lemma_dyn_access_check_in(
                        *header,
                        ticks@,
                        acc_info.data@,
                        access_tick_index,
                        tick_spacing,
                    );
                }
                TickArrayContainer::check_dyn_access(
                    header,
                    ticks.as_slice(),
                    access_tick_index,
                    tick_spacing,
                )
            },
        };
        proof {
            lemma_tags_differ();
        }
        match checked {
            Ok(_) => Ok(container),
            Err(e) => Err(AccountError::Program(e)),
        }
    }

    /// Get the address of this tick array's account: the address that the
    /// program derives from the pool and the start index.
    pub fn key(&self, program_id: Address) -> (r: Result<Option<Address>, AccountError>)
        ensures
            match r {
                Ok(key) => self.data_check().is_ok() && forall|loaded: TickArrayContainerRefMut|
                 #[trigger]
                    self.holds(&loaded) ==> (match key {
                        Some(found) => program_address(
                            tick_array_seeds(
                                loaded.spec_pool_id()@,
                                loaded.spec_start_tick_index(),
                            ),
                            program_id@,
                        ) == Some(found@),
                        None => program_address(
                            tick_array_seeds(
                                loaded.spec_pool_id()@,
                                loaded.spec_start_tick_index(),
                            ),
                            program_id@,
                        ).is_none(),
                    }),
                Err(e) => self.data_check() == Err::<(), AccountError>(e),
            },
    {
        let loaded = self.load()?;
        proof {
            lemma_loaded_is_unique(*self, loaded);
        }
        Ok(loaded.key(program_id))
    }

    /// Get the pool of this tick array.
    pub fn get_pool_id(&self) -> (r: Result<Address, AccountError>)
        ensures
            match r {
                Ok(pool_id) => self.data_check().is_ok() && forall|
                    loaded: TickArrayContainerRefMut,
                | #[trigger] self.holds(&loaded) ==> loaded.spec_pool_id() == pool_id,
                Err(e) => self.data_check() == Err::<(), AccountError>(e),
            },
    {
        let loaded = self.load()?;
        proof {
            lemma_loaded_is_unique(*self, loaded);
        }
        Ok(loaded.get_pool_id())
    }

    /// Get how many ticks are counted as initialized in this tick array.
    pub fn get_initialized_tick_count(&self) -> (r: Result<u8, AccountError>)
        ensures
            match r {
                Ok(count) => self.data_check().is_ok() && forall|loaded: TickArrayContainerRefMut|
                 #[trigger]
                    self.holds(&loaded) ==> loaded.spec_initialized_tick_count() == count,
                Err(e) => self.data_check() == Err::<(), AccountError>(e),
            },
    {
        let loaded = self.load()?;
        proof {
            lemma_loaded_is_unique(*self, loaded);
        }
        Ok(loaded.get_initialized_tick_count())
    }

    /// Get the start tick index of this tick array.
    pub fn get_start_tick_index(&self) -> (r: Result<i32, AccountError>)
        ensures
            match r {
                Ok(start) => self.data_check().is_ok() && forall|loaded: TickArrayContainerRefMut|
                 #[trigger]
                    self.holds(&loaded) ==> loaded.spec_start_tick_index() == start,
                Err(e) => self.data_check() == Err::<(), AccountError>(e),
            },
    {
        let loaded = self.load()?;
        proof {
            lemma_loaded_is_unique(*self, loaded);
        }
        Ok(loaded.get_start_tick_index())
    }
}

/// What a container's data holds is one tick array: whatever else the data
/// holds agrees with it in every field.
pub proof fn lemma_loaded_is_unique(container: TickArrayContainer, loaded: TickArrayContainerRefMut)
    requires
        container.holds(&loaded),
    ensures
        forall|other: TickArrayContainerRefMut| #[trigger]
            container.holds(&other) ==> (match (loaded, other) {
                (TickArrayContainerRefMut::Fixed(a), TickArrayContainerRefMut::Fixed(b)) => a == b,
                (
                    TickArrayContainerRefMut::Dynamic((h1, t1)),
                    TickArrayContainerRefMut::Dynamic((h2, t2)),
                ) => h1 == h2 && t1@ == t2@,
                _ => false,
            }),
        forall|other: TickArrayState|
            container is Fixed && #[trigger] is_fixed_array_of(
                other,
                container.account().data@.subrange(0, 10240),
            ) ==> loaded == TickArrayContainerRefMut::Fixed(other),
        forall|header: DynTickArrayState, ticks: Seq<TickState>|
            #![trigger is_dyn_header_of(header, container.account().data@), are_dyn_ticks_of(ticks, container.account().data@)]
            container is Dynamic && is_dyn_header_of(header, container.account().data@)
                && are_dyn_ticks_of(ticks, container.account().data@) ==> (match loaded {
                TickArrayContainerRefMut::Dynamic((h, t)) => h == header && t@ == ticks,
                _ => false,
            }),
{
    assert forall|other: TickArrayState|
        container is Fixed && #[trigger] is_fixed_array_of(
            other,
            container.account().data@.subrange(0, 10240),
        ) implies loaded == TickArrayContainerRefMut::Fixed(other) by {
        lemma_fixed_parse_unique(
            loaded->Fixed_0,
            other,
            container.account().data@.subrange(0, 10240),
        );
    }
    assert forall|header: DynTickArrayState, ticks: Seq<TickState>|
        #![trigger is_dyn_header_of(header, container.account().data@), are_dyn_ticks_of(ticks, container.account().data@)]
        container is Dynamic && is_dyn_header_of(header, container.account().data@)
            && are_dyn_ticks_of(ticks, container.account().data@) implies (match loaded {
        TickArrayContainerRefMut::Dynamic((h, t)) => h == header && t@ == ticks,
        _ => false,
    }) by {
        let pair = loaded->Dynamic_0;
        lemma_dyn_parse_unique(pair.0, pair.1@, header, ticks, container.account().data@);
    }
    assert forall|other: TickArrayContainerRefMut| #[trigger]
        container.holds(&other) implies (match (loaded, other) {
        (TickArrayContainerRefMut::Fixed(a), TickArrayContainerRefMut::Fixed(b)) => a == b,
        (
            TickArrayContainerRefMut::Dynamic((h1, t1)),
            TickArrayContainerRefMut::Dynamic((h2, t2)),
        ) => h1 == h2 && t1@ == t2@,
        _ => false,
    }) by {
        match other {
            TickArrayContainerRefMut::Fixed(b) => {
                lemma_fixed_parse_unique(
                    loaded->Fixed_0,
                    b,
                    container.account().data@.subrange(0, 10240),
                );
            },
            TickArrayContainerRefMut::Dynamic((h2, t2)) => {
                let pair = loaded->Dynamic_0;
                lemma_dyn_parse_unique(pair.0, pair.1@, h2, t2@, container.account().data@);
            },
        }
    }
}

/// Bytes hold one tick array of the fixed layout.
pub proof fn lemma_fixed_parse_unique(a: TickArrayState, b: TickArrayState, bytes: Seq<u8>)
    requires
        is_fixed_array_of(a, bytes),
        is_fixed_array_of(b, bytes),
    ensures
        a == b,
{
    assert forall|k: int| 0 <= k < 60 implies a.ticks[k] == b.ticks[k] by {
        assert(is_tick_state_at(a.ticks[k], bytes, 44 + 168 * k));
        assert(is_tick_state_at(b.ticks[k], bytes, 44 + 168 * k));
        crate::layout::lemma_tick_state_unique(
            a.ticks[k],
            b.ticks[k],
            bytes.subrange(44 + 168 * k, 44 + 168 * k + 168),
        );
    }
    assert(a.ticks =~= b.ticks);
    assert(a.padding =~= b.padding);
    assert(a.pool_id.bytes =~= b.pool_id.bytes);
}

/// Bytes hold one tick array of the dynamic layout.
pub proof fn lemma_dyn_parse_unique(
    h1: DynTickArrayState,
    t1: Seq<TickState>,
    h2: DynTickArrayState,
    t2: Seq<TickState>,
    bytes: Seq<u8>,
)
    requires
        is_dyn_header_of(h1, bytes),
        are_dyn_ticks_of(t1, bytes),
        is_dyn_header_of(h2, bytes),
        are_dyn_ticks_of(t2, bytes),
    ensures
        h1 == h2,
        t1 == t2,
{
    assert(h1.pool_id.bytes =~= h2.pool_id.bytes);
    assert(h1.padding_0 =~= h2.padding_0);
    assert(h1.tick_offset_index =~= h2.tick_offset_index);
    assert(h1.padding_1 =~= h2.padding_1);
    assert(h1.padding_2 =~= h2.padding_2);
    assert forall|k: int| 0 <= k < t1.len() implies t1[k] == t2[k] by {
        assert(is_tick_state_at(t1[k], bytes, 216 + 168 * k));
        assert(is_tick_state_at(t2[k], bytes, 216 + 168 * k));
        crate::layout::lemma_tick_state_unique(
            t1[k],
            t2[k],
            bytes.subrange(216 + 168 * k, 216 + 168 * k + 168),
        );
    }
    assert(t1 =~= t2);
}

/// What is to be done so that a tick array account can hold the state of a
/// tick.
#[derive(Clone, Debug)]
pub enum TickArrayAccess {
    /// The account holds the tick array, with a state for the tick.
    Ready(TickArrayContainer),
    /// The account does not exist yet: it is to be created with this many
    /// bytes, and then given its first tick state by
    /// `create_dyn_tick_array_account`.
    Create { space: usize },
    /// The account holds a tick array in the dynamic layout without a state
    /// for the tick: it is to be made this large, and then given the tick
    /// state by `check_and_load_dyn_tick_array_account`.
    Grow { new_space: usize },
}

/// The first failure of the checks of a tick array against the pool and the
/// start index that it is expected to have, and of the tick against the
/// tick array.
pub open spec fn expected_array_check(
    start_tick_index: i32,
    pool_id: Address,
    expected_start: i32,
    expected_pool: Address,
    tick_index: i32,
    tick_spacing: u16,
) -> Result<(), ErrorCode> {
    if start_tick_index != expected_start || pool_id@ != expected_pool@ || array_start_index(
        tick_index as int,
        tick_spacing as int,
    ) != start_tick_index {
        Err(ErrorCode::InvalidTickArray)
    } else {
        Ok(())
    }
}

impl TickArrayContainer {
    /// Decides how the tick array account of `tick_array_start_index` comes
    /// to hold a state for `access_tick_index`.
    ///
    /// The start index must be one that a tick array can have, and the tick
    /// a multiple of the spacing. An account that the system program owns
    /// does not exist yet: it is to be created, provided that its address
    /// is the address derived for the tick array. Any other account must
    /// belong to the program and hold a tick array of the pool with that
    /// start index: in the fixed layout the tick's slot is given the tick
    /// where it names none; in the dynamic layout the account is to grow by
    /// one tick state where the tick's slot has none.
    pub fn get_or_create_tick_array(
        tick_array_account_info: &AccountView,
        system_program_id: &Address,
        program_id: &Address,
        pool_key: &Address,
        tick_array_start_index: i32,
        access_tick_index: i32,
        tick_spacing: u16,
    ) -> (r: Result<TickArrayAccess, AccountError>)
        requires
            tick_spacing > 0,
        ensures
            !is_valid_start_index(tick_array_start_index as int, tick_spacing as int) ==> r
                is Err && r->Err_0 == AccountError::Program(ErrorCode::InvalidTickIndex),
            is_valid_start_index(tick_array_start_index as int, tick_spacing as int)
                && access_tick_index as int % tick_spacing as int != 0 ==> r is Err && r->Err_0
                == AccountError::Program(ErrorCode::TickAndSpacingNotMatch),
            is_valid_start_index(tick_array_start_index as int, tick_spacing as int)
                && access_tick_index as int % tick_spacing as int == 0 ==> ({
                let account = *tick_array_account_info;
                let data = account.data@;
                if account.owner@ == system_program_id@ {
                    if program_address(
                        tick_array_seeds(pool_key@, tick_array_start_index),
                        program_id@,
                    ) == Some(account.key@) {
                        r is Ok && r->Ok_0 is Create && r->Ok_0->space == 384
                    } else {
                        r is Err && r->Err_0 == AccountError::RequireKeysEqViolated
                    }
                } else if owned_account_check(account, *program_id) is Err {
                    r is Err && r->Err_0 == owned_account_check(account, *program_id)->Err_0
                } else if has_tag(data, fixed_discriminator()) {
                    match r {
                        Ok(TickArrayAccess::Ready(TickArrayContainer::Fixed(loader))) => {
                            &&& account.is_writable
                            &&& fixed_data_check(data) is Ok
                            &&& loader.acc_info.key == account.key
                            &&& loader.acc_info.owner == account.owner
                            &&& loader.acc_info.is_writable
                            &&& loader.acc_info.lamports == account.lamports
                            &&& forall|before: TickArrayState| #[trigger]
                                is_fixed_array_of(before, data.subrange(0, 10240)) ==> ({
                                    let slot = slot_of_tick(
                                        before.start_tick_index as int,
                                        access_tick_index as int,
                                        tick_spacing as int,
                                    );
                                    &&& expected_array_check(
                                        before.start_tick_index,
                                        before.pool_id,
                                        tick_array_start_index,
                                        *pool_key,
                                        access_tick_index,
                                        tick_spacing,
                                    ) is Ok
                                    &&& before.ticks[slot].tick != 0 ==> loader.acc_info.data@
                                        == data
                                    &&& before.ticks[slot].tick == 0 ==> exists|
                                        after: TickArrayState,
                                    |
                                        {
                                            &&& after == (TickArrayState {
                                                ticks: after.ticks,
                                                ..before
                                            })
                                            &&& after.ticks@ == before.ticks@.update(
                                                slot,
                                                TickState {
                                                    tick: access_tick_index,
                                                    ..before.ticks[slot]
                                                },
                                            )
                                            &&& loader.acc_info.data@ == #[trigger] fixed_bytes_with_tail(
                                                after,
                                                data,
                                            )
                                        }
                                })
                        },
                        Ok(_) => false,
                        Err(e) => if !account.is_writable {
                            e == AccountError::AccountNotMutable
                        } else if fixed_data_check(data) is Err {
                            e == fixed_data_check(data)->Err_0
                        } else {
                            e == AccountError::Program(ErrorCode::InvalidTickArray) && forall|
                                before: TickArrayState,
                            | #[trigger]
                                is_fixed_array_of(before, data.subrange(0, 10240))
                                    ==> expected_array_check(
                                    before.start_tick_index,
                                    before.pool_id,
                                    tick_array_start_index,
                                    *pool_key,
                                    access_tick_index,
                                    tick_spacing,
                                ) is Err
                        },
                    }
                } else if has_tag(data, dyn_discriminator()) {
                    match r {
                        Ok(TickArrayAccess::Ready(TickArrayContainer::Dynamic(loader))) => {
                            &&& dyn_data_check(data, false) is Ok
                            &&& loader.acc_info.same_as(tick_array_account_info)
                            &&& expected_array_check(
                                i32_at(data, 40),
                                Address { bytes: data_array(data.subrange(8, 40)) },
                                tick_array_start_index,
                                *pool_key,
                                access_tick_index,
                                tick_spacing,
                            ) is Ok
                            &&& data[48 + slot_of_tick(
                                i32_at(data, 40) as int,
                                access_tick_index as int,
                                tick_spacing as int,
                            )] != 0
                        },
                        Ok(TickArrayAccess::Grow { new_space }) => {
                            &&& dyn_data_check(data, false) is Ok
                            &&& expected_array_check(
                                i32_at(data, 40),
                                Address { bytes: data_array(data.subrange(8, 40)) },
                                tick_array_start_index,
                                *pool_key,
                                access_tick_index,
                                tick_spacing,
                            ) is Ok
                            &&& data[48 + slot_of_tick(
                                i32_at(data, 40) as int,
                                access_tick_index as int,
                                tick_spacing as int,
                            )] == 0
                            &&& new_space == data.len() + 168
                        },
                        Ok(_) => false,
                        Err(e) => if dyn_data_check(data, false) is Err {
                            e == dyn_data_check(data, false)->Err_0
                        } else if data.len() + 168 > usize::MAX {
                            e == AccountError::AccountDidNotDeserialize
                        } else {
                            e == AccountError::Program(ErrorCode::InvalidTickArray)
                                && expected_array_check(
                                i32_at(data, 40),
                                Address { bytes: data_array(data.subrange(8, 40)) },
                                tick_array_start_index,
                                *pool_key,
                                access_tick_index,
                                tick_spacing,
                            ) is Err
                        },
                    }
                } else {
                    r is Err && r->Err_0 == AccountError::AccountDiscriminatorMismatch
                }
            }),
    {
        if !TickUtils::check_is_valid_start_index(tick_array_start_index, tick_spacing) {
            return Err(AccountError::Program(ErrorCode::InvalidTickIndex));
        }
        if !is_multiple_of_spacing(access_tick_index, tick_spacing) {
            return Err(AccountError::Program(ErrorCode::TickAndSpacingNotMatch));
        }
        proof {
            lemma_tags_differ();
        }
        if tick_array_account_info.owner.same(system_program_id) {
            let expected = get_tick_array_address(*pool_key, tick_array_start_index, *program_id);
            return match expected {
                Some(address) => if address.same(&tick_array_account_info.key) {
                    Ok(TickArrayAccess::Create { space: DynTickArrayState::FIRST_CREATE_LEN })
                } else {
                    Err(AccountError::RequireKeysEqViolated)
                },
                None => Err(AccountError::RequireKeysEqViolated),
            };
        }
        check_owner(tick_array_account_info, program_id)?;
        if TickArrayContainer::is_match_discriminator(
            tick_array_account_info,
            TickArrayState::DISCRIMINATOR.as_slice(),
        )? {
            let loader = TickArrayContainer::check_and_load_fix_tick_array_account(
                tick_array_account_info,
                program_id,
                pool_key,
                tick_array_start_index,
                access_tick_index,
                tick_spacing,
            )?;
            Ok(TickArrayAccess::Ready(TickArrayContainer::Fixed(loader)))
        } else if TickArrayContainer::is_match_discriminator(
            tick_array_account_info,
            DynTickArrayState::DISCRIMINATOR.as_slice(),
        )? {
            let loader = DynTickArrayLoader::new(tick_array_account_info.duplicate());
            let (header, ticks) = loader.load()?;
            let offset = TickArrayContainer::check_expected_array(
                header.start_tick_index,
                &header.pool_id,
                tick_array_start_index,
                pool_key,
                access_tick_index,
                tick_spacing,
            )?;
            proof {
                assert(header.pool_id.bytes@ == tick_array_account_info.data@.subrange(8, 40));
                lemma_data_array(tick_array_account_info.data@.subrange(8, 40), header.pool_id.bytes);
                assert(header.tick_offset_index@[offset as int]
                    == tick_array_account_info.data@.subrange(48, 108)[offset as int]);
            }
            if header.tick_offset_index[offset] == 0 {
                let size: usize = tick_array_account_info.data.len();
                if size > usize::MAX - TickState::LEN {
                    return Err(AccountError::AccountDidNotDeserialize);
                }
                Ok(TickArrayAccess::Grow { new_space: size + TickState::LEN })
            } else {
                Ok(TickArrayAccess::Ready(TickArrayContainer::Dynamic(loader)))
            }
        } else {
            Err(AccountError::AccountDiscriminatorMismatch)
        }
    }

    /// Checks a tick array against the pool and the start index that it is
    /// expected to have, and returns the slot of the tick in it.
    pub fn check_expected_array(
        start_tick_index: i32,
        pool_id: &Address,
        expected_start: i32,
        expected_pool: &Address,
        tick_index: i32,
        tick_spacing: u16,
    ) -> (r: Result<usize, AccountError>)
        requires
            tick_spacing > 0,
        ensures
            match r {
                Ok(slot) => expected_array_check(
                    start_tick_index,
                    *pool_id,
                    expected_start,
                    *expected_pool,
                    tick_index,
                    tick_spacing,
                ) is Ok && slot == slot_of_tick(
                    start_tick_index as int,
                    tick_index as int,
                    tick_spacing as int,
                ) && slot < 60,
                Err(e) => e == AccountError::Program(ErrorCode::InvalidTickArray)
                    && expected_array_check(
                    start_tick_index,
                    *pool_id,
                    expected_start,
                    *expected_pool,
                    tick_index,
                    tick_spacing,
                ) is Err,
            },
    {
        if start_tick_index != expected_start {
            return Err(AccountError::Program(ErrorCode::InvalidTickArray));
        }
        if !pool_id.same(expected_pool) {
            return Err(AccountError::Program(ErrorCode::InvalidTickArray));
        }
        match TickUtils::get_tick_offset_in_tick_array(start_tick_index, tick_index, tick_spacing) {
            Ok(slot) => Ok(slot),
            Err(e) => Err(AccountError::Program(e)),
        }
    }

    /// Gives a newly created account the tag of the dynamic layout, the
    /// header of the tick array of `tick_array_start_index`, and one tick
    /// state, which names `access_tick_index` and is zero in every other
    /// field.
    pub fn create_dyn_tick_array_account(
        tick_array_account_info: &AccountView,
        program_id: &Address,
        pool_key: &Address,
        tick_array_start_index: i32,
        access_tick_index: i32,
        tick_spacing: u16,
        recent_epoch: u64,
    ) -> (r: Result<DynTickArrayLoader, AccountError>)
        requires
            tick_spacing > 0,
        ensures
            ({
                let account = *tick_array_account_info;
                let data = account.data@;
                let failure = if account.owner@ != program_id@ {
                    Some(AccountError::AccountOwnedByWrongProgram)
                } else if !account.is_writable {
                    Some(AccountError::AccountNotMutable)
                } else if data.len() < 8 {
                    Some(AccountError::AccountDiscriminatorNotFound)
                } else if data.subrange(0, 8) != Seq::new(8, |i: int| 0u8) {
                    Some(AccountError::AccountDiscriminatorAlreadySet)
                } else if data.len() != 384 {
                    Some(AccountError::AccountDidNotDeserialize)
                } else if array_start_index(access_tick_index as int, tick_spacing as int)
                    != tick_array_start_index || data[48 + slot_of_tick(
                    tick_array_start_index as int,
                    access_tick_index as int,
                    tick_spacing as int,
                )] != 0 {
                    Some(AccountError::Program(ErrorCode::InvalidTickIndex))
                } else if data[108] == 255 {
                    Some(AccountError::Program(ErrorCode::InvalidTickArray))
                } else {
                    None
                };
                match r {
                    Err(e) => failure == Some(e),
                    Ok(loader) => {
                        &&& failure is None
                        &&& loader.acc_info.key == account.key
                        &&& loader.acc_info.owner == account.owner
                        &&& loader.acc_info.is_writable
                        &&& loader.acc_info.lamports == account.lamports
                        &&& dyn_data_check(loader.acc_info.data@, true) is Ok
                        &&& loader.acc_info.data@.len() == data.len()
                        &&& exists|
                            before: DynTickArrayState,
                            ticks: Seq<TickState>,
                            after: DynTickArrayState,
                            others: Seq<TickState>,
                        |
                            #![trigger is_dyn_header_of(before, tagged_data(data)), are_dyn_ticks_of(ticks, tagged_data(data)), dyn_header_body(after), tick_states_bytes(others)]
                            {
                                &&& is_dyn_header_of(before, tagged_data(data))
                                &&& are_dyn_ticks_of(ticks, tagged_data(data))
                                &&& after == (DynTickArrayState {
                                    start_tick_index: tick_array_start_index,
                                    pool_id: *pool_key,
                                    recent_epoch,
                                    alloc_tick_count: (before.alloc_tick_count + 1) as u8,
                                    tick_offset_index: after.tick_offset_index,
                                    ..before
                                })
                                &&& after.tick_offset_index@ == before.tick_offset_index@.update(
                                    slot_of_tick(
                                        tick_array_start_index as int,
                                        access_tick_index as int,
                                        tick_spacing as int,
                                    ),
                                    (before.alloc_tick_count + 1) as u8,
                                )
                                &&& ticks.len() == 1
                                &&& before.alloc_tick_count == 0 ==> others.len() == 1
                                    && others[0].is_new_for(access_tick_index)
                                &&& before.alloc_tick_count != 0 ==> others == ticks
                                &&& loader.acc_info.data@ == dyn_discriminator()
                                    + dyn_header_body(after) + tick_states_bytes(others)
                            }
                    },
                }
            }),
    {
        let mut loader = DynTickArrayLoader::try_from_unchecked(
            tick_array_account_info,
            program_id,
        )?;
        let ghost data = tick_array_account_info.data@;
        let (mut header, mut ticks) = loader.load_init()?;
        if ticks.len() != 1 {
            return Err(AccountError::AccountDidNotDeserialize);
        }
        let ghost tagged = loader.acc_info.data@;
        let ghost before = header;
        let ghost before_ticks = ticks@;
        proof {
            assert(tagged == tagged_data(data));
            crate::tick::lemma_array_start_index(access_tick_index as int, tick_spacing as int);
            assert(tagged.subrange(48, 108) =~= data.subrange(48, 108));
            assert(header.tick_offset_index@ == tagged.subrange(48, 108));
            assert forall|k: int| 0 <= k < 60 implies header.tick_offset_index[k] == data[48
                + k] by {
                assert(header.tick_offset_index[k] == data.subrange(48, 108)[k]);
            }
            assert(header.alloc_tick_count == data[108]);
        }
        let _ = header.initialize(tick_array_start_index, tick_spacing, *pool_key, recent_epoch);
        let tick_state_index = match header.use_one_tick(access_tick_index, tick_spacing) {
            Ok(index) => index as usize,
            Err(e) => {
                return Err(AccountError::Program(e));
            },
        };
        if tick_state_index < ticks.len() {
            let mut state = TickState::default();
            state.tick = access_tick_index;
            ticks[tick_state_index] = state;
        }
        let ghost stored = ticks@;
        loader.store(&header, ticks);
        proof {
            crate::layout::lemma_dyn_array_bytes_match(header, stored, dyn_discriminator());
            assert(is_dyn_header_of(before, tagged_data(data)) && are_dyn_ticks_of(
                before_ticks,
                tagged_data(data),
            ));
            assert(loader.acc_info.data@ == dyn_discriminator() + dyn_header_body(header)
                + tick_states_bytes(stored));
        }
        Ok(loader)
    }

    /// Checks a tick array account in the fixed layout against the pool and
    /// the start index, and gives the slot of `access_tick_index` the tick
    /// where it names none.
    pub fn check_and_load_fix_tick_array_account(
        tick_array_account_info: &AccountView,
        program_id: &Address,
        pool_key: &Address,
        tick_array_start_index: i32,
        access_tick_index: i32,
        tick_spacing: u16,
    ) -> (r: Result<AccountLoad, AccountError>)
        requires
            tick_spacing > 0,
        ensures
            ({
                let account = *tick_array_account_info;
                let data = account.data@;
                match r {
                    Ok(loader) => {
                        &&& tagged_account_check(account, *program_id, fixed_discriminator())
                            is Ok
                        &&& account.is_writable
                        &&& fixed_data_check(data) is Ok
                        &&& loader.acc_info.key == account.key
                        &&& loader.acc_info.owner == account.owner
                        &&& loader.acc_info.is_writable
                        &&& loader.acc_info.lamports == account.lamports
                        &&& forall|before: TickArrayState| #[trigger]
                            is_fixed_array_of(before, data.subrange(0, 10240)) ==> ({
                                let slot = slot_of_tick(
                                    before.start_tick_index as int,
                                    access_tick_index as int,
                                    tick_spacing as int,
                                );
                                &&& expected_array_check(
                                    before.start_tick_index,
                                    before.pool_id,
                                    tick_array_start_index,
                                    *pool_key,
                                    access_tick_index,
                                    tick_spacing,
                                ) is Ok
                                &&& before.ticks[slot].tick != 0 ==> loader.acc_info.data@ == data
                                &&& before.ticks[slot].tick == 0 ==> exists|after: TickArrayState|
                                    {
                                        &&& after == (TickArrayState {
                                            ticks: after.ticks,
                                            ..before
                                        })
                                        &&& after.ticks@ == before.ticks@.update(
                                            slot,
                                            TickState {
                                                tick: access_tick_index,
                                                ..before.ticks[slot]
                                            },
                                        )
                                        &&& loader.acc_info.data@ == #[trigger] fixed_bytes_with_tail(
                                            after,
                                            data,
                                        )
                                    }
                            })
                    },
                    Err(e) => if tagged_account_check(
                        account,
                        *program_id,
                        fixed_discriminator(),
                    ) is Err {
                        e == tagged_account_check(account, *program_id, fixed_discriminator())->Err_0
                    } else if !account.is_writable {
                        e == AccountError::AccountNotMutable
                    } else if fixed_data_check(data) is Err {
                        e == fixed_data_check(data)->Err_0
                    } else {
                        e == AccountError::Program(ErrorCode::InvalidTickArray) && forall|
                            before: TickArrayState,
                        | #[trigger]
                            is_fixed_array_of(before, data.subrange(0, 10240))
                                ==> expected_array_check(
                                before.start_tick_index,
                                before.pool_id,
                                tick_array_start_index,
                                *pool_key,
                                access_tick_index,
                                tick_spacing,
                            ) is Err
                    },
                }
            }),
    {
        let mut loader = AccountLoad::try_from(tick_array_account_info, program_id)?;
        let mut tick_array = loader.load_mut()?;
        let ghost before = tick_array;
        let ghost data = tick_array_account_info.data@;
        proof {
            assert forall|other: TickArrayState| #[trigger]
                is_fixed_array_of(other, data.subrange(0, 10240)) implies other == before by {
                lemma_fixed_parse_unique(before, other, data.subrange(0, 10240));
            }
        }
        let offset = TickArrayContainer::check_expected_array(
            tick_array.start_tick_index,
            &tick_array.pool_id,
            tick_array_start_index,
            pool_key,
            access_tick_index,
            tick_spacing,
        )?;
        if tick_array.ticks[offset].tick == 0 {
            let mut state = tick_array.ticks[offset];
            state.tick = access_tick_index;
            tick_array.ticks[offset] = state;
            loader.store_with_tail(&tick_array);
            proof {
                assert(tick_array == (TickArrayState { ticks: tick_array.ticks, ..before }));
            }
        }
        Ok(loader)
    }

    /// After a tick array account in the dynamic layout has been made larger
    /// by one tick state: gives the slot of `access_tick_index` the new tick
    /// state, which names the tick and is zero in every other field.
    pub fn check_and_load_dyn_tick_array_account(
        tick_array_account_info: &AccountView,
        program_id: &Address,
        access_tick_index: i32,
        tick_spacing: u16,
    ) -> (r: Result<DynTickArrayLoader, AccountError>)
        requires
            tick_spacing > 0,
        ensures
            ({
                let account = *tick_array_account_info;
                let data = account.data@;
                let start = i32_at(data, 40);
                let slot = slot_of_tick(start as int, access_tick_index as int, tick_spacing as int);
                let failure = if tagged_account_check(account, *program_id, dyn_discriminator())
                    is Err {
                    Some(tagged_account_check(account, *program_id, dyn_discriminator())->Err_0)
                } else if !account.is_writable {
                    Some(AccountError::AccountNotMutable)
                } else if dyn_data_check(data, true) is Err {
                    Some(dyn_data_check(data, true)->Err_0)
                } else if array_start_index(access_tick_index as int, tick_spacing as int) != start
                    || data[48 + slot] != 0 {
                    Some(AccountError::Program(ErrorCode::InvalidTickIndex))
                } else if data[108] == 255 {
                    Some(AccountError::Program(ErrorCode::InvalidTickArray))
                } else if data.len() < 216 + 168 * (data[108] + 1) {
                    Some(AccountError::AccountDidNotDeserialize)
                } else {
                    None
                };
                match r {
                    Err(e) => failure == Some(e),
                    Ok(loader) => {
                        &&& failure is None
                        &&& loader.acc_info.key == account.key
                        &&& loader.acc_info.owner == account.owner
                        &&& loader.acc_info.is_writable
                        &&& loader.acc_info.lamports == account.lamports
                        &&& loader.acc_info.data@.len() == data.len()
                        &&& dyn_data_check(loader.acc_info.data@, true) is Ok
                        &&& exists|
                            before: DynTickArrayState,
                            ticks: Seq<TickState>,
                            after: DynTickArrayState,
                            others: Seq<TickState>,
                        |
                            #![trigger is_dyn_header_of(before, data), are_dyn_ticks_of(ticks, data), dyn_header_body(after), tick_states_bytes(others)]
                            {
                                &&& is_dyn_header_of(before, data)
                                &&& are_dyn_ticks_of(ticks, data)
                                &&& after == (DynTickArrayState {
                                    alloc_tick_count: (before.alloc_tick_count + 1) as u8,
                                    tick_offset_index: after.tick_offset_index,
                                    ..before
                                })
                                &&& after.tick_offset_index@ == before.tick_offset_index@.update(
                                    slot,
                                    (before.alloc_tick_count + 1) as u8,
                                )
                                &&& others == ticks.update(
                                    before.alloc_tick_count as int,
                                    others[before.alloc_tick_count as int],
                                )
                                &&& others[before.alloc_tick_count as int].is_new_for(
                                    access_tick_index,
                                )
                                &&& loader.acc_info.data@ == dyn_discriminator()
                                    + dyn_header_body(after) + tick_states_bytes(others)
                            }
                    },
                }
            }),
    {
        let mut loader = DynTickArrayLoader::try_from(tick_array_account_info, program_id)?;
        let ghost data = tick_array_account_info.data@;
        let (mut header, mut ticks) = loader.load_mut(true)?;
        let ghost before = header;
        let ghost before_ticks = ticks@;
        proof {
            crate::tick::lemma_array_start_index(access_tick_index as int, tick_spacing as int);
            assert forall|k: int| 0 <= k < 60 implies header.tick_offset_index[k] == data[48
                + k] by {
                assert(header.tick_offset_index[k] == data.subrange(48, 108)[k]);
            }
        }
        let array_index = match header.use_one_tick(access_tick_index, tick_spacing) {
            Ok(index) => index as usize,
            Err(e) => {
                return Err(AccountError::Program(e));
            },
        };
        if array_index >= ticks.len() {
            return Err(AccountError::AccountDidNotDeserialize);
        }
        let mut state = TickState::default();
        state.tick = access_tick_index;
        ticks[array_index] = state;
        let ghost stored = ticks@;
        loader.store(&header, ticks);
        proof {
            crate::layout::lemma_dyn_array_bytes_match(header, stored, dyn_discriminator());
            assert(is_dyn_header_of(before, data) && are_dyn_ticks_of(before_ticks, data));
            assert(loader.acc_info.data@ == dyn_discriminator() + dyn_header_body(header)
                + tick_states_bytes(stored));
        }
        Ok(loader)
    }
}

/// The data of an account after it has been given the tag of the dynamic
/// layout.
pub open spec fn tagged_data(data: Seq<u8>) -> Seq<u8> {
    dyn_discriminator() + data.subrange(8, data.len() as int)
}

/// The bytes of a tick array in the fixed layout, and after them what the
/// old data had beyond them.
pub open spec fn fixed_bytes_with_tail(tick_array: TickArrayState, old_data: Seq<u8>) -> Seq<u8> {
    TickArrayData::Fixed(tick_array).spec_bytes() + old_data.subrange(
        10240,
        old_data.len() as int,
    )
}

/// The 32 bytes as an array.
pub open spec fn data_array(bytes: Seq<u8>) -> [u8; 32] {
    choose|array: [u8; 32]| array@ == bytes
}

/// The array of 32 bytes is the array that holds them.
pub proof fn lemma_data_array(bytes: Seq<u8>, array: [u8; 32])
    requires
        array@ == bytes,
    ensures
        data_array(bytes) == array,
{
    assert(data_array(bytes)@ == bytes);
    assert(data_array(bytes) =~= array);
}

impl AccountLoad {
    /// Stores a tick array in the first 10240 bytes of the account's data
    /// and keeps what the data has beyond them.
    pub fn store_with_tail(&mut self, tick_array: &TickArrayState)
        requires
            old(self).acc_info.data@.len() >= 10240,
        ensures
            final(self).acc_info.data@ == fixed_bytes_with_tail(
                *tick_array,
                old(self).acc_info.data@,
            ),
            final(self).acc_info.key == old(self).acc_info.key,
            final(self).acc_info.owner == old(self).acc_info.owner,
            final(self).acc_info.is_writable == old(self).acc_info.is_writable,
            final(self).acc_info.lamports == old(self).acc_info.lamports,
    {
        let mut bytes = TickArrayData::Fixed(*tick_array).to_bytes();
        let len: usize = self.acc_info.data.len();
        let tail = slice_subrange(self.acc_info.data.as_slice(), TickArrayState::LEN, len);
        crate::layout::append_bytes(&mut bytes, tail);
        self.acc_info.data = bytes;
    }
}

} // verus!
