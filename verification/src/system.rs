//! What to do to an account so that it can hold a tick array: create it, top
//! up its balance, make it larger. The library decides; its caller carries
//! the decision out.

use vstd::prelude::*;
use crate::address::Address;
use crate::error::ErrorCode;

verus! {

/// How an account comes to have a given size and to belong to the program.
#[derive(Clone, Copy, Debug, PartialEq, Eq, Structural)]
pub enum AccountCreationPlan {
    /// The account has no balance: create it with this balance and size.
    Create { lamports: u64, space: u64 },
    /// The account has a balance already: transfer this much to it, where
    /// that is not zero, then allocate the size and assign the account to
    /// the program.
    Fund { transfer: u64, space: u64 },
}

/// How an account comes to have room for one more tick state.
#[derive(Clone, Copy, Debug, PartialEq, Eq, Structural)]
pub struct ReallocPlan {
    /// Whether the account is to be made larger.
    pub resize: bool,
    /// How much is to be transferred to the account, after it has been made
    /// larger, so that it stays exempt from rent.
    pub top_up: u64,
}

/// The balance that an account needs: what exempts it from rent, and at
/// least one.
pub open spec fn needed_balance(minimum_balance: u64) -> u64 {
    if minimum_balance == 0 {
        1
    } else {
        minimum_balance
    }
}

/// What is missing of a needed balance.
pub open spec fn missing_balance(minimum_balance: u64, current_lamports: u64) -> u64 {
    if needed_balance(minimum_balance) > current_lamports {
        (needed_balance(minimum_balance) - current_lamports) as u64
    } else {
        0
    }
}

/// Decides how the target account is created or allocated: an account
/// without a balance is created with the balance that exempts it from rent;
/// any other account is brought up to that balance, or to one where that
/// balance is zero, and then allocated and assigned.
pub fn create_or_allocate_account(current_lamports: u64, minimum_balance: u64, space: usize) -> (r:
    AccountCreationPlan)
    ensures
        r == (if current_lamports == 0 {
            AccountCreationPlan::Create { lamports: minimum_balance, space: space as u64 }
        } else {
            AccountCreationPlan::Fund {
                transfer: missing_balance(minimum_balance, current_lamports),
                space: space as u64,
            }
        }),
{
    if current_lamports == 0 {
        AccountCreationPlan::Create { lamports: minimum_balance, space: space as u64 }
    } else {
        let needed: u64 = if minimum_balance == 0 {
            1
        } else {
            minimum_balance
        };
        AccountCreationPlan::Fund {
            transfer: needed.saturating_sub(current_lamports),
            space: space as u64,
        }
    }
}

/// What `realloc_account_if_needed` returns.
///
/// `IllegalAccountOwner` where the program does not own the account. An
/// account that is large enough stays as it is. Any other account is to be
/// made larger and brought up to the balance that exempts the larger account
/// from rent; `InvalidAccount` where that takes a transfer and the system
/// program is not the one given.
pub open spec fn realloc_plan_spec(
    owner: Address,
    program_id: Address,
    current_account_size: usize,
    new_account_space: usize,
    current_lamports: u64,
    minimum_balance: u64,
    system_program_key: Address,
    system_program_id: Address,
) -> Result<ReallocPlan, ErrorCode> {
    if owner@ != program_id@ {
        Err(ErrorCode::IllegalAccountOwner)
    } else if current_account_size >= new_account_space {
        Ok(ReallocPlan { resize: false, top_up: 0 })
    } else if missing_balance(minimum_balance, current_lamports) > 0 && system_program_key@
        != system_program_id@ {
        Err(ErrorCode::InvalidAccount)
    } else {
        Ok(ReallocPlan { resize: true, top_up: missing_balance(minimum_balance, current_lamports) })
    }
}

/// Decides whether the target account is to be made larger so that it has
/// `new_account_space` bytes, and what is to be transferred to it then.
/// `minimum_balance` is the balance that exempts an account of the new size
/// from rent.
pub fn realloc_account_if_needed(
    owner: &Address,
    program_id: &Address,
    current_account_size: usize,
    new_account_space: usize,
    current_lamports: u64,
    minimum_balance: u64,
    system_program_key: &Address,
    system_program_id: &Address,
) -> (r: Result<ReallocPlan, ErrorCode>)
    ensures
        r == realloc_plan_spec(
            *owner,
            *program_id,
            current_account_size,
            new_account_space,
            current_lamports,
            minimum_balance,
            *system_program_key,
            *system_program_id,
        ),
{
    if !owner.same(program_id) {
        return Err(ErrorCode::IllegalAccountOwner);
    }
    if current_account_size >= new_account_space {
        return Ok(ReallocPlan { resize: false, top_up: 0 });
    }
    let needed: u64 = if minimum_balance == 0 {
        1
    } else {
        minimum_balance
    };
    let top_up: u64 = needed.saturating_sub(current_lamports);
    if top_up > 0 && !system_program_key.same(system_program_id) {
        return Err(ErrorCode::InvalidAccount);
    }
    Ok(ReallocPlan { resize: true, top_up })
}

/// How many seconds an epoch is taken to last where no cluster tells.
pub const SECONDS_PER_EPOCH: u64 = 172_800;

/// The epoch of a time, in seconds since the start of 1970, where no
/// cluster tells the epoch: two days make an epoch.
pub fn get_recent_epoch(unix_timestamp: u64) -> (r: u64)
    ensures
        r == unix_timestamp / 172_800,
{
    unix_timestamp / SECONDS_PER_EPOCH
}

} // verus!
