//! What the tick-array logic reads of an account.

use vstd::prelude::*;
use vstd::slice::slice_to_vec;
use crate::address::Address;

verus! {

/// An account as the tick-array logic sees it: its address, its owner,
/// whether it may be written, its balance and its data.
#[derive(Clone, Debug)]
pub struct AccountView {
    pub key: Address,
    pub owner: Address,
    pub is_signer: bool,
    pub is_writable: bool,
    pub lamports: u64,
    pub data: Vec<u8>,
}

impl AccountView {
    /// Whether two views show the same account in the same state.
    pub open spec fn same_as(&self, other: &AccountView) -> bool {
        &&& self.key == other.key
        &&& self.owner == other.owner
        &&& self.is_signer == other.is_signer
        &&& self.is_writable == other.is_writable
        &&& self.lamports == other.lamports
        &&& self.data@ == other.data@
    }

    /// A copy of the view.
    pub fn duplicate(&self) -> (r: AccountView)
        ensures
            r.same_as(self),
    {
        AccountView {
            key: self.key,
            owner: self.owner,
            is_signer: self.is_signer,
            is_writable: self.is_writable,
            lamports: self.lamports,
            data: slice_to_vec(self.data.as_slice()),
        }
    }

    /// How long the account's data is.
    pub fn data_len(&self) -> (r: usize)
        ensures
            r == self.data@.len(),
    {
        self.data.len()
    }
}

} // verus!
