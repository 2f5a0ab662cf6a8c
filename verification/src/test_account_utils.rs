//! Accounts made up for trying the tick-array logic out.

use vstd::prelude::*;
use crate::account::AccountView;
use crate::address::Address;
use crate::layout::append_bytes;
use crate::tick_array_data::TickArrayData;

verus! {

/// An account with `data_len` zero bytes of data.
pub fn mock_account_info(
    key: &Address,
    owner: &Address,
    is_signer: bool,
    is_writable: bool,
    lamports: u64,
    data_len: usize,
) -> (r: AccountView)
    ensures
        r.key == *key,
        r.owner == *owner,
        r.is_signer == is_signer,
        r.is_writable == is_writable,
        r.lamports == lamports,
        r.data@ == Seq::new(data_len as nat, |i: int| 0u8),
{
    let mut data: Vec<u8> = Vec::new();
    let mut i: usize = 0;
    while i < data_len
        invariant
            i <= data_len,
            data@.len() == i,
            forall|k: int| 0 <= k < i ==> data@[k] == 0u8,
        decreases data_len - i,
    {
        data.push(0u8);
        i += 1;
    }
    assert(data@ =~= Seq::new(data_len as nat, |i: int| 0u8));
    AccountView { key: *key, owner: *owner, is_signer, is_writable, lamports, data }
}

/// An account whose data is a tick array: its tag and its bytes.
pub fn mock_anchor_account_info(
    key: &Address,
    owner: &Address,
    is_signer: bool,
    is_writable: bool,
    lamports: u64,
    account: &TickArrayData,
) -> (r: AccountView)
    ensures
        r.key == *key,
        r.owner == *owner,
        r.is_signer == is_signer,
        r.is_writable == is_writable,
        r.lamports == lamports,
        r.data@ == account.spec_bytes(),
{
    mock_anchor_account_info_v2(key, owner, is_signer, is_writable, lamports, account, None)
}

/// An account whose data is a tick array, its tag and its bytes, and after
/// them the extra bytes, if any.
pub fn mock_anchor_account_info_v2(
    key: &Address,
    owner: &Address,
    is_signer: bool,
    is_writable: bool,
    lamports: u64,
    account: &TickArrayData,
    extra_account_data: Option<&[u8]>,
) -> (r: AccountView)
    ensures
        r.key == *key,
        r.owner == *owner,
        r.is_signer == is_signer,
        r.is_writable == is_writable,
        r.lamports == lamports,
        r.data@ == account.spec_bytes() + (match extra_account_data {
            Some(extra) => extra@,
            None => Seq::<u8>::empty(),
        }),
{
    let mut data = account.to_bytes();
    if let Some(extra) = extra_account_data {
        append_bytes(&mut data, extra);
    }
    assert(data@ =~= account.spec_bytes() + (match extra_account_data {
        Some(extra) => extra@,
        None => Seq::<u8>::empty(),
    }));
    AccountView { key: *key, owner: *owner, is_signer, is_writable, lamports, data }
}

/// A writable account without a balance whose data is a tick array and the
/// extra bytes, if any.
pub fn mock_anchor_account_info_v3(
    key: &Address,
    owner: &Address,
    account: &TickArrayData,
    extra_account_data: Option<&[u8]>,
) -> (r: AccountView)
    ensures
        r.key == *key,
        r.owner == *owner,
        !r.is_signer,
        r.is_writable,
        r.lamports == 0,
        r.data@ == account.spec_bytes() + (match extra_account_data {
            Some(extra) => extra@,
            None => Seq::<u8>::empty(),
        }),
{
    mock_anchor_account_info_v2(key, owner, false, true, 0, account, extra_account_data)
}

} // verus!
