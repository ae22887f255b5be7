use vstd::prelude::*;

use crate::addr::Address;

verus! {

/// The slice of one account's state that this program reads and writes:
/// its address, its recorded owner, the two per-invocation flags, and its
/// data bytes. The surrounding runtime hands these values in and applies
/// any byte change back to the real account.
pub struct AccountView {
    /// The account's address.
    pub key: Address,
    /// The program that owns the account.
    pub owner: Address,
    /// Whether this account signed the invocation.
    pub is_signer: bool,
    /// Whether this account may be written during the invocation.
    pub is_writable: bool,
    /// The account's data bytes.
    pub data: Vec<u8>,
}

/// The mathematical value of an account: what the contracts speak of.
pub struct AccountState {
    pub key: Seq<u8>,
    pub owner: Seq<u8>,
    pub is_signer: bool,
    pub is_writable: bool,
    pub data: Seq<u8>,
}

impl View for AccountView {
    type V = AccountState;

    open spec fn view(&self) -> AccountState {
        AccountState {
            key: self.key@,
            owner: self.owner@,
            is_signer: self.is_signer,
            is_writable: self.is_writable,
            data: self.data@,
        }
    }
}

impl AccountView {
    /// Both identities are well-formed fixed-width principals.
    pub open spec fn wf(&self) -> bool {
        self.key.wf() && self.owner.wf()
    }
}

} // verus!
