//! Account identities and the pair key of the operator-approval table.

use vstd::prelude::*;

use crate::store::StoreKey;

verus! {

/// An opaque fixed-size account identity.
///
/// The value `0` is reserved as the null account: it denotes "no account" in
/// transfer events and is never a valid token owner or delegate.
#[derive(Clone, Copy, PartialEq, Eq, Structural, Debug)]
pub struct AccountId {
    pub id: u128,
}

/// The sentinel identity that stands for "no account".
pub open spec fn null_account() -> AccountId {
    AccountId { id: 0 }
}

impl AccountId {
    /// Returns the null account, the sentinel for "no account".
    pub fn null() -> (a: AccountId)
        ensures
            a == null_account(),
    {
        AccountId { id: 0 }
    }

    /// True exactly when this is the null account.
    pub fn is_null(&self) -> (r: bool)
        ensures
            r <==> *self == null_account(),
    {
        self.id == 0
    }
}

impl StoreKey for AccountId {
    fn key_eq(&self, other: &Self) -> (r: bool) {
        self.id == other.id
    }
}

/// The key of the operator-approval table: an owner together with the
/// account empowered (or not) to move any of the owner's tokens.
#[derive(Clone, Copy, PartialEq, Eq, Structural, Debug)]
pub struct OperatorKey {
    pub owner: AccountId,
    pub operator: AccountId,
}

impl StoreKey for OperatorKey {
    fn key_eq(&self, other: &Self) -> (r: bool) {
        self.owner.id == other.owner.id && self.operator.id == other.operator.id
    }
}

} // verus!
