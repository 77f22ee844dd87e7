//! The typed errors that the registry's operations return.

use vstd::prelude::*;

verus! {

/// Why a registry operation was refused. Every failure leaves the registry
/// unchanged.
#[derive(Clone, Copy, PartialEq, Eq, Structural, Debug)]
pub enum Error {
    /// The caller is not the token's exact current owner, where direct
    /// ownership is required.
    NotOwner,
    /// The caller is neither the owner, the token's approved delegate, nor
    /// an operator of the owner, where any of those would suffice.
    NotApproved,
    /// A mint named a token id that already has an owner.
    TokenExists,
    /// The operation named a token id with no current owner.
    TokenNotFound,
    /// A map entry could not be created: an approval already stands for the
    /// token, or an ownership counter is at its maximum.
    CannotInsert,
    /// A map entry could not be removed.
    CannotRemove,
    /// A map entry that was expected to exist could not be read.
    CannotFetchValue,
    /// An operation-specific rule was violated: the null account was named,
    /// an account named itself as its own operator, or a metadata write came
    /// from an unauthorized account.
    NotAllowed,
}

} // verus!
