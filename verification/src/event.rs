//! The events a registry appends to its log when an operation succeeds.

use vstd::prelude::*;

use crate::account::AccountId;

verus! {

/// One entry of the registry's event log. The host reads and persists the
/// log; the registry only appends to it.
#[derive(Clone, Copy, PartialEq, Eq, Debug)]
#[allow(inconsistent_fields)]
pub enum Event {
    /// A token changed hands. A mint carries the null account as `from` and
    /// a burn carries the null account as `to`.
    Transfer { from: Option<AccountId>, to: Option<AccountId>, id: u32 },
    /// An account was approved to move one specific token.
    Approval { from: AccountId, to: AccountId, id: u32 },
    /// An operator was enabled or disabled for all of an owner's tokens.
    ApprovalForAll { owner: AccountId, operator: AccountId, approved: bool },
}

} // verus!
