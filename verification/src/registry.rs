//! The token registry: the stateful ownership/approval ledger.

use vstd::prelude::*;
use vstd::utf8::{decode_utf8, valid_utf8};

use crate::account::{null_account, AccountId, OperatorKey};
use crate::error::Error;
use crate::event::Event;
use crate::store::KvStore;

verus! {

/// The characters a byte payload displays as: its UTF-8 decoding, or the
/// empty string when the bytes are not valid UTF-8.
pub open spec fn string_of_bytes(b: Seq<u8>) -> Seq<char> {
    if valid_utf8(b) {
        decode_utf8(b)
    } else {
        Seq::<char>::empty()
    }
}

/// Relies on alloc's `String::from_utf8`: it returns the decoded string
/// exactly when the bytes are a valid UTF-8 encoding, and refuses them
/// otherwise.
#[verifier::external_body]
fn bytes_to_string(v: Vec<u8>) -> (r: Option<String>)
    ensures
        match r {
            Some(s) => valid_utf8(v@) && s@ == decode_utf8(v@),
            None => !valid_utf8(v@),
        },
{
    match String::from_utf8(v) {
        Ok(s) => Some(s),
        Err(_) => None,
    }
}

/// Copies a byte payload.
fn copy_bytes(v: &Vec<u8>) -> (r: Vec<u8>)
    ensures
        r@ == v@,
{
    let mut out: Vec<u8> = Vec::new();
    let mut i: usize = 0;
    while i < v.len()
        invariant
            i <= v@.len(),
            out@ == v@.subrange(0, i as int),
        decreases v@.len() - i,
    {
        out.push(v[i]);
        proof {
            assert(out@ =~= v@.subrange(0, i + 1));
        }
        i = i + 1;
    }
    proof {
        assert(out@ =~= v@);
    }
    out
}

/// The token ids of `m` that `a` currently owns.
pub open spec fn owned_tokens(m: Map<u32, AccountId>, a: AccountId) -> Set<u32> {
    m.dom().filter(|t: u32| m[t] == a)
}

/// `b` keeps `a`'s version and contract owner.
pub open spec fn same_admin(a: Erc721, b: Erc721) -> bool {
    b.spec_version() == a.spec_version() && b.spec_contract_owner() == a.spec_contract_owner()
}

/// `b` keeps all four of `a`'s metadata tables.
pub open spec fn same_metadata(a: Erc721, b: Erc721) -> bool {
    b.account_meta() == a.account_meta() && b.supply_meta() == a.supply_meta() && b.roles_meta()
        == a.roles_meta() && b.token_meta() == a.token_meta()
}

/// An account owns a finite number of tokens whenever the owner table is
/// finite.
proof fn lemma_owned_tokens_finite(m: Map<u32, AccountId>, a: AccountId)
    requires
        m.dom().finite(),
    ensures
        owned_tokens(m, a).finite(),
{
    m.dom().lemma_len_filter(|t: u32| m[t] == a);
}

/// Giving a fresh token to `a` adds it to `a`'s owned set and to nobody
/// else's.
proof fn lemma_owned_tokens_insert(m: Map<u32, AccountId>, t: u32, a: AccountId, b: AccountId)
    requires
        !m.dom().contains(t),
    ensures
        owned_tokens(m.insert(t, a), b) == (if b == a {
            owned_tokens(m, b).insert(t)
        } else {
            owned_tokens(m, b)
        }),
{
    if b == a {
        assert(owned_tokens(m.insert(t, a), b) =~= owned_tokens(m, b).insert(t));
    } else {
        assert(owned_tokens(m.insert(t, a), b) =~= owned_tokens(m, b));
    }
}

/// Taking a token away removes it from its owner's owned set and changes
/// nobody else's.
proof fn lemma_owned_tokens_remove(m: Map<u32, AccountId>, t: u32, b: AccountId)
    requires
        m.dom().contains(t),
    ensures
        owned_tokens(m.remove(t), b) == (if m[t] == b {
            owned_tokens(m, b).remove(t)
        } else {
            owned_tokens(m, b)
        }),
{
    if m[t] == b {
        assert(owned_tokens(m.remove(t), b) =~= owned_tokens(m, b).remove(t));
    } else {
        assert(owned_tokens(m.remove(t), b) =~= owned_tokens(m, b));
    }
}

/// The invariant carries over to a state that keeps the owner, counter and
/// mint-list tables, as long as every approval still names a held-over
/// approval or an existing token.
proof fn lemma_wf_core_unchanged(a: Erc721, b: Erc721)
    requires
        a.wf(),
        b.stores_wf(),
        b.owners() == a.owners(),
        b.counts() == a.counts(),
        b.token_list() == a.token_list(),
        forall|t: u32| #[trigger] b.approvals().dom().contains(t) ==> a.approvals().dom().contains(
            t,
        ) || a.owners().dom().contains(t),
    ensures
        b.wf(),
{
    assert forall|x: AccountId| #[trigger] b.balance(x) == owned_tokens(b.owners(), x).len() by {
        assert(a.balance(x) == owned_tokens(a.owners(), x).len());
    }
    assert forall|t: u32| #[trigger] b.approvals().dom().contains(t) implies b.owners().dom().contains(t) by {
        if a.approvals().dom().contains(t) {
            assert(a.owners().dom().contains(t));
        }
    }
    assert forall|t: u32| #[trigger] b.owners().dom().contains(t) implies b.token_list().contains(t) by {
        assert(a.owners().dom().contains(t));
        assert(a.token_list().contains(t));
    }
}

/// The non-fungible-token registry.
///
/// Four core tables back it: token to owner, token to approved delegate,
/// owner/operator pairs to a standing approval, and account to owned-token
/// count. The count table is kept in lockstep with the owner table: an
/// account's counter always equals the number of tokens it owns.
pub struct Erc721 {
    version: u8,
    owner: AccountId,
    token_owner: KvStore<u32, AccountId>,
    token_approvals: KvStore<u32, AccountId>,
    owned_tokens_count: KvStore<AccountId, u32>,
    operator_approvals: KvStore<OperatorKey, bool>,
    tokens: Vec<u32>,
    account_metadata: KvStore<AccountId, Vec<u8>>,
    supply_chain_data: KvStore<AccountId, Vec<u8>>,
    roles_data: KvStore<AccountId, Vec<u8>>,
    token_metadata: KvStore<u32, Vec<u8>>,
    events: Vec<Event>,
}

impl Erc721 {
    /// The owner table: which account owns each existing token.
    pub closed spec fn owners(&self) -> Map<u32, AccountId> {
        self.token_owner@
    }

    /// The approval table: the single delegate approved for each token.
    pub closed spec fn approvals(&self) -> Map<u32, AccountId> {
        self.token_approvals@
    }

    /// The counter table: how many tokens each account owns.
    pub closed spec fn counts(&self) -> Map<AccountId, u32> {
        self.owned_tokens_count@
    }

    /// The operator table: standing approvals over all of an owner's tokens.
    pub closed spec fn operators(&self) -> Map<OperatorKey, bool> {
        self.operator_approvals@
    }

    /// The ids of all tokens ever minted, in mint order.
    pub closed spec fn token_list(&self) -> Seq<u32> {
        self.tokens@
    }

    /// The events emitted so far, oldest first.
    pub closed spec fn event_log(&self) -> Seq<Event> {
        self.events@
    }

    /// The contract version number.
    pub closed spec fn spec_version(&self) -> u8 {
        self.version
    }

    /// The account that instantiated the registry.
    pub closed spec fn spec_contract_owner(&self) -> AccountId {
        self.owner
    }

    /// The per-account metadata table.
    pub closed spec fn account_meta(&self) -> Map<AccountId, Vec<u8>> {
        self.account_metadata@
    }

    /// The supply-chain table, keyed by the contract owner.
    pub closed spec fn supply_meta(&self) -> Map<AccountId, Vec<u8>> {
        self.supply_chain_data@
    }

    /// The roles table, keyed by the contract owner.
    pub closed spec fn roles_meta(&self) -> Map<AccountId, Vec<u8>> {
        self.roles_data@
    }

    /// The per-token metadata table.
    pub closed spec fn token_meta(&self) -> Map<u32, Vec<u8>> {
        self.token_metadata@
    }

    /// A token exists exactly when the owner table has an entry for it.
    pub open spec fn token_exists(&self, id: u32) -> bool {
        self.owners().dom().contains(id)
    }

    /// The number of tokens `a` owns: its counter entry, or zero if none.
    pub open spec fn balance(&self, a: AccountId) -> u32 {
        if self.counts().dom().contains(a) {
            self.counts()[a]
        } else {
            0
        }
    }

    /// Whether `operator` holds a standing approval over all of `owner`'s
    /// tokens.
    pub open spec fn operator_approved(&self, owner: AccountId, operator: AccountId) -> bool {
        let k = OperatorKey { owner, operator };
        self.operators().dom().contains(k) && self.operators()[k]
    }

    /// Whether `from` may move token `id`: it is the token's owner, its
    /// approved delegate, or an operator of its owner. False when the token
    /// does not exist, when `from` is absent, and when `from` is the null
    /// account.
    pub open spec fn spec_approved_or_owner(&self, from: Option<AccountId>, id: u32) -> bool {
        match from {
            Option::None => false,
            Option::Some(caller) => caller != null_account() && self.token_exists(id) && (
            self.owners()[id] == caller || (self.approvals().dom().contains(id)
                && self.approvals()[id] == caller) || self.operator_approved(
                self.owners()[id],
                caller,
            )),
        }
    }

    /// Whether `caller` may grant approvals for token `id`: it is the
    /// token's owner or an operator of that owner. False when the token does
    /// not exist.
    pub open spec fn spec_owner_or_operator(&self, caller: AccountId, id: u32) -> bool {
        self.token_exists(id) && (self.owners()[id] == caller || self.operator_approved(
            self.owners()[id],
            caller,
        ))
    }

    /// The backing stores hold pairwise-distinct keys.
    pub closed spec fn stores_wf(&self) -> bool {
        &&& self.token_owner.wf()
        &&& self.token_approvals.wf()
        &&& self.owned_tokens_count.wf()
        &&& self.operator_approvals.wf()
        &&& self.account_metadata.wf()
        &&& self.supply_chain_data.wf()
        &&& self.roles_data.wf()
        &&& self.token_metadata.wf()
    }

    /// The registry's invariant: the backing stores are well formed, every
    /// account's counter equals the number of tokens it owns, approvals
    /// stand only for existing tokens, and every existing token appears in
    /// the mint list.
    pub closed spec fn wf(&self) -> bool {
        &&& self.stores_wf()
        &&& forall|a: AccountId| #[trigger] self.balance(a) == owned_tokens(self.owners(), a).len()
        &&& forall|t: u32| #[trigger] self.approvals().dom().contains(t)
            ==> self.owners().dom().contains(t)
        &&& forall|t: u32| #[trigger] self.owners().dom().contains(t)
            ==> self.token_list().contains(t)
    }

    /// Creates a new registry owned by `caller`, with no tokens, approvals,
    /// metadata or events.
    pub fn new(caller: AccountId) -> (c: Erc721)
        ensures
            c.wf(),
            c.spec_version() == 3,
            c.spec_contract_owner() == caller,
            c.owners() == Map::<u32, AccountId>::empty(),
            c.approvals() == Map::<u32, AccountId>::empty(),
            c.operators() == Map::<OperatorKey, bool>::empty(),
            c.counts() == Map::<AccountId, u32>::empty(),
            forall|a: AccountId| #[trigger] c.balance(a) == 0,
            c.token_list() == Seq::<u32>::empty(),
            c.event_log() == Seq::<Event>::empty(),
            c.account_meta() == Map::<AccountId, Vec<u8>>::empty(),
            c.supply_meta() == Map::<AccountId, Vec<u8>>::empty(),
            c.roles_meta() == Map::<AccountId, Vec<u8>>::empty(),
            c.token_meta() == Map::<u32, Vec<u8>>::empty(),
    {
        let c = Erc721 {
            version: 3,
            owner: caller,
            token_owner: KvStore::new(),
            token_approvals: KvStore::new(),
            owned_tokens_count: KvStore::new(),
            operator_approvals: KvStore::new(),
            tokens: Vec::new(),
            account_metadata: KvStore::new(),
            supply_chain_data: KvStore::new(),
            roles_data: KvStore::new(),
            token_metadata: KvStore::new(),
            events: Vec::new(),
        };
        proof {
            assert forall|a: AccountId| #[trigger] c.balance(a) == owned_tokens(c.owners(), a).len()
                by {
                assert(owned_tokens(c.owners(), a) =~= Set::<u32>::empty());
            }
        }
        c
    }

    /// The contract version.
    pub fn version(&self) -> (r: u8)
        ensures
            r == self.spec_version(),
    {
        self.version
    }

    /// True exactly when `address` instantiated the registry.
    pub fn is_contract_owner(&self, address: AccountId) -> (r: bool)
        ensures
            r == (address == self.spec_contract_owner()),
    {
        self.owner.id == address.id
    }

    /// The account that instantiated the registry.
    pub fn contract_owner(&self) -> (r: AccountId)
        ensures
            r == self.spec_contract_owner(),
    {
        self.owner
    }

    /// The number of tokens `owner` holds; zero for an unknown account.
    pub fn balance_of(&self, owner: AccountId) -> (r: u32)
        requires
            self.wf(),
        ensures
            r == self.balance(owner),
    {
        self.balance_of_or_zero(&owner)
    }

    /// The owner of token `id`, or nothing when no such token exists.
    pub fn owner_of(&self, id: u32) -> (r: Option<AccountId>)
        requires
            self.wf(),
        ensures
            r == (if self.token_exists(id) {
                Option::Some(self.owners()[id])
            } else {
                Option::None::<AccountId>
            }),
    {
        match self.token_owner.get(&id) {
            Option::Some(a) => Option::Some(*a),
            Option::None => Option::None,
        }
    }

    /// The account approved to move token `id`, or nothing when no approval
    /// stands.
    pub fn get_approved(&self, id: u32) -> (r: Option<AccountId>)
        requires
            self.wf(),
        ensures
            r == (if self.approvals().dom().contains(id) {
                Option::Some(self.approvals()[id])
            } else {
                Option::None::<AccountId>
            }),
    {
        match self.token_approvals.get(&id) {
            Option::Some(a) => Option::Some(*a),
            Option::None => Option::None,
        }
    }

    /// Whether `operator` holds a standing approval from `owner`.
    pub fn is_approved_for_all(&self, owner: AccountId, operator: AccountId) -> (r: bool)
        requires
            self.wf(),
        ensures
            r == self.operator_approved(owner, operator),
    {
        self.approved_for_all(owner, operator)
    }

    /// The number of tokens an account owns: its counter entry or zero.
    fn balance_of_or_zero(&self, of: &AccountId) -> (r: u32)
        requires
            self.stores_wf(),
        ensures
            r == self.balance(*of),
    {
        match self.owned_tokens_count.get(of) {
            Option::Some(n) => *n,
            Option::None => 0,
        }
    }

    /// Reads the operator table; false for an absent entry.
    pub fn approved_for_all(&self, owner: AccountId, operator: AccountId) -> (r: bool)
        requires
            self.wf(),
        ensures
            r == self.operator_approved(owner, operator),
    {
        match self.operator_approvals.get(&OperatorKey { owner, operator }) {
            Option::Some(b) => *b,
            Option::None => false,
        }
    }

    /// The authorization oracle for the transfer family: decides from the
    /// current maps alone whether `from` may move token `id`.
    pub fn approved_or_owner(&self, from: Option<AccountId>, id: u32) -> (r: bool)
        requires
            self.wf(),
        ensures
            r == self.spec_approved_or_owner(from, id),
    {
        match from {
            Option::None => false,
            Option::Some(caller) => {
                if caller.is_null() {
                    return false;
                }
                let owner = match self.token_owner.get(&id) {
                    Option::Some(a) => *a,
                    Option::None => { return false; },
                };
                if owner.id == caller.id {
                    return true;
                }
                match self.token_approvals.get(&id) {
                    Option::Some(a) => {
                        if a.id == caller.id {
                            return true;
                        }
                    },
                    Option::None => {},
                }
                self.approved_for_all(owner, caller)
            },
        }
    }

    /// True exactly when token `id` has a current owner.
    pub fn exists_token(&self, id: u32) -> (r: bool)
        requires
            self.wf(),
        ensures
            r == self.token_exists(id),
    {
        self.token_owner.contains(&id)
    }

    /// Raises `of`'s ownership counter by one, creating it at one if absent.
    fn increase_counter_of(&mut self, of: &AccountId)
        requires
            old(self).stores_wf(),
            old(self).balance(*of) < u32::MAX,
        ensures
            final(self).stores_wf(),
            forall|a: AccountId| #[trigger] final(self).balance(a) == (if a == *of {
                old(self).balance(a) + 1
            } else {
                old(self).balance(a) as int
            }),
            final(self).owners() == old(self).owners(),
            final(self).approvals() == old(self).approvals(),
            final(self).operators() == old(self).operators(),
            final(self).token_list() == old(self).token_list(),
            final(self).event_log() == old(self).event_log(),
            same_admin(*old(self), *final(self)),
            same_metadata(*old(self), *final(self)),
    {
        let bal = self.balance_of_or_zero(of);
        self.owned_tokens_count.insert(*of, bal + 1);
    }

    /// Lowers `of`'s ownership counter by one.
    fn decrease_counter_of(&mut self, of: &AccountId)
        requires
            old(self).stores_wf(),
            old(self).balance(*of) >= 1,
        ensures
            final(self).stores_wf(),
            forall|a: AccountId| #[trigger] final(self).balance(a) == (if a == *of {
                old(self).balance(a) - 1
            } else {
                old(self).balance(a) as int
            }),
            final(self).owners() == old(self).owners(),
            final(self).approvals() == old(self).approvals(),
            final(self).operators() == old(self).operators(),
            final(self).token_list() == old(self).token_list(),
            final(self).event_log() == old(self).event_log(),
            same_admin(*old(self), *final(self)),
            same_metadata(*old(self), *final(self)),
    {
        let bal = self.balance_of_or_zero(of);
        self.owned_tokens_count.insert(*of, bal - 1);
    }

    /// Drops any standing approval for token `id`.
    fn clear_approval(&mut self, id: u32)
        requires
            old(self).stores_wf(),
        ensures
            final(self).stores_wf(),
            final(self).approvals() == old(self).approvals().remove(id),
            final(self).owners() == old(self).owners(),
            final(self).counts() == old(self).counts(),
            final(self).operators() == old(self).operators(),
            final(self).token_list() == old(self).token_list(),
            final(self).event_log() == old(self).event_log(),
            same_admin(*old(self), *final(self)),
            same_metadata(*old(self), *final(self)),
    {
        self.token_approvals.remove(&id);
    }

    /// Grants or revokes `to`'s standing approval over all of `caller`'s
    /// tokens. Refused when an account names itself.
    pub fn set_approval_for_all(&mut self, caller: AccountId, to: AccountId, approved: bool) -> (r:
        Result<(), Error>)
        requires
            old(self).wf(),
        ensures
            final(self).wf(),
            to == caller ==> r == Err::<(), Error>(Error::NotAllowed) && *final(self) == *old(self),
            to != caller ==> r == Ok::<(), Error>(()) && final(self).operators() == old(self).operators().insert((OperatorKey { owner: caller, operator: to }), approved) && final(self).event_log() == old(self).event_log().push(
                (Event::ApprovalForAll { owner: caller, operator: to, approved }),
            ),
            final(self).owners() == old(self).owners(),
            final(self).approvals() == old(self).approvals(),
            final(self).counts() == old(self).counts(),
            final(self).token_list() == old(self).token_list(),
            same_admin(*old(self), *final(self)),
            same_metadata(*old(self), *final(self)),
    {
        self.approve_for_all(caller, to, approved)
    }

    /// Writes the operator table entry for (`caller`, `to`) and logs the
    /// change.
    fn approve_for_all(&mut self, caller: AccountId, to: AccountId, approved: bool) -> (r: Result<
        (),
        Error,
    >)
        requires
            old(self).wf(),
        ensures
            final(self).wf(),
            to == caller ==> r == Err::<(), Error>(Error::NotAllowed) && *final(self) == *old(self),
            to != caller ==> r == Ok::<(), Error>(()) && final(self).operators() == old(self).operators().insert((OperatorKey { owner: caller, operator: to }), approved) && final(self).event_log() == old(self).event_log().push(
                (Event::ApprovalForAll { owner: caller, operator: to, approved }),
            ),
            final(self).owners() == old(self).owners(),
            final(self).approvals() == old(self).approvals(),
            final(self).counts() == old(self).counts(),
            final(self).token_list() == old(self).token_list(),
            same_admin(*old(self), *final(self)),
            same_metadata(*old(self), *final(self)),
    {
        if to.id == caller.id {
            return Err(Error::NotAllowed);
        }
        self.operator_approvals.insert(OperatorKey { owner: caller, operator: to }, approved);
        self.events.push(Event::ApprovalForAll { owner: caller, operator: to, approved });
        proof {
            lemma_wf_core_unchanged(*old(self), *self);
        }
        Ok(())
    }

    /// Approves `to` to move token `id` on its owner's behalf. The caller
    /// must be the owner or one of the owner's operators, `to` must not be
    /// the null account, and no approval may already stand for the token.
    pub fn approve(&mut self, caller: AccountId, to: AccountId, id: u32) -> (r: Result<(), Error>)
        requires
            old(self).wf(),
        ensures
            final(self).wf(),
            !old(self).token_exists(id) ==> r == Err::<(), Error>(Error::TokenNotFound) && *final(self) == *old(self),
            old(self).token_exists(id) && !old(self).spec_owner_or_operator(caller, id) ==> r
                == Err::<(), Error>(Error::NotAllowed) && *final(self) == *old(self),
            old(self).spec_owner_or_operator(caller, id) && to == null_account() ==> r == Err::<
                (),
                Error,
            >(Error::NotAllowed) && *final(self) == *old(self),
            old(self).spec_owner_or_operator(caller, id) && to != null_account() && old(self).approvals().dom().contains(id) ==> r == Err::<(), Error>(Error::CannotInsert)
                && *final(self) == *old(self),
            old(self).spec_owner_or_operator(caller, id) && to != null_account() && !old(self).approvals().dom().contains(id) ==> r == Ok::<(), Error>(()) && final(self).approvals()
                == old(self).approvals().insert(id, to) && final(self).event_log() == old(self).event_log().push((Event::Approval { from: caller, to, id })),
            final(self).owners() == old(self).owners(),
            final(self).counts() == old(self).counts(),
            final(self).operators() == old(self).operators(),
            final(self).token_list() == old(self).token_list(),
            same_admin(*old(self), *final(self)),
            same_metadata(*old(self), *final(self)),
    {
        self.approve_for(caller, &to, id)
    }

    /// Checks the approval rules and writes the approval table entry.
    fn approve_for(&mut self, caller: AccountId, to: &AccountId, id: u32) -> (r: Result<(), Error>)
        requires
            old(self).wf(),
        ensures
            final(self).wf(),
            !old(self).token_exists(id) ==> r == Err::<(), Error>(Error::TokenNotFound) && *final(self) == *old(self),
            old(self).token_exists(id) && !old(self).spec_owner_or_operator(caller, id) ==> r
                == Err::<(), Error>(Error::NotAllowed) && *final(self) == *old(self),
            old(self).spec_owner_or_operator(caller, id) && *to == null_account() ==> r == Err::<
                (),
                Error,
            >(Error::NotAllowed) && *final(self) == *old(self),
            old(self).spec_owner_or_operator(caller, id) && *to != null_account() && old(self).approvals().dom().contains(id) ==> r == Err::<(), Error>(Error::CannotInsert)
                && *final(self) == *old(self),
            old(self).spec_owner_or_operator(caller, id) && *to != null_account() && !old(self).approvals().dom().contains(id) ==> r == Ok::<(), Error>(()) && final(self).approvals()
                == old(self).approvals().insert(id, *to) && final(self).event_log() == old(self).event_log().push((Event::Approval { from: caller, to: *to, id })),
            final(self).owners() == old(self).owners(),
            final(self).counts() == old(self).counts(),
            final(self).operators() == old(self).operators(),
            final(self).token_list() == old(self).token_list(),
            same_admin(*old(self), *final(self)),
            same_metadata(*old(self), *final(self)),
    {
        let owner = match self.token_owner.get(&id) {
            Some(a) => *a,
            None => { return Err(Error::TokenNotFound); },
        };
        if !(owner.id == caller.id || self.approved_for_all(owner, caller)) {
            return Err(Error::NotAllowed);
        }
        if to.is_null() {
            return Err(Error::NotAllowed);
        }
        if self.token_approvals.contains(&id) {
            return Err(Error::CannotInsert);
        }
        self.token_approvals.insert(id, *to);
        self.events.push(Event::Approval { from: caller, to: *to, id });
        proof {
            lemma_wf_core_unchanged(*old(self), *self);
        }
        Ok(())
    }

    /// Records `to` as owner of the fresh token `id` and raises its counter.
    fn add_token_to(&mut self, to: &AccountId, id: u32)
        requires
            old(self).stores_wf(),
            !old(self).token_exists(id),
            *to != null_account(),
            old(self).balance(*to) < u32::MAX,
        ensures
            final(self).stores_wf(),
            final(self).owners() == old(self).owners().insert(id, *to),
            forall|a: AccountId| #[trigger] final(self).balance(a) == (if a == *to {
                old(self).balance(a) + 1
            } else {
                old(self).balance(a) as int
            }),
            final(self).approvals() == old(self).approvals(),
            final(self).operators() == old(self).operators(),
            final(self).token_list() == old(self).token_list(),
            final(self).event_log() == old(self).event_log(),
            same_admin(*old(self), *final(self)),
            same_metadata(*old(self), *final(self)),
    {
        self.increase_counter_of(to);
        let ghost mid = *self;
        self.token_owner.insert(id, *to);
        proof {
            assert forall|a: AccountId| #[trigger] self.balance(a) == (if a == *to {
                old(self).balance(a) + 1
            } else {
                old(self).balance(a) as int
            }) by {
                assert(self.balance(a) == mid.balance(a));
            }
        }
    }

    /// Deletes token `id` from `from`'s holdings and lowers its counter.
    fn remove_token_from(&mut self, from: &AccountId, id: u32)
        requires
            old(self).stores_wf(),
            old(self).token_exists(id),
            old(self).owners()[id] == *from,
            old(self).balance(*from) >= 1,
        ensures
            final(self).stores_wf(),
            final(self).owners() == old(self).owners().remove(id),
            forall|a: AccountId| #[trigger] final(self).balance(a) == (if a == *from {
                old(self).balance(a) - 1
            } else {
                old(self).balance(a) as int
            }),
            final(self).approvals() == old(self).approvals(),
            final(self).operators() == old(self).operators(),
            final(self).token_list() == old(self).token_list(),
            final(self).event_log() == old(self).event_log(),
            same_admin(*old(self), *final(self)),
            same_metadata(*old(self), *final(self)),
    {
        self.decrease_counter_of(from);
        let ghost mid = *self;
        self.token_owner.remove(&id);
        proof {
            assert forall|a: AccountId| #[trigger] self.balance(a) == (if a == *from {
                old(self).balance(a) - 1
            } else {
                old(self).balance(a) as int
            }) by {
                assert(self.balance(a) == mid.balance(a));
            }
        }
    }

    /// Mints token `id` to the caller. Fails when the token already exists,
    /// when the caller is the null account, and when the caller's counter is
    /// full; on failure nothing changes.
    pub fn mint(&mut self, caller: AccountId, id: u32) -> (r: Result<(), Error>)
        requires
            old(self).wf(),
        ensures
            final(self).wf(),
            old(self).token_exists(id) ==> r == Err::<(), Error>(Error::TokenExists) && *final(self) == *old(self),
            !old(self).token_exists(id) && caller == null_account() ==> r == Err::<(), Error>(
                Error::NotAllowed,
            ) && *final(self) == *old(self),
            !old(self).token_exists(id) && caller != null_account() && old(self).balance(caller)
                == u32::MAX ==> r == Err::<(), Error>(Error::CannotInsert) && *final(self) == *old(self),
            !old(self).token_exists(id) && caller != null_account() && old(self).balance(caller)
                < u32::MAX ==> r == Ok::<(), Error>(()) && final(self).owners() == old(self).owners().insert(id, caller) && final(self).balance(caller) == old(self).balance(
                caller,
            ) + 1 && (forall|a: AccountId|
                a != caller ==> #[trigger] final(self).balance(a) == old(self).balance(a)) && final(self).token_list() == old(self).token_list().push(id) && final(self).event_log() == old(self).event_log().push(
                (Event::Transfer { from: Some(null_account()), to: Some(caller), id }),
            ),
            final(self).approvals() == old(self).approvals(),
            final(self).operators() == old(self).operators(),
            same_admin(*old(self), *final(self)),
            same_metadata(*old(self), *final(self)),
    {
        if self.token_owner.contains(&id) {
            return Err(Error::TokenExists);
        }
        if caller.is_null() {
            return Err(Error::NotAllowed);
        }
        let bal = self.balance_of_or_zero(&caller);
        if bal == u32::MAX {
            return Err(Error::CannotInsert);
        }
        proof {
            self.token_owner.lemma_dom_finite();
        }
        self.add_token_to(&caller, id);
        let ghost mid = *self;
        self.tokens.push(id);
        self.events.push(Event::Transfer { from: Some(AccountId::null()), to: Some(caller), id });
        proof {
            let a0 = *old(self);
            assert(self.owners() == mid.owners());
            assert(self.counts() == mid.counts());
            assert forall|a: AccountId| #[trigger] self.balance(a) == owned_tokens(
                self.owners(),
                a,
            ).len() by {
                lemma_owned_tokens_finite(a0.owners(), a);
                lemma_owned_tokens_insert(a0.owners(), id, caller, a);
                assert(a0.balance(a) == owned_tokens(a0.owners(), a).len());
                assert(mid.balance(a) == (if a == caller {
                    a0.balance(a) + 1
                } else {
                    a0.balance(a) as int
                }));
                assert(self.balance(a) == mid.balance(a));
                if a == caller {
                    assert(!owned_tokens(a0.owners(), caller).contains(id));
                }
            }
            assert forall|t: u32| #[trigger] self.approvals().dom().contains(t) implies self.owners().dom().contains(t) by {
                assert(a0.approvals().dom().contains(t));
                assert(a0.owners().dom().contains(t));
            }
            assert forall|t: u32| #[trigger] self.owners().dom().contains(t) implies self.token_list().contains(t) by {
                if t == id {
                    assert(self.token_list()[self.token_list().len() - 1] == id);
                } else {
                    assert(a0.owners().dom().contains(t));
                    assert(a0.token_list().contains(t));
                    let i = choose|i: int|
                        0 <= i < a0.token_list().len() && a0.token_list()[i] == t;
                    assert(self.token_list()[i] == t);
                }
            }
            assert forall|a: AccountId| #[trigger] self.balance(a) == (if a == caller {
                a0.balance(a) + 1
            } else {
                a0.balance(a) as int
            }) by {
                assert(mid.balance(a) == (if a == caller {
                    a0.balance(a) + 1
                } else {
                    a0.balance(a) as int
                }));
                assert(self.balance(a) == mid.balance(a));
            }
            assert(self.approvals() == mid.approvals());
            assert(self.operators() == mid.operators());
            assert(self.account_meta() == mid.account_meta());
            assert(self.supply_meta() == mid.supply_meta());
            assert(self.roles_meta() == mid.roles_meta());
            assert(self.token_meta() == mid.token_meta());
            assert(self.spec_version() == mid.spec_version());
            assert(self.spec_contract_owner() == mid.spec_contract_owner());
            assert(self.token_list() == mid.token_list().push(id));
            assert(self.event_log() == mid.event_log().push(
                (Event::Transfer { from: Some(null_account()), to: Some(caller), id }),
            ));
        }
        Ok(())
    }

    /// Burns token `id`. Only the token's exact current owner may burn it;
    /// approval or operator status does not suffice. Burning clears the
    /// owner entry, the counter and any standing approval for the token.
    pub fn burn(&mut self, caller: AccountId, id: u32) -> (r: Result<(), Error>)
        requires
            old(self).wf(),
        ensures
            final(self).wf(),
            !(old(self).token_exists(id) && old(self).owners()[id] == caller) ==> r == Err::<
                (),
                Error,
            >(Error::NotOwner) && *final(self) == *old(self),
            old(self).token_exists(id) && old(self).owners()[id] == caller ==> r == Ok::<(), Error>(
                (),
            ) && final(self).owners() == old(self).owners().remove(id) && final(self).approvals()
                == old(self).approvals().remove(id) && final(self).balance(caller) == old(self).balance(caller) - 1 && (forall|a: AccountId|
                a != caller ==> #[trigger] final(self).balance(a) == old(self).balance(a)) && final(self).event_log() == old(self).event_log().push(
                (Event::Transfer { from: Some(caller), to: Some(null_account()), id }),
            ),
            final(self).operators() == old(self).operators(),
            final(self).token_list() == old(self).token_list(),
            same_admin(*old(self), *final(self)),
            same_metadata(*old(self), *final(self)),
    {
        let owner = match self.token_owner.get(&id) {
            Some(a) => *a,
            None => { return Err(Error::NotOwner); },
        };
        if owner.id != caller.id {
            return Err(Error::NotOwner);
        }
        proof {
            self.token_owner.lemma_dom_finite();
            lemma_owned_tokens_finite(self.owners(), caller);
            assert(owned_tokens(self.owners(), caller).contains(id));
            assert(self.balance(caller) == owned_tokens(self.owners(), caller).len());
        }
        self.clear_approval(id);
        self.remove_token_from(&caller, id);
        let ghost mid = *self;
        self.events.push(Event::Transfer { from: Some(caller), to: Some(AccountId::null()), id });
        proof {
            let a0 = *old(self);
            assert(self.owners() == mid.owners());
            assert(self.counts() == mid.counts());
            assert forall|a: AccountId| #[trigger] self.balance(a) == owned_tokens(
                self.owners(),
                a,
            ).len() by {
                lemma_owned_tokens_finite(a0.owners(), a);
                lemma_owned_tokens_remove(a0.owners(), id, a);
                assert(a0.balance(a) == owned_tokens(a0.owners(), a).len());
                assert(mid.balance(a) == (if a == caller {
                    a0.balance(a) - 1
                } else {
                    a0.balance(a) as int
                }));
                assert(self.balance(a) == mid.balance(a));
                if a == caller {
                    assert(owned_tokens(a0.owners(), caller).contains(id));
                }
            }
            assert forall|t: u32| #[trigger] self.approvals().dom().contains(t) implies self.owners().dom().contains(t) by {
                assert(a0.approvals().dom().contains(t));
                assert(a0.owners().dom().contains(t));
            }
            assert forall|t: u32| #[trigger] self.owners().dom().contains(t) implies self.token_list().contains(t) by {
                assert(a0.owners().dom().contains(t));
                assert(a0.token_list().contains(t));
            }
            assert forall|a: AccountId| #[trigger] self.balance(a) == (if a == caller {
                a0.balance(a) - 1
            } else {
                a0.balance(a) as int
            }) by {
                assert(mid.balance(a) == (if a == caller {
                    a0.balance(a) - 1
                } else {
                    a0.balance(a) as int
                }));
                assert(self.balance(a) == mid.balance(a));
            }
            assert(self.approvals() == mid.approvals());
            assert(mid.approvals() == a0.approvals().remove(id));
            assert(self.operators() == mid.operators());
            assert(self.account_meta() == mid.account_meta());
            assert(self.supply_meta() == mid.supply_meta());
            assert(self.roles_meta() == mid.roles_meta());
            assert(self.token_meta() == mid.token_meta());
            assert(self.spec_version() == mid.spec_version());
            assert(self.spec_contract_owner() == mid.spec_contract_owner());
            assert(self.token_list() == mid.token_list());
            assert(self.event_log() == mid.event_log().push(
                (Event::Transfer { from: Some(caller), to: Some(null_account()), id }),
            ));
        }
        Ok(())
    }

    /// Transfers the token from the caller's holdings to `destination`. The
    /// caller must be authorized for the token; the token moves away from
    /// its true current owner.
    pub fn transfer(&mut self, caller: AccountId, destination: AccountId, id: u32) -> (r: Result<
        (),
        Error,
    >)
        requires
            old(self).wf(),
        ensures
            final(self).wf(),
            !old(self).token_exists(id) ==> r == Err::<(), Error>(Error::TokenNotFound) && *final(self) == *old(self),
            old(self).token_exists(id) && !old(self).spec_approved_or_owner(Some(caller), id) ==> r
                == Err::<(), Error>(Error::NotApproved) && *final(self) == *old(self),
            old(self).spec_approved_or_owner(Some(caller), id) && destination == null_account()
                ==> r == Err::<(), Error>(Error::NotAllowed) && *final(self) == *old(self),
            old(self).spec_approved_or_owner(Some(caller), id) && destination != null_account()
                && destination != old(self).owners()[id] && old(self).balance(destination)
                == u32::MAX ==> r == Err::<(), Error>(Error::CannotInsert) && *final(self) == *old(self),
            old(self).spec_approved_or_owner(Some(caller), id) && destination != null_account()
                && (destination == old(self).owners()[id] || old(self).balance(destination)
                < u32::MAX) ==> r == Ok::<(), Error>(()) && final(self).owners() == old(self).owners().insert(id, destination)
                && final(self).approvals() == old(self).approvals().remove(id)
                && (forall|a: AccountId| #[trigger] final(self).balance(a) == (
                if old(self).owners()[id] == destination {
                    old(self).balance(a) as int
                } else if a == old(self).owners()[id] {
                    old(self).balance(a) - 1
                } else if a == destination {
                    old(self).balance(a) + 1
                } else {
                    old(self).balance(a) as int
                })) && final(self).event_log() == old(self).event_log().push(
                (Event::Transfer {
                    from: Some(old(self).owners()[id]),
                    to: Some(destination),
                    id,
                }),
            ),
            final(self).operators() == old(self).operators(),
            final(self).token_list() == old(self).token_list(),
            same_admin(*old(self), *final(self)),
            same_metadata(*old(self), *final(self)),
    {
        let owner = match self.token_owner.get(&id) {
            Some(a) => *a,
            None => { return Err(Error::TokenNotFound); },
        };
        self.transfer_token_from(caller, &owner, &destination, id)
    }

    /// Transfers token `id` from `from` to `to` on behalf of `caller`. The
    /// caller must be authorized for the token, and `from` must name the
    /// token's true current owner; a mismatching `from` is refused rather
    /// than silently corrected.
    pub fn transfer_from(&mut self, caller: AccountId, from: AccountId, to: AccountId, id: u32) -> (r: Result<(), Error>)
        requires
            old(self).wf(),
        ensures
            final(self).wf(),
            !old(self).token_exists(id) ==> r == Err::<(), Error>(Error::TokenNotFound) && *final(self) == *old(self),
            old(self).token_exists(id) && !old(self).spec_approved_or_owner(Some(caller), id) ==> r
                == Err::<(), Error>(Error::NotApproved) && *final(self) == *old(self),
            old(self).spec_approved_or_owner(Some(caller), id) && from != old(self).owners()[id]
                ==> r == Err::<(), Error>(Error::NotApproved) && *final(self) == *old(self),
            old(self).spec_approved_or_owner(Some(caller), id) && from == old(self).owners()[id]
                && to == null_account() ==> r == Err::<(), Error>(Error::NotAllowed) && *final(self)
                == *old(self),
            old(self).spec_approved_or_owner(Some(caller), id) && from == old(self).owners()[id]
                && to != null_account() && to != from && old(self).balance(to) == u32::MAX ==> r
                == Err::<(), Error>(Error::CannotInsert) && *final(self) == *old(self),
            old(self).spec_approved_or_owner(Some(caller), id) && from == old(self).owners()[id]
                && to != null_account() && (to == from || old(self).balance(to) < u32::MAX) ==> r
                == Ok::<(), Error>(()) && final(self).owners() == old(self).owners().insert(id, to)
                && final(self).approvals() == old(self).approvals().remove(id)
                && (forall|a: AccountId| #[trigger] final(self).balance(a) == (if from == to {
                    old(self).balance(a) as int
                } else if a == from {
                    old(self).balance(a) - 1
                } else if a == to {
                    old(self).balance(a) + 1
                } else {
                    old(self).balance(a) as int
                })) && final(self).event_log() == old(self).event_log().push(
                (Event::Transfer { from: Some(from), to: Some(to), id }),
            ),
            final(self).operators() == old(self).operators(),
            final(self).token_list() == old(self).token_list(),
            same_admin(*old(self), *final(self)),
            same_metadata(*old(self), *final(self)),
    {
        self.transfer_token_from(caller, &from, &to, id)
    }

    /// Checks the transfer rules and moves token `id` from `from` to `to`:
    /// the standing approval is cleared first, then the counters move, then
    /// the owner entry is rewritten.
    fn transfer_token_from(&mut self, caller: AccountId, from: &AccountId, to: &AccountId, id: u32) -> (r: Result<(), Error>)
        requires
            old(self).wf(),
        ensures
            final(self).wf(),
            !old(self).token_exists(id) ==> r == Err::<(), Error>(Error::TokenNotFound) && *final(self) == *old(self),
            old(self).token_exists(id) && !old(self).spec_approved_or_owner(Some(caller), id) ==> r
                == Err::<(), Error>(Error::NotApproved) && *final(self) == *old(self),
            old(self).spec_approved_or_owner(Some(caller), id) && *from != old(self).owners()[id]
                ==> r == Err::<(), Error>(Error::NotApproved) && *final(self) == *old(self),
            old(self).spec_approved_or_owner(Some(caller), id) && *from == old(self).owners()[id]
                && *to == null_account() ==> r == Err::<(), Error>(Error::NotAllowed) && *final(self) == *old(self),
            old(self).spec_approved_or_owner(Some(caller), id) && *from == old(self).owners()[id]
                && *to != null_account() && *to != *from && old(self).balance(*to) == u32::MAX ==> r
                == Err::<(), Error>(Error::CannotInsert) && *final(self) == *old(self),
            old(self).spec_approved_or_owner(Some(caller), id) && *from == old(self).owners()[id]
                && *to != null_account() && (*to == *from || old(self).balance(*to) < u32::MAX)
                ==> r == Ok::<(), Error>(()) && final(self).owners() == old(self).owners().insert(
                id,
                *to,
            ) && final(self).approvals() == old(self).approvals().remove(id)
                && (forall|a: AccountId| #[trigger] final(self).balance(a) == (if *from == *to {
                    old(self).balance(a) as int
                } else if a == *from {
                    old(self).balance(a) - 1
                } else if a == *to {
                    old(self).balance(a) + 1
                } else {
                    old(self).balance(a) as int
                })) && final(self).event_log() == old(self).event_log().push(
                (Event::Transfer { from: Some(*from), to: Some(*to), id }),
            ),
            final(self).operators() == old(self).operators(),
            final(self).token_list() == old(self).token_list(),
            same_admin(*old(self), *final(self)),
            same_metadata(*old(self), *final(self)),
    {
        let owner = match self.token_owner.get(&id) {
            Some(a) => *a,
            None => { return Err(Error::TokenNotFound); },
        };
        if !self.approved_or_owner(Some(caller), id) {
            return Err(Error::NotApproved);
        }
        if owner.id != from.id {
            return Err(Error::NotApproved);
        }
        if to.is_null() {
            return Err(Error::NotAllowed);
        }
        if to.id != from.id {
            let balto = self.balance_of_or_zero(to);
            if balto == u32::MAX {
                return Err(Error::CannotInsert);
            }
        }
        proof {
            self.token_owner.lemma_dom_finite();
            lemma_owned_tokens_finite(self.owners(), *from);
            assert(owned_tokens(self.owners(), *from).contains(id));
            assert(self.balance(*from) == owned_tokens(self.owners(), *from).len());
        }
        self.clear_approval(id);
        proof {
            assert(self.owners() == old(self).owners());
            assert(self.counts() == old(self).counts());
        }
        self.remove_token_from(from, id);
        let ghost mid1 = *self;
        self.add_token_to(to, id);
        let ghost mid2 = *self;
        self.events.push(Event::Transfer { from: Some(*from), to: Some(*to), id });
        proof {
            let a0 = *old(self);
            assert(self.owners() == mid2.owners());
            assert(self.counts() == mid2.counts());
            assert(self.owners() =~= a0.owners().insert(id, *to));
            assert forall|a: AccountId| #[trigger] self.balance(a) == owned_tokens(
                self.owners(),
                a,
            ).len() by {
                lemma_owned_tokens_finite(a0.owners(), a);
                lemma_owned_tokens_remove(a0.owners(), id, a);
                lemma_owned_tokens_finite(mid1.owners(), a);
                lemma_owned_tokens_insert(mid1.owners(), id, *to, a);
                assert(a0.balance(a) == owned_tokens(a0.owners(), a).len());
                assert(mid1.balance(a) == (if a == *from {
                    a0.balance(a) - 1
                } else {
                    a0.balance(a) as int
                }));
                assert(mid2.balance(a) == (if a == *to {
                    mid1.balance(a) + 1
                } else {
                    mid1.balance(a) as int
                }));
                assert(self.balance(a) == mid2.balance(a));
                if a == *from {
                    assert(owned_tokens(a0.owners(), *from).contains(id));
                }
                if a == *to {
                    assert(!owned_tokens(mid1.owners(), *to).contains(id));
                }
            }
            assert forall|t: u32| #[trigger] self.approvals().dom().contains(t) implies self.owners().dom().contains(t) by {
                assert(a0.approvals().dom().contains(t));
                assert(a0.owners().dom().contains(t));
            }
            assert forall|t: u32| #[trigger] self.owners().dom().contains(t) implies self.token_list().contains(t) by {
                assert(a0.owners().dom().contains(t));
                assert(a0.token_list().contains(t));
            }
            assert forall|a: AccountId| #[trigger] self.balance(a) == (if *from == *to {
                a0.balance(a) as int
            } else if a == *from {
                a0.balance(a) - 1
            } else if a == *to {
                a0.balance(a) + 1
            } else {
                a0.balance(a) as int
            }) by {
                assert(mid1.balance(a) == (if a == *from {
                    a0.balance(a) - 1
                } else {
                    a0.balance(a) as int
                }));
                assert(mid2.balance(a) == (if a == *to {
                    mid1.balance(a) + 1
                } else {
                    mid1.balance(a) as int
                }));
                assert(self.balance(a) == mid2.balance(a));
            }
            assert(self.approvals() == mid2.approvals());
            assert(mid2.approvals() == a0.approvals().remove(id));
            assert(self.operators() == mid2.operators());
            assert(self.account_meta() == mid2.account_meta());
            assert(self.supply_meta() == mid2.supply_meta());
            assert(self.roles_meta() == mid2.roles_meta());
            assert(self.token_meta() == mid2.token_meta());
            assert(self.spec_version() == mid2.spec_version());
            assert(self.spec_contract_owner() == mid2.spec_contract_owner());
            assert(self.token_list() == mid2.token_list());
            assert(self.event_log() == mid2.event_log().push(
                (Event::Transfer { from: Some(*from), to: Some(*to), id }),
            ));
        }
        Ok(())
    }

    /// The number of events the registry has emitted so far.
    pub fn recorded_events_count(&self) -> (r: usize)
        ensures
            r == self.event_log().len(),
    {
        self.events.len()
    }

    /// All token ids ever minted, in mint order.
    pub fn list_all_tokens(&self) -> (r: Vec<u32>)
        ensures
            r@ == self.token_list(),
    {
        let mut clone: Vec<u32> = Vec::new();
        let mut i: usize = 0;
        while i < self.tokens.len()
            invariant
                i <= self.tokens@.len(),
                clone@ == self.tokens@.subrange(0, i as int),
            decreases self.tokens@.len() - i,
        {
            clone.push(self.tokens[i]);
            proof {
                assert(clone@ =~= self.tokens@.subrange(0, i + 1));
            }
            i = i + 1;
        }
        proof {
            assert(clone@ =~= self.tokens@);
        }
        clone
    }

    /// The metadata payload stored for `owner`, or an empty payload.
    pub fn account_metadata_of(&self, owner: AccountId) -> (r: Vec<u8>)
        requires
            self.wf(),
        ensures
            r@ == (if self.account_meta().dom().contains(owner) {
                self.account_meta()[owner]@
            } else {
                Seq::<u8>::empty()
            }),
    {
        self.account_metadata_of_or_empty(&owner)
    }

    /// The metadata payload stored for `owner` as text: its UTF-8 decoding,
    /// or the empty string when the payload is absent or not valid UTF-8.
    pub fn account_metadata_of_as_string(&self, owner: AccountId) -> (r: String)
        requires
            self.wf(),
        ensures
            r@ == string_of_bytes(
                (if self.account_meta().dom().contains(owner) {
                    self.account_meta()[owner]@
                } else {
                    Seq::<u8>::empty()
                }),
            ),
    {
        let value = self.account_metadata_of_or_empty(&owner);
        match bytes_to_string(value) {
            Some(s) => s,
            None => String::new(),
        }
    }

    /// Stores `metadata` for `owner`. Only the contract owner and `owner`
    /// itself may write it; the result says whether the write happened.
    pub fn set_account_metadata_of(&mut self, caller: AccountId, owner: AccountId, metadata: Vec<
        u8,
    >) -> (r: bool)
        requires
            old(self).wf(),
        ensures
            final(self).wf(),
            r == (caller == old(self).spec_contract_owner() || owner == caller),
            r ==> final(self).account_meta() == old(self).account_meta().insert(owner, metadata)
                && final(self).supply_meta() == old(self).supply_meta() && final(self).roles_meta()
                == old(self).roles_meta() && final(self).token_meta() == old(self).token_meta()
                && final(self).owners() == old(self).owners() && final(self).approvals() == old(self).approvals()
                && final(self).counts() == old(self).counts() && final(self).operators() == old(self).operators()
                && final(self).token_list() == old(self).token_list() && final(self).event_log()
                == old(self).event_log() && same_admin(*old(self), *final(self)),
            !r ==> *final(self) == *old(self),
    {
        if self.is_contract_owner(caller) || owner.id == caller.id {
            self.account_metadata.insert(owner, metadata);
            proof {
                lemma_wf_core_unchanged(*old(self), *self);
            }
            true
        } else {
            false
        }
    }

    /// The supply-chain payload, stored under the contract owner.
    pub fn supply_chain(&self) -> (r: Vec<u8>)
        requires
            self.wf(),
        ensures
            r@ == (if self.supply_meta().dom().contains(self.spec_contract_owner()) {
                self.supply_meta()[self.spec_contract_owner()]@
            } else {
                Seq::<u8>::empty()
            }),
    {
        let owner = self.owner;
        self.supply_chain_data_of_or_empty(&owner)
    }

    /// The supply-chain payload as text: its UTF-8 decoding, or the empty
    /// string when it is absent or not valid UTF-8.
    pub fn supply_chain_as_string(&self) -> (r: String)
        requires
            self.wf(),
        ensures
            r@ == string_of_bytes(
                (if self.supply_meta().dom().contains(self.spec_contract_owner()) {
                    self.supply_meta()[self.spec_contract_owner()]@
                } else {
                    Seq::<u8>::empty()
                }),
            ),
    {
        let owner = self.owner;
        let value = self.supply_chain_data_of_or_empty(&owner);
        match bytes_to_string(value) {
            Some(s) => s,
            None => String::new(),
        }
    }

    /// Stores the supply-chain payload under the contract owner.
    pub fn set_supply_chain(&mut self, data: Vec<u8>) -> (r: bool)
        requires
            old(self).wf(),
        ensures
            final(self).wf(),
            r == true,
            final(self).supply_meta() == old(self).supply_meta().insert(
                old(self).spec_contract_owner(),
                data,
            ),
            final(self).account_meta() == old(self).account_meta(),
            final(self).roles_meta() == old(self).roles_meta(),
            final(self).token_meta() == old(self).token_meta(),
            final(self).owners() == old(self).owners(),
            final(self).approvals() == old(self).approvals(),
            final(self).counts() == old(self).counts(),
            final(self).operators() == old(self).operators(),
            final(self).token_list() == old(self).token_list(),
            final(self).event_log() == old(self).event_log(),
            same_admin(*old(self), *final(self)),
    {
        let owner = self.owner;
        self.supply_chain_data.insert(owner, data);
        proof {
            lemma_wf_core_unchanged(*old(self), *self);
        }
        true
    }

    /// The roles payload, stored under the contract owner.
    pub fn roles(&self) -> (r: Vec<u8>)
        requires
            self.wf(),
        ensures
            r@ == (if self.roles_meta().dom().contains(self.spec_contract_owner()) {
                self.roles_meta()[self.spec_contract_owner()]@
            } else {
                Seq::<u8>::empty()
            }),
    {
        let owner = self.owner;
        self.roles_data_of_or_empty(&owner)
    }

    /// The roles payload as text: its UTF-8 decoding, or the empty string
    /// when it is absent or not valid UTF-8.
    pub fn roles_as_string(&self) -> (r: String)
        requires
            self.wf(),
        ensures
            r@ == string_of_bytes(
                (if self.roles_meta().dom().contains(self.spec_contract_owner()) {
                    self.roles_meta()[self.spec_contract_owner()]@
                } else {
                    Seq::<u8>::empty()
                }),
            ),
    {
        let owner = self.owner;
        let value = self.roles_data_of_or_empty(&owner);
        match bytes_to_string(value) {
            Some(s) => s,
            None => String::new(),
        }
    }

    /// Stores the roles payload under the contract owner.
    pub fn set_roles(&mut self, data: Vec<u8>) -> (r: bool)
        requires
            old(self).wf(),
        ensures
            final(self).wf(),
            r == true,
            final(self).roles_meta() == old(self).roles_meta().insert(
                old(self).spec_contract_owner(),
                data,
            ),
            final(self).account_meta() == old(self).account_meta(),
            final(self).supply_meta() == old(self).supply_meta(),
            final(self).token_meta() == old(self).token_meta(),
            final(self).owners() == old(self).owners(),
            final(self).approvals() == old(self).approvals(),
            final(self).counts() == old(self).counts(),
            final(self).operators() == old(self).operators(),
            final(self).token_list() == old(self).token_list(),
            final(self).event_log() == old(self).event_log(),
            same_admin(*old(self), *final(self)),
    {
        let owner = self.owner;
        self.roles_data.insert(owner, data);
        proof {
            lemma_wf_core_unchanged(*old(self), *self);
        }
        true
    }

    /// The metadata payload stored for `token`, or an empty payload.
    pub fn token_metadata_of(&self, token: u32) -> (r: Vec<u8>)
        requires
            self.wf(),
        ensures
            r@ == (if self.token_meta().dom().contains(token) {
                self.token_meta()[token]@
            } else {
                Seq::<u8>::empty()
            }),
    {
        self.token_metadata_of_or_empty(&token)
    }

    /// The metadata payload stored for `token` as text: its UTF-8 decoding,
    /// or the empty string when it is absent or not valid UTF-8.
    pub fn token_metadata_of_as_string(&self, token: u32) -> (r: String)
        requires
            self.wf(),
        ensures
            r@ == string_of_bytes(
                (if self.token_meta().dom().contains(token) {
                    self.token_meta()[token]@
                } else {
                    Seq::<u8>::empty()
                }),
            ),
    {
        let value = self.token_metadata_of_or_empty(&token);
        match bytes_to_string(value) {
            Some(s) => s,
            None => String::new(),
        }
    }

    /// Stores `metadata` for `token`. The token must exist; the result says
    /// whether the write happened.
    pub fn set_token_metadata_of(&mut self, token: u32, metadata: Vec<u8>) -> (r: bool)
        requires
            old(self).wf(),
        ensures
            final(self).wf(),
            r == old(self).token_exists(token),
            r ==> final(self).token_meta() == old(self).token_meta().insert(token, metadata)
                && final(self).account_meta() == old(self).account_meta() && final(self).supply_meta()
                == old(self).supply_meta() && final(self).roles_meta() == old(self).roles_meta()
                && final(self).owners() == old(self).owners() && final(self).approvals() == old(self).approvals()
                && final(self).counts() == old(self).counts() && final(self).operators() == old(self).operators()
                && final(self).token_list() == old(self).token_list() && final(self).event_log()
                == old(self).event_log() && same_admin(*old(self), *final(self)),
            !r ==> *final(self) == *old(self),
    {
        if !self.token_owner.contains(&token) {
            return false;
        }
        self.token_metadata.insert(token, metadata);
        proof {
            lemma_wf_core_unchanged(*old(self), *self);
        }
        true
    }

    /// Reads an account's metadata entry, or an empty payload.
    fn account_metadata_of_or_empty(&self, owner: &AccountId) -> (r: Vec<u8>)
        requires
            self.stores_wf(),
        ensures
            r@ == (if self.account_meta().dom().contains(*owner) {
                self.account_meta()[*owner]@
            } else {
                Seq::<u8>::empty()
            }),
    {
        match self.account_metadata.get(owner) {
            Some(v) => copy_bytes(v),
            None => Vec::new(),
        }
    }

    /// Reads a supply-chain entry, or an empty payload.
    fn supply_chain_data_of_or_empty(&self, owner: &AccountId) -> (r: Vec<u8>)
        requires
            self.stores_wf(),
        ensures
            r@ == (if self.supply_meta().dom().contains(*owner) {
                self.supply_meta()[*owner]@
            } else {
                Seq::<u8>::empty()
            }),
    {
        match self.supply_chain_data.get(owner) {
            Some(v) => copy_bytes(v),
            None => Vec::new(),
        }
    }

    /// Reads a roles entry, or an empty payload.
    fn roles_data_of_or_empty(&self, owner: &AccountId) -> (r: Vec<u8>)
        requires
            self.stores_wf(),
        ensures
            r@ == (if self.roles_meta().dom().contains(*owner) {
                self.roles_meta()[*owner]@
            } else {
                Seq::<u8>::empty()
            }),
    {
        match self.roles_data.get(owner) {
            Some(v) => copy_bytes(v),
            None => Vec::new(),
        }
    }

    /// Reads a token's metadata entry, or an empty payload.
    fn token_metadata_of_or_empty(&self, token: &u32) -> (r: Vec<u8>)
        requires
            self.stores_wf(),
        ensures
            r@ == (if self.token_meta().dom().contains(*token) {
                self.token_meta()[*token]@
            } else {
                Seq::<u8>::empty()
            }),
    {
        match self.token_metadata.get(token) {
            Some(v) => copy_bytes(v),
            None => Vec::new(),
        }
    }
}

/// A token has at most one owner at any time: the owner table maps each
/// existing token id to a single account.
pub proof fn lemma_owner_unique(r: Erc721, t: u32, a: AccountId, b: AccountId)
    requires
        r.token_exists(t),
        r.owners()[t] == a,
        r.owners()[t] == b,
    ensures
        a == b,
{
}

/// In a well-formed registry every account's balance equals the number of
/// owner-table entries that name it, so the counters never drift from the
/// owner table.
pub proof fn lemma_balance_counts_owned(r: Erc721, a: AccountId)
    requires
        r.wf(),
    ensures
        r.balance(a) == owned_tokens(r.owners(), a).len(),
{
}

/// In a well-formed registry an approval stands only for an existing token:
/// burning or transferring a token always clears its approval entry.
pub proof fn lemma_approval_implies_exists(r: Erc721, t: u32)
    requires
        r.wf(),
        r.approvals().dom().contains(t),
    ensures
        r.token_exists(t),
{
}

/// In a well-formed registry every existing token appears in the mint list.
pub proof fn lemma_existing_token_listed(r: Erc721, t: u32)
    requires
        r.wf(),
        r.token_exists(t),
    ensures
        r.token_list().contains(t),
{
}

} // verus!
