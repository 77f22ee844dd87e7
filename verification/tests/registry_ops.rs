use erc721::{AccountId, Erc721, Error};

fn account(id: u128) -> AccountId {
    AccountId { id }
}

#[test]
fn new_works() {
    let alice = account(1);
    let contract = Erc721::new(alice);
    assert_eq!(contract.version(), 3);
}

#[test]
fn mint_works() {
    let alice = account(1);
    let mut erc721 = Erc721::new(alice);
    // Token 1 does not exists.
    assert_eq!(erc721.owner_of(1), None);
    // Alice does not owns tokens.
    assert_eq!(erc721.balance_of(alice), 0);
    // Total tokens works = 0
    assert_eq!(erc721.list_all_tokens().len(), 0);
    // Create token Id 1.
    assert_eq!(erc721.mint(alice, 1), Ok(()));
    // Alice owns 1 token.
    assert_eq!(erc721.balance_of(alice), 1);
    // Total tokens works = 1
    assert_eq!(erc721.list_all_tokens().len(), 1);
}

#[test]
fn mint_existing_should_fail() {
    let alice = account(1);
    let mut erc721 = Erc721::new(alice);
    // Create token Id 1.
    assert_eq!(erc721.mint(alice, 1), Ok(()));
    // The first Transfer event takes place.
    assert_eq!(1, erc721.recorded_events_count());
    // Alice owns 1 token.
    assert_eq!(erc721.balance_of(alice), 1);
    // Alice owns token Id 1.
    assert_eq!(erc721.owner_of(1), Some(alice));
    // Cannot create token Id if it exists.
    assert_eq!(erc721.mint(alice, 1), Err(Error::TokenExists));
}

#[test]
fn transfer_works() {
    let alice = account(1);
    let bob = account(2);
    let mut erc721 = Erc721::new(alice);
    // Create token Id 1 for Alice.
    assert_eq!(erc721.mint(alice, 1), Ok(()));
    // Alice owns token 1.
    assert_eq!(erc721.balance_of(alice), 1);
    // Bob does not owns any token.
    assert_eq!(erc721.balance_of(bob), 0);
    // The first Transfer event takes place.
    assert_eq!(1, erc721.recorded_events_count());
    // Alice transfers token 1 to Bob.
    assert_eq!(erc721.transfer(alice, bob, 1), Ok(()));
    // The second Transfer event takes place.
    assert_eq!(2, erc721.recorded_events_count());
    // Bob owns token 1.
    assert_eq!(erc721.balance_of(bob), 1);
}

#[test]
fn invalid_transfer_should_fail() {
    let alice = account(1);
    let bob = account(2);
    let eve = account(3);
    let mut erc721 = Erc721::new(alice);
    // Transfer token fails if it does not exists.
    assert_eq!(erc721.transfer(alice, bob, 2), Err(Error::TokenNotFound));
    // Token Id 2 does not exists.
    assert_eq!(erc721.owner_of(2), None);
    // Create token Id 2.
    assert_eq!(erc721.mint(alice, 2), Ok(()));
    // Alice owns 1 token.
    assert_eq!(erc721.balance_of(alice), 1);
    // Token Id 2 is owned by Alice.
    assert_eq!(erc721.owner_of(2), Some(alice));
    // Bob cannot transfer not owned tokens.
    assert_eq!(erc721.transfer(bob, eve, 2), Err(Error::NotApproved));
}

#[test]
fn approved_transfer_works() {
    let alice = account(1);
    let bob = account(2);
    let eve = account(3);
    let mut erc721 = Erc721::new(alice);
    // Create token Id 1.
    assert_eq!(erc721.mint(alice, 1), Ok(()));
    // Token Id 1 is owned by Alice.
    assert_eq!(erc721.owner_of(1), Some(alice));
    // Approve token Id 1 transfer for Bob on behalf of Alice.
    assert_eq!(erc721.approve(alice, bob, 1), Ok(()));
    // Bob transfers token Id 1 from Alice to Eve.
    assert_eq!(erc721.transfer_from(bob, alice, eve, 1), Ok(()));
    // Token Id 1 is owned by Eve.
    assert_eq!(erc721.owner_of(1), Some(eve));
    // Alice does not owns tokens.
    assert_eq!(erc721.balance_of(alice), 0);
    // Bob does not owns tokens.
    assert_eq!(erc721.balance_of(bob), 0);
    // Eve owns 1 token.
    assert_eq!(erc721.balance_of(eve), 1);
}

#[test]
fn approved_for_all_works() {
    let alice = account(1);
    let bob = account(2);
    let eve = account(3);
    let mut erc721 = Erc721::new(alice);
    // Create token Id 1.
    assert_eq!(erc721.mint(alice, 1), Ok(()));
    // Create token Id 2.
    assert_eq!(erc721.mint(alice, 2), Ok(()));
    // Alice owns 2 tokens.
    assert_eq!(erc721.balance_of(alice), 2);
    // Approve all of Alice's tokens for Bob.
    assert_eq!(erc721.set_approval_for_all(alice, bob, true), Ok(()));
    // Bob is an approved operator for Alice.
    assert_eq!(erc721.is_approved_for_all(alice, bob), true);
    // Bob transfers token Id 1 from Alice to Eve.
    assert_eq!(erc721.transfer_from(bob, alice, eve, 1), Ok(()));
    // Token Id 1 is owned by Eve.
    assert_eq!(erc721.owner_of(1), Some(eve));
    // Alice owns 1 token.
    assert_eq!(erc721.balance_of(alice), 1);
    // Bob transfers token Id 2 from Alice to Eve.
    assert_eq!(erc721.transfer_from(bob, alice, eve, 2), Ok(()));
    // Bob does not owns tokens.
    assert_eq!(erc721.balance_of(bob), 0);
    // Eve owns 2 tokens.
    assert_eq!(erc721.balance_of(eve), 2);
    // Remove operator approval for Bob on behalf of Alice.
    assert_eq!(erc721.set_approval_for_all(alice, bob, false), Ok(()));
    // Bob is not an approved operator for Alice.
    assert_eq!(erc721.is_approved_for_all(alice, bob), false);
}

#[test]
fn not_approved_transfer_should_fail() {
    let alice = account(1);
    let bob = account(2);
    let eve = account(3);
    let frank = account(4);
    let mut erc721 = Erc721::new(alice);
    // Create token Id 1.
    assert_eq!(erc721.mint(alice, 1), Ok(()));
    // Alice owns 1 token.
    assert_eq!(erc721.balance_of(alice), 1);
    // Bob does not owns tokens.
    assert_eq!(erc721.balance_of(bob), 0);
    // Eve does not owns tokens.
    assert_eq!(erc721.balance_of(eve), 0);
    // Eve is not an approved operator by Alice.
    assert_eq!(
        erc721.transfer_from(eve, alice, frank, 1),
        Err(Error::NotApproved)
    );
    // Alice owns 1 token.
    assert_eq!(erc721.balance_of(alice), 1);
    // Bob does not owns tokens.
    assert_eq!(erc721.balance_of(bob), 0);
    // Eve does not owns tokens.
    assert_eq!(erc721.balance_of(eve), 0);
}

#[test]
fn burn_works() {
    let alice = account(1);
    let mut erc721 = Erc721::new(alice);
    // Create token Id 1 for Alice.
    assert_eq!(erc721.mint(alice, 1), Ok(()));
    // Alice owns 1 token.
    assert_eq!(erc721.balance_of(alice), 1);
    // Alice owns token Id 1.
    assert_eq!(erc721.owner_of(1), Some(alice));
    // Destroy token Id 1.
    assert_eq!(erc721.burn(alice, 1), Ok(()));
    // Alice does not owns tokens.
    assert_eq!(erc721.balance_of(alice), 0);
    // Token Id 1 does not exists.
    assert_eq!(erc721.owner_of(1), None);
}

#[test]
fn burn_by_non_owner_should_fail() {
    let alice = account(1);
    let bob = account(2);
    let mut erc721 = Erc721::new(alice);
    assert_eq!(erc721.mint(alice, 1), Ok(()));
    // An approved delegate still may not burn: only the owner can.
    assert_eq!(erc721.approve(alice, bob, 1), Ok(()));
    assert_eq!(erc721.burn(bob, 1), Err(Error::NotOwner));
    // Burning a token that does not exist fails the owner check too.
    assert_eq!(erc721.burn(alice, 99), Err(Error::NotOwner));
    // Nothing changed.
    assert_eq!(erc721.owner_of(1), Some(alice));
    assert_eq!(erc721.balance_of(alice), 1);
}

#[test]
fn burn_clears_approval() {
    let alice = account(1);
    let bob = account(2);
    let mut erc721 = Erc721::new(alice);
    assert_eq!(erc721.mint(alice, 1), Ok(()));
    assert_eq!(erc721.approve(alice, bob, 1), Ok(()));
    assert_eq!(erc721.get_approved(1), Some(bob));
    assert_eq!(erc721.burn(alice, 1), Ok(()));
    // Both the owner entry and the approval entry are gone.
    assert_eq!(erc721.owner_of(1), None);
    assert_eq!(erc721.get_approved(1), None);
}

#[test]
fn transfer_clears_prior_approval() {
    let a = account(1);
    let b = account(2);
    let c = account(3);
    let d = account(4);
    let mut erc721 = Erc721::new(a);
    // Mint token 7 to A, approve B, then A transfers it to C.
    assert_eq!(erc721.mint(a, 7), Ok(()));
    assert_eq!(erc721.approve(a, b, 7), Ok(()));
    assert_eq!(erc721.transfer(a, c, 7), Ok(()));
    // The stale approval did not survive the ownership change.
    assert_eq!(erc721.get_approved(7), None);
    assert_eq!(erc721.transfer_from(b, c, d, 7), Err(Error::NotApproved));
    assert_eq!(erc721.owner_of(7), Some(c));
}

#[test]
fn operator_approval_survives_mint_and_transfer() {
    let a = account(1);
    let b = account(2);
    let c = account(3);
    let mut erc721 = Erc721::new(a);
    // A sets B as operator, then mints token 1 and transfers it around.
    assert_eq!(erc721.set_approval_for_all(a, b, true), Ok(()));
    assert_eq!(erc721.mint(a, 1), Ok(()));
    assert_eq!(erc721.is_approved_for_all(a, b), true);
    // A mints token 2 later: B remains a valid operator without re-approval.
    assert_eq!(erc721.mint(a, 2), Ok(()));
    assert_eq!(erc721.is_approved_for_all(a, b), true);
    assert_eq!(erc721.transfer_from(b, a, c, 2), Ok(()));
    // Single-token approvals were never involved.
    assert_eq!(erc721.get_approved(1), None);
    assert_eq!(erc721.get_approved(2), None);
    assert_eq!(erc721.is_approved_for_all(a, b), true);
}

#[test]
fn end_to_end_lifecycle() {
    let alice = account(1);
    let bob = account(2);
    let mut erc721 = Erc721::new(alice);
    assert_eq!(erc721.mint(alice, 1), Ok(()));
    assert_eq!(erc721.balance_of(alice), 1);
    assert_eq!(erc721.owner_of(1), Some(alice));
    assert_eq!(erc721.transfer(alice, bob, 1), Ok(()));
    assert_eq!(erc721.balance_of(alice), 0);
    assert_eq!(erc721.balance_of(bob), 1);
    assert_eq!(erc721.burn(bob, 1), Ok(()));
    assert_eq!(erc721.owner_of(1), None);
    assert_eq!(erc721.balance_of(bob), 0);
}

#[test]
fn approve_by_non_owner_should_fail() {
    let alice = account(1);
    let bob = account(2);
    let eve = account(3);
    let mut erc721 = Erc721::new(eve);
    // Eve owns token 1; Alice is neither owner nor operator.
    assert_eq!(erc721.mint(eve, 1), Ok(()));
    assert_eq!(erc721.approve(alice, bob, 1), Err(Error::NotAllowed));
    // No approval entry was written.
    assert_eq!(erc721.get_approved(1), None);
}

#[test]
fn approve_nonexistent_token_should_fail() {
    let alice = account(1);
    let bob = account(2);
    let mut erc721 = Erc721::new(alice);
    assert_eq!(erc721.approve(alice, bob, 99), Err(Error::TokenNotFound));
    assert_eq!(erc721.get_approved(99), None);
}

#[test]
fn approve_overwrite_should_fail() {
    let alice = account(1);
    let bob = account(2);
    let eve = account(3);
    let mut erc721 = Erc721::new(alice);
    assert_eq!(erc721.mint(alice, 1), Ok(()));
    assert_eq!(erc721.approve(alice, bob, 1), Ok(()));
    // A standing approval must be cleared by an ownership change first.
    assert_eq!(erc721.approve(alice, eve, 1), Err(Error::CannotInsert));
    assert_eq!(erc721.get_approved(1), Some(bob));
}

#[test]
fn approve_null_account_should_fail() {
    let alice = account(1);
    let mut erc721 = Erc721::new(alice);
    assert_eq!(erc721.mint(alice, 1), Ok(()));
    assert_eq!(erc721.approve(alice, AccountId::null(), 1), Err(Error::NotAllowed));
    assert_eq!(erc721.get_approved(1), None);
}

#[test]
fn self_operator_should_fail() {
    let alice = account(1);
    let mut erc721 = Erc721::new(alice);
    assert_eq!(
        erc721.set_approval_for_all(alice, alice, true),
        Err(Error::NotAllowed)
    );
    assert_eq!(erc721.is_approved_for_all(alice, alice), false);
}

#[test]
fn mint_by_null_account_should_fail() {
    let alice = account(1);
    let mut erc721 = Erc721::new(alice);
    assert_eq!(erc721.mint(AccountId::null(), 1), Err(Error::NotAllowed));
    assert_eq!(erc721.owner_of(1), None);
}

#[test]
fn transfer_to_null_account_should_fail() {
    let alice = account(1);
    let mut erc721 = Erc721::new(alice);
    assert_eq!(erc721.mint(alice, 1), Ok(()));
    assert_eq!(
        erc721.transfer(alice, AccountId::null(), 1),
        Err(Error::NotAllowed)
    );
    assert_eq!(erc721.owner_of(1), Some(alice));
}

#[test]
fn transfer_from_with_wrong_owner_should_fail() {
    let alice = account(1);
    let bob = account(2);
    let eve = account(3);
    let frank = account(4);
    let mut erc721 = Erc721::new(alice);
    assert_eq!(erc721.mint(alice, 1), Ok(()));
    assert_eq!(erc721.approve(alice, bob, 1), Ok(()));
    // Bob is approved, but names Eve instead of the true owner.
    assert_eq!(erc721.transfer_from(bob, eve, frank, 1), Err(Error::NotApproved));
    // The registry did not substitute the real owner.
    assert_eq!(erc721.owner_of(1), Some(alice));
    assert_eq!(erc721.balance_of(alice), 1);
    assert_eq!(erc721.balance_of(eve), 0);
    assert_eq!(erc721.balance_of(frank), 0);
}

#[test]
fn transfer_to_self_keeps_state() {
    let alice = account(1);
    let mut erc721 = Erc721::new(alice);
    assert_eq!(erc721.mint(alice, 1), Ok(()));
    assert_eq!(erc721.transfer(alice, alice, 1), Ok(()));
    assert_eq!(erc721.owner_of(1), Some(alice));
    assert_eq!(erc721.balance_of(alice), 1);
}

#[test]
fn list_all_tokens_keeps_mint_order() {
    let alice = account(1);
    let mut erc721 = Erc721::new(alice);
    assert_eq!(erc721.mint(alice, 5), Ok(()));
    assert_eq!(erc721.mint(alice, 9), Ok(()));
    assert_eq!(erc721.list_all_tokens(), vec![5, 9]);
    // The mint list records history; burning does not rewrite it.
    assert_eq!(erc721.burn(alice, 5), Ok(()));
    assert_eq!(erc721.list_all_tokens(), vec![5, 9]);
}

#[test]
fn authorization_oracle_works() {
    let alice = account(1);
    let bob = account(2);
    let eve = account(3);
    let mut erc721 = Erc721::new(alice);
    // Nobody is authorized for a token that does not exist.
    assert_eq!(erc721.exists_token(1), false);
    assert_eq!(erc721.approved_or_owner(Some(alice), 1), false);
    assert_eq!(erc721.mint(alice, 1), Ok(()));
    assert_eq!(erc721.exists_token(1), true);
    // The owner is authorized; a stranger and the null account are not.
    assert_eq!(erc721.approved_or_owner(Some(alice), 1), true);
    assert_eq!(erc721.approved_or_owner(Some(bob), 1), false);
    assert_eq!(erc721.approved_or_owner(Some(AccountId::null()), 1), false);
    assert_eq!(erc721.approved_or_owner(None, 1), false);
    // A single-token approval authorizes exactly its delegate.
    assert_eq!(erc721.approve(alice, bob, 1), Ok(()));
    assert_eq!(erc721.approved_or_owner(Some(bob), 1), true);
    assert_eq!(erc721.approved_or_owner(Some(eve), 1), false);
    // An operator of the owner is authorized as well.
    assert_eq!(erc721.set_approval_for_all(alice, eve, true), Ok(()));
    assert_eq!(erc721.approved_for_all(alice, eve), true);
    assert_eq!(erc721.approved_or_owner(Some(eve), 1), true);
}

#[test]
fn contract_owner_works() {
    let alice = account(1);
    let bob = account(2);
    let contract = Erc721::new(alice);
    assert_eq!(contract.contract_owner(), alice);
    assert_eq!(contract.is_contract_owner(alice), true);
    assert_eq!(contract.is_contract_owner(bob), false);
}

#[test]
fn remint_after_burn_works() {
    let alice = account(1);
    let bob = account(2);
    let mut erc721 = Erc721::new(alice);
    assert_eq!(erc721.mint(alice, 1), Ok(()));
    assert_eq!(erc721.burn(alice, 1), Ok(()));
    // Once burned the id no longer exists, so it can be minted again.
    assert_eq!(erc721.mint(bob, 1), Ok(()));
    assert_eq!(erc721.owner_of(1), Some(bob));
    assert_eq!(erc721.balance_of(alice), 0);
    assert_eq!(erc721.balance_of(bob), 1);
}
