use erc721::{AccountId, Erc721};

fn account(id: u128) -> AccountId {
    AccountId { id }
}

#[test]
fn account_metadata_works() {
    let alice = account(1);
    let mut contract = Erc721::new(alice);
    // Initial value should be empty.
    assert_eq!(
        contract.account_metadata_of_as_string(alice),
        String::from("")
    );
    // Set own value should work.
    contract.set_account_metadata_of(alice, alice, String::from("Alice metadata").into());
    assert_eq!(
        contract.account_metadata_of_as_string(alice),
        String::from("Alice metadata")
    );
}

#[test]
fn supply_chain_works() {
    let alice = account(1);
    let mut contract = Erc721::new(alice);
    // Initial value should be empty.
    assert_eq!(contract.supply_chain_as_string(), String::from(""));
    // Set and value should work.
    contract.set_supply_chain(String::from("[\"Step1\", \"Step2\"]").into());
    assert_eq!(
        contract.supply_chain_as_string(),
        String::from("[\"Step1\", \"Step2\"]")
    );
}

#[test]
fn roles_works() {
    let alice = account(1);
    let mut contract = Erc721::new(alice);
    // Initial value should be empty.
    assert_eq!(contract.roles_as_string(), String::from(""));
    // Set and value should work.
    contract.set_roles(String::from("[\"Role1\", \"Role2\"]").into());
    assert_eq!(
        contract.roles_as_string(),
        String::from("[\"Role1\", \"Role2\"]")
    );
}

#[test]
fn token_metadata_works() {
    let alice = account(1);
    let mut contract = Erc721::new(alice);
    // Token 1 does not exists.
    assert_eq!(contract.owner_of(1), None);
    // Alice does not owns tokens.
    assert_eq!(contract.balance_of(alice), 0);
    // Total tokens works = 0
    assert_eq!(contract.list_all_tokens().len(), 0);
    // Create token Id 1.
    assert_eq!(contract.mint(alice, 1), Ok(()));
    // Alice owns 1 token.
    assert_eq!(contract.balance_of(alice), 1);
    // Initial value should be empty.
    assert_eq!(contract.token_metadata_of_as_string(1), String::from(""));
    // Set value should work.
    contract.set_token_metadata_of(1, String::from("Token metadata").into());
    assert_eq!(
        contract.token_metadata_of_as_string(1),
        String::from("Token metadata")
    );
}

#[test]
fn account_metadata_write_needs_authority() {
    let alice = account(1);
    let bob = account(2);
    let eve = account(3);
    let mut contract = Erc721::new(alice);
    // Eve may not write Bob's metadata.
    assert_eq!(
        contract.set_account_metadata_of(eve, bob, vec![1, 2, 3]),
        false
    );
    assert_eq!(contract.account_metadata_of(bob), Vec::<u8>::new());
    // The contract owner may write anybody's metadata.
    assert_eq!(
        contract.set_account_metadata_of(alice, bob, vec![1, 2, 3]),
        true
    );
    assert_eq!(contract.account_metadata_of(bob), vec![1, 2, 3]);
    // An account may write its own metadata.
    assert_eq!(contract.set_account_metadata_of(bob, bob, vec![9]), true);
    assert_eq!(contract.account_metadata_of(bob), vec![9]);
}

#[test]
fn token_metadata_needs_existing_token() {
    let alice = account(1);
    let mut contract = Erc721::new(alice);
    assert_eq!(contract.set_token_metadata_of(1, vec![1]), false);
    assert_eq!(contract.token_metadata_of(1), Vec::<u8>::new());
}

#[test]
fn metadata_decodes_multibyte_utf8() {
    let alice = account(1);
    let mut contract = Erc721::new(alice);
    // A payload with multi-byte characters survives the byte round trip.
    contract.set_account_metadata_of(alice, alice, String::from("café ✓").into());
    assert_eq!(
        contract.account_metadata_of_as_string(alice),
        String::from("café ✓")
    );
    assert_eq!(
        contract.account_metadata_of(alice),
        String::from("café ✓").into_bytes()
    );
}

#[test]
fn invalid_utf8_metadata_reads_as_empty_string() {
    let alice = account(1);
    let mut contract = Erc721::new(alice);
    // The bytes are stored as given even though they are not UTF-8.
    assert_eq!(
        contract.set_account_metadata_of(alice, alice, vec![0xff, 0xfe]),
        true
    );
    assert_eq!(contract.account_metadata_of(alice), vec![0xff, 0xfe]);
    // The text view falls back to the empty string.
    assert_eq!(
        contract.account_metadata_of_as_string(alice),
        String::from("")
    );
}
