use art_nft_psp34::account::AccountId;
use art_nft_psp34::attributes::AttributeStore;
use art_nft_psp34::error::Error;
use art_nft_psp34::nft::ArtNft;
use art_nft_psp34::psp34_traits::Psp34Traits;
use art_nft_psp34::registry::Registry;

fn alice() -> AccountId {
    AccountId { id: 1 }
}

fn bob() -> AccountId {
    AccountId { id: 2 }
}

fn charlie() -> AccountId {
    AccountId { id: 3 }
}

fn new_contract() -> ArtNft {
    ArtNft::new(
        alice(),
        "202210131727".to_string(),
        334801581596596632473758891935041239976,
        "certificate.logion.network".to_string(),
    )
}

#[test]
fn scenario_mint_batch_then_transfer() {
    let mut contract = new_contract();
    // Mint to [B, A, C]: ids 0, 1, 2, in that order.
    let result = contract.mint(alice(), vec![bob(), alice(), charlie()]);
    assert_eq!(result, Ok(vec![(bob(), 0), (alice(), 1), (charlie(), 2)]));
    assert_eq!(contract.total_supply(), 3);
    // B transfers id 0 to C.
    assert_eq!(contract.transfer(bob(), charlie(), 0, Vec::new()), Ok(()));
    assert_eq!(contract.owner_of(0), Some(charlie()));
    assert_eq!(contract.balance_of(bob()), 0);
    assert_eq!(contract.balance_of(charlie()), 2);
    // Charlie's enumeration: [2] from the mint, then 0 appended by the
    // transfer, per the swap-remove/append rule.
    assert_eq!(contract.owners_token_by_index(charlie(), 0), Ok(2));
    assert_eq!(contract.owners_token_by_index(charlie(), 1), Ok(0));
    assert_eq!(
        contract.owners_token_by_index(charlie(), 2),
        Err(Error::TokenNotExists)
    );
}

#[test]
fn swap_remove_reorders_remaining_enumeration() {
    let mut contract = new_contract();
    let result = contract.mint(alice(), vec![bob(), bob(), bob()]);
    assert_eq!(result, Ok(vec![(bob(), 0), (bob(), 1), (bob(), 2)]));
    // Bob holds [0, 1, 2]; removing 0 swaps the last token into its slot.
    assert_eq!(contract.transfer(bob(), alice(), 0, Vec::new()), Ok(()));
    assert_eq!(contract.owners_token_by_index(bob(), 0), Ok(2));
    assert_eq!(contract.owners_token_by_index(bob(), 1), Ok(1));
    assert_eq!(contract.balance_of(bob()), 2);
    assert_eq!(contract.owners_token_by_index(alice(), 0), Ok(0));
}

#[test]
fn sequential_ids_across_batches() {
    let mut contract = new_contract();
    assert_eq!(contract.mint(alice(), vec![bob()]), Ok(vec![(bob(), 0)]));
    let result = contract.mint(alice(), vec![alice(), charlie()]);
    assert_eq!(result, Ok(vec![(alice(), 1), (charlie(), 2)]));
    assert_eq!(contract.total_supply(), 3);
}

#[test]
fn empty_mint_batch_changes_nothing() {
    let mut contract = new_contract();
    assert_eq!(contract.mint(alice(), Vec::new()), Ok(Vec::new()));
    assert_eq!(contract.total_supply(), 0);
}

#[test]
fn approved_operator_can_transfer() {
    let mut contract = new_contract();
    assert_eq!(contract.mint(alice(), vec![bob()]), Ok(vec![(bob(), 0)]));
    assert_eq!(contract.approve(bob(), 0, charlie()), Ok(()));
    assert_eq!(contract.transfer(charlie(), alice(), 0, Vec::new()), Ok(()));
    assert_eq!(contract.owner_of(0), Some(alice()));
}

#[test]
fn approval_is_cleared_by_transfer() {
    let mut contract = new_contract();
    assert_eq!(contract.mint(alice(), vec![bob()]), Ok(vec![(bob(), 0)]));
    assert_eq!(contract.approve(bob(), 0, charlie()), Ok(()));
    // Bob moves the token himself; the delegation to Charlie must die.
    assert_eq!(contract.transfer(bob(), alice(), 0, Vec::new()), Ok(()));
    assert_eq!(
        contract.transfer(charlie(), charlie(), 0, Vec::new()),
        Err(Error::NotApproved)
    );
    assert_eq!(contract.owner_of(0), Some(alice()));
}

#[test]
fn only_token_owner_can_approve() {
    let mut contract = new_contract();
    assert_eq!(contract.mint(alice(), vec![bob()]), Ok(vec![(bob(), 0)]));
    assert_eq!(contract.approve(charlie(), 0, charlie()), Err(Error::NotApproved));
    assert_eq!(contract.approve(bob(), 7, charlie()), Err(Error::TokenNotExists));
}

#[test]
fn self_transfer_keeps_balances_and_clears_approval() {
    let mut contract = new_contract();
    assert_eq!(contract.mint(alice(), vec![bob(), bob()]), Ok(vec![(bob(), 0), (bob(), 1)]));
    assert_eq!(contract.approve(bob(), 0, charlie()), Ok(()));
    assert_eq!(contract.transfer(bob(), bob(), 0, Vec::new()), Ok(()));
    assert_eq!(contract.balance_of(bob()), 2);
    assert_eq!(contract.owner_of(0), Some(bob()));
    // The self-transfer moved the token to the end of the enumeration.
    assert_eq!(contract.owners_token_by_index(bob(), 0), Ok(1));
    assert_eq!(contract.owners_token_by_index(bob(), 1), Ok(0));
    assert_eq!(
        contract.transfer(charlie(), charlie(), 0, Vec::new()),
        Err(Error::NotApproved)
    );
}

#[test]
fn transfer_of_unminted_token_fails() {
    let mut contract = new_contract();
    assert_eq!(
        contract.transfer(bob(), charlie(), 0, Vec::new()),
        Err(Error::TokenNotExists)
    );
}

#[test]
fn duplicate_mint_is_rejected_by_registry() {
    let mut registry = Registry::new();
    assert_eq!(registry.mint_to(bob(), 0), Ok(()));
    assert_eq!(registry.mint_to(charlie(), 0), Err(Error::DuplicateToken));
    assert_eq!(registry.owner_of(0), Some(bob()));
    assert_eq!(registry.total_supply(), 1);
}

#[test]
fn token_uri_formats_any_id() {
    let mut contract = new_contract();
    assert_eq!(contract.token_uri(12345), Ok("undefined12345.json".to_string()));
    assert_eq!(
        contract.set_base_uri(alice(), "ipfs://abc/".to_string()),
        Ok(())
    );
    // The URI is derived for every id, minted or not.
    assert_eq!(contract.token_uri(0), Ok("ipfs://abc/0.json".to_string()));
    assert_eq!(
        contract.token_uri(18446744073709551615),
        Ok("ipfs://abc/18446744073709551615.json".to_string())
    );
}

#[test]
fn token_uri_without_base_uri_fails() {
    // A collection state with nothing configured: only reachable by
    // assembling the state directly, since construction always sets a
    // default base URI.
    let contract = ArtNft {
        contract_owner: alice(),
        registry: Registry::new(),
        attributes: AttributeStore::new(),
        nonce: "202210131727".to_string(),
        collection_loc_id: 0,
        cert_host: "certificate.logion.network".to_string(),
    };
    assert_eq!(contract.token_uri(0), Err(Error::BaseUriNotSet));
}

#[test]
fn set_attribute_overwrites_idempotently() {
    let mut store = AttributeStore::new();
    assert_eq!(store.get_attribute(&"k".to_string()), None);
    store.set_attribute("k".to_string(), "v1".to_string());
    assert_eq!(store.get_attribute(&"k".to_string()), Some("v1".to_string()));
    store.set_attribute("k".to_string(), "v2".to_string());
    assert_eq!(store.get_attribute(&"k".to_string()), Some("v2".to_string()));
    store.set_attribute("other".to_string(), "w".to_string());
    assert_eq!(store.get_attribute(&"k".to_string()), Some("v2".to_string()));
    assert_eq!(store.get_attribute(&"other".to_string()), Some("w".to_string()));
}

#[test]
fn decimal_rendering_is_exact() {
    assert_eq!(art_nft_psp34::decimal::u64_to_decimal(0), "0");
    assert_eq!(art_nft_psp34::decimal::u64_to_decimal(7), "7");
    assert_eq!(art_nft_psp34::decimal::u64_to_decimal(10), "10");
    assert_eq!(art_nft_psp34::decimal::u64_to_decimal(90210), "90210");
    assert_eq!(
        art_nft_psp34::decimal::u64_to_decimal(u64::MAX),
        "18446744073709551615"
    );
}

#[test]
fn certification_fields_are_stored_verbatim() {
    let contract = new_contract();
    assert_eq!(contract.get_nonce(), "202210131727");
    assert_eq!(
        contract.get_collection_loc_id(),
        334801581596596632473758891935041239976
    );
    assert_eq!(contract.get_cert_host(), "certificate.logion.network");
}

#[test]
fn failed_gate_leaves_base_uri_unchanged() {
    let mut contract = new_contract();
    assert_eq!(
        contract.set_base_uri(bob(), "ipfs://evil/".to_string()),
        Err(Error::CallerIsNotOwner)
    );
    assert_eq!(contract.token_uri(0), Ok("undefined0.json".to_string()));
}
