use art_nft_psp34::account::AccountId;
use art_nft_psp34::error::Error;
use art_nft_psp34::nft::ArtNft;
use art_nft_psp34::psp34_traits::Psp34Traits;

const COLLECTION_LOC_ID: u128 = 334801581596596632473758891935041239976;

fn alice() -> AccountId {
    AccountId { id: 1 }
}

fn bob() -> AccountId {
    AccountId { id: 2 }
}

fn charlie() -> AccountId {
    AccountId { id: 3 }
}

fn new_contract() -> ArtNft {
    ArtNft::new(
        alice(),
        "202210131727".to_string(),
        COLLECTION_LOC_ID,
        "certificate.logion.network".to_string(),
    )
}

#[test]
fn it_creates_contract_with_default_base_uri() {
    let contract = new_contract();
    assert_eq!(contract.token_uri(0), Ok("undefined0.json".to_string()));
}

#[test]
fn it_sets_base_uri() {
    let mut contract = new_contract();
    let result = contract.set_base_uri(alice(), "http://invalid.domain/nft/".to_string());
    assert_eq!(result, Ok(()));
    assert_eq!(
        contract.token_uri(0),
        Ok("http://invalid.domain/nft/0.json".to_string())
    );
}

#[test]
fn it_fails_to_set_base_uri_when_not_contract_owner() {
    let mut contract = new_contract();
    let result = contract.set_base_uri(bob(), "http://invalid.domain/nft/".to_string());
    assert_eq!(result, Err(Error::CallerIsNotOwner));
}

#[test]
fn it_mints_for_one_account() {
    let mut contract = new_contract();
    let result = contract.mint(alice(), vec![bob()]);
    assert_eq!(result, Ok(vec![(bob(), 0)]));
    assert_eq!(contract.owner_of(0), Some(bob()));
    assert_eq!(contract.owners_token_by_index(bob(), 0), Ok(0));
    assert_eq!(contract.balance_of(bob()), 1);
}

#[test]
fn it_mints_for_many_accounts() {
    let mut contract = new_contract();
    let result = contract.mint(alice(), vec![bob(), alice(), charlie()]);
    assert_eq!(result, Ok(vec![(bob(), 0), (alice(), 1), (charlie(), 2)]));
    assert_eq!(contract.owner_of(0), Some(bob()));
    assert_eq!(contract.owners_token_by_index(bob(), 0), Ok(0));
    assert_eq!(contract.balance_of(bob()), 1);
}

#[test]
fn it_fails_to_mint_when_not_contract_owner() {
    let mut contract = new_contract();
    let result = contract.mint(bob(), vec![bob()]);
    assert_eq!(result, Err(Error::CallerIsNotOwner));
    assert_eq!(contract.owner_of(0), None);
    assert_eq!(
        contract.owners_token_by_index(bob(), 0),
        Err(Error::TokenNotExists)
    );
    assert_eq!(contract.balance_of(bob()), 0);
}

#[test]
fn it_transfers() {
    let mut contract = new_contract();
    // Alice mints to Bob
    let result = contract.mint(alice(), vec![bob()]);
    assert_eq!(result, Ok(vec![(bob(), 0)]));
    // Bob transfers to Charlie
    let result = contract.transfer(bob(), charlie(), 0, Vec::new());
    assert_eq!(result, Ok(()));
    assert_eq!(contract.owner_of(0), Some(charlie()));
    assert_eq!(contract.owners_token_by_index(charlie(), 0), Ok(0));
    assert_eq!(contract.balance_of(charlie()), 1);
    assert_eq!(
        contract.owners_token_by_index(bob(), 0),
        Err(Error::TokenNotExists)
    );
    assert_eq!(contract.balance_of(bob()), 0);
}

#[test]
fn it_fails_to_steal_token() {
    let mut contract = new_contract();
    // Alice mints to Bob
    let result = contract.mint(alice(), vec![bob()]);
    assert_eq!(result, Ok(vec![(bob(), 0)]));
    // Charlie transfers to Charlie
    let result = contract.transfer(charlie(), charlie(), 0, Vec::new());
    assert_eq!(result, Err(Error::NotApproved));
    assert_eq!(contract.owner_of(0), Some(bob()));
    assert_eq!(contract.owners_token_by_index(bob(), 0), Ok(0));
    assert_eq!(contract.balance_of(bob()), 1);
    assert_eq!(
        contract.owners_token_by_index(charlie(), 0),
        Err(Error::TokenNotExists)
    );
    assert_eq!(contract.balance_of(charlie()), 0);
}
