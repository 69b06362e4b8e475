//! Ledger-core behavior over the enumerable balance strategy.

use psp34::enumerable::Balances;
use psp34::{AccountId, Id, PSP34Data, PSP34Error};

fn account(tag: u8) -> AccountId {
    AccountId::new([tag; 32])
}

fn ledger() -> PSP34Data<Balances> {
    PSP34Data::<Balances>::new()
}

#[test]
fn core_operations_work_over_lists() {
    let alice = account(1);
    let bob = account(2);
    let mut token = ledger();
    assert!(token.mint(alice, Id::U8(1)).is_ok());
    assert!(token.mint(alice, Id::U8(2)).is_ok());
    assert_eq!(token.balance_of(alice), 2);
    assert_eq!(token.total_supply(), 2);
    assert!(token.transfer(alice, bob, Id::U8(1), vec![]).is_ok());
    assert_eq!(token.balance_of(alice), 1);
    assert_eq!(token.balance_of(bob), 1);
    assert_eq!(token.total_supply(), 2);
    assert!(token.burn(bob, bob, Id::U8(1)).is_ok());
    assert_eq!(token.balance_of(bob), 0);
    assert_eq!(token.total_supply(), 1);
    assert_eq!(token.owner_of(&Id::U8(1)), None);
    assert_eq!(token.owner_of(&Id::U8(2)), Some(alice));
}

#[test]
fn mint_twice_fails_over_lists() {
    let alice = account(1);
    let mut token = ledger();
    assert!(token.mint(alice, Id::U8(1)).is_ok());
    assert_eq!(token.mint(alice, Id::U8(1)), Err(PSP34Error::TokenExists));
    assert_eq!(token.balance_of(alice), 1);
}

#[test]
fn enumeration_visits_each_minted_id_exactly_once() {
    // Mint five tokens to various owners, then walk the whole supply.
    let owners = [account(1), account(2), account(1), account(3), account(2)];
    let mut token = ledger();
    for (n, owner) in owners.iter().enumerate() {
        assert!(token.mint(*owner, Id::U8((n + 1) as u8)).is_ok());
    }
    let mut seen = Vec::new();
    for i in 0..owners.len() {
        let id = token.token_by_index(i as u128).unwrap();
        assert!(!seen.contains(&id), "an id was enumerated twice");
        seen.push(id);
    }
    for n in 1..=owners.len() {
        assert!(seen.contains(&Id::U8(n as u8)), "a minted id was never enumerated");
    }
    assert_eq!(
        token.token_by_index(owners.len() as u128),
        Err(PSP34Error::TokenNotExists)
    );
}

#[test]
fn enumeration_stays_complete_after_burn() {
    let alice = account(1);
    let mut token = ledger();
    for n in 1..=4u8 {
        assert!(token.mint(alice, Id::U8(n)).is_ok());
    }
    assert!(token.burn(alice, alice, Id::U8(2)).is_ok());
    let mut seen = Vec::new();
    for i in 0..3u128 {
        let id = token.token_by_index(i).unwrap();
        assert!(!seen.contains(&id));
        seen.push(id);
    }
    assert!(seen.contains(&Id::U8(1)));
    assert!(seen.contains(&Id::U8(3)));
    assert!(seen.contains(&Id::U8(4)));
    assert_eq!(token.token_by_index(3), Err(PSP34Error::TokenNotExists));
}

#[test]
fn owners_tokens_are_enumerable_by_position() {
    let alice = account(1);
    let bob = account(2);
    let mut token = ledger();
    assert!(token.mint(alice, Id::U8(1)).is_ok());
    assert!(token.mint(bob, Id::U8(2)).is_ok());
    assert!(token.mint(alice, Id::U8(3)).is_ok());
    let mut seen = Vec::new();
    for i in 0..2u128 {
        let id = token.owners_token_by_index(alice, i).unwrap();
        assert!(!seen.contains(&id));
        seen.push(id);
    }
    assert!(seen.contains(&Id::U8(1)));
    assert!(seen.contains(&Id::U8(3)));
    assert_eq!(
        token.owners_token_by_index(alice, 2),
        Err(PSP34Error::TokenNotExists)
    );
    assert_eq!(
        token.owners_token_by_index(bob, 1),
        Err(PSP34Error::TokenNotExists)
    );
    assert_eq!(
        token.owners_token_by_index(account(9), 0),
        Err(PSP34Error::TokenNotExists)
    );
}

#[test]
fn huge_indices_are_rejected() {
    let alice = account(1);
    let mut token = ledger();
    assert!(token.mint(alice, Id::U8(1)).is_ok());
    assert_eq!(
        token.token_by_index(u128::MAX),
        Err(PSP34Error::TokenNotExists)
    );
    assert_eq!(
        token.owners_token_by_index(alice, u128::MAX),
        Err(PSP34Error::TokenNotExists)
    );
}
