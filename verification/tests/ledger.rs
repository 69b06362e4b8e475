//! Ledger-core behavior over the counting balance strategy.

use psp34::counting::Balances;
use psp34::id::id_to_u128;
use psp34::{AccountId, Id, PSP34Data, PSP34Error, PSP34Event};

fn account(tag: u8) -> AccountId {
    AccountId::new([tag; 32])
}

fn ledger() -> PSP34Data<Balances> {
    PSP34Data::<Balances>::new()
}

#[test]
fn new_ledger_is_empty() {
    let token = ledger();
    assert_eq!(token.total_supply(), 0);
    assert_eq!(token.balance_of(account(1)), 0);
    assert_eq!(token.owner_of(&Id::U8(1)), None);
    let by_default: PSP34Data<Balances> = Default::default();
    assert_eq!(by_default.total_supply(), 0);
}

#[test]
fn mint_works() {
    let alice = account(1);
    let mut token = ledger();
    assert_eq!(token.owner_of(&Id::U8(1)), None);
    assert_eq!(token.balance_of(alice), 0);
    let events = token.mint(alice, Id::U8(1)).unwrap();
    assert_eq!(token.balance_of(alice), 1);
    assert_eq!(token.total_supply(), 1);
    assert_eq!(token.owner_of(&Id::U8(1)), Some(alice));
    assert_eq!(
        events,
        vec![PSP34Event::Transfer { from: None, to: Some(alice), id: Id::U8(1) }]
    );
}

#[test]
fn mint_existing_fails_and_changes_nothing() {
    let alice = account(1);
    let bob = account(2);
    let mut token = ledger();
    assert!(token.mint(alice, Id::U8(1)).is_ok());
    assert_eq!(token.mint(bob, Id::U8(1)), Err(PSP34Error::TokenExists));
    assert_eq!(token.owner_of(&Id::U8(1)), Some(alice));
    assert_eq!(token.balance_of(alice), 1);
    assert_eq!(token.balance_of(bob), 0);
    assert_eq!(token.total_supply(), 1);
}

#[test]
fn ids_of_different_widths_are_distinct() {
    let alice = account(1);
    let mut token = ledger();
    assert!(token.mint(alice, Id::U8(7)).is_ok());
    assert!(token.mint(alice, Id::U16(7)).is_ok());
    assert!(token.mint(alice, Id::U128(7)).is_ok());
    assert!(token.mint(alice, Id::Bytes(vec![7])).is_ok());
    assert_eq!(token.balance_of(alice), 4);
    assert_eq!(token.total_supply(), 4);
    assert_eq!(token.owner_of(&Id::U8(7)), Some(alice));
    assert_eq!(token.owner_of(&Id::U64(7)), None);
}

#[test]
fn transfer_works() {
    let alice = account(1);
    let bob = account(2);
    let mut token = ledger();
    assert!(token.mint(alice, Id::U8(1)).is_ok());
    let events = token.transfer(alice, bob, Id::U8(1), vec![]).unwrap();
    assert_eq!(token.owner_of(&Id::U8(1)), Some(bob));
    assert_eq!(token.balance_of(alice), 0);
    assert_eq!(token.balance_of(bob), 1);
    assert_eq!(token.total_supply(), 1);
    assert_eq!(
        events,
        vec![PSP34Event::Transfer { from: Some(alice), to: Some(bob), id: Id::U8(1) }]
    );
}

#[test]
fn self_transfer_succeeds_without_events() {
    let alice = account(1);
    let mut token = ledger();
    assert!(token.mint(alice, Id::U8(1)).is_ok());
    let events = token.transfer(alice, alice, Id::U8(1), vec![0]).unwrap();
    assert!(events.is_empty());
    assert_eq!(token.owner_of(&Id::U8(1)), Some(alice));
    assert_eq!(token.balance_of(alice), 1);
    assert_eq!(token.total_supply(), 1);
}

#[test]
fn transfer_of_missing_token_fails() {
    let alice = account(1);
    let bob = account(2);
    let mut token = ledger();
    assert_eq!(
        token.transfer(alice, bob, Id::U8(2), vec![0]),
        Err(PSP34Error::TokenNotExists)
    );
}

#[test]
fn unapproved_transfer_fails_and_balances_are_unchanged() {
    let alice = account(1);
    let eve = account(3);
    let frank = account(4);
    let mut token = ledger();
    assert!(token.mint(alice, Id::U8(1)).is_ok());
    assert_eq!(
        token.transfer(eve, frank, Id::U8(1), vec![0]),
        Err(PSP34Error::NotApproved)
    );
    assert_eq!(token.balance_of(alice), 1);
    assert_eq!(token.balance_of(eve), 0);
    assert_eq!(token.balance_of(frank), 0);
    assert_eq!(token.owner_of(&Id::U8(1)), Some(alice));
}

#[test]
fn approved_transfer_works() {
    // Mint a token to A, approve operator B for it, then B moves it to C.
    let a = account(1);
    let b = account(2);
    let c = account(3);
    let mut token = ledger();
    assert!(token.mint(a, Id::U8(1)).is_ok());
    assert_eq!(token.balance_of(a), 1);
    assert_eq!(token.total_supply(), 1);
    assert!(token.approve(a, b, Some(Id::U8(1)), true).is_ok());
    assert!(token.allowance(a, b, Some(&Id::U8(1))));
    assert!(token.transfer(b, c, Id::U8(1), vec![0]).is_ok());
    assert_eq!(token.owner_of(&Id::U8(1)), Some(c));
    assert_eq!(token.balance_of(a), 0);
    assert_eq!(token.balance_of(b), 0);
    assert_eq!(token.balance_of(c), 1);
    // The operator's per-token approval is cleared by the transfer.
    assert!(!token.allowance(a, b, Some(&Id::U8(1))));
}

#[test]
fn approve_emits_event() {
    let a = account(1);
    let b = account(2);
    let mut token = ledger();
    assert!(token.mint(a, Id::U8(1)).is_ok());
    let events = token.approve(a, b, Some(Id::U8(1)), true).unwrap();
    assert_eq!(
        events,
        vec![PSP34Event::Approval { owner: a, operator: b, id: Some(Id::U8(1)), approved: true }]
    );
}

#[test]
fn blanket_approval_grants_and_revokes() {
    let a = account(1);
    let b = account(2);
    let eve = account(5);
    let mut token = ledger();
    assert!(token.mint(a, Id::U8(1)).is_ok());
    assert!(token.mint(a, Id::U8(2)).is_ok());
    assert_eq!(token.balance_of(a), 2);
    assert!(token.approve(a, b, None, true).is_ok());
    assert!(token.allowance(a, b, None));
    assert!(token.allowance(a, b, Some(&Id::U8(1))));
    assert!(!token.allowance(a, eve, None));
    assert!(token.transfer(b, eve, Id::U8(1), vec![0]).is_ok());
    assert_eq!(token.owner_of(&Id::U8(1)), Some(eve));
    assert_eq!(token.balance_of(a), 1);
    assert!(token.transfer(b, eve, Id::U8(2), vec![0]).is_ok());
    assert_eq!(token.balance_of(b), 0);
    assert_eq!(token.balance_of(eve), 2);
    assert!(token.approve(a, b, None, false).is_ok());
    assert!(!token.allowance(a, b, None));
}

#[test]
fn revoke_single_while_blanket_stands_fails() {
    // A approves B for all tokens, then tries to revoke one token only.
    let a = account(1);
    let b = account(2);
    let mut token = ledger();
    assert!(token.mint(a, Id::U8(1)).is_ok());
    assert!(token.mint(a, Id::U8(2)).is_ok());
    assert!(token.approve(a, b, None, true).is_ok());
    assert!(token.allowance(a, b, None));
    assert_eq!(
        token.approve(a, b, Some(Id::U8(1)), false),
        Err(PSP34Error::Custom(String::from(
            "Cannot revoke approval for a single token, when the operator has approval for all tokens."
        )))
    );
    // The approval record is unchanged by the failed call.
    assert!(token.allowance(a, b, None));
    assert!(token.allowance(a, b, Some(&Id::U8(1))));
    // Revoking the blanket approval itself succeeds.
    assert!(token.approve(a, b, None, false).is_ok());
    assert!(!token.allowance(a, b, None));
    assert!(!token.allowance(a, b, Some(&Id::U8(1))));
}

#[test]
fn self_approve_fails() {
    let a = account(1);
    let mut token = ledger();
    assert!(token.mint(a, Id::U8(1)).is_ok());
    assert_eq!(
        token.approve(a, a, Some(Id::U8(1)), true),
        Err(PSP34Error::SelfApprove)
    );
}

#[test]
fn approve_of_missing_token_fails() {
    let a = account(1);
    let b = account(2);
    let mut token = ledger();
    assert_eq!(
        token.approve(a, b, Some(Id::U8(9)), true),
        Err(PSP34Error::TokenNotExists)
    );
}

#[test]
fn approve_by_stranger_fails() {
    let a = account(1);
    let b = account(2);
    let eve = account(5);
    let mut token = ledger();
    assert!(token.mint(a, Id::U8(1)).is_ok());
    assert_eq!(
        token.approve(eve, b, Some(Id::U8(1)), true),
        Err(PSP34Error::NotApproved)
    );
}

#[test]
fn approve_by_blanket_operator_records_the_owner() {
    // B carries A's blanket approval and grants C a per-token approval:
    // the recorded granter is the owner A, not the caller B.
    let a = account(1);
    let b = account(2);
    let c = account(3);
    let mut token = ledger();
    assert!(token.mint(a, Id::U8(1)).is_ok());
    assert!(token.approve(a, b, None, true).is_ok());
    let events = token.approve(b, c, Some(Id::U8(1)), true).unwrap();
    assert_eq!(
        events,
        vec![PSP34Event::Approval { owner: a, operator: c, id: Some(Id::U8(1)), approved: true }]
    );
    assert!(token.allowance(a, c, Some(&Id::U8(1))));
    assert!(token.transfer(c, c, Id::U8(1), vec![]).is_ok());
}

#[test]
fn burn_works() {
    let alice = account(1);
    let mut token = ledger();
    assert!(token.mint(alice, Id::U8(1)).is_ok());
    assert_eq!(token.balance_of(alice), 1);
    let events = token.burn(alice, alice, Id::U8(1)).unwrap();
    assert_eq!(token.balance_of(alice), 0);
    assert_eq!(token.total_supply(), 0);
    assert_eq!(token.owner_of(&Id::U8(1)), None);
    assert_eq!(
        events,
        vec![PSP34Event::Transfer { from: Some(alice), to: None, id: Id::U8(1) }]
    );
}

#[test]
fn burn_of_missing_token_fails() {
    let alice = account(1);
    let mut token = ledger();
    assert_eq!(
        token.burn(alice, alice, Id::U8(1)),
        Err(PSP34Error::TokenNotExists)
    );
}

#[test]
fn burn_by_stranger_fails() {
    let alice = account(1);
    let eve = account(5);
    let mut token = ledger();
    assert!(token.mint(alice, Id::U8(1)).is_ok());
    assert_eq!(
        token.burn(eve, alice, Id::U8(1)),
        Err(PSP34Error::NotApproved)
    );
    assert_eq!(token.balance_of(alice), 1);
    assert_eq!(token.total_supply(), 1);
}

#[test]
fn burn_by_blanket_operator_works() {
    let a = account(1);
    let b = account(2);
    let mut token = ledger();
    assert!(token.mint(a, Id::U8(1)).is_ok());
    assert!(token.approve(a, b, None, true).is_ok());
    assert!(token.burn(b, a, Id::U8(1)).is_ok());
    assert_eq!(token.balance_of(a), 0);
    assert_eq!(token.total_supply(), 0);
    assert_eq!(token.owner_of(&Id::U8(1)), None);
}

#[test]
fn burn_with_only_specific_approval_fails() {
    // A per-token approval authorizes transfer but, deliberately, not
    // burning: only a blanket approval or the owner may burn.
    let a = account(1);
    let b = account(2);
    let mut token = ledger();
    assert!(token.mint(a, Id::U8(1)).is_ok());
    assert!(token.approve(a, b, Some(Id::U8(1)), true).is_ok());
    assert_eq!(token.burn(b, a, Id::U8(1)), Err(PSP34Error::NotApproved));
    assert_eq!(token.balance_of(a), 1);
    assert_eq!(token.total_supply(), 1);
}

#[test]
fn burn_from_an_account_that_does_not_hold_the_token_fails() {
    let a = account(1);
    let b = account(2);
    let mut token = ledger();
    assert!(token.mint(a, Id::U8(1)).is_ok());
    assert_eq!(token.burn(b, b, Id::U8(1)), Err(PSP34Error::NotApproved));
    assert_eq!(token.owner_of(&Id::U8(1)), Some(a));
    assert_eq!(token.total_supply(), 1);
}

#[test]
fn collection_id_holds_the_address_bytes() {
    let token = ledger();
    let address = AccountId::new([9; 32]);
    assert_eq!(token.collection_id(address), Id::Bytes(vec![9; 32]));
}

#[test]
fn default_id_is_the_zero_u128() {
    assert_eq!(Id::default(), Id::U128(0));
}

#[test]
fn id_values_read_back_as_numbers() {
    assert_eq!(id_to_u128(&Id::U8(5)), 5);
    assert_eq!(id_to_u128(&Id::U16(515)), 515);
    assert_eq!(id_to_u128(&Id::U32(70_000)), 70_000);
    assert_eq!(id_to_u128(&Id::U64(1 << 40)), 1 << 40);
    assert_eq!(id_to_u128(&Id::U128(u128::MAX)), u128::MAX);
    let mut low = vec![0u8; 15];
    low.push(7);
    assert_eq!(id_to_u128(&Id::Bytes(low)), 7);
    let mut high = vec![0u8; 16];
    high[0] = 1;
    high[15] = 2;
    assert_eq!(id_to_u128(&Id::Bytes(high)), (1u128 << 120) + 2);
}

#[test]
fn ids_order_by_variant_then_value() {
    assert!(Id::U8(200) < Id::U16(3));
    assert!(Id::U8(1) < Id::U8(2));
    assert!(Id::U128(5) < Id::Bytes(vec![0]));
    assert!(Id::Bytes(vec![1]) < Id::Bytes(vec![1, 0]));
}
