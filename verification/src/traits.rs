//! The operations a token exposes to its host.
//!
//! These traits name the external interface of a token built on the
//! ledger core: the host-facing wrapper implements them by resolving the
//! caller identity, delegating to [`crate::data::PSP34Data`], and
//! delivering the returned events.  The caller argument the ledger core
//! takes explicitly is the one the wrapper resolves, which is why these
//! signatures do not carry it.

use vstd::prelude::*;

use crate::account::AccountId;
use crate::errors::PSP34Error;
use crate::id::Id;

verus! {

/// The core token interface.
pub trait PSP34 {
    /// Returns the collection identifier of the token.
    fn collection_id(&self) -> Id;

    /// Returns the current total supply of tokens.
    fn total_supply(&self) -> u128;

    /// Returns the number of distinct tokens `owner` holds.
    fn balance_of(&self, owner: AccountId) -> u32;

    /// Returns true if `operator` is approved by `owner` to withdraw the
    /// token `id`; with no token named, whether a blanket approval
    /// stands.
    fn allowance(&self, owner: AccountId, operator: AccountId, id: Option<Id>) -> bool;

    /// Transfers an owned or approved token from the caller; on success a
    /// transfer event is delivered.
    fn transfer(&mut self, to: AccountId, id: Id, data: Vec<u8>) -> Result<(), PSP34Error>;

    /// Approves `operator` to withdraw the token `id` from the caller's
    /// account; with no token named, grants or revokes the operator over
    /// all the caller's tokens.  On success an approval event is
    /// delivered.
    fn approve(&mut self, operator: AccountId, id: Option<Id>, approved: bool) -> Result<
        (),
        PSP34Error,
    >;

    /// Returns the owner of the token, if any.
    fn owner_of(&self, id: Id) -> Option<AccountId>;
}

/// The metadata extension.
pub trait PSP34Metadata {
    /// Returns the attribute of `id` under the given key; the collection
    /// identifier addresses collection-level attributes.
    fn get_attribute(&self, id: Id, key: Vec<u8>) -> Option<Vec<u8>>;
}

/// The minting extension.
pub trait PSP34Mintable {
    /// Mints a token to the caller's account; on success a transfer
    /// event with no sender is delivered.
    fn mint(&mut self, id: Id) -> Result<(), PSP34Error>;
}

/// The burning extension.
pub trait PSP34Burnable {
    /// Burns a token from the selected account; on success a transfer
    /// event with no recipient is delivered.
    fn burn(&mut self, account: AccountId, id: Id) -> Result<(), PSP34Error>;
}

} // verus!
