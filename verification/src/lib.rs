//! A verified non-fungible-token ledger.
//!
//! The crate tracks exclusive ownership of uniquely identified tokens,
//! per-account holding counts, and delegated transfer rights.  The ledger
//! core ([`data::PSP34Data`]) owns the identifier-to-owner map and the
//! approval set, composes one of two interchangeable balance-accounting
//! strategies ([`counting::Balances`] or [`enumerable::Balances`]), and
//! implements the four ledger-mutating operations (mint, burn, transfer,
//! approve) with full invariant checking.
//!
//! The host that dispatches calls, resolves the caller identity, persists
//! state and delivers events is out of scope: every operation takes the
//! caller as an explicit argument and returns the list of events it
//! produced.

pub mod account;
pub mod assoc;
pub mod balances;
pub mod counting;
pub mod data;
pub mod enumerable;
pub mod errors;
pub mod id;
pub mod metadata;
pub mod traits;

pub use account::AccountId;
pub use balances::BalanceManager;
pub use data::{PSP34Data, PSP34Event};
pub use errors::PSP34Error;
pub use traits::{PSP34Burnable, PSP34Metadata, PSP34Mintable, PSP34};
pub use id::{Id, IdView};
