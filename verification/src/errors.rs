//! The errors a ledger operation can report.

use vstd::prelude::*;

verus! {

/// Every failure a ledger operation can report.  Errors are returned as
/// values, never thrown, and a failed operation leaves the ledger state
/// unchanged.
#[derive(Debug, Clone, PartialEq, Eq)]
pub enum PSP34Error {
    /// A descriptive failure outside the fixed kinds below.
    Custom(String),
    /// A granting approval named the token's own owner as operator.
    SelfApprove,
    /// The caller lacks the authorization the operation demands.
    NotApproved,
    /// A mint named an identifier that is already owned.
    TokenExists,
    /// The operation named an identifier that no one owns, or an index
    /// beyond the tokens that exist.
    TokenNotExists,
    /// A holding or supply counter stands at its cap and cannot grow.
    LimitExceeded,
}

} // verus!
