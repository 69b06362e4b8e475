//! Account identities, as the host supplies them.

use vstd::prelude::*;

verus! {

/// An account identity: 32 opaque bytes handed in by the host.  The ledger
/// never interprets the bytes; it only compares identities and, for
/// [`crate::data::PSP34Data::collection_id`], copies them into a token
/// identifier.
#[derive(Debug, Clone, Copy)]
pub struct AccountId(pub [u8; 32]);

impl AccountId {
    /// Wraps raw bytes as an account identity.
    pub fn new(bytes: [u8; 32]) -> (r: AccountId)
        ensures
            r.0 == bytes,
    {
        AccountId(bytes)
    }
}

impl PartialEq for AccountId {
    fn eq(&self, other: &AccountId) -> (r: bool) {
        let mut i: usize = 0;
        while i < 32
            invariant
                0 <= i <= 32,
                forall|j: int| 0 <= j < i ==> self.0[j] == other.0[j],
            decreases 32 - i,
        {
            if self.0[i] != other.0[i] {
                return false;
            }
            i = i + 1;
        }
        proof {
            assert(self.0 =~= other.0);
        }
        true
    }
}

impl vstd::std_specs::cmp::PartialEqSpecImpl for AccountId {
    open spec fn obeys_eq_spec() -> bool {
        true
    }

    open spec fn eq_spec(&self, other: &AccountId) -> bool {
        self.0 == other.0
    }
}

impl DeepView for AccountId {
    type V = AccountId;

    open spec fn deep_view(&self) -> AccountId {
        *self
    }
}

impl crate::assoc::DeepEq for AccountId {
    fn deep_eq(&self, other: &Self) -> (r: bool) {
        self == other
    }
}

} // verus!
