//! The balance-accounting capability.
//!
//! The ledger core composes one balance-accounting instance and keeps it
//! in lock-step with the ownership record.  Two strategies implement the
//! capability: [`crate::counting::Balances`] keeps one counter per owner
//! and a global supply counter, [`crate::enumerable::Balances`] keeps the
//! identifier lists themselves and additionally supports positional
//! enumeration.  The choice is made once, at construction.

use vstd::multiset::Multiset;
use vstd::prelude::*;

use crate::account::AccountId;
use crate::errors::PSP34Error;
use crate::id::{Id, IdView};

verus! {

/// Balance accounting: per-owner token counts and the total supply,
/// together with the recorded identifier collections that the counts
/// summarize.
///
/// The identifier collections are part of the specification of every
/// implementation; the counting strategy carries them as ghost state only,
/// while the enumerable strategy stores them.
pub trait BalanceManager: Sized {
    /// Internal consistency of the accounting state.
    spec fn inv(&self) -> bool;

    /// How many tokens the accounting records for `owner`.
    spec fn count_of(&self, owner: AccountId) -> nat;

    /// How many tokens the accounting records in total.
    spec fn supply(&self) -> nat;

    /// The identifiers recorded for `owner`.
    spec fn owned_ids(&self, owner: AccountId) -> Multiset<IdView>;

    /// All identifiers recorded, across every owner and the unowned
    /// supply-only records.
    spec fn all_ids(&self) -> Multiset<IdView>;

    /// Whether one more token can be recorded for `owner` (and, when
    /// `increase_supply` is set, for the total supply) without passing a
    /// counter's cap.
    spec fn can_increase(&self, owner: AccountId, increase_supply: bool) -> bool;

    /// The counts are the sizes of the recorded identifier collections.
    proof fn lemma_counts_match(&self, owner: AccountId)
        requires
            self.inv(),
        ensures
            self.count_of(owner) == self.owned_ids(owner).len(),
            self.supply() == self.all_ids().len(),
    ;

    /// Accounting for a ledger with no tokens.
    fn new() -> (r: Self)
        ensures
            r.inv(),
            r.supply() == 0,
            forall|o: AccountId| r.count_of(o) == 0,
            forall|o: AccountId| r.owned_ids(o) == Multiset::<IdView>::empty(),
            r.all_ids() == Multiset::<IdView>::empty(),
    ;

    /// The number of tokens recorded for `owner`; zero for an owner never
    /// seen.  The result is exact whenever the count fits the return type.
    fn balance_of(&self, owner: &AccountId) -> (r: u32)
        requires
            self.inv(),
        ensures
            self.count_of(*owner) < 0x1_0000_0000 ==> r == self.count_of(*owner),
    ;

    /// The number of tokens recorded in total.
    fn total_supply(&self) -> (r: u128)
        requires
            self.inv(),
        ensures
            r == self.supply(),
    ;

    /// Records one more token `id` for `owner`; when `increase_supply` is
    /// set, also records it in the total supply.  Fails, changing nothing,
    /// exactly when a counter stands at its cap.
    fn increase_balance(&mut self, owner: &AccountId, id: &Id, increase_supply: bool) -> (r:
        Result<(), PSP34Error>)
        requires
            old(self).inv(),
        ensures
            final(self).inv(),
            r is Ok <==> old(self).can_increase(*owner, increase_supply),
            r is Err ==> *final(self) == *old(self) && r == Err::<(), PSP34Error>(
                PSP34Error::LimitExceeded,
            ),
            r is Ok ==> {
                &&& final(self).count_of(*owner) == old(self).count_of(*owner) + 1
                &&& forall|o: AccountId|
                    o != *owner ==> final(self).count_of(o) == old(self).count_of(o)
                &&& final(self).owned_ids(*owner) == old(self).owned_ids(*owner).insert(id@)
                &&& forall|o: AccountId|
                    o != *owner ==> final(self).owned_ids(o) == old(self).owned_ids(o)
                &&& final(self).supply() == old(self).supply() + (if increase_supply {
                    1int
                } else {
                    0int
                })
                &&& final(self).all_ids() == (if increase_supply {
                    old(self).all_ids().insert(id@)
                } else {
                    old(self).all_ids()
                })
            },
    ;

    /// Removes one record of token `id` from `owner`; when
    /// `decrease_supply` is set, also removes it from the total supply.
    /// Callers hand in only identifiers they have verified are recorded.
    fn decrease_balance(&mut self, owner: &AccountId, id: &Id, decrease_supply: bool)
        requires
            old(self).inv(),
            old(self).owned_ids(*owner).contains(id@),
            decrease_supply ==> old(self).all_ids().contains(id@),
        ensures
            final(self).inv(),
            final(self).count_of(*owner) == old(self).count_of(*owner) - 1,
            forall|o: AccountId| o != *owner ==> final(self).count_of(o) == old(self).count_of(o),
            final(self).owned_ids(*owner) == old(self).owned_ids(*owner).remove(id@),
            forall|o: AccountId|
                o != *owner ==> final(self).owned_ids(o) == old(self).owned_ids(o),
            final(self).supply() == old(self).supply() - (if decrease_supply {
                1int
            } else {
                0int
            }),
            final(self).all_ids() == (if decrease_supply {
                old(self).all_ids().remove(id@)
            } else {
                old(self).all_ids()
            }),
    ;
}

} // verus!
