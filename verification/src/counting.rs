//! Balance accounting by counters.
//!
//! One `u32` counter per owner (absent entries meaning zero, entries never
//! stored at zero) and one global `u128` supply counter.  The identifier
//! collections that the counters summarize are carried as ghost state, so
//! that the strategy meets the same contract as the enumerable one.

use vstd::multiset::Multiset;
use vstd::prelude::*;

use crate::account::AccountId;
use crate::assoc::AssocVec;
use crate::balances::BalanceManager;
use crate::errors::PSP34Error;
use crate::id::{Id, IdView};

verus! {

broadcast use vstd::multiset::group_multiset_axioms;

/// Counter-based balance accounting.
pub struct Balances {
    owned_tokens_count: AssocVec<AccountId, u32>,
    total_supply: u128,
    held_ids: Ghost<Map<AccountId, Multiset<IdView>>>,
    minted_ids: Ghost<Multiset<IdView>>,
}

impl BalanceManager for Balances {
    closed spec fn inv(&self) -> bool {
        &&& self.owned_tokens_count.wf()
        &&& forall|o: AccountId| #[trigger]
            self.owned_tokens_count.to_map().dom().contains(o)
                ==> self.owned_tokens_count.to_map()[o] >= 1
        &&& forall|o: AccountId| #[trigger] self.count_of(o) == self.owned_ids(o).len()
        &&& self.supply() == self.all_ids().len()
    }

    closed spec fn count_of(&self, owner: AccountId) -> nat {
        if self.owned_tokens_count.to_map().dom().contains(owner) {
            self.owned_tokens_count.to_map()[owner] as nat
        } else {
            0
        }
    }

    closed spec fn supply(&self) -> nat {
        self.total_supply as nat
    }

    closed spec fn owned_ids(&self, owner: AccountId) -> Multiset<IdView> {
        if self.held_ids@.dom().contains(owner) {
            self.held_ids@[owner]
        } else {
            Multiset::empty()
        }
    }

    closed spec fn all_ids(&self) -> Multiset<IdView> {
        self.minted_ids@
    }

    closed spec fn can_increase(&self, owner: AccountId, increase_supply: bool) -> bool {
        self.count_of(owner) < u32::MAX && (increase_supply ==> self.supply() < u128::MAX)
    }

    proof fn lemma_counts_match(&self, owner: AccountId) {
        assert(self.count_of(owner) == self.owned_ids(owner).len());
    }

    fn new() -> (r: Self) {
        let r = Balances {
            owned_tokens_count: AssocVec::new(),
            total_supply: 0,
            held_ids: Ghost(Map::empty()),
            minted_ids: Ghost(Multiset::empty()),
        };
        r
    }

    fn balance_of(&self, owner: &AccountId) -> (r: u32) {
        match self.owned_tokens_count.get(owner) {
            Option::Some(c) => *c,
            Option::None => 0,
        }
    }

    fn total_supply(&self) -> (r: u128) {
        self.total_supply
    }

    fn increase_balance(&mut self, owner: &AccountId, id: &Id, increase_supply: bool) -> (r:
        Result<(), PSP34Error>) {
        let current = self.balance_of(owner);
        if current == u32::MAX {
            return Err(PSP34Error::LimitExceeded);
        }
        if increase_supply && self.total_supply == u128::MAX {
            return Err(PSP34Error::LimitExceeded);
        }
        let ghost prev_owned = self.owned_ids(*owner);
        self.owned_tokens_count.insert(*owner, current + 1);
        if increase_supply {
            self.total_supply = self.total_supply + 1;
        }
        proof {
            self.held_ids@ = self.held_ids@.insert(*owner, prev_owned.insert(id@));
            if increase_supply {
                self.minted_ids@ = self.minted_ids@.insert(id@);
            }
            assert forall|o: AccountId| #[trigger]
                self.count_of(o) == self.owned_ids(o).len() by {
                if o != *owner {
                    assert(old(self).count_of(o) == old(self).owned_ids(o).len());
                }
            }
        }
        Ok(())
    }

    fn decrease_balance(&mut self, owner: &AccountId, id: &Id, decrease_supply: bool) {
        proof {
            assert(old(self).owned_ids(*owner).count(id@) >= 1);
            assert(old(self).count_of(*owner) == old(self).owned_ids(*owner).len());
            assert(old(self).owned_ids(*owner).len() >= 1);
            assert(Multiset::singleton(id@).subset_of(old(self).owned_ids(*owner)));
            if decrease_supply {
                assert(old(self).all_ids().count(id@) >= 1);
                assert(Multiset::singleton(id@).subset_of(old(self).all_ids()));
            }
        }
        let current = self.balance_of(owner);
        let ghost prev_owned = self.owned_ids(*owner);
        if current <= 1 {
            let _ = self.owned_tokens_count.remove(owner);
        } else {
            self.owned_tokens_count.insert(*owner, current - 1);
        }
        if decrease_supply {
            self.total_supply = self.total_supply - 1;
        }
        proof {
            self.held_ids@ = self.held_ids@.insert(*owner, prev_owned.remove(id@));
            if decrease_supply {
                self.minted_ids@ = self.minted_ids@.remove(id@);
            }
            assert forall|o: AccountId| #[trigger]
                self.count_of(o) == self.owned_ids(o).len() by {
                if o != *owner {
                    assert(old(self).count_of(o) == old(self).owned_ids(o).len());
                }
            }
        }
    }
}

} // verus!
