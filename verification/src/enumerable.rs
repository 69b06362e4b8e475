//! Balance accounting by identifier lists.
//!
//! One list of identifiers per owner and one global list, so that
//! holdings and the whole supply can be enumerated by position.  Deletion
//! uses swap-remove on the first positional match; enumeration order is
//! deliberately not stable across deletions.

use vstd::multiset::Multiset;
use vstd::prelude::*;

use crate::account::AccountId;
use crate::assoc::{AssocVec, DeepEq};
use crate::balances::BalanceManager;
use crate::errors::PSP34Error;
use crate::id::{Id, IdView};

verus! {

broadcast use vstd::multiset::group_multiset_axioms, vstd::seq_lib::group_to_multiset_ensures;

/// List-based balance accounting.
pub struct Balances {
    general: Vec<Id>,
    owned: AssocVec<AccountId, Vec<Id>>,
}

/// Swap-removing a position takes one occurrence of its value out of the
/// sequence's multiset.
proof fn lemma_swap_remove_multiset(s: Seq<IdView>, i: int)
    requires
        0 <= i < s.len(),
    ensures
        s.update(i, s.last()).drop_last().to_multiset() == s.to_multiset().remove(s[i]),
{
    let u = s.update(i, s.last());
    assert(s.contains(s[i]));
    assert(s.to_multiset().count(s[i]) > 0);
    assert(u.drop_last().push(u.last()) =~= u);
    assert(u.drop_last().push(u.last()).to_multiset() =~= u.drop_last().to_multiset().insert(
        u.last(),
    ));
    assert(u.to_multiset() == s.to_multiset().insert(s.last()).remove(s[i]));
    assert(u.last() == s.last());
    assert forall|v: IdView|
        u.drop_last().to_multiset().count(v) == s.to_multiset().remove(s[i]).count(v) by {
        assert(u.drop_last().to_multiset().insert(s.last()).count(v) == s.to_multiset().insert(
            s.last(),
        ).remove(s[i]).count(v));
    }
    assert(u.drop_last().to_multiset() =~= s.to_multiset().remove(s[i]));
}

/// The position of the first entry equal to `id`, if any.
fn position_of(list: &Vec<Id>, id: &Id) -> (r: Option<usize>)
    ensures
        match r {
            Option::Some(j) => j < list.deep_view().len() && list.deep_view()[j as int] == id@,
            Option::None => !list.deep_view().contains(id@),
        },
{
    let n = list.len();
    let mut i: usize = 0;
    while i < n
        invariant
            0 <= i <= n,
            n == list@.len(),
            forall|j: int| 0 <= j < i ==> (#[trigger] list.deep_view()[j]) != id@,
        decreases n - i,
    {
        let e = &list[i];
        if e.deep_eq(id) {
            proof {
                assert(list.deep_view()[i as int] == list@[i as int]@);
            }
            return Some(i);
        }
        proof {
            assert(list.deep_view()[i as int] == list@[i as int]@);
        }
        i = i + 1;
    }
    proof {
        if list.deep_view().contains(id@) {
            let j = choose|j: int|
                0 <= j < list.deep_view().len() && list.deep_view()[j] == id@;
            assert((#[trigger] list.deep_view()[j]) != id@);
        }
    }
    None
}

/// The token at a position of a list, or `TokenNotExists` past its end.
fn token_at(list: &Vec<Id>, index: u128) -> (r: Result<Id, PSP34Error>)
    ensures
        index < list.deep_view().len() ==> (r matches Ok(t) && t@ == list.deep_view()[
            index as int
        ]),
        index >= list.deep_view().len() ==> r == Err::<Id, PSP34Error>(PSP34Error::TokenNotExists),
{
    proof {
        assert(list.deep_view().len() == list@.len());
    }
    if index < list.len() as u128 {
        let j = index as usize;
        let t = &list[j];
        let c = t.clone();
        proof {
            assert(list.deep_view()[index as int] == list@[index as int]@);
        }
        Ok(c)
    } else {
        Err(PSP34Error::TokenNotExists)
    }
}

impl Balances {
    /// All recorded identifiers, in enumeration order.
    pub closed spec fn all_list(&self) -> Seq<IdView> {
        self.general.deep_view()
    }

    /// The identifiers recorded for `owner`, in enumeration order.
    pub closed spec fn owner_list(&self, owner: AccountId) -> Seq<IdView> {
        if self.owned.to_map().dom().contains(owner) {
            self.owned.to_map()[owner]
        } else {
            Seq::empty()
        }
    }

    /// The recorded identifier collections are the lists themselves, and
    /// the counts are their lengths.
    pub proof fn lemma_lists(&self)
        ensures
            self.all_ids() == self.all_list().to_multiset(),
            self.supply() == self.all_list().len(),
            forall|o: AccountId| #[trigger] self.owned_ids(o) == self.owner_list(o).to_multiset(),
            forall|o: AccountId| #[trigger] self.count_of(o) == self.owner_list(o).len(),
    {
    }

    /// The token at a position of an owner's holdings, or `TokenNotExists`
    /// when the position is past the owner's balance.
    pub fn owners_token_by_index(&self, owner: AccountId, index: u128) -> (r: Result<
        Id,
        PSP34Error,
    >)
        requires
            self.inv(),
        ensures
            index < self.owner_list(owner).len() ==> (r matches Ok(t) && t@ == self.owner_list(
                owner,
            )[index as int]),
            index >= self.owner_list(owner).len() ==> r == Err::<Id, PSP34Error>(
                PSP34Error::TokenNotExists,
            ),
    {
        match self.owned.get(&owner) {
            Option::Some(list) => token_at(list, index),
            Option::None => Err(PSP34Error::TokenNotExists),
        }
    }

    /// The token at a position of the whole supply, or `TokenNotExists`
    /// when the position is past the supply.
    pub fn token_by_index(&self, index: u128) -> (r: Result<Id, PSP34Error>)
        ensures
            index < self.all_list().len() ==> (r matches Ok(t) && t@ == self.all_list()[
                index as int
            ]),
            index >= self.all_list().len() ==> r == Err::<Id, PSP34Error>(
                PSP34Error::TokenNotExists,
            ),
    {
        token_at(&self.general, index)
    }
}

impl BalanceManager for Balances {
    closed spec fn inv(&self) -> bool {
        &&& self.owned.wf()
        &&& forall|o: AccountId| #[trigger]
            self.owned.to_map().dom().contains(o) ==> self.owned.to_map()[o].len() >= 1
    }

    closed spec fn count_of(&self, owner: AccountId) -> nat {
        self.owner_list(owner).len()
    }

    closed spec fn supply(&self) -> nat {
        self.all_list().len()
    }

    closed spec fn owned_ids(&self, owner: AccountId) -> Multiset<IdView> {
        self.owner_list(owner).to_multiset()
    }

    closed spec fn all_ids(&self) -> Multiset<IdView> {
        self.all_list().to_multiset()
    }

    closed spec fn can_increase(&self, owner: AccountId, increase_supply: bool) -> bool {
        true
    }

    proof fn lemma_counts_match(&self, owner: AccountId) {
        assert(self.owner_list(owner).to_multiset().len() == self.owner_list(owner).len());
        assert(self.all_list().to_multiset().len() == self.all_list().len());
    }

    fn new() -> (r: Self) {
        let r = Balances { general: Vec::new(), owned: AssocVec::new() };
        proof {
            assert(r.all_list() =~= Seq::<IdView>::empty());
            assert(r.all_list().to_multiset().len() == 0);
            assert(r.all_ids() =~= Multiset::<IdView>::empty());
            assert forall|o: AccountId| r.owned_ids(o) == Multiset::<IdView>::empty() by {
                assert(r.owner_list(o) == Seq::<IdView>::empty());
                assert(r.owner_list(o).to_multiset().len() == 0);
                assert(r.owned_ids(o) =~= Multiset::<IdView>::empty());
            }
        }
        r
    }

    fn balance_of(&self, owner: &AccountId) -> (r: u32) {
        match self.owned.get(owner) {
            Option::Some(list) => {
                proof {
                    assert(list.deep_view().len() == list@.len());
                }
                #[verifier::truncate] (list.len() as u32)
            },
            Option::None => 0,
        }
    }

    fn total_supply(&self) -> (r: u128) {
        proof {
            assert(self.all_list().len() == self.general@.len());
        }
        self.general.len() as u128
    }

    fn increase_balance(&mut self, owner: &AccountId, id: &Id, increase_supply: bool) -> (r:
        Result<(), PSP34Error>) {
        let ghost prev = self.owner_list(*owner);
        let entry = self.owned.remove(owner);
        let mut list = match entry {
            Option::Some(l) => l,
            Option::None => Vec::new(),
        };
        proof {
            assert(list.deep_view() =~= prev);
        }
        list.push(id.clone());
        proof {
            assert(list.deep_view() =~= prev.push(id@));
        }
        self.owned.insert(*owner, list);
        if increase_supply {
            let ghost prevg = self.all_list();
            self.general.push(id.clone());
            proof {
                assert(self.general.deep_view() =~= prevg.push(id@));
            }
        }
        proof {
            assert(self.owned.to_map() =~= old(self).owned.to_map().insert(
                *owner,
                prev.push(id@),
            ));
            assert(self.owner_list(*owner) == prev.push(id@));
            assert forall|o: AccountId| o != *owner implies self.owner_list(o) == old(
                self,
            ).owner_list(o) by {}
            assert forall|o: AccountId| #[trigger]
                self.owned.to_map().dom().contains(o) implies self.owned.to_map()[o].len()
                >= 1 by {
                if o != *owner {
                    assert(old(self).owned.to_map().dom().contains(o));
                }
            }
        }
        Ok(())
    }

    fn decrease_balance(&mut self, owner: &AccountId, id: &Id, decrease_supply: bool) {
        let ghost prev = self.owner_list(*owner);
        proof {
            assert(prev.to_multiset().count(id@) > 0);
            assert(prev.contains(id@));
            if !self.owned.to_map().dom().contains(*owner) {
                assert(prev =~= Seq::<IdView>::empty());
                assert(prev.to_multiset().len() == 0);
            }
        }
        let entry = self.owned.remove(owner);
        let mut list = entry.unwrap();
        proof {
            assert(list.deep_view() == prev);
        }
        let pos = position_of(&list, id);
        let j = pos.unwrap();
        let _ = list.swap_remove(j);
        proof {
            lemma_swap_remove_multiset(prev, j as int);
            assert(list.deep_view() =~= prev.update(j as int, prev.last()).drop_last());
        }
        let now_empty = list.len() == 0;
        if !now_empty {
            self.owned.insert(*owner, list);
        }
        if decrease_supply {
            let ghost prevg = self.all_list();
            proof {
                assert(prevg.to_multiset().count(id@) > 0);
                assert(prevg.contains(id@));
            }
            let pos2 = position_of(&self.general, id);
            let j2 = pos2.unwrap();
            let _ = self.general.swap_remove(j2);
            proof {
                lemma_swap_remove_multiset(prevg, j2 as int);
                assert(self.general.deep_view() =~= prevg.update(
                    j2 as int,
                    prevg.last(),
                ).drop_last());
                assert(self.all_ids() == old(self).all_ids().remove(id@));
            }
        }
        proof {
            if self.owned.to_map().dom().contains(*owner) {
                assert(self.owner_list(*owner).to_multiset() == prev.to_multiset().remove(id@));
            } else {
                assert(self.owner_list(*owner) == Seq::<IdView>::empty());
                assert(prev.update(j as int, prev.last()).drop_last().len() == 0);
                assert(self.owner_list(*owner) =~= prev.update(
                    j as int,
                    prev.last(),
                ).drop_last());
                assert(self.owner_list(*owner).to_multiset() == prev.to_multiset().remove(id@));
            }
            assert(self.count_of(*owner) == old(self).count_of(*owner) - 1);
            assert forall|o: AccountId| o != *owner implies self.owner_list(o) == old(
                self,
            ).owner_list(o) by {}
            assert forall|o: AccountId| #[trigger]
                self.owned.to_map().dom().contains(o) implies self.owned.to_map()[o].len()
                >= 1 by {
                if o != *owner {
                    assert(old(self).owned.to_map().dom().contains(o));
                }
            }
        }
    }
}

} // verus!
