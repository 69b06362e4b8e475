//! The ledger core.
//!
//! [`PSP34Data`] owns the identifier-to-owner record and the approval
//! record, composes one balance-accounting instance, and implements the
//! four ledger-mutating operations — mint, burn, transfer, approve — with
//! full invariant checking.  Each mutating operation either commits its
//! whole effect and returns the events describing it, or commits nothing
//! and returns the error.

use vstd::prelude::*;

use crate::account::AccountId;
use crate::assoc::AssocVec;
use crate::balances::BalanceManager;
use crate::errors::PSP34Error;
use crate::id::{Id, IdView};

verus! {

broadcast use vstd::string::to_string_from_display_ensures_for_str;

/// What a ledger mutation reports to the host for delivery to observers.
#[derive(Debug, Clone, PartialEq)]
pub enum PSP34Event {
    /// Ownership of `id` moved: minted (`from` absent), burned (`to`
    /// absent), or transferred.
    Transfer { from: Option<AccountId>, to: Option<AccountId>, id: Id },
    /// An approval was granted or revoked, for one token or for all.
    Approval { owner: AccountId, operator: AccountId, id: Option<Id>, approved: bool },
    /// A metadata attribute was set.
    AttributeSet { id: Id, key: Vec<u8>, data: Vec<u8> },
}

/// The value of an optional identifier.
pub open spec fn opt_id_view(id: Option<Id>) -> Option<IdView> {
    match id {
        Option::Some(t) => Option::Some(t@),
        Option::None => Option::None,
    }
}

/// The value of an optional borrowed identifier.
pub open spec fn opt_ref_view(id: Option<&Id>) -> Option<IdView> {
    match id {
        Option::Some(t) => Option::Some(t@),
        Option::None => Option::None,
    }
}

/// Whether `e` is the transfer event with the given fields.
pub open spec fn is_transfer_event(
    e: PSP34Event,
    from: Option<AccountId>,
    to: Option<AccountId>,
    id: IdView,
) -> bool {
    &&& e matches PSP34Event::Transfer { from: f, to: t, id: i }
    &&& f == from
    &&& t == to
    &&& i@ == id
}

/// Whether `e` is the approval event with the given fields.
pub open spec fn is_approval_event(
    e: PSP34Event,
    owner: AccountId,
    operator: AccountId,
    id: Option<IdView>,
    approved: bool,
) -> bool {
    &&& e matches PSP34Event::Approval { owner: o, operator: p, id: i, approved: a }
    &&& o == owner
    &&& p == operator
    &&& opt_id_view(i) == id
    &&& a == approved
}

/// Whether `e` is the attribute event with the given fields.
pub open spec fn is_attribute_event(e: PSP34Event, id: IdView, key: Seq<u8>, data: Seq<u8>) -> bool {
    &&& e matches PSP34Event::AttributeSet { id: i, key: k, data: d }
    &&& i@ == id
    &&& k@ == key
    &&& d@ == data
}

/// The identifiers that `owner` holds, per the ownership record.
pub open spec fn holdings_of(owners: Map<IdView, AccountId>, owner: AccountId) -> Set<IdView> {
    owners.dom().filter(|i: IdView| owners[i] == owner)
}

/// Whether the approval record lets `operator` act on `owner`'s token
/// `id`: a blanket approval, or (when a token is named) an approval for
/// that token.
pub open spec fn allowance_in(
    approvals: Set<(AccountId, AccountId, Option<IdView>)>,
    owner: AccountId,
    operator: AccountId,
    id: Option<IdView>,
) -> bool {
    ||| approvals.contains((owner, operator, Option::<IdView>::None))
    ||| (id matches Option::Some(i) && approvals.contains((owner, operator, Option::Some(i))))
}

/// Whether `caller` may burn token `id` from `account`: the account must
/// hold the token, and the caller must be the account itself or carry its
/// blanket approval.
pub open spec fn burn_authorized(
    owners: Map<IdView, AccountId>,
    approvals: Set<(AccountId, AccountId, Option<IdView>)>,
    caller: AccountId,
    account: AccountId,
    id: IdView,
) -> bool {
    &&& owners[id] == account
    &&& (caller == account || approvals.contains((account, caller, Option::<IdView>::None)))
}

/// The message of the error reported when a single-token revocation is
/// attempted while a blanket approval stands.
pub open spec fn revoke_single_msg() -> Seq<char> {
    "Cannot revoke approval for a single token, when the operator has approval for all tokens."@
}

proof fn lemma_holdings_finite(m: Map<IdView, AccountId>, o: AccountId)
    requires
        m.dom().finite(),
    ensures
        holdings_of(m, o).finite(),
        holdings_of(m, o).len() <= m.dom().len(),
{
    let f = |i: IdView| m[i] == o;
    m.dom().lemma_len_filter(f);
    assert(holdings_of(m, o) =~= m.dom().filter(f));
}

/// Installing a fresh identifier grows its owner's holdings by that one
/// identifier and no one else's.
proof fn lemma_holdings_insert(m: Map<IdView, AccountId>, id: IdView, a: AccountId)
    requires
        m.dom().finite(),
        !m.dom().contains(id),
    ensures
        forall|o: AccountId|
            o != a ==> #[trigger] holdings_of(m.insert(id, a), o) == holdings_of(m, o),
        holdings_of(m.insert(id, a), a) == holdings_of(m, a).insert(id),
        holdings_of(m.insert(id, a), a).len() == holdings_of(m, a).len() + 1,
{
    let m2 = m.insert(id, a);
    assert forall|o: AccountId| o != a implies #[trigger] holdings_of(m2, o) == holdings_of(
        m,
        o,
    ) by {
        assert(holdings_of(m2, o) =~= holdings_of(m, o));
    }
    assert(holdings_of(m2, a) =~= holdings_of(m, a).insert(id));
    lemma_holdings_finite(m, a);
    assert(!holdings_of(m, a).contains(id));
}

/// Clearing an identifier shrinks its owner's holdings by that one
/// identifier and no one else's.
proof fn lemma_holdings_remove(m: Map<IdView, AccountId>, id: IdView)
    requires
        m.dom().finite(),
        m.dom().contains(id),
    ensures
        forall|o: AccountId|
            o != m[id] ==> #[trigger] holdings_of(m.remove(id), o) == holdings_of(m, o),
        holdings_of(m.remove(id), m[id]) == holdings_of(m, m[id]).remove(id),
        holdings_of(m.remove(id), m[id]).len() == holdings_of(m, m[id]).len() - 1,
{
    let m2 = m.remove(id);
    assert forall|o: AccountId| o != m[id] implies #[trigger] holdings_of(m2, o) == holdings_of(
        m,
        o,
    ) by {
        assert(holdings_of(m2, o) =~= holdings_of(m, o));
    }
    assert(holdings_of(m2, m[id]) =~= holdings_of(m, m[id]).remove(id));
    lemma_holdings_finite(m, m[id]);
    assert(holdings_of(m, m[id]).contains(id));
}

/// Re-keying an existing identifier to a new owner moves it from the old
/// owner's holdings to the new owner's.
proof fn lemma_holdings_rekey(m: Map<IdView, AccountId>, id: IdView, to: AccountId)
    requires
        m.dom().finite(),
        m.dom().contains(id),
        m[id] != to,
    ensures
        holdings_of(m.insert(id, to), m[id]) == holdings_of(m, m[id]).remove(id),
        holdings_of(m.insert(id, to), m[id]).len() == holdings_of(m, m[id]).len() - 1,
        holdings_of(m.insert(id, to), to) == holdings_of(m, to).insert(id),
        holdings_of(m.insert(id, to), to).len() == holdings_of(m, to).len() + 1,
        forall|o: AccountId|
            o != m[id] && o != to ==> #[trigger] holdings_of(m.insert(id, to), o) == holdings_of(
                m,
                o,
            ),
{
    let mr = m.remove(id);
    assert(m.insert(id, to) =~= mr.insert(id, to));
    lemma_holdings_remove(m, id);
    assert(mr.dom() =~= m.dom().remove(id));
    lemma_holdings_insert(mr, id, to);
    assert(holdings_of(mr, to) == holdings_of(m, to));
    assert(holdings_of(mr.insert(id, to), m[id]) == holdings_of(mr, m[id]));
    lemma_holdings_finite(m, to);
    assert(!holdings_of(m, to).contains(id));
}

/// Copies an optional identifier.
fn clone_opt_id(o: &Option<Id>) -> (r: Option<Id>)
    ensures
        r.deep_view() == o.deep_view(),
        opt_id_view(r) == opt_id_view(*o),
{
    match o {
        Option::Some(t) => Option::Some(t.clone()),
        Option::None => Option::None,
    }
}

/// The ledger core, generic in the balance-accounting strategy.
pub struct PSP34Data<B: BalanceManager> {
    token_owner: AssocVec<Id, AccountId>,
    operator_approvals: AssocVec<(AccountId, AccountId, Option<Id>), ()>,
    balance: B,
}

impl<B: BalanceManager> PSP34Data<B> {
    /// The ownership record: which account holds each existing
    /// identifier.
    pub closed spec fn owners(&self) -> Map<IdView, AccountId> {
        self.token_owner.to_map()
    }

    /// The approval record: the granted (owner, operator, scope) triples;
    /// an absent scope is a blanket approval.
    pub closed spec fn approvals(&self) -> Set<(AccountId, AccountId, Option<IdView>)> {
        self.operator_approvals.to_map().dom()
    }

    /// The composed balance-accounting state.
    pub closed spec fn accounting(&self) -> B {
        self.balance
    }

    /// The ledger invariant: the records are well-formed, and the
    /// accounting agrees with the ownership record — every owner's count
    /// is the number of identifiers the record maps to them, the supply
    /// is the number of identifiers present, and the recorded identifier
    /// collections hold each existing identifier exactly once, under its
    /// owner.
    pub closed spec fn inv(&self) -> bool {
        &&& self.token_owner.wf()
        &&& self.operator_approvals.wf()
        &&& self.balance.inv()
        &&& self.owners().dom().finite()
        &&& self.balance.supply() == self.owners().dom().len()
        &&& forall|o: AccountId| #[trigger]
            self.balance.count_of(o) == holdings_of(self.owners(), o).len()
        &&& forall|i: IdView| #[trigger]
            self.balance.all_ids().count(i) == (if self.owners().dom().contains(i) {
                1nat
            } else {
                0nat
            })
        &&& forall|o: AccountId, i: IdView| #[trigger]
            self.balance.owned_ids(o).count(i) == (
            if self.owners().dom().contains(i) && self.owners()[i] == o {
                1nat
            } else {
                0nat
            })
    }

    /// An empty ledger: no tokens, no approvals.
    pub fn new() -> (r: PSP34Data<B>)
        ensures
            r.inv(),
            r.owners() == Map::<IdView, AccountId>::empty(),
            r.approvals() == Set::<(AccountId, AccountId, Option<IdView>)>::empty(),
            r.accounting().supply() == 0,
            forall|o: AccountId| r.accounting().count_of(o) == 0,
    {
        let r = PSP34Data {
            token_owner: AssocVec::new(),
            operator_approvals: AssocVec::new(),
            balance: B::new(),
        };
        proof {
            assert(r.approvals() =~= Set::<(AccountId, AccountId, Option<IdView>)>::empty());
            assert(r.owners().dom() =~= Set::<IdView>::empty());
            assert forall|o: AccountId| #[trigger]
                r.balance.count_of(o) == holdings_of(r.owners(), o).len() by {
                assert(holdings_of(r.owners(), o) =~= Set::<IdView>::empty());
            }
        }
        r
    }

    /// The number of tokens currently in existence.
    pub fn total_supply(&self) -> (r: u128)
        requires
            self.inv(),
        ensures
            r == self.accounting().supply(),
            r == self.owners().dom().len(),
    {
        self.balance.total_supply()
    }

    /// The number of tokens `owner` holds; exact whenever that number
    /// fits the return type.
    pub fn balance_of(&self, owner: AccountId) -> (r: u32)
        requires
            self.inv(),
        ensures
            self.accounting().count_of(owner) < 0x1_0000_0000 ==> r == holdings_of(
                self.owners(),
                owner,
            ).len(),
    {
        self.balance.balance_of(&owner)
    }

    /// The owner of `id`, if the token exists.
    pub fn owner_of(&self, id: &Id) -> (r: Option<AccountId>)
        requires
            self.inv(),
        ensures
            r == (if self.owners().dom().contains(id@) {
                Option::Some(self.owners()[id@])
            } else {
                Option::<AccountId>::None
            }),
    {
        match self.token_owner.get(id) {
            Option::Some(a) => Option::Some(*a),
            Option::None => Option::None,
        }
    }

    /// Whether `operator` may act on `owner`'s token `id` (or, with no
    /// token named, whether a blanket approval stands).
    pub fn allowance(&self, owner: AccountId, operator: AccountId, id: Option<&Id>) -> (r: bool)
        requires
            self.inv(),
        ensures
            r == allowance_in(self.approvals(), owner, operator, opt_ref_view(id)),
    {
        let blanket_key = (owner, operator, Option::<Id>::None);
        let blanket = match self.operator_approvals.get(&blanket_key) {
            Option::Some(_) => true,
            Option::None => false,
        };
        if blanket {
            return true;
        }
        match id {
            Option::Some(t) => {
                let key = (owner, operator, Option::Some(t.clone()));
                match self.operator_approvals.get(&key) {
                    Option::Some(_) => true,
                    Option::None => false,
                }
            },
            Option::None => false,
        }
    }

    /// A stable identifier for the whole collection, derived from the
    /// ledger's own address: that address's bytes as a token identifier.
    pub fn collection_id(&self, account_id: AccountId) -> (r: Id)
        ensures
            r@ == IdView::Bytes(account_id.0@),
    {
        let mut bytes: Vec<u8> = Vec::new();
        let mut i: usize = 0;
        while i < 32
            invariant
                0 <= i <= 32,
                bytes@ == account_id.0@.subrange(0, i as int),
            decreases 32 - i,
        {
            bytes.push(account_id.0[i]);
            proof {
                assert(bytes@ =~= account_id.0@.subrange(0, i + 1));
            }
            i = i + 1;
        }
        proof {
            assert(bytes@ =~= account_id.0@);
        }
        Id::Bytes(bytes)
    }

    /// Mints token `id` to `account`: fails with `TokenExists` if the
    /// identifier is already owned, with `LimitExceeded` if a counter is
    /// at its cap; otherwise records the ownership, grows the account's
    /// balance and the supply together, and reports one transfer event
    /// from no one to `account`.  A failed mint changes nothing.
    pub fn mint(&mut self, account: AccountId, id: Id) -> (r: Result<Vec<PSP34Event>, PSP34Error>)
        requires
            old(self).inv(),
        ensures
            final(self).inv(),
            old(self).owners().dom().contains(id@) ==> r == Err::<Vec<PSP34Event>, PSP34Error>(
                PSP34Error::TokenExists,
            ) && *final(self) == *old(self),
            !old(self).owners().dom().contains(id@) && !old(self).accounting().can_increase(
                account,
                true,
            ) ==> r == Err::<Vec<PSP34Event>, PSP34Error>(PSP34Error::LimitExceeded)
                && *final(self) == *old(self),
            !old(self).owners().dom().contains(id@) && old(self).accounting().can_increase(
                account,
                true,
            ) ==> {
                &&& final(self).owners() == old(self).owners().insert(id@, account)
                &&& final(self).approvals() == old(self).approvals()
                &&& final(self).accounting().count_of(account) == old(
                    self,
                ).accounting().count_of(account) + 1
                &&& forall|o: AccountId|
                    o != account ==> final(self).accounting().count_of(o) == old(
                        self,
                    ).accounting().count_of(o)
                &&& final(self).accounting().supply() == old(self).accounting().supply() + 1
                &&& (r matches Ok(evs) && evs@.len() == 1 && is_transfer_event(
                    evs@[0],
                    Option::<AccountId>::None,
                    Option::Some(account),
                    id@,
                ))
            },
    {
        let exists = match self.token_owner.get(&id) {
            Option::Some(_) => true,
            Option::None => false,
        };
        if exists {
            return Err(PSP34Error::TokenExists);
        }
        match self.balance.increase_balance(&account, &id, true) {
            Result::Err(e) => {
                return Err(e);
            },
            Result::Ok(()) => {},
        }
        let ghost m0 = self.owners();
        let stored = id.clone();
        self.token_owner.insert(stored, account);
        let mut evs: Vec<PSP34Event> = Vec::new();
        evs.push(
            PSP34Event::Transfer { from: Option::None, to: Option::Some(account), id },
        );
        proof {
            let m1 = self.owners();
            assert(m1 == m0.insert(id@, account));
            self.token_owner.lemma_dom_finite();
            assert(m1.dom() =~= m0.dom().insert(id@));
            lemma_holdings_insert(m0, id@, account);
            assert forall|o: AccountId| #[trigger]
                self.balance.count_of(o) == holdings_of(m1, o).len() by {
                if o != account {
                    assert(old(self).balance.count_of(o) == holdings_of(m0, o).len());
                    assert(holdings_of(m1, o) == holdings_of(m0, o));
                }
            }
            assert forall|i: IdView| #[trigger]
                self.balance.all_ids().count(i) == (if m1.dom().contains(i) {
                    1nat
                } else {
                    0nat
                }) by {
                assert(self.balance.all_ids() == old(self).balance.all_ids().insert(id@));
                assert(old(self).balance.all_ids().count(id@) == 0);
            }
            assert forall|o: AccountId, i: IdView| #[trigger]
                self.balance.owned_ids(o).count(i) == (if m1.dom().contains(i) && m1[i] == o {
                    1nat
                } else {
                    0nat
                }) by {
                if o == account {
                    assert(self.balance.owned_ids(o) == old(self).balance.owned_ids(o).insert(
                        id@,
                    ));
                } else {
                    assert(self.balance.owned_ids(o) == old(self).balance.owned_ids(o));
                }
                assert(old(self).balance.owned_ids(o).count(i) == (
                if m0.dom().contains(i) && m0[i] == o {
                    1nat
                } else {
                    0nat
                }));
            }
            assert(evs@.len() == 1);
        }
        Ok(evs)
    }

    /// Burns token `id` from `account`, conducted by `caller`: fails with
    /// `TokenNotExists` if the identifier is unowned, and with
    /// `NotApproved` unless `account` holds the token and the caller is
    /// `account` itself or carries its blanket approval (a specific-token
    /// approval does not authorize burning).  On success the identifier
    /// leaves the ledger, the account's balance and the supply shrink
    /// together, and one transfer event from `account` to no one is
    /// reported.  A failed burn changes nothing.
    pub fn burn(&mut self, caller: AccountId, account: AccountId, id: Id) -> (r: Result<
        Vec<PSP34Event>,
        PSP34Error,
    >)
        requires
            old(self).inv(),
        ensures
            final(self).inv(),
            !old(self).owners().dom().contains(id@) ==> r == Err::<Vec<PSP34Event>, PSP34Error>(
                PSP34Error::TokenNotExists,
            ) && *final(self) == *old(self),
            old(self).owners().dom().contains(id@) && !burn_authorized(
                old(self).owners(),
                old(self).approvals(),
                caller,
                account,
                id@,
            ) ==> r == Err::<Vec<PSP34Event>, PSP34Error>(PSP34Error::NotApproved)
                && *final(self) == *old(self),
            old(self).owners().dom().contains(id@) && burn_authorized(
                old(self).owners(),
                old(self).approvals(),
                caller,
                account,
                id@,
            ) ==> {
                &&& final(self).owners() == old(self).owners().remove(id@)
                &&& final(self).approvals() == old(self).approvals()
                &&& final(self).accounting().count_of(account) == old(
                    self,
                ).accounting().count_of(account) - 1
                &&& forall|o: AccountId|
                    o != account ==> final(self).accounting().count_of(o) == old(
                        self,
                    ).accounting().count_of(o)
                &&& final(self).accounting().supply() == old(self).accounting().supply() - 1
                &&& (r matches Ok(evs) && evs@.len() == 1 && is_transfer_event(
                    evs@[0],
                    Option::Some(account),
                    Option::<AccountId>::None,
                    id@,
                ))
            },
    {
        let owner = match self.owner_of(&id) {
            Option::Some(o) => o,
            Option::None => {
                return Err(PSP34Error::TokenNotExists);
            },
        };
        let authorized = caller == account || self.allowance(account, caller, Option::None);
        if !authorized {
            return Err(PSP34Error::NotApproved);
        }
        if !(owner == account) {
            return Err(PSP34Error::NotApproved);
        }
        proof {
            assert(old(self).balance.owned_ids(account).count(id@) == 1);
            assert(old(self).balance.all_ids().count(id@) == 1);
        }
        self.balance.decrease_balance(&account, &id, true);
        let _ = self.token_owner.remove(&id);
        let mut evs: Vec<PSP34Event> = Vec::new();
        evs.push(
            PSP34Event::Transfer { from: Option::Some(account), to: Option::None, id },
        );
        proof {
            let m0 = old(self).owners();
            let m1 = self.owners();
            assert(m1 == m0.remove(id@));
            self.token_owner.lemma_dom_finite();
            assert(m1.dom() =~= m0.dom().remove(id@));
            lemma_holdings_remove(m0, id@);
            assert forall|o: AccountId| #[trigger]
                self.balance.count_of(o) == holdings_of(m1, o).len() by {
                if o != account {
                    assert(old(self).balance.count_of(o) == holdings_of(m0, o).len());
                    assert(holdings_of(m1, o) == holdings_of(m0, o));
                }
            }
            assert forall|i: IdView| #[trigger]
                self.balance.all_ids().count(i) == (if m1.dom().contains(i) {
                    1nat
                } else {
                    0nat
                }) by {
                assert(self.balance.all_ids() == old(self).balance.all_ids().remove(id@));
                assert(old(self).balance.all_ids().count(i) == (if m0.dom().contains(i) {
                    1nat
                } else {
                    0nat
                }));
            }
            assert forall|o: AccountId, i: IdView| #[trigger]
                self.balance.owned_ids(o).count(i) == (if m1.dom().contains(i) && m1[i] == o {
                    1nat
                } else {
                    0nat
                }) by {
                if o == account {
                    assert(self.balance.owned_ids(o) == old(self).balance.owned_ids(o).remove(
                        id@,
                    ));
                } else {
                    assert(self.balance.owned_ids(o) == old(self).balance.owned_ids(o));
                }
                assert(old(self).balance.owned_ids(o).count(i) == (
                if m0.dom().contains(i) && m0[i] == o {
                    1nat
                } else {
                    0nat
                }));
            }
        }
        Ok(evs)
    }

    /// Transfers token `id` to `to`, conducted by `caller`, with an
    /// opaque payload that is accepted for interface compatibility and
    /// not inspected: fails with
    /// `TokenNotExists` if the identifier is unowned; succeeds without
    /// effect or events if the owner is `to` already; fails with
    /// `NotApproved` unless the caller is the owner or carries a matching
    /// (specific or blanket) approval, and with `LimitExceeded` if the
    /// receiver's balance is at its cap.  On success the identifier moves
    /// to `to`, the caller's specific-token approval for it (if any) is
    /// cleared, and one transfer event from the owner to `to` is
    /// reported.  A failed transfer changes nothing.
    pub fn transfer(&mut self, caller: AccountId, to: AccountId, id: Id, _data: Vec<u8>) -> (r:
        Result<Vec<PSP34Event>, PSP34Error>)
        requires
            old(self).inv(),
        ensures
            final(self).inv(),
            !old(self).owners().dom().contains(id@) ==> r == Err::<Vec<PSP34Event>, PSP34Error>(
                PSP34Error::TokenNotExists,
            ) && *final(self) == *old(self),
            old(self).owners().dom().contains(id@) && old(self).owners()[id@] == to ==> (
            r matches Ok(evs) && evs@.len() == 0) && *final(self) == *old(self),
            old(self).owners().dom().contains(id@) && old(self).owners()[id@] != to && !(caller
                == old(self).owners()[id@] || allowance_in(
                old(self).approvals(),
                old(self).owners()[id@],
                caller,
                Option::Some(id@),
            )) ==> r == Err::<Vec<PSP34Event>, PSP34Error>(PSP34Error::NotApproved)
                && *final(self) == *old(self),
            old(self).owners().dom().contains(id@) && old(self).owners()[id@] != to && (caller
                == old(self).owners()[id@] || allowance_in(
                old(self).approvals(),
                old(self).owners()[id@],
                caller,
                Option::Some(id@),
            )) && !old(self).accounting().can_increase(to, false) ==> r == Err::<
                Vec<PSP34Event>,
                PSP34Error,
            >(PSP34Error::LimitExceeded) && *final(self) == *old(self),
            old(self).owners().dom().contains(id@) && old(self).owners()[id@] != to && (caller
                == old(self).owners()[id@] || allowance_in(
                old(self).approvals(),
                old(self).owners()[id@],
                caller,
                Option::Some(id@),
            )) && old(self).accounting().can_increase(to, false) ==> {
                &&& final(self).owners() == old(self).owners().insert(id@, to)
                &&& final(self).approvals() == old(self).approvals().remove(
                    (old(self).owners()[id@], caller, Option::Some(id@)),
                )
                &&& final(self).accounting().count_of(old(self).owners()[id@]) == old(
                    self,
                ).accounting().count_of(old(self).owners()[id@]) - 1
                &&& final(self).accounting().count_of(to) == old(self).accounting().count_of(to)
                    + 1
                &&& forall|o: AccountId|
                    o != old(self).owners()[id@] && o != to ==> final(self).accounting().count_of(o) == old(self).accounting().count_of(o)
                &&& final(self).accounting().supply() == old(self).accounting().supply()
                &&& (r matches Ok(evs) && evs@.len() == 1 && is_transfer_event(
                    evs@[0],
                    Option::Some(old(self).owners()[id@]),
                    Option::Some(to),
                    id@,
                ))
            },
    {
        let owner = match self.owner_of(&id) {
            Option::Some(o) => o,
            Option::None => {
                return Err(PSP34Error::TokenNotExists);
            },
        };
        if owner == to {
            return Ok(Vec::new());
        }
        let approved = caller == owner || self.allowance(owner, caller, Option::Some(&id));
        if !approved {
            return Err(PSP34Error::NotApproved);
        }
        match self.balance.increase_balance(&to, &id, false) {
            Result::Err(e) => {
                return Err(e);
            },
            Result::Ok(()) => {},
        }
        proof {
            assert(self.balance.owned_ids(owner).count(id@) == 1);
        }
        self.balance.decrease_balance(&owner, &id, false);
        let approval_key = (owner, caller, Option::Some(id.clone()));
        let _ = self.operator_approvals.remove(&approval_key);
        let stored = id.clone();
        self.token_owner.insert(stored, to);
        let mut evs: Vec<PSP34Event> = Vec::new();
        evs.push(
            PSP34Event::Transfer { from: Option::Some(owner), to: Option::Some(to), id },
        );
        proof {
            let m0 = old(self).owners();
            let m1 = self.owners();
            assert(m1 == m0.insert(id@, to));
            self.token_owner.lemma_dom_finite();
            assert(m1.dom() =~= m0.dom().insert(id@));
            assert(m0.dom().insert(id@) =~= m0.dom());
            lemma_holdings_rekey(m0, id@, to);
            assert(self.approvals() =~= old(self).approvals().remove(
                (owner, caller, Option::Some(id@)),
            ));
            assert forall|o: AccountId| #[trigger]
                self.balance.count_of(o) == holdings_of(m1, o).len() by {
                assert(old(self).balance.count_of(o) == holdings_of(m0, o).len());
                if o != owner && o != to {
                    assert(holdings_of(m1, o) == holdings_of(m0, o));
                }
            }
            assert forall|i: IdView| #[trigger]
                self.balance.all_ids().count(i) == (if m1.dom().contains(i) {
                    1nat
                } else {
                    0nat
                }) by {
                assert(self.balance.all_ids() == old(self).balance.all_ids());
                assert(old(self).balance.all_ids().count(i) == (if m0.dom().contains(i) {
                    1nat
                } else {
                    0nat
                }));
            }
            assert forall|o: AccountId, i: IdView| #[trigger]
                self.balance.owned_ids(o).count(i) == (if m1.dom().contains(i) && m1[i] == o {
                    1nat
                } else {
                    0nat
                }) by {
                if o == owner {
                    assert(self.balance.owned_ids(o) == old(self).balance.owned_ids(o).remove(
                        id@,
                    ));
                } else if o == to {
                    assert(self.balance.owned_ids(o) == old(self).balance.owned_ids(o).insert(
                        id@,
                    ));
                } else {
                    assert(self.balance.owned_ids(o) == old(self).balance.owned_ids(o));
                }
                assert(old(self).balance.owned_ids(o).count(i) == (
                if m0.dom().contains(i) && m0[i] == o {
                    1nat
                } else {
                    0nat
                }));
            }
        }
        Ok(evs)
    }

    /// Grants or revokes an approval, conducted by `caller`.  With no
    /// token named, the caller grants or revokes `operator`'s blanket
    /// approval over the caller's own tokens, and this cannot fail.  With
    /// a token named, the approval is recorded under the token's true
    /// owner: the operation fails with `TokenNotExists` if the token does
    /// not exist, with `SelfApprove` if a grant names the owner as
    /// operator, with `NotApproved` if the caller is neither the owner
    /// nor blanket-approved by the owner, and with a descriptive error if
    /// a single-token revocation is attempted while the operator's
    /// blanket approval stands (the blanket approval must be revoked
    /// instead).  One approval event describing the final state is
    /// reported on success; a failed call changes nothing.
    pub fn approve(
        &mut self,
        caller: AccountId,
        operator: AccountId,
        id: Option<Id>,
        approved: bool,
    ) -> (r: Result<Vec<PSP34Event>, PSP34Error>)
        requires
            old(self).inv(),
        ensures
            final(self).inv(),
            final(self).owners() == old(self).owners(),
            final(self).accounting() == old(self).accounting(),
            id is None ==> {
                &&& final(self).approvals() == (if approved {
                    old(self).approvals().insert((caller, operator, Option::<IdView>::None))
                } else {
                    old(self).approvals().remove((caller, operator, Option::<IdView>::None))
                })
                &&& (r matches Ok(evs) && evs@.len() == 1 && is_approval_event(
                    evs@[0],
                    caller,
                    operator,
                    Option::<IdView>::None,
                    approved,
                ))
            },
            (id matches Option::Some(t) && !old(self).owners().dom().contains(t@)) ==> r == Err::<
                Vec<PSP34Event>,
                PSP34Error,
            >(PSP34Error::TokenNotExists) && *final(self) == *old(self),
            (id matches Option::Some(t) && old(self).owners().dom().contains(t@) && approved
                && old(self).owners()[t@] == operator) ==> r == Err::<Vec<PSP34Event>, PSP34Error>(
                PSP34Error::SelfApprove,
            ) && *final(self) == *old(self),
            (id matches Option::Some(t) && old(self).owners().dom().contains(t@) && !(approved
                && old(self).owners()[t@] == operator) && caller != old(self).owners()[t@]
                && !old(self).approvals().contains(
                (old(self).owners()[t@], caller, Option::<IdView>::None),
            )) ==> r == Err::<Vec<PSP34Event>, PSP34Error>(PSP34Error::NotApproved)
                && *final(self) == *old(self),
            (id matches Option::Some(t) && old(self).owners().dom().contains(t@) && !(approved
                && old(self).owners()[t@] == operator) && (caller == old(self).owners()[t@]
                || old(self).approvals().contains(
                (old(self).owners()[t@], caller, Option::<IdView>::None),
            )) && !approved && old(self).approvals().contains(
                (old(self).owners()[t@], operator, Option::<IdView>::None),
            )) ==> (r matches Err(e) && e matches PSP34Error::Custom(m) && m@
                == revoke_single_msg()) && *final(self) == *old(self),
            id matches Option::Some(t) ==> (old(self).owners().dom().contains(t@) && !(approved
                && old(self).owners()[t@] == operator) && (caller == old(self).owners()[t@]
                || old(self).approvals().contains(
                (old(self).owners()[t@], caller, Option::<IdView>::None),
            )) && (approved || !old(self).approvals().contains(
                (old(self).owners()[t@], operator, Option::<IdView>::None),
            ))) ==> {
                &&& final(self).approvals() == (if approved {
                    old(self).approvals().insert(
                        (old(self).owners()[t@], operator, Option::Some(t@)),
                    )
                } else {
                    old(self).approvals().remove(
                        (old(self).owners()[t@], operator, Option::Some(t@)),
                    )
                })
                &&& (r matches Ok(evs) && evs@.len() == 1 && is_approval_event(
                    evs@[0],
                    old(self).owners()[t@],
                    operator,
                    Option::Some(t@),
                    approved,
                ))
            },
    {
        let granter: AccountId;
        match &id {
            Option::Some(t) => {
                let owner = match self.owner_of(t) {
                    Option::Some(o) => o,
                    Option::None => {
                        return Err(PSP34Error::TokenNotExists);
                    },
                };
                if approved && owner == operator {
                    return Err(PSP34Error::SelfApprove);
                }
                if owner != caller && !self.allowance(owner, caller, Option::None) {
                    return Err(PSP34Error::NotApproved);
                }
                if !approved && self.allowance(owner, operator, Option::None) {
                    return Err(
                        PSP34Error::Custom(
                            "Cannot revoke approval for a single token, when the operator has approval for all tokens.".to_string(),
                        ),
                    );
                }
                granter = owner;
            },
            Option::None => {
                granter = caller;
            },
        }
        let scope = clone_opt_id(&id);
        let key = (granter, operator, scope);
        if approved {
            self.operator_approvals.insert(key, ());
        } else {
            let _ = self.operator_approvals.remove(&key);
        }
        let mut evs: Vec<PSP34Event> = Vec::new();
        evs.push(PSP34Event::Approval { owner: granter, operator, id, approved });
        proof {
            let kv = (granter, operator, opt_id_view(id));
            assert((granter, operator, id).deep_view() == kv);
            if approved {
                assert(self.approvals() =~= old(self).approvals().insert(kv));
            } else {
                assert(self.approvals() =~= old(self).approvals().remove(kv));
            }
        }
        Ok(evs)
    }
}


impl<B: BalanceManager> Default for PSP34Data<B> {
    /// An empty ledger: no tokens, no approvals.
    fn default() -> (r: PSP34Data<B>)
        ensures
            r.inv(),
            r.owners() == Map::<IdView, AccountId>::empty(),
            r.approvals() == Set::<(AccountId, AccountId, Option<IdView>)>::empty(),
            r.accounting().supply() == 0,
            forall|o: AccountId| r.accounting().count_of(o) == 0,
    {
        PSP34Data::new()
    }
}

/// Every owner's balance is the number of identifiers the ownership
/// record currently maps to them.
pub proof fn lemma_balance_consistency<B: BalanceManager>(d: &PSP34Data<B>, owner: AccountId)
    requires
        d.inv(),
    ensures
        d.accounting().count_of(owner) == holdings_of(d.owners(), owner).len(),
{
}

/// The total supply is the number of identifiers currently present in
/// the ownership record.
pub proof fn lemma_supply_consistency<B: BalanceManager>(d: &PSP34Data<B>)
    requires
        d.inv(),
    ensures
        d.accounting().supply() == d.owners().dom().len(),
{
}

impl PSP34Data<crate::enumerable::Balances> {
    /// The token at a position of an owner's holdings, or
    /// `TokenNotExists` when the position is past the owner's balance.
    pub fn owners_token_by_index(&self, owner: AccountId, index: u128) -> (r: Result<
        Id,
        PSP34Error,
    >)
        requires
            self.inv(),
        ensures
            index < self.accounting().owner_list(owner).len() ==> (r matches Ok(t) && t@
                == self.accounting().owner_list(owner)[index as int]),
            index >= self.accounting().owner_list(owner).len() ==> r == Err::<Id, PSP34Error>(
                PSP34Error::TokenNotExists,
            ),
    {
        self.balance.owners_token_by_index(owner, index)
    }

    /// The token at a position of the whole supply, or `TokenNotExists`
    /// when the position is past the supply.
    pub fn token_by_index(&self, index: u128) -> (r: Result<Id, PSP34Error>)
        requires
            self.inv(),
        ensures
            index < self.accounting().all_list().len() ==> (r matches Ok(t) && t@
                == self.accounting().all_list()[index as int]),
            index >= self.accounting().all_list().len() ==> r == Err::<Id, PSP34Error>(
                PSP34Error::TokenNotExists,
            ),
    {
        self.balance.token_by_index(index)
    }
}

/// Under the enumerable strategy, positional enumeration of the whole
/// supply visits every existing identifier exactly once: the global list
/// is as long as the ownership record, free of duplicates, and holds an
/// identifier if and only if the record does.
pub proof fn lemma_enumeration_complete(d: &PSP34Data<crate::enumerable::Balances>)
    requires
        d.inv(),
    ensures
        d.accounting().all_list().len() == d.owners().dom().len(),
        forall|i: int|
            0 <= i < d.accounting().all_list().len() ==> d.owners().dom().contains(
                #[trigger] d.accounting().all_list()[i],
            ),
        forall|i: int, j: int|
            0 <= i < j < d.accounting().all_list().len() ==> d.accounting().all_list()[i]
                != d.accounting().all_list()[j],
        forall|t: IdView| #[trigger]
            d.owners().dom().contains(t) ==> d.accounting().all_list().contains(t),
{
    broadcast use vstd::seq_lib::group_to_multiset_ensures;

    let s = d.accounting().all_list();
    d.balance.lemma_lists();
    assert(d.balance.supply() == s.len());
    assert(s.len() == d.owners().dom().len());
    assert forall|i: int| 0 <= i < s.len() implies d.owners().dom().contains(
        #[trigger] s[i],
    ) by {
        assert(s.contains(s[i]));
        assert(s.to_multiset().count(s[i]) > 0);
        assert(d.balance.all_ids().count(s[i]) > 0);
    }
    assert forall|x: IdView| s.to_multiset().contains(x) implies s.to_multiset().count(x)
        == 1 by {
        assert(d.balance.all_ids().count(x) > 0);
    }
    s.lemma_multiset_has_no_duplicates_conv();
    assert forall|t: IdView| #[trigger] d.owners().dom().contains(t) implies s.contains(t) by {
        assert(d.balance.all_ids().count(t) == 1);
        assert(s.to_multiset().count(t) > 0);
    }
}

} // verus!
