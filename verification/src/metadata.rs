//! Keyed metadata for tokens.
//!
//! A simple attribute store: value bytes under a (token, key) pair.  It
//! shares the identifier type with the ledger core and nothing else.

use vstd::prelude::*;

use crate::assoc::AssocVec;
use crate::data::{is_attribute_event, PSP34Event};
use crate::errors::PSP34Error;
use crate::id::{clone_bytes, Id, IdView};

verus! {

/// The attribute store.
pub struct Data {
    attributes: AssocVec<(Id, Vec<u8>), Vec<u8>>,
}

impl Data {
    /// The attribute record: value bytes under each (token, key) pair.
    pub closed spec fn record(&self) -> Map<(IdView, Seq<u8>), Seq<u8>> {
        self.attributes.to_map()
    }

    /// Well-formedness of the store.
    pub closed spec fn wf(&self) -> bool {
        self.attributes.wf()
    }

    /// An empty attribute store.
    pub fn new() -> (r: Data)
        ensures
            r.wf(),
            r.record() == Map::<(IdView, Seq<u8>), Seq<u8>>::empty(),
    {
        Data { attributes: AssocVec::new() }
    }

    /// The attribute of `id` under `key`, if one was set.
    pub fn get_attribute(&self, id: Id, key: Vec<u8>) -> (r: Option<Vec<u8>>)
        requires
            self.wf(),
        ensures
            match r {
                Option::Some(v) => self.record().dom().contains((id@, key@)) && v@
                    == self.record()[(id@, key@)],
                Option::None => !self.record().dom().contains((id@, key@)),
            },
    {
        let lookup = (id, key);
        proof {
            assert(lookup.deep_view() == (lookup.0@, lookup.1@));
        }
        match self.attributes.get(&lookup) {
            Option::Some(v) => Option::Some(clone_bytes(v)),
            Option::None => Option::None,
        }
    }

    /// Sets the attribute of `id` under `key`, overwriting any previous
    /// value, and reports one attribute event.
    pub fn set_attribute(&mut self, id: Id, key: Vec<u8>, value: Vec<u8>) -> (r: Result<
        Vec<PSP34Event>,
        PSP34Error,
    >)
        requires
            old(self).wf(),
        ensures
            final(self).wf(),
            final(self).record() == old(self).record().insert((id@, key@), value@),
            (r matches Ok(evs) && evs@.len() == 1 && is_attribute_event(evs@[0], id@, key@,
            value@)),
    {
        let stored_id = id.clone();
        let stored_key = clone_bytes(&key);
        let stored_value = clone_bytes(&value);
        let entry = (stored_id, stored_key);
        proof {
            assert(entry.deep_view() == (id@, key@));
            assert(stored_value.deep_view() == value@);
        }
        self.attributes.insert(entry, stored_value);
        let mut evs: Vec<PSP34Event> = Vec::new();
        evs.push(PSP34Event::AttributeSet { id, key, data: value });
        Ok(evs)
    }
}

impl Default for Data {
    /// An empty attribute store.
    fn default() -> (r: Data)
        ensures
            r.wf(),
            r.record() == Map::<(IdView, Seq<u8>), Seq<u8>>::empty(),
    {
        Data::new()
    }
}

} // verus!
