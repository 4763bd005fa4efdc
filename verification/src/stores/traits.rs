use crate::stores::ledger::Ledger;
use std::hash::Hash;
use vstd::prelude::*;

verus! {

/// An identifier that a store hands out for a record.
pub trait StoreId: Eq + PartialEq + Hash + Copy + Clone {
    /// The number that the identifier wraps.
    spec fn number(&self) -> u32;
}

/// A collection of records, each found under the identifier that the store
/// gave it.
pub trait IndexedStore {
    type Id: StoreId;

    type Item: View;

    /// What the store holds.
    spec fn ledger(&self) -> Ledger<<Self::Item as View>::V>;

    /// The record with the identifier `id`, if the store holds one.
    fn get(&self, id: Self::Id) -> (r: Option<&Self::Item>)
        ensures
            match r {
                Some(item) => self.ledger().records.contains_key(id.number()) && item@
                    == self.ledger().records[id.number()],
                None => !self.ledger().records.contains_key(id.number()),
            },
    ;

    /// The number of live records.
    fn count(&self) -> (n: usize)
        ensures
            self.ledger().records.dom().finite(),
            n == self.ledger().records.len(),
    ;

    /// Takes the record with the identifier `id` out of the store and returns
    /// it. A store without such a record is left as it is.
    fn remove(&mut self, id: &Self::Id) -> (r: Option<Self::Item>)
        ensures
            final(self).ledger() == old(self).ledger().without(id.number()),
            match r {
                Some(item) => old(self).ledger().records.contains_key(id.number()) && item@ == old(
                    self,
                ).ledger().records[id.number()],
                None => !old(self).ledger().records.contains_key(id.number()),
            },
    ;

    /// Every live record with its identifier, once each, in no particular
    /// order.
    fn iter(&self) -> (r: Vec<(Self::Id, &Self::Item)>)
        ensures
            r.len() == self.ledger().records.len(),
            forall|i: int|
                0 <= i < r.len() ==> self.ledger().records.contains_key(
                    (#[trigger] r[i]).0.number(),
                ) && r[i].1@ == self.ledger().records[r[i].0.number()],
            forall|i: int, j: int|
                0 <= i < j < r.len() ==> (#[trigger] r[i]).0.number() != (#[trigger] r[j]).0.number(),
            forall|k: u32| #[trigger]
                self.ledger().records.contains_key(k) ==> exists|i: int|
                    0 <= i < r.len() && (#[trigger] r[i]).0.number() == k,
    ;
}

} // verus!
