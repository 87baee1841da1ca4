//! The interface that a table offers, whatever its collision strategy.

use crate::table::error::TableError;
use crate::table::model::TableModel;
use vstd::prelude::*;

verus! {

/// A table from keys to values that keeps its entries in the order in which
/// they were last written.
///
/// The contracts speak of the table through its model, in which a key
/// stands as its view. Only a write counts as
/// a touch: `insert` moves an entry to the end of the order, a lookup moves
/// nothing.
pub trait HashTable<K: View, V> {
    /// The invariant of the implementation.
    spec fn valid(&self) -> bool;

    /// The mathematical content of the table.
    spec fn model(&self) -> TableModel<K::V, V>;

    /// Stores `value` under `key` and makes the entry the most recent one.
    ///
    /// Returns the value that `key` had, if it had one. A key that is new
    /// to a table without room for it is rejected with
    /// `TableError::CapacityExceeded`, and the table stays as it was.
    fn insert(&mut self, key: K, value: V) -> (previous: Result<Option<V>, TableError>)
        requires
            old(self).valid(),
        ensures
            final(self).valid(),
            final(self).model().valid(),
            final(self).model() == old(self).model().insert(key@, value),
            previous == old(self).model().insert_result(key@),
    ;

    /// Removes the entry of `key` and hands its value to the caller.
    /// Returns `None`, and changes nothing, where `key` has no entry.
    fn remove(&mut self, key: &K) -> (removed: Option<V>)
        requires
            old(self).valid(),
        ensures
            final(self).valid(),
            final(self).model().valid(),
            final(self).model() == old(self).model().remove(key@),
            removed == old(self).model().remove_result(key@),
    ;

    /// The value stored under `key`, if any. The order of the entries is
    /// not touched.
    fn get(&self, key: &K) -> (value: Option<&V>)
        requires
            self.valid(),
        ensures
            match value {
                Some(v) => self.model().get(key@) == Some(*v),
                None => self.model().get(key@) is None,
            },
    ;

    /// The entry that was written most recently, if there is any.
    fn get_last(&self) -> (entry: Option<(&K, &V)>)
        requires
            self.valid(),
        ensures
            match entry {
                Some((k, v)) => self.model().last() == Some((k@, *v)),
                None => self.model().last() is None,
            },
    ;

    /// The entry that was written least recently, if there is any.
    fn get_first(&self) -> (entry: Option<(&K, &V)>)
        requires
            self.valid(),
        ensures
            match entry {
                Some((k, v)) => self.model().first() == Some((k@, *v)),
                None => self.model().first() is None,
            },
    ;
}

} // verus!
