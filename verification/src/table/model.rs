//! What a table is, mathematically: its entries in the order of their last
//! write, its capacity, and the number of node handles it has handed out.
//! The contracts of the table's operations are stated over this model.

use crate::table::error::TableError;
use vstd::prelude::*;

verus! {

/// The mathematical content of a table.
pub struct TableModel<K, V> {
    /// The live entries, the least recently written first.
    pub entries: Seq<(K, V)>,
    /// The number of entries that the table may hold at once.
    pub capacity: nat,
    /// The number of node handles handed out over the table's lifetime.
    /// A handle is never handed out twice.
    pub allocated: nat,
}

impl<K, V> TableModel<K, V> {
    /// The model of a table that was just built.
    pub open spec fn empty(capacity: nat) -> Self {
        TableModel { entries: Seq::empty(), capacity, allocated: 0 }
    }

    /// What holds of the model of every table: room for at least one entry,
    /// no more entries or handles than the capacity, and no key twice.
    pub open spec fn valid(self) -> bool {
        &&& self.capacity > 0
        &&& self.entries.len() <= self.capacity
        &&& self.allocated <= self.capacity
        &&& forall|i: int, j: int|
            0 <= i < j < self.entries.len() ==> self.entries[i].0 != self.entries[j].0
    }

    /// The number of live entries.
    pub open spec fn len(self) -> nat {
        self.entries.len()
    }

    /// Whether `key` has an entry.
    pub open spec fn contains_key(self, key: K) -> bool {
        exists|i: int| 0 <= i < self.entries.len() && (#[trigger] self.entries[i]).0 == key
    }

    /// The place of `key` in the order of last writes, where it has an entry.
    pub open spec fn index_of(self, key: K) -> int {
        choose|i: int| 0 <= i < self.entries.len() && (#[trigger] self.entries[i]).0 == key
    }

    /// The value stored under `key`, if any.
    pub open spec fn get(self, key: K) -> Option<V> {
        if self.contains_key(key) {
            Some(self.entries[self.index_of(key)].1)
        } else {
            None
        }
    }

    /// The least recently written entry, if any.
    pub open spec fn first(self) -> Option<(K, V)> {
        if self.entries.len() == 0 {
            None
        } else {
            Some(self.entries[0])
        }
    }

    /// The most recently written entry, if any.
    pub open spec fn last(self) -> Option<(K, V)> {
        if self.entries.len() == 0 {
            None
        } else {
            Some(self.entries[self.entries.len() - 1])
        }
    }

    /// Whether the table can take an entry for a key that it does not hold:
    /// it is not full, and it has a node handle left.
    pub open spec fn has_room(self) -> bool {
        self.entries.len() < self.capacity && self.allocated < self.capacity
    }

    /// What `insert(key, value)` returns.
    pub open spec fn insert_result(self, key: K) -> Result<Option<V>, TableError> {
        if self.contains_key(key) {
            Ok(Some(self.entries[self.index_of(key)].1))
        } else if self.has_room() {
            Ok(None)
        } else {
            Err(TableError::CapacityExceeded)
        }
    }

    /// The table after `insert(key, value)`: an entry that was there moves to
    /// the end with its new value, a new one is added at the end and takes a
    /// fresh handle, and a rejected one leaves everything as it was.
    pub open spec fn insert(self, key: K, value: V) -> Self {
        if self.contains_key(key) {
            TableModel {
                entries: self.entries.remove(self.index_of(key)).push((key, value)),
                ..self
            }
        } else if self.has_room() {
            TableModel {
                entries: self.entries.push((key, value)),
                capacity: self.capacity,
                allocated: self.allocated + 1,
            }
        } else {
            self
        }
    }

    /// What `remove(key)` returns.
    pub open spec fn remove_result(self, key: K) -> Option<V> {
        self.get(key)
    }

    /// The table after `remove(key)`: the entry of `key` is gone, the others
    /// keep their order, and no handle comes back.
    pub open spec fn remove(self, key: K) -> Self {
        if self.contains_key(key) {
            TableModel { entries: self.entries.remove(self.index_of(key)), ..self }
        } else {
            self
        }
    }
}

} // verus!
