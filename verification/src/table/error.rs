//! The ways in which a table operation can fail.

use vstd::prelude::*;

verus! {

/// Failure of a table operation. Absence of a key is never an error.
#[derive(Clone, Copy, Debug, PartialEq, Eq, Structural)]
pub enum TableError {
    /// A table was asked for with room for no entry at all.
    ZeroCapacity,
    /// A new key arrived while the table held as many entries as it may, or
    /// after it had handed out its last node handle.
    CapacityExceeded,
    /// No slot is left on the probe path: every slot is bound to another key.
    ProbeExhausted,
}

impl TableError {
    /// The text of the error, as it is shown to a person.
    pub fn message(&self) -> (text: &'static str)
        ensures
            text@ == match *self {
                TableError::ZeroCapacity => "Cannot create a 0-capacity hash table."@,
                TableError::CapacityExceeded => "Hash table is full, cannot insert new key!"@,
                TableError::ProbeExhausted => "Hash table is completely full!"@,
            },
    {
        match self {
            TableError::ZeroCapacity => "Cannot create a 0-capacity hash table.",
            TableError::CapacityExceeded => "Hash table is full, cannot insert new key!",
            TableError::ProbeExhausted => "Hash table is completely full!",
        }
    }
}

} // verus!
