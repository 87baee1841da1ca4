//! What a table asks of its keys.

use crate::text::same_text;
use vstd::prelude::*;

verus! {

/// A type whose values can be the keys of a table.
///
/// A key stands for its view: two keys are the same key exactly if their
/// views are equal, and `same_key` decides it. The implementations in this
/// crate are verified; one that is written elsewhere is taken at its word.
pub trait TableKey: View + Sized {
    /// Whether `self` and `other` are the same key.
    fn same_key(&self, other: &Self) -> (same: bool)
        ensures
            same == (self@ == other@),
    ;
}

impl TableKey for u64 {
    fn same_key(&self, other: &Self) -> (same: bool) {
        *self == *other
    }
}

impl TableKey for usize {
    fn same_key(&self, other: &Self) -> (same: bool) {
        *self == *other
    }
}

impl TableKey for String {
    fn same_key(&self, other: &Self) -> (same: bool) {
        same_text(self.as_str(), other.as_str())
    }
}

impl<'a> TableKey for &'a str {
    fn same_key(&self, other: &Self) -> (same: bool) {
        same_text(*self, *other)
    }
}

} // verus!
