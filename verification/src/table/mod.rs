//! Open addressing with linear probing over a shared node store, threaded by a
//! doubly linked list that keeps the entries in the order of their last write.

pub mod error;
pub mod hasher;
pub mod key;
pub mod laws;
pub mod linked_open_addressing;
pub mod model;
pub mod traits;
