//! The table: a slot array that is probed linearly, a node store that is
//! addressed by handles, and a recency list threaded through the nodes.

use crate::table::error::TableError;
use crate::table::hasher::{Fnv1aHasher, KeyHasher};
use crate::table::key::TableKey;
use crate::table::model::TableModel;
use crate::table::traits::HashTable;
use vstd::pervasive::unreached;
use vstd::prelude::*;
use vstd::set_lib::{lemma_int_range, lemma_len_subset, set_int_range};

mod proofs;

verus! {

/// One slot of the probed array.
///
/// A slot starts `Empty`, is bound to a node handle by an insertion, and is
/// left as a `Tombstone` by a removal. It never becomes `Empty` again, so a
/// probe may stop at an `Empty` slot and must walk past a `Tombstone`.
#[derive(Clone, Copy, Debug)]
enum Slot {
    /// Never bound to a node.
    Empty,
    /// Bound to a node once, and vacated since.
    Tombstone,
    /// Bound to the node with this handle.
    Occupied(usize),
}

/// One entry of the node store, with its links into the recency list.
/// A node whose entry was removed keeps its key and gives up its value.
#[derive(Debug)]
struct Node<K, V> {
    key: K,
    value: Option<V>,
    prev: Option<usize>,
    next: Option<usize>,
}

/// What a probe for a key has found.
#[derive(Clone, Copy, Debug, PartialEq, Eq, Structural)]
pub enum Probe {
    /// The key is bound to the slot with this index.
    Found(usize),
    /// The key is absent, and a new entry for it belongs in the slot with
    /// this index.
    InsertAt(usize),
}

/// The slot reached from `start` after `steps` steps of a walk that wraps
/// round at `capacity`.
spec fn slot_at(start: int, steps: int, capacity: int) -> int {
    if start + steps < capacity {
        start + steps
    } else {
        start + steps - capacity
    }
}

/// The number of steps that a wrapping walk takes from slot `from` to slot `to`.
spec fn steps_between(from: int, to: int, capacity: int) -> int {
    if to >= from {
        to - from
    } else {
        to - from + capacity
    }
}

/// The indices of the slots that are not `Empty`.
spec fn used_slots(slots: Seq<Slot>) -> Set<int> {
    Set::new(|i: int| 0 <= i < slots.len() && !(slots[i] is Empty))
}

/// A hash table of fixed capacity that also knows, in constant time, which of
/// its entries was written least recently and which most recently.
///
/// The capacity is fixed when the table is built. A removal leaves a
/// tombstone in its slot and retires the handle of its node: neither is
/// handed out again, so a table of capacity `n` takes `n` new keys over its
/// lifetime, however many entries were removed in between.
pub struct LinkedOpenAddressing<K, V, H = Fnv1aHasher> {
    slots: Vec<Slot>,
    nodes: Vec<Node<K, V>>,
    hasher: H,
    len: usize,
    capacity: usize,
    head: Option<usize>,
    tail: Option<usize>,
    next_node_index: usize,
    /// The handles of the live nodes, the least recently written first.
    order: Ghost<Seq<usize>>,
    /// For each handle, the slot that it was bound to.
    place: Ghost<Seq<usize>>,
}

impl<K: View, V, H> View for LinkedOpenAddressing<K, V, H> {
    type V = TableModel<K::V, V>;

    closed spec fn view(&self) -> TableModel<K::V, V> {
        TableModel {
            entries: Seq::new(
                self.order@.len(),
                |i: int| (self.nodes@[self.order@[i] as int].key@, self.nodes@[self.order@[i] as int].value->0),
            ),
            capacity: self.capacity as nat,
            allocated: self.nodes@.len(),
        }
    }
}

impl<K: TableKey, V, H: KeyHasher<K>> LinkedOpenAddressing<K, V, H> {
    /// Whether `handle` names a live node.
    spec fn live(&self, handle: usize) -> bool {
        self.order@.contains(handle)
    }

    /// The slot at which the probe for `key` starts.
    pub open spec fn home(&self, key: K::V) -> int {
        (self.hasher_spec().spec_hash(key) as int) % (self@.capacity as int)
    }

    /// Whether slot `slot` was ever bound to a node: it is bound, or holds a
    /// tombstone.
    pub closed spec fn slot_used(&self, slot: int) -> bool {
        0 <= slot < self.slots@.len() && !(self.slots@[slot] is Empty)
    }

    /// The hasher that the table was built with.
    pub closed spec fn hasher_spec(&self) -> H {
        self.hasher
    }

    /// The handle before position `i` of the recency list.
    spec fn prev_in(order: Seq<usize>, i: int) -> Option<usize> {
        if i == 0 {
            None
        } else {
            Some(order[i - 1])
        }
    }

    /// The handle after position `i` of the recency list.
    spec fn next_in(order: Seq<usize>, i: int) -> Option<usize> {
        if i == order.len() - 1 {
            None
        } else {
            Some(order[i + 1])
        }
    }

    /// The recency list: the links of the nodes spell out `order`, and `head`
    /// and `tail` are its two ends.
    #[verifier::opaque]
    spec fn list_wf(&self) -> bool {
        let order = self.order@;
        &&& order.no_duplicates()
        &&& forall|i: int| 0 <= i < order.len() ==> (#[trigger] order[i]) < self.nodes@.len()
        &&& forall|i: int|
            0 <= i < order.len() ==> self.nodes@[(#[trigger] order[i]) as int].prev
                == Self::prev_in(order, i)
        &&& forall|i: int|
            0 <= i < order.len() ==> self.nodes@[(#[trigger] order[i]) as int].next
                == Self::next_in(order, i)
        &&& self.head == (if order.len() == 0 {
            None
        } else {
            Some(order[0])
        })
        &&& self.tail == (if order.len() == 0 {
            None
        } else {
            Some(order[order.len() - 1])
        })
    }

    /// The live nodes hold a value each, and no two of them hold the same key.
    #[verifier::opaque]
    spec fn live_wf(&self) -> bool {
        &&& forall|h: usize| #[trigger] self.live(h) ==> self.nodes@[h as int].value is Some
        &&& forall|h1: usize, h2: usize|
            #[trigger] self.live(h1) && #[trigger] self.live(h2) && h1 != h2
                ==> self.nodes@[h1 as int].key@ != self.nodes@[h2 as int].key@
    }

    /// Each live node is bound to one slot, and each bound slot to a live node.
    #[verifier::opaque]
    spec fn slots_wf(&self) -> bool {
        &&& forall|h: usize| #[trigger]
            self.live(h) ==> self.place@[h as int] < self.slots@.len()
                && self.slots@[self.place@[h as int] as int] == Slot::Occupied(h)
        &&& forall|s: int|
            0 <= s < self.slots@.len() ==> ((#[trigger] self.slots@[s]) matches Slot::Occupied(h)
                ==> self.live(h) && self.place@[h as int] == s)
    }

    /// No `Empty` slot lies on the walk from the home slot of a live key to
    /// the slot that the key is bound to.
    #[verifier::opaque]
    spec fn paths_wf(&self) -> bool {
        forall|h: usize, d: int|
            #![trigger self.live(h), slot_at(self.home(self.nodes@[h as int].key@), d, self.capacity as int)]
            self.live(h) && 0 <= d < steps_between(
                self.home(self.nodes@[h as int].key@),
                self.place@[h as int] as int,
                self.capacity as int,
            ) ==> !(self.slots@[slot_at(
                self.home(self.nodes@[h as int].key@),
                d,
                self.capacity as int,
            )] is Empty)
    }

    /// The invariant of the table. Every operation asks for it and keeps it.
    pub closed spec fn wf(&self) -> bool {
        &&& self.capacity > 0
        &&& self.slots@.len() == self.capacity
        &&& self.nodes@.len() == self.next_node_index
        &&& self.next_node_index <= self.capacity
        &&& self.len == self.order@.len()
        &&& self.len <= self.capacity
        &&& self.place@.len() == self.nodes@.len()
        &&& self.list_wf()
        &&& self.live_wf()
        &&& self.slots_wf()
        &&& self.paths_wf()
        &&& used_slots(self.slots@).len() <= self.nodes@.len()
    }

    /// The model of a well-formed table is valid.
    pub proof fn lemma_view_valid(&self)
        requires
            self.wf(),
        ensures
            self@.valid(),
    {
        reveal(LinkedOpenAddressing::live_wf);
        reveal(LinkedOpenAddressing::list_wf);
        let order = self.order@;
        assert forall|i: int, j: int| 0 <= i < j < self@.entries.len() implies self@.entries[i].0
            != self@.entries[j].0 by {
            assert(self.live(order[i]));
            assert(self.live(order[j]));
        }
    }

    /// Creates an empty table with room for `capacity` entries, which hashes
    /// its keys with `hasher`. A capacity of zero is refused.
    pub fn with_hasher(capacity: usize, hasher: H) -> (table: Result<Self, TableError>)
        ensures
            capacity == 0 <==> table == Err::<Self, TableError>(TableError::ZeroCapacity),
            capacity > 0 ==> table is Ok,
            table matches Ok(t) ==> t.wf() && t@ == TableModel::<K::V, V>::empty(capacity as nat)
                && t.hasher_spec() == hasher,
    {
        if capacity == 0 {
            return Err(TableError::ZeroCapacity);
        }
        let mut slots: Vec<Slot> = Vec::new();
        let mut i: usize = 0;
        while i < capacity
            invariant
                i <= capacity,
                slots@.len() == i,
                forall|j: int| 0 <= j < i ==> slots@[j] is Empty,
            decreases capacity - i,
        {
            slots.push(Slot::Empty);
            i = i + 1;
        }
        let table = LinkedOpenAddressing {
            slots,
            nodes: Vec::with_capacity(capacity),
            hasher,
            len: 0,
            capacity,
            head: None,
            tail: None,
            next_node_index: 0,
            order: Ghost(Seq::empty()),
            place: Ghost(Seq::empty()),
        };
        proof {
            reveal(LinkedOpenAddressing::list_wf);
            reveal(LinkedOpenAddressing::live_wf);
            reveal(LinkedOpenAddressing::slots_wf);
            reveal(LinkedOpenAddressing::paths_wf);
            assert(used_slots(table.slots@) =~= Set::<int>::empty());
            assert(table@.entries =~= Seq::<(K::V, V)>::empty());
        }
        Ok(table)
    }

    /// The number of live entries.
    pub fn len(&self) -> (n: usize)
        requires
            self.wf(),
        ensures
            n == self@.len(),
    {
        self.len
    }

    /// Whether the table holds no entry.
    pub fn is_empty(&self) -> (empty: bool)
        requires
            self.wf(),
        ensures
            empty == (self@.len() == 0),
    {
        self.len == 0
    }

    /// Slot `slot` is bound to the live node that holds `key`.
    pub closed spec fn bound_to(&self, slot: usize, key: K::V) -> bool {
        &&& slot < self.slots@.len()
        &&& self.slots@[slot as int] matches Slot::Occupied(h)
        &&& self.live(h)
        &&& self.nodes@[h as int].key@ == key
    }

    /// Slot `slot` is where a new entry for `key` belongs: the first slot on
    /// the walk from the home slot of `key` that is bound to no node.
    pub closed spec fn insertion_point(&self, slot: usize, key: K::V) -> bool {
        &&& slot < self.slots@.len()
        &&& !(self.slots@[slot as int] is Occupied)
        &&& forall|d: int|
            0 <= d < steps_between(self.home(key), slot as int, self.capacity as int)
                ==> (#[trigger] self.slots@[slot_at(self.home(key), d, self.capacity as int)]) is Occupied
    }

    /// Every slot is bound to a node.
    pub closed spec fn saturated(&self) -> bool {
        forall|s: int| 0 <= s < self.slots@.len() ==> (#[trigger] self.slots@[s]) is Occupied
    }

    /// Walks the slots from the home slot of `key` until the key, an `Empty`
    /// slot or the end of the array settles whether the key has an entry.
    ///
    /// The key is found exactly if it has an entry. Where it has none, the
    /// insertion point is the first slot on the walk that is bound to no node:
    /// the earliest tombstone, or else the `Empty` slot that ended the walk.
    /// Where the walk saw bound slots only, there is no such slot.
    pub fn probe(&self, key: &K) -> (found: Result<Probe, TableError>)
        requires
            self.wf(),
        ensures
            match found {
                Ok(Probe::Found(slot)) => self.bound_to(slot, key@),
                Ok(Probe::InsertAt(slot)) => self.insertion_point(slot, key@),
                Err(e) => e == TableError::ProbeExhausted && self.saturated(),
            },
            found matches Ok(Probe::Found(_)) <==> self@.contains_key(key@),
            found is Err ==> self@.allocated == self@.capacity,
    {
        let start = self.index_for(key);
        let mut idx = start;
        let mut first_tombstone: Option<usize> = None;
        let mut steps: usize = 0;
        let ghost cap = self.capacity as int;
        while steps < self.capacity
            invariant
                self.wf(),
                cap == self.capacity as int,
                start == self.home(key@),
                0 <= start < cap,
                steps <= cap,
                idx < cap,
                steps < cap ==> idx == slot_at(start as int, steps as int, cap),
                forall|d: int|
                    0 <= d < steps ==> !((#[trigger] self.slots@[slot_at(start as int, d, cap)]) is Empty),
                forall|d: int|
                    0 <= d < steps ==> ((#[trigger] self.slots@[slot_at(start as int, d, cap)]) matches Slot::Occupied(h)
                        ==> self.nodes@[h as int].key@ != key@),
                match first_tombstone {
                    Some(p) => p < cap && self.slots@[p as int] is Tombstone && steps_between(
                        start as int,
                        p as int,
                        cap,
                    ) < steps && forall|d: int|
                        0 <= d < steps_between(start as int, p as int, cap) ==> (#[trigger] self.slots@[slot_at(
                            start as int,
                            d,
                            cap,
                        )]) is Occupied,
                    None => forall|d: int|
                        0 <= d < steps ==> (#[trigger] self.slots@[slot_at(start as int, d, cap)]) is Occupied,
                },
            decreases cap - steps,
        {
            match self.slots[idx] {
                Slot::Empty => {
                    proof {
                        self.lemma_absent_at_empty(key@, steps as int);
                    }
                    match first_tombstone {
                        Some(p) => {
                            return Ok(Probe::InsertAt(p));
                        },
                        None => {
                            return Ok(Probe::InsertAt(idx));
                        },
                    }
                },
                Slot::Tombstone => {
                    if first_tombstone.is_none() {
                        first_tombstone = Some(idx);
                    }
                },
                Slot::Occupied(node_idx) => {
                    proof {
                        self.lemma_bound_handle(idx as int);
                    }
                    if self.nodes[node_idx].key.same_key(key) {
                        proof {
                            self.lemma_contains_key(key@);
                        }
                        return Ok(Probe::Found(idx));
                    }
                },
            }
            idx = if idx + 1 == self.capacity {
                0
            } else {
                idx + 1
            };
            steps = steps + 1;
        }
        proof {
            self.lemma_absent_after_cycle(key@);
        }
        match first_tombstone {
            Some(p) => Ok(Probe::InsertAt(p)),
            None => {
                proof {
                    assert forall|s: int| 0 <= s < self.slots@.len() implies (#[trigger] self.slots@[s]) is Occupied by {
                        let d = steps_between(start as int, s, cap);
                        assert(slot_at(start as int, d, cap) == s);
                    }
                    self.lemma_saturated_is_spent();
                }
                Err(TableError::ProbeExhausted)
            },
        }
    }

    /// The slot at which the probe for `key` starts: its hash, reduced to the
    /// length of the slot array.
    pub fn index_for(&self, key: &K) -> (index: usize)
        requires
            self.wf(),
        ensures
            index == self.home(key@),
            index < self@.capacity,
    {
        (self.hasher.hash_key(key) % (self.capacity as u64)) as usize
    }
}

impl<K: TableKey, V, H: KeyHasher<K>> LinkedOpenAddressing<K, V, H> {
    /// Everything but the recency list is the same in `self` and `other`: the
    /// slots, the keys and values of the nodes, and the counters.
    spec fn same_but_links(&self, other: &Self) -> bool {
        &&& self.slots == other.slots
        &&& self.hasher == other.hasher
        &&& self.len == other.len
        &&& self.capacity == other.capacity
        &&& self.next_node_index == other.next_node_index
        &&& self.place@ == other.place@
        &&& self.nodes@.len() == other.nodes@.len()
        &&& forall|h: int|
            0 <= h < self.nodes@.len() ==> (#[trigger] self.nodes@[h]).key == other.nodes@[h].key
                && self.nodes@[h].value == other.nodes@[h].value
    }

    /// Appends a node for `key` and `value` to the store and returns its
    /// handle. The node is linked to nothing yet. Handles are given out in
    /// rising order and never again; once as many were given out as the table
    /// has capacity, the store takes no more.
    fn allocate_node(&mut self, key: K, value: V) -> (handle: Result<usize, TableError>)
        requires
            old(self).nodes@.len() == old(self).next_node_index,
        ensures
            match handle {
                Ok(h) => {
                    &&& old(self).next_node_index < old(self).capacity
                    &&& h == old(self).nodes@.len()
                    &&& final(self).nodes@ == old(self).nodes@.push(
                        Node { key, value: Some(value), prev: None, next: None },
                    )
                    &&& final(self).next_node_index == old(self).next_node_index + 1
                },
                Err(e) => {
                    &&& e == TableError::CapacityExceeded
                    &&& old(self).next_node_index >= old(self).capacity
                    &&& final(self).nodes == old(self).nodes
                    &&& final(self).next_node_index == old(self).next_node_index
                },
            },
            final(self).slots == old(self).slots,
            final(self).hasher == old(self).hasher,
            final(self).len == old(self).len,
            final(self).capacity == old(self).capacity,
            final(self).head == old(self).head,
            final(self).tail == old(self).tail,
            final(self).order@ == old(self).order@,
            final(self).place@ == old(self).place@,
    {
        if self.next_node_index >= self.capacity {
            return Err(TableError::CapacityExceeded);
        }
        let idx = self.next_node_index;
        self.nodes.push(Node { key, value: Some(value), prev: None, next: None });
        self.next_node_index = self.next_node_index + 1;
        Ok(idx)
    }

    /// Takes the live node `node_idx` out of the recency list by joining its
    /// two neighbours, or moving `head` or `tail` where it was an end. No slot
    /// is touched, and no key or value.
    fn unlink_node(&mut self, node_idx: usize)
        requires
            old(self).list_wf(),
            old(self).live(node_idx),
        ensures
            final(self).list_wf(),
            !final(self).live(node_idx),
            final(self).order@ == old(self).order@.remove(old(self).order@.index_of(node_idx)),
            final(self).same_but_links(old(self)),
    {
        let ghost before = *self;
        proof {
            self.lemma_neighbours(node_idx);
        }
        let prev_idx = self.nodes[node_idx].prev;
        let next_idx = self.nodes[node_idx].next;
        if let Some(p) = prev_idx {
            self.nodes[p].next = next_idx;
        } else {
            self.head = next_idx;
        }
        let ghost joined = *self;
        assert(forall|g: int|
            0 <= g < joined.nodes@.len() ==> (#[trigger] joined.nodes@[g]).prev == before.nodes@[g].prev
                && joined.nodes@[g].key == before.nodes@[g].key && joined.nodes@[g].value
                == before.nodes@[g].value);
        if let Some(n) = next_idx {
            self.nodes[n].prev = prev_idx;
        } else {
            self.tail = prev_idx;
        }
        assert(forall|g: int|
            0 <= g < self.nodes@.len() ==> (#[trigger] self.nodes@[g]).next == joined.nodes@[g].next
                && self.nodes@[g].key == joined.nodes@[g].key && self.nodes@[g].value
                == joined.nodes@[g].value);
        proof {
            self.order@ = before.order@.remove(before.order@.index_of(node_idx));
            self.lemma_unlinked(&before, node_idx);
        }
    }

    /// Appends the node `node_idx`, which is in the store and not in the
    /// recency list, at the end of the list. A list that was empty has the
    /// node as both its ends. The node has no successor afterwards.
    fn link_at_tail(&mut self, node_idx: usize)
        requires
            old(self).list_wf(),
            node_idx < old(self).nodes@.len(),
            !old(self).live(node_idx),
        ensures
            final(self).list_wf(),
            final(self).order@ == old(self).order@.push(node_idx),
            final(self).same_but_links(old(self)),
    {
        let ghost before = *self;
        proof {
            before.lemma_tail(node_idx);
        }
        let old_tail = self.tail;
        self.tail = Some(node_idx);
        if let Some(t) = old_tail {
            self.nodes[t].next = Some(node_idx);
            self.nodes[node_idx].prev = Some(t);
        } else {
            self.head = Some(node_idx);
            self.nodes[node_idx].prev = None;
        }
        self.nodes[node_idx].next = None;
        proof {
            self.order@ = before.order@.push(node_idx);
            self.lemma_linked(&before, node_idx);
        }
    }
}

impl<K: TableKey, V, H: KeyHasher<K>> LinkedOpenAddressing<K, V, H> {
    /// The node handle that slot `slot_idx` is bound to.
    fn handle_at(&self, slot_idx: usize) -> (handle: usize)
        requires
            self.wf(),
            slot_idx < self.slots@.len(),
            self.slots@[slot_idx as int] is Occupied,
        ensures
            self.slots@[slot_idx as int] == Slot::Occupied(handle),
            self.live(handle),
            handle < self.nodes@.len(),
            self.place@[handle as int] == slot_idx,
    {
        proof {
            self.lemma_bound_handle(slot_idx as int);
        }
        match self.slots[slot_idx] {
            Slot::Occupied(node_idx) => node_idx,
            _ => unreached(),
        }
    }
}

impl<K: TableKey, V, H: KeyHasher<K>> LinkedOpenAddressing<K, V, H> {
    /// The hasher, the capacity and the keys of the nodes of `before` are
    /// those of `self`.
    spec fn same_keys(&self, before: &Self) -> bool {
        &&& self.hasher == before.hasher
        &&& self.capacity == before.capacity
        &&& forall|g: int|
            0 <= g < before.nodes@.len() ==> (#[trigger] self.nodes@[g]).key == before.nodes@[g].key
    }

    /// The values of the nodes of `before`, but for that of `handle`, are
    /// those of `self`.
    spec fn same_values_but(&self, before: &Self, handle: usize) -> bool {
        forall|g: int|
            0 <= g < before.nodes@.len() && g != handle ==> (#[trigger] self.nodes@[g]).value
                == before.nodes@[g].value
    }

    /// `self` is `before` after the entry of the live node `handle` was
    /// written again: the node was taken out of the list, given the value
    /// `value`, and put at the end.
    spec fn rewritten_from(&self, before: &Self, handle: usize, value: V) -> bool {
        &&& before.live(handle)
        &&& self.list_wf()
        &&& self.order@ == before.order@.remove(before.order@.index_of(handle)).push(handle)
        &&& self.slots == before.slots
        &&& self.len == before.len
        &&& self.next_node_index == before.next_node_index
        &&& self.place@ == before.place@
        &&& self.nodes@.len() == before.nodes@.len()
        &&& self.same_keys(before)
        &&& self.same_values_but(before, handle)
        &&& self.nodes@[handle as int].value == Some(value)
    }

    /// `self` is `before` after an entry for a new key was added: the fresh
    /// node `handle` at the end of the list, bound to the slot `slot`.
    spec fn added_from(&self, before: &Self, handle: usize, slot: usize, key: K, value: V) -> bool {
        &&& !before@.contains_key(key@)
        &&& before.insertion_point(slot, key@)
        &&& before.len < before.capacity
        &&& before.next_node_index < before.capacity
        &&& handle == before.nodes@.len()
        &&& self.list_wf()
        &&& self.order@ == before.order@.push(handle)
        &&& self.slots@ == before.slots@.update(slot as int, Slot::Occupied(handle))
        &&& self.len == before.len + 1
        &&& self.next_node_index == before.next_node_index + 1
        &&& self.place@ == before.place@.push(slot)
        &&& self.nodes@.len() == before.nodes@.len() + 1
        &&& self.same_keys(before)
        &&& self.same_values_but(before, handle)
        &&& self.nodes@[handle as int].key == key
        &&& self.nodes@[handle as int].value == Some(value)
    }

    /// `self` is `before` after the entry of the live node `handle` was
    /// removed: the node was taken out of the list, and its slot `slot` was
    /// left as a tombstone.
    spec fn removed_from(&self, before: &Self, handle: usize, slot: usize) -> bool {
        &&& before.live(handle)
        &&& before.place@[handle as int] == slot
        &&& slot < before.slots@.len()
        &&& before.slots@[slot as int] == Slot::Occupied(handle)
        &&& self.list_wf()
        &&& self.order@ == before.order@.remove(before.order@.index_of(handle))
        &&& self.slots@ == before.slots@.update(slot as int, Slot::Tombstone)
        &&& self.len == before.len - 1
        &&& self.next_node_index == before.next_node_index
        &&& self.place@ == before.place@
        &&& self.nodes@.len() == before.nodes@.len()
        &&& self.same_keys(before)
        &&& self.same_values_but(before, handle)
    }
}

impl<K: TableKey, V, H: KeyHasher<K>> HashTable<K, V> for LinkedOpenAddressing<K, V, H> {
    open spec fn valid(&self) -> bool {
        self.wf()
    }

    open spec fn model(&self) -> TableModel<K::V, V> {
        self@
    }

    fn insert(&mut self, key: K, value: V) -> (previous: Result<Option<V>, TableError>)
        ensures
            final(self).hasher_spec() == old(self).hasher_spec(),
            forall|slot: int| old(self).slot_used(slot) ==> final(self).slot_used(slot),
    {
        let found = self.probe(&key);
        proof {
            self.lemma_view_valid();
        }
        if let Ok(Probe::Found(slot_idx)) = found {
            let node_idx = self.handle_at(slot_idx);
            proof {
                self.lemma_index_of_live(node_idx);
            }
            let ghost before = *self;
            self.unlink_node(node_idx);
            let ghost unlinked = *self;
            let old_value = self.nodes[node_idx].value.take();
            self.nodes[node_idx].value = Some(value);
            proof {
                self.lemma_same_links(&unlinked);
            }
            self.link_at_tail(node_idx);
            proof {
                self.lemma_rewritten(&before, node_idx, key@, value);
                self.lemma_view_valid();
            }
            Ok(old_value)
        } else {
            if self.len == self.capacity || self.next_node_index >= self.capacity {
                return Err(TableError::CapacityExceeded);
            }
            let slot_idx = match found {
                Ok(Probe::InsertAt(slot_idx)) => slot_idx,
                _ => unreached(),
            };
            let ghost before = *self;
            let node_idx = match self.allocate_node(key, value) {
                Ok(node_idx) => node_idx,
                Err(e) => {
                    return Err(e);
                },
            };
            proof {
                before.lemma_fresh_handle(node_idx);
                self.lemma_same_links(&before);
            }
            self.link_at_tail(node_idx);
            let ghost linked = *self;
            self.slots[slot_idx] = Slot::Occupied(node_idx);
            self.len = self.len + 1;
            proof {
                self.place@ = self.place@.push(slot_idx);
                self.lemma_same_links(&linked);
                self.lemma_added(&before, node_idx, slot_idx, key, value);
                self.lemma_view_valid();
            }
            Ok(None)
        }
    }

    fn remove(&mut self, key: &K) -> (removed: Option<V>)
        ensures
            final(self).hasher_spec() == old(self).hasher_spec(),
            forall|slot: int| old(self).slot_used(slot) ==> final(self).slot_used(slot),
    {
        let found = self.probe(key);
        proof {
            self.lemma_view_valid();
        }
        if let Ok(Probe::Found(slot_idx)) = found {
            let node_idx = self.handle_at(slot_idx);
            proof {
                self.lemma_index_of_live(node_idx);
            }
            let ghost before = *self;
            self.unlink_node(node_idx);
            let ghost unlinked = *self;
            self.slots[slot_idx] = Slot::Tombstone;
            self.len = self.len - 1;
            let value = self.nodes[node_idx].value.take();
            proof {
                self.lemma_same_links(&unlinked);
                self.lemma_removed(&before, node_idx, slot_idx);
                self.lemma_view_valid();
            }
            value
        } else {
            None
        }
    }

    fn get(&self, key: &K) -> (value: Option<&V>) {
        match self.probe(key) {
            Ok(Probe::Found(slot_idx)) => {
                let node_idx = self.handle_at(slot_idx);
                proof {
                    self.lemma_index_of_live(node_idx);
                }
                self.nodes[node_idx].value.as_ref()
            },
            _ => None,
        }
    }

    fn get_last(&self) -> (entry: Option<(&K, &V)>) {
        proof {
            self.lemma_ends();
        }
        match self.tail {
            Some(tail_idx) => {
                let node = &self.nodes[tail_idx];
                match &node.value {
                    Some(value) => Some((&node.key, value)),
                    None => unreached(),
                }
            },
            None => None,
        }
    }

    fn get_first(&self) -> (entry: Option<(&K, &V)>) {
        proof {
            self.lemma_ends();
        }
        match self.head {
            Some(head_idx) => {
                let node = &self.nodes[head_idx];
                match &node.value {
                    Some(value) => Some((&node.key, value)),
                    None => unreached(),
                }
            },
            None => None,
        }
    }
}

impl<K: TableKey, V> LinkedOpenAddressing<K, V, Fnv1aHasher> where Fnv1aHasher: KeyHasher<K> {
    /// Creates an empty table with room for `capacity` entries, which hashes
    /// its keys with FNV-1a. A capacity of zero is refused.
    pub fn new(capacity: usize) -> (table: Result<Self, TableError>)
        ensures
            capacity == 0 <==> table == Err::<Self, TableError>(TableError::ZeroCapacity),
            capacity > 0 ==> table is Ok,
            table matches Ok(t) ==> t.wf() && t@ == TableModel::<K::V, V>::empty(capacity as nat),
    {
        Self::with_hasher(capacity, Fnv1aHasher::new())
    }
}

} // verus!
