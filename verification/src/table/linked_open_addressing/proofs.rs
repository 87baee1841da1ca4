//! Why the operations of the table keep its invariant and do what the model
//! says: the lemmas on probing, on the recency list, and on the three ways in
//! which a table changes.

use super::{slot_at, steps_between, used_slots, LinkedOpenAddressing, Slot};
use crate::table::hasher::KeyHasher;
use crate::table::key::TableKey;
use vstd::prelude::*;
use vstd::set_lib::{lemma_int_range, lemma_len_subset, set_int_range};

verus! {

impl<K: TableKey, V, H: KeyHasher<K>> LinkedOpenAddressing<K, V, H> {
    /// A key has an entry exactly if a live node holds it.
    pub(super) proof fn lemma_contains_key(&self, key: K::V)
        requires
            self.wf(),
        ensures
            self@.contains_key(key) <==> exists|h: usize|
                #[trigger] self.live(h) && self.nodes@[h as int].key@ == key,
    {
        let order = self.order@;
        if self@.contains_key(key) {
            let i = self@.index_of(key);
            assert(self@.entries[i].0 == key);
            assert(self.live(order[i]));
        }
        if exists|h: usize| #[trigger] self.live(h) && self.nodes@[h as int].key@ == key {
            let h = choose|h: usize| #[trigger] self.live(h) && self.nodes@[h as int].key@ == key;
            let i = order.index_of(h);
            assert(self@.entries[i].0 == key);
        }
    }

    /// A table in which every slot is bound has handed out its last handle.
    pub(super) proof fn lemma_saturated_is_spent(&self)
        requires
            self.wf(),
            self.saturated(),
        ensures
            self@.allocated == self@.capacity,
    {
        let cap = self.capacity as int;
        lemma_int_range(0, cap);
        assert(used_slots(self.slots@) =~= set_int_range(0, cap));
    }

    /// The handle that a slot is bound to names a live node of the store.
    pub(super) proof fn lemma_bound_handle(&self, slot: int)
        requires
            self.wf(),
            0 <= slot < self.slots@.len(),
            self.slots@[slot] is Occupied,
        ensures
            self.live(self.slots@[slot]->0),
            self.slots@[slot]->0 < self.nodes@.len(),
            self.place@[self.slots@[slot]->0 as int] == slot,
    {
        reveal(LinkedOpenAddressing::slots_wf);
        reveal(LinkedOpenAddressing::list_wf);
        let h = self.slots@[slot]->0;
        assert(self.live(h));
        let i = self.order@.index_of(h);
        assert(self.order@[i] == h);
    }

    /// A key is absent if the walk from its home slot reaches an `Empty` slot
    /// before it reaches the key.
    pub(super) proof fn lemma_absent_at_empty(&self, key: K::V, steps: int)
        requires
            self.wf(),
            0 <= steps < self.capacity,
            self.slots@[slot_at(self.home(key), steps, self.capacity as int)] is Empty,
            forall|d: int|
                0 <= d < steps ==> ((#[trigger] self.slots@[slot_at(self.home(key), d, self.capacity as int)]) matches Slot::Occupied(h)
                    ==> self.nodes@[h as int].key@ != key),
        ensures
            !self@.contains_key(key),
    {
        reveal(LinkedOpenAddressing::slots_wf);
        reveal(LinkedOpenAddressing::paths_wf);
        let cap = self.capacity as int;
        let start = self.home(key);
        self.lemma_contains_key(key);
        assert forall|h: usize| #[trigger] self.live(h) implies self.nodes@[h as int].key@ != key by {
            if self.nodes@[h as int].key@ == key {
                let s = self.place@[h as int] as int;
                let ds = steps_between(start, s, cap);
                assert(slot_at(start, ds, cap) == s);
                if ds < steps {
                    assert(self.slots@[slot_at(start, ds, cap)] == Slot::Occupied(h));
                } else if ds > steps {
                    assert(!(self.slots@[slot_at(self.home(self.nodes@[h as int].key@), steps, cap)] is Empty));
                }
            }
        }
    }

    /// A key is absent if the walk from its home slot has passed every slot
    /// without reaching the key.
    pub(super) proof fn lemma_absent_after_cycle(&self, key: K::V)
        requires
            self.wf(),
            forall|d: int|
                0 <= d < self.capacity ==> ((#[trigger] self.slots@[slot_at(self.home(key), d, self.capacity as int)]) matches Slot::Occupied(h)
                    ==> self.nodes@[h as int].key@ != key),
        ensures
            !self@.contains_key(key),
    {
        reveal(LinkedOpenAddressing::slots_wf);
        let cap = self.capacity as int;
        let start = self.home(key);
        self.lemma_contains_key(key);
        assert forall|h: usize| #[trigger] self.live(h) implies self.nodes@[h as int].key@ != key by {
            if self.nodes@[h as int].key@ == key {
                let s = self.place@[h as int] as int;
                let ds = steps_between(start, s, cap);
                assert(slot_at(start, ds, cap) == s);
                assert(self.slots@[slot_at(start, ds, cap)] == Slot::Occupied(h));
            }
        }
    }

    /// The recency list is a matter of the links alone: a table with the same
    /// links, ends and order as a well-linked one is well linked.
    pub(super) proof fn lemma_same_links(&self, before: &Self)
        requires
            before.list_wf(),
            self.order@ == before.order@,
            self.head == before.head,
            self.tail == before.tail,
            self.nodes@.len() >= before.nodes@.len(),
            forall|g: int|
                0 <= g < before.nodes@.len() ==> (#[trigger] self.nodes@[g]).prev == before.nodes@[g].prev
                    && self.nodes@[g].next == before.nodes@[g].next,
        ensures
            self.list_wf(),
    {
        reveal(LinkedOpenAddressing::list_wf);
    }

    /// The neighbours of a live node in the recency list are nodes of the store.
    pub(super) proof fn lemma_neighbours(&self, handle: usize)
        requires
            self.list_wf(),
            self.live(handle),
        ensures
            handle < self.nodes@.len(),
            self.nodes@[handle as int].prev matches Some(p) ==> p < self.nodes@.len(),
            self.nodes@[handle as int].next matches Some(n) ==> n < self.nodes@.len(),
    {
        reveal(LinkedOpenAddressing::list_wf);
        let i = self.order@.index_of(handle);
        assert(self.order@[i] == handle);
    }

    /// The recency list after a live node was taken out of it: its two
    /// neighbours were joined, and `head` and `tail` moved where it was an end.
    #[verifier::rlimit(40)]
    pub(super) proof fn lemma_unlinked(&self, before: &Self, handle: usize)
        requires
            before.list_wf(),
            before.live(handle),
            self.nodes@.len() == before.nodes@.len(),
            forall|g: int|
                0 <= g < self.nodes@.len() ==> (#[trigger] self.nodes@[g]).prev == (if before.nodes@[handle as int].next matches Some(n)
                    && n == g {
                    before.nodes@[handle as int].prev
                } else {
                    before.nodes@[g].prev
                }),
            forall|g: int|
                0 <= g < self.nodes@.len() ==> (#[trigger] self.nodes@[g]).next == (if before.nodes@[handle as int].prev matches Some(p)
                    && p == g {
                    before.nodes@[handle as int].next
                } else {
                    before.nodes@[g].next
                }),
            self.head == (if before.nodes@[handle as int].prev is None {
                before.nodes@[handle as int].next
            } else {
                before.head
            }),
            self.tail == (if before.nodes@[handle as int].next is None {
                before.nodes@[handle as int].prev
            } else {
                before.tail
            }),
            self.order@ == before.order@.remove(before.order@.index_of(handle)),
        ensures
            self.list_wf(),
            !self.live(handle),
    {
        reveal(LinkedOpenAddressing::list_wf);
        let order = before.order@;
        let idx = order.index_of(handle);
        assert(order[idx] == handle);
        let after = self.order@;
        let next_of_handle = before.nodes@[handle as int].next;
        let prev_of_handle = before.nodes@[handle as int].prev;
        assert(next_of_handle == Self::next_in(order, idx));
        assert(prev_of_handle == Self::prev_in(order, idx));
        if after.contains(handle) {
            let i = after.index_of(handle);
            assert(after[i] == handle);
            let oi = if i < idx { i } else { i + 1 };
            assert(after[i] == order[oi]);
        }
        assert forall|i: int, j: int|
            0 <= i < after.len() && 0 <= j < after.len() && i != j implies after[i] != after[j] by {
            let oi = if i < idx { i } else { i + 1 };
            let oj = if j < idx { j } else { j + 1 };
            assert(after[i] == order[oi] && after[j] == order[oj]);
        }
        assert forall|i: int| 0 <= i < after.len() implies (#[trigger] after[i]) < self.nodes@.len() by {
            let oi = if i < idx { i } else { i + 1 };
            assert(after[i] == order[oi]);
        }
        assert forall|i: int| 0 <= i < after.len() implies self.nodes@[(#[trigger] after[i]) as int].prev
            == Self::prev_in(after, i) by {
            let oi = if i < idx { i } else { i + 1 };
            let g = order[oi];
            assert(after[i] == g);
            assert(before.nodes@[g as int].prev == Self::prev_in(order, oi));
            if idx + 1 < order.len() {
                if oi == idx + 1 {
                    if i > 0 {
                        assert(after[i - 1] == order[idx - 1]);
                    }
                } else {
                    assert(order[idx + 1] != order[oi]);
                }
            }
            if oi != idx + 1 && i > 0 {
                assert(after[i - 1] == order[oi - 1]);
            }
        }
        assert forall|i: int| 0 <= i < after.len() implies self.nodes@[(#[trigger] after[i]) as int].next
            == Self::next_in(after, i) by {
            let oi = if i < idx { i } else { i + 1 };
            let g = order[oi];
            assert(after[i] == g);
            assert(before.nodes@[g as int].next == Self::next_in(order, oi));
            if idx > 0 {
                if oi == idx - 1 {
                    if i + 1 < after.len() {
                        assert(after[i + 1] == order[idx + 1]);
                    }
                } else {
                    assert(order[idx - 1] != order[oi]);
                }
            }
            if oi != idx - 1 && i + 1 < after.len() {
                assert(after[i + 1] == order[oi + 1]);
            }
        }
    }

    /// The recency list after a node that was not in it was put at its end.
    pub(super) proof fn lemma_linked(&self, before: &Self, handle: usize)
        requires
            before.list_wf(),
            handle < before.nodes@.len(),
            !before.live(handle),
            self.nodes@.len() == before.nodes@.len(),
            forall|g: int|
                0 <= g < self.nodes@.len() ==> (#[trigger] self.nodes@[g]).prev == (if g == handle {
                    before.tail
                } else {
                    before.nodes@[g].prev
                }),
            forall|g: int|
                0 <= g < self.nodes@.len() ==> (#[trigger] self.nodes@[g]).next == (if g == handle {
                    None
                } else if before.tail matches Some(t) && t == g {
                    Some(handle)
                } else {
                    before.nodes@[g].next
                }),
            self.head == (if before.tail is None {
                Some(handle)
            } else {
                before.head
            }),
            self.tail == Some(handle),
            self.order@ == before.order@.push(handle),
        ensures
            self.list_wf(),
    {
        reveal(LinkedOpenAddressing::list_wf);
        let order = before.order@;
        let after = self.order@;
        assert forall|i: int| 0 <= i < after.len() implies (#[trigger] after[i]) < self.nodes@.len()
            && self.nodes@[after[i] as int].prev == Self::prev_in(after, i) && self.nodes@[after[i] as int].next
            == Self::next_in(after, i) by {
            if i < order.len() {
                assert(after[i] == order[i]);
                assert(order.contains(order[i]));
                if i + 1 < order.len() {
                    assert(order[i] != order[order.len() - 1]);
                }
            }
        }
        assert forall|i: int, j: int|
            0 <= i < after.len() && 0 <= j < after.len() && i != j implies after[i] != after[j] by {
            if i < order.len() {
                assert(order.contains(order[i]));
            }
            if j < order.len() {
                assert(order.contains(order[j]));
            }
        }
    }

    /// The tail of the recency list is a node of the store, and a live one.
    pub(super) proof fn lemma_tail(&self, other: usize)
        requires
            self.list_wf(),
            !self.live(other),
        ensures
            self.tail matches Some(t) ==> t < self.nodes@.len() && t != other,
    {
        reveal(LinkedOpenAddressing::list_wf);
        if self.order@.len() > 0 {
            let i = self.order@.len() - 1;
            assert(self.order@[i] == self.tail->0);
            assert(self.order@.contains(self.order@[i]));
        }
    }

    /// A handle that the store has not handed out yet names no live node.
    pub(super) proof fn lemma_fresh_handle(&self, handle: usize)
        requires
            self.wf(),
            handle >= self.nodes@.len(),
        ensures
            !self.live(handle),
    {
        reveal(LinkedOpenAddressing::list_wf);
        if self.order@.contains(handle) {
            let i = self.order@.index_of(handle);
            assert(self.order@[i] == handle);
        }
    }

    /// The two ends of the recency list hold the first and the last entry.
    pub(super) proof fn lemma_ends(&self)
        requires
            self.wf(),
        ensures
            self.head is None <==> self@.first() is None,
            self.tail is None <==> self@.last() is None,
            self.head matches Some(h) ==> h < self.nodes@.len() && self.nodes@[h as int].value is Some
                && self@.first() == Some((self.nodes@[h as int].key@, self.nodes@[h as int].value->0)),
            self.tail matches Some(t) ==> t < self.nodes@.len() && self.nodes@[t as int].value is Some
                && self@.last() == Some((self.nodes@[t as int].key@, self.nodes@[t as int].value->0)),
    {
        reveal(LinkedOpenAddressing::list_wf);
        reveal(LinkedOpenAddressing::live_wf);
        if self.order@.len() > 0 {
            let i = self.order@.len() - 1;
            assert(self.live(self.order@[0]));
            assert(self.live(self.order@[i]));
        }
    }

    /// The place in the order of last writes of the entry that a live node holds.
    pub(super) proof fn lemma_index_of_live(&self, handle: usize)
        requires
            self.wf(),
            self.live(handle),
        ensures
            self@.contains_key(self.nodes@[handle as int].key@),
            self@.index_of(self.nodes@[handle as int].key@) == self.order@.index_of(handle),
            0 <= self.order@.index_of(handle) < self.order@.len(),
            self.order@[self.order@.index_of(handle)] == handle,
            self@.get(self.nodes@[handle as int].key@) == Some(self.nodes@[handle as int].value->0),
            self.nodes@[handle as int].value is Some,
            handle < self.nodes@.len(),
    {
        reveal(LinkedOpenAddressing::live_wf);
        reveal(LinkedOpenAddressing::list_wf);
        let order = self.order@;
        let key = self.nodes@[handle as int].key@;
        let i = order.index_of(handle);
        assert(order[i] == handle);
        assert(self@.entries[i].0 == key);
        let j = self@.index_of(key);
        assert(self@.entries[j].0 == key);
        assert(self.live(order[j]));
        if i != j {
            assert(order[i] != order[j]);
        }
    }

    /// The slots that are not `Empty` lie in the slot array, so they are
    /// finitely many.
    pub(super) proof fn lemma_used_slots_finite(slots: Seq<Slot>)
        ensures
            used_slots(slots).finite(),
            used_slots(slots).len() <= slots.len(),
    {
        lemma_int_range(0, slots.len() as int);
        assert(used_slots(slots).subset_of(set_int_range(0, slots.len() as int)));
        lemma_len_subset(used_slots(slots), set_int_range(0, slots.len() as int));
    }

    /// A live handle names a node of the store.
    pub(super) proof fn lemma_live_in_store(&self, handle: usize)
        requires
            self.list_wf(),
            self.live(handle),
        ensures
            handle < self.nodes@.len(),
    {
        reveal(LinkedOpenAddressing::list_wf);
        let i = self.order@.index_of(handle);
        assert(self.order@[i] == handle);
    }

    /// Writing an entry again leaves the same nodes live.
    pub(super) proof fn lemma_rewritten_live(&self, before: &Self, handle: usize, value: V)
        requires
            before.wf(),
            self.rewritten_from(before, handle, value),
        ensures
            forall|g: usize| self.live(g) <==> before.live(g),
    {
        let order = before.order@;
        let idx = order.index_of(handle);
        let after = self.order@;
        assert(order[idx] == handle);
        assert forall|g: usize| self.live(g) <==> before.live(g) by {
            if before.live(g) {
                let i = order.index_of(g);
                assert(order[i] == g);
                if i < idx {
                    assert(after[i] == g);
                } else if i > idx {
                    assert(after[i - 1] == g);
                } else {
                    assert(after[after.len() - 1] == g);
                }
            }
            if self.live(g) {
                let i = after.index_of(g);
                assert(after[i] == g);
                if i < after.len() - 1 {
                    let oi = if i < idx { i } else { i + 1 };
                    assert(order[oi] == g);
                } else {
                    assert(order[idx] == g);
                }
            }
        }
    }

    /// Writing an entry again keeps the live nodes valued and their keys
    /// distinct.
    pub(super) proof fn lemma_rewritten_live_wf(&self, before: &Self, handle: usize, value: V)
        requires
            before.wf(),
            self.rewritten_from(before, handle, value),
        ensures
            self.live_wf(),
    {
        reveal(LinkedOpenAddressing::live_wf);
        self.lemma_rewritten_live(before, handle, value);
        assert forall|h: usize| #[trigger] self.live(h) implies self.nodes@[h as int].value is Some by {
            assert(before.live(h));
            before.lemma_live_in_store(h);
        }
        assert forall|h1: usize, h2: usize|
            #[trigger] self.live(h1) && #[trigger] self.live(h2) && h1 != h2 implies self.nodes@[h1 as int].key@
            != self.nodes@[h2 as int].key@ by {
            assert(before.live(h1) && before.live(h2));
            before.lemma_live_in_store(h1);
            before.lemma_live_in_store(h2);
        }
    }

    /// Writing an entry again keeps the slots and the live nodes bound.
    pub(super) proof fn lemma_rewritten_slots(&self, before: &Self, handle: usize, value: V)
        requires
            before.wf(),
            self.rewritten_from(before, handle, value),
        ensures
            self.slots_wf(),
    {
        reveal(LinkedOpenAddressing::slots_wf);
        self.lemma_rewritten_live(before, handle, value);
    }

    /// Writing an entry again keeps the probe paths free of `Empty` slots.
    pub(super) proof fn lemma_rewritten_paths(&self, before: &Self, handle: usize, value: V)
        requires
            before.wf(),
            self.rewritten_from(before, handle, value),
        ensures
            self.paths_wf(),
    {
        reveal(LinkedOpenAddressing::paths_wf);
        self.lemma_rewritten_live(before, handle, value);
        assert forall|h: usize, d: int|
            #![trigger self.live(h), slot_at(self.home(self.nodes@[h as int].key@), d, self.capacity as int)]
            self.live(h) && 0 <= d < steps_between(
                self.home(self.nodes@[h as int].key@),
                self.place@[h as int] as int,
                self.capacity as int,
            ) implies !(self.slots@[slot_at(
            self.home(self.nodes@[h as int].key@),
            d,
            self.capacity as int,
        )] is Empty) by {
            assert(before.live(h));
            before.lemma_live_in_store(h);
            assert(self.nodes@[h as int].key == before.nodes@[h as int].key);
            assert(!(before.slots@[slot_at(
                before.home(before.nodes@[h as int].key@),
                d,
                before.capacity as int,
            )] is Empty));
        }
    }

    /// Writing an entry again moves it to the end of the entries, with its
    /// new value.
    pub(super) proof fn lemma_rewritten_view(&self, before: &Self, handle: usize, key: K::V, value: V)
        requires
            before.wf(),
            self.rewritten_from(before, handle, value),
            before.nodes@[handle as int].key@ == key,
        ensures
            self@ == before@.insert(key, value),
    {
        reveal(LinkedOpenAddressing::list_wf);
        let order = before.order@;
        let idx = order.index_of(handle);
        let after = self.order@;
        before.lemma_index_of_live(handle);
        assert(self@.entries =~= before@.entries.remove(idx).push((key, value))) by {
            assert forall|i: int| 0 <= i < after.len() implies self@.entries[i] == before@.entries.remove(
                idx,
            ).push((key, value))[i] by {
                if i < after.len() - 1 {
                    let oi = if i < idx { i } else { i + 1 };
                    assert(after[i] == order[oi]);
                    assert(order[oi] != order[idx]);
                }
            }
        }
    }

    /// The table after the entry of a live node was written again is well
    /// formed, and holds what the model says.
    pub(super) proof fn lemma_rewritten(&self, before: &Self, handle: usize, key: K::V, value: V)
        requires
            before.wf(),
            self.rewritten_from(before, handle, value),
            before.nodes@[handle as int].key@ == key,
        ensures
            self.wf(),
            self@ == before@.insert(key, value),
    {
        self.lemma_rewritten_live_wf(before, handle, value);
        self.lemma_rewritten_slots(before, handle, value);
        self.lemma_rewritten_paths(before, handle, value);
        self.lemma_rewritten_view(before, handle, key, value);
        assert(self.order@.len() == before.order@.len());
    }

    /// Adding an entry makes its node live, beside those that were.
    pub(super) proof fn lemma_added_live(&self, before: &Self, handle: usize, slot: usize, key: K, value: V)
        requires
            before.wf(),
            self.added_from(before, handle, slot, key, value),
        ensures
            forall|g: usize| self.live(g) <==> (before.live(g) || g == handle),
            forall|g: usize| before.live(g) ==> g < handle,
    {
        let order = before.order@;
        let after = self.order@;
        assert forall|g: usize| self.live(g) <==> (before.live(g) || g == handle) by {
            if before.live(g) {
                let i = order.index_of(g);
                assert(order[i] == g);
                assert(after[i] == g);
            }
            if g == handle {
                assert(after[after.len() - 1] == g);
            }
            if self.live(g) {
                let i = after.index_of(g);
                assert(after[i] == g);
                if i < order.len() {
                    assert(order[i] == g);
                }
            }
        }
        assert forall|g: usize| before.live(g) implies g < handle by {
            before.lemma_live_in_store(g);
        }
    }

    /// Adding an entry keeps the live nodes valued and their keys distinct.
    pub(super) proof fn lemma_added_live_wf(&self, before: &Self, handle: usize, slot: usize, key: K, value: V)
        requires
            before.wf(),
            self.added_from(before, handle, slot, key, value),
        ensures
            self.live_wf(),
    {
        reveal(LinkedOpenAddressing::live_wf);
        self.lemma_added_live(before, handle, slot, key, value);
        before.lemma_contains_key(key@);
        assert forall|h: usize| #[trigger] self.live(h) implies self.nodes@[h as int].value is Some by {
            if h != handle {
                assert(before.live(h));
            }
        }
        assert forall|h1: usize, h2: usize|
            #[trigger] self.live(h1) && #[trigger] self.live(h2) && h1 != h2 implies self.nodes@[h1 as int].key@
            != self.nodes@[h2 as int].key@ by {
            if h1 != handle {
                assert(before.live(h1));
            }
            if h2 != handle {
                assert(before.live(h2));
            }
        }
    }

    /// Adding an entry binds its slot to its node and keeps the other slots.
    pub(super) proof fn lemma_added_slots(&self, before: &Self, handle: usize, slot: usize, key: K, value: V)
        requires
            before.wf(),
            self.added_from(before, handle, slot, key, value),
        ensures
            self.slots_wf(),
    {
        reveal(LinkedOpenAddressing::slots_wf);
        self.lemma_added_live(before, handle, slot, key, value);
        assert forall|h: usize| #[trigger] self.live(h) implies self.place@[h as int] < self.slots@.len()
            && self.slots@[self.place@[h as int] as int] == Slot::Occupied(h) by {
            if h != handle {
                assert(before.live(h));
                assert(before.slots@[before.place@[h as int] as int] == Slot::Occupied(h));
            }
        }
        assert forall|s: int| 0 <= s < self.slots@.len() implies ((#[trigger] self.slots@[s]) matches Slot::Occupied(
            h,
        ) ==> self.live(h) && self.place@[h as int] == s) by {
            if s != slot {
                assert(self.slots@[s] == before.slots@[s]);
                if before.slots@[s] is Occupied {
                    let h = before.slots@[s]->0;
                    assert(before.live(h));
                }
            }
        }
    }

    /// Adding an entry keeps the probe paths free of `Empty` slots, and lays
    /// the path of the new entry over bound slots.
    pub(super) proof fn lemma_added_paths(&self, before: &Self, handle: usize, slot: usize, key: K, value: V)
        requires
            before.wf(),
            self.added_from(before, handle, slot, key, value),
        ensures
            self.paths_wf(),
    {
        reveal(LinkedOpenAddressing::paths_wf);
        reveal(LinkedOpenAddressing::slots_wf);
        self.lemma_added_live(before, handle, slot, key, value);
        let cap = self.capacity as int;
        assert forall|h: usize, d: int|
            #![trigger self.live(h), slot_at(self.home(self.nodes@[h as int].key@), d, self.capacity as int)]
            self.live(h) && 0 <= d < steps_between(
                self.home(self.nodes@[h as int].key@),
                self.place@[h as int] as int,
                self.capacity as int,
            ) implies !(self.slots@[slot_at(
            self.home(self.nodes@[h as int].key@),
            d,
            self.capacity as int,
        )] is Empty) by {
            if h != handle {
                assert(before.live(h));
                assert(self.nodes@[h as int].key == before.nodes@[h as int].key);
                let s = slot_at(before.home(before.nodes@[h as int].key@), d, before.capacity as int);
                assert(!(before.slots@[s] is Empty));
            } else {
                assert(before.slots@[slot_at(before.home(key@), d, cap)] is Occupied);
            }
        }
    }

    /// Adding an entry puts it at the end of the entries.
    pub(super) proof fn lemma_added_view(&self, before: &Self, handle: usize, slot: usize, key: K, value: V)
        requires
            before.wf(),
            self.added_from(before, handle, slot, key, value),
        ensures
            self@ == before@.insert(key@, value),
    {
        let order = before.order@;
        let after = self.order@;
        assert(self@.entries =~= before@.entries.push((key@, value))) by {
            assert forall|i: int| 0 <= i < after.len() implies self@.entries[i] == before@.entries.push(
                (key@, value),
            )[i] by {
                if i < order.len() {
                    assert(after[i] == order[i]);
                    assert(before.live(order[i]));
                    before.lemma_live_in_store(order[i]);
                }
            }
        }
    }

    /// The table after an entry for a new key was added is well formed, and
    /// holds what the model says.
    pub(super) proof fn lemma_added(&self, before: &Self, handle: usize, slot: usize, key: K, value: V)
        requires
            before.wf(),
            self.added_from(before, handle, slot, key, value),
        ensures
            self.wf(),
            self@ == before@.insert(key@, value),
    {
        self.lemma_added_live_wf(before, handle, slot, key, value);
        self.lemma_added_slots(before, handle, slot, key, value);
        self.lemma_added_paths(before, handle, slot, key, value);
        self.lemma_added_view(before, handle, slot, key, value);
        assert(used_slots(self.slots@).len() <= self.nodes@.len()) by {
            Self::lemma_used_slots_finite(before.slots@);
            assert(used_slots(self.slots@).subset_of(used_slots(before.slots@).insert(slot as int)));
            lemma_len_subset(used_slots(self.slots@), used_slots(before.slots@).insert(slot as int));
        }
    }

    /// Removing an entry leaves the other nodes live, and no others.
    pub(super) proof fn lemma_removed_live(&self, before: &Self, handle: usize, slot: usize)
        requires
            before.wf(),
            self.removed_from(before, handle, slot),
        ensures
            forall|g: usize| self.live(g) <==> (before.live(g) && g != handle),
    {
        reveal(LinkedOpenAddressing::list_wf);
        let order = before.order@;
        let idx = order.index_of(handle);
        let after = self.order@;
        assert(order[idx] == handle);
        assert forall|g: usize| self.live(g) <==> (before.live(g) && g != handle) by {
            if before.live(g) && g != handle {
                let i = order.index_of(g);
                assert(order[i] == g);
                if i < idx {
                    assert(after[i] == g);
                } else {
                    assert(after[i - 1] == g);
                }
            }
            if self.live(g) {
                let i = after.index_of(g);
                assert(after[i] == g);
                let oi = if i < idx { i } else { i + 1 };
                assert(order[oi] == g);
                assert(order[oi] != order[idx]);
            }
        }
    }

    /// Removing an entry keeps the live nodes valued and their keys distinct.
    pub(super) proof fn lemma_removed_live_wf(&self, before: &Self, handle: usize, slot: usize)
        requires
            before.wf(),
            self.removed_from(before, handle, slot),
        ensures
            self.live_wf(),
    {
        reveal(LinkedOpenAddressing::live_wf);
        self.lemma_removed_live(before, handle, slot);
        assert forall|h: usize| #[trigger] self.live(h) implies self.nodes@[h as int].value is Some by {
            assert(before.live(h));
            before.lemma_live_in_store(h);
        }
        assert forall|h1: usize, h2: usize|
            #[trigger] self.live(h1) && #[trigger] self.live(h2) && h1 != h2 implies self.nodes@[h1 as int].key@
            != self.nodes@[h2 as int].key@ by {
            assert(before.live(h1) && before.live(h2));
            before.lemma_live_in_store(h1);
            before.lemma_live_in_store(h2);
        }
    }

    /// Removing an entry unbinds its slot and keeps the other slots.
    pub(super) proof fn lemma_removed_slots(&self, before: &Self, handle: usize, slot: usize)
        requires
            before.wf(),
            self.removed_from(before, handle, slot),
        ensures
            self.slots_wf(),
    {
        reveal(LinkedOpenAddressing::slots_wf);
        self.lemma_removed_live(before, handle, slot);
        assert forall|h: usize| #[trigger] self.live(h) implies self.place@[h as int] < self.slots@.len()
            && self.slots@[self.place@[h as int] as int] == Slot::Occupied(h) by {
            assert(before.live(h));
            assert(before.slots@[before.place@[h as int] as int] == Slot::Occupied(h));
        }
        assert forall|s: int| 0 <= s < self.slots@.len() implies ((#[trigger] self.slots@[s]) matches Slot::Occupied(
            h,
        ) ==> self.live(h) && self.place@[h as int] == s) by {
            if s != slot {
                assert(self.slots@[s] == before.slots@[s]);
                if before.slots@[s] is Occupied {
                    let h = before.slots@[s]->0;
                    assert(before.live(h));
                }
            }
        }
    }

    /// Removing an entry keeps the probe paths free of `Empty` slots: its
    /// slot holds a tombstone.
    pub(super) proof fn lemma_removed_paths(&self, before: &Self, handle: usize, slot: usize)
        requires
            before.wf(),
            self.removed_from(before, handle, slot),
        ensures
            self.paths_wf(),
    {
        reveal(LinkedOpenAddressing::paths_wf);
        reveal(LinkedOpenAddressing::slots_wf);
        self.lemma_removed_live(before, handle, slot);
        assert forall|h: usize, d: int|
            #![trigger self.live(h), slot_at(self.home(self.nodes@[h as int].key@), d, self.capacity as int)]
            self.live(h) && 0 <= d < steps_between(
                self.home(self.nodes@[h as int].key@),
                self.place@[h as int] as int,
                self.capacity as int,
            ) implies !(self.slots@[slot_at(
            self.home(self.nodes@[h as int].key@),
            d,
            self.capacity as int,
        )] is Empty) by {
            assert(before.live(h));
            before.lemma_live_in_store(h);
            assert(self.nodes@[h as int].key == before.nodes@[h as int].key);
            let s = slot_at(before.home(before.nodes@[h as int].key@), d, before.capacity as int);
            assert(!(before.slots@[s] is Empty));
        }
    }

    /// Removing an entry takes it out of the entries and keeps the order of
    /// the others.
    pub(super) proof fn lemma_removed_view(&self, before: &Self, handle: usize, slot: usize)
        requires
            before.wf(),
            self.removed_from(before, handle, slot),
        ensures
            self@ == before@.remove(before.nodes@[handle as int].key@),
    {
        reveal(LinkedOpenAddressing::list_wf);
        let order = before.order@;
        let idx = order.index_of(handle);
        let after = self.order@;
        before.lemma_index_of_live(handle);
        assert(self@.entries =~= before@.entries.remove(idx)) by {
            assert forall|i: int| 0 <= i < after.len() implies self@.entries[i] == before@.entries.remove(
                idx,
            )[i] by {
                let oi = if i < idx { i } else { i + 1 };
                assert(after[i] == order[oi]);
                assert(order[oi] != order[idx]);
            }
        }
    }

    /// The table after the entry of a live node was removed is well formed,
    /// and holds what the model says.
    pub(super) proof fn lemma_removed(&self, before: &Self, handle: usize, slot: usize)
        requires
            before.wf(),
            self.removed_from(before, handle, slot),
        ensures
            self.wf(),
            self@ == before@.remove(before.nodes@[handle as int].key@),
    {
        self.lemma_removed_live_wf(before, handle, slot);
        self.lemma_removed_slots(before, handle, slot);
        self.lemma_removed_paths(before, handle, slot);
        self.lemma_removed_view(before, handle, slot);
        assert(used_slots(self.slots@) =~= used_slots(before.slots@));
        assert(self.order@.len() == before.order@.len() - 1);
    }
}

} // verus!
