//! What holds of every table, proved over the model in which the contracts
//! of the operations are stated.

use crate::table::error::TableError;
use crate::table::model::TableModel;
use vstd::prelude::*;

verus! {

/// In a valid table an entry is found under its key, at its own place.
pub proof fn lemma_entry_is_found<K, V>(m: TableModel<K, V>, i: int)
    requires
        m.valid(),
        0 <= i < m.entries.len(),
    ensures
        m.contains_key(m.entries[i].0),
        m.index_of(m.entries[i].0) == i,
        m.get(m.entries[i].0) == Some(m.entries[i].1),
{
    let key = m.entries[i].0;
    let j = m.index_of(key);
    assert(m.entries[j].0 == key);
    if i < j {
        assert(m.entries[i].0 != m.entries[j].0);
    }
    if j < i {
        assert(m.entries[j].0 != m.entries[i].0);
    }
}

/// A key that is absent from a table is the key of none of its entries.
pub proof fn lemma_absent_key<K, V>(m: TableModel<K, V>, key: K, i: int)
    requires
        !m.contains_key(key),
        0 <= i < m.entries.len(),
    ensures
        m.entries[i].0 != key,
{
}

/// A table never holds more entries than its capacity: a table that was just
/// built is valid, and `insert` and `remove` take valid tables to valid tables.
pub proof fn lemma_capacity_is_kept<K, V>(m: TableModel<K, V>, key: K, value: V)
    requires
        m.valid(),
    ensures
        m.insert(key, value).valid(),
        m.remove(key).valid(),
        m.insert(key, value).len() <= m.capacity,
        m.remove(key).len() <= m.capacity,
        m.insert(key, value).capacity == m.capacity,
        m.remove(key).capacity == m.capacity,
        m.capacity > 0 ==> TableModel::<K, V>::empty(m.capacity).valid(),
{
    if m.contains_key(key) {
        let idx = m.index_of(key);
        assert(m.entries[idx].0 == key);
        let rest = m.entries.remove(idx);
        assert forall|i: int, j: int| 0 <= i < j < rest.len() implies rest[i].0 != rest[j].0 by {
            let oi = if i < idx { i } else { i + 1 };
            let oj = if j < idx { j } else { j + 1 };
            assert(rest[i] == m.entries[oi] && rest[j] == m.entries[oj]);
        }
        let written = rest.push((key, value));
        assert forall|i: int, j: int| 0 <= i < j < written.len() implies written[i].0 != written[j].0 by {
            let oi = if i < idx { i } else { i + 1 };
            assert(written[i] == m.entries[oi]);
            if j < rest.len() {
                let oj = if j < idx { j } else { j + 1 };
                assert(written[j] == m.entries[oj]);
            } else {
                if oi < idx {
                    assert(m.entries[oi].0 != m.entries[idx].0);
                } else {
                    assert(m.entries[idx].0 != m.entries[oi].0);
                }
            }
        }
    } else if m.has_room() {
        let written = m.entries.push((key, value));
        assert forall|i: int, j: int| 0 <= i < j < written.len() implies written[i].0 != written[j].0 by {
            if j == m.entries.len() {
                lemma_absent_key(m, key, i);
            }
        }
    }
}

/// Round trip: a key that is new to a table with room for it is taken, is
/// then found with the value that was stored, and makes the table longer by
/// one entry.
pub proof fn lemma_insert_then_get<K, V>(m: TableModel<K, V>, key: K, value: V)
    requires
        m.valid(),
        !m.contains_key(key),
        m.has_room(),
    ensures
        m.insert_result(key) == Ok::<Option<V>, TableError>(None),
        m.insert(key, value).get(key) == Some(value),
        m.insert(key, value).len() == m.len() + 1,
        m.insert(key, value).last() == Some((key, value)),
{
    lemma_capacity_is_kept(m, key, value);
    let after = m.insert(key, value);
    lemma_entry_is_found(after, after.entries.len() - 1);
}

/// Update: writing a key that has an entry returns the value it had, leaves
/// the number of entries as it was, and makes the entry the most recent one,
/// with the new value.
pub proof fn lemma_insert_present<K, V>(m: TableModel<K, V>, key: K, value: V)
    requires
        m.valid(),
        m.contains_key(key),
    ensures
        m.get(key) is Some,
        m.insert_result(key) == Ok::<Option<V>, TableError>(m.get(key)),
        m.insert(key, value).len() == m.len(),
        m.insert(key, value).last() == Some((key, value)),
        m.insert(key, value).get(key) == Some(value),
        m.insert(key, value).allocated == m.allocated,
{
    lemma_capacity_is_kept(m, key, value);
    let idx = m.index_of(key);
    assert(m.entries[idx].0 == key);
    let after = m.insert(key, value);
    lemma_entry_is_found(after, after.entries.len() - 1);
}

/// Removal of a key that has an entry returns its value, leaves the key
/// absent, and makes the table shorter by one entry.
pub proof fn lemma_remove_present<K, V>(m: TableModel<K, V>, key: K)
    requires
        m.valid(),
        m.contains_key(key),
    ensures
        m.remove_result(key) == m.get(key),
        m.remove_result(key) is Some,
        !m.remove(key).contains_key(key),
        m.remove(key).get(key) is None,
        m.remove(key).len() == m.len() - 1,
{
    let idx = m.index_of(key);
    assert(m.entries[idx].0 == key);
    let rest = m.remove(key);
    if rest.contains_key(key) {
        let i = rest.index_of(key);
        assert(rest.entries[i].0 == key);
        let oi = if i < idx { i } else { i + 1 };
        assert(rest.entries[i] == m.entries[oi]);
        if oi < idx {
            assert(m.entries[oi].0 != m.entries[idx].0);
        } else {
            assert(m.entries[idx].0 != m.entries[oi].0);
        }
    }
}

/// Removal of a key that has no entry returns nothing and changes nothing.
pub proof fn lemma_remove_absent<K, V>(m: TableModel<K, V>, key: K)
    requires
        !m.contains_key(key),
    ensures
        m.remove_result(key) is None,
        m.remove(key) == m,
{
}

/// Full-table rejection: a table that holds as many entries as its capacity,
/// or that has handed out its last handle, rejects a new key and stays as it
/// was.
pub proof fn lemma_full_table_rejects<K, V>(m: TableModel<K, V>, key: K, value: V)
    requires
        m.valid(),
        !m.contains_key(key),
        m.len() == m.capacity || m.allocated == m.capacity,
    ensures
        m.insert_result(key) == Err::<Option<V>, TableError>(TableError::CapacityExceeded),
        m.insert(key, value) == m,
{
}

/// A write under one key changes what no other key is found with, whatever
/// slots the keys compete for.
pub proof fn lemma_insert_keeps_others<K, V>(m: TableModel<K, V>, key: K, value: V, other: K)
    requires
        m.valid(),
        other != key,
    ensures
        m.insert(key, value).get(other) == m.get(other),
{
    lemma_capacity_is_kept(m, key, value);
    let after = m.insert(key, value);
    if m.contains_key(other) {
        let i = m.index_of(other);
        assert(m.entries[i].0 == other);
        if m.contains_key(key) {
            let idx = m.index_of(key);
            assert(m.entries[idx].0 == key);
            let ni = if i < idx { i } else { i - 1 };
            assert(after.entries[ni] == m.entries[i]);
            lemma_entry_is_found(after, ni);
        } else if m.has_room() {
            assert(after.entries[i] == m.entries[i]);
            lemma_entry_is_found(after, i);
        }
    } else if after.contains_key(other) {
        let j = after.index_of(other);
        assert(after.entries[j].0 == other);
        if m.contains_key(key) {
            let idx = m.index_of(key);
            if j < after.entries.len() - 1 {
                let oj = if j < idx { j } else { j + 1 };
                assert(after.entries[j] == m.entries[oj]);
            }
        } else if m.has_room() {
            if j < m.entries.len() {
                assert(after.entries[j] == m.entries[j]);
            }
        }
    }
}

/// A removal under one key changes what no other key is found with.
pub proof fn lemma_remove_keeps_others<K, V>(m: TableModel<K, V>, key: K, other: K)
    requires
        m.valid(),
        other != key,
    ensures
        m.remove(key).get(other) == m.get(other),
{
    if m.contains_key(key) {
        lemma_capacity_is_kept(m, key, m.entries[0].1);
        let idx = m.index_of(key);
        assert(m.entries[idx].0 == key);
        let after = m.remove(key);
        if m.contains_key(other) {
            let i = m.index_of(other);
            assert(m.entries[i].0 == other);
            let ni = if i < idx { i } else { i - 1 };
            assert(after.entries[ni] == m.entries[i]);
            lemma_entry_is_found(after, ni);
        } else if after.contains_key(other) {
            let j = after.index_of(other);
            assert(after.entries[j].0 == other);
            let oj = if j < idx { j } else { j + 1 };
            assert(after.entries[j] == m.entries[oj]);
        }
    }
}

/// The keys of a table.
pub open spec fn keys_of<K, V>(m: TableModel<K, V>) -> Set<K> {
    Set::new(|key: K| m.contains_key(key))
}

/// A valid table holds as many entries as it has keys.
pub proof fn lemma_len_counts_keys<K, V>(m: TableModel<K, V>)
    requires
        m.valid(),
    ensures
        keys_of(m).finite(),
        keys_of(m).len() == m.len(),
{
    let keys = m.entries.map_values(|e: (K, V)| e.0);
    assert(keys.no_duplicates());
    keys.unique_seq_to_set();
    assert(keys.to_set() =~= keys_of(m)) by {
        assert forall|key: K| keys.to_set().contains(key) <==> keys_of(m).contains(key) by {
            if keys.to_set().contains(key) {
                let i = keys.index_of(key);
                assert(keys[i] == key);
                assert(m.entries[i].0 == key);
            }
            if m.contains_key(key) {
                let i = m.index_of(key);
                assert(keys[i] == key);
            }
        }
    }
}

/// After a write that was taken, the table holds the key that was written
/// and the keys that it held.
pub proof fn lemma_insert_adds_key<K, V>(m: TableModel<K, V>, key: K, value: V)
    requires
        m.valid(),
        m.contains_key(key) || m.has_room(),
    ensures
        keys_of(m.insert(key, value)) == keys_of(m).insert(key),
{
    let after = m.insert(key, value);
    assert forall|other: K| keys_of(after).contains(other) <==> keys_of(m).insert(key).contains(other) by {
        if other == key {
            if m.contains_key(key) {
                lemma_insert_present(m, key, value);
            } else {
                lemma_insert_then_get(m, key, value);
            }
        } else {
            lemma_insert_keeps_others(m, key, value, other);
        }
    }
    assert(keys_of(after) =~= keys_of(m).insert(key));
}

/// The table that an empty table of the given capacity becomes when the
/// entries of `pairs` are written to it in turn.
pub open spec fn written<K, V>(capacity: nat, pairs: Seq<(K, V)>) -> TableModel<K, V>
    decreases pairs.len(),
{
    if pairs.len() == 0 {
        TableModel::empty(capacity)
    } else {
        written(capacity, pairs.drop_last()).insert(pairs.last().0, pairs.last().1)
    }
}

/// Keys do not overwrite one another, whatever they hash to: after entries
/// with different keys, no more of them than the capacity, were written to an
/// empty table, the table holds just these entries, in the order in which
/// they were written, and each key is found with its own value. Where they
/// are as many as the capacity, any further key is rejected, and the table
/// stays as it is.
pub proof fn lemma_distinct_keys_fill<K, V>(capacity: nat, pairs: Seq<(K, V)>, key: K, value: V)
    requires
        capacity > 0,
        pairs.len() <= capacity,
        forall|i: int, j: int| 0 <= i < j < pairs.len() ==> pairs[i].0 != pairs[j].0,
    ensures
        written(capacity, pairs).valid(),
        written(capacity, pairs).entries == pairs,
        written(capacity, pairs).capacity == capacity,
        written(capacity, pairs).allocated == pairs.len(),
        forall|i: int|
            0 <= i < pairs.len() ==> written(capacity, pairs).get((#[trigger] pairs[i]).0) == Some(
                pairs[i].1,
            ),
        pairs.len() == capacity && (forall|i: int| 0 <= i < pairs.len() ==> (#[trigger] pairs[i]).0 != key)
            ==> written(capacity, pairs).insert_result(key) == Err::<Option<V>, TableError>(
            TableError::CapacityExceeded,
        ) && written(capacity, pairs).insert(key, value) == written(capacity, pairs),
    decreases pairs.len(),
{
    let table = written(capacity, pairs);
    if pairs.len() > 0 {
        let shorter = pairs.drop_last();
        let before = written(capacity, shorter);
        let last = pairs.last();
        lemma_distinct_keys_fill(capacity, shorter, key, value);
        assert(!before.contains_key(last.0)) by {
            if before.contains_key(last.0) {
                let i = before.index_of(last.0);
                assert(before.entries[i].0 == last.0);
                assert(pairs[i].0 != pairs[pairs.len() - 1].0);
            }
        }
        lemma_capacity_is_kept(before, last.0, last.1);
        assert(table.entries =~= pairs);
    }
    assert forall|i: int| 0 <= i < pairs.len() implies table.get((#[trigger] pairs[i]).0) == Some(
        pairs[i].1,
    ) by {
        lemma_entry_is_found(table, i);
    }
    if pairs.len() == capacity && (forall|i: int| 0 <= i < pairs.len() ==> (#[trigger] pairs[i]).0 != key) {
        assert(!table.contains_key(key)) by {
            if table.contains_key(key) {
                let i = table.index_of(key);
                assert(table.entries[i].0 == key);
                assert(pairs[i].0 != key);
            }
        }
    }
}

/// Recency: three new keys written in turn to an empty table leave the
/// first of them as the least recent entry and the last as the most recent
/// one. Writing the first key again moves it to the end, so the second key
/// becomes the least recent.
pub proof fn lemma_recency_order<K, V>(capacity: nat, a: (K, V), b: (K, V), c: (K, V), again: V)
    requires
        capacity >= 3,
        a.0 != b.0,
        a.0 != c.0,
        b.0 != c.0,
    ensures
        ({
            let three = TableModel::<K, V>::empty(capacity).insert(a.0, a.1).insert(b.0, b.1).insert(c.0, c.1);
            let touched = three.insert(a.0, again);
            &&& three.entries == seq![a, b, c]
            &&& three.first() == Some(a)
            &&& three.last() == Some(c)
            &&& touched.entries == seq![b, c, (a.0, again)]
            &&& touched.first() == Some(b)
            &&& touched.last() == Some((a.0, again))
        }),
{
    let m0 = TableModel::<K, V>::empty(capacity);
    let m1 = m0.insert(a.0, a.1);
    assert(!m0.contains_key(a.0));
    assert(m1.entries =~= seq![a]);
    lemma_capacity_is_kept(m0, a.0, a.1);
    assert(!m1.contains_key(b.0)) by {
        if m1.contains_key(b.0) {
            let i = m1.index_of(b.0);
            assert(m1.entries[i].0 == b.0);
        }
    }
    let m2 = m1.insert(b.0, b.1);
    assert(m2.entries =~= seq![a, b]);
    lemma_capacity_is_kept(m1, b.0, b.1);
    assert(!m2.contains_key(c.0)) by {
        if m2.contains_key(c.0) {
            let i = m2.index_of(c.0);
            assert(m2.entries[i].0 == c.0);
        }
    }
    let m3 = m2.insert(c.0, c.1);
    assert(m3.entries =~= seq![a, b, c]);
    lemma_capacity_is_kept(m2, c.0, c.1);
    lemma_entry_is_found(m3, 0);
    let m4 = m3.insert(a.0, again);
    assert(m4.entries =~= seq![b, c, (a.0, again)]);
}

} // verus!
