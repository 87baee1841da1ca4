use hash_table::table::error::TableError;
use hash_table::table::hasher::{fnv1a_bytes, FixedHasher, Fnv1aHasher, KeyHasher};
use hash_table::table::key::TableKey;
use hash_table::table::linked_open_addressing::{LinkedOpenAddressing, Probe};
use hash_table::{HashTable, LinkedHashTable};

#[test]
fn basic_usage_example() {
    let mut table = LinkedHashTable::new(5).unwrap();
    table.insert("PI", 314).unwrap();
    assert_eq!(table.get(&"PI"), Some(&314));
}

#[test]
fn test_insert_and_get() {
    let mut table = LinkedOpenAddressing::new(5).unwrap();

    // Insert a key-value pair
    assert_eq!(table.insert("TravelersGuide", 42), Ok(None));

    // Now retrieve it
    assert_eq!(table.get(&"TravelersGuide"), Some(&42));

    // Confirm length is correct
    assert_eq!(table.len(), 1);
}

#[test]
fn test_update_existing_key() {
    let mut table = LinkedOpenAddressing::new(5).unwrap();

    table.insert("Injective", 55).unwrap();
    assert_eq!(table.insert("Injective", 120), Ok(Some(55)));
    assert_eq!(table.get(&"Injective"), Some(&120));
}

#[test]
fn test_remove() {
    let mut table = LinkedOpenAddressing::new(5).unwrap();

    table.insert("Bitcoin", 125000).unwrap();
    table.insert("Ethereum", 12728).unwrap();

    assert_eq!(table.remove(&"Bitcoin"), Some(125000));
    assert_eq!(table.get(&"Bitcoin"), None);
    assert_eq!(table.len(), 1);
}

#[test]
fn test_ordering() {
    let mut table = LinkedOpenAddressing::new(5).unwrap();

    table.insert("Celestia", 25).unwrap();
    table.insert("Casper", 2).unwrap();
    table.insert("Akash", 15).unwrap();

    assert_eq!(table.get_first(), Some((&"Celestia", &25)));
    assert_eq!(table.get_last(), Some((&"Akash", &15)));

    // Update Celestia key
    table.insert("Celestia", 35).unwrap();

    // Now "Celestia" should be the most recent
    assert_eq!(table.get_first(), Some((&"Casper", &2)));
    assert_eq!(table.get_last(), Some((&"Celestia", &35)));
}

#[test]
fn test_collisions() {
    // A hasher that gives every key the same hash
    let mut table = LinkedOpenAddressing::with_hasher(5, FixedHasher::new(0)).unwrap();

    // All these keys will hash to the same slot (0)
    table.insert("Ripple", 1).unwrap();
    table.insert("Stellar", 2).unwrap();
    table.insert("Hedera", 3).unwrap();

    assert_eq!(table.get(&"Ripple"), Some(&1));
    assert_eq!(table.get(&"Stellar"), Some(&2));
    assert_eq!(table.get(&"Hedera"), Some(&3));
}

#[test]
fn end_to_end_scenario() {
    let mut table = LinkedOpenAddressing::new(5).unwrap();
    assert_eq!(table.insert("Celestia", 25), Ok(None));
    assert_eq!(table.insert("Casper", 2), Ok(None));
    assert_eq!(table.insert("Akash", 15), Ok(None));
    assert_eq!(table.get_first(), Some((&"Celestia", &25)));
    assert_eq!(table.get_last(), Some((&"Akash", &15)));
    assert_eq!(table.insert("Celestia", 35), Ok(Some(25)));
    assert_eq!(table.get_first(), Some((&"Casper", &2)));
    assert_eq!(table.get_last(), Some((&"Celestia", &35)));
    assert_eq!(table.get(&"Celestia"), Some(&35));
    assert_eq!(table.len(), 3);
}

#[test]
fn zero_capacity_is_refused() {
    let made = LinkedOpenAddressing::<u64, u64>::new(0);
    assert!(matches!(made, Err(TableError::ZeroCapacity)));
    let made = LinkedOpenAddressing::<u64, u64, FixedHasher>::with_hasher(0, FixedHasher::new(3));
    assert!(matches!(made, Err(TableError::ZeroCapacity)));
}

#[test]
fn new_table_is_empty() {
    let table = LinkedOpenAddressing::<u64, u64>::new(1).unwrap();
    assert_eq!(table.len(), 0);
    assert!(table.is_empty());
    assert_eq!(table.get_first(), None);
    assert_eq!(table.get_last(), None);
    assert_eq!(table.get(&1), None);
}

#[test]
fn round_trip_grows_by_one() {
    let mut table = LinkedOpenAddressing::<u64, &str>::new(4).unwrap();
    table.insert(10, "ten").unwrap();
    let before = table.len();
    assert_eq!(table.insert(20, "twenty"), Ok(None));
    assert_eq!(table.get(&20), Some(&"twenty"));
    assert_eq!(table.len(), before + 1);
    assert!(!table.is_empty());
}

#[test]
fn update_keeps_length_and_moves_to_last() {
    let mut table = LinkedOpenAddressing::<u64, u64>::new(4).unwrap();
    table.insert(1, 100).unwrap();
    table.insert(2, 200).unwrap();
    table.insert(3, 300).unwrap();
    assert_eq!(table.insert(2, 222), Ok(Some(200)));
    assert_eq!(table.len(), 3);
    assert_eq!(table.get_last(), Some((&2, &222)));
    assert_eq!(table.get_first(), Some((&1, &100)));
}

#[test]
fn removal_of_present_and_absent_keys() {
    let mut table = LinkedOpenAddressing::<u64, u64>::new(4).unwrap();
    table.insert(1, 100).unwrap();
    table.insert(2, 200).unwrap();
    assert_eq!(table.remove(&3), None);
    assert_eq!(table.len(), 2);
    assert_eq!(table.remove(&1), Some(100));
    assert_eq!(table.get(&1), None);
    assert_eq!(table.len(), 1);
    assert_eq!(table.remove(&1), None);
    assert_eq!(table.len(), 1);
    assert_eq!(table.get_first(), Some((&2, &200)));
    assert_eq!(table.get_last(), Some((&2, &200)));
    assert_eq!(table.remove(&2), Some(200));
    assert!(table.is_empty());
    assert_eq!(table.get_first(), None);
    assert_eq!(table.get_last(), None);
}

#[test]
fn removal_from_the_middle_keeps_the_order() {
    let mut table = LinkedOpenAddressing::<u64, u64>::new(5).unwrap();
    for k in 1..=4u64 {
        table.insert(k, k * 10).unwrap();
    }
    assert_eq!(table.remove(&2), Some(20));
    assert_eq!(table.get_first(), Some((&1, &10)));
    assert_eq!(table.get_last(), Some((&4, &40)));
    assert_eq!(table.remove(&1), Some(10));
    assert_eq!(table.get_first(), Some((&3, &30)));
    assert_eq!(table.remove(&4), Some(40));
    assert_eq!(table.get_last(), Some((&3, &30)));
}

#[test]
fn lookup_does_not_touch_the_order() {
    let mut table = LinkedOpenAddressing::<u64, u64>::new(3).unwrap();
    table.insert(1, 10).unwrap();
    table.insert(2, 20).unwrap();
    table.insert(3, 30).unwrap();
    assert_eq!(table.get(&1), Some(&10));
    assert_eq!(table.get(&3), Some(&30));
    assert_eq!(table.get(&9), None);
    assert_eq!(table.get_first(), Some((&1, &10)));
    assert_eq!(table.get_last(), Some((&3, &30)));
}

#[test]
fn all_keys_in_one_slot_fill_the_table() {
    let n = 8usize;
    let mut table = LinkedOpenAddressing::with_hasher(n, FixedHasher::new(0)).unwrap();
    for k in 0..n as u64 {
        assert_eq!(table.insert(k, k + 100), Ok(None));
    }
    for k in 0..n as u64 {
        assert_eq!(table.get(&k), Some(&(k + 100)));
    }
    assert_eq!(table.len(), n);
}

#[test]
fn full_table_rejects_a_new_key() {
    let mut table = LinkedOpenAddressing::<u64, u64>::new(3).unwrap();
    table.insert(1, 10).unwrap();
    table.insert(2, 20).unwrap();
    table.insert(3, 30).unwrap();
    assert_eq!(table.insert(4, 40), Err(TableError::CapacityExceeded));
    assert_eq!(table.len(), 3);
    assert_eq!(table.get(&1), Some(&10));
    assert_eq!(table.get(&2), Some(&20));
    assert_eq!(table.get(&3), Some(&30));
    assert_eq!(table.get(&4), None);
    assert_eq!(table.get_first(), Some((&1, &10)));
    assert_eq!(table.get_last(), Some((&3, &30)));
}

#[test]
fn full_table_takes_an_update() {
    let mut table = LinkedOpenAddressing::<u64, u64>::new(2).unwrap();
    table.insert(1, 10).unwrap();
    table.insert(2, 20).unwrap();
    assert_eq!(table.insert(1, 11), Ok(Some(10)));
    assert_eq!(table.len(), 2);
    assert_eq!(table.get_first(), Some((&2, &20)));
    assert_eq!(table.get_last(), Some((&1, &11)));
}

#[test]
fn handles_are_not_handed_out_again() {
    let mut table = LinkedOpenAddressing::<u64, u64>::new(2).unwrap();
    table.insert(1, 10).unwrap();
    table.insert(2, 20).unwrap();
    assert_eq!(table.remove(&1), Some(10));
    assert_eq!(table.len(), 1);
    // One entry is live, but both handles were handed out.
    assert_eq!(table.insert(3, 30), Err(TableError::CapacityExceeded));
    assert_eq!(table.len(), 1);
    assert_eq!(table.get(&2), Some(&20));
    assert_eq!(table.insert(2, 21), Ok(Some(20)));
}

#[test]
fn tombstone_is_walked_past_and_taken_again() {
    let mut table = LinkedOpenAddressing::with_hasher(4, FixedHasher::new(2)).unwrap();
    table.insert("a", 1).unwrap();
    table.insert("b", 2).unwrap();
    table.insert("c", 3).unwrap();
    assert_eq!(table.probe(&"a"), Ok(Probe::Found(2)));
    assert_eq!(table.probe(&"b"), Ok(Probe::Found(3)));
    assert_eq!(table.probe(&"c"), Ok(Probe::Found(0)));
    assert_eq!(table.probe(&"d"), Ok(Probe::InsertAt(1)));
    assert_eq!(table.remove(&"b"), Some(2));
    // The probe for "c" walks past the tombstone that "b" left.
    assert_eq!(table.get(&"c"), Some(&3));
    assert_eq!(table.probe(&"c"), Ok(Probe::Found(0)));
    // A new key takes the earliest tombstone before the empty slot.
    assert_eq!(table.probe(&"d"), Ok(Probe::InsertAt(3)));
    assert_eq!(table.insert("d", 4), Ok(None));
    assert_eq!(table.probe(&"d"), Ok(Probe::Found(3)));
    assert_eq!(table.get(&"d"), Some(&4));
    assert_eq!(table.get_last(), Some((&"d", &4)));
}

#[test]
fn probe_of_a_saturated_table_is_exhausted() {
    let mut table = LinkedOpenAddressing::with_hasher(2, FixedHasher::new(7)).unwrap();
    table.insert(1u64, 1u64).unwrap();
    table.insert(2u64, 2u64).unwrap();
    assert_eq!(table.index_for(&1), 1);
    assert_eq!(table.probe(&1), Ok(Probe::Found(1)));
    assert_eq!(table.probe(&2), Ok(Probe::Found(0)));
    assert_eq!(table.probe(&3), Err(TableError::ProbeExhausted));
}

/// A hasher written outside the library: the sum of the bytes of the key.
struct ByteSum;

impl<'a> KeyHasher<&'a str> for ByteSum {
    fn spec_hash(&self, _key: <&'a str as vstd::view::View>::V) -> u64 {
        unreachable!()
    }

    fn hash_key(&self, key: &&'a str) -> u64 {
        key.bytes().map(u64::from).sum()
    }
}

#[test]
fn a_hasher_of_the_caller_is_taken() {
    let mut table = LinkedOpenAddressing::with_hasher(3, ByteSum).unwrap();
    // "ab" and "ba" have the same hash.
    table.insert("ab", 1).unwrap();
    table.insert("ba", 2).unwrap();
    assert_eq!(table.index_for(&"ab"), (97 + 98) % 3);
    assert_eq!(table.get(&"ab"), Some(&1));
    assert_eq!(table.get(&"ba"), Some(&2));
}

#[test]
fn fnv1a_of_known_inputs() {
    assert_eq!(fnv1a_bytes(b""), 0xcbf29ce484222325);
    assert_eq!(fnv1a_bytes(b"a"), 0xaf63dc4c8601ec8c);
    assert_eq!(fnv1a_bytes(b"foobar"), 0x85944171f73967e8);
    let hasher = Fnv1aHasher::new();
    assert_eq!(hasher.hash_key(&"foobar"), 0x85944171f73967e8);
    assert_eq!(hasher.hash_key(&String::from("a")), 0xaf63dc4c8601ec8c);
    assert_eq!(hasher.hash_key(&0x61u64), fnv1a_bytes(&[0x61, 0, 0, 0, 0, 0, 0, 0]));
    assert_eq!(KeyHasher::<u64>::hash_key(&FixedHasher::new(9), &5), 9);
}

#[test]
fn error_messages() {
    assert_eq!(TableError::ZeroCapacity.message(), "Cannot create a 0-capacity hash table.");
    assert_eq!(TableError::CapacityExceeded.message(), "Hash table is full, cannot insert new key!");
    assert_eq!(TableError::ProbeExhausted.message(), "Hash table is completely full!");
}

#[test]
fn string_keys_count_words() {
    let mut table = LinkedHashTable::<String, u32>::new(4).unwrap();
    for word in ["it", "was", "the", "best", "it", "was", "the"] {
        let count = match table.get(&word.to_string()) {
            Some(&count) => count + 1,
            None => 1,
        };
        table.insert(word.to_string(), count).unwrap();
    }
    assert_eq!(table.len(), 4);
    assert_eq!(table.get(&"it".to_string()), Some(&2));
    assert_eq!(table.get(&"best".to_string()), Some(&1));
    assert_eq!(table.get_first(), Some((&"best".to_string(), &1)));
    assert_eq!(table.get_last(), Some((&"the".to_string(), &2)));
}

/// The plain list that a table is checked against: the entries in the order
/// of their last write, and the number of handles handed out.
struct PlainList {
    entries: Vec<(u64, u64)>,
    capacity: usize,
    allocated: usize,
}

impl PlainList {
    fn insert(&mut self, key: u64, value: u64) -> Result<Option<u64>, TableError> {
        if let Some(at) = self.entries.iter().position(|e| e.0 == key) {
            let old = self.entries.remove(at).1;
            self.entries.push((key, value));
            Ok(Some(old))
        } else if self.entries.len() < self.capacity && self.allocated < self.capacity {
            self.entries.push((key, value));
            self.allocated += 1;
            Ok(None)
        } else {
            Err(TableError::CapacityExceeded)
        }
    }

    fn remove(&mut self, key: u64) -> Option<u64> {
        let at = self.entries.iter().position(|e| e.0 == key)?;
        Some(self.entries.remove(at).1)
    }
}

fn run_against_plain_list<H: KeyHasher<u64>>(hasher: H, capacity: usize, seed: u64, steps: usize) {
    let mut table = LinkedOpenAddressing::with_hasher(capacity, hasher).unwrap();
    let mut plain = PlainList { entries: Vec::new(), capacity, allocated: 0 };
    let mut state = seed;
    for _ in 0..steps {
        state = state.wrapping_mul(6364136223846793005).wrapping_add(1442695040888963407);
        let key = (state >> 33) % 12;
        let value = state >> 40;
        match (state >> 20) % 4 {
            0 | 1 => assert_eq!(table.insert(key, value), plain.insert(key, value)),
            2 => assert_eq!(table.remove(&key), plain.remove(key)),
            _ => {
                let expected = plain.entries.iter().find(|e| e.0 == key).map(|e| &e.1);
                assert_eq!(table.get(&key), expected);
            }
        }
        assert_eq!(table.len(), plain.entries.len());
        assert_eq!(table.is_empty(), plain.entries.is_empty());
        assert_eq!(table.get_first(), plain.entries.first().map(|e| (&e.0, &e.1)));
        assert_eq!(table.get_last(), plain.entries.last().map(|e| (&e.0, &e.1)));
        for k in 0..12u64 {
            let expected = plain.entries.iter().find(|e| e.0 == k).map(|e| &e.1);
            assert_eq!(table.get(&k), expected);
        }
    }
}

#[test]
fn table_agrees_with_a_plain_list() {
    for seed in 1..=20u64 {
        run_against_plain_list(Fnv1aHasher::new(), 8, seed, 60);
        run_against_plain_list(FixedHasher::new(seed), 8, seed, 60);
        run_against_plain_list(Fnv1aHasher::new(), 1, seed, 20);
        run_against_plain_list(FixedHasher::new(0), 200, seed, 300);
    }
}

#[test]
fn keys_are_told_apart_by_what_they_hold() {
    assert!(7u64.same_key(&7));
    assert!(!7u64.same_key(&8));
    assert!(7usize.same_key(&7));
    assert!(!0usize.same_key(&1));
    assert!("abc".same_key(&"abc"));
    assert!(!"abc".same_key(&"abd"));
    assert!(String::from("x").same_key(&String::from("x")));
    assert!(!String::from("x").same_key(&String::from("")));
}
