//! The hash function of a table: a capability that is handed in when the table
//! is built, and that the table asks for the home slot of each key.

use vstd::prelude::*;
use vstd::utf8::encode_utf8;

verus! {

/// A hash function on keys of type `K`.
///
/// A table probes from the slot that the hash of a key names, so it finds a
/// key again only if the same key always hashes to the same value. The
/// contract of `hash_key` says so: what it returns is `spec_hash` of the
/// view of the key. The hashers of this crate are verified; one that is
/// written elsewhere is taken at its word.
pub trait KeyHasher<K: View> {
    /// The hash of a key, as a mathematical function of the hasher and of
    /// the view of the key.
    spec fn spec_hash(&self, key: K::V) -> u64;

    /// Computes the hash of `key`.
    fn hash_key(&self, key: &K) -> (hash: u64)
        ensures
            hash == self.spec_hash(key@),
    ;
}

/// A hasher that gives every key the same hash: the worst case for a table,
/// in which all keys compete for one home slot.
#[derive(Clone, Copy, Debug)]
pub struct FixedHasher {
    /// The hash of every key.
    pub value: u64,
}

impl FixedHasher {
    /// A hasher that maps every key to `value`.
    pub fn new(value: u64) -> (hasher: Self)
        ensures
            hasher.value == value,
    {
        FixedHasher { value }
    }
}

impl<K: View> KeyHasher<K> for FixedHasher {
    open spec fn spec_hash(&self, key: K::V) -> u64 {
        self.value
    }

    fn hash_key(&self, key: &K) -> (hash: u64) {
        self.value
    }
}

/// The offset basis of the 64-bit FNV-1a hash.
pub const FNV_OFFSET_BASIS: u64 = 0xcbf2_9ce4_8422_2325;

/// The prime of the 64-bit FNV-1a hash.
pub const FNV_PRIME: u64 = 0x0000_0100_0000_01b3;

/// One step of FNV-1a: mix one byte into the state.
pub open spec fn fnv1a_step(state: u64, byte: u8) -> u64 {
    (((state ^ (byte as u64)) * FNV_PRIME) % 0x1_0000_0000_0000_0000) as u64
}

/// The 64-bit FNV-1a hash of a sequence of bytes.
pub open spec fn fnv1a(bytes: Seq<u8>) -> u64
    decreases bytes.len(),
{
    if bytes.len() == 0 {
        FNV_OFFSET_BASIS
    } else {
        fnv1a_step(fnv1a(bytes.drop_last()), bytes.last())
    }
}

/// Computes the 64-bit FNV-1a hash of `bytes`.
pub fn fnv1a_bytes(bytes: &[u8]) -> (hash: u64)
    ensures
        hash == fnv1a(bytes@),
{
    let mut state: u64 = FNV_OFFSET_BASIS;
    let mut i: usize = 0;
    while i < bytes.len()
        invariant
            i <= bytes.len(),
            state == fnv1a(bytes@.take(i as int)),
        decreases bytes.len() - i,
    {
        proof {
            assert(bytes@.take(i + 1).drop_last() =~= bytes@.take(i as int));
        }
        state = (state ^ (bytes[i] as u64)).wrapping_mul(FNV_PRIME);
        i = i + 1;
    }
    proof {
        assert(bytes@.take(i as int) =~= bytes@);
    }
    state
}

/// The hasher that a table uses unless another one is handed in: FNV-1a over
/// the bytes of the key.
#[derive(Clone, Copy, Debug)]
pub struct Fnv1aHasher;

impl Fnv1aHasher {
    /// The hasher. It holds no state.
    pub fn new() -> Self {
        Fnv1aHasher
    }
}

impl<'a> KeyHasher<&'a str> for Fnv1aHasher {
    open spec fn spec_hash(&self, key: Seq<char>) -> u64 {
        fnv1a(encode_utf8(key))
    }

    fn hash_key(&self, key: &&'a str) -> (hash: u64) {
        fnv1a_bytes(key.as_bytes())
    }
}

/// The eight bytes of a number, the least significant first.
pub open spec fn le_bytes(key: u64) -> Seq<u8> {
    Seq::new(8, |i: int| ((key >> ((8 * i) as u64)) & 0xff) as u8)
}

/// Computes the 64-bit FNV-1a hash of the eight bytes of a number.
pub fn fnv1a_u64(key: u64) -> (hash: u64)
    ensures
        hash == fnv1a(le_bytes(key)),
{
    let mut state: u64 = FNV_OFFSET_BASIS;
    let mut i: u64 = 0;
    while i < 8
        invariant
            i <= 8,
            state == fnv1a(le_bytes(key).take(i as int)),
        decreases 8 - i,
    {
        let byte = ((key >> (8 * i)) & 0xff) as u8;
        proof {
            assert(le_bytes(key).take(i + 1).drop_last() =~= le_bytes(key).take(i as int));
            assert(le_bytes(key).take(i + 1).last() == byte);
        }
        state = (state ^ (byte as u64)).wrapping_mul(FNV_PRIME);
        i = i + 1;
    }
    proof {
        assert(le_bytes(key).take(8) =~= le_bytes(key));
    }
    state
}

impl KeyHasher<u64> for Fnv1aHasher {
    open spec fn spec_hash(&self, key: u64) -> u64 {
        fnv1a(le_bytes(key))
    }

    fn hash_key(&self, key: &u64) -> (hash: u64) {
        fnv1a_u64(*key)
    }
}

impl KeyHasher<usize> for Fnv1aHasher {
    open spec fn spec_hash(&self, key: usize) -> u64 {
        fnv1a(le_bytes(key as u64))
    }

    fn hash_key(&self, key: &usize) -> (hash: u64) {
        fnv1a_u64(*key as u64)
    }
}

impl KeyHasher<String> for Fnv1aHasher {
    open spec fn spec_hash(&self, key: Seq<char>) -> u64 {
        fnv1a(encode_utf8(key))
    }

    fn hash_key(&self, key: &String) -> (hash: u64) {
        fnv1a_bytes(key.as_str().as_bytes())
    }
}

} // verus!
