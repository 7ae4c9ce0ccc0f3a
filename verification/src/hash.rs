//! Fixed-width 256-bit values: block identifiers and difficulty targets.

use vstd::prelude::*;
use crate::order::Order;
use crate::order::Ranked;

verus! {

/// The number that a byte string denotes when read big-endian.
pub open spec fn be_value(s: Seq<u8>) -> nat
    decreases s.len(),
{
    if s.len() == 0 {
        0
    } else {
        be_value(s.drop_last()) * 256 + s.last() as nat
    }
}

/// Two byte strings that agree up to position `i` and differ there are
/// ordered, as numbers, the way their bytes at `i` are.
pub proof fn lemma_first_difference(a: Seq<u8>, b: Seq<u8>, i: int, k: int)
    requires
        a.len() == b.len(),
        0 <= i < k <= a.len(),
        a.take(i) == b.take(i),
        a[i] < b[i],
    ensures
        be_value(a.take(k)) < be_value(b.take(k)),
    decreases k,
{
    assert(a.take(k).drop_last() == a.take(k - 1));
    assert(b.take(k).drop_last() == b.take(k - 1));
    assert(a.take(k).last() == a[k - 1]);
    assert(b.take(k).last() == b[k - 1]);
    if k == i + 1 {
    } else {
        lemma_first_difference(a, b, i, k - 1);
    }
}

/// Big-endian reading is injective on strings of one length.
pub proof fn lemma_be_value_injective(a: Seq<u8>, b: Seq<u8>)
    requires
        a.len() == b.len(),
        be_value(a) == be_value(b),
    ensures
        a == b,
    decreases a.len(),
{
    if a.len() > 0 {
        lemma_be_value_injective(a.drop_last(), b.drop_last());
        assert(a == a.drop_last().push(a.last()));
        assert(b == b.drop_last().push(b.last()));
    } else {
        assert(a =~= b);
    }
}

/// Compares two 32-byte strings as big-endian numbers.
pub fn compare_bytes32(a: &[u8; 32], b: &[u8; 32]) -> (o: Order)
    ensures
        o == Order::Less <==> be_value(a@) < be_value(b@),
        o == Order::Equal <==> be_value(a@) == be_value(b@),
        o == Order::Greater <==> be_value(a@) > be_value(b@),
        o == Order::Equal <==> a@ == b@,
{
    let mut i: usize = 0;
    while i < 32
        invariant
            i <= 32,
            a@.take(i as int) == b@.take(i as int),
        decreases 32 - i,
    {
        if a[i] < b[i] {
            proof {
                lemma_first_difference(a@, b@, i as int, 32);
                assert(a@.take(32) == a@);
                assert(b@.take(32) == b@);
            }
            return Order::Less;
        }
        if a[i] > b[i] {
            proof {
                lemma_first_difference(b@, a@, i as int, 32);
                assert(a@.take(32) == a@);
                assert(b@.take(32) == b@);
            }
            return Order::Greater;
        }
        proof {
            assert(a@.take(i + 1) == a@.take(i as int).push(a@[i as int]));
            assert(b@.take(i + 1) == b@.take(i as int).push(b@[i as int]));
        }
        i = i + 1;
    }
    proof {
        assert(a@.take(32) == a@);
        assert(b@.take(32) == b@);
    }
    Order::Equal
}

/// Copies the first 32 bytes of `data` into an array.
fn array_from_prefix(data: &[u8]) -> (out: [u8; 32])
    requires
        data@.len() >= 32,
    ensures
        out@ == data@.take(32),
{
    let mut out: [u8; 32] = [0u8; 32];
    let mut i: usize = 0;
    while i < 32
        invariant
            i <= 32,
            data@.len() >= 32,
            forall|j: int| 0 <= j < i ==> out@[j] == data@[j],
        decreases 32 - i,
    {
        out[i] = data[i];
        i = i + 1;
    }
    assert(out@ =~= data@.take(32));
    out
}

/// Copies an array into a fresh vector.
fn vec_from_array(bytes: &[u8; 32]) -> (v: Vec<u8>)
    ensures
        v@ == bytes@,
{
    let mut v: Vec<u8> = Vec::new();
    let mut i: usize = 0;
    while i < 32
        invariant
            i <= 32,
            v@ == bytes@.take(i as int),
        decreases 32 - i,
    {
        v.push(bytes[i]);
        assert(bytes@.take(i + 1) == bytes@.take(i as int).push(bytes@[i as int]));
        i = i + 1;
    }
    assert(bytes@.take(32) == bytes@);
    v
}

/// A 256-bit content hash: the identity of a block.
#[derive(Clone, Copy, Debug, PartialEq, Eq, Hash)]
pub struct HashValue {
    pub bytes: [u8; 32],
}

impl HashValue {
    /// Number of bytes in a hash.
    pub const LENGTH: usize = 32;

    /// The hash as a big-endian number.
    pub open spec fn value(&self) -> nat {
        be_value(self.bytes@)
    }

    pub fn new(bytes: [u8; 32]) -> (h: HashValue)
        ensures
            h.bytes == bytes,
    {
        HashValue { bytes }
    }

    /// The hash whose bytes are all zero.
    pub fn zero() -> (h: HashValue)
        ensures
            h.bytes@ == Seq::new(32, |i: int| 0u8),
    {
        let h = HashValue { bytes: [0u8; 32] };
        assert(h.bytes@ =~= Seq::new(32, |i: int| 0u8));
        h
    }

    /// Reads a hash from exactly 32 bytes; any other length is refused.
    pub fn from_slice(data: &[u8]) -> (r: Option<HashValue>)
        ensures
            r is Some <==> data@.len() == 32,
            r matches Some(h) ==> h.bytes@ == data@,
    {
        if data.len() != 32 {
            return None;
        }
        let bytes = array_from_prefix(data);
        assert(data@.take(32) == data@);
        Some(HashValue { bytes })
    }

    /// The 32 bytes of the hash.
    pub fn to_vec(&self) -> (v: Vec<u8>)
        ensures
            v@ == self.bytes@,
    {
        vec_from_array(&self.bytes)
    }

    /// Whether two hashes hold the same bytes.
    pub fn equals(&self, other: &HashValue) -> (r: bool)
        ensures
            r == (*self == *other),
    {
        let o = compare_bytes32(&self.bytes, &other.bytes);
        proof {
            if self.bytes@ == other.bytes@ {
                assert(self.bytes =~= other.bytes);
            }
        }
        o == Order::Equal
    }
}

impl Ranked for HashValue {
    open spec fn le(&self, other: &Self) -> bool {
        self.value() <= other.value()
    }

    proof fn le_reflexive(a: &Self) {
    }

    proof fn le_transitive(a: &Self, b: &Self, c: &Self) {
    }

    proof fn le_total(a: &Self, b: &Self) {
    }

    fn compare(&self, other: &Self) -> (o: Order) {
        compare_bytes32(&self.bytes, &other.bytes)
    }
}

/// Hashes that are equivalent in the order are the same hash.
pub proof fn lemma_hash_order_is_exact(a: HashValue, b: HashValue)
    requires
        a.value() == b.value(),
    ensures
        a == b,
{
    lemma_be_value_injective(a.bytes@, b.bytes@);
    assert(a.bytes =~= b.bytes);
}

/// An unsigned 256-bit number held as 32 big-endian bytes: a difficulty
/// target or an accumulated chain score.
#[derive(Clone, Copy, Debug, PartialEq, Eq, Hash)]
pub struct U256 {
    pub bytes: [u8; 32],
}

impl U256 {
    /// The number itself.
    pub open spec fn value(&self) -> nat {
        be_value(self.bytes@)
    }

    pub fn new(bytes: [u8; 32]) -> (n: U256)
        ensures
            n.bytes == bytes,
    {
        U256 { bytes }
    }

    /// Reads a hash as a number, most significant byte first.
    pub fn from_hash(h: &HashValue) -> (n: U256)
        ensures
            n.bytes == h.bytes,
            n.value() == h.value(),
    {
        U256 { bytes: h.bytes }
    }

    /// Numeric comparison.
    pub fn compare(&self, other: &U256) -> (o: Order)
        ensures
            o == Order::Less <==> self.value() < other.value(),
            o == Order::Equal <==> self.value() == other.value(),
            o == Order::Greater <==> self.value() > other.value(),
            o == Order::Equal <==> *self == *other,
    {
        let o = compare_bytes32(&self.bytes, &other.bytes);
        proof {
            if self.bytes@ == other.bytes@ {
                assert(self.bytes =~= other.bytes);
            }
        }
        o
    }

    /// `self <= other` as numbers.
    pub fn at_most(&self, other: &U256) -> (r: bool)
        ensures
            r == (self.value() <= other.value()),
    {
        let o = self.compare(other);
        o != Order::Greater
    }
}

} // verus!
