//! A repository held in memory, for caches and for tests.

use vstd::prelude::*;
use crate::block::copy_bytes;
use crate::storage::Contents;
use crate::storage::Repository;
use crate::storage::StorageError;
use crate::storage::listed;
use crate::storage::stored;

verus! {

/// A key and the value stored under it.
struct Pair {
    key: Vec<u8>,
    value: Vec<u8>,
}

/// Whether two byte strings are the same.
pub fn same_bytes(a: &[u8], b: &[u8]) -> (r: bool)
    ensures
        r == (a@ == b@),
{
    if a.len() != b.len() {
        return false;
    }
    let mut i: usize = 0;
    while i < a.len()
        invariant
            i <= a@.len(),
            a@.len() == b@.len(),
            a@.take(i as int) == b@.take(i as int),
        decreases a@.len() - i,
    {
        if a[i] != b[i] {
            return false;
        }
        assert(a@.take(i + 1) == a@.take(i as int).push(a@[i as int]));
        assert(b@.take(i + 1) == b@.take(i as int).push(b@[i as int]));
        i = i + 1;
    }
    assert(a@.take(a@.len() as int) == a@);
    assert(b@.take(b@.len() as int) == b@);
    true
}

/// The keys of `pairs`, in order.
spec fn keys_of(pairs: Seq<Pair>) -> Seq<Seq<u8>> {
    pairs.map_values(|p: Pair| p.key@)
}

/// The contents that `pairs` stand for, where no key occurs twice.
spec fn contents_of(pairs: Seq<Pair>) -> Contents {
    Map::new(
        |k: Seq<u8>| keys_of(pairs).contains(k),
        |k: Seq<u8>| pairs[keys_of(pairs).index_of(k)].value@,
    )
}

/// In a list without repeated keys, each pair is what the contents hold
/// under its key.
proof fn lemma_pair_is_stored(pairs: Seq<Pair>, i: int)
    requires
        keys_of(pairs).no_duplicates(),
        0 <= i < pairs.len(),
    ensures
        stored(contents_of(pairs), pairs[i].key@) == Some(pairs[i].value@),
{
    let keys = keys_of(pairs);
    assert(keys[i] == pairs[i].key@);
    assert(keys.contains(pairs[i].key@));
    let j = keys.index_of(pairs[i].key@);
    assert(keys[j] == keys[i]);
}

/// A key that no pair carries is not stored.
proof fn lemma_absent_is_not_stored(pairs: Seq<Pair>, key: Seq<u8>)
    requires
        forall|i: int| 0 <= i < pairs.len() ==> (#[trigger] pairs[i]).key@ != key,
    ensures
        stored(contents_of(pairs), key) is None,
{
    let keys = keys_of(pairs);
    if keys.contains(key) {
        let j = choose|j: int| 0 <= j < keys.len() && keys[j] == key;
        assert(pairs[j].key@ == key);
    }
}

/// A repository in memory.  It never fails.
pub struct MemoryStorage {
    pairs: Vec<Pair>,
}

impl MemoryStorage {
    /// An empty repository.
    pub fn new() -> (s: Self)
        ensures
            s.inv(),
            s.contents() == Map::<Seq<u8>, Seq<u8>>::empty(),
    {
        let s = MemoryStorage { pairs: Vec::new() };
        assert(s.contents() =~= Map::<Seq<u8>, Seq<u8>>::empty());
        s
    }

    /// The position of the pair that carries `key`, if any does.
    fn find(&self, key: &[u8]) -> (at: Option<usize>)
        ensures
            match at {
                Some(i) => i < self.pairs@.len() && self.pairs@[i as int].key@ == key@,
                None => forall|i: int|
                    0 <= i < self.pairs@.len() ==> (#[trigger] self.pairs@[i]).key@ != key@,
            },
    {
        let mut i: usize = 0;
        while i < self.pairs.len()
            invariant
                i <= self.pairs@.len(),
                forall|j: int| 0 <= j < i ==> (#[trigger] self.pairs@[j]).key@ != key@,
            decreases self.pairs@.len() - i,
        {
            if same_bytes(self.pairs[i].key.as_slice(), key) {
                return Some(i);
            }
            i = i + 1;
        }
        None
    }
}

impl Repository for MemoryStorage {
    closed spec fn contents(&self) -> Contents {
        contents_of(self.pairs@)
    }

    closed spec fn inv(&self) -> bool {
        keys_of(self.pairs@).no_duplicates() && self.pairs@.len() <= u64::MAX
    }

    fn get(&self, key: &[u8]) -> (r: Result<Option<Vec<u8>>, StorageError>)
        ensures
            r is Ok,
    {
        match self.find(key) {
            Some(i) => {
                proof {
                    lemma_pair_is_stored(self.pairs@, i as int);
                }
                Ok(Some(copy_bytes(&self.pairs[i].value)))
            },
            None => {
                proof {
                    lemma_absent_is_not_stored(self.pairs@, key@);
                }
                Ok(None)
            },
        }
    }

    fn put(&mut self, key: Vec<u8>, value: Vec<u8>) -> (r: Result<(), StorageError>)
        ensures
            r is Ok,
    {
        let ghost before = self.pairs@;
        let at = self.find(key.as_slice());
        match at {
            Some(i) => {
                let ghost k = key@;
                let ghost v = value@;
                self.pairs.set(i, Pair { key, value });
                proof {
                    let after = self.pairs@;
                    assert(keys_of(after) =~= keys_of(before));
                    assert forall|q: Seq<u8>| #[trigger]
                        contents_of(after).dom().contains(q) implies contents_of(after)[q]
                        == contents_of(before).insert(k, v)[q] by {
                        let j = choose|j: int|
                            0 <= j < keys_of(after).len() && keys_of(after)[j] == q;
                        assert(after[j].key@ == q);
                        lemma_pair_is_stored(after, j);
                        if j != i {
                            assert(after[j] == before[j]);
                            assert(keys_of(before)[j] != keys_of(before)[i as int]);
                            lemma_pair_is_stored(before, j);
                        }
                    }
                    assert(keys_of(before)[i as int] == k);
                    assert(contents_of(after) =~= contents_of(before).insert(k, v));
                }
                Ok(())
            },
            None => {
                let ghost k = key@;
                let ghost v = value@;
                self.pairs.push(Pair { key, value });
                let held = self.pairs.len();
                assert(held <= u64::MAX);
                proof {
                    let after = self.pairs@;
                    assert(keys_of(after) =~= keys_of(before).push(k));
                    assert(!keys_of(before).contains(k)) by {
                        if keys_of(before).contains(k) {
                            let j = choose|j: int|
                                0 <= j < keys_of(before).len() && keys_of(before)[j] == k;
                            assert(before[j].key@ == k);
                        }
                    }
                    assert(keys_of(after).no_duplicates()) by {
                        assert forall|a: int, b: int|
                            0 <= a < keys_of(after).len() && 0 <= b < keys_of(after).len() && a
                                != b implies keys_of(after)[a] != keys_of(after)[b] by {
                            if a < before.len() && b < before.len() {
                                assert(keys_of(before)[a] != keys_of(before)[b]);
                            } else if a < before.len() {
                                assert(keys_of(before).contains(keys_of(before)[a]));
                            } else {
                                assert(keys_of(before).contains(keys_of(before)[b]));
                            }
                        }
                    }
                    assert forall|q: Seq<u8>| #[trigger]
                        contents_of(after).dom().contains(q) implies contents_of(after)[q]
                        == contents_of(before).insert(k, v)[q] by {
                        let j = choose|j: int|
                            0 <= j < keys_of(after).len() && keys_of(after)[j] == q;
                        assert(after[j].key@ == q);
                        lemma_pair_is_stored(after, j);
                        if j < before.len() {
                            assert(after[j] == before[j]);
                            assert(keys_of(before)[j] == q);
                            assert(keys_of(before).contains(q));
                            lemma_pair_is_stored(before, j);
                        }
                    }
                    assert forall|q: Seq<u8>|
                        contents_of(after).dom().contains(q) <==> contents_of(before).insert(
                            k,
                            v,
                        ).dom().contains(q) by {
                        if keys_of(before).contains(q) {
                            let j = choose|j: int|
                                0 <= j < keys_of(before).len() && keys_of(before)[j] == q;
                            assert(keys_of(after)[j] == q);
                        }
                        if q == k {
                            assert(keys_of(after)[before.len() as int] == k);
                        }
                        if keys_of(after).contains(q) && q != k {
                            let j = choose|j: int|
                                0 <= j < keys_of(after).len() && keys_of(after)[j] == q;
                            assert(keys_of(before)[j] == q);
                        }
                    }
                    assert(contents_of(after) =~= contents_of(before).insert(k, v));
                }
                Ok(())
            },
        }
    }

    fn contains_key(&self, key: Vec<u8>) -> (r: Result<bool, StorageError>)
        ensures
            r is Ok,
    {
        match self.find(key.as_slice()) {
            Some(i) => {
                proof {
                    lemma_pair_is_stored(self.pairs@, i as int);
                }
                Ok(true)
            },
            None => {
                proof {
                    lemma_absent_is_not_stored(self.pairs@, key@);
                }
                Ok(false)
            },
        }
    }

    fn remove(&mut self, key: Vec<u8>) -> (r: Result<(), StorageError>)
        ensures
            r is Ok,
    {
        let ghost before = self.pairs@;
        let ghost k = key@;
        match self.find(key.as_slice()) {
            Some(i) => {
                let _ = self.pairs.remove(i);
                proof {
                    let after = self.pairs@;
                    assert(keys_of(after) =~= keys_of(before).remove(i as int));
                    assert(keys_of(before)[i as int] == k);
                    assert forall|a: int, b: int|
                        0 <= a < keys_of(after).len() && 0 <= b < keys_of(after).len() && a
                            != b implies keys_of(after)[a] != keys_of(after)[b] by {
                        let a0 = if a < i { a } else { a + 1 };
                        let b0 = if b < i { b } else { b + 1 };
                        assert(keys_of(before)[a0] != keys_of(before)[b0]);
                    }
                    assert forall|q: Seq<u8>|
                        contents_of(after).dom().contains(q) <==> contents_of(before).remove(
                            k,
                        ).dom().contains(q) by {
                        if keys_of(after).contains(q) {
                            let j = choose|j: int|
                                0 <= j < keys_of(after).len() && keys_of(after)[j] == q;
                            let j0 = if j < i { j } else { j + 1 };
                            assert(keys_of(before)[j0] == q);
                            assert(keys_of(before)[j0] != keys_of(before)[i as int]);
                        }
                        if keys_of(before).contains(q) && q != k {
                            let j = choose|j: int|
                                0 <= j < keys_of(before).len() && keys_of(before)[j] == q;
                            let j1 = if j < i { j } else { j - 1 };
                            assert(keys_of(after)[j1] == q);
                        }
                    }
                    assert forall|q: Seq<u8>| #[trigger]
                        contents_of(after).dom().contains(q) implies contents_of(after)[q]
                        == contents_of(before).remove(k)[q] by {
                        let j = keys_of(after).index_of(q);
                        assert(keys_of(after)[j] == q);
                        let j0 = if j < i { j } else { j + 1 };
                        assert(keys_of(before)[j0] == q);
                        assert(keys_of(before).contains(q));
                        let j1 = keys_of(before).index_of(q);
                        assert(keys_of(before)[j1] == q);
                        assert(j1 == j0);
                        assert(after[j] == before[j0]);
                    }
                    assert(contents_of(after) =~= contents_of(before).remove(k));
                }
                Ok(())
            },
            None => {
                proof {
                    lemma_absent_is_not_stored(before, k);
                    assert(contents_of(before) =~= contents_of(before).remove(k));
                }
                Ok(())
            },
        }
    }

    fn get_len(&self) -> (r: Result<u64, StorageError>)
        ensures
            r is Ok,
    {
        proof {
            lemma_len(self.pairs@);
        }
        Ok(self.pairs.len() as u64)
    }

    fn keys(&self) -> (r: Result<Vec<Vec<u8>>, StorageError>)
        ensures
            r is Ok,
    {
        let mut out: Vec<Vec<u8>> = Vec::new();
        let mut i: usize = 0;
        while i < self.pairs.len()
            invariant
                i <= self.pairs@.len(),
                out@.len() == i,
                listed(out@) == keys_of(self.pairs@).take(i as int),
            decreases self.pairs@.len() - i,
        {
            let ghost listed_before = listed(out@);
            let ghost out_before = out@;
            out.push(copy_bytes(&self.pairs[i].key));
            proof {
                let keys = keys_of(self.pairs@);
                assert forall|j: int| 0 <= j < i + 1 implies listed(out@)[j] == keys.take(
                    i + 1,
                )[j] by {
                    if j < i {
                        assert(out@[j] == out_before[j]);
                        assert(listed_before[j] == keys.take(i as int)[j]);
                    }
                }
                assert(listed(out@) =~= keys.take(i + 1));
            }
            i = i + 1;
        }
        proof {
            assert(keys_of(self.pairs@).take(self.pairs@.len() as int) =~= keys_of(self.pairs@));
            assert(listed(out@).to_set() =~= contents_of(self.pairs@).dom());
        }
        Ok(out)
    }
}

/// In a list without repeated keys there are as many pairs as keys stored.
proof fn lemma_len(pairs: Seq<Pair>)
    requires
        keys_of(pairs).no_duplicates(),
    ensures
        contents_of(pairs).dom().finite(),
        contents_of(pairs).len() == pairs.len(),
{
    let keys = keys_of(pairs);
    keys.unique_seq_to_set();
    vstd::seq_lib::seq_to_set_is_finite(keys);
    assert(contents_of(pairs).dom() =~= keys.to_set());
}

} // verus!
