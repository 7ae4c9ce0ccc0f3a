//! Byte-oriented key-value storage: the repository contract, a store that
//! puts a cache in front of a persistent repository, and typed access
//! through key and value codecs.

use vstd::prelude::*;
use std::fmt::Debug;
use std::marker::PhantomData;
use crate::block::copy_bytes;
use crate::hash::HashValue;

verus! {

/// Why a storage operation failed.
#[derive(Clone, Copy, Debug, PartialEq, Eq, Structural)]
pub enum StorageError {
    /// The repository could not carry out the operation.
    Backend,
    /// A key or a value could not be turned into bytes, or read from them.
    Codec,
}

/// What a repository holds: values by key.
pub type Contents = Map<Seq<u8>, Seq<u8>>;

/// The value stored under `key`, if any.
pub open spec fn stored(contents: Contents, key: Seq<u8>) -> Option<Seq<u8>> {
    if contents.contains_key(key) {
        Some(contents[key])
    } else {
        None
    }
}

/// The bytes of an optional value.
pub open spec fn bytes_of(value: Option<Vec<u8>>) -> Option<Seq<u8>> {
    match value {
        Some(v) => Some(v@),
        None => None,
    }
}

/// The keys of a listing, as byte strings.
pub open spec fn listed(keys: Seq<Vec<u8>>) -> Seq<Seq<u8>> {
    keys.map_values(|k: Vec<u8>| k@)
}

/// A key-value store over bytes.
///
/// Any operation may fail.  A read that succeeds tells the truth about the
/// contents; a write that fails leaves the contents as they were.
pub trait Repository {
    /// The pairs held.
    spec fn contents(&self) -> Contents;

    /// What the implementation keeps true of itself.
    spec fn inv(&self) -> bool;

    fn get(&self, key: &[u8]) -> (r: Result<Option<Vec<u8>>, StorageError>)
        requires
            self.inv(),
        ensures
            r is Ok ==> bytes_of(r->Ok_0) == stored(self.contents(), key@),
    ;

    fn put(&mut self, key: Vec<u8>, value: Vec<u8>) -> (r: Result<(), StorageError>)
        requires
            old(self).inv(),
        ensures
            final(self).inv(),
            r is Ok ==> final(self).contents() == old(self).contents().insert(key@, value@),
            r is Err ==> final(self).contents() == old(self).contents(),
    ;

    fn contains_key(&self, key: Vec<u8>) -> (r: Result<bool, StorageError>)
        requires
            self.inv(),
        ensures
            r is Ok ==> r->Ok_0 == self.contents().contains_key(key@),
    ;

    fn remove(&mut self, key: Vec<u8>) -> (r: Result<(), StorageError>)
        requires
            old(self).inv(),
        ensures
            final(self).inv(),
            r is Ok ==> final(self).contents() == old(self).contents().remove(key@),
            r is Err ==> final(self).contents() == old(self).contents(),
    ;

    fn get_len(&self) -> (r: Result<u64, StorageError>)
        requires
            self.inv(),
        ensures
            r is Ok ==> r->Ok_0 == self.contents().len(),
    ;

    fn keys(&self) -> (r: Result<Vec<Vec<u8>>, StorageError>)
        requires
            self.inv(),
        ensures
            r is Ok ==> listed(r->Ok_0@).to_set() == self.contents().dom(),
            r is Ok ==> listed(r->Ok_0@).no_duplicates(),
    ;
}

/// Reads never fail in repositories of type `R`: the contract of `R::get`
/// itself rules failure out.  This holds of a repository in memory; of one
/// that sits on a disk or a network it does not.
pub open spec fn get_never_fails<R: Repository>() -> bool {
    forall|store: &R, key: &[u8], r: Result<Option<Vec<u8>>, StorageError>| #[trigger]
        call_ensures(R::get, (store, key), r) ==> r is Ok
}

/// Writes never fail in repositories of type `R`.
pub open spec fn put_never_fails<R: Repository>() -> bool {
    forall|store: &mut R, key: Vec<u8>, value: Vec<u8>, r: Result<(), StorageError>| #[trigger]
        call_ensures(R::put, (store, key, value), r) ==> r is Ok
}

/// Lookups of a key never fail in repositories of type `R`.
pub open spec fn contains_key_never_fails<R: Repository>() -> bool {
    forall|store: &R, key: Vec<u8>, r: Result<bool, StorageError>| #[trigger]
        call_ensures(R::contains_key, (store, key), r) ==> r is Ok
}

/// Removals never fail in repositories of type `R`.
pub open spec fn remove_never_fails<R: Repository>() -> bool {
    forall|store: &mut R, key: Vec<u8>, r: Result<(), StorageError>| #[trigger]
        call_ensures(R::remove, (store, key), r) ==> r is Ok
}

/// Counting never fails in repositories of type `R`.
pub open spec fn get_len_never_fails<R: Repository>() -> bool {
    forall|store: &R, r: Result<u64, StorageError>| #[trigger]
        call_ensures(R::get_len, (store,), r) ==> r is Ok
}

/// Listing never fails in repositories of type `R`.
pub open spec fn keys_never_fails<R: Repository>() -> bool {
    forall|store: &R, r: Result<Vec<Vec<u8>>, StorageError>| #[trigger]
        call_ensures(R::keys, (store,), r) ==> r is Ok
}

/// A persistent repository with a cache in front of it.
///
/// The persistent repository is the truth.  The cache holds copies of some
/// of its pairs and serves the reads that it can.
pub struct Storage<C: Repository, P: Repository> {
    cache: C,
    persistence: P,
}

impl<C: Repository, P: Repository> Storage<C, P> {
    /// Every pair in the cache is a pair of the persistent repository.
    pub open spec fn cache_is_copy(&self) -> bool {
        self.cache().contents().submap_of(self.persistence().contents())
    }

    pub closed spec fn cache(&self) -> C {
        self.cache
    }

    pub closed spec fn persistence(&self) -> P {
        self.persistence
    }

    pub fn new(cache: C, persistence: P) -> (s: Self)
        ensures
            s.cache() == cache,
            s.persistence() == persistence,
    {
        Storage { cache, persistence }
    }
}

impl<C: Repository, P: Repository> Repository for Storage<C, P> {
    /// What the store holds is what its persistent repository holds.
    open spec fn contents(&self) -> Contents {
        self.persistence().contents()
    }

    /// Both repositories are sound, and the cache is a copy.
    open spec fn inv(&self) -> bool {
        self.cache().inv() && self.persistence().inv() && self.cache_is_copy()
    }

    /// Reads from the cache first; what the cache does not hold, or cannot
    /// say, is read from the persistent repository.  The read fails only if
    /// the persistent repository does.
    fn get(&self, key: &[u8]) -> (r: Result<Option<Vec<u8>>, StorageError>)
        ensures
            get_never_fails::<P>() ==> r is Ok,
    {
        match cache_hit(self.cache.get(key)) {
            Some(v) => Ok(Some(v)),
            None => self.persistence.get(key),
        }
    }

    /// Writes to the persistent repository, then refreshes the cache.  The
    /// stale copy leaves the cache first, so no failure can leave it behind:
    /// whatever fails, the cache either lacks the key or holds the new value.
    /// The write fails only if the cache cannot drop its copy or the
    /// persistent repository cannot write.
    fn put(&mut self, key: Vec<u8>, value: Vec<u8>) -> (r: Result<(), StorageError>)
        ensures
            remove_never_fails::<C>() && put_never_fails::<P>() ==> r is Ok,
            r is Ok ==> final(self).cache().contents() == old(self).cache().contents().remove(key@)
                || final(self).cache().contents() == old(self).cache().contents().insert(
                key@,
                value@,
            ),
            r is Err ==> final(self).cache().contents() == old(self).cache().contents() || final(self).cache().contents() == old(self).cache().contents().remove(key@),
    {
        let cache_key = copy_bytes(&key);
        let cache_value = copy_bytes(&value);
        let stale_key = copy_bytes(&key);
        match self.cache.remove(stale_key) {
            Ok(()) => {},
            Err(e) => {
                return Err(e);
            },
        }
        match self.persistence.put(key, value) {
            Ok(()) => {},
            Err(e) => {
                return Err(e);
            },
        }
        let ghost evicted = self.cache().contents();
        let _ = self.cache.put(cache_key, cache_value);
        assert(evicted.insert(key@, value@) =~= old(self).cache().contents().insert(key@, value@));
        Ok(())
    }

    /// Asks the cache first; what the cache does not hold, or cannot say,
    /// is asked of the persistent repository.  The lookup fails only if the
    /// persistent repository does.
    fn contains_key(&self, key: Vec<u8>) -> (r: Result<bool, StorageError>)
        ensures
            contains_key_never_fails::<P>() ==> r is Ok,
    {
        let cache_key = copy_bytes(&key);
        if cache_confirms(self.cache.contains_key(cache_key)) {
            Ok(true)
        } else {
            self.persistence.contains_key(key)
        }
    }

    /// Removes from the cache, then from the persistent repository.  The
    /// cache loses the key unless it fails itself.  The removal fails only
    /// if one of the two repositories does.
    fn remove(&mut self, key: Vec<u8>) -> (r: Result<(), StorageError>)
        ensures
            remove_never_fails::<C>() && remove_never_fails::<P>() ==> r is Ok,
            r is Ok ==> final(self).cache().contents() == old(self).cache().contents().remove(key@),
            r is Err ==> final(self).cache().contents() == old(self).cache().contents() || final(self).cache().contents() == old(self).cache().contents().remove(key@),
    {
        let cache_key = copy_bytes(&key);
        match self.cache.remove(cache_key) {
            Ok(()) => {},
            Err(e) => {
                return Err(e);
            },
        }
        self.persistence.remove(key)
    }

    /// Counts the pairs of the persistent repository, and fails only if
    /// that does.
    fn get_len(&self) -> (r: Result<u64, StorageError>)
        ensures
            get_len_never_fails::<P>() ==> r is Ok,
    {
        self.persistence.get_len()
    }

    /// Lists the keys of the persistent repository, and fails only if that
    /// does.
    fn keys(&self) -> (r: Result<Vec<Vec<u8>>, StorageError>)
        ensures
            keys_never_fails::<P>() ==> r is Ok,
    {
        self.persistence.keys()
    }
}

/// What the cache's answer to a read is worth: a value that the cache holds
/// is served; a miss or a failure of the cache is no answer, and the read
/// goes on to the persistent repository.
pub fn cache_hit(cached: Result<Option<Vec<u8>>, StorageError>) -> (hit: Option<Vec<u8>>)
    ensures
        hit == (match cached {
            Ok(Some(value)) => Some(value),
            _ => None,
        }),
{
    match cached {
        Ok(Some(value)) => Some(value),
        _ => None,
    }
}

/// Whether the cache's answer settles that a key is stored: only a plain
/// yes does; a no or a failure of the cache leaves the question to the
/// persistent repository.
pub fn cache_confirms(cached: Result<bool, StorageError>) -> (settled: bool)
    ensures
        settled == (cached == Ok::<bool, StorageError>(true)),
{
    match cached {
        Ok(true) => true,
        _ => false,
    }
}

/// How a key type is written to bytes and read back.
pub trait KeyCodec: Sized + PartialEq + Debug {
    /// The bytes of a key, where it has any.
    spec fn key_bytes(&self) -> Option<Seq<u8>>;

    /// The key that bytes stand for, where they stand for one.
    spec fn key_from(data: Seq<u8>) -> Option<Self>;

    /// What is written can be read back.
    proof fn key_round_trip(key: &Self)
        ensures
            key.key_bytes() matches Some(bytes) ==> Self::key_from(bytes) == Some(*key),
    ;

    /// Converts `self` to bytes to be stored.
    fn encode_key(&self) -> (r: Result<Vec<u8>, StorageError>)
        ensures
            bytes_of(r.ok()) == self.key_bytes(),
    ;

    /// Converts stored bytes to `Self`.
    fn decode_key(data: &[u8]) -> (r: Result<Self, StorageError>)
        ensures
            r.ok() == Self::key_from(data@),
    ;
}

/// How a value type is written to bytes and read back.
pub trait ValueCodec: Sized + PartialEq + Debug {
    /// The bytes of a value, where it has any.
    spec fn value_bytes(&self) -> Option<Seq<u8>>;

    /// The value that bytes stand for, where they stand for one.
    spec fn value_from(data: Seq<u8>) -> Option<Self>;

    /// What is written can be read back.
    proof fn value_round_trip(value: &Self)
        ensures
            value.value_bytes() matches Some(bytes) ==> Self::value_from(bytes) == Some(*value),
    ;

    /// Converts `self` to bytes to be stored.
    fn encode_value(&self) -> (r: Result<Vec<u8>, StorageError>)
        ensures
            bytes_of(r.ok()) == self.value_bytes(),
    ;

    /// Converts stored bytes to `Self`.
    fn decode_value(data: &[u8]) -> (r: Result<Self, StorageError>)
        ensures
            r.ok() == Self::value_from(data@),
    ;
}

/// The array `bytes` holds exactly `data`.
pub open spec fn holds(bytes: [u8; 32], data: Seq<u8>) -> bool {
    bytes@ == data
}

/// The hash that 32 bytes stand for; other lengths stand for none.
pub open spec fn hash_from(data: Seq<u8>) -> Option<HashValue> {
    if data.len() == 32 {
        Some(HashValue { bytes: choose|bytes: [u8; 32]| holds(bytes, data) })
    } else {
        None
    }
}

/// Reading the bytes of a hash gives the hash.
pub proof fn lemma_hash_from_bytes(h: HashValue)
    ensures
        hash_from(h.bytes@) == Some(h),
{
    let chosen = choose|bytes: [u8; 32]| holds(bytes, h.bytes@);
    assert(holds(h.bytes, h.bytes@));
    assert(chosen@ == h.bytes@);
    assert(chosen =~= h.bytes);
}

fn decode_hash(data: &[u8]) -> (r: Result<HashValue, StorageError>)
    ensures
        r.ok() == hash_from(data@),
        r is Err ==> r == Err::<HashValue, StorageError>(StorageError::Codec),
{
    match HashValue::from_slice(data) {
        Some(h) => {
            proof {
                lemma_hash_from_bytes(h);
            }
            Ok(h)
        },
        None => Err(StorageError::Codec),
    }
}

impl KeyCodec for HashValue {
    open spec fn key_bytes(&self) -> Option<Seq<u8>> {
        Some(self.bytes@)
    }

    open spec fn key_from(data: Seq<u8>) -> Option<Self> {
        hash_from(data)
    }

    proof fn key_round_trip(key: &Self) {
        lemma_hash_from_bytes(*key);
    }

    fn encode_key(&self) -> (r: Result<Vec<u8>, StorageError>) {
        Ok(self.to_vec())
    }

    fn decode_key(data: &[u8]) -> (r: Result<Self, StorageError>) {
        decode_hash(data)
    }
}

impl ValueCodec for HashValue {
    open spec fn value_bytes(&self) -> Option<Seq<u8>> {
        Some(self.bytes@)
    }

    open spec fn value_from(data: Seq<u8>) -> Option<Self> {
        hash_from(data)
    }

    proof fn value_round_trip(value: &Self) {
        lemma_hash_from_bytes(*value);
    }

    fn encode_value(&self) -> (r: Result<Vec<u8>, StorageError>) {
        Ok(self.to_vec())
    }

    fn decode_value(data: &[u8]) -> (r: Result<Self, StorageError>) {
        decode_hash(data)
    }
}

/// The typed value that `contents` holds under `key`: `None` where no bytes
/// are stored, and no answer where the key or the stored bytes have no
/// reading.
pub open spec fn typed_lookup<K: KeyCodec, V: ValueCodec>(contents: Contents, key: K) -> Option<
    Option<V>,
> {
    match key.key_bytes() {
        None => None,
        Some(k) => match stored(contents, k) {
            None => Some(None),
            Some(bytes) => match V::value_from(bytes) {
                Some(v) => Some(Some(v)),
                None => None,
            },
        },
    }
}

/// What a typed read makes of a repository's answer: an error is handed on,
/// a miss is a miss, and stored bytes are read as a value or, where they
/// have no reading, fail with `Codec`.
pub open spec fn typed_answer<V: ValueCodec>(answer: Result<Option<Vec<u8>>, StorageError>) -> Result<
    Option<V>,
    StorageError,
> {
    match answer {
        Err(e) => Err(e),
        Ok(None) => Ok(None),
        Ok(Some(bytes)) => match V::value_from(bytes@) {
            Some(value) => Ok(Some(value)),
            None => Err(StorageError::Codec),
        },
    }
}

/// Reads a repository's answer as a typed value.
pub fn decode_answer<V: ValueCodec>(answer: Result<Option<Vec<u8>>, StorageError>) -> (r: Result<
    Option<V>,
    StorageError,
>)
    ensures
        r == typed_answer::<V>(answer),
{
    match answer {
        Err(e) => Err(e),
        Ok(None) => Ok(None),
        Ok(Some(bytes)) => match V::decode_value(bytes.as_slice()) {
            Ok(value) => Ok(Some(value)),
            Err(_) => Err(StorageError::Codec),
        },
    }
}

/// Typed access to a repository: keys and values pass through their codecs.
pub struct CodecStorage<K: KeyCodec, V: ValueCodec, R: Repository> {
    store: R,
    k: PhantomData<K>,
    v: PhantomData<V>,
}

impl<K: KeyCodec, V: ValueCodec, R: Repository> CodecStorage<K, V, R> {
    /// The repository underneath.
    pub closed spec fn store(&self) -> R {
        self.store
    }

    pub fn new(store: R) -> (s: Self)
        ensures
            s.store() == store,
    {
        Self { store, k: PhantomData, v: PhantomData }
    }

    /// The value stored under `key`.
    ///
    /// Fails with `Codec` where the key has no bytes.  Otherwise the
    /// repository is asked once, for the bytes of the key, and the result is
    /// what `typed_answer` makes of its answer: the repository's error is
    /// handed on, a miss is a miss, and stored bytes are read as a value or
    /// fail with `Codec`.
    pub fn get(&self, key: K) -> (r: Result<Option<V>, StorageError>)
        requires
            self.store().inv(),
        ensures
            key.key_bytes() is Some ==> exists|
                asked: &[u8],
                answer: Result<Option<Vec<u8>>, StorageError>,
            |
                asked@ == key.key_bytes().unwrap() && #[trigger] call_ensures(
                    R::get,
                    (&self.store(), asked),
                    answer,
                ) && r == typed_answer::<V>(answer),
            get_never_fails::<R>() && typed_lookup::<K, V>(self.store().contents(), key) is Some
                ==> r is Ok,
            r is Ok ==> Some(r->Ok_0) == typed_lookup::<K, V>(self.store().contents(), key),
            key.key_bytes() is None ==> r == Err::<Option<V>, StorageError>(StorageError::Codec),
    {
        let key_bytes = match key.encode_key() {
            Ok(bytes) => bytes,
            Err(_) => {
                return Err(StorageError::Codec);
            },
        };
        let asked = key_bytes.as_slice();
        let answer = self.store.get(asked);
        assert(call_ensures(R::get, (&self.store(), asked), answer));
        decode_answer::<V>(answer)
    }

    /// Stores `value` under `key`.  On failure nothing is stored.  A key
    /// and a value that have bytes are stored unless the repository fails.
    pub fn put(&mut self, key: K, value: V) -> (r: Result<(), StorageError>)
        requires
            old(self).store().inv(),
        ensures
            final(self).store().inv(),
            put_never_fails::<R>() && key.key_bytes() is Some && value.value_bytes() is Some
                ==> r is Ok,
            r is Ok ==> key.key_bytes() is Some && value.value_bytes() is Some && final(self).store().contents() == old(self).store().contents().insert(
                key.key_bytes().unwrap(),
                value.value_bytes().unwrap(),
            ),
            r is Err ==> final(self).store().contents() == old(self).store().contents(),
            key.key_bytes() is None || value.value_bytes() is None ==> r == Err::<
                (),
                StorageError,
            >(StorageError::Codec),
    {
        let key_bytes = match key.encode_key() {
            Ok(bytes) => bytes,
            Err(_) => {
                return Err(StorageError::Codec);
            },
        };
        let value_bytes = match value.encode_value() {
            Ok(bytes) => bytes,
            Err(_) => {
                return Err(StorageError::Codec);
            },
        };
        self.store.put(key_bytes, value_bytes)
    }

    /// Whether anything is stored under `key`.  A key that has bytes is
    /// looked up unless the repository fails.
    pub fn contains_key(&self, key: K) -> (r: Result<bool, StorageError>)
        requires
            self.store().inv(),
        ensures
            contains_key_never_fails::<R>() && key.key_bytes() is Some ==> r is Ok,
            r is Ok ==> key.key_bytes() is Some && r->Ok_0 == self.store().contents().contains_key(
                key.key_bytes().unwrap(),
            ),
            key.key_bytes() is None ==> r == Err::<bool, StorageError>(StorageError::Codec),
    {
        let key_bytes = match key.encode_key() {
            Ok(bytes) => bytes,
            Err(_) => {
                return Err(StorageError::Codec);
            },
        };
        self.store.contains_key(key_bytes)
    }

    /// Removes what is stored under `key`.  On failure nothing is removed.
    /// A key that has bytes is removed unless the repository fails.
    pub fn remove(&mut self, key: K) -> (r: Result<(), StorageError>)
        requires
            old(self).store().inv(),
        ensures
            final(self).store().inv(),
            remove_never_fails::<R>() && key.key_bytes() is Some ==> r is Ok,
            r is Ok ==> key.key_bytes() is Some && final(self).store().contents() == old(self).store().contents().remove(key.key_bytes().unwrap()),
            r is Err ==> final(self).store().contents() == old(self).store().contents(),
            key.key_bytes() is None ==> r == Err::<(), StorageError>(StorageError::Codec),
    {
        let key_bytes = match key.encode_key() {
            Ok(bytes) => bytes,
            Err(_) => {
                return Err(StorageError::Codec);
            },
        };
        self.store.remove(key_bytes)
    }

    /// Number of pairs stored; fails only if the repository does.
    pub fn get_len(&self) -> (r: Result<u64, StorageError>)
        requires
            self.store().inv(),
        ensures
            get_len_never_fails::<R>() ==> r is Ok,
            r is Ok ==> r->Ok_0 == self.store().contents().len(),
    {
        self.store.get_len()
    }

    /// The stored keys, as bytes, each once; fails only if the repository
    /// does.
    pub fn keys(&self) -> (r: Result<Vec<Vec<u8>>, StorageError>)
        requires
            self.store().inv(),
        ensures
            keys_never_fails::<R>() ==> r is Ok,
            r is Ok ==> listed(r->Ok_0@).to_set() == self.store().contents().dom(),
            r is Ok ==> listed(r->Ok_0@).no_duplicates(),
    {
        self.store.keys()
    }
}

/// A value that was put is the value that is got: after a successful `put`
/// of `value` under `key`, a lookup of `key` finds `value`.
pub proof fn lemma_put_then_get<K: KeyCodec, V: ValueCodec>(before: Contents, key: K, value: V)
    requires
        key.key_bytes() is Some,
        value.value_bytes() is Some,
    ensures
        typed_lookup::<K, V>(
            before.insert(key.key_bytes().unwrap(), value.value_bytes().unwrap()),
            key,
        ) == Some(Some(value)),
{
    V::value_round_trip(&value);
}

} // verus!
