use std::collections::BTreeMap;

use chain_sync::hash::HashValue;
use chain_sync::memory_storage::same_bytes;
use chain_sync::memory_storage::MemoryStorage;
use chain_sync::storage::cache_confirms;
use chain_sync::storage::cache_hit;
use chain_sync::storage::decode_answer;
use chain_sync::storage::CodecStorage;
use chain_sync::storage::Contents;
use chain_sync::storage::KeyCodec;
use chain_sync::storage::Repository;
use chain_sync::storage::Storage;
use chain_sync::storage::StorageError;
use chain_sync::storage::ValueCodec;

/// A repository in memory, which can be told to fail.
#[derive(Default)]
struct MemoryRepository {
    map: BTreeMap<Vec<u8>, Vec<u8>>,
    broken: bool,
    reads: std::cell::Cell<usize>,
}

impl MemoryRepository {
    fn with(pairs: &[(&[u8], &[u8])]) -> Self {
        let mut r = MemoryRepository::default();
        for (k, v) in pairs {
            r.map.insert(k.to_vec(), v.to_vec());
        }
        r
    }

    fn broken() -> Self {
        MemoryRepository { broken: true, ..MemoryRepository::default() }
    }
}

impl Repository for MemoryRepository {
    // The two ghost items of the trait: they exist for proofs only and are
    // never called when the program runs.
    fn contents(&self) -> Contents {
        unreachable!()
    }

    fn inv(&self) -> bool {
        true
    }

    fn get(&self, key: &[u8]) -> Result<Option<Vec<u8>>, StorageError> {
        self.reads.set(self.reads.get() + 1);
        if self.broken {
            return Err(StorageError::Backend);
        }
        Ok(self.map.get(key).cloned())
    }

    fn put(&mut self, key: Vec<u8>, value: Vec<u8>) -> Result<(), StorageError> {
        if self.broken {
            return Err(StorageError::Backend);
        }
        self.map.insert(key, value);
        Ok(())
    }

    fn contains_key(&self, key: Vec<u8>) -> Result<bool, StorageError> {
        if self.broken {
            return Err(StorageError::Backend);
        }
        Ok(self.map.contains_key(&key))
    }

    fn remove(&mut self, key: Vec<u8>) -> Result<(), StorageError> {
        if self.broken {
            return Err(StorageError::Backend);
        }
        self.map.remove(&key);
        Ok(())
    }

    fn get_len(&self) -> Result<u64, StorageError> {
        if self.broken {
            return Err(StorageError::Backend);
        }
        Ok(self.map.len() as u64)
    }

    fn keys(&self) -> Result<Vec<Vec<u8>>, StorageError> {
        if self.broken {
            return Err(StorageError::Backend);
        }
        Ok(self.map.keys().cloned().collect())
    }
}

#[test]
fn storage_reads_what_it_wrote() {
    let mut s = Storage::new(MemoryRepository::default(), MemoryRepository::default());
    assert_eq!(s.get(b"k"), Ok(None));
    assert_eq!(s.put(b"k".to_vec(), b"v".to_vec()), Ok(()));
    assert_eq!(s.get(b"k"), Ok(Some(b"v".to_vec())));
    assert_eq!(s.contains_key(b"k".to_vec()), Ok(true));
    assert_eq!(s.contains_key(b"x".to_vec()), Ok(false));
    assert_eq!(s.get_len(), Ok(1));
    assert_eq!(s.keys(), Ok(vec![b"k".to_vec()]));
}

#[test]
fn storage_overwrites_and_removes() {
    let mut s = Storage::new(MemoryRepository::default(), MemoryRepository::default());
    s.put(b"k".to_vec(), b"v1".to_vec()).unwrap();
    s.put(b"k".to_vec(), b"v2".to_vec()).unwrap();
    assert_eq!(s.get(b"k"), Ok(Some(b"v2".to_vec())));
    assert_eq!(s.get_len(), Ok(1));
    assert_eq!(s.remove(b"k".to_vec()), Ok(()));
    assert_eq!(s.get(b"k"), Ok(None));
    assert_eq!(s.contains_key(b"k".to_vec()), Ok(false));
    assert_eq!(s.get_len(), Ok(0));
}

#[test]
fn storage_serves_what_only_the_persistent_store_holds() {
    let s = Storage::new(
        MemoryRepository::default(),
        MemoryRepository::with(&[(b"k".as_slice(), b"v".as_slice())]),
    );
    assert_eq!(s.get(b"k"), Ok(Some(b"v".to_vec())));
    assert_eq!(s.contains_key(b"k".to_vec()), Ok(true));
}

#[test]
fn storage_reads_past_a_failing_cache() {
    let s = Storage::new(
        MemoryRepository::broken(),
        MemoryRepository::with(&[(b"k".as_slice(), b"v".as_slice())]),
    );
    assert_eq!(s.get(b"k"), Ok(Some(b"v".to_vec())));
    assert_eq!(s.get(b"x"), Ok(None));
}

#[test]
fn storage_fails_when_the_persistent_store_fails() {
    let mut s = Storage::new(MemoryRepository::default(), MemoryRepository::broken());
    assert_eq!(s.get(b"k"), Err(StorageError::Backend));
    assert_eq!(s.put(b"k".to_vec(), b"v".to_vec()), Err(StorageError::Backend));
    assert_eq!(s.remove(b"k".to_vec()), Err(StorageError::Backend));
    assert_eq!(s.get_len(), Err(StorageError::Backend));
    assert_eq!(s.keys(), Err(StorageError::Backend));
}

#[test]
fn storage_does_not_write_past_a_failing_cache() {
    let mut s = Storage::new(MemoryRepository::broken(), MemoryRepository::default());
    assert_eq!(s.put(b"k".to_vec(), b"v".to_vec()), Err(StorageError::Backend));
    assert_eq!(s.get(b"k"), Ok(None));
}

#[test]
fn hash_codec_round_trips() {
    let h = HashValue::new([5u8; 32]);
    let bytes = h.encode_key().unwrap();
    assert_eq!(bytes, vec![5u8; 32]);
    assert_eq!(<HashValue as KeyCodec>::decode_key(&bytes), Ok(h));
    let bytes = h.encode_value().unwrap();
    assert_eq!(<HashValue as ValueCodec>::decode_value(&bytes), Ok(h));
}

#[test]
fn hash_codec_refuses_other_lengths() {
    assert_eq!(<HashValue as KeyCodec>::decode_key(&[1u8; 31]), Err(StorageError::Codec));
    assert_eq!(<HashValue as ValueCodec>::decode_value(&[1u8; 33]), Err(StorageError::Codec));
    assert_eq!(<HashValue as KeyCodec>::decode_key(&[]), Err(StorageError::Codec));
}

#[test]
fn codec_storage_stores_typed_values() {
    let mut s: CodecStorage<HashValue, HashValue, MemoryRepository> =
        CodecStorage::new(MemoryRepository::default());
    let k = HashValue::new([1u8; 32]);
    let v = HashValue::new([2u8; 32]);
    assert_eq!(s.get(k), Ok(None));
    assert_eq!(s.contains_key(k), Ok(false));
    assert_eq!(s.put(k, v), Ok(()));
    assert_eq!(s.get(k), Ok(Some(v)));
    assert_eq!(s.contains_key(k), Ok(true));
    assert_eq!(s.get_len(), Ok(1));
    assert_eq!(s.keys(), Ok(vec![vec![1u8; 32]]));
    assert_eq!(s.remove(k), Ok(()));
    assert_eq!(s.get(k), Ok(None));
    assert_eq!(s.get_len(), Ok(0));
}

#[test]
fn codec_storage_reports_unreadable_values() {
    let s: CodecStorage<HashValue, HashValue, MemoryRepository> = CodecStorage::new(
        MemoryRepository::with(&[([1u8; 32].as_slice(), b"short".as_slice())]),
    );
    assert_eq!(s.get(HashValue::new([1u8; 32])), Err(StorageError::Codec));
}

#[test]
fn codec_storage_passes_backend_failures_on() {
    let mut s: CodecStorage<HashValue, HashValue, MemoryRepository> =
        CodecStorage::new(MemoryRepository::broken());
    let k = HashValue::new([1u8; 32]);
    assert_eq!(s.get(k), Err(StorageError::Backend));
    assert_eq!(s.put(k, k), Err(StorageError::Backend));
    assert_eq!(s.contains_key(k), Err(StorageError::Backend));
    assert_eq!(s.remove(k), Err(StorageError::Backend));
    assert_eq!(s.get_len(), Err(StorageError::Backend));
    assert_eq!(s.keys(), Err(StorageError::Backend));
}

#[test]
fn codec_storage_over_cached_storage() {
    let store = Storage::new(MemoryRepository::default(), MemoryRepository::default());
    let mut s: CodecStorage<HashValue, HashValue, Storage<MemoryRepository, MemoryRepository>> =
        CodecStorage::new(store);
    let k = HashValue::new([3u8; 32]);
    let v = HashValue::new([4u8; 32]);
    s.put(k, v).unwrap();
    assert_eq!(s.get(k), Ok(Some(v)));
}

#[test]
fn same_bytes_compares_contents() {
    assert!(same_bytes(b"", b""));
    assert!(same_bytes(b"abc", b"abc"));
    assert!(!same_bytes(b"abc", b"abd"));
    assert!(!same_bytes(b"abc", b"ab"));
    assert!(!same_bytes(b"", b"a"));
}

#[test]
fn memory_storage_is_a_repository() {
    let mut s = MemoryStorage::new();
    assert_eq!(s.get_len(), Ok(0));
    assert_eq!(s.keys(), Ok(vec![]));
    assert_eq!(s.get(b"a"), Ok(None));
    assert_eq!(s.contains_key(b"a".to_vec()), Ok(false));
    assert_eq!(s.put(b"a".to_vec(), b"1".to_vec()), Ok(()));
    assert_eq!(s.put(b"b".to_vec(), b"2".to_vec()), Ok(()));
    assert_eq!(s.put(b"".to_vec(), b"".to_vec()), Ok(()));
    assert_eq!(s.get(b"a"), Ok(Some(b"1".to_vec())));
    assert_eq!(s.get(b"b"), Ok(Some(b"2".to_vec())));
    assert_eq!(s.get(b""), Ok(Some(vec![])));
    assert_eq!(s.get_len(), Ok(3));
    assert_eq!(s.put(b"a".to_vec(), b"3".to_vec()), Ok(()));
    assert_eq!(s.get(b"a"), Ok(Some(b"3".to_vec())));
    assert_eq!(s.get_len(), Ok(3));
    assert_eq!(s.keys(), Ok(vec![b"a".to_vec(), b"b".to_vec(), vec![]]));
    assert_eq!(s.remove(b"a".to_vec()), Ok(()));
    assert_eq!(s.remove(b"zz".to_vec()), Ok(()));
    assert_eq!(s.get(b"a"), Ok(None));
    assert_eq!(s.contains_key(b"b".to_vec()), Ok(true));
    assert_eq!(s.get_len(), Ok(2));
    assert_eq!(s.keys(), Ok(vec![b"b".to_vec(), vec![]]));
}

#[test]
fn storage_over_memory_keeps_cache_and_store_in_step() {
    let mut s = Storage::new(MemoryStorage::new(), MemoryStorage::new());
    for n in 0u8..20 {
        s.put(vec![n], vec![n, n]).unwrap();
    }
    for n in 0u8..20 {
        assert_eq!(s.get(&[n]), Ok(Some(vec![n, n])));
    }
    for n in 0u8..10 {
        s.remove(vec![n]).unwrap();
    }
    assert_eq!(s.get_len(), Ok(10));
    assert_eq!(s.get(&[3]), Ok(None));
    assert_eq!(s.get(&[13]), Ok(Some(vec![13, 13])));
    s.put(vec![13], vec![0]).unwrap();
    assert_eq!(s.get(&[13]), Ok(Some(vec![0])));
}

#[test]
fn cache_serves_only_what_it_holds() {
    assert_eq!(cache_hit(Ok(Some(vec![1, 2]))), Some(vec![1, 2]));
    assert_eq!(cache_hit(Ok(Some(vec![]))), Some(vec![]));
    assert_eq!(cache_hit(Ok(None)), None);
    assert_eq!(cache_hit(Err(StorageError::Backend)), None);
    assert_eq!(cache_hit(Err(StorageError::Codec)), None);
}

#[test]
fn cache_settles_only_a_plain_yes() {
    assert!(cache_confirms(Ok(true)));
    assert!(!cache_confirms(Ok(false)));
    assert!(!cache_confirms(Err(StorageError::Backend)));
}

#[test]
fn storage_over_memory_never_fails() {
    let mut s = Storage::new(MemoryStorage::new(), MemoryStorage::new());
    for n in 0u8..50 {
        assert_eq!(s.put(vec![n], vec![n]), Ok(()));
        assert_eq!(s.contains_key(vec![n]), Ok(true));
        assert_eq!(s.get_len(), Ok(n as u64 + 1));
    }
    assert_eq!(s.keys().map(|k| k.len()), Ok(50));
    for n in 0u8..50 {
        assert_eq!(s.remove(vec![n]), Ok(()));
        assert_eq!(s.get(&[n]), Ok(None));
    }
    assert_eq!(s.get_len(), Ok(0));
}

#[test]
fn storage_lookup_survives_a_failing_cache() {
    let s = Storage::new(
        MemoryRepository::broken(),
        MemoryRepository::with(&[(b"k".as_slice(), b"v".as_slice())]),
    );
    assert_eq!(s.contains_key(b"k".to_vec()), Ok(true));
    assert_eq!(s.contains_key(b"x".to_vec()), Ok(false));
    assert_eq!(s.get_len(), Ok(1));
    assert_eq!(s.keys(), Ok(vec![b"k".to_vec()]));
}

#[test]
fn storage_does_not_remove_past_a_failing_cache() {
    let mut s = Storage::new(
        MemoryRepository::broken(),
        MemoryRepository::with(&[(b"k".as_slice(), b"v".as_slice())]),
    );
    assert_eq!(s.remove(b"k".to_vec()), Err(StorageError::Backend));
    assert_eq!(s.get(b"k"), Ok(Some(b"v".to_vec())));
}

#[test]
fn typed_read_hands_the_repositorys_answer_on() {
    let h = HashValue::new([4u8; 32]);
    assert_eq!(decode_answer::<HashValue>(Ok(None)), Ok(None));
    assert_eq!(decode_answer::<HashValue>(Ok(Some(vec![4u8; 32]))), Ok(Some(h)));
    assert_eq!(decode_answer::<HashValue>(Ok(Some(vec![4u8; 3]))), Err(StorageError::Codec));
    assert_eq!(decode_answer::<HashValue>(Err(StorageError::Backend)), Err(StorageError::Backend));
    assert_eq!(decode_answer::<HashValue>(Err(StorageError::Codec)), Err(StorageError::Codec));
}
