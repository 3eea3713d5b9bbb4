use std::collections::BTreeMap;

use hyper_rss::bee::KeyValue;
use hyper_rss::keyed_blobs::{BlobId, BlobsReply, BlobsRequest};
use hyper_rss::step::{Operation, Step};
use hyper_rss::{KeyedBlobs, KeyedBlobsError};

/// An id: the number of the blob.
type Id = u64;

type Reply = BlobsReply<Id, &'static str, String>;

type Failed = KeyedBlobsError<&'static str, String>;

/// The two stores in memory. Ids are encoded as JSON numbers.
struct MemoryStore {
    keys: BTreeMap<Vec<u8>, (u64, Option<Vec<u8>>)>,
    version: u64,
    walk: Vec<KeyValue>,
    blobs: Vec<Vec<u8>>,
    requests: usize,
    fail_at: Option<usize>,
}

impl MemoryStore {
    fn new() -> MemoryStore {
        MemoryStore {
            keys: BTreeMap::new(),
            version: 0,
            walk: vec![],
            blobs: vec![],
            requests: 0,
            fail_at: None,
        }
    }

    fn set(&mut self, key: &[u8], value: Option<&[u8]>) {
        let seq = if self.version == 0 { 1 } else { self.version };
        self.keys.insert(key.to_vec(), (seq, value.map(|value| value.to_vec())));
        self.version = seq + 1;
    }

    fn serve(&mut self, request: BlobsRequest<Id>) -> Reply {
        let failing = self.fail_at == Some(self.requests);
        self.requests += 1;
        match request {
            BlobsRequest::Store { .. } | BlobsRequest::Fetch { .. } if failing => {
                BlobsReply::BlobsFailed("no blobs".to_string())
            }
            BlobsRequest::Decode { .. } if failing => {
                BlobsReply::Malformed(serde_json::from_slice::<Id>(b"?").unwrap_err())
            }
            _ if failing => BlobsReply::KeysFailed("no keys"),
            BlobsRequest::GetKey { key } => BlobsReply::Found(self.keys.get(&key).cloned()),
            BlobsRequest::PutKey { key, value } => {
                self.set(&key, Some(&value));
                BlobsReply::Written
            }
            BlobsRequest::Traverse => {
                self.walk = self
                    .keys
                    .iter()
                    .map(|(key, (seq, value))| KeyValue {
                        seq: *seq,
                        key: key.clone(),
                        value: value.clone(),
                    })
                    .collect();
                BlobsReply::Opened
            }
            BlobsRequest::Next => BlobsReply::Item(if self.walk.is_empty() {
                None
            } else {
                Some(self.walk.remove(0))
            }),
            BlobsRequest::Store { blob } => {
                let id = self.blobs.len() as Id;
                self.blobs.push(blob);
                BlobsReply::Stored { id, encoded: serde_json::to_vec(&id).unwrap() }
            }
            BlobsRequest::Decode { bytes } => match serde_json::from_slice(&bytes) {
                Ok(id) => BlobsReply::Decoded(id),
                Err(error) => BlobsReply::Malformed(error),
            },
            BlobsRequest::Fetch { id } => match self.blobs.get(id as usize) {
                Some(blob) => BlobsReply::Fetched(blob.clone()),
                None => BlobsReply::BlobsFailed(format!("no blob {id}")),
            },
        }
    }

    fn run<S: Operation<BlobsRequest<Id>, Reply>>(
        &mut self,
        mut step: Step<BlobsRequest<Id>, S, S::Value, S::Failure>,
    ) -> Result<S::Value, S::Failure> {
        loop {
            match step {
                Step::Done(result) => return result,
                Step::Ask(request, state) => step = state.resume(self.serve(request)),
            }
        }
    }
}

const TEST_KEY: &[u8] = b"foobar";
const TEST_BLOB: &[u8] = b"Mello wort?";

#[test]
fn get_returns_a_put_blob() {
    let kb = KeyedBlobs::new();
    let mut store = MemoryStore::new();
    store.run(kb.put(TEST_KEY, TEST_BLOB)).unwrap();

    let gotten = store.run(kb.get(TEST_KEY)).unwrap();
    assert_eq!(gotten.as_deref(), Some(TEST_BLOB));
}

#[test]
fn get_on_missing_key_is_none() {
    let kb = KeyedBlobs::new();
    let mut store = MemoryStore::new();
    assert!(store.run(kb.get(b"missing")).unwrap().is_none());
}

#[test]
fn maybe_put_does_not_overwrite_an_existing_key() {
    let kb = KeyedBlobs::new();
    let mut store = MemoryStore::new();

    let first_id = store.run(kb.maybe_put(TEST_KEY, TEST_BLOB)).unwrap();
    assert!(first_id.is_some());

    let second = store.run(kb.maybe_put(TEST_KEY, b"different data")).unwrap();
    assert!(second.is_none());
    assert_eq!(store.run(kb.get(TEST_KEY)).unwrap().as_deref(), Some(TEST_BLOB));
    assert_eq!(store.blobs.len(), 1);
}

#[test]
fn get_keys_and_blobs_collects_everything_stored() {
    let kb = KeyedBlobs::new();
    let mut store = MemoryStore::new();
    store.run(kb.put(b"a", b"one")).unwrap();
    store.run(kb.put(b"b", b"two")).unwrap();

    let keys = store.run(kb.get_keys()).unwrap();
    assert_eq!(keys, vec![b"a".to_vec(), b"b".to_vec()]);

    let keys_and_blobs = store.run(kb.get_keys_and_blobs()).unwrap();
    assert_eq!(
        keys_and_blobs,
        vec![(b"a".to_vec(), b"one".to_vec()), (b"b".to_vec(), b"two".to_vec())]
    );
}

#[test]
fn an_empty_store_has_no_keys() {
    let kb = KeyedBlobs::new();
    let mut store = MemoryStore::new();
    assert!(store.run(kb.get_keys()).unwrap().is_empty());
    assert!(store.run(kb.get_keys_and_blobs()).unwrap().is_empty());
}

#[test]
fn put_gives_the_id_that_get_id_finds() {
    let kb = KeyedBlobs::new();
    let mut store = MemoryStore::new();
    store.run(kb.put(b"x", b"other")).unwrap();
    let BlobId(id) = store.run(kb.put(TEST_KEY, TEST_BLOB)).unwrap();
    assert_eq!(id, 1);
    let found = store.run(kb.get_id(TEST_KEY)).unwrap();
    assert!(matches!(found, Some(BlobId(1))));
    assert!(store.run(kb.get_id(b"missing")).unwrap().is_none());
}

#[test]
fn the_index_holds_the_encoded_id_and_not_the_blob() {
    let kb = KeyedBlobs::new();
    let mut store = MemoryStore::new();
    store.run(kb.put(TEST_KEY, TEST_BLOB)).unwrap();
    assert_eq!(store.keys[TEST_KEY].1.as_deref(), Some(&b"0"[..]));
}

#[test]
fn put_overwrites_and_leaves_other_keys_alone() {
    let kb = KeyedBlobs::new();
    let mut store = MemoryStore::new();
    store.run(kb.put(b"a", b"one")).unwrap();
    store.run(kb.put(b"b", b"two")).unwrap();
    store.run(kb.put(b"a", b"three")).unwrap();
    assert_eq!(store.run(kb.get(b"a")).unwrap().as_deref(), Some(&b"three"[..]));
    assert_eq!(store.run(kb.get(b"b")).unwrap().as_deref(), Some(&b"two"[..]));
}

#[test]
fn empty_keys_and_blobs_are_kept() {
    let kb = KeyedBlobs::new();
    let mut store = MemoryStore::new();
    store.run(kb.put(b"", b"")).unwrap();
    assert_eq!(store.run(kb.get(b"")).unwrap().as_deref(), Some(&b""[..]));
}

#[test]
fn the_key_stream_gives_keys_by_ascending_order_and_ends() {
    let kb = KeyedBlobs::new();
    let mut store = MemoryStore::new();
    for key in [&b"b"[..], b"", b"ab", b"a", b"\xff"] {
        store.run(kb.put(key, b"blob")).unwrap();
    }
    let stream = store.run(kb.key_stream()).unwrap();
    let mut keys = vec![];
    while let Some(key) = store.run(stream.next()).unwrap() {
        keys.push(key);
    }
    assert_eq!(keys, [b"".to_vec(), b"a".to_vec(), b"ab".to_vec(), b"b".to_vec(), b"\xff".to_vec()]);
    assert_eq!(store.run(kb.get_keys()).unwrap(), keys);
    assert!(store.run(stream.next()).unwrap().is_none());
}

#[test]
fn a_key_without_an_id_is_reported() {
    let kb = KeyedBlobs::new();
    let mut store = MemoryStore::new();
    store.set(b"bare", None);
    let missing = |result: Failed| matches!(result, KeyedBlobsError::MissingBlobId(key) if key == b"bare");
    assert!(missing(store.run(kb.get_id(b"bare")).unwrap_err()));
    assert!(missing(store.run(kb.get(b"bare")).unwrap_err()));
    assert!(missing(store.run(kb.get_keys_and_blobs()).unwrap_err()));
    assert_eq!(store.run(kb.get_keys()).unwrap(), [b"bare".to_vec()]);
    assert!(store.run(kb.maybe_put(b"bare", b"blob")).unwrap().is_none());
}

#[test]
fn an_id_that_does_not_decode_is_reported_with_its_key() {
    let kb = KeyedBlobs::new();
    let mut store = MemoryStore::new();
    store.set(b"bad", Some(b"no json"));
    let malformed = |result: Failed| matches!(result, KeyedBlobsError::Decode(key, _) if key == b"bad");
    assert!(malformed(store.run(kb.get_id(b"bad")).unwrap_err()));
    assert!(malformed(store.run(kb.get(b"bad")).unwrap_err()));
    assert!(malformed(store.run(kb.get_keys_and_blobs()).unwrap_err()));
}

#[test]
fn a_blob_that_is_gone_is_reported() {
    let kb = KeyedBlobs::new();
    let mut store = MemoryStore::new();
    store.set(b"k", Some(b"7"));
    let gone = |result: Failed| matches!(result, KeyedBlobsError::Hyperblobs(text) if text == "no blob 7");
    assert!(gone(store.run(kb.get(b"k")).unwrap_err()));
    assert!(gone(store.run(kb.get_keys_and_blobs()).unwrap_err()));
}

#[test]
fn failures_end_the_operations() {
    let kb = KeyedBlobs::new();

    let mut store = MemoryStore::new();
    store.fail_at = Some(0);
    assert!(matches!(store.run(kb.put(b"k", b"v")), Err(KeyedBlobsError::Hyperblobs(_))));
    assert!(store.keys.is_empty() && store.requests == 1);

    let mut store = MemoryStore::new();
    store.fail_at = Some(1);
    assert!(matches!(store.run(kb.put(b"k", b"v")), Err(KeyedBlobsError::Hyperbee("no keys"))));
    assert!(store.keys.is_empty() && store.blobs.len() == 1);

    let mut store = MemoryStore::new();
    store.fail_at = Some(0);
    assert!(matches!(store.run(kb.maybe_put(b"k", b"v")), Err(KeyedBlobsError::Hyperbee(_))));
    assert!(store.blobs.is_empty());

    for at in 0..2 {
        let mut store = MemoryStore::new();
        store.fail_at = Some(at);
        assert!(matches!(store.run(kb.get_keys()), Err(KeyedBlobsError::Hyperbee("no keys"))));
        let mut store = MemoryStore::new();
        store.fail_at = Some(at);
        let result = store.run(kb.get_keys_and_blobs());
        assert!(matches!(result, Err(KeyedBlobsError::Hyperbee("no keys"))));
    }

    let mut store = MemoryStore::new();
    store.run(kb.put(b"k", b"v")).unwrap();
    let stream = store.run(kb.key_stream()).unwrap();
    store.fail_at = Some(store.requests);
    assert!(matches!(store.run(stream.next()), Err(KeyedBlobsError::Hyperbee("no keys"))));
    assert_eq!(store.run(stream.next()).unwrap(), Some(b"k".to_vec()));
}

#[test]
fn the_cores_of_a_store_have_their_names() {
    assert_eq!(KeyedBlobs::core_names(), ("blobKeys", "blobs"));
}

#[test]
fn ids_that_were_given_before_still_fetch_their_blobs() {
    let kb = KeyedBlobs::new();
    let mut store = MemoryStore::new();
    let BlobId(first) = store.run(kb.put(b"a", b"one")).unwrap();
    store.run(kb.put(b"a", b"two")).unwrap();
    let BlobId(third) = store.run(kb.maybe_put(b"b", b"three")).unwrap().unwrap();
    assert_eq!(store.blobs[first as usize], b"one");
    assert_eq!(store.blobs[third as usize], b"three");
    assert_eq!(store.run(kb.get(b"b")).unwrap().as_deref(), Some(&b"three"[..]));
    assert!(matches!(store.run(kb.get_id(b"b")).unwrap(), Some(BlobId(id)) if id == third));
}

#[test]
fn keys_and_blobs_agree_with_keys_and_gets() {
    let kb = KeyedBlobs::new();
    let mut store = MemoryStore::new();
    for (key, blob) in [(&b"z"[..], &b"1"[..]), (b"a", b"2"), (b"m", b"3"), (b"a", b"4")] {
        store.run(kb.put(key, blob)).unwrap();
    }
    let keys = store.run(kb.get_keys()).unwrap();
    let pairs = store.run(kb.get_keys_and_blobs()).unwrap();
    assert_eq!(keys, [b"a".to_vec(), b"m".to_vec(), b"z".to_vec()]);
    assert_eq!(pairs.len(), keys.len());
    for (key, (pair_key, blob)) in keys.iter().zip(pairs) {
        assert_eq!(*key, pair_key);
        assert_eq!(store.run(kb.get(key)).unwrap(), Some(blob));
    }
}

#[test]
fn the_least_key_without_a_sound_id_decides_the_error() {
    let kb = KeyedBlobs::new();
    let mut store = MemoryStore::new();
    store.run(kb.put(b"a", b"1")).unwrap();
    store.set(b"b", Some(b"not an id"));
    store.set(b"c", None);
    let result: Result<Vec<(Vec<u8>, Vec<u8>)>, Failed> = store.run(kb.get_keys_and_blobs());
    assert!(matches!(result, Err(KeyedBlobsError::Decode(key, _)) if key == b"b"));
    store.set(b"ab", None);
    let result = store.run(kb.get_keys_and_blobs());
    assert!(matches!(result, Err(KeyedBlobsError::MissingBlobId(key)) if key == b"ab"));
    assert_eq!(
        store.run(kb.get_keys()).unwrap(),
        [b"a".to_vec(), b"ab".to_vec(), b"b".to_vec(), b"c".to_vec()]
    );
}

#[test]
fn the_keys_after_puts_are_those_that_were_put_by_ascending_order() {
    let kb = KeyedBlobs::new();
    let mut store = MemoryStore::new();
    for (key, blob) in [("m", "1"), ("b", "2"), ("", "3"), ("m", "4"), ("ma", "5"), ("b", "6")] {
        store.run(kb.put(key.as_bytes(), blob.as_bytes())).unwrap();
    }
    assert_eq!(
        store.run(kb.get_keys()).unwrap(),
        [b"".to_vec(), b"b".to_vec(), b"m".to_vec(), b"ma".to_vec()]
    );
    assert_eq!(store.run(kb.get(b"m")).unwrap().as_deref(), Some(&b"4"[..]));
    assert_eq!(store.run(kb.get(b"b")).unwrap().as_deref(), Some(&b"6"[..]));
}
