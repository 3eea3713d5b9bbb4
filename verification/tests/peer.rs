use std::collections::BTreeMap;

use hyper_rss::base64url::{Fault, FaultKind};
use hyper_rss::keys::{entry_bytes, KeyError, PeerKeys, PublicKey, RawPeerKeys};
use hyper_rss::peer::{
    name_of_core, reader_learned, Core, CoreInfo, PeerReply, PeerRequest, Reader, RETRY_MILLIS,
};
use hyper_rss::step::{Operation, Step};
use hyper_rss::{Peer, PeerError};

type Reply = PeerReply<&'static str, &'static str, &'static str, &'static str>;

type Failed = PeerError<&'static str, &'static str, &'static str, &'static str>;

#[derive(Clone, Default)]
struct MemoryCore {
    writable: bool,
    blocks: Vec<Vec<u8>>,
}

/// A store of cores in memory.
#[derive(Clone, Default)]
struct MemoryStore {
    cores: BTreeMap<[u8; 32], MemoryCore>,
    names: BTreeMap<String, [u8; 32]>,
    keys_core: [u8; 32],
    requests: Vec<String>,
    fail_at: Option<usize>,
    /// What arrives in the `keys` core after so many waits.
    arriving: Option<(u64, Vec<u8>)>,
}

fn decode_entry(bytes: &[u8]) -> Result<RawPeerKeys, serde_json::Error> {
    let entry: BTreeMap<String, BTreeMap<String, String>> = serde_json::from_slice(bytes)?;
    let text = |name: &str| entry["keys"][name].clone();
    Ok(RawPeerKeys { feed: text("feed"), blob_keys: text("blobKeys"), blobs: text("blobs") })
}

impl MemoryStore {
    fn open(&mut self, core: Core, key: [u8; 32]) -> Reply {
        if core == Core::Keys {
            self.keys_core = key;
        }
        let stored = self.cores.entry(key).or_default();
        PeerReply::Opened(CoreInfo {
            public: PublicKey::from_bytes(&key).unwrap(),
            writable: stored.writable,
            length: stored.blocks.len() as u64,
        })
    }

    fn serve(&mut self, request: PeerRequest) -> Reply {
        self.requests.push(format!("{request:?}"));
        let failing = self.fail_at == Some(self.requests.len() - 1);
        match request {
            PeerRequest::OpenNamed { .. } | PeerRequest::OpenKeyed { .. } if failing => {
                PeerReply::StoreFailed("store")
            }
            PeerRequest::AppendEntry { .. } | PeerRequest::ReadEntry if failing => {
                PeerReply::CoreFailed("core")
            }
            PeerRequest::AttachFeed if failing => PeerReply::FeedFailed("bee"),
            PeerRequest::AttachBlobs if failing => PeerReply::BlobsFailed("blobs"),
            PeerRequest::OpenNamed { core, name } => {
                let key = *self.names.entry(name).or_insert_with(|| {
                    *hypercore::generate_signing_key().verifying_key().as_bytes()
                });
                self.cores.entry(key).or_default().writable = true;
                self.open(core, key)
            }
            PeerRequest::OpenKeyed { core, key } => self.open(core, *key.as_bytes()),
            PeerRequest::Replicate => PeerReply::Replicating,
            PeerRequest::AppendEntry { bytes } => {
                let key = self.keys_core;
                self.cores.get_mut(&key).unwrap().blocks.push(bytes);
                PeerReply::Appended
            }
            PeerRequest::ReadEntry => {
                PeerReply::Block(self.cores[&self.keys_core].blocks.first().cloned())
            }
            PeerRequest::DecodeEntry { bytes } => match decode_entry(&bytes) {
                Ok(raw) => PeerReply::Entry(raw),
                Err(error) => PeerReply::Malformed(error),
            },
            PeerRequest::Wait { millis } => {
                assert_eq!(millis, 25);
                self.arriving = match self.arriving.take() {
                    Some((1, block)) => {
                        let key = self.keys_core;
                        self.cores.get_mut(&key).unwrap().blocks.push(block);
                        None
                    }
                    Some((waits, block)) => Some((waits - 1, block)),
                    None => None,
                };
                PeerReply::Waited
            }
            PeerRequest::AttachFeed | PeerRequest::AttachBlobs => PeerReply::Attached,
        }
    }

    fn run<S: Operation<PeerRequest, Reply>>(
        &mut self,
        mut step: Step<PeerRequest, S, S::Value, S::Failure>,
    ) -> Result<S::Value, S::Failure> {
        loop {
            match step {
                Step::Done(result) => return result,
                Step::Ask(request, state) => step = state.resume(self.serve(request)),
            }
        }
    }

    fn writer(&mut self, name: &str) -> Result<Peer, Failed> {
        self.run(Peer::writer(name))
    }

    fn reader(&mut self, key: PublicKey) -> Result<Peer, Failed> {
        self.run(Peer::reader(key))
    }

    /// A store that has a block in the core with this key.
    fn with_block(key: PublicKey, block: Vec<u8>) -> MemoryStore {
        let mut store = MemoryStore::default();
        let core = MemoryCore { writable: false, blocks: vec![block] };
        store.cores.insert(*key.as_bytes(), core);
        store
    }

    fn blocks(&self, key: PublicKey) -> &[Vec<u8>] {
        &self.cores[key.as_bytes()].blocks
    }
}

fn some_key() -> PublicKey {
    PublicKey::from_bytes(hypercore::generate_signing_key().verifying_key().as_bytes()).unwrap()
}

fn connected_writer_and_reader() -> (Peer, Peer) {
    let mut store_a = MemoryStore::default();
    let writer = store_a.writer("feed").unwrap();
    let entry = store_a.blocks(writer.keys_core_public_key())[0].clone();
    let mut store_b = MemoryStore { arriving: Some((3, entry)), ..MemoryStore::default() };
    let reader = store_b.reader(writer.keys_core_public_key()).unwrap();
    (writer, reader)
}

#[test]
fn writer_is_writer_reader_is_not() {
    let (writer, reader) = connected_writer_and_reader();
    assert!(writer.is_writer());
    assert!(!reader.is_writer());
}

#[test]
fn reader_discovers_the_writers_keys() {
    let (writer, reader) = connected_writer_and_reader();
    assert_eq!(reader.public_key(), writer.public_key());
    let (w, r) = (writer.public_keys(), reader.public_keys());
    assert_eq!(w.blob_keys, r.blob_keys);
    assert_eq!(w.blobs, r.blobs);
    assert_eq!(reader.keys_core_public_key(), writer.keys_core_public_key());
}

#[test]
fn the_cores_have_their_names() {
    assert_eq!(name_of_core("blog", Core::Feed), "blog");
    assert_eq!(name_of_core("blog", Core::BlobKeys), "blog-blobKeys");
    assert_eq!(name_of_core("blog", Core::Blobs), "blog-blobs");
    assert_eq!(name_of_core("blog", Core::Keys), "blog-keys");
}

#[test]
fn a_writer_opens_its_named_cores() {
    let mut store = MemoryStore::default();
    let writer = store.writer("blog").unwrap();
    let names: Vec<&String> = store.names.keys().collect();
    assert_eq!(names, ["blog", "blog-blobKeys", "blog-blobs", "blog-keys"]);
    assert_eq!(writer.public_key().as_bytes(), &store.names["blog"]);
    assert_eq!(writer.public_keys().feed.as_bytes(), &store.names["blog"]);
    assert_eq!(writer.public_keys().blob_keys.as_bytes(), &store.names["blog-blobKeys"]);
    assert_eq!(writer.public_keys().blobs.as_bytes(), &store.names["blog-blobs"]);
    assert_eq!(writer.keys_core_public_key().as_bytes(), &store.names["blog-keys"]);
    let asked: Vec<&str> =
        store.requests.iter().map(|r| r.split([' ', '{']).next().unwrap()).collect();
    assert_eq!(
        asked,
        [
            "OpenNamed",
            "OpenNamed",
            "OpenNamed",
            "OpenNamed",
            "AppendEntry",
            "AttachFeed",
            "AttachBlobs"
        ]
    );
}

#[test]
fn a_writer_bootstraps_once() {
    let mut store = MemoryStore::default();
    let first = store.writer("blog").unwrap();
    assert_eq!(store.blocks(first.keys_core_public_key()).len(), 1);
    let second = store.writer("blog").unwrap();
    assert_eq!(store.blocks(first.keys_core_public_key()).len(), 1);
    assert_eq!(first.public_keys(), second.public_keys());
    assert_eq!(first.keys_core_public_key(), second.keys_core_public_key());
    let other = store.writer("other").unwrap();
    assert_ne!(first.public_key(), other.public_key());
}

#[test]
fn the_bootstrap_entry_holds_the_keys() {
    let mut store = MemoryStore::default();
    let writer = store.writer("blog").unwrap();
    let block = &store.blocks(writer.keys_core_public_key())[0];
    let raw = decode_entry(block).unwrap();
    assert_eq!(raw.feed, hyper_rss::keys::encode_key(&writer.public_key()));
    assert_eq!(raw.blob_keys, hyper_rss::keys::encode_key(&writer.public_keys().blob_keys));
    assert_eq!(raw.blobs, hyper_rss::keys::encode_key(&writer.public_keys().blobs));
    assert_eq!(*block, entry_bytes(&raw));
}

#[test]
fn a_reader_with_the_secret_key_is_a_writer() {
    let mut store = MemoryStore::default();
    let writer = store.writer("blog").unwrap();
    let reader = store.reader(writer.keys_core_public_key()).unwrap();
    assert!(reader.is_writer());
    assert_eq!(reader.public_keys(), writer.public_keys());
}

#[test]
fn a_reader_waits_for_the_entry() {
    let mut store_a = MemoryStore::default();
    let writer = store_a.writer("blog").unwrap();
    let entry = store_a.blocks(writer.keys_core_public_key())[0].clone();
    let mut store_b = MemoryStore { arriving: Some((40, entry)), ..MemoryStore::default() };
    store_b.reader(writer.keys_core_public_key()).unwrap();
    let waits = store_b.requests.iter().filter(|r| r.starts_with("Wait")).count();
    let reads = store_b.requests.iter().filter(|r| r.starts_with("ReadEntry")).count();
    assert_eq!((waits, reads), (40, 41));
}

#[test]
fn a_reader_replicates_before_it_reads() {
    let step: Step<PeerRequest, Reader, Peer, Failed> = Peer::reader(some_key());
    let Step::Ask(PeerRequest::OpenKeyed { core: Core::Keys, key }, reader) = step else {
        panic!("the keys core is opened first");
    };
    let info = CoreInfo { public: key, writable: false, length: 0 };
    let Step::Ask(PeerRequest::Replicate, reader) = reader.resume(Reply::Opened(info)) else {
        panic!("replication follows");
    };
    let Step::Ask(PeerRequest::ReadEntry, reader) = reader.resume(Reply::Replicating) else {
        panic!("the entry is read");
    };
    let Step::Ask(PeerRequest::Wait { millis }, reader) = reader.resume(Reply::Block(None)) else {
        panic!("it is not there yet");
    };
    assert_eq!(millis, RETRY_MILLIS);
    assert!(matches!(
        reader.resume(Reply::Waited),
        Step::Ask(PeerRequest::ReadEntry, Reader::Reading { .. })
    ));
}

#[test]
fn an_entry_that_is_no_json_is_reported() {
    let key = some_key();
    let mut store = MemoryStore::with_block(key, b"no json".to_vec());
    assert!(matches!(store.reader(key), Err(PeerError::KeysEntryDecode(_))));
}

#[test]
fn an_entry_with_a_text_that_is_no_key_is_reported() {
    let key = some_key();
    let good = hyper_rss::keys::encode_key(&some_key());
    let read = |feed: &str| {
        let texts = format!(r#"{{"feed":"{feed}","blobKeys":"{good}","blobs":"{good}"}}"#);
        let block = format!(r#"{{"keys":{texts}}}"#);
        MemoryStore::with_block(key, block.into_bytes()).reader(key)
    };
    assert!(matches!(
        read("A=AA"),
        Err(PeerError::KeyEncoding(Fault { position: 1, kind: FaultKind::Symbol }))
    ));
    assert!(matches!(read("AAAA"), Err(PeerError::InvalidPublicKeyLength)));
    assert!(matches!(
        read("AgAAAAAAAAAAAAAAAAAAAAAAAAAAAAAAAAAAAAAAAAA"),
        Err(PeerError::InvalidPublicKey(_))
    ));
    assert!(read(&good).is_ok());
}

#[test]
fn failures_end_a_writer() {
    for at in 0..7 {
        let mut store = MemoryStore { fail_at: Some(at), ..MemoryStore::default() };
        let error = store.writer("blog").unwrap_err();
        assert_eq!(store.requests.len(), at + 1);
        assert!(match at {
            0..=3 => matches!(error, PeerError::Corestore("store")),
            4 => matches!(error, PeerError::Hypercore("core")),
            5 => matches!(error, PeerError::Hyperbee("bee")),
            _ => matches!(error, PeerError::KeyedBlobs("blobs")),
        });
    }
}

#[test]
fn failures_end_a_reader() {
    let mut store = MemoryStore::default();
    let writer = store.writer("blog").unwrap();
    let entry = store.blocks(writer.keys_core_public_key())[0].clone();
    for at in [0, 2, 4, 5, 6, 7, 8] {
        let mut store = MemoryStore::with_block(writer.keys_core_public_key(), entry.clone());
        store.fail_at = Some(at);
        let error = store.reader(writer.keys_core_public_key()).unwrap_err();
        assert_eq!(store.requests.len(), at + 1);
        assert!(match at {
            0 | 4 | 5 | 6 => matches!(error, PeerError::Corestore("store")),
            2 => matches!(error, PeerError::Hypercore("core")),
            7 => matches!(error, PeerError::Hyperbee("bee")),
            _ => matches!(error, PeerError::KeyedBlobs("blobs")),
        });
    }
}

#[test]
fn a_reader_opens_what_it_learned() {
    let keys = PeerKeys { feed: some_key(), blob_keys: some_key(), blobs: some_key() };
    let step: Step<PeerRequest, Reader, Peer, Failed> = reader_learned(some_key(), Ok(keys));
    assert!(matches!(
        step,
        Step::Ask(PeerRequest::OpenKeyed { core: Core::Feed, key }, Reader::OpeningFeed { .. })
            if key == keys.feed
    ));
    let step: Step<PeerRequest, Reader, Peer, Failed> =
        reader_learned(some_key(), Err(KeyError::InvalidPublicKeyLength));
    assert!(matches!(step, Step::Done(Err(PeerError::InvalidPublicKeyLength))));
}
