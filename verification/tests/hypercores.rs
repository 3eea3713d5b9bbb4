//! A writer and a reader over Hypercores in memory.

use std::collections::BTreeMap;

use futures_lite::future::block_on;
use hyper_rss::keys::{PublicKey, RawPeerKeys};
use hyper_rss::peer::{Core, CoreInfo, PeerReply, PeerRequest};
use hyper_rss::step::{Operation, Step};
use hyper_rss::{Peer, PeerError};
use hypercore::{Hypercore, HypercoreBuilder, HypercoreError, PartialKeypair, Storage};

type Reply = PeerReply<HypercoreError, (), (), HypercoreError>;

type Failed = PeerError<HypercoreError, (), (), HypercoreError>;

/// The cores of one process. The `keys` core is looked up in the cores of another process too,
/// as replication would bring it.
#[derive(Default)]
struct Cores {
    by_key: BTreeMap<[u8; 32], Hypercore>,
    by_name: BTreeMap<String, [u8; 32]>,
    keys_core: [u8; 32],
    remote_entry: Option<Vec<u8>>,
}

fn build(key_pair: PartialKeypair) -> Result<Hypercore, HypercoreError> {
    block_on(async {
        let storage = Storage::new_memory().await?;
        HypercoreBuilder::new(storage).key_pair(key_pair).build().await
    })
}

impl Cores {
    fn opened(&mut self, core: Core, key: [u8; 32]) -> Reply {
        if core == Core::Keys {
            self.keys_core = key;
        }
        let opened = &self.by_key[&key];
        PeerReply::Opened(CoreInfo {
            public: PublicKey::from_bytes(opened.key_pair().public.as_bytes()).unwrap(),
            writable: opened.key_pair().secret.is_some(),
            length: opened.info().length,
        })
    }

    fn serve(&mut self, request: PeerRequest) -> Reply {
        match request {
            PeerRequest::OpenNamed { core, name } => {
                if !self.by_name.contains_key(&name) {
                    let secret = hypercore::generate_signing_key();
                    let public = secret.verifying_key();
                    match build(PartialKeypair { public, secret: Some(secret) }) {
                        Ok(hypercore) => self.by_key.insert(*public.as_bytes(), hypercore),
                        Err(error) => return PeerReply::StoreFailed(error),
                    };
                    self.by_name.insert(name.clone(), *public.as_bytes());
                }
                self.opened(core, self.by_name[&name])
            }
            PeerRequest::OpenKeyed { core, key } => {
                if !self.by_key.contains_key(key.as_bytes()) {
                    let public = hypercore::VerifyingKey::from_bytes(key.as_bytes()).unwrap();
                    match build(PartialKeypair { public, secret: None }) {
                        Ok(hypercore) => self.by_key.insert(*key.as_bytes(), hypercore),
                        Err(error) => return PeerReply::StoreFailed(error),
                    };
                }
                self.opened(core, *key.as_bytes())
            }
            PeerRequest::Replicate => PeerReply::Replicating,
            PeerRequest::AppendEntry { bytes } => {
                let core = self.by_key.get_mut(&self.keys_core).unwrap();
                match block_on(core.append(&bytes)) {
                    Ok(_) => PeerReply::Appended,
                    Err(error) => PeerReply::CoreFailed(error),
                }
            }
            PeerRequest::ReadEntry => {
                let core = self.by_key.get_mut(&self.keys_core).unwrap();
                match block_on(core.get(0)) {
                    Ok(Some(block)) => PeerReply::Block(Some(block)),
                    Ok(None) => PeerReply::Block(self.remote_entry.clone()),
                    Err(error) => PeerReply::CoreFailed(error),
                }
            }
            PeerRequest::DecodeEntry { bytes } => {
                match serde_json::from_slice::<serde_json::Value>(&bytes) {
                    Ok(entry) => {
                        let text = |name: &str| entry["keys"][name].as_str().unwrap().to_string();
                        PeerReply::Entry(RawPeerKeys {
                            feed: text("feed"),
                            blob_keys: text("blobKeys"),
                            blobs: text("blobs"),
                        })
                    }
                    Err(error) => PeerReply::Malformed(error),
                }
            }
            PeerRequest::Wait { .. } => PeerReply::Waited,
            PeerRequest::AttachFeed | PeerRequest::AttachBlobs => PeerReply::Attached,
        }
    }

    fn run<S: Operation<PeerRequest, Reply, Value = Peer, Failure = Failed>>(
        &mut self,
        mut step: Step<PeerRequest, S, Peer, Failed>,
    ) -> Result<Peer, Failed> {
        loop {
            match step {
                Step::Done(result) => return result,
                Step::Ask(request, state) => step = state.resume(self.serve(request)),
            }
        }
    }

    fn first_block(&mut self, key: PublicKey) -> Option<Vec<u8>> {
        block_on(self.by_key.get_mut(key.as_bytes()).unwrap().get(0)).unwrap()
    }
}

#[test]
fn a_writer_over_hypercores_is_found_by_a_reader() {
    let mut here = Cores::default();
    let writer = here.run(Peer::writer("blog")).unwrap();
    assert!(writer.is_writer());
    let entry = here.first_block(writer.keys_core_public_key());
    assert!(entry.is_some());

    let mut there = Cores { remote_entry: entry, ..Cores::default() };
    let reader = there.run(Peer::reader(writer.keys_core_public_key())).unwrap();
    assert!(!reader.is_writer());
    assert_eq!(reader.public_keys(), writer.public_keys());
    assert_eq!(reader.keys_core_public_key(), writer.keys_core_public_key());
}

#[test]
fn a_writer_over_hypercores_appends_one_entry() {
    let mut cores = Cores::default();
    let first = cores.run(Peer::writer("blog")).unwrap();
    let second = cores.run(Peer::writer("blog")).unwrap();
    assert_eq!(first.public_keys(), second.public_keys());
    let keys_core = &cores.by_key[first.keys_core_public_key().as_bytes()];
    assert_eq!(keys_core.info().length, 1);
}
