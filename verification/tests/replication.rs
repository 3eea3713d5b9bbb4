//! A writer's stores as they reach a reader, entry by entry.

use std::collections::BTreeMap;

use hyper_rss::bee::{BeeReply, BeeRequest, KeyValue};
use hyper_rss::keyed_blobs::{BlobsReply, BlobsRequest};
use hyper_rss::step::{Operation, Step};
use hyper_rss::{FeedError, KeyedBlobs, KeyedBlobsError, OrderedHyperbee};

type Entries = BTreeMap<Vec<u8>, (u64, Option<Vec<u8>>)>;

/// A feed, an index and blobs. What is written goes to a log too.
#[derive(Default)]
struct Replica {
    feed: Entries,
    keys: Entries,
    blobs: Vec<Vec<u8>>,
    walk: Vec<KeyValue>,
    log: Vec<Change>,
}

#[derive(Clone)]
enum Change {
    Feed(Vec<u8>, Vec<u8>),
    Key(Vec<u8>, Vec<u8>),
    Blob(Vec<u8>),
}

impl Replica {
    fn apply(&mut self, change: Change) {
        self.log.push(change.clone());
        let seq = self.log.len() as u64;
        match change {
            Change::Feed(key, value) => drop(self.feed.insert(key, (seq, Some(value)))),
            Change::Key(key, value) => drop(self.keys.insert(key, (seq, Some(value)))),
            Change::Blob(blob) => self.blobs.push(blob),
        }
    }

    /// Takes over the next change of another replica, if there is one.
    fn catch_up(&mut self, other: &Replica) {
        if let Some(change) = other.log.get(self.log.len()) {
            self.apply(change.clone());
        }
    }

    fn feed_reply(&mut self, request: BeeRequest) -> BeeReply<()> {
        let full_key = |sub: hyper_rss::bee::Sub, key: &[u8]| {
            [&sub.prefix_bytes()[..], &[0], key].concat()
        };
        match request {
            BeeRequest::Get { sub, key } => {
                BeeReply::Found(self.feed.get(&full_key(sub, &key)).cloned())
            }
            BeeRequest::Put { sub, key, value } => {
                self.apply(Change::Feed(full_key(sub, &key), value));
                BeeReply::Written
            }
            BeeRequest::Traverse { sub, .. } => {
                let prefix = full_key(sub, b"");
                self.walk = self
                    .feed
                    .iter()
                    .rev()
                    .filter(|(key, _)| key.starts_with(&prefix))
                    .map(|(key, (seq, value))| KeyValue {
                        seq: *seq,
                        key: key[prefix.len()..].to_vec(),
                        value: value.clone(),
                    })
                    .collect();
                BeeReply::Opened
            }
            BeeRequest::Next => BeeReply::Item(if self.walk.is_empty() {
                None
            } else {
                Some(self.walk.remove(0))
            }),
            other => panic!("{other:?}"),
        }
    }

    fn blobs_reply(&mut self, request: BlobsRequest<u64>) -> BlobsReply<u64, (), ()> {
        match request {
            BlobsRequest::GetKey { key } => BlobsReply::Found(self.keys.get(&key).cloned()),
            BlobsRequest::PutKey { key, value } => {
                self.apply(Change::Key(key, value));
                BlobsReply::Written
            }
            BlobsRequest::Store { blob } => {
                let id = self.blobs.len() as u64;
                self.apply(Change::Blob(blob));
                BlobsReply::Stored { id, encoded: serde_json::to_vec(&id).unwrap() }
            }
            BlobsRequest::Decode { bytes } => {
                BlobsReply::Decoded(serde_json::from_slice(&bytes).unwrap())
            }
            BlobsRequest::Fetch { id } => match self.blobs.get(id as usize) {
                Some(blob) => BlobsReply::Fetched(blob.clone()),
                None => BlobsReply::BlobsFailed(()),
            },
            other => panic!("{other:?}"),
        }
    }

    fn feed<S: Operation<BeeRequest, BeeReply<()>, Failure = FeedError<()>>>(
        &mut self,
        mut step: Step<BeeRequest, S, S::Value, S::Failure>,
    ) -> Result<S::Value, FeedError<()>> {
        loop {
            match step {
                Step::Done(result) => return result,
                Step::Ask(request, state) => step = state.resume(self.feed_reply(request)),
            }
        }
    }

    fn blobs<S: Operation<BlobsRequest<u64>, BlobsReply<u64, (), ()>>>(
        &mut self,
        mut step: Step<BlobsRequest<u64>, S, S::Value, S::Failure>,
    ) -> Result<S::Value, S::Failure> {
        loop {
            match step {
                Step::Done(result) => return result,
                Step::Ask(request, state) => step = state.resume(self.blobs_reply(request)),
            }
        }
    }
}

#[test]
fn writer_and_reader_replicate_a_feed() {
    let feed = OrderedHyperbee::new();
    let mut writer = Replica::default();
    let mut reader = Replica::default();

    writer.feed(feed.put_ordered_item(b"hello", b"world")).unwrap();

    let mut n_loops = 0;
    loop {
        if let Ok(true) = reader.feed(feed.has_key(b"hello")) {
            break;
        }
        if n_loops > 25 {
            panic!("reader never saw the writer's item");
        }
        reader.catch_up(&writer);
        n_loops += 1;
    }
    assert_eq!(n_loops, 2);
}

#[test]
fn writer_and_reader_replicate_keyed_blobs() {
    let keyed_blobs = KeyedBlobs::new();
    let mut writer = Replica::default();
    let mut reader = Replica::default();

    writer.blobs(keyed_blobs.put(b"picture.png", b"not really a png")).unwrap();

    let mut n_loops = 0;
    loop {
        let gotten: Result<_, KeyedBlobsError<(), ()>> =
            reader.blobs(keyed_blobs.get(b"picture.png"));
        if let Ok(Some(blob)) = gotten {
            assert_eq!(blob, b"not really a png");
            break;
        }
        if n_loops > 25 {
            panic!("reader never saw the writer's blob");
        }
        reader.catch_up(&writer);
        n_loops += 1;
    }
    assert_eq!(n_loops, 2);
}
