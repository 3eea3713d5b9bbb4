use std::collections::BTreeMap;

use hyper_rss::bee::{BeeReply, BeeRequest, KeyValue, Sub};
use hyper_rss::feed::{value_changes, FeedStream, Streamed};
use hyper_rss::order::order_string_from_number;
use hyper_rss::step::{Operation, Step};
use hyper_rss::{FeedEntry, FeedError, OrderedHyperbee};

type Failure = &'static str;

/// A Hyperbee in memory. Its first block is a header, which comes with the first entry. The walk
/// stands from its end to its start.
struct MemoryBee {
    entries: BTreeMap<Vec<u8>, (u64, Option<Vec<u8>>)>,
    version: u64,
    walk: Vec<KeyValue>,
    requests: Vec<String>,
    fail_at: Option<usize>,
}

impl MemoryBee {
    fn new() -> MemoryBee {
        MemoryBee {
            entries: BTreeMap::new(),
            version: 0,
            walk: vec![],
            requests: vec![],
            fail_at: None,
        }
    }

    fn full_key(sub: Sub, key: &[u8]) -> Vec<u8> {
        let mut full = sub.prefix_bytes();
        full.push(0);
        full.extend_from_slice(key);
        full
    }

    fn set(&mut self, sub: Sub, key: &[u8], value: Option<Vec<u8>>) -> u64 {
        let seq = if self.version == 0 { 1 } else { self.version };
        self.entries.insert(Self::full_key(sub, key), (seq, value));
        self.version = seq + 1;
        seq
    }

    fn serve(&mut self, request: BeeRequest) -> BeeReply<Failure> {
        self.requests.push(format!("{request:?}"));
        if self.fail_at == Some(self.requests.len() - 1) {
            return BeeReply::Failed("broken");
        }
        match request {
            BeeRequest::Version => BeeReply::Version(self.version),
            BeeRequest::Get { sub, key } => {
                BeeReply::Found(self.entries.get(&Self::full_key(sub, &key)).cloned())
            }
            BeeRequest::Put { sub, key, value } => {
                self.set(sub, &key, Some(value));
                BeeReply::Written
            }
            BeeRequest::PutIfChanged { sub, key, value } => {
                let previous = self.entries.get(&Self::full_key(sub, &key)).cloned();
                let previous = previous.as_ref().map(|(_, value)| value.as_deref());
                if value_changes(previous, Some(&value)) {
                    BeeReply::Swapped(Some(self.set(sub, &key, Some(value))))
                } else {
                    BeeReply::Swapped(None)
                }
            }
            BeeRequest::Traverse { sub, reversed } => {
                let prefix = Self::full_key(sub, b"");
                self.walk = self
                    .entries
                    .iter()
                    .filter(|(key, _)| key.starts_with(&prefix))
                    .map(|(key, (seq, value))| KeyValue {
                        seq: *seq,
                        key: key[prefix.len()..].to_vec(),
                        value: value.clone(),
                    })
                    .collect();
                if !reversed {
                    self.walk.reverse();
                }
                BeeReply::Opened
            }
            BeeRequest::Next => BeeReply::Item(self.walk.pop()),
        }
    }

    fn run<S: Operation<BeeRequest, BeeReply<Failure>>>(
        &mut self,
        mut step: Step<BeeRequest, S, S::Value, S::Failure>,
    ) -> Result<S::Value, S::Failure> {
        loop {
            match step {
                Step::Done(result) => return result,
                Step::Ask(request, state) => step = state.resume(self.serve(request)),
            }
        }
    }

    fn put(&mut self, key: &[u8], value: &[u8]) {
        self.run(OrderedHyperbee::new().put_ordered_item(key, value)).unwrap();
    }

    fn next(
        &mut self,
        stream: FeedStream<Failure>,
    ) -> (FeedStream<Failure>, Option<Result<FeedEntry, FeedError<Failure>>>) {
        match self.run(stream.next()).unwrap() {
            (stream, Streamed::Entry(entry)) => (stream, Some(Ok(entry))),
            (stream, Streamed::Failed(error)) => (stream, Some(Err(error))),
            (stream, Streamed::End) => (stream, None),
        }
    }

    fn read_on(
        &mut self,
        mut stream: FeedStream<Failure>,
    ) -> Vec<Result<FeedEntry, FeedError<Failure>>> {
        let mut out = vec![];
        loop {
            let (rest, item) = self.next(stream);
            match item {
                None => return out,
                Some(item) => out.push(item),
            }
            stream = rest;
        }
    }

    fn read(&mut self) -> Vec<Result<FeedEntry, FeedError<Failure>>> {
        let stream = self.run(OrderedHyperbee::new().get_feed_stream()).unwrap();
        self.read_on(stream)
    }

    fn set_item(&mut self, order_key: &[u8], key: &[u8]) {
        self.set(Sub::Order, order_key, Some(key.to_vec()));
        self.set(Sub::Key, key, Some(b"value".to_vec()));
    }
}

#[test]
fn ordered_hyperbee_is_ordered() {
    let feed = OrderedHyperbee::new();
    let mut bee = MemoryBee::new();

    bee.run(feed.put_ordered_item(b"100", b"hundred")).unwrap();
    bee.run(feed.put_ordered_item(b"001", b"one")).unwrap();
    bee.run(feed.put_ordered_item(b"010", b"ten")).unwrap();

    let stream = bee.run(feed.get_feed_stream()).unwrap();

    let (stream, entry) = bee.next(stream);
    let entry = entry.unwrap().unwrap();
    assert_eq!(entry.order_index, 2);
    assert_eq!(entry.key, b"010");
    assert_eq!(entry.value.as_deref(), Some(&b"ten"[..]));

    let (stream, entry) = bee.next(stream);
    let entry = entry.unwrap().unwrap();
    assert_eq!(entry.order_index, 1);
    assert_eq!(entry.key, b"001");
    assert_eq!(entry.value.as_deref(), Some(&b"one"[..]));

    let (stream, entry) = bee.next(stream);
    let entry = entry.unwrap().unwrap();
    assert_eq!(entry.order_index, 0);
    assert_eq!(entry.key, b"100");
    assert_eq!(entry.value.as_deref(), Some(&b"hundred"[..]));

    assert!(bee.next(stream).1.is_none());
}

#[test]
fn has_key_reports_presence() {
    let feed = OrderedHyperbee::new();
    let mut bee = MemoryBee::new();

    assert!(!bee.run(feed.has_key(b"missing")).unwrap());

    bee.run(feed.put_ordered_item(b"present", b"value")).unwrap();
    assert!(bee.run(feed.has_key(b"present")).unwrap());
    assert!(!bee.run(feed.has_key(b"missing")).unwrap());
}

#[test]
fn maybe_update_metadata_is_a_no_op_for_unchanged_values() {
    let feed = OrderedHyperbee::new();
    let mut bee = MemoryBee::new();

    let wrote = bee.run(feed.maybe_update_metadata(b"title", b"a")).unwrap();
    assert!(wrote);
    let version_after_first_write = bee.run(feed.version()).unwrap();

    let wrote_again = bee.run(feed.maybe_update_metadata(b"title", b"a")).unwrap();
    assert!(!wrote_again);
    assert_eq!(bee.run(feed.version()).unwrap(), version_after_first_write);

    let wrote_changed = bee.run(feed.maybe_update_metadata(b"title", b"b")).unwrap();
    assert!(wrote_changed);
    assert_eq!(
        bee.run(feed.get_metadata_value(b"title")).unwrap().as_deref(),
        Some(&b"b"[..])
    );
}

#[test]
fn the_subs_have_their_prefixes() {
    assert_eq!(Sub::Key.prefix_bytes(), b"key");
    assert_eq!(Sub::Order.prefix_bytes(), b"order");
    assert_eq!(Sub::Metadata.prefix_bytes(), b"metadata");
}

#[test]
fn an_empty_feed_streams_nothing() {
    let mut bee = MemoryBee::new();
    assert!(bee.read().is_empty());
}

#[test]
fn the_next_position_is_the_number_of_items() {
    let feed = OrderedHyperbee::new();
    let mut bee = MemoryBee::new();
    assert_eq!(bee.run(feed.get_next_highest()).unwrap(), 0);
    for n in 0..12 {
        assert_eq!(bee.run(feed.get_next_highest()).unwrap(), n);
        bee.put(format!("item {n}").as_bytes(), b"value");
    }
    assert_eq!(bee.run(feed.get_next_highest()).unwrap(), 12);
}

#[test]
fn the_next_position_follows_the_greatest_one() {
    let feed = OrderedHyperbee::new();
    let mut bee = MemoryBee::new();
    bee.set(Sub::Order, b"000041", Some(b"item".to_vec()));
    bee.set(Sub::Order, b"000007", Some(b"item".to_vec()));
    assert_eq!(bee.run(feed.get_next_highest()).unwrap(), 42);
    bee.run(feed.put_next_in_order(b"another")).unwrap();
    assert_eq!(bee.entries[&b"order\x00000042".to_vec()].1.as_deref(), Some(&b"another"[..]));
    assert!(!bee.run(feed.has_key(b"another")).unwrap());
}

#[test]
fn the_last_position_but_one_can_be_followed() {
    let feed = OrderedHyperbee::new();
    let mut bee = MemoryBee::new();
    bee.set(Sub::Order, &order_string_from_number(u64::MAX - 1), Some(b"item".to_vec()));
    assert_eq!(bee.run(feed.get_next_highest()).unwrap(), u64::MAX);
}

#[test]
fn the_next_position_is_counted_and_not_sorted() {
    let feed = OrderedHyperbee::new();
    let mut bee = MemoryBee::new();
    bee.set(Sub::Order, b"999999", Some(b"a".to_vec()));
    assert_eq!(bee.run(feed.get_next_highest()).unwrap(), 1_000_000);
    bee.run(feed.put_next_in_order(b"b")).unwrap();
    assert_eq!(bee.run(feed.get_next_highest()).unwrap(), 1_000_001);
    bee.run(feed.put_next_in_order(b"c")).unwrap();
    assert_eq!(bee.entries[&b"order\x001000000".to_vec()].1.as_deref(), Some(&b"b"[..]));
    assert_eq!(bee.entries[&b"order\x001000001".to_vec()].1.as_deref(), Some(&b"c"[..]));
    assert_eq!(bee.run(feed.get_next_highest()).unwrap(), 1_000_002);
}

#[test]
fn a_million_and_one_items_are_counted_and_streamed_from_the_newest() {
    let feed = OrderedHyperbee::new();
    let mut bee = MemoryBee::new();
    for n in 0..=1_000_000 {
        bee.set(Sub::Order, &order_string_from_number(n), Some(b"item".to_vec()));
    }
    bee.set(Sub::Order, b"1000000", Some(b"newest".to_vec()));
    bee.set(Sub::Key, b"item", Some(b"value".to_vec()));
    bee.set(Sub::Key, b"newest", Some(b"value".to_vec()));
    assert_eq!(bee.run(feed.get_next_highest()).unwrap(), 1_000_001);
    let mut stream = bee.run(feed.get_feed_stream()).unwrap();
    for n in [1_000_000, 999_999, 999_998] {
        let (rest, entry) = bee.next(stream);
        let entry = entry.unwrap().unwrap();
        assert_eq!(entry.order_index, n);
        assert_eq!(entry.key == b"newest", n == 1_000_000);
        stream = rest;
    }
}

#[test]
fn positions_of_all_lengths_are_streamed_by_descending_numbers() {
    let mut bee = MemoryBee::new();
    let numbers = [0, 7, 99_999, 100_000, 999_999, 1_000_000, 1_000_001, 25_000_000, u64::MAX];
    for n in numbers {
        bee.set_item(&order_string_from_number(n), format!("item {n}").as_bytes());
    }
    let read: Vec<u64> = bee.read().into_iter().map(|e| e.unwrap().order_index).collect();
    let mut expected = numbers.to_vec();
    expected.reverse();
    assert_eq!(read, expected);
}

#[test]
fn puts_past_a_million_keep_the_order() {
    let mut bee = MemoryBee::new();
    bee.set_item(b"999997", b"old");
    for n in 0..6 {
        bee.put(format!("new {n}").as_bytes(), b"value");
    }
    let read: Vec<(u64, Vec<u8>)> =
        bee.read().into_iter().map(|e| e.unwrap()).map(|e| (e.order_index, e.key)).collect();
    assert_eq!(read.len(), 7);
    for (k, (order_index, key)) in read.iter().take(6).enumerate() {
        assert_eq!(*order_index, 1_000_003 - k as u64);
        assert_eq!(key, format!("new {}", 5 - k).as_bytes());
    }
    assert_eq!(read[6], (999_997, b"old".to_vec()));
}

#[test]
fn a_lesser_key_that_is_no_number_does_not_count() {
    let feed = OrderedHyperbee::new();
    let mut bee = MemoryBee::new();
    bee.set(Sub::Order, b"!", Some(b"a".to_vec()));
    bee.set(Sub::Order, b"000004", Some(b"a".to_vec()));
    assert_eq!(bee.run(feed.get_next_highest()).unwrap(), 5);
}

#[test]
fn a_lesser_key_for_the_last_position_does_not_count() {
    let feed = OrderedHyperbee::new();
    let mut bee = MemoryBee::new();
    bee.set(Sub::Order, &order_string_from_number(u64::MAX), Some(b"a".to_vec()));
    bee.set(Sub::Order, b"200000", Some(b"a".to_vec()));
    assert_eq!(bee.run(feed.get_next_highest()).unwrap(), 200_001);
}

#[test]
fn a_walk_that_fails_after_the_greatest_key_leaves_the_next_position() {
    let feed = OrderedHyperbee::new();
    let mut bee = MemoryBee::new();
    bee.set_item(b"000005", b"five");
    bee.set_item(b"000004", b"four");
    bee.fail_at = Some(2);
    assert_eq!(bee.run(feed.get_next_highest()).unwrap(), 6);
    assert_eq!(bee.requests.len(), 3);
}

#[test]
fn a_put_succeeds_when_the_walk_fails_after_the_greatest_key() {
    let feed = OrderedHyperbee::new();
    let mut bee = MemoryBee::new();
    bee.set_item(b"000005", b"five");
    bee.set_item(b"000004", b"four");
    bee.fail_at = Some(2);
    bee.run(feed.put_ordered_item(b"six", b"6")).unwrap();
    assert_eq!(bee.entries[&b"order\x00000006".to_vec()].1.as_deref(), Some(&b"six"[..]));
    assert_eq!(bee.entries[&b"key\x00six".to_vec()].1.as_deref(), Some(&b"6"[..]));
}

#[test]
fn a_walk_that_fails_at_the_greatest_key_stops_a_put() {
    let feed = OrderedHyperbee::new();
    let mut bee = MemoryBee::new();
    bee.set_item(b"000005", b"five");
    bee.fail_at = Some(1);
    let version = bee.version;
    let result = bee.run(feed.put_ordered_item(b"six", b"6"));
    assert!(matches!(result, Err(FeedError::Hyperbee("broken"))));
    assert_eq!(bee.version, version);
}

#[test]
fn order_keys_without_items_still_count() {
    let feed = OrderedHyperbee::new();
    let mut bee = MemoryBee::new();
    bee.set(Sub::Order, b"000009", None);
    bee.set(Sub::Order, b"000003", Some(b"gone".to_vec()));
    assert_eq!(bee.run(feed.get_next_highest()).unwrap(), 10);
}

#[test]
fn every_broken_entry_is_reported_in_its_place_and_nothing_changes() {
    let mut bee = MemoryBee::new();
    bee.set_item(b"000000", b"zero");
    bee.set(Sub::Order, b"000001", None);
    bee.set_item(b"000002", b"two");
    bee.set(Sub::Order, b"000003", Some(b"gone".to_vec()));
    bee.set(Sub::Order, b"000003?", Some(b"two".to_vec()));
    bee.set_item(b"000004", b"four");
    let (entries, version) = (bee.entries.clone(), bee.version);
    let read = bee.read();
    assert_eq!(read.len(), 6);
    assert_eq!(read[0].as_ref().unwrap().key, b"four");
    assert!(matches!(&read[1], Err(FeedError::InvalidOrderKey(key)) if key == b"000003?"));
    assert!(matches!(&read[2], Err(FeedError::MissingKeyEntry(key)) if key == b"gone"));
    assert_eq!(read[3].as_ref().unwrap().key, b"two");
    assert!(matches!(read[4], Err(FeedError::MissingOrderValue(1))));
    assert_eq!(read[5].as_ref().unwrap().key, b"zero");
    assert_eq!((bee.entries, bee.version), (entries, version));
}

#[test]
fn a_key_that_is_no_number_keeps_its_place_in_the_stream() {
    let mut bee = MemoryBee::new();
    bee.set_item(b"000001", b"one");
    bee.set_item(b"000002", b"two");
    bee.set(Sub::Order, b"000001x", Some(b"one".to_vec()));
    let read = bee.read();
    assert_eq!(read[0].as_ref().unwrap().order_index, 2);
    assert!(matches!(&read[1], Err(FeedError::InvalidOrderKey(key)) if key == b"000001x"));
    assert_eq!(read[2].as_ref().unwrap().order_index, 1);
    assert_eq!(read.len(), 3);
}

#[test]
fn a_walk_that_fails_gives_what_was_read_then_the_error_then_the_rest() {
    let mut bee = MemoryBee::new();
    for n in 0..4 {
        bee.set_item(&order_string_from_number(n), b"item");
    }
    let stream = bee.run(OrderedHyperbee::new().get_feed_stream()).unwrap();
    bee.fail_at = Some(bee.requests.len() + 2);
    let read = bee.read_on(stream);
    let positions: Vec<Option<u64>> =
        read.iter().map(|item| item.as_ref().ok().map(|entry| entry.order_index)).collect();
    assert_eq!(positions, [Some(3), Some(2), None, Some(1), Some(0)]);
    assert!(matches!(read[2], Err(FeedError::Hyperbee("broken"))));
}

#[test]
fn a_lookup_that_fails_is_an_error_in_the_place_of_its_entry() {
    let mut bee = MemoryBee::new();
    bee.set_item(b"000000", b"a");
    bee.set_item(b"000001", b"b");
    let stream = bee.run(OrderedHyperbee::new().get_feed_stream()).unwrap();
    bee.fail_at = Some(bee.requests.len() + 3);
    let read = bee.read_on(stream);
    assert_eq!(read.len(), 2);
    assert!(matches!(read[0], Err(FeedError::Hyperbee("broken"))));
    assert_eq!(read[1].as_ref().unwrap().order_index, 0);
}

#[test]
fn putting_asks_for_the_order_before_the_item() {
    let mut bee = MemoryBee::new();
    bee.put(b"k", b"v");
    let asked: Vec<&str> =
        bee.requests.iter().map(|r| r.split([' ', '{']).next().unwrap()).collect();
    assert_eq!(asked, ["Traverse", "Next", "Put", "Put"]);
    assert!(bee.requests[0].contains("sub: Order, reversed: true"));
    assert!(bee.requests[2].contains("sub: Order"));
    assert!(bee.requests[3].contains("sub: Key"));
}

#[test]
fn putting_takes_two_blocks_beside_the_header() {
    let feed = OrderedHyperbee::new();
    let mut bee = MemoryBee::new();
    assert_eq!(bee.run(feed.version()).unwrap(), 0);
    bee.put(b"a", b"1");
    assert_eq!(bee.run(feed.version()).unwrap(), 3);
    bee.put(b"b", b"2");
    assert_eq!(bee.run(feed.version()).unwrap(), 5);
}

#[test]
fn an_item_put_twice_stands_at_both_positions_with_its_last_value() {
    let mut bee = MemoryBee::new();
    bee.put(b"a", b"1");
    bee.put(b"b", b"2");
    bee.put(b"a", b"3");
    let read: Vec<(u64, Vec<u8>, Option<Vec<u8>>)> = bee
        .read()
        .into_iter()
        .map(|entry| entry.unwrap())
        .map(|entry| (entry.order_index, entry.key, entry.value))
        .collect();
    assert_eq!(
        read,
        [
            (2, b"a".to_vec(), Some(b"3".to_vec())),
            (1, b"b".to_vec(), Some(b"2".to_vec())),
            (0, b"a".to_vec(), Some(b"3".to_vec())),
        ]
    );
}

#[test]
fn entries_carry_the_block_of_the_item() {
    let mut bee = MemoryBee::new();
    bee.put(b"a", b"1");
    bee.put(b"b", b"2");
    let seqs: Vec<u64> = bee.read().into_iter().map(|entry| entry.unwrap().seq).collect();
    assert_eq!(seqs, [4, 2]);
}

#[test]
fn items_and_metadata_with_one_key_stay_apart() {
    let feed = OrderedHyperbee::new();
    let mut bee = MemoryBee::new();
    bee.run(feed.put_metadata(b"title", b"meta")).unwrap();
    assert!(!bee.run(feed.has_key(b"title")).unwrap());
    bee.put(b"title", b"item");
    assert_eq!(
        bee.run(feed.get_metadata_value(b"title")).unwrap().as_deref(),
        Some(&b"meta"[..])
    );
    assert_eq!(bee.read().remove(0).unwrap().value.as_deref(), Some(&b"item"[..]));
}

#[test]
fn the_stream_reports_a_key_that_is_no_number_and_goes_on() {
    let mut bee = MemoryBee::new();
    bee.put(b"a", b"1");
    bee.set(Sub::Order, b"zzz", Some(b"a".to_vec()));
    let read = bee.read();
    assert_eq!(read.len(), 2);
    assert!(matches!(&read[0], Err(FeedError::InvalidOrderKey(key)) if key == b"zzz"));
    assert_eq!(read[1].as_ref().unwrap().order_index, 0);
}

#[test]
fn a_key_that_is_no_number_stops_a_put() {
    let mut bee = MemoryBee::new();
    bee.set(Sub::Order, b"zzz", Some(b"a".to_vec()));
    let version = bee.version;
    let result = bee.run(OrderedHyperbee::new().put_ordered_item(b"k", b"v"));
    assert!(matches!(result, Err(FeedError::InvalidOrderKey(key)) if key == b"zzz"));
    assert_eq!(bee.version, version);
}

#[test]
fn the_stream_reports_a_position_without_a_key() {
    let mut bee = MemoryBee::new();
    bee.set(Sub::Order, b"000003", None);
    let read = bee.read();
    assert_eq!(read.len(), 1);
    assert!(matches!(read[0], Err(FeedError::MissingOrderValue(3))));
}

#[test]
fn the_stream_reports_a_key_without_an_item() {
    let mut bee = MemoryBee::new();
    bee.set(Sub::Order, b"000000", Some(b"gone".to_vec()));
    let read = bee.read();
    assert_eq!(read.len(), 1);
    assert!(matches!(&read[0], Err(FeedError::MissingKeyEntry(key)) if key == b"gone"));
}

#[test]
fn an_item_without_a_value_is_streamed() {
    let mut bee = MemoryBee::new();
    bee.set(Sub::Order, b"000000", Some(b"k".to_vec()));
    bee.set(Sub::Key, b"k", None);
    let read = bee.read();
    assert_eq!(read.len(), 1);
    let entry = read[0].as_ref().unwrap();
    assert_eq!((entry.order_index, entry.value.as_deref()), (0, None));
}

#[test]
fn a_failure_ends_a_put_wherever_it_comes() {
    for at in 0..4 {
        let mut bee = MemoryBee::new();
        bee.fail_at = Some(at);
        let result = bee.run(OrderedHyperbee::new().put_ordered_item(b"k", b"v"));
        assert!(matches!(result, Err(FeedError::Hyperbee("broken"))));
        assert_eq!(bee.requests.len(), at + 1);
    }
}

#[test]
fn a_failure_ends_every_other_operation() {
    let feed = OrderedHyperbee::new();
    let mut bee = MemoryBee::new();
    let mut fail = |bee: &mut MemoryBee| bee.fail_at = Some(bee.requests.len());
    fail(&mut bee);
    assert!(matches!(bee.run(feed.has_key(b"k")), Err(FeedError::Hyperbee("broken"))));
    fail(&mut bee);
    assert!(matches!(bee.run(feed.get_next_highest()), Err(FeedError::Hyperbee("broken"))));
    fail(&mut bee);
    assert!(matches!(bee.run(feed.get_feed_stream()), Err(FeedError::Hyperbee("broken"))));
    fail(&mut bee);
    assert!(matches!(bee.run(feed.put_metadata(b"k", b"v")), Err(FeedError::Hyperbee("broken"))));
    fail(&mut bee);
    assert!(matches!(
        bee.run(feed.maybe_update_metadata(b"k", b"v")),
        Err(FeedError::Hyperbee("broken"))
    ));
    fail(&mut bee);
    assert!(matches!(
        bee.run(feed.get_metadata_value(b"k")),
        Err(FeedError::Hyperbee("broken"))
    ));
    fail(&mut bee);
    assert!(matches!(
        bee.run(feed.get_metadata(vec!["k".to_string()])),
        Err(FeedError::Hyperbee("broken"))
    ));
}

#[test]
fn metadata_is_unset_until_it_is_put() {
    let feed = OrderedHyperbee::new();
    let mut bee = MemoryBee::new();
    assert_eq!(bee.run(feed.get_metadata_value(b"title")).unwrap(), None);
    bee.run(feed.put_metadata(b"title", b"t")).unwrap();
    assert_eq!(bee.run(feed.get_metadata_value(b"title")).unwrap(), Some(b"t".to_vec()));
    bee.run(feed.put_metadata(b"title", b"u")).unwrap();
    assert_eq!(bee.run(feed.get_metadata_value(b"title")).unwrap(), Some(b"u".to_vec()));
}

#[test]
fn metadata_can_be_put_beside_broken_order_entries() {
    let feed = OrderedHyperbee::new();
    let mut bee = MemoryBee::new();
    bee.set(Sub::Order, b"zzz", None);
    bee.run(feed.put_metadata(b"title", b"t")).unwrap();
    assert_eq!(bee.run(feed.get_metadata_value(b"title")).unwrap(), Some(b"t".to_vec()));
    assert_eq!(bee.entries[&b"order\x00zzz".to_vec()], (1, None));
    assert_eq!(bee.version, 3);
}

#[test]
fn all_named_metadata_is_read_in_the_order_of_the_names() {
    let feed = OrderedHyperbee::new();
    let mut bee = MemoryBee::new();
    bee.run(feed.put_metadata(b"title", b"t")).unwrap();
    bee.run(feed.put_metadata(b"link", b"l")).unwrap();
    let names = ["link", "description", "title"].map(|name| name.to_string()).to_vec();
    assert_eq!(
        bee.run(feed.get_metadata(names)).unwrap(),
        [
            ("link".to_string(), Some(b"l".to_vec())),
            ("description".to_string(), None),
            ("title".to_string(), Some(b"t".to_vec())),
        ]
    );
    assert!(bee.run(feed.get_metadata(vec![])).unwrap().is_empty());
}

#[test]
fn values_change_when_unset_or_different() {
    assert!(value_changes(None, Some(b"a")));
    assert!(value_changes(None, None));
    assert!(value_changes(Some(None), Some(b"a")));
    assert!(value_changes(Some(Some(b"a")), None));
    assert!(value_changes(Some(Some(b"a")), Some(b"b")));
    assert!(value_changes(Some(Some(b"a")), Some(b"aa")));
    assert!(!value_changes(Some(Some(b"a")), Some(b"a")));
    assert!(!value_changes(Some(Some(b"")), Some(b"")));
    assert!(!value_changes(Some(None), None));
}
