//! What a feed asks of the Hyperbee it lives in, and what such a Hyperbee holds.

use vstd::prelude::*;

use crate::listing::Entries;
use crate::step::{Request, Service};

verus! {

/// The namespaces of a feed. Each is a sub of the one Hyperbee, which keeps the keys of a sub
/// behind the sub's prefix and a zero byte.
#[derive(Clone, Copy, Debug, PartialEq, Eq, Structural)]
pub enum Sub {
    /// Items by their keys.
    Key,
    /// Item keys by their positions in the feed.
    Order,
    /// Feed-level metadata by field names.
    Metadata,
}

impl DeepView for Sub {
    type V = Sub;

    open spec fn deep_view(&self) -> Sub {
        *self
    }
}

impl Sub {
    /// The prefix of the sub: `key`, `order` or `metadata`.
    pub open spec fn prefix(self) -> Seq<u8> {
        match self {
            Sub::Key => seq![0x6b, 0x65, 0x79],
            Sub::Order => seq![0x6f, 0x72, 0x64, 0x65, 0x72],
            Sub::Metadata => seq![0x6d, 0x65, 0x74, 0x61, 0x64, 0x61, 0x74, 0x61],
        }
    }

    /// The prefix of the sub, as the Hyperbee takes it.
    pub fn prefix_bytes(self) -> (prefix: Vec<u8>)
        ensures
            prefix@ == self.prefix(),
    {
        let prefix: Vec<u8> = match self {
            Sub::Key => vec![0x6b, 0x65, 0x79],
            Sub::Order => vec![0x6f, 0x72, 0x64, 0x65, 0x72],
            Sub::Metadata => vec![0x6d, 0x65, 0x74, 0x61, 0x64, 0x61, 0x74, 0x61],
        };
        assert(prefix@ =~= self.prefix());
        prefix
    }

    /// The key in the Hyperbee of what has the key `key` in this sub.
    pub open spec fn full_key(self, key: Seq<u8>) -> Seq<u8> {
        self.prefix() + seq![0u8] + key
    }
}

/// A key with its value, and the block of the Hypercore that holds them.
#[derive(Clone, Debug)]
pub struct KeyValue<B = Vec<u8>> {
    /// Index of the block.
    pub seq: u64,
    /// The key, without the prefix of its sub.
    pub key: B,
    /// The value.
    pub value: Option<B>,
}

impl<B: DeepView> DeepView for KeyValue<B> {
    type V = KeyValue<B::V>;

    open spec fn deep_view(&self) -> Self::V {
        KeyValue {
            seq: self.seq,
            key: self.key.deep_view(),
            value: self.value.deep_view(),
        }
    }
}

/// A request to the Hyperbee of a feed.
#[derive(Debug)]
pub enum BeeRequest<B = Vec<u8>> {
    /// The number of blocks. Answered by [`BeeReply::Version`].
    Version,
    /// What `sub` holds under `key`. Answered by [`BeeReply::Found`].
    Get {
        /// The sub to look in.
        sub: Sub,
        /// The key, without the prefix of the sub.
        key: B,
    },
    /// Write `value` under `key` into `sub`. Answered by [`BeeReply::Written`].
    Put {
        /// The sub to write to.
        sub: Sub,
        /// The key, without the prefix of the sub.
        key: B,
        /// The value.
        value: B,
    },
    /// Compare and swap: write `value` under `key` into `sub` if
    /// [`value_changes`](crate::feed::value_changes) says so of what stands there and `value`.
    /// Answered by [`BeeReply::Swapped`].
    PutIfChanged {
        /// The sub to write to.
        sub: Sub,
        /// The key, without the prefix of the sub.
        key: B,
        /// The value.
        value: B,
    },
    /// Begin to walk the entries of `sub` by their keys, from the greatest down if `reversed`.
    /// Answered by [`BeeReply::Opened`].
    Traverse {
        /// The sub to walk.
        sub: Sub,
        /// Whether to start from the greatest key.
        reversed: bool,
    },
    /// The next entry of the walk last begun. Answered by [`BeeReply::Item`].
    Next,
}

impl<B: DeepView> DeepView for BeeRequest<B> {
    type V = BeeRequest<B::V>;

    open spec fn deep_view(&self) -> Self::V {
        match self {
            BeeRequest::Version => BeeRequest::Version,
            BeeRequest::Get { sub, key } => BeeRequest::Get { sub: *sub, key: key.deep_view() },
            BeeRequest::Put { sub, key, value } => BeeRequest::Put {
                sub: *sub,
                key: key.deep_view(),
                value: value.deep_view(),
            },
            BeeRequest::PutIfChanged { sub, key, value } => BeeRequest::PutIfChanged {
                sub: *sub,
                key: key.deep_view(),
                value: value.deep_view(),
            },
            BeeRequest::Traverse { sub, reversed } => BeeRequest::Traverse {
                sub: *sub,
                reversed: *reversed,
            },
            BeeRequest::Next => BeeRequest::Next,
        }
    }
}

/// The reply to a [`BeeRequest`]. Any request may be answered by [`BeeReply::Failed`].
#[derive(Debug)]
pub enum BeeReply<E, B = Vec<u8>> {
    /// The number of blocks.
    Version(u64),
    /// The block and the value that stand under a key, if the key is present.
    Found(Option<(u64, Option<B>)>),
    /// The entry was written.
    Written,
    /// The block of the new entry, if one was written.
    Swapped(Option<u64>),
    /// The walk has begun.
    Opened,
    /// The next entry, if there is one left.
    Item(Option<KeyValue<B>>),
    /// The Hyperbee failed to perform the request.
    Failed(E),
}

impl<E, B: DeepView> DeepView for BeeReply<E, B> {
    type V = BeeReply<E, B::V>;

    open spec fn deep_view(&self) -> Self::V {
        match self {
            BeeReply::Version(version) => BeeReply::Version(*version),
            BeeReply::Found(found) => BeeReply::Found(found.deep_view()),
            BeeReply::Written => BeeReply::Written,
            BeeReply::Swapped(seq) => BeeReply::Swapped(*seq),
            BeeReply::Opened => BeeReply::Opened,
            BeeReply::Item(item) => BeeReply::Item(item.deep_view()),
            BeeReply::Failed(error) => BeeReply::Failed(*error),
        }
    }
}

impl<E> Request<BeeReply<E, Seq<u8>>> for BeeRequest<Seq<u8>> {
    /// Any request can fail. An entry whose key is the greatest of all numbers answers no request
    /// for the next entry: a feed with such an entry has no next position.
    open spec fn answered_by(self, reply: BeeReply<E, Seq<u8>>) -> bool {
        reply is Failed || match self {
            BeeRequest::Version => reply is Version,
            BeeRequest::Get { .. } => reply is Found,
            BeeRequest::Put { .. } => reply is Written,
            BeeRequest::PutIfChanged { .. } => reply is Swapped,
            BeeRequest::Traverse { .. } => reply is Opened,
            BeeRequest::Next => match reply {
                BeeReply::Item(Some(entry)) => crate::order::order_number(entry.key) != Some(
                    u64::MAX,
                ),
                BeeReply::Item(None) => true,
                _ => false,
            },
        }
    }
}

/// A Hyperbee that performs every request.
#[verifier::ext_equal]
pub struct Bee {
    /// What it holds, by full keys.
    pub entries: Entries,
    /// The number of its blocks.
    pub version: u64,
    /// What is left of the walk last begun.
    pub walk: Seq<KeyValue<Seq<u8>>>,
}

impl Bee {
    /// A new Hyperbee.
    pub open spec fn empty() -> Bee {
        Bee { entries: Map::empty(), version: 0, walk: Seq::empty() }
    }

    /// Every entry stands in a block after the header and before the end.
    pub open spec fn valid(self) -> bool {
        forall|key: Seq<u8>| #[trigger]
            self.entries.contains_key(key) ==> 1 <= self.entries[key].0 < self.version
    }

    /// There is room for another block, and for the header if it is not there yet.
    pub open spec fn has_room(self) -> bool {
        self.next_block() < u64::MAX
    }

    /// What `sub` holds under `key`.
    pub open spec fn get(self, sub: Sub, key: Seq<u8>) -> Option<(u64, Option<Seq<u8>>)> {
        if self.entries.contains_key(sub.full_key(key)) {
            Some(self.entries[sub.full_key(key)])
        } else {
            None
        }
    }

    /// The value of what `sub` holds under `key`.
    pub open spec fn get_value(self, sub: Sub, key: Seq<u8>) -> Option<Option<Seq<u8>>> {
        match self.get(sub, key) {
            Some((_, value)) => Some(value),
            None => None,
        }
    }

    /// What `sub` holds, by keys without its prefix.
    pub open spec fn sub_entries(self, sub: Sub) -> Entries {
        Map::new(
            |key: Seq<u8>| self.entries.contains_key(sub.full_key(key)),
            |key: Seq<u8>| self.entries[sub.full_key(key)],
        )
    }

    /// The block that the next entry will stand in. The first block is the header, which comes
    /// into being with the first entry.
    pub open spec fn next_block(self) -> u64 {
        if self.version == 0 {
            1
        } else {
            self.version
        }
    }

    /// The Hyperbee after `value` was written under the full key `key`.
    pub open spec fn write(self, key: Seq<u8>, value: Seq<u8>) -> Bee {
        Bee {
            entries: self.entries.insert(key, (self.next_block(), Some(value))),
            version: (self.next_block() + 1) as u64,
            walk: self.walk,
        }
    }

    /// The Hyperbee after `value` was written under `key` into `sub`.
    pub open spec fn put(self, sub: Sub, key: Seq<u8>, value: Seq<u8>) -> Bee {
        self.write(sub.full_key(key), value)
    }

    /// The Hyperbee after a walk of `entries` was begun.
    pub open spec fn walked(self, entries: Entries, reversed: bool) -> Bee {
        Bee { walk: crate::listing::listing(entries, reversed), ..self }
    }

    /// The entry that the walk visits next.
    pub open spec fn visit(self) -> Option<KeyValue<Seq<u8>>> {
        if self.walk.len() == 0 {
            None
        } else {
            Some(self.walk[0])
        }
    }

    /// The Hyperbee after the walk visited its next entry, if one was left.
    pub open spec fn visited(self) -> Bee {
        if self.walk.len() == 0 {
            self
        } else {
            Bee { walk: self.walk.skip(1), ..self }
        }
    }
}

impl<E> Service<BeeRequest<Seq<u8>>, BeeReply<E, Seq<u8>>> for Bee {
    open spec fn serve(self, request: BeeRequest<Seq<u8>>) -> (BeeReply<E, Seq<u8>>, Bee) {
        match request {
            BeeRequest::Version => (BeeReply::Version(self.version), self),
            BeeRequest::Get { sub, key } => (BeeReply::Found(self.get(sub, key)), self),
            BeeRequest::Put { sub, key, value } => (BeeReply::Written, self.put(sub, key, value)),
            BeeRequest::PutIfChanged { sub, key, value } => if crate::feed::is_change(
                self.get_value(sub, key),
                Some(value),
            ) {
                (BeeReply::Swapped(Some(self.next_block())), self.put(sub, key, value))
            } else {
                (BeeReply::Swapped(None), Bee { version: self.next_block(), ..self })
            },
            BeeRequest::Traverse { sub, reversed } => (
                BeeReply::Opened,
                self.walked(self.sub_entries(sub), reversed),
            ),
            BeeRequest::Next => (BeeReply::Item(self.visit()), self.visited()),
        }
    }
}

/// The same key in two subs, or two keys in one, are different keys of the Hyperbee.
pub proof fn law_subs_are_disjoint(sub1: Sub, key1: Seq<u8>, sub2: Sub, key2: Seq<u8>)
    requires
        sub1 != sub2 || key1 != key2,
    ensures
        sub1.full_key(key1) != sub2.full_key(key2),
{
    let (full1, full2) = (sub1.full_key(key1), sub2.full_key(key2));
    if full1 == full2 {
        assert(full1[0] == sub1.prefix()[0] && full2[0] == sub2.prefix()[0]);
        let skip = sub1.prefix().len() as int + 1;
        assert(full1.skip(skip) =~= key1);
        assert(full2.skip(skip) =~= key2);
    }
}

/// Writing into a sub leaves every other key, in that sub and in the others, as it was.
pub proof fn law_put_changes_one_key(bee: Bee, sub: Sub, key: Seq<u8>, value: Seq<u8>)
    ensures
        bee.put(sub, key, value).get(sub, key) == Some((bee.next_block(), Some(value))),
        forall|s: Sub, k: Seq<u8>|
            s != sub || k != key ==> #[trigger] bee.put(sub, key, value).get(s, k) == bee.get(s, k),
        bee.valid() && bee.has_room() ==> bee.put(sub, key, value).valid(),
{
    assert forall|s: Sub, k: Seq<u8>| s != sub || k != key implies #[trigger] bee.put(
        sub,
        key,
        value,
    ).get(s, k) == bee.get(s, k) by {
        law_subs_are_disjoint(s, k, sub, key);
    }
}

/// Bytes that may not be there, by their contents.
pub open spec fn optional_bytes(bytes: Option<Vec<u8>>) -> Option<Seq<u8>> {
    match bytes {
        Some(bytes) => Some(bytes@),
        None => None,
    }
}

/// The contents of an entry, of a request and of a reply are those of their parts.
pub proof fn law_contents<E>(entry: KeyValue, request: BeeRequest, reply: BeeReply<E>)
    ensures
        entry.deep_view() == (KeyValue {
            seq: entry.seq,
            key: entry.key@,
            value: optional_bytes(entry.value),
        }),
        request.deep_view() == match request {
            BeeRequest::Version => BeeRequest::Version,
            BeeRequest::Get { sub, key } => BeeRequest::Get { sub, key: key@ },
            BeeRequest::Put { sub, key, value } => BeeRequest::Put {
                sub,
                key: key@,
                value: value@,
            },
            BeeRequest::PutIfChanged { sub, key, value } => BeeRequest::PutIfChanged {
                sub,
                key: key@,
                value: value@,
            },
            BeeRequest::Traverse { sub, reversed } => BeeRequest::Traverse { sub, reversed },
            BeeRequest::Next => BeeRequest::Next,
        },
        reply.deep_view() == match reply {
            BeeReply::Version(version) => BeeReply::<E, Seq<u8>>::Version(version),
            BeeReply::Found(Some((seq, value))) => BeeReply::Found(
                Some((seq, optional_bytes(value))),
            ),
            BeeReply::Found(None) => BeeReply::Found(None),
            BeeReply::Written => BeeReply::Written,
            BeeReply::Swapped(seq) => BeeReply::Swapped(seq),
            BeeReply::Opened => BeeReply::Opened,
            BeeReply::Item(Some(item)) => BeeReply::Item(
                Some(
                    KeyValue {
                        seq: item.seq,
                        key: item.key@,
                        value: optional_bytes(item.value),
                    },
                ),
            ),
            BeeReply::Item(None) => BeeReply::Item(None),
            BeeReply::Failed(error) => BeeReply::Failed(error),
        },
{
    broadcast use crate::bytes::lemma_bytes_contents;

}

/// Which replies answer a request: a failure answers any, and a reply of the kind that the request
/// names answers it whatever it holds. Of the entries of a walk, those for the greatest of all
/// numbers are left out.
pub proof fn law_answers<E>(
    request: BeeRequest<Seq<u8>>,
    error: E,
    version: u64,
    found: Option<(u64, Option<Seq<u8>>)>,
    seq: Option<u64>,
    entry: KeyValue<Seq<u8>>,
)
    ensures
        request.answered_by(BeeReply::<E, Seq<u8>>::Failed(error)),
        request is Version ==> request.answered_by(BeeReply::<E, Seq<u8>>::Version(version)),
        request is Get ==> request.answered_by(BeeReply::<E, Seq<u8>>::Found(found)),
        request is Put ==> request.answered_by(BeeReply::<E, Seq<u8>>::Written),
        request is PutIfChanged ==> request.answered_by(BeeReply::<E, Seq<u8>>::Swapped(seq)),
        request is Traverse ==> request.answered_by(BeeReply::<E, Seq<u8>>::Opened),
        request is Next ==> request.answered_by(BeeReply::<E, Seq<u8>>::Item(None)),
        request is Next && crate::order::order_number(entry.key) != Some(u64::MAX)
            ==> request.answered_by(BeeReply::<E, Seq<u8>>::Item(Some(entry))),
{
}

} // verus!
