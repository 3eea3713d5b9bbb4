//! A key value store that keeps the order of insertion, with feed-level metadata beside it.
//!
//! Three namespaces share one Hyperbee, see [`Sub`]. The `order` namespace maps a position, as a
//! decimal number padded with zeros, to the key of the item at that position, because a Hyperbee
//! is ordered by the bytes of its keys and not by the time of insertion. Which position is the
//! highest, and which entry the newest, is decided by the numbers.
//!
//! Each method of [`OrderedHyperbee`] starts an operation on that Hyperbee; see
//! [`step`](crate::step) for how it is carried out.

use vstd::prelude::*;

use crate::bee::{BeeReply, BeeRequest, KeyValue, Sub};
use crate::bytes::{copy_bytes, same_bytes};
use crate::order::{number_from_order_string, order_string_from_number};
use crate::ranking::sort_by_rank;
use crate::step::{Operation, Program, Step};

verus! {

broadcast use crate::bytes::lemma_bytes_contents;

/// Errors of the operations on a feed. `E` is the error of the Hyperbee.
#[derive(Debug)]
#[non_exhaustive]
pub enum FeedError<E, B = Vec<u8>> {
    /// The Hyperbee failed.
    Hyperbee(E),
    /// A key of the `order` namespace does not stand for a position.
    InvalidOrderKey(B),
    /// The entry of the `order` namespace at this position has no item key.
    MissingOrderValue(u64),
    /// An entry of the `order` namespace has a key that the `key` namespace lacks.
    MissingKeyEntry(B),
}

impl<E, B: DeepView> DeepView for FeedError<E, B> {
    type V = FeedError<E, B::V>;

    open spec fn deep_view(&self) -> Self::V {
        match self {
            FeedError::Hyperbee(error) => FeedError::Hyperbee(*error),
            FeedError::InvalidOrderKey(key) => FeedError::InvalidOrderKey(key.deep_view()),
            FeedError::MissingOrderValue(index) => FeedError::MissingOrderValue(*index),
            FeedError::MissingKeyEntry(key) => FeedError::MissingKeyEntry(key.deep_view()),
        }
    }
}

/// An entry of the feed.
#[derive(Clone, Debug)]
pub struct FeedEntry<B = Vec<u8>> {
    /// Index of the block, in the Hypercore below, that holds the value.
    pub seq: u64,
    /// The key of the item.
    pub key: B,
    /// The value of the item.
    pub value: Option<B>,
    /// The position of the entry in the order of insertion; `0` is the first ever inserted.
    pub order_index: u64,
}

impl<B: DeepView> DeepView for FeedEntry<B> {
    type V = FeedEntry<B::V>;

    open spec fn deep_view(&self) -> Self::V {
        FeedEntry {
            seq: self.seq,
            key: self.key.deep_view(),
            value: self.value.deep_view(),
            order_index: self.order_index,
        }
    }
}

/// A step of an operation on a feed.
pub type FeedStep<S, T, E> = Step<BeeRequest, S, T, FeedError<E>>;

/// A step of an operation on a feed, by its contents.
pub type FeedPlan<S, T, E> = Step<BeeRequest<Seq<u8>>, S, T, FeedError<E, Seq<u8>>>;

/// The value that stands where something was found.
pub open spec fn found_value(found: Option<(u64, Option<Seq<u8>>)>) -> Option<Seq<u8>> {
    match found {
        Some((_, value)) => value,
        None => None,
    }
}

/// A write of `next` over `previous` changes something: there was no entry, or it had another
/// value.
pub open spec fn is_change(previous: Option<Option<Seq<u8>>>, next: Option<Seq<u8>>) -> bool {
    previous != Some(next)
}

/// Whether writing `next` would change what stands there. `previous` is the value of the entry
/// that is there, if one is. This decides a [`BeeRequest::PutIfChanged`].
pub fn value_changes(previous: Option<Option<&[u8]>>, next: Option<&[u8]>) -> (changes: bool)
    ensures
        changes == is_change(
            match previous {
                Some(Some(value)) => Some(Some(value@)),
                Some(None) => Some(None),
                None => None,
            },
            match next {
                Some(value) => Some(value@),
                None => None,
            },
        ),
{
    match (previous, next) {
        (None, _) => true,
        (Some(None), None) => false,
        (Some(Some(old)), Some(new)) => !same_bytes(old, new),
        (Some(_), _) => true,
    }
}

/// [`OrderedHyperbee::version`] under way.
#[derive(Debug)]
pub struct GetVersion {}

impl DeepView for GetVersion {
    type V = GetVersion;

    open spec fn deep_view(&self) -> GetVersion {
        *self
    }
}

impl GetVersion {
    /// How the operation begins.
    pub open spec fn start<E>() -> FeedPlan<GetVersion, u64, E> {
        Step::Ask(BeeRequest::Version, GetVersion {  })
    }
}

impl<E> Program<BeeRequest<Seq<u8>>, BeeReply<E, Seq<u8>>> for GetVersion {
    type Value = u64;

    type Failure = FeedError<E, Seq<u8>>;

    open spec fn expects(self, reply: BeeReply<E, Seq<u8>>) -> bool {
        reply is Version || reply is Failed
    }

    open spec fn next(self, reply: BeeReply<E, Seq<u8>>) -> FeedPlan<GetVersion, u64, E> {
        match reply {
            BeeReply::Version(version) => Step::Done(Ok(version)),
            BeeReply::Failed(error) => Step::Done(Err(FeedError::Hyperbee(error))),
            _ => arbitrary(),
        }
    }

    proof fn goes_on(self, reply: BeeReply<E, Seq<u8>>) {
    }
}

impl<E> Operation<BeeRequest, BeeReply<E>> for GetVersion {
    type Value = u64;

    type Failure = FeedError<E>;

    open spec fn awaits(&self, reply: &BeeReply<E>) -> bool {
        self.deep_view().expects(reply.deep_view())
    }

    fn resume(self, reply: BeeReply<E>) -> (step: FeedStep<GetVersion, u64, E>)
        ensures
            step.deep_view() == self.deep_view().next(reply.deep_view()),
    {
        match reply {
            BeeReply::Version(version) => Step::Done(Ok(version)),
            BeeReply::Failed(error) => Step::Done(Err(FeedError::Hyperbee(error))),
            _ => vstd::pervasive::unreached(),
        }
    }
}

/// [`OrderedHyperbee::has_key`] under way.
#[derive(Debug)]
pub struct HasKey {}

impl DeepView for HasKey {
    type V = HasKey;

    open spec fn deep_view(&self) -> HasKey {
        *self
    }
}

impl HasKey {
    /// How the operation begins.
    pub open spec fn start<E>(key: Seq<u8>) -> FeedPlan<HasKey, bool, E> {
        Step::Ask(BeeRequest::Get { sub: Sub::Key, key }, HasKey {  })
    }
}

impl<E> Program<BeeRequest<Seq<u8>>, BeeReply<E, Seq<u8>>> for HasKey {
    type Value = bool;

    type Failure = FeedError<E, Seq<u8>>;

    open spec fn expects(self, reply: BeeReply<E, Seq<u8>>) -> bool {
        reply is Found || reply is Failed
    }

    open spec fn next(self, reply: BeeReply<E, Seq<u8>>) -> FeedPlan<HasKey, bool, E> {
        match reply {
            BeeReply::Found(found) => Step::Done(Ok(found is Some)),
            BeeReply::Failed(error) => Step::Done(Err(FeedError::Hyperbee(error))),
            _ => arbitrary(),
        }
    }

    proof fn goes_on(self, reply: BeeReply<E, Seq<u8>>) {
    }
}

impl<E> Operation<BeeRequest, BeeReply<E>> for HasKey {
    type Value = bool;

    type Failure = FeedError<E>;

    open spec fn awaits(&self, reply: &BeeReply<E>) -> bool {
        self.deep_view().expects(reply.deep_view())
    }

    fn resume(self, reply: BeeReply<E>) -> (step: FeedStep<HasKey, bool, E>)
        ensures
            step.deep_view() == self.deep_view().next(reply.deep_view()),
    {
        match reply {
            BeeReply::Found(found) => Step::Done(Ok(found.is_some())),
            BeeReply::Failed(error) => Step::Done(Err(FeedError::Hyperbee(error))),
            _ => vstd::pervasive::unreached(),
        }
    }
}

/// [`OrderedHyperbee::get_next_highest`] under way.
#[derive(Debug)]
pub enum GetNextHighest {
    /// The walk of the order keys is being begun.
    Opening,
    /// The next order key is being read.
    Reading {
        /// The highest position among the keys that were read, if any was.
        highest: Option<u64>,
    },
}

impl DeepView for GetNextHighest {
    type V = GetNextHighest;

    open spec fn deep_view(&self) -> GetNextHighest {
        *self
    }
}

/// The greater of two positions.
pub open spec fn higher(a: u64, b: u64) -> u64 {
    if a < b {
        b
    } else {
        a
    }
}

impl GetNextHighest {
    /// How the operation begins.
    pub open spec fn start<E>() -> FeedPlan<GetNextHighest, u64, E> {
        Step::Ask(
            BeeRequest::Traverse { sub: Sub::Order, reversed: true },
            GetNextHighest::Opening,
        )
    }

    /// The position after the highest that was read.
    pub open spec fn after(highest: Option<u64>) -> u64 {
        match highest {
            None => 0,
            Some(n) => (n + 1) as u64,
        }
    }

    /// What follows when `key` is read after keys of which `highest` is the highest position. The
    /// first key has to stand for a position. One that is read later is passed over if it stands
    /// for none, or for one that no other can follow.
    pub open spec fn counted<E>(highest: Option<u64>, key: Seq<u8>) -> FeedPlan<
        GetNextHighest,
        u64,
        E,
    > {
        match (crate::order::order_number(key), highest) {
            (None, None) => Step::Done(Err(FeedError::InvalidOrderKey(key))),
            (None, Some(_)) => Step::Ask(BeeRequest::Next, GetNextHighest::Reading { highest }),
            (Some(n), None) => Step::Ask(
                BeeRequest::Next,
                GetNextHighest::Reading { highest: Some(n) },
            ),
            (Some(n), Some(m)) => Step::Ask(
                BeeRequest::Next,
                GetNextHighest::Reading {
                    highest: if n == u64::MAX {
                        Some(m)
                    } else {
                        Some(higher(m, n))
                    },
                },
            ),
        }
    }
}

impl<E> Program<BeeRequest<Seq<u8>>, BeeReply<E, Seq<u8>>> for GetNextHighest {
    type Value = u64;

    type Failure = FeedError<E, Seq<u8>>;

    /// A first key for a position after which there is none is not expected.
    open spec fn expects(self, reply: BeeReply<E, Seq<u8>>) -> bool {
        match (self, reply) {
            (GetNextHighest::Opening, BeeReply::Opened | BeeReply::Failed(_)) => true,
            (
                GetNextHighest::Reading { highest },
                BeeReply::Item(None) | BeeReply::Failed(_),
            ) => highest != Some(u64::MAX),
            (GetNextHighest::Reading { highest: None }, BeeReply::Item(Some(entry))) => {
                crate::order::order_number(entry.key) != Some(u64::MAX)
            },
            (GetNextHighest::Reading { highest }, BeeReply::Item(Some(_))) => highest != Some(
                u64::MAX,
            ),
            _ => false,
        }
    }

    /// Where the walk fails after keys were read, those decide.
    open spec fn next(self, reply: BeeReply<E, Seq<u8>>) -> FeedPlan<GetNextHighest, u64, E> {
        match (self, reply) {
            (
                GetNextHighest::Opening | GetNextHighest::Reading { highest: None },
                BeeReply::Failed(error),
            ) => Step::Done(Err(FeedError::Hyperbee(error))),
            (GetNextHighest::Opening, BeeReply::Opened) => Step::Ask(
                BeeRequest::Next,
                GetNextHighest::Reading { highest: None },
            ),
            (
                GetNextHighest::Reading { highest },
                BeeReply::Item(None) | BeeReply::Failed(_),
            ) => Step::Done(Ok(GetNextHighest::after(highest))),
            (GetNextHighest::Reading { highest }, BeeReply::Item(Some(entry))) => {
                GetNextHighest::counted(highest, entry.key)
            },
            _ => arbitrary(),
        }
    }

    proof fn goes_on(self, reply: BeeReply<E, Seq<u8>>) {
    }
}

impl<E> Operation<BeeRequest, BeeReply<E>> for GetNextHighest {
    type Value = u64;

    type Failure = FeedError<E>;

    open spec fn awaits(&self, reply: &BeeReply<E>) -> bool {
        self.deep_view().expects(reply.deep_view())
    }

    fn resume(self, reply: BeeReply<E>) -> (step: FeedStep<GetNextHighest, u64, E>)
        ensures
            step.deep_view() == self.deep_view().next(reply.deep_view()),
    {
        match (self, reply) {
            (
                GetNextHighest::Opening | GetNextHighest::Reading { highest: None },
                BeeReply::Failed(error),
            ) => Step::Done(Err(FeedError::Hyperbee(error))),
            (GetNextHighest::Opening, BeeReply::Opened) => Step::Ask(
                BeeRequest::Next,
                GetNextHighest::Reading { highest: None },
            ),
            (GetNextHighest::Reading { highest: None }, BeeReply::Item(None)) => Step::Done(Ok(0)),
            (
                GetNextHighest::Reading { highest: Some(n) },
                BeeReply::Item(None) | BeeReply::Failed(_),
            ) => Step::Done(Ok(n + 1)),
            (GetNextHighest::Reading { highest }, BeeReply::Item(Some(entry))) => {
                match (number_from_order_string(entry.key.as_slice()), highest) {
                    (Err(error), None) => Step::Done(Err(error)),
                    (Err(_), Some(_)) => Step::Ask(
                        BeeRequest::Next,
                        GetNextHighest::Reading { highest },
                    ),
                    (Ok(n), Some(m)) if n < m || n == u64::MAX => Step::Ask(
                        BeeRequest::Next,
                        GetNextHighest::Reading { highest: Some(m) },
                    ),
                    (Ok(n), _) => Step::Ask(
                        BeeRequest::Next,
                        GetNextHighest::Reading { highest: Some(n) },
                    ),
                }
            },
            _ => vstd::pervasive::unreached(),
        }
    }
}

/// Recording an item key at the next position, under way.
#[derive(Debug)]
pub enum PutNextInOrder<B = Vec<u8>> {
    /// The next position is being found out.
    Numbering {
        /// Finds out the position.
        highest: GetNextHighest,
        /// The key to record.
        item_key: B,
    },
    /// The key is being recorded.
    Recording,
}

impl<B: DeepView> DeepView for PutNextInOrder<B> {
    type V = PutNextInOrder<B::V>;

    open spec fn deep_view(&self) -> Self::V {
        match self {
            PutNextInOrder::Numbering { highest, item_key } => PutNextInOrder::Numbering {
                highest: *highest,
                item_key: item_key.deep_view(),
            },
            PutNextInOrder::Recording => PutNextInOrder::Recording,
        }
    }
}

impl PutNextInOrder<Seq<u8>> {
    /// How the operation begins.
    pub open spec fn start<E>(item_key: Seq<u8>) -> FeedPlan<PutNextInOrder<Seq<u8>>, (), E> {
        PutNextInOrder::place(GetNextHighest::start::<E>(), item_key)
    }

    /// What follows when the search for the position stands at `highest`: the key is recorded at
    /// the position once that is found.
    pub open spec fn place<E>(
        highest: FeedPlan<GetNextHighest, u64, E>,
        item_key: Seq<u8>,
    ) -> FeedPlan<PutNextInOrder<Seq<u8>>, (), E> {
        match highest {
            Step::Ask(request, highest) => Step::Ask(
                request,
                PutNextInOrder::Numbering { highest, item_key },
            ),
            Step::Done(Ok(n)) => Step::Ask(
                BeeRequest::Put {
                    sub: Sub::Order,
                    key: crate::order::order_string(n as nat),
                    value: item_key,
                },
                PutNextInOrder::Recording,
            ),
            Step::Done(Err(error)) => Step::Done(Err(error)),
        }
    }
}

impl<E> Program<BeeRequest<Seq<u8>>, BeeReply<E, Seq<u8>>> for PutNextInOrder<Seq<u8>> {
    type Value = ();

    type Failure = FeedError<E, Seq<u8>>;

    open spec fn expects(self, reply: BeeReply<E, Seq<u8>>) -> bool {
        match self {
            PutNextInOrder::Numbering { highest, .. } => highest.expects(reply),
            PutNextInOrder::Recording => reply is Written || reply is Failed,
        }
    }

    open spec fn next(self, reply: BeeReply<E, Seq<u8>>) -> FeedPlan<
        PutNextInOrder<Seq<u8>>,
        (),
        E,
    > {
        match (self, reply) {
            (PutNextInOrder::Numbering { highest, item_key }, _) => PutNextInOrder::place(
                highest.next(reply),
                item_key,
            ),
            (PutNextInOrder::Recording, BeeReply::Written) => Step::Done(Ok(())),
            (PutNextInOrder::Recording, BeeReply::Failed(error)) => Step::Done(
                Err(FeedError::Hyperbee(error)),
            ),
            _ => arbitrary(),
        }
    }

    proof fn goes_on(self, reply: BeeReply<E, Seq<u8>>) {
    }
}

/// What follows when the search for the position stands at `highest`.
fn place<E>(highest: FeedStep<GetNextHighest, u64, E>, item_key: Vec<u8>) -> (step: FeedStep<
    PutNextInOrder,
    (),
    E,
>)
    ensures
        step.deep_view() == PutNextInOrder::place(highest.deep_view(), item_key@),
{
    match highest {
        Step::Ask(request, highest) => Step::Ask(
            request,
            PutNextInOrder::Numbering { highest, item_key },
        ),
        Step::Done(Ok(n)) => Step::Ask(
            BeeRequest::Put {
                sub: Sub::Order,
                key: order_string_from_number(n),
                value: item_key,
            },
            PutNextInOrder::Recording,
        ),
        Step::Done(Err(error)) => Step::Done(Err(error)),
    }
}

impl<E> Operation<BeeRequest, BeeReply<E>> for PutNextInOrder {
    type Value = ();

    type Failure = FeedError<E>;

    open spec fn awaits(&self, reply: &BeeReply<E>) -> bool {
        self.deep_view().expects(reply.deep_view())
    }

    fn resume(self, reply: BeeReply<E>) -> (step: FeedStep<PutNextInOrder, (), E>)
        ensures
            step.deep_view() == self.deep_view().next(reply.deep_view()),
    {
        match self {
            PutNextInOrder::Numbering { highest, item_key } => place(
                highest.resume(reply),
                item_key,
            ),
            PutNextInOrder::Recording => match reply {
                BeeReply::Written => Step::Done(Ok(())),
                BeeReply::Failed(error) => Step::Done(Err(FeedError::Hyperbee(error))),
                _ => vstd::pervasive::unreached(),
            },
        }
    }
}

/// [`OrderedHyperbee::put_ordered_item`] under way.
#[derive(Debug)]
pub enum PutOrderedItem<B = Vec<u8>> {
    /// The key is being recorded at the next position.
    Placing {
        /// Records the key.
        order: PutNextInOrder<B>,
        /// The key of the item.
        key: B,
        /// The value of the item.
        value: B,
    },
    /// The item is being stored under its key.
    Storing,
}

impl<B: DeepView> DeepView for PutOrderedItem<B> {
    type V = PutOrderedItem<B::V>;

    open spec fn deep_view(&self) -> Self::V {
        match self {
            PutOrderedItem::Placing { order, key, value } => PutOrderedItem::Placing {
                order: order.deep_view(),
                key: key.deep_view(),
                value: value.deep_view(),
            },
            PutOrderedItem::Storing => PutOrderedItem::Storing,
        }
    }
}

impl PutOrderedItem<Seq<u8>> {
    /// How the operation begins.
    pub open spec fn start<E>(key: Seq<u8>, value: Seq<u8>) -> FeedPlan<
        PutOrderedItem<Seq<u8>>,
        (),
        E,
    > {
        PutOrderedItem::store(PutNextInOrder::start::<E>(key), key, value)
    }

    /// What follows when the recording of the key stands at `order`: the item is stored once the
    /// key is recorded.
    pub open spec fn store<E>(
        order: FeedPlan<PutNextInOrder<Seq<u8>>, (), E>,
        key: Seq<u8>,
        value: Seq<u8>,
    ) -> FeedPlan<PutOrderedItem<Seq<u8>>, (), E> {
        match order {
            Step::Ask(request, order) => Step::Ask(
                request,
                PutOrderedItem::Placing { order, key, value },
            ),
            Step::Done(Ok(_)) => Step::Ask(
                BeeRequest::Put { sub: Sub::Key, key, value },
                PutOrderedItem::Storing,
            ),
            Step::Done(Err(error)) => Step::Done(Err(error)),
        }
    }
}

impl<E> Program<BeeRequest<Seq<u8>>, BeeReply<E, Seq<u8>>> for PutOrderedItem<Seq<u8>> {
    type Value = ();

    type Failure = FeedError<E, Seq<u8>>;

    open spec fn expects(self, reply: BeeReply<E, Seq<u8>>) -> bool {
        match self {
            PutOrderedItem::Placing { order, .. } => order.expects(reply),
            PutOrderedItem::Storing => reply is Written || reply is Failed,
        }
    }

    open spec fn next(self, reply: BeeReply<E, Seq<u8>>) -> FeedPlan<
        PutOrderedItem<Seq<u8>>,
        (),
        E,
    > {
        match (self, reply) {
            (PutOrderedItem::Placing { order, key, value }, _) => PutOrderedItem::store(
                order.next(reply),
                key,
                value,
            ),
            (PutOrderedItem::Storing, BeeReply::Written) => Step::Done(Ok(())),
            (PutOrderedItem::Storing, BeeReply::Failed(error)) => Step::Done(
                Err(FeedError::Hyperbee(error)),
            ),
            _ => arbitrary(),
        }
    }

    proof fn goes_on(self, reply: BeeReply<E, Seq<u8>>) {
    }
}

/// What follows when the recording of the key stands at `order`.
fn store<E>(
    order: FeedStep<PutNextInOrder, (), E>,
    key: Vec<u8>,
    value: Vec<u8>,
) -> (step: FeedStep<PutOrderedItem, (), E>)
    ensures
        step.deep_view() == PutOrderedItem::store(order.deep_view(), key@, value@),
{
    match order {
        Step::Ask(request, order) => Step::Ask(
            request,
            PutOrderedItem::Placing { order, key, value },
        ),
        Step::Done(Ok(_)) => Step::Ask(
            BeeRequest::Put { sub: Sub::Key, key, value },
            PutOrderedItem::Storing,
        ),
        Step::Done(Err(error)) => Step::Done(Err(error)),
    }
}

impl<E> Operation<BeeRequest, BeeReply<E>> for PutOrderedItem {
    type Value = ();

    type Failure = FeedError<E>;

    open spec fn awaits(&self, reply: &BeeReply<E>) -> bool {
        self.deep_view().expects(reply.deep_view())
    }

    fn resume(self, reply: BeeReply<E>) -> (step: FeedStep<PutOrderedItem, (), E>)
        ensures
            step.deep_view() == self.deep_view().next(reply.deep_view()),
    {
        match self {
            PutOrderedItem::Placing { order, key, value } => store(
                order.resume(reply),
                key,
                value,
            ),
            PutOrderedItem::Storing => match reply {
                BeeReply::Written => Step::Done(Ok(())),
                BeeReply::Failed(error) => Step::Done(Err(FeedError::Hyperbee(error))),
                _ => vstd::pervasive::unreached(),
            },
        }
    }
}

/// [`OrderedHyperbee::get_feed_stream`] under way.
#[derive(Debug)]
pub struct GetFeedStream {}

impl DeepView for GetFeedStream {
    type V = GetFeedStream;

    open spec fn deep_view(&self) -> GetFeedStream {
        *self
    }
}

impl GetFeedStream {
    /// How the operation begins.
    pub open spec fn start<E>() -> FeedPlan<GetFeedStream, FeedStream<E, RankedValues>, E> {
        Step::Ask(BeeRequest::Traverse { sub: Sub::Order, reversed: true }, GetFeedStream {  })
    }
}

impl<E> Program<BeeRequest<Seq<u8>>, BeeReply<E, Seq<u8>>> for GetFeedStream {
    type Value = FeedStream<E, RankedValues>;

    type Failure = FeedError<E, Seq<u8>>;

    open spec fn expects(self, reply: BeeReply<E, Seq<u8>>) -> bool {
        reply is Opened || reply is Failed
    }

    open spec fn next(self, reply: BeeReply<E, Seq<u8>>) -> FeedPlan<
        GetFeedStream,
        FeedStream<E, RankedValues>,
        E,
    > {
        match reply {
            BeeReply::Opened => Step::Done(Ok(FeedStream::unread())),
            BeeReply::Failed(error) => Step::Done(Err(FeedError::Hyperbee(error))),
            _ => arbitrary(),
        }
    }

    proof fn goes_on(self, reply: BeeReply<E, Seq<u8>>) {
    }
}

impl<E> Operation<BeeRequest, BeeReply<E>> for GetFeedStream {
    type Value = FeedStream<E>;

    type Failure = FeedError<E>;

    open spec fn awaits(&self, reply: &BeeReply<E>) -> bool {
        self.deep_view().expects(reply.deep_view())
    }

    fn resume(self, reply: BeeReply<E>) -> (step: FeedStep<GetFeedStream, FeedStream<E>, E>)
        ensures
            step.deep_view() == self.deep_view().next(reply.deep_view()),
    {
        match reply {
            BeeReply::Opened => {
                let ready: Ranked = Vec::new();
                assert(ready.deep_view() =~= Seq::empty());
                Step::Done(Ok(FeedStream { ready, rest: Rest::Unread }))
            },
            BeeReply::Failed(error) => Step::Done(Err(FeedError::Hyperbee(error))),
            _ => vstd::pervasive::unreached(),
        }
    }
}

/// Entries of the `order` namespace, each with its rank in the feed.
pub type Ranked = Vec<(u64, KeyValue)>;

/// Entries of the `order` namespace, each with its rank in the feed, by their contents.
pub type RankedValues = Seq<(u64, KeyValue<Seq<u8>>)>;

/// What becomes of a stream once the entries that are ready were given.
#[derive(Debug)]
pub enum Rest<E> {
    /// The walk of the order keys is read on.
    Unread,
    /// The walk failed there. It can be read on after that.
    Broken(E),
    /// The walk has ended.
    Ended,
}

/// The feed from the newest entry to the oldest, by descending positions. It reads the walk of the
/// order keys that [`OrderedHyperbee::get_feed_stream`] has begun.
///
/// The walk visits the keys by their bytes, and longer keys do not sort by their numbers. So it is
/// read to its end, or to where it fails, before the first entry is given.
#[derive(Debug)]
pub struct FeedStream<E, R = Ranked> {
    /// The entries of the `order` namespace that were read and not given yet. The next one stands
    /// last.
    pub ready: R,
    /// What comes after them.
    pub rest: Rest<E>,
}

impl<E, R: DeepView> DeepView for FeedStream<E, R> {
    type V = FeedStream<E, R::V>;

    open spec fn deep_view(&self) -> Self::V {
        FeedStream { ready: self.ready.deep_view(), rest: self.rest }
    }
}

impl<E> FeedStream<E, RankedValues> {
    /// A stream of which nothing was read.
    pub open spec fn unread() -> Self {
        FeedStream { ready: Seq::empty(), rest: Rest::Unread }
    }

    /// The stream after these entries were read: by falling ranks, the first one last.
    pub open spec fn read(walk: RankedValues, rest: Rest<E>) -> Self {
        FeedStream { ready: crate::ranking::ranked(walk).reverse(), rest }
    }
}

impl<E> FeedStream<E> {
    /// The next entry, or that there is none, and the stream after it. After an error the stream
    /// can be read on.
    pub fn next(self) -> (step: FeedStep<NextEntry<E>, (FeedStream<E>, Streamed<E>), E>)
        ensures
            step.deep_view() == NextEntry::start(self.deep_view()),
    {
        advance(self)
    }
}

/// What a stream gives.
#[derive(Debug)]
pub enum Streamed<E, B = Vec<u8>> {
    /// An entry.
    Entry(FeedEntry<B>),
    /// An error in the place of an entry.
    Failed(FeedError<E, B>),
    /// There are no more entries.
    End,
}

impl<E, B: DeepView> DeepView for Streamed<E, B> {
    type V = Streamed<E, B::V>;

    open spec fn deep_view(&self) -> Self::V {
        match self {
            Streamed::Entry(entry) => Streamed::Entry(entry.deep_view()),
            Streamed::Failed(error) => Streamed::Failed(error.deep_view()),
            Streamed::End => Streamed::End,
        }
    }
}

/// The rank of the entry with this key, which is read after `walk`: its position, or the rank of
/// the entry before it if it stands for no position.
pub open spec fn rank_after(walk: RankedValues, key: Seq<u8>) -> u64 {
    match crate::order::order_number(key) {
        Some(n) => n,
        None => if walk.len() == 0 {
            u64::MAX
        } else {
            walk.last().0
        },
    }
}

/// [`FeedStream::next`] under way.
#[derive(Debug)]
pub enum NextEntry<E, R = Ranked, B = Vec<u8>> {
    /// The walk of the order keys is being read.
    Collecting {
        /// The entries that were read.
        walk: R,
    },
    /// The item is being looked up.
    Looking {
        /// The stream after the entry.
        stream: FeedStream<E, R>,
        /// The position of the item.
        order_index: u64,
        /// The key of the item.
        item_key: B,
    },
}

impl<E, R: DeepView, B: DeepView> DeepView for NextEntry<E, R, B> {
    type V = NextEntry<E, R::V, B::V>;

    open spec fn deep_view(&self) -> Self::V {
        match self {
            NextEntry::Collecting { walk } => NextEntry::Collecting { walk: walk.deep_view() },
            NextEntry::Looking { stream, order_index, item_key } => NextEntry::Looking {
                stream: stream.deep_view(),
                order_index: *order_index,
                item_key: item_key.deep_view(),
            },
        }
    }
}

/// What reading a stream gives, by its contents.
pub type StreamedValue<E> = (FeedStream<E, RankedValues>, Streamed<E, Seq<u8>>);

impl<E> NextEntry<E, RankedValues, Seq<u8>> {
    /// How the operation begins: with the entry that is ready, with what comes in its place, or
    /// with reading the walk.
    pub open spec fn start(stream: FeedStream<E, RankedValues>) -> FeedPlan<
        Self,
        StreamedValue<E>,
        E,
    > {
        if stream.ready.len() > 0 {
            NextEntry::look_up(
                FeedStream { ready: stream.ready.drop_last(), rest: stream.rest },
                stream.ready.last().1,
            )
        } else {
            match stream.rest {
                Rest::Unread => Step::Ask(
                    BeeRequest::Next,
                    NextEntry::Collecting { walk: Seq::empty() },
                ),
                Rest::Broken(error) => Step::Done(
                    Ok((FeedStream::unread(), Streamed::Failed(FeedError::Hyperbee(error)))),
                ),
                Rest::Ended => Step::Done(Ok((stream, Streamed::End))),
            }
        }
    }

    /// What follows when `entry` is next in the `order` namespace: the item is looked up by the
    /// key that the entry holds.
    pub open spec fn look_up(
        stream: FeedStream<E, RankedValues>,
        entry: KeyValue<Seq<u8>>,
    ) -> FeedPlan<Self, StreamedValue<E>, E> {
        match (crate::order::order_number(entry.key), entry.value) {
            (None, _) => Step::Done(
                Ok((stream, Streamed::Failed(FeedError::InvalidOrderKey(entry.key)))),
            ),
            (Some(order_index), None) => Step::Done(
                Ok((stream, Streamed::Failed(FeedError::MissingOrderValue(order_index)))),
            ),
            (Some(order_index), Some(item_key)) => Step::Ask(
                BeeRequest::Get { sub: Sub::Key, key: item_key },
                NextEntry::Looking { stream, order_index, item_key },
            ),
        }
    }
}

impl<E> Program<BeeRequest<Seq<u8>>, BeeReply<E, Seq<u8>>> for NextEntry<
    E,
    RankedValues,
    Seq<u8>,
> {
    type Value = StreamedValue<E>;

    type Failure = FeedError<E, Seq<u8>>;

    open spec fn expects(self, reply: BeeReply<E, Seq<u8>>) -> bool {
        match self {
            NextEntry::Collecting { .. } => reply is Item || reply is Failed,
            NextEntry::Looking { .. } => reply is Found || reply is Failed,
        }
    }

    open spec fn next(self, reply: BeeReply<E, Seq<u8>>) -> FeedPlan<Self, StreamedValue<E>, E> {
        match (self, reply) {
            (NextEntry::Collecting { walk }, BeeReply::Item(Some(entry))) => Step::Ask(
                BeeRequest::Next,
                NextEntry::Collecting { walk: walk.push((rank_after(walk, entry.key), entry)) },
            ),
            (NextEntry::Collecting { walk }, BeeReply::Item(None)) => NextEntry::start(
                FeedStream::read(walk, Rest::Ended),
            ),
            (NextEntry::Collecting { walk }, BeeReply::Failed(error)) => NextEntry::start(
                FeedStream::read(walk, Rest::Broken(error)),
            ),
            (NextEntry::Looking { stream, .. }, BeeReply::Failed(error)) => Step::Done(
                Ok((stream, Streamed::Failed(FeedError::Hyperbee(error)))),
            ),
            (NextEntry::Looking { stream, item_key, .. }, BeeReply::Found(None)) => Step::Done(
                Ok((stream, Streamed::Failed(FeedError::MissingKeyEntry(item_key)))),
            ),
            (
                NextEntry::Looking { stream, order_index, item_key },
                BeeReply::Found(Some((seq, value))),
            ) => Step::Done(
                Ok((stream, Streamed::Entry(FeedEntry { seq, key: item_key, value, order_index }))),
            ),
            _ => arbitrary(),
        }
    }

    proof fn goes_on(self, reply: BeeReply<E, Seq<u8>>) {
    }
}

/// The contents of entries with their ranks.
proof fn lemma_ranked_values(walk: Ranked)
    ensures
        walk.deep_view() == crate::ranking::contents(walk@),
{
    assert(walk.deep_view() =~= crate::ranking::contents(walk@));
}

/// The stream after these entries were read.
fn read_walk<E>(walk: Ranked, rest: Rest<E>) -> (stream: FeedStream<E>)
    ensures
        stream.deep_view() == FeedStream::read(walk.deep_view(), rest),
{
    let ghost read = walk;
    let ready = sort_by_rank(walk);
    proof {
        lemma_ranked_values(read);
        lemma_ranked_values(ready);
        crate::ranking::lemma_ranked_contents(read@);
        assert(crate::ranking::contents(ready@) =~= crate::ranking::contents(
            crate::ranking::ranked(read@),
        ).reverse());
    }
    FeedStream { ready, rest }
}

/// Gives what is next in the stream, or goes on reading the walk.
fn advance<E>(stream: FeedStream<E>) -> (step: FeedStep<
    NextEntry<E>,
    (FeedStream<E>, Streamed<E>),
    E,
>)
    ensures
        step.deep_view() == NextEntry::start(stream.deep_view()),
{
    let FeedStream { ready, rest } = stream;
    let mut ready = ready;
    let ghost all = ready;
    match ready.pop() {
        Some((_, entry)) => {
            assert(all.deep_view().drop_last() =~= ready.deep_view());
            assert(all.deep_view().last().1 == entry.deep_view());
            let stream = FeedStream { ready, rest };
            let order_index = match number_from_order_string(entry.key.as_slice()) {
                Ok(order_index) => order_index,
                Err(error) => {
                    return Step::Done(Ok((stream, Streamed::Failed(error))));
                },
            };
            match entry.value {
                None => Step::Done(
                    Ok((stream, Streamed::Failed(FeedError::MissingOrderValue(order_index)))),
                ),
                Some(item_key) => Step::Ask(
                    BeeRequest::Get { sub: Sub::Key, key: copy_bytes(item_key.as_slice()) },
                    NextEntry::Looking { stream, order_index, item_key },
                ),
            }
        },
        None => {
            assert(ready.deep_view() =~= Seq::empty());
            match rest {
                Rest::Unread => Step::Ask(BeeRequest::Next, NextEntry::Collecting { walk: ready }),
                Rest::Broken(error) => Step::Done(
                    Ok(
                        (
                            FeedStream { ready, rest: Rest::Unread },
                            Streamed::Failed(FeedError::Hyperbee(error)),
                        ),
                    ),
                ),
                Rest::Ended => Step::Done(
                    Ok((FeedStream { ready, rest: Rest::Ended }, Streamed::End)),
                ),
            }
        },
    }
}

impl<E> Operation<BeeRequest, BeeReply<E>> for NextEntry<E> {
    type Value = (FeedStream<E>, Streamed<E>);

    type Failure = FeedError<E>;

    open spec fn awaits(&self, reply: &BeeReply<E>) -> bool {
        self.deep_view().expects(reply.deep_view())
    }

    fn resume(self, reply: BeeReply<E>) -> (step: FeedStep<
        NextEntry<E>,
        (FeedStream<E>, Streamed<E>),
        E,
    >)
        ensures
            step.deep_view() == self.deep_view().next(reply.deep_view()),
    {
        match (self, reply) {
            (NextEntry::Collecting { walk }, BeeReply::Item(Some(entry))) => {
                let mut walk = walk;
                let ghost read = walk;
                let rank: u64 = match number_from_order_string::<E>(entry.key.as_slice()) {
                    Ok(n) => n,
                    Err(_) => if walk.len() == 0 {
                        u64::MAX
                    } else {
                        walk[walk.len() - 1].0
                    },
                };
                walk.push((rank, entry));
                assert(walk.deep_view() =~= read.deep_view().push((rank, entry.deep_view())));
                Step::Ask(BeeRequest::Next, NextEntry::Collecting { walk })
            },
            (NextEntry::Collecting { walk }, BeeReply::Item(None)) => advance(
                read_walk(walk, Rest::Ended),
            ),
            (NextEntry::Collecting { walk }, BeeReply::Failed(error)) => advance(
                read_walk(walk, Rest::Broken(error)),
            ),
            (NextEntry::Looking { stream, .. }, BeeReply::Failed(error)) => Step::Done(
                Ok((stream, Streamed::Failed(FeedError::Hyperbee(error)))),
            ),
            (NextEntry::Looking { stream, item_key, .. }, BeeReply::Found(None)) => Step::Done(
                Ok((stream, Streamed::Failed(FeedError::MissingKeyEntry(item_key)))),
            ),
            (
                NextEntry::Looking { stream, order_index, item_key },
                BeeReply::Found(Some((seq, value))),
            ) => Step::Done(
                Ok((stream, Streamed::Entry(FeedEntry { seq, key: item_key, value, order_index }))),
            ),
            _ => vstd::pervasive::unreached(),
        }
    }
}

/// [`OrderedHyperbee::put_metadata`] under way.
#[derive(Debug)]
pub struct PutMetadata {}

impl DeepView for PutMetadata {
    type V = PutMetadata;

    open spec fn deep_view(&self) -> PutMetadata {
        *self
    }
}

impl PutMetadata {
    /// How the operation begins.
    pub open spec fn start<E>(key: Seq<u8>, value: Seq<u8>) -> FeedPlan<PutMetadata, (), E> {
        Step::Ask(BeeRequest::Put { sub: Sub::Metadata, key, value }, PutMetadata {  })
    }
}

impl<E> Program<BeeRequest<Seq<u8>>, BeeReply<E, Seq<u8>>> for PutMetadata {
    type Value = ();

    type Failure = FeedError<E, Seq<u8>>;

    open spec fn expects(self, reply: BeeReply<E, Seq<u8>>) -> bool {
        reply is Written || reply is Failed
    }

    open spec fn next(self, reply: BeeReply<E, Seq<u8>>) -> FeedPlan<PutMetadata, (), E> {
        match reply {
            BeeReply::Written => Step::Done(Ok(())),
            BeeReply::Failed(error) => Step::Done(Err(FeedError::Hyperbee(error))),
            _ => arbitrary(),
        }
    }

    proof fn goes_on(self, reply: BeeReply<E, Seq<u8>>) {
    }
}

impl<E> Operation<BeeRequest, BeeReply<E>> for PutMetadata {
    type Value = ();

    type Failure = FeedError<E>;

    open spec fn awaits(&self, reply: &BeeReply<E>) -> bool {
        self.deep_view().expects(reply.deep_view())
    }

    fn resume(self, reply: BeeReply<E>) -> (step: FeedStep<PutMetadata, (), E>)
        ensures
            step.deep_view() == self.deep_view().next(reply.deep_view()),
    {
        match reply {
            BeeReply::Written => Step::Done(Ok(())),
            BeeReply::Failed(error) => Step::Done(Err(FeedError::Hyperbee(error))),
            _ => vstd::pervasive::unreached(),
        }
    }
}

/// [`OrderedHyperbee::maybe_update_metadata`] under way.
#[derive(Debug)]
pub struct MaybeUpdateMetadata {}

impl DeepView for MaybeUpdateMetadata {
    type V = MaybeUpdateMetadata;

    open spec fn deep_view(&self) -> MaybeUpdateMetadata {
        *self
    }
}

impl MaybeUpdateMetadata {
    /// How the operation begins.
    pub open spec fn start<E>(key: Seq<u8>, value: Seq<u8>) -> FeedPlan<MaybeUpdateMetadata, bool, E> {
        Step::Ask(BeeRequest::PutIfChanged { sub: Sub::Metadata, key, value }, MaybeUpdateMetadata {  })
    }
}

impl<E> Program<BeeRequest<Seq<u8>>, BeeReply<E, Seq<u8>>> for MaybeUpdateMetadata {
    type Value = bool;

    type Failure = FeedError<E, Seq<u8>>;

    open spec fn expects(self, reply: BeeReply<E, Seq<u8>>) -> bool {
        reply is Swapped || reply is Failed
    }

    open spec fn next(self, reply: BeeReply<E, Seq<u8>>) -> FeedPlan<MaybeUpdateMetadata, bool, E> {
        match reply {
            BeeReply::Swapped(seq) => Step::Done(Ok(seq is Some)),
            BeeReply::Failed(error) => Step::Done(Err(FeedError::Hyperbee(error))),
            _ => arbitrary(),
        }
    }

    proof fn goes_on(self, reply: BeeReply<E, Seq<u8>>) {
    }
}

impl<E> Operation<BeeRequest, BeeReply<E>> for MaybeUpdateMetadata {
    type Value = bool;

    type Failure = FeedError<E>;

    open spec fn awaits(&self, reply: &BeeReply<E>) -> bool {
        self.deep_view().expects(reply.deep_view())
    }

    fn resume(self, reply: BeeReply<E>) -> (step: FeedStep<MaybeUpdateMetadata, bool, E>)
        ensures
            step.deep_view() == self.deep_view().next(reply.deep_view()),
    {
        match reply {
            BeeReply::Swapped(seq) => Step::Done(Ok(seq.is_some())),
            BeeReply::Failed(error) => Step::Done(Err(FeedError::Hyperbee(error))),
            _ => vstd::pervasive::unreached(),
        }
    }
}

/// [`OrderedHyperbee::get_metadata_value`] under way.
#[derive(Debug)]
pub struct GetMetadataValue {}

impl DeepView for GetMetadataValue {
    type V = GetMetadataValue;

    open spec fn deep_view(&self) -> GetMetadataValue {
        *self
    }
}

impl GetMetadataValue {
    /// How the operation begins.
    pub open spec fn start<E>(key: Seq<u8>) -> FeedPlan<GetMetadataValue, Option<Seq<u8>>, E> {
        Step::Ask(BeeRequest::Get { sub: Sub::Metadata, key }, GetMetadataValue {  })
    }
}

impl<E> Program<BeeRequest<Seq<u8>>, BeeReply<E, Seq<u8>>> for GetMetadataValue {
    type Value = Option<Seq<u8>>;

    type Failure = FeedError<E, Seq<u8>>;

    open spec fn expects(self, reply: BeeReply<E, Seq<u8>>) -> bool {
        reply is Found || reply is Failed
    }

    open spec fn next(self, reply: BeeReply<E, Seq<u8>>) -> FeedPlan<GetMetadataValue, Option<Seq<u8>>, E> {
        match reply {
            BeeReply::Found(found) => Step::Done(Ok(found_value(found))),
            BeeReply::Failed(error) => Step::Done(Err(FeedError::Hyperbee(error))),
            _ => arbitrary(),
        }
    }

    proof fn goes_on(self, reply: BeeReply<E, Seq<u8>>) {
    }
}

impl<E> Operation<BeeRequest, BeeReply<E>> for GetMetadataValue {
    type Value = Option<Vec<u8>>;

    type Failure = FeedError<E>;

    open spec fn awaits(&self, reply: &BeeReply<E>) -> bool {
        self.deep_view().expects(reply.deep_view())
    }

    fn resume(self, reply: BeeReply<E>) -> (step: FeedStep<GetMetadataValue, Option<Vec<u8>>, E>)
        ensures
            step.deep_view() == self.deep_view().next(reply.deep_view()),
    {
        match reply {
            BeeReply::Found(Some((_, value))) => Step::Done(Ok(value)),
            BeeReply::Found(None) => Step::Done(Ok(None)),
            BeeReply::Failed(error) => Step::Done(Err(FeedError::Hyperbee(error))),
            _ => vstd::pervasive::unreached(),
        }
    }
}

/// Metadata fields with their values.
pub type Fields = Vec<(String, Option<Vec<u8>>)>;

/// Metadata fields with their values, by their contents.
pub type FieldValues = Seq<(Seq<char>, Option<Seq<u8>>)>;

/// [`OrderedHyperbee::get_metadata`] under way.
#[derive(Debug)]
pub struct GetMetadata<N = Vec<String>, F = Fields> {
    /// The names of the fields.
    pub names: N,
    /// The fields that were read. The one after them is being read.
    pub fields: F,
}

impl<N: DeepView, F: DeepView> DeepView for GetMetadata<N, F> {
    type V = GetMetadata<N::V, F::V>;

    open spec fn deep_view(&self) -> Self::V {
        GetMetadata { names: self.names.deep_view(), fields: self.fields.deep_view() }
    }
}

impl GetMetadata<Seq<Seq<char>>, FieldValues> {
    /// How the operation begins.
    pub open spec fn start<E>(names: Seq<Seq<char>>) -> FeedPlan<Self, FieldValues, E> {
        GetMetadata::read_on(names, Seq::empty())
    }

    /// What follows when `fields` were read: the field after them is read, if there is one.
    pub open spec fn read_on<E>(names: Seq<Seq<char>>, fields: FieldValues) -> FeedPlan<
        Self,
        FieldValues,
        E,
    > {
        if fields.len() < names.len() {
            Step::Ask(
                BeeRequest::Get {
                    sub: Sub::Metadata,
                    key: vstd::utf8::encode_utf8(names[fields.len() as int]),
                },
                GetMetadata { names, fields },
            )
        } else {
            Step::Done(Ok(fields))
        }
    }
}

impl<E> Program<BeeRequest<Seq<u8>>, BeeReply<E, Seq<u8>>> for GetMetadata<
    Seq<Seq<char>>,
    FieldValues,
> {
    type Value = FieldValues;

    type Failure = FeedError<E, Seq<u8>>;

    open spec fn expects(self, reply: BeeReply<E, Seq<u8>>) -> bool {
        (reply is Found || reply is Failed) && self.fields.len() < self.names.len()
    }

    open spec fn next(self, reply: BeeReply<E, Seq<u8>>) -> FeedPlan<Self, FieldValues, E> {
        match reply {
            BeeReply::Found(found) => GetMetadata::read_on(
                self.names,
                self.fields.push((self.names[self.fields.len() as int], found_value(found))),
            ),
            BeeReply::Failed(error) => Step::Done(Err(FeedError::Hyperbee(error))),
            _ => arbitrary(),
        }
    }

    proof fn goes_on(self, reply: BeeReply<E, Seq<u8>>) {
    }
}

/// What follows when `fields` were read.
fn read_on<E>(names: Vec<String>, fields: Fields) -> (step: FeedStep<GetMetadata, Fields, E>)
    ensures
        step.deep_view() == GetMetadata::read_on::<E>(names.deep_view(), fields.deep_view()),
{
    if fields.len() < names.len() {
        let key = copy_bytes(names[fields.len()].as_str().as_bytes());
        Step::Ask(BeeRequest::Get { sub: Sub::Metadata, key }, GetMetadata { names, fields })
    } else {
        Step::Done(Ok(fields))
    }
}

impl<E> Operation<BeeRequest, BeeReply<E>> for GetMetadata {
    type Value = Fields;

    type Failure = FeedError<E>;

    open spec fn awaits(&self, reply: &BeeReply<E>) -> bool {
        self.deep_view().expects(reply.deep_view())
    }

    fn resume(self, reply: BeeReply<E>) -> (step: FeedStep<GetMetadata, Fields, E>)
        ensures
            step.deep_view() == self.deep_view().next(reply.deep_view()),
    {
        let GetMetadata { names, mut fields } = self;
        let value = match reply {
            BeeReply::Found(Some((_, value))) => value,
            BeeReply::Found(None) => None,
            BeeReply::Failed(error) => {
                return Step::Done(Err(FeedError::Hyperbee(error)));
            },
            _ => vstd::pervasive::unreached(),
        };
        let name = names[fields.len()].clone();
        let ghost read = fields;
        fields.push((name, value));
        assert(fields.deep_view() =~= read.deep_view().push((name@, value.deep_view())));
        read_on(names, fields)
    }
}

/// A key value store that keeps the order of insertion, with separate storage for feed-level
/// metadata. The data is in the Hyperbee; a method only says what to ask of it.
#[derive(Clone, Copy, Debug)]
pub struct OrderedHyperbee {}

impl OrderedHyperbee {
    /// The operations on the feed in a Hyperbee.
    pub fn new() -> (feed: OrderedHyperbee)
        ensures
            feed == (OrderedHyperbee {  }),
    {
        OrderedHyperbee {  }
    }

    /// The number of blocks in the Hypercore below.
    pub fn version<E>(&self) -> (step: FeedStep<GetVersion, u64, E>)
        ensures
            step.deep_view() == GetVersion::start::<E>(),
    {
        Step::Ask(BeeRequest::Version, GetVersion {  })
    }

    /// Whether `key` is in the feed.
    pub fn has_key<E>(&self, key: &[u8]) -> (step: FeedStep<HasKey, bool, E>)
        ensures
            step.deep_view() == HasKey::start::<E>(key@),
    {
        Step::Ask(BeeRequest::Get { sub: Sub::Key, key: copy_bytes(key) }, HasKey {  })
    }

    /// The position of the next item: one more than the highest in use, or `0` if the feed is
    /// empty. The order keys are read for it to their end, because the greatest key need not be
    /// that of the highest position. The greatest key has to be read and to stand for a position:
    /// else that is the error. Where a later key cannot be read, those before it decide.
    pub fn get_next_highest<E>(&self) -> (step: FeedStep<GetNextHighest, u64, E>)
        ensures
            step.deep_view() == GetNextHighest::start::<E>(),
    {
        Step::Ask(
            BeeRequest::Traverse { sub: Sub::Order, reversed: true },
            GetNextHighest::Opening,
        )
    }

    /// Record `item_key` at the next position.
    pub fn put_next_in_order<E>(&self, item_key: &[u8]) -> (step: FeedStep<PutNextInOrder, (), E>)
        ensures
            step.deep_view() == PutNextInOrder::start::<E>(item_key@),
    {
        place(self.get_next_highest(), copy_bytes(item_key))
    }

    /// Store `value` under `key`, and record `key` as the next item in the order of insertion.
    pub fn put_ordered_item<E>(&self, key: &[u8], value: &[u8]) -> (step: FeedStep<
        PutOrderedItem,
        (),
        E,
    >)
        ensures
            step.deep_view() == PutOrderedItem::start::<E>(key@, value@),
    {
        store(self.put_next_in_order(key), copy_bytes(key), copy_bytes(value))
    }

    /// Begin to read the feed from the newest entry to the oldest.
    pub fn get_feed_stream<E>(&self) -> (step: FeedStep<GetFeedStream, FeedStream<E>, E>)
        ensures
            step.deep_view() == GetFeedStream::start::<E>(),
    {
        Step::Ask(BeeRequest::Traverse { sub: Sub::Order, reversed: true }, GetFeedStream {  })
    }

    /// Set a metadata field, whatever it held.
    pub fn put_metadata<E>(&self, key: &[u8], value: &[u8]) -> (step: FeedStep<PutMetadata, (), E>)
        ensures
            step.deep_view() == PutMetadata::start::<E>(key@, value@),
    {
        Step::Ask(
            BeeRequest::Put { sub: Sub::Metadata, key: copy_bytes(key), value: copy_bytes(value) },
            PutMetadata {  },
        )
    }

    /// Set a metadata field only if it is unset or its value would change. Gives whether a value
    /// was written.
    pub fn maybe_update_metadata<E>(&self, key: &[u8], value: &[u8]) -> (step: FeedStep<
        MaybeUpdateMetadata,
        bool,
        E,
    >)
        ensures
            step.deep_view() == MaybeUpdateMetadata::start::<E>(key@, value@),
    {
        Step::Ask(
            BeeRequest::PutIfChanged {
                sub: Sub::Metadata,
                key: copy_bytes(key),
                value: copy_bytes(value),
            },
            MaybeUpdateMetadata {  },
        )
    }

    /// The value of a metadata field.
    pub fn get_metadata_value<E>(&self, key: &[u8]) -> (step: FeedStep<
        GetMetadataValue,
        Option<Vec<u8>>,
        E,
    >)
        ensures
            step.deep_view() == GetMetadataValue::start::<E>(key@),
    {
        Step::Ask(
            BeeRequest::Get { sub: Sub::Metadata, key: copy_bytes(key) },
            GetMetadataValue {  },
        )
    }

    /// The values of the metadata fields `names`, in that order.
    pub fn get_metadata<E>(&self, names: Vec<String>) -> (step: FeedStep<GetMetadata, Fields, E>)
        ensures
            step.deep_view() == GetMetadata::start::<E>(names.deep_view()),
    {
        let fields: Fields = Vec::new();
        assert(fields.deep_view() =~= Seq::empty());
        read_on(names, fields)
    }
}

} // verus!
