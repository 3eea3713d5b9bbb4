//! A peer: one feed with its keyed blobs.
//!
//! A peer is four cores, `keys`, `feed`, `blobKeys` and `blobs`. It is a writer if it holds the
//! secret key of the feed core, and a reader otherwise.
//!
//! The `keys` core is how the others are found. [`Peer::writer`] writes the public keys of the
//! other three into it, once. [`Peer::reader`] needs to know only the public key of the `keys`
//! core, and learns the rest by replicating and reading it.
//!
//! Opening cores, replicating, reading and writing are asked for, as in [`step`](crate::step).

use vstd::prelude::*;
use vstd::string::StringExecFns;

use crate::base64url::Fault;
use crate::feed::{FeedError, OrderedHyperbee};
use crate::keyed_blobs::KeyedBlobs;
use crate::keys::{entry_bytes, KeyError, PeerKeys, PublicKey, RawPeerKeys};
use crate::step::{Operation, Program, Request, Step};

verus! {

broadcast use crate::bytes::lemma_bytes_contents;

/// How long a reader waits for the bootstrap entry before it looks again, in milliseconds.
pub const RETRY_MILLIS: u64 = 25;

/// Errors of opening a peer. `C` is the error of the store of cores, `E` that of a Hyperbee, `K`
/// that of setting up keyed blobs, and `X` that of a core.
#[derive(Debug)]
#[non_exhaustive]
pub enum PeerError<C, E, K, X, B = Vec<u8>, G = signature::Error> {
    /// The store of cores failed.
    Corestore(C),
    /// An operation on the feed failed.
    Feed(FeedError<E, B>),
    /// The Hyperbee of the feed failed.
    Hyperbee(E),
    /// The keyed blobs failed.
    KeyedBlobs(K),
    /// The `keys` core failed.
    Hypercore(X),
    /// The bootstrap entry does not decode.
    KeysEntryDecode(serde_json::Error),
    /// A key in the bootstrap entry is no base64url.
    KeyEncoding(Fault),
    /// A key in the bootstrap entry is not 32 bytes.
    InvalidPublicKeyLength,
    /// A key in the bootstrap entry is no point of the curve.
    InvalidPublicKey(G),
}

impl<C, E, K, X> DeepView for PeerError<C, E, K, X> {
    type V = PeerError<C, E, K, X, Seq<u8>, ()>;

    open spec fn deep_view(&self) -> Self::V {
        match self {
            PeerError::Corestore(error) => PeerError::Corestore(*error),
            PeerError::Feed(error) => PeerError::Feed(error.deep_view()),
            PeerError::Hyperbee(error) => PeerError::Hyperbee(*error),
            PeerError::KeyedBlobs(error) => PeerError::KeyedBlobs(*error),
            PeerError::Hypercore(error) => PeerError::Hypercore(*error),
            PeerError::KeysEntryDecode(error) => PeerError::KeysEntryDecode(*error),
            PeerError::KeyEncoding(fault) => PeerError::KeyEncoding(*fault),
            PeerError::InvalidPublicKeyLength => PeerError::InvalidPublicKeyLength,
            PeerError::InvalidPublicKey(_) => PeerError::InvalidPublicKey(()),
        }
    }
}

impl<C, E, K, X, B, G> PeerError<C, E, K, X, B, G> {
    /// The error of a peer with a key that has this error.
    pub open spec fn of_key(error: KeyError<G>) -> Self {
        match error {
            KeyError::KeyEncoding(fault) => PeerError::KeyEncoding(fault),
            KeyError::InvalidPublicKeyLength => PeerError::InvalidPublicKeyLength,
            KeyError::InvalidPublicKey(error) => PeerError::InvalidPublicKey(error),
        }
    }
}

/// The error of a peer with a key that has this error.
fn key_error<C, E, K, X>(error: KeyError) -> (peer_error: PeerError<C, E, K, X>)
    ensures
        peer_error == PeerError::<C, E, K, X, Vec<u8>, signature::Error>::of_key(error),
{
    match error {
        KeyError::KeyEncoding(fault) => PeerError::KeyEncoding(fault),
        KeyError::InvalidPublicKeyLength => PeerError::InvalidPublicKeyLength,
        KeyError::InvalidPublicKey(error) => PeerError::InvalidPublicKey(error),
    }
}

/// The cores of a peer.
#[derive(Clone, Copy, Debug, PartialEq, Eq, Structural)]
pub enum Core {
    /// The core that holds the keys of the others.
    Keys,
    /// The core of the feed.
    Feed,
    /// The core of the index of the blobs.
    BlobKeys,
    /// The core of the blobs.
    Blobs,
}

/// What is known of a core once it is open.
#[derive(Clone, Copy, Debug)]
pub struct CoreInfo<K = PublicKey> {
    /// Its public key.
    pub public: K,
    /// Whether its secret key is there.
    pub writable: bool,
    /// The number of its blocks.
    pub length: u64,
}

impl<K: DeepView> DeepView for CoreInfo<K> {
    type V = CoreInfo<K::V>;

    open spec fn deep_view(&self) -> Self::V {
        CoreInfo { public: self.public.deep_view(), writable: self.writable, length: self.length }
    }
}

/// A request for what lies outside a peer.
#[derive(Debug)]
pub enum PeerRequest<S = String, K = PublicKey, B = Vec<u8>> {
    /// Open the core with this name, which is created if it is not there, as `core`. Answered by
    /// [`PeerReply::Opened`] or [`PeerReply::StoreFailed`].
    OpenNamed {
        /// What the core is for.
        core: Core,
        /// Its name.
        name: S,
    },
    /// Open the core with this public key as `core`. Answered by [`PeerReply::Opened`] or
    /// [`PeerReply::StoreFailed`].
    OpenKeyed {
        /// What the core is for.
        core: Core,
        /// Its public key.
        key: K,
    },
    /// Begin to replicate all cores, those that are opened later too. Answered by
    /// [`PeerReply::Replicating`].
    Replicate,
    /// Append the bootstrap entry to the `keys` core. Answered by [`PeerReply::Appended`] or
    /// [`PeerReply::CoreFailed`].
    AppendEntry {
        /// The bytes of the entry.
        bytes: B,
    },
    /// The first block of the `keys` core. Answered by [`PeerReply::Block`] or
    /// [`PeerReply::CoreFailed`].
    ReadEntry,
    /// Decode the bytes of a bootstrap entry. Answered by [`PeerReply::Entry`] or
    /// [`PeerReply::Malformed`].
    DecodeEntry {
        /// The bytes.
        bytes: B,
    },
    /// Let time pass. Answered by [`PeerReply::Waited`].
    Wait {
        /// How long, in milliseconds.
        millis: u64,
    },
    /// Set up a Hyperbee on the `feed` core. Answered by [`PeerReply::Attached`] or
    /// [`PeerReply::FeedFailed`].
    AttachFeed,
    /// Set up keyed blobs on the `blobKeys` and `blobs` cores. Answered by
    /// [`PeerReply::Attached`] or [`PeerReply::BlobsFailed`].
    AttachBlobs,
}

impl<S: DeepView, K: DeepView, B: DeepView> DeepView for PeerRequest<S, K, B> {
    type V = PeerRequest<S::V, K::V, B::V>;

    open spec fn deep_view(&self) -> Self::V {
        match self {
            PeerRequest::OpenNamed { core, name } => PeerRequest::OpenNamed {
                core: *core,
                name: name.deep_view(),
            },
            PeerRequest::OpenKeyed { core, key } => PeerRequest::OpenKeyed {
                core: *core,
                key: key.deep_view(),
            },
            PeerRequest::Replicate => PeerRequest::Replicate,
            PeerRequest::AppendEntry { bytes } => PeerRequest::AppendEntry {
                bytes: bytes.deep_view(),
            },
            PeerRequest::ReadEntry => PeerRequest::ReadEntry,
            PeerRequest::DecodeEntry { bytes } => PeerRequest::DecodeEntry {
                bytes: bytes.deep_view(),
            },
            PeerRequest::Wait { millis } => PeerRequest::Wait { millis: *millis },
            PeerRequest::AttachFeed => PeerRequest::AttachFeed,
            PeerRequest::AttachBlobs => PeerRequest::AttachBlobs,
        }
    }
}

/// The reply to a [`PeerRequest`].
#[derive(Debug)]
pub enum PeerReply<C, E, K, X, S = String, P = PublicKey, B = Vec<u8>> {
    /// The core is open.
    Opened(CoreInfo<P>),
    /// Replication has begun.
    Replicating,
    /// The entry was appended.
    Appended,
    /// The block, if it is there yet.
    Block(Option<B>),
    /// The texts in the entry.
    Entry(RawPeerKeys<S>),
    /// The bytes are no entry.
    Malformed(serde_json::Error),
    /// The time has passed.
    Waited,
    /// It is set up.
    Attached,
    /// The store of cores failed.
    StoreFailed(C),
    /// The `keys` core failed.
    CoreFailed(X),
    /// The Hyperbee of the feed could not be set up.
    FeedFailed(E),
    /// The keyed blobs could not be set up.
    BlobsFailed(K),
}

impl<C, E, K, X, S: DeepView, P: DeepView, B: DeepView> DeepView for PeerReply<
    C,
    E,
    K,
    X,
    S,
    P,
    B,
> {
    type V = PeerReply<C, E, K, X, S::V, P::V, B::V>;

    open spec fn deep_view(&self) -> Self::V {
        match self {
            PeerReply::Opened(info) => PeerReply::Opened(info.deep_view()),
            PeerReply::Replicating => PeerReply::Replicating,
            PeerReply::Appended => PeerReply::Appended,
            PeerReply::Block(block) => PeerReply::Block(block.deep_view()),
            PeerReply::Entry(raw) => PeerReply::Entry(raw.deep_view()),
            PeerReply::Malformed(error) => PeerReply::Malformed(*error),
            PeerReply::Waited => PeerReply::Waited,
            PeerReply::Attached => PeerReply::Attached,
            PeerReply::StoreFailed(error) => PeerReply::StoreFailed(*error),
            PeerReply::CoreFailed(error) => PeerReply::CoreFailed(*error),
            PeerReply::FeedFailed(error) => PeerReply::FeedFailed(*error),
            PeerReply::BlobsFailed(error) => PeerReply::BlobsFailed(*error),
        }
    }
}

impl<C, E, K, X> Request<PlannedReply<C, E, K, X>> for PlannedRequest {
    /// An entry with texts that are too long to be decoded answers no request.
    open spec fn answered_by(self, reply: PlannedReply<C, E, K, X>) -> bool {
        match self {
            PeerRequest::OpenNamed { .. } => reply is Opened || reply is StoreFailed,
            PeerRequest::OpenKeyed { .. } => reply is Opened || reply is StoreFailed,
            PeerRequest::Replicate => reply is Replicating,
            PeerRequest::AppendEntry { .. } => reply is Appended || reply is CoreFailed,
            PeerRequest::ReadEntry => reply is Block || reply is CoreFailed,
            PeerRequest::DecodeEntry { .. } => match reply {
                PeerReply::Entry(raw) => raw.fit(),
                PeerReply::Malformed(_) => true,
                _ => false,
            },
            PeerRequest::Wait { .. } => reply is Waited,
            PeerRequest::AttachFeed => reply is Attached || reply is FeedFailed,
            PeerRequest::AttachBlobs => reply is Attached || reply is BlobsFailed,
        }
    }
}

/// A step of an operation that opens a peer.
pub type PeerStep<S, C, E, K, X> = Step<PeerRequest, S, Peer, PeerError<C, E, K, X>>;

/// A request by its contents.
pub type PlannedRequest = PeerRequest<Seq<char>, Seq<u8>, Seq<u8>>;

/// A reply by its contents.
pub type PlannedReply<C, E, K, X> = PeerReply<C, E, K, X, Seq<char>, Seq<u8>, Seq<u8>>;

/// A step of an operation that opens a peer, by its contents.
pub type PeerPlan<S, C, E, K, X> = Step<
    PlannedRequest,
    S,
    Peer<Seq<u8>>,
    PeerError<C, E, K, X, Seq<u8>, ()>,
>;

/// A peer for one feed and its keyed blobs.
#[derive(Debug)]
pub struct Peer<K = PublicKey> {
    /// The keys of the `feed`, `blobKeys` and `blobs` cores.
    pub keys: PeerKeys<K>,
    /// The key of the `keys` core.
    pub keys_core: K,
    /// Whether the secret key of the feed core is there.
    pub is_writer: bool,
    /// The feed.
    pub feed: OrderedHyperbee,
    /// The keyed blobs.
    pub keyed_blobs: KeyedBlobs,
}

impl<K: DeepView> DeepView for Peer<K> {
    type V = Peer<K::V>;

    open spec fn deep_view(&self) -> Self::V {
        Peer {
            keys: self.keys.deep_view(),
            keys_core: self.keys_core.deep_view(),
            is_writer: self.is_writer,
            feed: self.feed,
            keyed_blobs: self.keyed_blobs,
        }
    }
}

impl<K> Peer<K> {
    /// The peer with these keys.
    pub open spec fn made(keys: PeerKeys<K>, keys_core: K, is_writer: bool) -> Peer<K> {
        Peer {
            keys,
            keys_core,
            is_writer,
            feed: OrderedHyperbee {  },
            keyed_blobs: KeyedBlobs {  },
        }
    }
}

/// Setting up the feed and the blobs of a peer whose cores are open.
#[derive(Debug)]
pub enum Attach<K = PublicKey> {
    /// The feed is being set up.
    Feed {
        /// The keys of the peer.
        keys: PeerKeys<K>,
        /// The key of its `keys` core.
        keys_core: K,
        /// Whether it is a writer.
        is_writer: bool,
    },
    /// The keyed blobs are being set up.
    Blobs {
        /// The keys of the peer.
        keys: PeerKeys<K>,
        /// The key of its `keys` core.
        keys_core: K,
        /// Whether it is a writer.
        is_writer: bool,
        /// The feed.
        feed: OrderedHyperbee,
    },
}

impl<K: DeepView> DeepView for Attach<K> {
    type V = Attach<K::V>;

    open spec fn deep_view(&self) -> Self::V {
        match self {
            Attach::Feed { keys, keys_core, is_writer } => Attach::Feed {
                keys: keys.deep_view(),
                keys_core: keys_core.deep_view(),
                is_writer: *is_writer,
            },
            Attach::Blobs { keys, keys_core, is_writer, feed } => Attach::Blobs {
                keys: keys.deep_view(),
                keys_core: keys_core.deep_view(),
                is_writer: *is_writer,
                feed: *feed,
            },
        }
    }
}

impl Attach<Seq<u8>> {
    /// How the operation begins.
    pub open spec fn start<C, E, K, X>(
        keys: PeerKeys<Seq<u8>>,
        keys_core: Seq<u8>,
        is_writer: bool,
    ) -> PeerPlan<Self, C, E, K, X> {
        Step::Ask(PeerRequest::AttachFeed, Attach::Feed { keys, keys_core, is_writer })
    }
}

impl<C, E, K, X> Program<PlannedRequest, PlannedReply<C, E, K, X>> for Attach<Seq<u8>> {
    type Value = Peer<Seq<u8>>;

    type Failure = PeerError<C, E, K, X, Seq<u8>, ()>;

    open spec fn expects(self, reply: PlannedReply<C, E, K, X>) -> bool {
        match self {
            Attach::Feed { .. } => reply is Attached || reply is FeedFailed,
            Attach::Blobs { .. } => reply is Attached || reply is BlobsFailed,
        }
    }

    open spec fn next(self, reply: PlannedReply<C, E, K, X>) -> PeerPlan<Self, C, E, K, X> {
        match (self, reply) {
            (Attach::Feed { keys, keys_core, is_writer }, PeerReply::Attached) => Step::Ask(
                PeerRequest::AttachBlobs,
                Attach::Blobs { keys, keys_core, is_writer, feed: OrderedHyperbee {  } },
            ),
            (Attach::Feed { .. }, PeerReply::FeedFailed(error)) => Step::Done(
                Err(PeerError::Hyperbee(error)),
            ),
            (Attach::Blobs { keys, keys_core, is_writer, feed }, PeerReply::Attached) => Step::Done(
                Ok(Peer { keys, keys_core, is_writer, feed, keyed_blobs: KeyedBlobs {  } }),
            ),
            (Attach::Blobs { .. }, PeerReply::BlobsFailed(error)) => Step::Done(
                Err(PeerError::KeyedBlobs(error)),
            ),
            _ => arbitrary(),
        }
    }

    proof fn goes_on(self, reply: PlannedReply<C, E, K, X>) {
    }
}

impl<C, E, K, X> Operation<PeerRequest, PeerReply<C, E, K, X>> for Attach {
    type Value = Peer;

    type Failure = PeerError<C, E, K, X>;

    open spec fn awaits(&self, reply: &PeerReply<C, E, K, X>) -> bool {
        self.deep_view().expects(reply.deep_view())
    }

    fn resume(self, reply: PeerReply<C, E, K, X>) -> (step: PeerStep<Self, C, E, K, X>)
        ensures
            step.deep_view() == self.deep_view().next(reply.deep_view()),
    {
        match (self, reply) {
            (Attach::Feed { keys, keys_core, is_writer }, PeerReply::Attached) => Step::Ask(
                PeerRequest::AttachBlobs,
                Attach::Blobs { keys, keys_core, is_writer, feed: OrderedHyperbee::new() },
            ),
            (Attach::Feed { .. }, PeerReply::FeedFailed(error)) => Step::Done(
                Err(PeerError::Hyperbee(error)),
            ),
            (Attach::Blobs { keys, keys_core, is_writer, feed }, PeerReply::Attached) => Step::Done(
                Ok(Peer { keys, keys_core, is_writer, feed, keyed_blobs: KeyedBlobs::new() }),
            ),
            (Attach::Blobs { .. }, PeerReply::BlobsFailed(error)) => Step::Done(
                Err(PeerError::KeyedBlobs(error)),
            ),
            _ => vstd::pervasive::unreached(),
        }
    }
}

/// The name of a core of the peer with the name `name`.
pub open spec fn core_name(name: Seq<char>, core: Core) -> Seq<char> {
    match core {
        Core::Feed => name,
        Core::BlobKeys => name + "-blobKeys"@,
        Core::Blobs => name + "-blobs"@,
        Core::Keys => name + "-keys"@,
    }
}

/// The name under which a core of the peer with the name `name` is opened.
pub fn name_of_core(name: &str, core: Core) -> (core_name: String)
    ensures
        core_name@ == self::core_name(name@, core),
{
    let name = name.to_owned();
    match core {
        Core::Feed => name,
        Core::BlobKeys => name.concat("-blobKeys"),
        Core::Blobs => name.concat("-blobs"),
        Core::Keys => name.concat("-keys"),
    }
}

/// [`Peer::writer`] under way.
#[derive(Debug)]
pub enum Writer<S = String, K = PublicKey> {
    /// The feed core is being opened.
    OpeningFeed {
        /// The name of the peer.
        name: S,
    },
    /// The `blobKeys` core is being opened.
    OpeningBlobKeys {
        /// The name of the peer.
        name: S,
        /// The feed core.
        feed: CoreInfo<K>,
    },
    /// The `blobs` core is being opened.
    OpeningBlobs {
        /// The name of the peer.
        name: S,
        /// The feed core.
        feed: CoreInfo<K>,
        /// The `blobKeys` core.
        blob_keys: CoreInfo<K>,
    },
    /// The `keys` core is being opened.
    OpeningKeys {
        /// The feed core.
        feed: CoreInfo<K>,
        /// The `blobKeys` core.
        blob_keys: CoreInfo<K>,
        /// The `blobs` core.
        blobs: CoreInfo<K>,
    },
    /// The bootstrap entry is being appended.
    Appending {
        /// The keys of the peer.
        keys: PeerKeys<K>,
        /// The key of its `keys` core.
        keys_core: K,
        /// Whether it is a writer.
        is_writer: bool,
    },
    /// The feed and the blobs are being set up.
    Attaching(Attach<K>),
}

impl<S: DeepView, K: DeepView> DeepView for Writer<S, K> {
    type V = Writer<S::V, K::V>;

    open spec fn deep_view(&self) -> Self::V {
        match self {
            Writer::OpeningFeed { name } => Writer::OpeningFeed { name: name.deep_view() },
            Writer::OpeningBlobKeys { name, feed } => Writer::OpeningBlobKeys {
                name: name.deep_view(),
                feed: feed.deep_view(),
            },
            Writer::OpeningBlobs { name, feed, blob_keys } => Writer::OpeningBlobs {
                name: name.deep_view(),
                feed: feed.deep_view(),
                blob_keys: blob_keys.deep_view(),
            },
            Writer::OpeningKeys { feed, blob_keys, blobs } => Writer::OpeningKeys {
                feed: feed.deep_view(),
                blob_keys: blob_keys.deep_view(),
                blobs: blobs.deep_view(),
            },
            Writer::Appending { keys, keys_core, is_writer } => Writer::Appending {
                keys: keys.deep_view(),
                keys_core: keys_core.deep_view(),
                is_writer: *is_writer,
            },
            Writer::Attaching(attach) => Writer::Attaching(attach.deep_view()),
        }
    }
}

impl Writer<Seq<char>, Seq<u8>> {
    /// How the operation begins.
    pub open spec fn start<C, E, K, X>(name: Seq<char>) -> PeerPlan<Self, C, E, K, X> {
        Step::Ask(
            PeerRequest::OpenNamed { core: Core::Feed, name: core_name(name, Core::Feed) },
            Writer::OpeningFeed { name },
        )
    }

    /// What follows when the setting up stands at `attach`.
    pub open spec fn attaching<C, E, K, X>(
        attach: PeerPlan<Attach<Seq<u8>>, C, E, K, X>,
    ) -> PeerPlan<Self, C, E, K, X> {
        match attach {
            Step::Ask(request, attach) => Step::Ask(request, Writer::Attaching(attach)),
            Step::Done(result) => Step::Done(result),
        }
    }
}

/// What a writer goes on to when the setting up stands at `attach`.
fn writer_attaching<C, E, K, X>(attach: PeerStep<Attach, C, E, K, X>) -> (step: PeerStep<
    Writer,
    C,
    E,
    K,
    X,
>)
    ensures
        step.deep_view() == Writer::attaching(attach.deep_view()),
{
    match attach {
        Step::Ask(request, attach) => Step::Ask(request, Writer::Attaching(attach)),
        Step::Done(result) => Step::Done(result),
    }
}

/// Begins to set up the feed and the blobs.
fn start_attach<C, E, K, X>(keys: PeerKeys, keys_core: PublicKey, is_writer: bool) -> (step:
    PeerStep<Attach, C, E, K, X>)
    ensures
        step.deep_view() == Attach::start::<C, E, K, X>(
            keys.deep_view(),
            keys_core.deep_view(),
            is_writer,
        ),
{
    Step::Ask(PeerRequest::AttachFeed, Attach::Feed { keys, keys_core, is_writer })
}

impl<C, E, K, X> Program<PlannedRequest, PlannedReply<C, E, K, X>> for Writer<Seq<char>, Seq<u8>> {
    type Value = Peer<Seq<u8>>;

    type Failure = PeerError<C, E, K, X, Seq<u8>, ()>;

    open spec fn expects(self, reply: PlannedReply<C, E, K, X>) -> bool {
        match self {
            Writer::Appending { .. } => reply is Appended || reply is CoreFailed,
            Writer::Attaching(attach) => attach.expects(reply),
            _ => reply is Opened || reply is StoreFailed,
        }
    }

    open spec fn next(self, reply: PlannedReply<C, E, K, X>) -> PeerPlan<Self, C, E, K, X> {
        match (self, reply) {
            (
                Writer::OpeningFeed { .. } | Writer::OpeningBlobKeys { .. } | Writer::OpeningBlobs {
                    ..
                } | Writer::OpeningKeys { .. },
                PeerReply::StoreFailed(error),
            ) => Step::Done(Err(PeerError::Corestore(error))),
            (Writer::OpeningFeed { name }, PeerReply::Opened(feed)) => Step::Ask(
                PeerRequest::OpenNamed {
                    core: Core::BlobKeys,
                    name: core_name(name, Core::BlobKeys),
                },
                Writer::OpeningBlobKeys { name, feed },
            ),
            (Writer::OpeningBlobKeys { name, feed }, PeerReply::Opened(blob_keys)) => Step::Ask(
                PeerRequest::OpenNamed {
                    core: Core::Blobs,
                    name: core_name(name, Core::Blobs),
                },
                Writer::OpeningBlobs { name, feed, blob_keys },
            ),
            (Writer::OpeningBlobs { name, feed, blob_keys }, PeerReply::Opened(blobs)) => Step::Ask(
                PeerRequest::OpenNamed {
                    core: Core::Keys,
                    name: core_name(name, Core::Keys),
                },
                Writer::OpeningKeys { feed, blob_keys, blobs },
            ),
            (Writer::OpeningKeys { feed, blob_keys, blobs }, PeerReply::Opened(keys_core)) => {
                let keys = PeerKeys {
                    feed: feed.public,
                    blob_keys: blob_keys.public,
                    blobs: blobs.public,
                };
                let length: u64 = keys_core.length;
                let keys_core = keys_core.public;
                let is_writer = feed.writable;
                if length == 0 {
                    Step::Ask(
                        PeerRequest::AppendEntry { bytes: crate::keys::entry_text(keys.raw()) },
                        Writer::Appending { keys, keys_core, is_writer },
                    )
                } else {
                    Writer::attaching(Attach::start(keys, keys_core, is_writer))
                }
            },
            (Writer::Appending { keys, keys_core, is_writer }, PeerReply::Appended) => {
                Writer::attaching(Attach::start(keys, keys_core, is_writer))
            },
            (Writer::Appending { .. }, PeerReply::CoreFailed(error)) => Step::Done(
                Err(PeerError::Hypercore(error)),
            ),
            (Writer::Attaching(attach), reply) => Writer::attaching(attach.next(reply)),
            _ => arbitrary(),
        }
    }

    proof fn goes_on(self, reply: PlannedReply<C, E, K, X>) {
    }
}

impl<C, E, K, X> Operation<PeerRequest, PeerReply<C, E, K, X>> for Writer {
    type Value = Peer;

    type Failure = PeerError<C, E, K, X>;

    open spec fn awaits(&self, reply: &PeerReply<C, E, K, X>) -> bool {
        self.deep_view().expects(reply.deep_view())
    }

    fn resume(self, reply: PeerReply<C, E, K, X>) -> (step: PeerStep<Self, C, E, K, X>)
        ensures
            step.deep_view() == self.deep_view().next(reply.deep_view()),
    {
        match (self, reply) {
            (
                Writer::OpeningFeed { .. } | Writer::OpeningBlobKeys { .. } | Writer::OpeningBlobs {
                    ..
                } | Writer::OpeningKeys { .. },
                PeerReply::StoreFailed(error),
            ) => Step::Done(Err(PeerError::Corestore(error))),
            (Writer::OpeningFeed { name }, PeerReply::Opened(feed)) => Step::Ask(
                PeerRequest::OpenNamed {
                    core: Core::BlobKeys,
                    name: name_of_core(name.as_str(), Core::BlobKeys),
                },
                Writer::OpeningBlobKeys { name, feed },
            ),
            (Writer::OpeningBlobKeys { name, feed }, PeerReply::Opened(blob_keys)) => Step::Ask(
                PeerRequest::OpenNamed {
                    core: Core::Blobs,
                    name: name_of_core(name.as_str(), Core::Blobs),
                },
                Writer::OpeningBlobs { name, feed, blob_keys },
            ),
            (Writer::OpeningBlobs { name, feed, blob_keys }, PeerReply::Opened(blobs)) => Step::Ask(
                PeerRequest::OpenNamed {
                    core: Core::Keys,
                    name: name_of_core(name.as_str(), Core::Keys),
                },
                Writer::OpeningKeys { feed, blob_keys, blobs },
            ),
            (Writer::OpeningKeys { feed, blob_keys, blobs }, PeerReply::Opened(keys_core)) => {
                let keys = PeerKeys {
                    feed: feed.public,
                    blob_keys: blob_keys.public,
                    blobs: blobs.public,
                };
                let length: u64 = keys_core.length;
                let keys_core = keys_core.public;
                let is_writer = feed.writable;
                if length == 0 {
                    Step::Ask(
                        PeerRequest::AppendEntry { bytes: entry_bytes(&RawPeerKeys::from(&keys)) },
                        Writer::Appending { keys, keys_core, is_writer },
                    )
                } else {
                    writer_attaching(start_attach(keys, keys_core, is_writer))
                }
            },
            (Writer::Appending { keys, keys_core, is_writer }, PeerReply::Appended) => {
                writer_attaching(start_attach(keys, keys_core, is_writer))
            },
            (Writer::Appending { .. }, PeerReply::CoreFailed(error)) => Step::Done(
                Err(PeerError::Hypercore(error)),
            ),
            (Writer::Attaching(attach), reply) => writer_attaching(attach.resume(reply)),
            _ => vstd::pervasive::unreached(),
        }
    }
}

/// [`Peer::reader`] under way.
#[derive(Debug)]
pub enum Reader<K = PublicKey> {
    /// The `keys` core is being opened.
    OpeningKeys,
    /// Replication is being started.
    Starting {
        /// The key of the `keys` core.
        keys_core: K,
    },
    /// The bootstrap entry is being looked for.
    Reading {
        /// The key of the `keys` core.
        keys_core: K,
    },
    /// The bootstrap entry was not there yet.
    Waiting {
        /// The key of the `keys` core.
        keys_core: K,
    },
    /// The bootstrap entry is being decoded.
    Decoding {
        /// The key of the `keys` core.
        keys_core: K,
    },
    /// The feed core is being opened.
    OpeningFeed {
        /// The key of the `keys` core.
        keys_core: K,
        /// The keys in the bootstrap entry.
        keys: PeerKeys<K>,
    },
    /// The `blobKeys` core is being opened.
    OpeningBlobKeys {
        /// The key of the `keys` core.
        keys_core: K,
        /// The keys in the bootstrap entry.
        keys: PeerKeys<K>,
        /// Whether the peer is a writer.
        is_writer: bool,
    },
    /// The `blobs` core is being opened.
    OpeningBlobs {
        /// The key of the `keys` core.
        keys_core: K,
        /// The keys in the bootstrap entry.
        keys: PeerKeys<K>,
        /// Whether the peer is a writer.
        is_writer: bool,
    },
    /// The feed and the blobs are being set up.
    Attaching(Attach<K>),
}

impl<K: DeepView> DeepView for Reader<K> {
    type V = Reader<K::V>;

    open spec fn deep_view(&self) -> Self::V {
        match self {
            Reader::OpeningKeys => Reader::OpeningKeys,
            Reader::Starting { keys_core } => Reader::Starting {
                keys_core: keys_core.deep_view(),
            },
            Reader::Reading { keys_core } => Reader::Reading { keys_core: keys_core.deep_view() },
            Reader::Waiting { keys_core } => Reader::Waiting { keys_core: keys_core.deep_view() },
            Reader::Decoding { keys_core } => Reader::Decoding {
                keys_core: keys_core.deep_view(),
            },
            Reader::OpeningFeed { keys_core, keys } => Reader::OpeningFeed {
                keys_core: keys_core.deep_view(),
                keys: keys.deep_view(),
            },
            Reader::OpeningBlobKeys { keys_core, keys, is_writer } => Reader::OpeningBlobKeys {
                keys_core: keys_core.deep_view(),
                keys: keys.deep_view(),
                is_writer: *is_writer,
            },
            Reader::OpeningBlobs { keys_core, keys, is_writer } => Reader::OpeningBlobs {
                keys_core: keys_core.deep_view(),
                keys: keys.deep_view(),
                is_writer: *is_writer,
            },
            Reader::Attaching(attach) => Reader::Attaching(attach.deep_view()),
        }
    }
}

impl Reader<Seq<u8>> {
    /// How the operation begins.
    pub open spec fn start<C, E, K, X>(key: Seq<u8>) -> PeerPlan<Self, C, E, K, X> {
        Step::Ask(PeerRequest::OpenKeyed { core: Core::Keys, key }, Reader::OpeningKeys)
    }

    /// What follows when this came out of the bootstrap entry: the cores with the keys in it are
    /// opened, the feed core first.
    pub open spec fn learned<C, E, K, X>(
        keys_core: Seq<u8>,
        keys: Result<PeerKeys<Seq<u8>>, KeyError<()>>,
    ) -> PeerPlan<Self, C, E, K, X> {
        match keys {
            Err(error) => Step::Done(Err(PeerError::of_key(error))),
            Ok(keys) => Step::Ask(
                PeerRequest::OpenKeyed { core: Core::Feed, key: keys.feed },
                Reader::OpeningFeed { keys_core, keys },
            ),
        }
    }

    /// What follows when the setting up stands at `attach`.
    pub open spec fn attaching<C, E, K, X>(
        attach: PeerPlan<Attach<Seq<u8>>, C, E, K, X>,
    ) -> PeerPlan<Self, C, E, K, X> {
        match attach {
            Step::Ask(request, attach) => Step::Ask(request, Reader::Attaching(attach)),
            Step::Done(result) => Step::Done(result),
        }
    }
}

/// What a reader goes on to when this came out of the bootstrap entry.
pub fn reader_learned<C, E, K, X>(keys_core: PublicKey, keys: Result<PeerKeys, KeyError>) -> (step:
    PeerStep<Reader, C, E, K, X>)
    ensures
        step.deep_view() == Reader::learned::<C, E, K, X>(
            keys_core@,
            crate::step::outcome(keys),
        ),
{
    match keys {
        Err(error) => Step::Done(Err(key_error(error))),
        Ok(keys) => Step::Ask(
            PeerRequest::OpenKeyed { core: Core::Feed, key: keys.feed },
            Reader::OpeningFeed { keys_core, keys },
        ),
    }
}

/// What a reader goes on to when the setting up stands at `attach`.
fn reader_attaching<C, E, K, X>(attach: PeerStep<Attach, C, E, K, X>) -> (step: PeerStep<
    Reader,
    C,
    E,
    K,
    X,
>)
    ensures
        step.deep_view() == Reader::attaching(attach.deep_view()),
{
    match attach {
        Step::Ask(request, attach) => Step::Ask(request, Reader::Attaching(attach)),
        Step::Done(result) => Step::Done(result),
    }
}

impl<C, E, K, X> Program<PlannedRequest, PlannedReply<C, E, K, X>> for Reader<Seq<u8>> {
    type Value = Peer<Seq<u8>>;

    type Failure = PeerError<C, E, K, X, Seq<u8>, ()>;

    open spec fn expects(self, reply: PlannedReply<C, E, K, X>) -> bool {
        match self {
            Reader::Starting { .. } => reply is Replicating,
            Reader::Reading { .. } => reply is Block || reply is CoreFailed,
            Reader::Waiting { .. } => reply is Waited,
            Reader::Decoding { .. } => match reply {
                PeerReply::Entry(raw) => raw.fit(),
                PeerReply::Malformed(_) => true,
                _ => false,
            },
            Reader::Attaching(attach) => attach.expects(reply),
            _ => reply is Opened || reply is StoreFailed,
        }
    }

    open spec fn next(self, reply: PlannedReply<C, E, K, X>) -> PeerPlan<Self, C, E, K, X> {
        match (self, reply) {
            (
                Reader::OpeningKeys | Reader::OpeningFeed { .. } | Reader::OpeningBlobKeys { .. }
                | Reader::OpeningBlobs { .. },
                PeerReply::StoreFailed(error),
            ) => Step::Done(Err(PeerError::Corestore(error))),
            (Reader::OpeningKeys, PeerReply::Opened(info)) => Step::Ask(
                PeerRequest::Replicate,
                Reader::Starting { keys_core: info.public },
            ),
            (Reader::Starting { keys_core }, PeerReply::Replicating) => Step::Ask(
                PeerRequest::ReadEntry,
                Reader::Reading { keys_core },
            ),
            (Reader::Reading { .. }, PeerReply::CoreFailed(error)) => Step::Done(
                Err(PeerError::Hypercore(error)),
            ),
            (Reader::Reading { keys_core }, PeerReply::Block(None)) => Step::Ask(
                PeerRequest::Wait { millis: RETRY_MILLIS },
                Reader::Waiting { keys_core },
            ),
            (Reader::Waiting { keys_core }, PeerReply::Waited) => Step::Ask(
                PeerRequest::ReadEntry,
                Reader::Reading { keys_core },
            ),
            (Reader::Reading { keys_core }, PeerReply::Block(Some(bytes))) => Step::Ask(
                PeerRequest::DecodeEntry { bytes },
                Reader::Decoding { keys_core },
            ),
            (Reader::Decoding { .. }, PeerReply::Malformed(error)) => Step::Done(
                Err(PeerError::KeysEntryDecode(error)),
            ),
            (Reader::Decoding { keys_core }, PeerReply::Entry(raw)) => Reader::learned(
                keys_core,
                raw.keys(),
            ),
            (Reader::OpeningFeed { keys_core, keys }, PeerReply::Opened(info)) => Step::Ask(
                PeerRequest::OpenKeyed { core: Core::BlobKeys, key: keys.blob_keys },
                Reader::OpeningBlobKeys { keys_core, keys, is_writer: info.writable },
            ),
            (
                Reader::OpeningBlobKeys { keys_core, keys, is_writer },
                PeerReply::Opened(_),
            ) => Step::Ask(
                PeerRequest::OpenKeyed { core: Core::Blobs, key: keys.blobs },
                Reader::OpeningBlobs { keys_core, keys, is_writer },
            ),
            (Reader::OpeningBlobs { keys_core, keys, is_writer }, PeerReply::Opened(_)) => {
                Reader::attaching(Attach::start(keys, keys_core, is_writer))
            },
            (Reader::Attaching(attach), reply) => Reader::attaching(attach.next(reply)),
            _ => arbitrary(),
        }
    }

    proof fn goes_on(self, reply: PlannedReply<C, E, K, X>) {
    }
}

impl<C, E, K, X> Operation<PeerRequest, PeerReply<C, E, K, X>> for Reader {
    type Value = Peer;

    type Failure = PeerError<C, E, K, X>;

    open spec fn awaits(&self, reply: &PeerReply<C, E, K, X>) -> bool {
        self.deep_view().expects(reply.deep_view())
    }

    fn resume(self, reply: PeerReply<C, E, K, X>) -> (step: PeerStep<Self, C, E, K, X>)
        ensures
            step.deep_view() == self.deep_view().next(reply.deep_view()),
    {
        match (self, reply) {
            (
                Reader::OpeningKeys | Reader::OpeningFeed { .. } | Reader::OpeningBlobKeys { .. }
                | Reader::OpeningBlobs { .. },
                PeerReply::StoreFailed(error),
            ) => Step::Done(Err(PeerError::Corestore(error))),
            (Reader::OpeningKeys, PeerReply::Opened(info)) => Step::Ask(
                PeerRequest::Replicate,
                Reader::Starting { keys_core: info.public },
            ),
            (Reader::Starting { keys_core }, PeerReply::Replicating) => Step::Ask(
                PeerRequest::ReadEntry,
                Reader::Reading { keys_core },
            ),
            (Reader::Reading { .. }, PeerReply::CoreFailed(error)) => Step::Done(
                Err(PeerError::Hypercore(error)),
            ),
            (Reader::Reading { keys_core }, PeerReply::Block(None)) => Step::Ask(
                PeerRequest::Wait { millis: RETRY_MILLIS },
                Reader::Waiting { keys_core },
            ),
            (Reader::Waiting { keys_core }, PeerReply::Waited) => Step::Ask(
                PeerRequest::ReadEntry,
                Reader::Reading { keys_core },
            ),
            (Reader::Reading { keys_core }, PeerReply::Block(Some(bytes))) => Step::Ask(
                PeerRequest::DecodeEntry { bytes },
                Reader::Decoding { keys_core },
            ),
            (Reader::Decoding { .. }, PeerReply::Malformed(error)) => Step::Done(
                Err(PeerError::KeysEntryDecode(error)),
            ),
            (Reader::Decoding { keys_core }, PeerReply::Entry(raw)) => reader_learned(
                keys_core,
                PeerKeys::try_from(raw),
            ),
            (Reader::OpeningFeed { keys_core, keys }, PeerReply::Opened(info)) => Step::Ask(
                PeerRequest::OpenKeyed { core: Core::BlobKeys, key: keys.blob_keys },
                Reader::OpeningBlobKeys { keys_core, keys, is_writer: info.writable },
            ),
            (
                Reader::OpeningBlobKeys { keys_core, keys, is_writer },
                PeerReply::Opened(_),
            ) => Step::Ask(
                PeerRequest::OpenKeyed { core: Core::Blobs, key: keys.blobs },
                Reader::OpeningBlobs { keys_core, keys, is_writer },
            ),
            (Reader::OpeningBlobs { keys_core, keys, is_writer }, PeerReply::Opened(_)) => {
                reader_attaching(start_attach(keys, keys_core, is_writer))
            },
            (Reader::Attaching(attach), reply) => reader_attaching(attach.resume(reply)),
            _ => vstd::pervasive::unreached(),
        }
    }
}

impl Peer {
    /// Begin to open a writer: the cores `name`, `{name}-blobKeys`, `{name}-blobs` and
    /// `{name}-keys`, which are created if they are not there. If the `keys` core is still empty,
    /// the public keys of the other three are written into it.
    pub fn writer<C, E, K, X>(name: &str) -> (step: PeerStep<Writer, C, E, K, X>)
        ensures
            step.deep_view() == Writer::start::<C, E, K, X>(name@),
    {
        Step::Ask(
            PeerRequest::OpenNamed { core: Core::Feed, name: name_of_core(name, Core::Feed) },
            Writer::OpeningFeed { name: name.to_owned() },
        )
    }

    /// Begin to open a reader from the public key of the `keys` core: open that core, replicate,
    /// and wait for the writer's bootstrap entry to learn the public keys of the other three,
    /// which are opened then. It waits without end.
    pub fn reader<C, E, K, X>(keys_core_public_key: PublicKey) -> (step: PeerStep<Reader, C, E, K, X>)
        ensures
            step.deep_view() == Reader::start::<C, E, K, X>(keys_core_public_key@),
    {
        Step::Ask(
            PeerRequest::OpenKeyed { core: Core::Keys, key: keys_core_public_key },
            Reader::OpeningKeys,
        )
    }

    /// Whether this peer can append to the feed: it holds the secret key of the feed core.
    pub fn is_writer(&self) -> (is_writer: bool)
        ensures
            is_writer == self.is_writer,
    {
        self.is_writer
    }

    /// The public key of the feed core.
    pub fn public_key(&self) -> (key: PublicKey)
        ensures
            key == self.keys.feed,
    {
        self.keys.feed
    }

    /// The public keys of the `feed`, `blobKeys` and `blobs` cores.
    pub fn public_keys(&self) -> (keys: PeerKeys)
        ensures
            keys == self.keys,
    {
        self.keys
    }

    /// The public key of the `keys` core: what a [`Peer::reader`] has to be told.
    pub fn keys_core_public_key(&self) -> (key: PublicKey)
        ensures
            key == self.keys_core,
    {
        self.keys_core
    }

    /// The feed.
    pub fn feed(&self) -> (feed: &OrderedHyperbee)
        ensures
            feed == self.feed,
    {
        &self.feed
    }

    /// The keyed blobs.
    pub fn keyed_blobs(&self) -> (keyed_blobs: &KeyedBlobs)
        ensures
            keyed_blobs == self.keyed_blobs,
    {
        &self.keyed_blobs
    }
}

} // verus!
