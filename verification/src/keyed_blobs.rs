//! A store of blobs by keys.
//!
//! It pairs a `blobKeys` Hyperbee, an index from keys to blob ids, with a `blobs` store of raw
//! bytes that the ids point into. The index never holds the bytes of a blob, only the encoded id
//! that is needed to find them.
//!
//! Each method of [`KeyedBlobs`] starts an operation on the two; see [`step`](crate::step) for
//! how it is carried out. Ids, of type `I`, are passed on as the blob store gave them.

use vstd::prelude::*;

use crate::bee::KeyValue;
use crate::bytes::copy_bytes;
use crate::step::{Operation, Program, Request, Step};

verus! {

broadcast use crate::bytes::lemma_bytes_contents;

/// The error with which a JSON text fails to decode. The library carries it and reads nothing of
/// it.
#[verifier::external_type_specification]
#[verifier::external_body]
pub struct ExJsonError(serde_json::Error);

/// The id of a blob.
#[derive(Clone, Copy, Debug)]
pub struct BlobId<I>(pub I);

impl<I> DeepView for BlobId<I> {
    type V = BlobId<I>;

    open spec fn deep_view(&self) -> BlobId<I> {
        *self
    }
}

/// Errors of the operations on keyed blobs. `E` is the error of the Hyperbee, `H` that of the
/// blob store.
#[derive(Debug)]
#[non_exhaustive]
pub enum KeyedBlobsError<E, H, B = Vec<u8>> {
    /// The `blobKeys` Hyperbee failed.
    Hyperbee(E),
    /// The `blobs` store failed.
    Hyperblobs(H),
    /// The blob id stored under this key does not decode.
    Decode(B, serde_json::Error),
    /// This key of `blobKeys` has no blob id.
    MissingBlobId(B),
}

impl<E, H, B: DeepView> DeepView for KeyedBlobsError<E, H, B> {
    type V = KeyedBlobsError<E, H, B::V>;

    open spec fn deep_view(&self) -> Self::V {
        match self {
            KeyedBlobsError::Hyperbee(error) => KeyedBlobsError::Hyperbee(*error),
            KeyedBlobsError::Hyperblobs(error) => KeyedBlobsError::Hyperblobs(*error),
            KeyedBlobsError::Decode(key, error) => KeyedBlobsError::Decode(
                key.deep_view(),
                *error,
            ),
            KeyedBlobsError::MissingBlobId(key) => KeyedBlobsError::MissingBlobId(
                key.deep_view(),
            ),
        }
    }
}

/// A request to the two stores.
#[derive(Debug)]
pub enum BlobsRequest<I, B = Vec<u8>> {
    /// What `blobKeys` holds under `key`. Answered by [`BlobsReply::Found`].
    GetKey {
        /// The key.
        key: B,
    },
    /// Write the encoded id `value` under `key` into `blobKeys`. Answered by
    /// [`BlobsReply::Written`].
    PutKey {
        /// The key.
        key: B,
        /// The encoded id.
        value: B,
    },
    /// Begin to walk `blobKeys` by ascending keys. Answered by [`BlobsReply::Opened`].
    Traverse,
    /// The next entry of the walk last begun. Answered by [`BlobsReply::Item`].
    Next,
    /// Store `blob` and encode its id. Answered by [`BlobsReply::Stored`].
    Store {
        /// The bytes to store.
        blob: B,
    },
    /// Decode an encoded id. Answered by [`BlobsReply::Decoded`] or [`BlobsReply::Malformed`].
    Decode {
        /// The encoded id.
        bytes: B,
    },
    /// The blob with this id. Answered by [`BlobsReply::Fetched`].
    Fetch {
        /// The id.
        id: I,
    },
}

impl<I, B: DeepView> DeepView for BlobsRequest<I, B> {
    type V = BlobsRequest<I, B::V>;

    open spec fn deep_view(&self) -> Self::V {
        match self {
            BlobsRequest::GetKey { key } => BlobsRequest::GetKey { key: key.deep_view() },
            BlobsRequest::PutKey { key, value } => BlobsRequest::PutKey {
                key: key.deep_view(),
                value: value.deep_view(),
            },
            BlobsRequest::Traverse => BlobsRequest::Traverse,
            BlobsRequest::Next => BlobsRequest::Next,
            BlobsRequest::Store { blob } => BlobsRequest::Store { blob: blob.deep_view() },
            BlobsRequest::Decode { bytes } => BlobsRequest::Decode { bytes: bytes.deep_view() },
            BlobsRequest::Fetch { id } => BlobsRequest::Fetch { id: *id },
        }
    }
}

/// The reply to a [`BlobsRequest`]. A request to `blobKeys` may be answered by
/// [`BlobsReply::KeysFailed`], one to `blobs` by [`BlobsReply::BlobsFailed`].
#[derive(Debug)]
pub enum BlobsReply<I, E, H, B = Vec<u8>> {
    /// The block and the value that stand under a key, if the key is present.
    Found(Option<(u64, Option<B>)>),
    /// The entry was written.
    Written,
    /// The walk has begun.
    Opened,
    /// The next entry, if there is one left.
    Item(Option<KeyValue<B>>),
    /// The blob was stored.
    Stored {
        /// The id of the blob.
        id: I,
        /// The id, encoded.
        encoded: B,
    },
    /// The decoded id.
    Decoded(I),
    /// The bytes do not decode to an id.
    Malformed(serde_json::Error),
    /// The blob.
    Fetched(B),
    /// The `blobKeys` Hyperbee failed to perform the request.
    KeysFailed(E),
    /// The `blobs` store failed to perform the request.
    BlobsFailed(H),
}

impl<I, E, H, B: DeepView> DeepView for BlobsReply<I, E, H, B> {
    type V = BlobsReply<I, E, H, B::V>;

    open spec fn deep_view(&self) -> Self::V {
        match self {
            BlobsReply::Found(found) => BlobsReply::Found(found.deep_view()),
            BlobsReply::Written => BlobsReply::Written,
            BlobsReply::Opened => BlobsReply::Opened,
            BlobsReply::Item(item) => BlobsReply::Item(item.deep_view()),
            BlobsReply::Stored { id, encoded } => BlobsReply::Stored {
                id: *id,
                encoded: encoded.deep_view(),
            },
            BlobsReply::Decoded(id) => BlobsReply::Decoded(*id),
            BlobsReply::Malformed(error) => BlobsReply::Malformed(*error),
            BlobsReply::Fetched(blob) => BlobsReply::Fetched(blob.deep_view()),
            BlobsReply::KeysFailed(error) => BlobsReply::KeysFailed(*error),
            BlobsReply::BlobsFailed(error) => BlobsReply::BlobsFailed(*error),
        }
    }
}

impl<I, E, H> Request<BlobsReply<I, E, H, Seq<u8>>> for BlobsRequest<I, Seq<u8>> {
    open spec fn answered_by(self, reply: BlobsReply<I, E, H, Seq<u8>>) -> bool {
        match self {
            BlobsRequest::GetKey { .. } => reply is Found || reply is KeysFailed,
            BlobsRequest::PutKey { .. } => reply is Written || reply is KeysFailed,
            BlobsRequest::Traverse => reply is Opened || reply is KeysFailed,
            BlobsRequest::Next => reply is Item || reply is KeysFailed,
            BlobsRequest::Store { .. } => reply is Stored || reply is BlobsFailed,
            BlobsRequest::Decode { .. } => reply is Decoded || reply is Malformed,
            BlobsRequest::Fetch { .. } => reply is Fetched || reply is BlobsFailed,
        }
    }
}

/// A step of an operation on keyed blobs.
pub type BlobsStep<S, T, I, E, H> = Step<BlobsRequest<I>, S, T, KeyedBlobsError<E, H>>;

/// A step of an operation on keyed blobs, by its contents.
pub type BlobsPlan<S, T, I, E, H> = Step<
    BlobsRequest<I, Seq<u8>>,
    S,
    T,
    KeyedBlobsError<E, H, Seq<u8>>,
>;

/// [`KeyedBlobs::put`] under way.
#[derive(Debug)]
pub enum Put<I, B = Vec<u8>> {
    /// The blob is being stored.
    Storing {
        /// The key for it.
        key: B,
    },
    /// The id is being written into the index.
    Indexing {
        /// The id of the blob.
        id: I,
    },
}

impl<I, B: DeepView> DeepView for Put<I, B> {
    type V = Put<I, B::V>;

    open spec fn deep_view(&self) -> Self::V {
        match self {
            Put::Storing { key } => Put::Storing { key: key.deep_view() },
            Put::Indexing { id } => Put::Indexing { id: *id },
        }
    }
}

impl<I> Put<I, Seq<u8>> {
    /// How the operation begins.
    pub open spec fn start<E, H>(key: Seq<u8>, blob: Seq<u8>) -> BlobsPlan<
        Self,
        BlobId<I>,
        I,
        E,
        H,
    > {
        Step::Ask(BlobsRequest::Store { blob }, Put::Storing { key })
    }
}

impl<I, E, H> Program<BlobsRequest<I, Seq<u8>>, BlobsReply<I, E, H, Seq<u8>>> for Put<I, Seq<u8>> {
    type Value = BlobId<I>;

    type Failure = KeyedBlobsError<E, H, Seq<u8>>;

    open spec fn expects(self, reply: BlobsReply<I, E, H, Seq<u8>>) -> bool {
        match self {
            Put::Storing { .. } => reply is Stored || reply is BlobsFailed,
            Put::Indexing { .. } => reply is Written || reply is KeysFailed,
        }
    }

    open spec fn next(self, reply: BlobsReply<I, E, H, Seq<u8>>) -> BlobsPlan<
        Self,
        BlobId<I>,
        I,
        E,
        H,
    > {
        match (self, reply) {
            (Put::Storing { key }, BlobsReply::Stored { id, encoded }) => Step::Ask(
                BlobsRequest::PutKey { key, value: encoded },
                Put::Indexing { id },
            ),
            (Put::Storing { .. }, BlobsReply::BlobsFailed(error)) => Step::Done(
                Err(KeyedBlobsError::Hyperblobs(error)),
            ),
            (Put::Indexing { id }, BlobsReply::Written) => Step::Done(Ok(BlobId(id))),
            (Put::Indexing { .. }, BlobsReply::KeysFailed(error)) => Step::Done(
                Err(KeyedBlobsError::Hyperbee(error)),
            ),
            _ => arbitrary(),
        }
    }

    proof fn goes_on(self, reply: BlobsReply<I, E, H, Seq<u8>>) {
    }
}

impl<I, E, H> Operation<BlobsRequest<I>, BlobsReply<I, E, H>> for Put<I> {
    type Value = BlobId<I>;

    type Failure = KeyedBlobsError<E, H>;

    open spec fn awaits(&self, reply: &BlobsReply<I, E, H>) -> bool {
        self.deep_view().expects(reply.deep_view())
    }

    fn resume(self, reply: BlobsReply<I, E, H>) -> (step: BlobsStep<Self, BlobId<I>, I, E, H>)
        ensures
            step.deep_view() == self.deep_view().next(reply.deep_view()),
    {
        match (self, reply) {
            (Put::Storing { key }, BlobsReply::Stored { id, encoded }) => Step::Ask(
                BlobsRequest::PutKey { key, value: encoded },
                Put::Indexing { id },
            ),
            (Put::Storing { .. }, BlobsReply::BlobsFailed(error)) => Step::Done(
                Err(KeyedBlobsError::Hyperblobs(error)),
            ),
            (Put::Indexing { id }, BlobsReply::Written) => Step::Done(Ok(BlobId(id))),
            (Put::Indexing { .. }, BlobsReply::KeysFailed(error)) => Step::Done(
                Err(KeyedBlobsError::Hyperbee(error)),
            ),
            _ => vstd::pervasive::unreached(),
        }
    }
}

/// [`KeyedBlobs::get_id`] under way.
#[derive(Debug)]
pub enum GetId<B = Vec<u8>> {
    /// The key is being looked up.
    Looking {
        /// The key.
        key: B,
    },
    /// The id that stands under the key is being decoded.
    Decoding {
        /// The key.
        key: B,
    },
}

impl<B: DeepView> DeepView for GetId<B> {
    type V = GetId<B::V>;

    open spec fn deep_view(&self) -> Self::V {
        match self {
            GetId::Looking { key } => GetId::Looking { key: key.deep_view() },
            GetId::Decoding { key } => GetId::Decoding { key: key.deep_view() },
        }
    }
}

impl GetId<Seq<u8>> {
    /// How the operation begins.
    pub open spec fn start<I, E, H>(key: Seq<u8>) -> BlobsPlan<Self, Option<BlobId<I>>, I, E, H> {
        Step::Ask(BlobsRequest::GetKey { key }, GetId::Looking { key })
    }
}

impl<I, E, H> Program<BlobsRequest<I, Seq<u8>>, BlobsReply<I, E, H, Seq<u8>>> for GetId<Seq<u8>> {
    type Value = Option<BlobId<I>>;

    type Failure = KeyedBlobsError<E, H, Seq<u8>>;

    open spec fn expects(self, reply: BlobsReply<I, E, H, Seq<u8>>) -> bool {
        match self {
            GetId::Looking { .. } => reply is Found || reply is KeysFailed,
            GetId::Decoding { .. } => reply is Decoded || reply is Malformed,
        }
    }

    open spec fn next(self, reply: BlobsReply<I, E, H, Seq<u8>>) -> BlobsPlan<
        Self,
        Option<BlobId<I>>,
        I,
        E,
        H,
    > {
        match (self, reply) {
            (GetId::Looking { .. }, BlobsReply::KeysFailed(error)) => Step::Done(
                Err(KeyedBlobsError::Hyperbee(error)),
            ),
            (GetId::Looking { .. }, BlobsReply::Found(None)) => Step::Done(Ok(None)),
            (GetId::Looking { key }, BlobsReply::Found(Some((_, None)))) => Step::Done(
                Err(KeyedBlobsError::MissingBlobId(key)),
            ),
            (GetId::Looking { key }, BlobsReply::Found(Some((_, Some(bytes))))) => Step::Ask(
                BlobsRequest::Decode { bytes },
                GetId::Decoding { key },
            ),
            (GetId::Decoding { .. }, BlobsReply::Decoded(id)) => Step::Done(Ok(Some(BlobId(id)))),
            (GetId::Decoding { key }, BlobsReply::Malformed(error)) => Step::Done(
                Err(KeyedBlobsError::Decode(key, error)),
            ),
            _ => arbitrary(),
        }
    }

    proof fn goes_on(self, reply: BlobsReply<I, E, H, Seq<u8>>) {
    }
}

impl<I, E, H> Operation<BlobsRequest<I>, BlobsReply<I, E, H>> for GetId {
    type Value = Option<BlobId<I>>;

    type Failure = KeyedBlobsError<E, H>;

    open spec fn awaits(&self, reply: &BlobsReply<I, E, H>) -> bool {
        self.deep_view().expects(reply.deep_view())
    }

    fn resume(self, reply: BlobsReply<I, E, H>) -> (step: BlobsStep<Self, Option<BlobId<I>>, I, E, H>)
        ensures
            step.deep_view() == self.deep_view().next(reply.deep_view()),
    {
        match (self, reply) {
            (GetId::Looking { .. }, BlobsReply::KeysFailed(error)) => Step::Done(
                Err(KeyedBlobsError::Hyperbee(error)),
            ),
            (GetId::Looking { .. }, BlobsReply::Found(None)) => Step::Done(Ok(None)),
            (GetId::Looking { key }, BlobsReply::Found(Some((_, None)))) => Step::Done(
                Err(KeyedBlobsError::MissingBlobId(key)),
            ),
            (GetId::Looking { key }, BlobsReply::Found(Some((_, Some(bytes))))) => Step::Ask(
                BlobsRequest::Decode { bytes },
                GetId::Decoding { key },
            ),
            (GetId::Decoding { .. }, BlobsReply::Decoded(id)) => Step::Done(Ok(Some(BlobId(id)))),
            (GetId::Decoding { key }, BlobsReply::Malformed(error)) => Step::Done(
                Err(KeyedBlobsError::Decode(key, error)),
            ),
            _ => vstd::pervasive::unreached(),
        }
    }
}

/// [`KeyedBlobs::get`] under way.
#[derive(Debug)]
pub enum Get<B = Vec<u8>> {
    /// The id is being found out.
    Locating(GetId<B>),
    /// The blob is being fetched.
    Fetching,
}

impl<B: DeepView> DeepView for Get<B> {
    type V = Get<B::V>;

    open spec fn deep_view(&self) -> Self::V {
        match self {
            Get::Locating(get_id) => Get::Locating(get_id.deep_view()),
            Get::Fetching => Get::Fetching,
        }
    }
}

impl Get<Seq<u8>> {
    /// How the operation begins.
    pub open spec fn start<I, E, H>(key: Seq<u8>) -> BlobsPlan<Self, Option<Seq<u8>>, I, E, H> {
        Get::fetch(GetId::start::<I, E, H>(key))
    }

    /// What follows when the search for the id stands at `get_id`: the blob is fetched once there
    /// is an id.
    pub open spec fn fetch<I, E, H>(
        get_id: BlobsPlan<GetId<Seq<u8>>, Option<BlobId<I>>, I, E, H>,
    ) -> BlobsPlan<Self, Option<Seq<u8>>, I, E, H> {
        match get_id {
            Step::Ask(request, get_id) => Step::Ask(request, Get::Locating(get_id)),
            Step::Done(Ok(None)) => Step::Done(Ok(None)),
            Step::Done(Ok(Some(BlobId(id)))) => Step::Ask(
                BlobsRequest::Fetch { id },
                Get::Fetching,
            ),
            Step::Done(Err(error)) => Step::Done(Err(error)),
        }
    }
}

/// What follows when the search for the id stands at `get_id`.
fn fetch<I, E, H>(get_id: BlobsStep<GetId, Option<BlobId<I>>, I, E, H>) -> (step: BlobsStep<
    Get,
    Option<Vec<u8>>,
    I,
    E,
    H,
>)
    ensures
        step.deep_view() == Get::fetch(get_id.deep_view()),
{
    match get_id {
        Step::Ask(request, get_id) => Step::Ask(request, Get::Locating(get_id)),
        Step::Done(Ok(None)) => Step::Done(Ok(None)),
        Step::Done(Ok(Some(BlobId(id)))) => Step::Ask(BlobsRequest::Fetch { id }, Get::Fetching),
        Step::Done(Err(error)) => Step::Done(Err(error)),
    }
}

impl<I, E, H> Program<BlobsRequest<I, Seq<u8>>, BlobsReply<I, E, H, Seq<u8>>> for Get<Seq<u8>> {
    type Value = Option<Seq<u8>>;

    type Failure = KeyedBlobsError<E, H, Seq<u8>>;

    open spec fn expects(self, reply: BlobsReply<I, E, H, Seq<u8>>) -> bool {
        match self {
            Get::Locating(get_id) => get_id.expects(reply),
            Get::Fetching => reply is Fetched || reply is BlobsFailed,
        }
    }

    open spec fn next(self, reply: BlobsReply<I, E, H, Seq<u8>>) -> BlobsPlan<
        Self,
        Option<Seq<u8>>,
        I,
        E,
        H,
    > {
        match (self, reply) {
            (Get::Locating(get_id), reply) => Get::fetch(get_id.next(reply)),
            (Get::Fetching, BlobsReply::Fetched(blob)) => Step::Done(Ok(Some(blob))),
            (Get::Fetching, BlobsReply::BlobsFailed(error)) => Step::Done(
                Err(KeyedBlobsError::Hyperblobs(error)),
            ),
            _ => arbitrary(),
        }
    }

    proof fn goes_on(self, reply: BlobsReply<I, E, H, Seq<u8>>) {
    }
}

impl<I, E, H> Operation<BlobsRequest<I>, BlobsReply<I, E, H>> for Get {
    type Value = Option<Vec<u8>>;

    type Failure = KeyedBlobsError<E, H>;

    open spec fn awaits(&self, reply: &BlobsReply<I, E, H>) -> bool {
        self.deep_view().expects(reply.deep_view())
    }

    fn resume(self, reply: BlobsReply<I, E, H>) -> (step: BlobsStep<Self, Option<Vec<u8>>, I, E, H>)
        ensures
            step.deep_view() == self.deep_view().next(reply.deep_view()),
    {
        match (self, reply) {
            (Get::Locating(get_id), reply) => fetch(get_id.resume(reply)),
            (Get::Fetching, BlobsReply::Fetched(blob)) => Step::Done(Ok(Some(blob))),
            (Get::Fetching, BlobsReply::BlobsFailed(error)) => Step::Done(
                Err(KeyedBlobsError::Hyperblobs(error)),
            ),
            _ => vstd::pervasive::unreached(),
        }
    }
}

/// [`KeyedBlobs::maybe_put`] under way.
#[derive(Debug)]
pub enum MaybePut<I, B = Vec<u8>> {
    /// The key is being looked up.
    Looking {
        /// The key.
        key: B,
        /// The blob to store if the key is absent.
        blob: B,
    },
    /// The blob is being put.
    Putting(Put<I, B>),
}

impl<I, B: DeepView> DeepView for MaybePut<I, B> {
    type V = MaybePut<I, B::V>;

    open spec fn deep_view(&self) -> Self::V {
        match self {
            MaybePut::Looking { key, blob } => MaybePut::Looking {
                key: key.deep_view(),
                blob: blob.deep_view(),
            },
            MaybePut::Putting(put) => MaybePut::Putting(put.deep_view()),
        }
    }
}

impl<I> MaybePut<I, Seq<u8>> {
    /// How the operation begins.
    pub open spec fn start<E, H>(key: Seq<u8>, blob: Seq<u8>) -> BlobsPlan<
        Self,
        Option<BlobId<I>>,
        I,
        E,
        H,
    > {
        Step::Ask(BlobsRequest::GetKey { key }, MaybePut::Looking { key, blob })
    }

    /// What follows when the put stands at `put`: its id is given once it is done.
    pub open spec fn go_on<E, H>(put: BlobsPlan<Put<I, Seq<u8>>, BlobId<I>, I, E, H>) -> BlobsPlan<
        Self,
        Option<BlobId<I>>,
        I,
        E,
        H,
    > {
        match put {
            Step::Ask(request, put) => Step::Ask(request, MaybePut::Putting(put)),
            Step::Done(Ok(id)) => Step::Done(Ok(Some(id))),
            Step::Done(Err(error)) => Step::Done(Err(error)),
        }
    }
}

/// What follows when the put stands at `put`.
fn go_on<I, E, H>(put: BlobsStep<Put<I>, BlobId<I>, I, E, H>) -> (step: BlobsStep<
    MaybePut<I>,
    Option<BlobId<I>>,
    I,
    E,
    H,
>)
    ensures
        step.deep_view() == MaybePut::go_on(put.deep_view()),
{
    match put {
        Step::Ask(request, put) => Step::Ask(request, MaybePut::Putting(put)),
        Step::Done(Ok(id)) => Step::Done(Ok(Some(id))),
        Step::Done(Err(error)) => Step::Done(Err(error)),
    }
}

impl<I, E, H> Program<BlobsRequest<I, Seq<u8>>, BlobsReply<I, E, H, Seq<u8>>> for MaybePut<I, Seq<u8>> {
    type Value = Option<BlobId<I>>;

    type Failure = KeyedBlobsError<E, H, Seq<u8>>;

    open spec fn expects(self, reply: BlobsReply<I, E, H, Seq<u8>>) -> bool {
        match self {
            MaybePut::Looking { .. } => reply is Found || reply is KeysFailed,
            MaybePut::Putting(put) => put.expects(reply),
        }
    }

    open spec fn next(self, reply: BlobsReply<I, E, H, Seq<u8>>) -> BlobsPlan<
        Self,
        Option<BlobId<I>>,
        I,
        E,
        H,
    > {
        match (self, reply) {
            (MaybePut::Looking { .. }, BlobsReply::KeysFailed(error)) => Step::Done(
                Err(KeyedBlobsError::Hyperbee(error)),
            ),
            (MaybePut::Looking { .. }, BlobsReply::Found(Some(_))) => Step::Done(Ok(None)),
            (MaybePut::Looking { key, blob }, BlobsReply::Found(None)) => MaybePut::go_on(
                Put::start(key, blob),
            ),
            (MaybePut::Putting(put), reply) => MaybePut::go_on(put.next(reply)),
            _ => arbitrary(),
        }
    }

    proof fn goes_on(self, reply: BlobsReply<I, E, H, Seq<u8>>) {
    }
}

impl<I, E, H> Operation<BlobsRequest<I>, BlobsReply<I, E, H>> for MaybePut<I> {
    type Value = Option<BlobId<I>>;

    type Failure = KeyedBlobsError<E, H>;

    open spec fn awaits(&self, reply: &BlobsReply<I, E, H>) -> bool {
        self.deep_view().expects(reply.deep_view())
    }

    fn resume(self, reply: BlobsReply<I, E, H>) -> (step: BlobsStep<Self, Option<BlobId<I>>, I, E, H>)
        ensures
            step.deep_view() == self.deep_view().next(reply.deep_view()),
    {
        match (self, reply) {
            (MaybePut::Looking { .. }, BlobsReply::KeysFailed(error)) => Step::Done(
                Err(KeyedBlobsError::Hyperbee(error)),
            ),
            (MaybePut::Looking { .. }, BlobsReply::Found(Some(_))) => Step::Done(Ok(None)),
            (MaybePut::Looking { key, blob }, BlobsReply::Found(None)) => go_on(
                Step::Ask(BlobsRequest::Store { blob }, Put::Storing { key }),
            ),
            (MaybePut::Putting(put), reply) => go_on(put.resume(reply)),
            _ => vstd::pervasive::unreached(),
        }
    }
}

/// [`KeyedBlobs::key_stream`] under way.
#[derive(Debug)]
pub struct OpenKeyStream {}

impl DeepView for OpenKeyStream {
    type V = OpenKeyStream;

    open spec fn deep_view(&self) -> OpenKeyStream {
        *self
    }
}

impl OpenKeyStream {
    /// How the operation begins.
    pub open spec fn start<I, E, H>() -> BlobsPlan<Self, KeyStream, I, E, H> {
        Step::Ask(BlobsRequest::Traverse, OpenKeyStream {  })
    }
}

impl<I, E, H> Program<BlobsRequest<I, Seq<u8>>, BlobsReply<I, E, H, Seq<u8>>> for OpenKeyStream {
    type Value = KeyStream;

    type Failure = KeyedBlobsError<E, H, Seq<u8>>;

    open spec fn expects(self, reply: BlobsReply<I, E, H, Seq<u8>>) -> bool {
        reply is Opened || reply is KeysFailed
    }

    open spec fn next(self, reply: BlobsReply<I, E, H, Seq<u8>>) -> BlobsPlan<
        Self,
        KeyStream,
        I,
        E,
        H,
    > {
        match reply {
            BlobsReply::Opened => Step::Done(Ok(KeyStream {  })),
            BlobsReply::KeysFailed(error) => Step::Done(Err(KeyedBlobsError::Hyperbee(error))),
            _ => arbitrary(),
        }
    }

    proof fn goes_on(self, reply: BlobsReply<I, E, H, Seq<u8>>) {
    }
}

impl<I, E, H> Operation<BlobsRequest<I>, BlobsReply<I, E, H>> for OpenKeyStream {
    type Value = KeyStream;

    type Failure = KeyedBlobsError<E, H>;

    open spec fn awaits(&self, reply: &BlobsReply<I, E, H>) -> bool {
        self.deep_view().expects(reply.deep_view())
    }

    fn resume(self, reply: BlobsReply<I, E, H>) -> (step: BlobsStep<Self, KeyStream, I, E, H>)
        ensures
            step.deep_view() == self.deep_view().next(reply.deep_view()),
    {
        match reply {
            BlobsReply::Opened => Step::Done(Ok(KeyStream {  })),
            BlobsReply::KeysFailed(error) => Step::Done(Err(KeyedBlobsError::Hyperbee(error))),
            _ => vstd::pervasive::unreached(),
        }
    }
}

/// The keys of the store by ascending order. It reads the walk that [`KeyedBlobs::key_stream`]
/// has begun.
#[derive(Debug)]
pub struct KeyStream {}

impl DeepView for KeyStream {
    type V = KeyStream;

    open spec fn deep_view(&self) -> KeyStream {
        *self
    }
}

impl KeyStream {
    /// The next key, or `None` at the end. After an error the stream can be read on.
    pub fn next<I, E, H>(&self) -> (step: BlobsStep<NextKey, Option<Vec<u8>>, I, E, H>)
        ensures
            step.deep_view() == NextKey::start::<I, E, H>(),
    {
        Step::Ask(BlobsRequest::Next, NextKey {  })
    }
}

/// [`KeyStream::next`] under way.
#[derive(Debug)]
pub struct NextKey {}

impl DeepView for NextKey {
    type V = NextKey;

    open spec fn deep_view(&self) -> NextKey {
        *self
    }
}

impl NextKey {
    /// How the operation begins.
    pub open spec fn start<I, E, H>() -> BlobsPlan<Self, Option<Seq<u8>>, I, E, H> {
        Step::Ask(BlobsRequest::Next, NextKey {  })
    }
}

impl<I, E, H> Program<BlobsRequest<I, Seq<u8>>, BlobsReply<I, E, H, Seq<u8>>> for NextKey {
    type Value = Option<Seq<u8>>;

    type Failure = KeyedBlobsError<E, H, Seq<u8>>;

    open spec fn expects(self, reply: BlobsReply<I, E, H, Seq<u8>>) -> bool {
        reply is Item || reply is KeysFailed
    }

    open spec fn next(self, reply: BlobsReply<I, E, H, Seq<u8>>) -> BlobsPlan<
        Self,
        Option<Seq<u8>>,
        I,
        E,
        H,
    > {
        match reply {
            BlobsReply::Item(Some(entry)) => Step::Done(Ok(Some(entry.key))),
            BlobsReply::Item(None) => Step::Done(Ok(None)),
            BlobsReply::KeysFailed(error) => Step::Done(Err(KeyedBlobsError::Hyperbee(error))),
            _ => arbitrary(),
        }
    }

    proof fn goes_on(self, reply: BlobsReply<I, E, H, Seq<u8>>) {
    }
}

impl<I, E, H> Operation<BlobsRequest<I>, BlobsReply<I, E, H>> for NextKey {
    type Value = Option<Vec<u8>>;

    type Failure = KeyedBlobsError<E, H>;

    open spec fn awaits(&self, reply: &BlobsReply<I, E, H>) -> bool {
        self.deep_view().expects(reply.deep_view())
    }

    fn resume(self, reply: BlobsReply<I, E, H>) -> (step: BlobsStep<Self, Option<Vec<u8>>, I, E, H>)
        ensures
            step.deep_view() == self.deep_view().next(reply.deep_view()),
    {
        match reply {
            BlobsReply::Item(Some(entry)) => Step::Done(Ok(Some(entry.key))),
            BlobsReply::Item(None) => Step::Done(Ok(None)),
            BlobsReply::KeysFailed(error) => Step::Done(Err(KeyedBlobsError::Hyperbee(error))),
            _ => vstd::pervasive::unreached(),
        }
    }
}

/// [`KeyedBlobs::get_keys`] under way.
#[derive(Debug)]
pub enum GetKeys<K = Vec<Vec<u8>>> {
    /// The walk is being begun.
    Opening,
    /// The next key is being read.
    Reading {
        /// The keys that were read.
        keys: K,
    },
}

impl<K: DeepView> DeepView for GetKeys<K> {
    type V = GetKeys<K::V>;

    open spec fn deep_view(&self) -> Self::V {
        match self {
            GetKeys::Opening => GetKeys::Opening,
            GetKeys::Reading { keys } => GetKeys::Reading { keys: keys.deep_view() },
        }
    }
}

impl GetKeys<Seq<Seq<u8>>> {
    /// How the operation begins.
    pub open spec fn start<I, E, H>() -> BlobsPlan<Self, Seq<Seq<u8>>, I, E, H> {
        Step::Ask(BlobsRequest::Traverse, GetKeys::Opening)
    }
}

impl<I, E, H> Program<BlobsRequest<I, Seq<u8>>, BlobsReply<I, E, H, Seq<u8>>> for GetKeys<Seq<Seq<u8>>> {
    type Value = Seq<Seq<u8>>;

    type Failure = KeyedBlobsError<E, H, Seq<u8>>;

    open spec fn expects(self, reply: BlobsReply<I, E, H, Seq<u8>>) -> bool {
        match self {
            GetKeys::Opening => reply is Opened || reply is KeysFailed,
            GetKeys::Reading { .. } => reply is Item || reply is KeysFailed,
        }
    }

    open spec fn next(self, reply: BlobsReply<I, E, H, Seq<u8>>) -> BlobsPlan<
        Self,
        Seq<Seq<u8>>,
        I,
        E,
        H,
    > {
        match (self, reply) {
            (_, BlobsReply::KeysFailed(error)) => Step::Done(
                Err(KeyedBlobsError::Hyperbee(error)),
            ),
            (GetKeys::Opening, BlobsReply::Opened) => Step::Ask(
                BlobsRequest::Next,
                GetKeys::Reading { keys: Seq::empty() },
            ),
            (GetKeys::Reading { keys }, BlobsReply::Item(Some(entry))) => Step::Ask(
                BlobsRequest::Next,
                GetKeys::Reading { keys: keys.push(entry.key) },
            ),
            (GetKeys::Reading { keys }, BlobsReply::Item(None)) => Step::Done(Ok(keys)),
            _ => arbitrary(),
        }
    }

    proof fn goes_on(self, reply: BlobsReply<I, E, H, Seq<u8>>) {
    }
}

impl<I, E, H> Operation<BlobsRequest<I>, BlobsReply<I, E, H>> for GetKeys {
    type Value = Vec<Vec<u8>>;

    type Failure = KeyedBlobsError<E, H>;

    open spec fn awaits(&self, reply: &BlobsReply<I, E, H>) -> bool {
        self.deep_view().expects(reply.deep_view())
    }

    fn resume(self, reply: BlobsReply<I, E, H>) -> (step: BlobsStep<Self, Vec<Vec<u8>>, I, E, H>)
        ensures
            step.deep_view() == self.deep_view().next(reply.deep_view()),
    {
        match (self, reply) {
            (_, BlobsReply::KeysFailed(error)) => Step::Done(
                Err(KeyedBlobsError::Hyperbee(error)),
            ),
            (GetKeys::Opening, BlobsReply::Opened) => {
                let keys: Vec<Vec<u8>> = Vec::new();
                assert(keys.deep_view() =~= Seq::empty());
                Step::Ask(BlobsRequest::Next, GetKeys::Reading { keys })
            },
            (GetKeys::Reading { keys }, BlobsReply::Item(Some(entry))) => {
                let mut keys = keys;
                let ghost read = keys;
                keys.push(entry.key);
                assert(keys.deep_view() =~= read.deep_view().push(entry.key@));
                Step::Ask(BlobsRequest::Next, GetKeys::Reading { keys })
            },
            (GetKeys::Reading { keys }, BlobsReply::Item(None)) => Step::Done(Ok(keys)),
            _ => vstd::pervasive::unreached(),
        }
    }
}

/// Keys with their blobs.
pub type Pairs = Vec<(Vec<u8>, Vec<u8>)>;

/// Keys with their blobs, by their contents.
pub type PairValues = Seq<(Seq<u8>, Seq<u8>)>;

/// [`KeyedBlobs::get_keys_and_blobs`] under way.
#[derive(Debug)]
pub enum GetKeysAndBlobs<P = Pairs, B = Vec<u8>> {
    /// The walk is being begun.
    Opening,
    /// The next key is being read.
    Reading {
        /// What was collected.
        pairs: P,
    },
    /// The id that stands under the key is being decoded.
    Decoding {
        /// What was collected.
        pairs: P,
        /// The key.
        key: B,
    },
    /// The blob is being fetched.
    Fetching {
        /// What was collected.
        pairs: P,
        /// The key.
        key: B,
    },
}

impl<P: DeepView, B: DeepView> DeepView for GetKeysAndBlobs<P, B> {
    type V = GetKeysAndBlobs<P::V, B::V>;

    open spec fn deep_view(&self) -> Self::V {
        match self {
            GetKeysAndBlobs::Opening => GetKeysAndBlobs::Opening,
            GetKeysAndBlobs::Reading { pairs } => GetKeysAndBlobs::Reading {
                pairs: pairs.deep_view(),
            },
            GetKeysAndBlobs::Decoding { pairs, key } => GetKeysAndBlobs::Decoding {
                pairs: pairs.deep_view(),
                key: key.deep_view(),
            },
            GetKeysAndBlobs::Fetching { pairs, key } => GetKeysAndBlobs::Fetching {
                pairs: pairs.deep_view(),
                key: key.deep_view(),
            },
        }
    }
}

impl GetKeysAndBlobs<PairValues, Seq<u8>> {
    /// How the operation begins.
    pub open spec fn start<I, E, H>() -> BlobsPlan<Self, PairValues, I, E, H> {
        Step::Ask(BlobsRequest::Traverse, GetKeysAndBlobs::Opening)
    }
}

impl<I, E, H> Program<BlobsRequest<I, Seq<u8>>, BlobsReply<I, E, H, Seq<u8>>> for GetKeysAndBlobs<PairValues, Seq<u8>> {
    type Value = PairValues;

    type Failure = KeyedBlobsError<E, H, Seq<u8>>;

    open spec fn expects(self, reply: BlobsReply<I, E, H, Seq<u8>>) -> bool {
        match self {
            GetKeysAndBlobs::Opening => reply is Opened || reply is KeysFailed,
            GetKeysAndBlobs::Reading { .. } => reply is Item || reply is KeysFailed,
            GetKeysAndBlobs::Decoding { .. } => reply is Decoded || reply is Malformed,
            GetKeysAndBlobs::Fetching { .. } => reply is Fetched || reply is BlobsFailed,
        }
    }

    open spec fn next(self, reply: BlobsReply<I, E, H, Seq<u8>>) -> BlobsPlan<
        Self,
        PairValues,
        I,
        E,
        H,
    > {
        match (self, reply) {
            (
                GetKeysAndBlobs::Opening | GetKeysAndBlobs::Reading { .. },
                BlobsReply::KeysFailed(error),
            ) => Step::Done(Err(KeyedBlobsError::Hyperbee(error))),
            (GetKeysAndBlobs::Opening, BlobsReply::Opened) => Step::Ask(
                BlobsRequest::Next,
                GetKeysAndBlobs::Reading { pairs: Seq::empty() },
            ),
            (GetKeysAndBlobs::Reading { pairs }, BlobsReply::Item(None)) => Step::Done(Ok(pairs)),
            (GetKeysAndBlobs::Reading { pairs }, BlobsReply::Item(Some(entry))) => {
                match entry.value {
                    None => Step::Done(Err(KeyedBlobsError::MissingBlobId(entry.key))),
                    Some(bytes) => Step::Ask(
                        BlobsRequest::Decode { bytes },
                        GetKeysAndBlobs::Decoding { pairs, key: entry.key },
                    ),
                }
            },
            (GetKeysAndBlobs::Decoding { pairs, key }, BlobsReply::Decoded(id)) => Step::Ask(
                BlobsRequest::Fetch { id },
                GetKeysAndBlobs::Fetching { pairs, key },
            ),
            (GetKeysAndBlobs::Decoding { key, .. }, BlobsReply::Malformed(error)) => Step::Done(
                Err(KeyedBlobsError::Decode(key, error)),
            ),
            (GetKeysAndBlobs::Fetching { pairs, key }, BlobsReply::Fetched(blob)) => Step::Ask(
                BlobsRequest::Next,
                GetKeysAndBlobs::Reading { pairs: pairs.push((key, blob)) },
            ),
            (GetKeysAndBlobs::Fetching { .. }, BlobsReply::BlobsFailed(error)) => Step::Done(
                Err(KeyedBlobsError::Hyperblobs(error)),
            ),
            _ => arbitrary(),
        }
    }

    proof fn goes_on(self, reply: BlobsReply<I, E, H, Seq<u8>>) {
    }
}

impl<I, E, H> Operation<BlobsRequest<I>, BlobsReply<I, E, H>> for GetKeysAndBlobs {
    type Value = Pairs;

    type Failure = KeyedBlobsError<E, H>;

    open spec fn awaits(&self, reply: &BlobsReply<I, E, H>) -> bool {
        self.deep_view().expects(reply.deep_view())
    }

    fn resume(self, reply: BlobsReply<I, E, H>) -> (step: BlobsStep<Self, Pairs, I, E, H>)
        ensures
            step.deep_view() == self.deep_view().next(reply.deep_view()),
    {
        match (self, reply) {
            (
                GetKeysAndBlobs::Opening | GetKeysAndBlobs::Reading { .. },
                BlobsReply::KeysFailed(error),
            ) => Step::Done(Err(KeyedBlobsError::Hyperbee(error))),
            (GetKeysAndBlobs::Opening, BlobsReply::Opened) => {
                let pairs: Pairs = Vec::new();
                assert(pairs.deep_view() =~= Seq::empty());
                Step::Ask(BlobsRequest::Next, GetKeysAndBlobs::Reading { pairs })
            },
            (GetKeysAndBlobs::Reading { pairs }, BlobsReply::Item(None)) => Step::Done(Ok(pairs)),
            (GetKeysAndBlobs::Reading { pairs }, BlobsReply::Item(Some(entry))) => {
                match entry.value {
                    None => Step::Done(Err(KeyedBlobsError::MissingBlobId(entry.key))),
                    Some(bytes) => Step::Ask(
                        BlobsRequest::Decode { bytes },
                        GetKeysAndBlobs::Decoding { pairs, key: entry.key },
                    ),
                }
            },
            (GetKeysAndBlobs::Decoding { pairs, key }, BlobsReply::Decoded(id)) => Step::Ask(
                BlobsRequest::Fetch { id },
                GetKeysAndBlobs::Fetching { pairs, key },
            ),
            (GetKeysAndBlobs::Decoding { key, .. }, BlobsReply::Malformed(error)) => Step::Done(
                Err(KeyedBlobsError::Decode(key, error)),
            ),
            (GetKeysAndBlobs::Fetching { pairs, key }, BlobsReply::Fetched(blob)) => {
                let mut pairs = pairs;
                let ghost collected = pairs;
                pairs.push((key, blob));
                assert(pairs.deep_view() =~= collected.deep_view().push((key@, blob@)));
                Step::Ask(BlobsRequest::Next, GetKeysAndBlobs::Reading { pairs })
            },
            (GetKeysAndBlobs::Fetching { .. }, BlobsReply::BlobsFailed(error)) => Step::Done(
                Err(KeyedBlobsError::Hyperblobs(error)),
            ),
            _ => vstd::pervasive::unreached(),
        }
    }
}

/// A store of blobs by keys. The data is in the two stores; a method only says what to ask of
/// them.
#[derive(Clone, Copy, Debug)]
pub struct KeyedBlobs {}

impl KeyedBlobs {
    /// The operations on the blobs in two stores.
    pub fn new() -> (blobs: KeyedBlobs)
        ensures
            blobs == (KeyedBlobs {  }),
    {
        KeyedBlobs {  }
    }

    /// The names of the cores that hold the index and the blobs in a store of their own.
    pub fn core_names() -> (names: (&'static str, &'static str))
        ensures
            names.0@ == "blobKeys"@,
            names.1@ == "blobs"@,
    {
        ("blobKeys", "blobs")
    }

    /// Store `blob` under `key`, whatever stood there. Gives the id to fetch it by.
    pub fn put<I, E, H>(&self, key: &[u8], blob: &[u8]) -> (step: BlobsStep<
        Put<I>,
        BlobId<I>,
        I,
        E,
        H,
    >)
        ensures
            step.deep_view() == Put::<I, Seq<u8>>::start::<E, H>(key@, blob@),
    {
        Step::Ask(BlobsRequest::Store { blob: copy_bytes(blob) }, Put::Storing {
            key: copy_bytes(key),
        })
    }

    /// Store `blob` under `key` only if `key` is absent. Gives `None` if it is present.
    pub fn maybe_put<I, E, H>(&self, key: &[u8], blob: &[u8]) -> (step: BlobsStep<
        MaybePut<I>,
        Option<BlobId<I>>,
        I,
        E,
        H,
    >)
        ensures
            step.deep_view() == MaybePut::<I, Seq<u8>>::start::<E, H>(key@, blob@),
    {
        Step::Ask(
            BlobsRequest::GetKey { key: copy_bytes(key) },
            MaybePut::Looking { key: copy_bytes(key), blob: copy_bytes(blob) },
        )
    }

    /// The id that stands under `key`, without the blob.
    pub fn get_id<I, E, H>(&self, key: &[u8]) -> (step: BlobsStep<
        GetId,
        Option<BlobId<I>>,
        I,
        E,
        H,
    >)
        ensures
            step.deep_view() == GetId::start::<I, E, H>(key@),
    {
        Step::Ask(
            BlobsRequest::GetKey { key: copy_bytes(key) },
            GetId::Looking { key: copy_bytes(key) },
        )
    }

    /// The blob that is stored under `key`.
    pub fn get<I, E, H>(&self, key: &[u8]) -> (step: BlobsStep<Get, Option<Vec<u8>>, I, E, H>)
        ensures
            step.deep_view() == Get::start::<I, E, H>(key@),
    {
        fetch(self.get_id(key))
    }

    /// Begin to read the keys by ascending order.
    pub fn key_stream<I, E, H>(&self) -> (step: BlobsStep<OpenKeyStream, KeyStream, I, E, H>)
        ensures
            step.deep_view() == OpenKeyStream::start::<I, E, H>(),
    {
        Step::Ask(BlobsRequest::Traverse, OpenKeyStream {  })
    }

    /// All keys by ascending order.
    pub fn get_keys<I, E, H>(&self) -> (step: BlobsStep<GetKeys, Vec<Vec<u8>>, I, E, H>)
        ensures
            step.deep_view() == GetKeys::start::<I, E, H>(),
    {
        Step::Ask(BlobsRequest::Traverse, GetKeys::Opening)
    }

    /// All keys with their blobs, by ascending order of the keys.
    pub fn get_keys_and_blobs<I, E, H>(&self) -> (step: BlobsStep<GetKeysAndBlobs, Pairs, I, E, H>)
        ensures
            step.deep_view() == GetKeysAndBlobs::start::<I, E, H>(),
    {
        Step::Ask(BlobsRequest::Traverse, GetKeysAndBlobs::Opening)
    }
}

} // verus!
