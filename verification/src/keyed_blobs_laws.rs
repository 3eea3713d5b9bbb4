//! What the operations on keyed blobs do together, on stores that perform every request.

use vstd::prelude::*;

use crate::bee::{Bee, KeyValue};
use crate::keyed_blobs::{
    BlobId, BlobsReply, BlobsRequest, Get, GetId, GetKeys, GetKeysAndBlobs, KeyStream,
    KeyedBlobsError, MaybePut, NextKey, OpenKeyStream, PairValues, Put,
};
use crate::step::{Program, Request, Service, Step};

verus! {

/// A `blobKeys` Hyperbee and a `blobs` store that perform every request for what they hold.
#[verifier::reject_recursive_types(I)]
pub struct BlobStore<I> {
    /// The index.
    pub keys: Bee,
    /// The blobs by their ids.
    pub blobs: Map<I, Seq<u8>>,
    /// The id that a blob gets when these blobs are held already.
    pub new_id: spec_fn(Map<I, Seq<u8>>, Seq<u8>) -> I,
    /// The bytes that an id is encoded to.
    pub encode: spec_fn(I) -> Seq<u8>,
    /// What bytes decode to.
    pub decode: spec_fn(Seq<u8>) -> Result<I, serde_json::Error>,
}

impl<I> BlobStore<I> {
    /// The id that `blob` gets.
    pub open spec fn id_of(self, blob: Seq<u8>) -> I {
        (self.new_id)(self.blobs, blob)
    }

    /// The stores after `blob` was stored.
    pub open spec fn stored(self, blob: Seq<u8>) -> BlobStore<I> {
        BlobStore { blobs: self.blobs.insert(self.id_of(blob), blob), ..self }
    }

    /// The stores after `blob` was stored and its id was written under `key`.
    pub open spec fn put(self, key: Seq<u8>, blob: Seq<u8>) -> BlobStore<I> {
        BlobStore {
            keys: self.keys.write(key, (self.encode)(self.id_of(blob))),
            ..self.stored(blob)
        }
    }

    /// What the index holds under `key`.
    pub open spec fn get(self, key: Seq<u8>) -> Option<(u64, Option<Seq<u8>>)> {
        if self.keys.entries.contains_key(key) {
            Some(self.keys.entries[key])
        } else {
            None
        }
    }

    /// The id that stands under `key`.
    pub open spec fn id_at(self, key: Seq<u8>) -> I {
        (self.decode)(self.keys.entries[key].1.unwrap())->Ok_0
    }

    /// What the stores hold: a blob under each key of the index.
    pub open spec fn contents(self) -> Map<Seq<u8>, Seq<u8>> {
        Map::new(
            |key: Seq<u8>| self.keys.entries.contains_key(key),
            |key: Seq<u8>| self.blobs[self.id_at(key)],
        )
    }

    /// Ids survive encoding.
    pub open spec fn ids_hold(self) -> bool {
        forall|id: I| #[trigger]
            (self.decode)((self.encode)(id)) == Ok::<I, serde_json::Error>(id)
    }

    /// The id that `blob` gets is not that of another blob.
    pub open spec fn has_id_for(self, blob: Seq<u8>) -> bool {
        self.blobs.contains_key(self.id_of(blob)) ==> self.blobs[self.id_of(blob)] == blob
    }

    /// Every key of the index has an encoded id, and nothing else, and the blob of that id is
    /// held.
    pub open spec fn indexed(self) -> bool {
        forall|key: Seq<u8>| #[trigger]
            self.keys.entries.contains_key(key) ==> {
                &&& self.keys.entries[key].1 == Some((self.encode)(self.id_at(key)))
                &&& self.blobs.contains_key(self.id_at(key))
            }
    }

    /// The stores hold keyed blobs, finitely many of them.
    pub open spec fn valid(self) -> bool {
        &&& self.keys.entries.dom().finite()
        &&& self.ids_hold()
        &&& self.indexed()
    }
}

impl<I, E, H> Service<
    BlobsRequest<I, Seq<u8>>,
    BlobsReply<I, E, H, Seq<u8>>,
> for BlobStore<I> {
    open spec fn serve(self, request: BlobsRequest<I, Seq<u8>>) -> (
        BlobsReply<I, E, H, Seq<u8>>,
        BlobStore<I>,
    ) {
        match request {
            BlobsRequest::GetKey { key } => (BlobsReply::Found(self.get(key)), self),
            BlobsRequest::PutKey { key, value } => (
                BlobsReply::Written,
                BlobStore { keys: self.keys.write(key, value), ..self },
            ),
            BlobsRequest::Traverse => (
                BlobsReply::Opened,
                BlobStore { keys: self.keys.walked(self.keys.entries, false), ..self },
            ),
            BlobsRequest::Next => (
                BlobsReply::Item(self.keys.visit()),
                BlobStore { keys: self.keys.visited(), ..self },
            ),
            BlobsRequest::Store { blob } => {
                let id = self.id_of(blob);
                (BlobsReply::Stored { id, encoded: (self.encode)(id) }, self.stored(blob))
            },
            BlobsRequest::Decode { bytes } => match (self.decode)(bytes) {
                Ok(id) => (BlobsReply::Decoded(id), self),
                Err(error) => (BlobsReply::Malformed(error), self),
            },
            BlobsRequest::Fetch { id } => if self.blobs.contains_key(id) {
                (BlobsReply::Fetched(self.blobs[id]), self)
            } else {
                (BlobsReply::BlobsFailed(arbitrary()), self)
            },
        }
    }
}

/// How an operation on keyed blobs ends, and the stores afterwards.
pub open spec fn run_blobs<
    I,
    E,
    H,
    S: Program<BlobsRequest<I, Seq<u8>>, BlobsReply<I, E, H, Seq<u8>>>,
>(
    step: Step<BlobsRequest<I, Seq<u8>>, S, S::Value, S::Failure>,
    store: BlobStore<I>,
    limit: nat,
) -> Option<(Result<S::Value, S::Failure>, BlobStore<I>)> {
    crate::step::run::<
        BlobsRequest<I, Seq<u8>>,
        BlobsReply<I, E, H, Seq<u8>>,
        S,
        BlobStore<I>,
    >(step, store, limit)
}

/// Stores without keys, with ids that survive encoding, hold keyed blobs. If they have no blobs
/// either, they have an id for any.
pub proof fn law_empty_stores<I>(store: BlobStore<I>)
    requires
        store.ids_hold(),
        store.keys == Bee::empty(),
    ensures
        store.valid(),
        store.contents() == Map::<Seq<u8>, Seq<u8>>::empty(),
        store.blobs == Map::<I, Seq<u8>>::empty() ==> forall|blob: Seq<u8>| #[trigger]
            store.has_id_for(blob),
{
    assert(store.keys.entries.dom() =~= Set::empty());
    assert(store.contents() =~= Map::empty());
}

/// Putting a blob makes it what is held under its key and leaves every other key as it was. It
/// gives the id of the blob, and the encoded id is all that the index holds of it. The ids that
/// were given before are still those of their blobs, unless the blob gets the id of another, and
/// stores that hold keyed blobs go on to hold them.
pub proof fn law_put<I, E, H>(store: BlobStore<I>, key: Seq<u8>, blob: Seq<u8>)
    ensures
        run_blobs::<I, E, H, Put<I, Seq<u8>>>(
            Put::<I, Seq<u8>>::start::<E, H>(key, blob),
            store,
            2,
        ) == Some(
            (
                Ok::<BlobId<I>, KeyedBlobsError<E, H, Seq<u8>>>(BlobId(store.id_of(blob))),
                store.put(key, blob),
            ),
        ),
        store.valid() && store.has_id_for(blob) ==> store.put(key, blob).valid(),
        store.valid() && store.has_id_for(blob) ==> store.put(key, blob).contents()
            == store.contents().insert(key, blob),
        store.put(key, blob).get(key) == Some(
            (store.keys.next_block(), Some((store.encode)(store.id_of(blob)))),
        ),
        forall|other: Seq<u8>|
            other != key ==> #[trigger] store.put(key, blob).get(other) == store.get(other),
        store.put(key, blob).blobs.contains_pair(store.id_of(blob), blob),
        store.has_id_for(blob) ==> forall|id: I| #[trigger]
            store.blobs.contains_key(id) ==> store.put(key, blob).blobs.contains_pair(
                id,
                store.blobs[id],
            ),
{
    reveal_with_fuel(crate::step::run, 3);
    if store.valid() && store.has_id_for(blob) {
        lemma_put_holds(store, key, blob);
    }
}

/// Stores that hold keyed blobs hold one more after a put.
proof fn lemma_put_holds<I>(store: BlobStore<I>, key: Seq<u8>, blob: Seq<u8>)
    requires
        store.valid(),
        store.has_id_for(blob),
    ensures
        store.put(key, blob).valid(),
        store.put(key, blob).contents() == store.contents().insert(key, blob),
{
    let id = store.id_of(blob);
    let after = store.put(key, blob);
    assert(after.keys.entries.dom() =~= store.keys.entries.dom().insert(key));
    assert((store.decode)((store.encode)(id)) == Ok::<I, serde_json::Error>(id));
    assert(after.id_at(key) == id);
    assert forall|k: Seq<u8>| #[trigger] after.keys.entries.contains_key(k) implies {
        &&& after.keys.entries[k].1 == Some((after.encode)(after.id_at(k)))
        &&& after.blobs.contains_key(after.id_at(k))
        &&& after.blobs[after.id_at(k)] == if k == key {
            blob
        } else {
            store.blobs[store.id_at(k)]
        }
    } by {
        if k != key {
            assert(store.keys.entries.contains_key(k));
        }
    }
    assert(after.ids_hold()) by {
        assert forall|i: I| #[trigger]
            (after.decode)((after.encode)(i)) == Ok::<I, serde_json::Error>(i) by {
            assert((store.decode)((store.encode)(i)) == Ok::<I, serde_json::Error>(i));
        }
    }
    assert(after.contents() =~= store.contents().insert(key, blob));
}

/// Getting the id under a key gives what the index holds: nothing if the key is absent, the
/// decoded id if there is one, and otherwise the error for the key.
pub proof fn law_get_id<I, E, H>(store: BlobStore<I>, key: Seq<u8>)
    ensures
        run_blobs::<I, E, H, GetId<Seq<u8>>>(GetId::start::<I, E, H>(key), store, 2) == Some(
            (
                match store.get(key) {
                    None => Ok::<Option<BlobId<I>>, KeyedBlobsError<E, H, Seq<u8>>>(None),
                    Some((_, None)) => Err(KeyedBlobsError::MissingBlobId(key)),
                    Some((_, Some(bytes))) => match (store.decode)(bytes) {
                        Ok(id) => Ok(Some(BlobId(id))),
                        Err(error) => Err(KeyedBlobsError::Decode(key, error)),
                    },
                },
                store,
            ),
        ),
{
    reveal_with_fuel(crate::step::run, 3);
}

/// Getting a key gives the blob that is held under it, or nothing if the key is absent, and
/// changes nothing.
pub proof fn law_get<I, E, H>(store: BlobStore<I>, key: Seq<u8>)
    requires
        store.valid(),
    ensures
        run_blobs::<I, E, H, Get<Seq<u8>>>(Get::start::<I, E, H>(key), store, 3) == Some(
            (
                Ok::<Option<Seq<u8>>, KeyedBlobsError<E, H, Seq<u8>>>(
                    if store.contents().contains_key(key) {
                        Some(store.contents()[key])
                    } else {
                        None
                    },
                ),
                store,
            ),
        ),
{
    reveal_with_fuel(crate::step::run, 4);
    assert(store.keys.entries.contains_key(key) ==> store.blobs.contains_key(store.id_at(key)));
}

/// Getting a key of an index that holds anything: nothing if the key is absent, the blob of the id
/// that stands there, the error for the key if there is no id or it cannot be decoded, and the error
/// of the blob store if it does not have the blob. It changes nothing.
pub proof fn law_get_of_any_store<I, E, H>(store: BlobStore<I>, key: Seq<u8>)
    ensures
        run_blobs::<I, E, H, Get<Seq<u8>>>(Get::start::<I, E, H>(key), store, 3) matches Some(
            (result, after),
        ) && after == store && match store.get(key) {
            None => result == Ok::<Option<Seq<u8>>, KeyedBlobsError<E, H, Seq<u8>>>(None),
            Some((_, None)) => result == Err::<Option<Seq<u8>>, KeyedBlobsError<E, H, Seq<u8>>>(
                KeyedBlobsError::MissingBlobId(key),
            ),
            Some((_, Some(bytes))) => match (store.decode)(bytes) {
                Err(error) => result == Err::<Option<Seq<u8>>, KeyedBlobsError<E, H, Seq<u8>>>(
                    KeyedBlobsError::Decode(key, error),
                ),
                Ok(id) => if store.blobs.contains_key(id) {
                    result == Ok::<Option<Seq<u8>>, KeyedBlobsError<E, H, Seq<u8>>>(
                        Some(store.blobs[id]),
                    )
                } else {
                    result is Err && result->Err_0 is Hyperblobs
                },
            },
        },
{
    reveal_with_fuel(crate::step::run, 4);
}

/// A blob that was put is what a get of its key gives, and its id is what a get of the id gives.
/// A get of any other key, and of its id, gives what it gave before.
pub proof fn law_get_after_put<I, E, H>(
    store: BlobStore<I>,
    key: Seq<u8>,
    blob: Seq<u8>,
    other: Seq<u8>,
)
    requires
        store.valid(),
        store.has_id_for(blob),
        other != key,
    ensures
        run_blobs::<I, E, H, Put<I, Seq<u8>>>(
            Put::<I, Seq<u8>>::start::<E, H>(key, blob),
            store,
            2,
        ) matches Some((Ok(id), after)) && {
            &&& run_blobs::<I, E, H, Get<Seq<u8>>>(Get::start::<I, E, H>(key), after, 3) == Some(
                (Ok::<Option<Seq<u8>>, KeyedBlobsError<E, H, Seq<u8>>>(Some(blob)), after),
            )
            &&& run_blobs::<I, E, H, GetId<Seq<u8>>>(GetId::start::<I, E, H>(key), after, 2)
                == Some((Ok::<Option<BlobId<I>>, KeyedBlobsError<E, H, Seq<u8>>>(Some(id)), after))
            &&& run_blobs::<I, E, H, Get<Seq<u8>>>(Get::start::<I, E, H>(other), after, 3) == Some(
                (
                    run_blobs::<I, E, H, Get<Seq<u8>>>(
                        Get::start::<I, E, H>(other),
                        store,
                        3,
                    ).unwrap().0,
                    after,
                ),
            )
            &&& run_blobs::<I, E, H, GetId<Seq<u8>>>(GetId::start::<I, E, H>(other), after, 2)
                == Some(
                (
                    run_blobs::<I, E, H, GetId<Seq<u8>>>(
                        GetId::start::<I, E, H>(other),
                        store,
                        2,
                    ).unwrap().0,
                    after,
                ),
            )
        },
{
    let after = store.put(key, blob);
    law_put::<I, E, H>(store, key, blob);
    law_get::<I, E, H>(after, key);
    law_get_id::<I, E, H>(after, key);
    law_get::<I, E, H>(after, other);
    law_get::<I, E, H>(store, other);
    law_get_id::<I, E, H>(after, other);
    law_get_id::<I, E, H>(store, other);
    assert(after.get(other) == store.get(other));
}

/// A key that is present is left as it is: nothing is stored or written, and no id is given. A
/// key that is absent gets the blob as a put would give it.
pub proof fn law_maybe_put<I, E, H>(store: BlobStore<I>, key: Seq<u8>, blob: Seq<u8>)
    ensures
        run_blobs::<I, E, H, MaybePut<I, Seq<u8>>>(
            MaybePut::<I, Seq<u8>>::start::<E, H>(key, blob),
            store,
            3,
        ) == Some(
            if store.get(key) is Some {
                (Ok::<Option<BlobId<I>>, KeyedBlobsError<E, H, Seq<u8>>>(None), store)
            } else {
                (Ok(Some(BlobId(store.id_of(blob)))), store.put(key, blob))
            },
        ),
{
    reveal_with_fuel(crate::step::run, 4);
}

/// After a blob was put because its key was absent, a get of the key gives the blob and a get of
/// its id the id that was given. After one was not put, a get gives what it gave before.
pub proof fn law_get_after_maybe_put<I, E, H>(store: BlobStore<I>, key: Seq<u8>, blob: Seq<u8>)
    requires
        store.valid(),
        store.has_id_for(blob),
    ensures
        run_blobs::<I, E, H, MaybePut<I, Seq<u8>>>(
            MaybePut::<I, Seq<u8>>::start::<E, H>(key, blob),
            store,
            3,
        ) matches Some((Ok(put), after)) && {
            &&& put is Some <==> !store.contents().contains_key(key)
            &&& run_blobs::<I, E, H, Get<Seq<u8>>>(Get::start::<I, E, H>(key), after, 3) == Some(
                (
                    Ok::<Option<Seq<u8>>, KeyedBlobsError<E, H, Seq<u8>>>(
                        Some(
                            if put is Some {
                                blob
                            } else {
                                store.contents()[key]
                            },
                        ),
                    ),
                    after,
                ),
            )
            &&& put is Some ==> run_blobs::<I, E, H, GetId<Seq<u8>>>(
                GetId::start::<I, E, H>(key),
                after,
                2,
            ) == Some((Ok::<Option<BlobId<I>>, KeyedBlobsError<E, H, Seq<u8>>>(put), after))
        },
{
    law_maybe_put::<I, E, H>(store, key, blob);
    if store.get(key) is Some {
        law_get::<I, E, H>(store, key);
    } else {
        law_put::<I, E, H>(store, key, blob);
        law_get::<I, E, H>(store.put(key, blob), key);
        law_get_id::<I, E, H>(store.put(key, blob), key);
    }
}

/// The entries of the index by ascending keys.
pub open spec fn index_listing<I>(store: BlobStore<I>) -> Seq<KeyValue<Seq<u8>>> {
    crate::listing::listing(store.keys.entries, false)
}

/// The keys of entries.
pub open spec fn entry_keys(list: Seq<KeyValue<Seq<u8>>>) -> Seq<Seq<u8>> {
    Seq::new(list.len(), |i: int| list[i].key)
}

/// The keys of entries with the blobs that are held under them.
pub open spec fn entry_pairs<I>(store: BlobStore<I>, list: Seq<KeyValue<Seq<u8>>>) -> PairValues {
    Seq::new(list.len(), |i: int| (list[i].key, store.contents()[list[i].key]))
}

/// Reading keys until the walk ends adds the keys that are left of it.
proof fn lemma_read_keys<I, E, H>(store: BlobStore<I>, keys: Seq<Seq<u8>>)
    ensures
        run_blobs::<I, E, H, GetKeys<Seq<Seq<u8>>>>(
            Step::Ask(BlobsRequest::Next, GetKeys::Reading { keys }),
            store,
            store.keys.walk.len() + 1,
        ) matches Some((Ok(all), after)) && {
            &&& all == keys + entry_keys(store.keys.walk)
            &&& after.keys.entries == store.keys.entries
            &&& after.keys.version == store.keys.version
            &&& after.blobs == store.blobs
        },
    decreases store.keys.walk.len(),
{
    reveal_with_fuel(crate::step::run, 2);
    let walk = store.keys.walk;
    if walk.len() == 0 {
        assert(keys + entry_keys(walk) =~= keys);
    } else {
        let after = BlobStore { keys: store.keys.visited(), ..store };
        lemma_read_keys::<I, E, H>(after, keys.push(walk[0].key));
        assert(keys.push(walk[0].key) + entry_keys(walk.skip(1)) =~= keys + entry_keys(walk));
    }
}

/// Getting the keys gives every key of the index once, by ascending order, and changes nothing
/// that is held.
pub proof fn law_get_keys<I, E, H>(store: BlobStore<I>)
    requires
        store.keys.entries.dom().finite(),
    ensures
        crate::listing::is_listing(store.keys.entries, false, index_listing(store)),
        run_blobs::<I, E, H, GetKeys<Seq<Seq<u8>>>>(
            GetKeys::start::<I, E, H>(),
            store,
            index_listing(store).len() + 2,
        ) matches Some((Ok(keys), after)) && {
            &&& keys == entry_keys(index_listing(store))
            &&& after.keys.entries == store.keys.entries
            &&& after.keys.version == store.keys.version
            &&& after.blobs == store.blobs
        },
{
    crate::listing::lemma_listing_exists(store.keys.entries, false);
    let opened = BlobStore { keys: store.keys.walked(store.keys.entries, false), ..store };
    lemma_read_keys::<I, E, H>(opened, Seq::empty());
    assert(Seq::empty() + entry_keys(index_listing(store)) =~= entry_keys(index_listing(store)));
}

/// Reading keys and blobs until the walk ends adds the pairs that are left of it.
proof fn lemma_read_pairs<I, E, H>(store: BlobStore<I>, pairs: PairValues)
    requires
        store.valid(),
        forall|i: int|
            0 <= i < store.keys.walk.len() ==> {
                let entry = #[trigger] store.keys.walk[i];
                store.get(entry.key) == Some((entry.seq, entry.value))
            },
    ensures
        run_blobs::<I, E, H, GetKeysAndBlobs<PairValues, Seq<u8>>>(
            Step::Ask(BlobsRequest::Next, GetKeysAndBlobs::Reading { pairs }),
            store,
            3 * store.keys.walk.len() + 1,
        ) matches Some((Ok(all), after)) && {
            &&& all == pairs + entry_pairs(store, store.keys.walk)
            &&& after.keys.entries == store.keys.entries
            &&& after.keys.version == store.keys.version
            &&& after.blobs == store.blobs
        },
    decreases store.keys.walk.len(),
{
    let walk = store.keys.walk;
    if walk.len() == 0 {
        assert(pairs + entry_pairs(store, walk) =~= pairs);
    } else {
        let entry = walk[0];
        let after = BlobStore { keys: store.keys.visited(), ..store };
        let pair = (entry.key, store.contents()[entry.key]);
        reveal_with_fuel(crate::step::run, 4);
        assert(store.keys.entries.contains_key(entry.key));
        assert(after.contents() =~= store.contents());
        assert(forall|key: Seq<u8>| #[trigger]
            after.keys.entries.contains_key(key) ==> store.keys.entries.contains_key(key)
                && after.id_at(key) == store.id_at(key));
        assert forall|i: int| 0 <= i < after.keys.walk.len() implies {
            let entry = #[trigger] after.keys.walk[i];
            after.get(entry.key) == Some((entry.seq, entry.value))
        } by {
            assert(after.keys.walk[i] == walk[i + 1]);
        }
        lemma_read_pairs::<I, E, H>(after, pairs.push(pair));
        assert(pairs.push(pair) + entry_pairs(after, walk.skip(1)) =~= pairs + entry_pairs(
            store,
            walk,
        ));
        assert(3 * walk.len() + 1 == (3 * walk.skip(1).len() + 1) + 3);
    }
}

/// Getting the keys and blobs gives every key with the blob that is held under it, by ascending
/// order of the keys, and changes nothing that is held.
pub proof fn law_get_keys_and_blobs<I, E, H>(store: BlobStore<I>)
    requires
        store.valid(),
    ensures
        crate::listing::is_listing(store.keys.entries, false, index_listing(store)),
        run_blobs::<I, E, H, GetKeysAndBlobs<PairValues, Seq<u8>>>(
            GetKeysAndBlobs::start::<I, E, H>(),
            store,
            3 * index_listing(store).len() + 2,
        ) matches Some((Ok(pairs), after)) && {
            &&& pairs == entry_pairs(store, index_listing(store))
            &&& after.keys.entries == store.keys.entries
            &&& after.keys.version == store.keys.version
            &&& after.blobs == store.blobs
        },
{
    crate::listing::lemma_listing_exists(store.keys.entries, false);
    let opened = BlobStore { keys: store.keys.walked(store.keys.entries, false), ..store };
    assert(opened.contents() =~= store.contents());
    assert(forall|key: Seq<u8>| #[trigger]
        opened.keys.entries.contains_key(key) ==> store.keys.entries.contains_key(key)
            && opened.id_at(key) == store.id_at(key));
    lemma_read_pairs::<I, E, H>(opened, Seq::empty());
    assert(Seq::empty() + entry_pairs(opened, index_listing(store)) =~= entry_pairs(
        store,
        index_listing(store),
    ));
}

/// The keys that come with their blobs are those that getting the keys gives, and each comes with
/// the blob that a get of it gives. No key comes before a lesser one, or twice.
pub proof fn law_pairs_agree<I, E, H>(store: BlobStore<I>, i: int, j: int)
    requires
        store.valid(),
        0 <= i < index_listing(store).len(),
        0 <= j < index_listing(store).len(),
    ensures
        run_blobs::<I, E, H, GetKeysAndBlobs<PairValues, Seq<u8>>>(
            GetKeysAndBlobs::start::<I, E, H>(),
            store,
            3 * index_listing(store).len() + 2,
        ) matches Some((Ok(pairs), _)) && {
            &&& run_blobs::<I, E, H, GetKeys<Seq<Seq<u8>>>>(
                GetKeys::start::<I, E, H>(),
                store,
                index_listing(store).len() + 2,
            ) matches Some((Ok(keys), _))
            &&& keys.len() == pairs.len() == index_listing(store).len()
            &&& keys[i] == pairs[i].0
            &&& run_blobs::<I, E, H, Get<Seq<u8>>>(Get::start::<I, E, H>(keys[i]), store, 3)
                == Some(
                (
                    Ok::<Option<Seq<u8>>, KeyedBlobsError<E, H, Seq<u8>>>(Some(pairs[i].1)),
                    store,
                ),
            )
            &&& i < j ==> crate::bytes::before(keys[i], keys[j])
        },
{
    let list = index_listing(store);
    law_get_keys::<I, E, H>(store);
    law_get_keys_and_blobs::<I, E, H>(store);
    law_get::<I, E, H>(store, list[i].key);
    if i < j {
        assert(crate::listing::visited_before(list[i].key, list[j].key, false));
    }
}

/// The entry of the index has an id, and the blob of that id is held.
pub open spec fn is_sound<I>(store: BlobStore<I>, value: Option<Seq<u8>>) -> bool {
    match value {
        Some(bytes) => match (store.decode)(bytes) {
            Ok(id) => store.blobs.contains_key(id),
            Err(_) => false,
        },
        None => false,
    }
}

/// What is wrong with the id that the index holds under `key`, if anything is: it is missing, or
/// it cannot be decoded.
pub open spec fn id_error<I, E, H>(
    store: BlobStore<I>,
    key: Seq<u8>,
    value: Option<Seq<u8>>,
) -> Option<KeyedBlobsError<E, H, Seq<u8>>> {
    match value {
        None => Some(KeyedBlobsError::MissingBlobId(key)),
        Some(bytes) => match (store.decode)(bytes) {
            Ok(_) => None,
            Err(error) => Some(KeyedBlobsError::Decode(key, error)),
        },
    }
}

/// Reading keys and blobs ends at the first entry whose id is missing or cannot be decoded, or
/// whose blob is not held.
proof fn lemma_read_broken<I, E, H>(store: BlobStore<I>, pairs: PairValues, n: nat)
    requires
        n < store.keys.walk.len(),
        forall|i: int| 0 <= i < n ==> is_sound(store, (#[trigger] store.keys.walk[i]).value),
        !is_sound(store, store.keys.walk[n as int].value),
    ensures
        run_blobs::<I, E, H, GetKeysAndBlobs<PairValues, Seq<u8>>>(
            Step::Ask(BlobsRequest::Next, GetKeysAndBlobs::Reading { pairs }),
            store,
            3 * store.keys.walk.len() + 1,
        ) matches Some((Err(error), after)) && {
            let broken = store.keys.walk[n as int];
            &&& match id_error::<I, E, H>(store, broken.key, broken.value) {
                Some(id_error) => error == id_error,
                None => error is Hyperblobs,
            }
            &&& after.keys.entries == store.keys.entries
            &&& after.keys.version == store.keys.version
            &&& after.blobs == store.blobs
        },
    decreases n,
{
    let walk = store.keys.walk;
    let entry = walk[0];
    let after = BlobStore { keys: store.keys.visited(), ..store };
    reveal_with_fuel(crate::step::run, 4);
    if n > 0 {
        assert(is_sound(store, entry.value));
        let pair = (entry.key, store.blobs[(store.decode)(entry.value.unwrap())->Ok_0]);
        assert forall|i: int| 0 <= i < n - 1 implies is_sound(
            after,
            (#[trigger] after.keys.walk[i]).value,
        ) by {
            assert(after.keys.walk[i] == walk[i + 1]);
            assert(is_sound(store, walk[i + 1].value));
        }
        assert(after.keys.walk[n - 1] == walk[n as int]);
        lemma_read_broken::<I, E, H>(after, pairs.push(pair), (n - 1) as nat);
        assert(3 * walk.len() + 1 == (3 * walk.skip(1).len() + 1) + 3);
    }
}

/// In an index with ids that are missing or cannot be decoded, the least key with such an id
/// decides the error that getting the keys and blobs ends with. Getting the keys still gives every
/// key once, by ascending order. Neither changes anything that is held.
pub proof fn law_broken_index<I, E, H>(store: BlobStore<I>, key: Seq<u8>)
    requires
        store.keys.entries.dom().finite(),
        store.keys.entries.contains_key(key),
        id_error::<I, E, H>(store, key, store.keys.entries[key].1) is Some,
        forall|other: Seq<u8>| #[trigger]
            store.keys.entries.contains_key(other) && crate::bytes::before(other, key) ==> is_sound(
                store,
                store.keys.entries[other].1,
            ),
    ensures
        run_blobs::<I, E, H, GetKeysAndBlobs<PairValues, Seq<u8>>>(
            GetKeysAndBlobs::start::<I, E, H>(),
            store,
            3 * index_listing(store).len() + 2,
        ) matches Some((Err(error), after)) && {
            &&& Some(error) == id_error::<I, E, H>(store, key, store.keys.entries[key].1)
            &&& after.keys.entries == store.keys.entries
            &&& after.keys.version == store.keys.version
            &&& after.blobs == store.blobs
        },
        crate::listing::is_listing(store.keys.entries, false, index_listing(store)),
        run_blobs::<I, E, H, GetKeys<Seq<Seq<u8>>>>(
            GetKeys::start::<I, E, H>(),
            store,
            index_listing(store).len() + 2,
        ) matches Some((Ok(keys), after)) && {
            &&& keys == entry_keys(index_listing(store))
            &&& after.keys.entries == store.keys.entries
            &&& after.keys.version == store.keys.version
            &&& after.blobs == store.blobs
        },
{
    let list = index_listing(store);
    let opened = BlobStore { keys: store.keys.walked(store.keys.entries, false), ..store };
    law_get_keys::<I, E, H>(store);
    let n = choose|n: int| 0 <= n < list.len() && (#[trigger] list[n]).key == key;
    assert forall|i: int| 0 <= i < n implies is_sound(opened, (#[trigger] list[i]).value) by {
        assert(crate::listing::visited_before(list[i].key, list[n].key, false));
        assert(store.keys.entries.contains_key(list[i].key));
        assert(is_sound(store, list[i].value));
    }
    lemma_read_broken::<I, E, H>(opened, Seq::empty(), n as nat);
}

/// In an index with ids whose blobs are not held, the least key with such an id, if no lesser one
/// has a missing or undecodable id, ends getting the keys and blobs with the error of the blob
/// store.
pub proof fn law_missing_blob<I, E, H>(store: BlobStore<I>, key: Seq<u8>)
    requires
        store.keys.entries.dom().finite(),
        store.keys.entries.contains_key(key),
        id_error::<I, E, H>(store, key, store.keys.entries[key].1) is None,
        !is_sound(store, store.keys.entries[key].1),
        forall|other: Seq<u8>| #[trigger]
            store.keys.entries.contains_key(other) && crate::bytes::before(other, key) ==> is_sound(
                store,
                store.keys.entries[other].1,
            ),
    ensures
        run_blobs::<I, E, H, GetKeysAndBlobs<PairValues, Seq<u8>>>(
            GetKeysAndBlobs::start::<I, E, H>(),
            store,
            3 * index_listing(store).len() + 2,
        ) matches Some((Err(error), after)) && {
            &&& error is Hyperblobs
            &&& after.keys.entries == store.keys.entries
            &&& after.keys.version == store.keys.version
            &&& after.blobs == store.blobs
        },
{
    let list = index_listing(store);
    let opened = BlobStore { keys: store.keys.walked(store.keys.entries, false), ..store };
    law_get_keys::<I, E, H>(store);
    let n = choose|n: int| 0 <= n < list.len() && (#[trigger] list[n]).key == key;
    assert forall|i: int| 0 <= i < n implies is_sound(opened, (#[trigger] list[i]).value) by {
        assert(crate::listing::visited_before(list[i].key, list[n].key, false));
        assert(store.keys.entries.contains_key(list[i].key));
        assert(is_sound(store, list[i].value));
    }
    lemma_read_broken::<I, E, H>(opened, Seq::empty(), n as nat);
}

/// The stores after the blobs were put one after the other, each under its key, if every put
/// succeeds.
pub open spec fn put_all<I, E, H>(
    store: BlobStore<I>,
    items: Seq<(Seq<u8>, Seq<u8>)>,
) -> Option<BlobStore<I>>
    decreases items.len(),
{
    if items.len() == 0 {
        Some(store)
    } else {
        match put_all::<I, E, H>(store, items.drop_last()) {
            Some(before) => match run_blobs::<I, E, H, Put<I, Seq<u8>>>(
                Put::<I, Seq<u8>>::start::<E, H>(items.last().0, items.last().1),
                before,
                2,
            ) {
                Some((Ok(_), after)) => Some(after),
                _ => None,
            },
            None => None,
        }
    }
}

/// At each of the puts, the id that the blob gets is not that of another blob.
pub open spec fn has_ids_for<I, E, H>(
    store: BlobStore<I>,
    items: Seq<(Seq<u8>, Seq<u8>)>,
) -> bool
    decreases items.len(),
{
    items.len() > 0 ==> {
        &&& has_ids_for::<I, E, H>(store, items.drop_last())
        &&& put_all::<I, E, H>(store, items.drop_last()) matches Some(before)
            ==> before.has_id_for(items.last().1)
    }
}

/// What is held after the blobs were put where `held` was: under each key the blob that was put
/// last.
pub open spec fn held_after(
    held: Map<Seq<u8>, Seq<u8>>,
    items: Seq<(Seq<u8>, Seq<u8>)>,
) -> Map<Seq<u8>, Seq<u8>>
    decreases items.len(),
{
    if items.len() == 0 {
        held
    } else {
        held_after(held, items.drop_last()).insert(items.last().0, items.last().1)
    }
}

/// A blob was put under `key`.
pub open spec fn is_put(items: Seq<(Seq<u8>, Seq<u8>)>, key: Seq<u8>) -> bool {
    exists|i: int| 0 <= i < items.len() && (#[trigger] items[i]).0 == key
}

/// The keys that something is held under after puts are those from before and those of the puts.
proof fn lemma_held_keys(held: Map<Seq<u8>, Seq<u8>>, items: Seq<(Seq<u8>, Seq<u8>)>)
    ensures
        forall|key: Seq<u8>| #[trigger]
            held_after(held, items).contains_key(key) <==> held.contains_key(key) || is_put(
                items,
                key,
            ),
    decreases items.len(),
{
    if items.len() > 0 {
        let first = items.drop_last();
        lemma_held_keys(held, first);
        assert forall|key: Seq<u8>| #[trigger]
            held_after(held, items).contains_key(key) <==> held.contains_key(key) || is_put(
                items,
                key,
            ) by {
            assert(held_after(held, first).contains_key(key) <==> held.contains_key(key) || is_put(
                first,
                key,
            ));
            if is_put(first, key) {
                let i = choose|i: int| 0 <= i < first.len() && (#[trigger] first[i]).0 == key;
                assert(items[i].0 == key);
            }
            if key == items.last().0 {
                assert(items[items.len() - 1].0 == key);
            } else if is_put(items, key) {
                let i = choose|i: int| 0 <= i < items.len() && (#[trigger] items[i]).0 == key;
                assert(first[i].0 == key);
            }
        }
    }
}

/// Any sequence of puts succeeds, and leaves under each key the blob that was put under it last,
/// or what was held before if none was.
pub proof fn law_put_all<I, E, H>(store: BlobStore<I>, items: Seq<(Seq<u8>, Seq<u8>)>)
    requires
        store.valid(),
        has_ids_for::<I, E, H>(store, items),
    ensures
        put_all::<I, E, H>(store, items) matches Some(after) && {
            &&& after.valid()
            &&& after.contents() == held_after(store.contents(), items)
        },
    decreases items.len(),
{
    if items.len() > 0 {
        law_put_all::<I, E, H>(store, items.drop_last());
        let before = put_all::<I, E, H>(store, items.drop_last()).unwrap();
        law_put::<I, E, H>(before, items.last().0, items.last().1);
    }
}

/// After any sequence of puts, getting the keys gives the keys that were there before and those
/// that were put, and no others: each once, by ascending order.
pub proof fn law_get_keys_after_puts<I, E, H>(
    store: BlobStore<I>,
    items: Seq<(Seq<u8>, Seq<u8>)>,
)
    requires
        store.valid(),
        has_ids_for::<I, E, H>(store, items),
    ensures
        put_all::<I, E, H>(store, items) matches Some(after) && {
            &&& run_blobs::<I, E, H, GetKeys<Seq<Seq<u8>>>>(
                GetKeys::start::<I, E, H>(),
                after,
                index_listing(after).len() + 2,
            ) matches Some((Ok(keys), _))
            &&& forall|key: Seq<u8>| #[trigger]
                keys.contains(key) <==> store.contents().contains_key(key) || is_put(items, key)
            &&& forall|i: int, j: int|
                0 <= i < j < keys.len() ==> crate::bytes::before(
                    #[trigger] keys[i],
                    #[trigger] keys[j],
                )
        },
{
    law_put_all::<I, E, H>(store, items);
    lemma_held_keys(store.contents(), items);
    let after = put_all::<I, E, H>(store, items).unwrap();
    let list = index_listing(after);
    let keys = entry_keys(list);
    law_get_keys::<I, E, H>(after);
    assert forall|key: Seq<u8>| #[trigger]
        keys.contains(key) <==> store.contents().contains_key(key) || is_put(items, key) by {
        assert(after.contents().contains_key(key) <==> held_after(
            store.contents(),
            items,
        ).contains_key(key));
        if keys.contains(key) {
            let i = choose|i: int| 0 <= i < keys.len() && keys[i] == key;
            assert(after.keys.entries.contains_key(list[i].key));
        }
        if after.keys.entries.contains_key(key) {
            let i = choose|i: int| 0 <= i < list.len() && (#[trigger] list[i]).key == key;
            assert(keys[i] == key);
        }
    }
    assert forall|i: int, j: int| 0 <= i < j < keys.len() implies crate::bytes::before(
        #[trigger] keys[i],
        #[trigger] keys[j],
    ) by {
        assert(crate::listing::visited_before(list[i].key, list[j].key, false));
    }
}

/// What a stream of keys gives, read to its end, if there are at most `limit` of them and it does
/// not fail; and the stores afterwards.
pub open spec fn read_keys<I, E, H>(store: BlobStore<I>, limit: nat) -> Option<
    (Seq<Seq<u8>>, BlobStore<I>),
>
    decreases limit,
{
    match run_blobs::<I, E, H, NextKey>(NextKey::start::<I, E, H>(), store, 1) {
        Some((Ok(None), after)) => Some((Seq::empty(), after)),
        Some((Ok(Some(key)), after)) => if limit == 0 {
            None
        } else {
            match read_keys::<I, E, H>(after, (limit - 1) as nat) {
                Some((rest, last)) => Some((seq![key] + rest, last)),
                None => None,
            }
        },
        _ => None,
    }
}

/// A stream of keys gives the keys that are left of the walk.
proof fn lemma_stream_keys<I, E, H>(store: BlobStore<I>)
    ensures
        read_keys::<I, E, H>(store, store.keys.walk.len()) matches Some((keys, after)) && {
            &&& keys == entry_keys(store.keys.walk)
            &&& after.keys.entries == store.keys.entries
            &&& after.keys.version == store.keys.version
            &&& after.blobs == store.blobs
        },
    decreases store.keys.walk.len(),
{
    reveal_with_fuel(crate::step::run, 2);
    let walk = store.keys.walk;
    if walk.len() == 0 {
        assert(entry_keys(walk) =~= Seq::empty());
    } else {
        let after = BlobStore { keys: store.keys.visited(), ..store };
        lemma_stream_keys::<I, E, H>(after);
        assert(seq![walk[0].key] + entry_keys(walk.skip(1)) =~= entry_keys(walk));
    }
}

/// Streaming the keys gives what getting the keys gives: every key once, by ascending order. It
/// changes nothing that is held.
pub proof fn law_key_stream<I, E, H>(store: BlobStore<I>)
    ensures
        run_blobs::<I, E, H, OpenKeyStream>(
            OpenKeyStream::start::<I, E, H>(),
            store,
            1,
        ) matches Some((Ok(_), opened)) && {
            &&& read_keys::<I, E, H>(opened, index_listing(store).len()) matches Some((keys, after))
            &&& keys == entry_keys(index_listing(store))
            &&& after.keys.entries == store.keys.entries
            &&& after.keys.version == store.keys.version
            &&& after.blobs == store.blobs
        },
{
    reveal_with_fuel(crate::step::run, 2);
    let opened = BlobStore { keys: store.keys.walked(store.keys.entries, false), ..store };
    lemma_stream_keys::<I, E, H>(opened);
    assert(run_blobs::<I, E, H, OpenKeyStream>(OpenKeyStream::start::<I, E, H>(), store, 1) == Some(
        (Ok::<KeyStream, KeyedBlobsError<E, H, Seq<u8>>>(KeyStream {  }), opened),
    ));
}

/// A failure that the operation can meet ends it with the error of the store that failed, and
/// nothing more is asked for.
pub open spec fn ends_with<
    I,
    E,
    H,
    S: Program<
        BlobsRequest<I, Seq<u8>>,
        BlobsReply<I, E, H, Seq<u8>>,
        Failure = KeyedBlobsError<E, H, Seq<u8>>,
    >,
>(state: S, keys_error: E, blobs_error: H) -> bool {
    &&& state.expects(BlobsReply::KeysFailed(keys_error)) ==> state.next(
        BlobsReply::KeysFailed(keys_error),
    ) == Step::<
        BlobsRequest<I, Seq<u8>>,
        S,
        S::Value,
        KeyedBlobsError<E, H, Seq<u8>>,
    >::Done(Err(KeyedBlobsError::Hyperbee(keys_error)))
    &&& state.expects(BlobsReply::BlobsFailed(blobs_error)) ==> state.next(
        BlobsReply::BlobsFailed(blobs_error),
    ) == Step::<
        BlobsRequest<I, Seq<u8>>,
        S,
        S::Value,
        KeyedBlobsError<E, H, Seq<u8>>,
    >::Done(Err(KeyedBlobsError::Hyperblobs(blobs_error)))
}

/// Where a store fails, the operation that asked ends with its error.
pub proof fn law_failure_ends_operation<I, E, H>(
    put: Put<I, Seq<u8>>,
    maybe_put: MaybePut<I, Seq<u8>>,
    get_id: GetId<Seq<u8>>,
    get: Get<Seq<u8>>,
    open: OpenKeyStream,
    next: NextKey,
    keys: GetKeys<Seq<Seq<u8>>>,
    pairs: GetKeysAndBlobs<PairValues, Seq<u8>>,
    keys_error: E,
    blobs_error: H,
)
    ensures
        ends_with::<I, E, H, Put<I, Seq<u8>>>(put, keys_error, blobs_error),
        ends_with::<I, E, H, MaybePut<I, Seq<u8>>>(maybe_put, keys_error, blobs_error),
        ends_with::<I, E, H, GetId<Seq<u8>>>(get_id, keys_error, blobs_error),
        ends_with::<I, E, H, Get<Seq<u8>>>(get, keys_error, blobs_error),
        ends_with::<I, E, H, OpenKeyStream>(open, keys_error, blobs_error),
        ends_with::<I, E, H, NextKey>(next, keys_error, blobs_error),
        ends_with::<I, E, H, GetKeys<Seq<Seq<u8>>>>(keys, keys_error, blobs_error),
        ends_with::<I, E, H, GetKeysAndBlobs<PairValues, Seq<u8>>>(
            pairs,
            keys_error,
            blobs_error,
        ),
{
}

/// Every operation on keyed blobs begins with a request from whose every reply it goes on.
pub proof fn law_blobs_are_answerable<I, E, H>(key: Seq<u8>, blob: Seq<u8>)
    ensures
        crate::step::answerable::<
            BlobsRequest<I, Seq<u8>>,
            BlobsReply<I, E, H, Seq<u8>>,
            Put<I, Seq<u8>>,
        >(Put::<I, Seq<u8>>::start::<E, H>(key, blob)),
        crate::step::answerable::<
            BlobsRequest<I, Seq<u8>>,
            BlobsReply<I, E, H, Seq<u8>>,
            MaybePut<I, Seq<u8>>,
        >(MaybePut::<I, Seq<u8>>::start::<E, H>(key, blob)),
        crate::step::answerable::<
            BlobsRequest<I, Seq<u8>>,
            BlobsReply<I, E, H, Seq<u8>>,
            GetId<Seq<u8>>,
        >(GetId::start::<I, E, H>(key)),
        crate::step::answerable::<
            BlobsRequest<I, Seq<u8>>,
            BlobsReply<I, E, H, Seq<u8>>,
            Get<Seq<u8>>,
        >(Get::start::<I, E, H>(key)),
        crate::step::answerable::<
            BlobsRequest<I, Seq<u8>>,
            BlobsReply<I, E, H, Seq<u8>>,
            OpenKeyStream,
        >(OpenKeyStream::start::<I, E, H>()),
        crate::step::answerable::<
            BlobsRequest<I, Seq<u8>>,
            BlobsReply<I, E, H, Seq<u8>>,
            NextKey,
        >(NextKey::start::<I, E, H>()),
        crate::step::answerable::<
            BlobsRequest<I, Seq<u8>>,
            BlobsReply<I, E, H, Seq<u8>>,
            GetKeys<Seq<Seq<u8>>>,
        >(GetKeys::start::<I, E, H>()),
        crate::step::answerable::<
            BlobsRequest<I, Seq<u8>>,
            BlobsReply<I, E, H, Seq<u8>>,
            GetKeysAndBlobs<PairValues, Seq<u8>>,
        >(GetKeysAndBlobs::start::<I, E, H>()),
{
}

/// The contents of an error, of a request and of a reply are those of their parts.
pub proof fn law_contents<I, E, H>(
    error: KeyedBlobsError<E, H>,
    request: BlobsRequest<I>,
    reply: BlobsReply<I, E, H>,
)
    ensures
        error.deep_view() == match error {
            KeyedBlobsError::Hyperbee(error) => KeyedBlobsError::<E, H, Seq<u8>>::Hyperbee(error),
            KeyedBlobsError::Hyperblobs(error) => KeyedBlobsError::Hyperblobs(error),
            KeyedBlobsError::Decode(key, error) => KeyedBlobsError::Decode(key@, error),
            KeyedBlobsError::MissingBlobId(key) => KeyedBlobsError::MissingBlobId(key@),
        },
        request.deep_view() == match request {
            BlobsRequest::GetKey { key } => BlobsRequest::<I, Seq<u8>>::GetKey { key: key@ },
            BlobsRequest::PutKey { key, value } => BlobsRequest::PutKey {
                key: key@,
                value: value@,
            },
            BlobsRequest::Traverse => BlobsRequest::Traverse,
            BlobsRequest::Next => BlobsRequest::Next,
            BlobsRequest::Store { blob } => BlobsRequest::Store { blob: blob@ },
            BlobsRequest::Decode { bytes } => BlobsRequest::Decode { bytes: bytes@ },
            BlobsRequest::Fetch { id } => BlobsRequest::Fetch { id },
        },
        reply.deep_view() == match reply {
            BlobsReply::Found(Some((seq, value))) => BlobsReply::<I, E, H, Seq<u8>>::Found(
                Some((seq, crate::bee::optional_bytes(value))),
            ),
            BlobsReply::Found(None) => BlobsReply::Found(None),
            BlobsReply::Written => BlobsReply::Written,
            BlobsReply::Opened => BlobsReply::Opened,
            BlobsReply::Item(Some(item)) => BlobsReply::Item(
                Some(
                    KeyValue {
                        seq: item.seq,
                        key: item.key@,
                        value: crate::bee::optional_bytes(item.value),
                    },
                ),
            ),
            BlobsReply::Item(None) => BlobsReply::Item(None),
            BlobsReply::Stored { id, encoded } => BlobsReply::Stored { id, encoded: encoded@ },
            BlobsReply::Decoded(id) => BlobsReply::Decoded(id),
            BlobsReply::Malformed(error) => BlobsReply::Malformed(error),
            BlobsReply::Fetched(blob) => BlobsReply::Fetched(blob@),
            BlobsReply::KeysFailed(error) => BlobsReply::KeysFailed(error),
            BlobsReply::BlobsFailed(error) => BlobsReply::BlobsFailed(error),
        },
{
    broadcast use crate::bytes::lemma_bytes_contents;

}

/// The contents of keys, of keys with blobs and of an id are those of their parts.
pub proof fn law_contents_of_results<I>(
    keys: Vec<Vec<u8>>,
    pairs: crate::keyed_blobs::Pairs,
    id: BlobId<I>,
)
    ensures
        keys.deep_view().len() == keys.len(),
        forall|i: int| 0 <= i < keys.len() ==> #[trigger] keys.deep_view()[i] == keys[i]@,
        pairs.deep_view().len() == pairs.len(),
        forall|i: int|
            0 <= i < pairs.len() ==> #[trigger] pairs.deep_view()[i] == (
                pairs[i].0@,
                pairs[i].1@,
            ),
        id.deep_view() == id,
{
    broadcast use crate::bytes::lemma_bytes_contents;

}

/// Which replies answer a request: a failure of the store that is asked answers any, and a reply of
/// the kind that the request names answers it whatever it holds.
pub proof fn law_answers<I, E, H>(
    request: BlobsRequest<I, Seq<u8>>,
    keys_error: E,
    blobs_error: H,
    found: Option<(u64, Option<Seq<u8>>)>,
    item: Option<KeyValue<Seq<u8>>>,
    id: I,
    bytes: Seq<u8>,
    error: serde_json::Error,
)
    ensures
        request is GetKey || request is PutKey || request is Traverse || request is Next
            ==> request.answered_by(BlobsReply::<I, E, H, Seq<u8>>::KeysFailed(keys_error)),
        request is Store || request is Fetch ==> request.answered_by(
            BlobsReply::<I, E, H, Seq<u8>>::BlobsFailed(blobs_error),
        ),
        request is GetKey ==> request.answered_by(BlobsReply::<I, E, H, Seq<u8>>::Found(found)),
        request is PutKey ==> request.answered_by(BlobsReply::<I, E, H, Seq<u8>>::Written),
        request is Traverse ==> request.answered_by(BlobsReply::<I, E, H, Seq<u8>>::Opened),
        request is Next ==> request.answered_by(BlobsReply::<I, E, H, Seq<u8>>::Item(item)),
        request is Store ==> request.answered_by(
            BlobsReply::<I, E, H, Seq<u8>>::Stored { id, encoded: bytes },
        ),
        request is Decode ==> request.answered_by(BlobsReply::<I, E, H, Seq<u8>>::Decoded(id)),
        request is Decode ==> request.answered_by(BlobsReply::<I, E, H, Seq<u8>>::Malformed(error)),
        request is Fetch ==> request.answered_by(BlobsReply::<I, E, H, Seq<u8>>::Fetched(bytes)),
{
}

} // verus!
