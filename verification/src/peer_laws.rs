//! How peers find each other, on stores of cores that perform every request.

use vstd::prelude::*;

use crate::keys::{KeyError, PeerKeys, RawPeerKeys};
use crate::peer::{
    Core, CoreInfo, Peer, PeerError, PeerReply, PeerRequest, PlannedReply, PlannedRequest, Reader,
    Writer,
};
use crate::step::{Program, Request, Service, Step};

verus! {

/// A core in a store.
#[verifier::ext_equal]
pub struct StoredCore {
    /// Whether its secret key is there.
    pub writable: bool,
    /// Its blocks.
    pub blocks: Seq<Seq<u8>>,
}

/// A store of cores that performs every request.
pub struct CoreStore {
    /// The cores by their public keys.
    pub cores: Map<Seq<u8>, StoredCore>,
    /// The public key of the core with a name.
    pub named: spec_fn(Seq<char>) -> Seq<u8>,
    /// The core that is open in each role: the one that was opened for it last.
    pub open: Map<Core, Seq<u8>>,
    /// The core that a Hyperbee for the feed was set up on last.
    pub feed_on: Option<Seq<u8>>,
    /// The cores that keyed blobs were set up on last: that of the index, then that of the blobs.
    pub blobs_on: Option<(Seq<u8>, Seq<u8>)>,
    /// Whether the cores are replicated.
    pub replicating: bool,
    /// The blocks of cores that replication brings.
    pub remote: spec_fn(Seq<u8>) -> Seq<Seq<u8>>,
    /// How many milliseconds it takes replication to bring them.
    pub delay: nat,
    /// What the bytes of a bootstrap entry decode to.
    pub decode: spec_fn(Seq<u8>) -> Result<RawPeerKeys<Seq<char>>, serde_json::Error>,
}

/// The name that a core of the peer with the name `name` is stored under: the name of the peer,
/// followed by what tells the cores of a peer apart.
pub open spec fn stored_name(name: Seq<char>, core: Core) -> Seq<char> {
    name + match core {
        Core::Feed => ""@,
        Core::BlobKeys => "-blobKeys"@,
        Core::Blobs => "-blobs"@,
        Core::Keys => "-keys"@,
    }
}

impl CoreStore {
    /// The blocks of a core: none if the store does not have it.
    pub open spec fn blocks(self, key: Seq<u8>) -> Seq<Seq<u8>> {
        if self.cores.contains_key(key) {
            self.cores[key].blocks
        } else {
            Seq::empty()
        }
    }

    /// Whether the store has the secret key of a core.
    pub open spec fn writable(self, key: Seq<u8>) -> bool {
        self.cores.contains_key(key) && self.cores[key].writable
    }

    /// The lengths of the cores are numbers that a core can have.
    pub open spec fn valid(self) -> bool {
        forall|key: Seq<u8>| (#[trigger] self.blocks(key)).len() <= u64::MAX
    }

    /// What is known of the core with this key.
    pub open spec fn info(self, key: Seq<u8>) -> CoreInfo<Seq<u8>> {
        CoreInfo {
            public: key,
            writable: self.writable(key),
            length: self.blocks(key).len() as u64,
        }
    }

    /// The store after the core with this key was opened as `core`.
    pub open spec fn opened(self, core: Core, key: Seq<u8>, writable: bool) -> CoreStore {
        CoreStore {
            cores: self.cores.insert(key, StoredCore { writable, blocks: self.blocks(key) }),
            open: self.open.insert(core, key),
            ..self
        }
    }

    /// The core that is open as `core`, if one is.
    pub open spec fn open_as(self, core: Core) -> Option<Seq<u8>> {
        if self.open.contains_key(core) {
            Some(self.open[core])
        } else {
            None
        }
    }

    /// The blocks of a core that can be read: those in the store, or, if there are none, those that
    /// replication has brought.
    pub open spec fn readable(self, key: Seq<u8>) -> Seq<Seq<u8>> {
        if self.blocks(key).len() == 0 && self.replicating && self.delay == 0 {
            (self.remote)(key)
        } else {
            self.blocks(key)
        }
    }

    /// The store some milliseconds later.
    pub open spec fn later(self, millis: u64) -> CoreStore {
        CoreStore {
            delay: if millis < self.delay {
                (self.delay - millis) as nat
            } else {
                0
            },
            ..self
        }
    }

    /// The store after a block was appended to the `keys` core.
    pub open spec fn appended(self, block: Seq<u8>) -> CoreStore {
        let key = self.open[Core::Keys];
        CoreStore {
            cores: self.cores.insert(
                key,
                StoredCore {
                    writable: self.writable(key),
                    blocks: self.blocks(key).push(block),
                },
            ),
            ..self
        }
    }

    /// The public key of a core of the peer with this name.
    pub open spec fn key_of(self, name: Seq<char>, core: Core) -> Seq<u8> {
        (self.named)(stored_name(name, core))
    }

    /// The public keys of the peer with this name.
    pub open spec fn keys_of(self, name: Seq<char>) -> PeerKeys<Seq<u8>> {
        PeerKeys {
            feed: self.key_of(name, Core::Feed),
            blob_keys: self.key_of(name, Core::BlobKeys),
            blobs: self.key_of(name, Core::Blobs),
        }
    }

    /// The bootstrap entry of the peer with this name.
    pub open spec fn entry_of(self, name: Seq<char>) -> Seq<u8> {
        crate::keys::entry_text(self.keys_of(name).raw())
    }
}

impl<C, E, K, X> Service<PlannedRequest, PlannedReply<C, E, K, X>> for CoreStore {
    open spec fn serve(self, request: PlannedRequest) -> (PlannedReply<C, E, K, X>, CoreStore) {
        match request {
            PeerRequest::OpenNamed { core, name } => {
                let after = self.opened(core, (self.named)(name), true);
                (PeerReply::Opened(after.info((self.named)(name))), after)
            },
            PeerRequest::OpenKeyed { core, key } => {
                let after = self.opened(core, key, self.writable(key));
                (PeerReply::Opened(after.info(key)), after)
            },
            PeerRequest::Replicate => (
                PeerReply::Replicating,
                CoreStore { replicating: true, ..self },
            ),
            PeerRequest::AppendEntry { bytes } => (PeerReply::Appended, self.appended(bytes)),
            PeerRequest::ReadEntry => (
                PeerReply::Block(
                    if self.readable(self.open[Core::Keys]).len() == 0 {
                        None
                    } else {
                        Some(self.readable(self.open[Core::Keys])[0])
                    },
                ),
                self,
            ),
            PeerRequest::DecodeEntry { bytes } => match (self.decode)(bytes) {
                Ok(raw) => (PeerReply::Entry(raw), self),
                Err(error) => (PeerReply::Malformed(error), self),
            },
            PeerRequest::Wait { millis } => (PeerReply::Waited, self.later(millis)),
            PeerRequest::AttachFeed => (
                PeerReply::Attached,
                CoreStore { feed_on: self.open_as(Core::Feed), ..self },
            ),
            PeerRequest::AttachBlobs => (
                PeerReply::Attached,
                CoreStore {
                    blobs_on: match (self.open_as(Core::BlobKeys), self.open_as(Core::Blobs)) {
                        (Some(blob_keys), Some(blobs)) => Some((blob_keys, blobs)),
                        _ => None,
                    },
                    ..self
                },
            ),
        }
    }
}

/// How opening a peer ends, and the store afterwards.
pub open spec fn run_peer<C, E, K, X, S: Program<PlannedRequest, PlannedReply<C, E, K, X>>>(
    step: Step<PlannedRequest, S, S::Value, S::Failure>,
    store: CoreStore,
    limit: nat,
) -> Option<(Result<S::Value, S::Failure>, CoreStore)> {
    crate::step::run::<PlannedRequest, PlannedReply<C, E, K, X>, S, CoreStore>(step, store, limit)
}

/// The peer works on the cores that it reports: each is open in its role, the feed is set up on the
/// feed core, and the keyed blobs on the `blobKeys` and `blobs` cores.
pub open spec fn is_set_up(store: CoreStore, peer: Peer<Seq<u8>>) -> bool {
    &&& store.open_as(Core::Keys) == Some(peer.keys_core)
    &&& store.open_as(Core::Feed) == Some(peer.keys.feed)
    &&& store.open_as(Core::BlobKeys) == Some(peer.keys.blob_keys)
    &&& store.open_as(Core::Blobs) == Some(peer.keys.blobs)
    &&& store.feed_on == Some(peer.keys.feed)
    &&& store.blobs_on == Some((peer.keys.blob_keys, peer.keys.blobs))
}

/// The block is a bootstrap entry for these keys: JSON with the base64url text of each under the
/// name of its role.
pub open spec fn is_entry_for(block: Seq<u8>, keys: PeerKeys<Seq<u8>>) -> bool {
    crate::keys::entry_fields(block) matches Some(raw) && {
        &&& vstd::utf8::encode_utf8(raw.feed) == crate::base64url::base64url(keys.feed)
        &&& vstd::utf8::encode_utf8(raw.blob_keys) == crate::base64url::base64url(keys.blob_keys)
        &&& vstd::utf8::encode_utf8(raw.blobs) == crate::base64url::base64url(keys.blobs)
    }
}

/// Opening a writer gives a peer that is a writer, with the keys of its named cores, on which its
/// feed and its keyed blobs are set up, whatever the cores hold already. If the `keys` core was
/// empty it then holds the bootstrap entry for those keys, and nothing else. Otherwise it is left
/// as it was, as are the blocks of every other core. No other core is opened, and replication is
/// not begun.
pub proof fn law_writer<C, E, K, X>(store: CoreStore, name: Seq<char>)
    requires
        store.valid(),
    ensures
        run_peer::<C, E, K, X, Writer<Seq<char>, Seq<u8>>>(
            Writer::start::<C, E, K, X>(name),
            store,
            7,
        ) matches Some((Ok(peer), after)) && {
            let keys_core = store.key_of(name, Core::Keys);
            &&& peer == Peer::made(store.keys_of(name), keys_core, true)
            &&& after.blocks(keys_core) == if store.blocks(keys_core).len() == 0 {
                seq![store.entry_of(name)]
            } else {
                store.blocks(keys_core)
            }
            &&& forall|key: Seq<u8>|
                key != keys_core ==> #[trigger] after.blocks(key) == store.blocks(key)
            &&& after.named == store.named
            &&& after.decode == store.decode
            &&& after.valid()
            &&& peer.is_writer
            &&& peer.keys_core == (store.named)(name + "-keys"@)
            &&& peer.keys.feed == (store.named)(name)
            &&& peer.keys.blob_keys == (store.named)(name + "-blobKeys"@)
            &&& peer.keys.blobs == (store.named)(name + "-blobs"@)
            &&& is_set_up(after, peer)
            &&& store.blocks(keys_core).len() == 0 ==> is_entry_for(
                after.blocks(keys_core)[0],
                peer.keys,
            )
            &&& after.cores.dom() == store.cores.dom().insert(peer.keys.feed).insert(
                peer.keys.blob_keys,
            ).insert(peer.keys.blobs).insert(peer.keys_core)
            &&& after.replicating == store.replicating
            &&& after.delay == store.delay
        },
{
    reveal_with_fuel(crate::step::run, 8);
    let feed = store.key_of(name, Core::Feed);
    let blob_keys = store.key_of(name, Core::BlobKeys);
    let blobs = store.key_of(name, Core::Blobs);
    let keys_core = store.key_of(name, Core::Keys);
    let s1 = store.opened(Core::Feed, feed, true);
    let s2 = s1.opened(Core::BlobKeys, blob_keys, true);
    let s3 = s2.opened(Core::Blobs, blobs, true);
    let s4 = s3.opened(Core::Keys, keys_core, true);
    assert(forall|key: Seq<u8>| #[trigger] s4.blocks(key) == store.blocks(key));
    assert(store.blocks(keys_core).len() <= u64::MAX);
    law_core_names(name, Core::Feed);
    law_core_names(name, Core::BlobKeys);
    law_core_names(name, Core::Blobs);
    law_core_names(name, Core::Keys);
    crate::keys::law_entry_holds_keys(store.keys_of(name));
    reveal_strlit("");
    assert(name + ""@ =~= name);
    let s5 = s4.appended(store.entry_of(name));
    assert(s4.cores.dom() =~= store.cores.dom().insert(feed).insert(blob_keys).insert(blobs).insert(
        keys_core,
    ));
    assert(s5.cores.dom() =~= s4.cores.dom());
    let written = if store.blocks(keys_core).len() == 0 { s5 } else { s4 };
    let after = CoreStore { feed_on: Some(feed), blobs_on: Some((blob_keys, blobs)), ..written };
    assert(run_peer::<C, E, K, X, Writer<Seq<char>, Seq<u8>>>(
        Writer::start::<C, E, K, X>(name),
        store,
        7,
    ) == Some(
        (
            Ok::<Peer<Seq<u8>>, PeerError<C, E, K, X, Seq<u8>, ()>>(
                Peer::made(store.keys_of(name), keys_core, true),
            ),
            after,
        ),
    ));
    assert(Seq::<Seq<u8>>::empty().push(store.entry_of(name)) =~= seq![store.entry_of(name)]);
    assert(forall|key: Seq<u8>|
        key != keys_core ==> #[trigger] s5.blocks(key) == store.blocks(key));
    assert(store.blocks(keys_core).len() == 0 ==> store.blocks(keys_core) =~= Seq::empty());
    assert(forall|key: Seq<u8>| #[trigger] after.blocks(key) == written.blocks(key));
    assert(is_entry_for(store.entry_of(name), store.keys_of(name)));
    assert(after.valid());
}

/// The bootstrap entry is written once: opening the writer of the same name again gives the same
/// peer, set up as the first time, and leaves the blocks of every core as they are.
pub proof fn law_writer_bootstraps_once<C, E, K, X>(store: CoreStore, name: Seq<char>)
    requires
        store.valid(),
    ensures
        run_peer::<C, E, K, X, Writer<Seq<char>, Seq<u8>>>(
            Writer::start::<C, E, K, X>(name),
            store,
            7,
        ) matches Some((Ok(first), after)) && run_peer::<
            C,
            E,
            K,
            X,
            Writer<Seq<char>, Seq<u8>>,
        >(Writer::start::<C, E, K, X>(name), after, 7) matches Some((Ok(second), last)) && {
            &&& second == first
            &&& forall|key: Seq<u8>| #[trigger] last.blocks(key) == after.blocks(key)
            &&& is_set_up(last, second)
        },
{
    law_writer::<C, E, K, X>(store, name);
    let after = run_peer::<C, E, K, X, Writer<Seq<char>, Seq<u8>>>(
        Writer::start::<C, E, K, X>(name),
        store,
        7,
    ).unwrap().1;
    law_writer::<C, E, K, X>(after, name);
}

/// The error of opening a peer with a key that has this error.
pub open spec fn error_of<C, E, K, X>(error: KeyError<()>) -> PeerError<
    C,
    E,
    K,
    X,
    Seq<u8>,
    (),
> {
    match error {
        KeyError::KeyEncoding(fault) => PeerError::KeyEncoding(fault),
        KeyError::InvalidPublicKeyLength => PeerError::InvalidPublicKeyLength,
        KeyError::InvalidPublicKey(_) => PeerError::InvalidPublicKey(()),
    }
}

/// What a reader makes of a bootstrap entry: the peer with the keys in it, or why there is none.
pub open spec fn reader_result<C, E, K, X>(
    store: CoreStore,
    keys_core: Seq<u8>,
    entry: Seq<u8>,
) -> Result<Peer<Seq<u8>>, PeerError<C, E, K, X, Seq<u8>, ()>> {
    match (store.decode)(entry) {
        Err(error) => Err(PeerError::KeysEntryDecode(error)),
        Ok(raw) => match (
            crate::keys::decoded_key(raw.feed),
            crate::keys::decoded_key(raw.blob_keys),
            crate::keys::decoded_key(raw.blobs),
        ) {
            (Err(error), _, _) => Err(error_of(error)),
            (Ok(_), Err(error), _) => Err(error_of(error)),
            (Ok(_), Ok(_), Err(error)) => Err(error_of(error)),
            (Ok(feed), Ok(blob_keys), Ok(blobs)) => Ok(
                Peer {
                    keys: PeerKeys { feed, blob_keys, blobs },
                    keys_core,
                    is_writer: store.writable(feed),
                    feed: crate::feed::OrderedHyperbee {  },
                    keyed_blobs: crate::keyed_blobs::KeyedBlobs {  },
                },
            ),
        },
    }
}

/// What holds of a reader that was opened in `store` and found the bootstrap entry `entry`, when
/// the store is `after` then. What the entry gives decides the result. If that is a peer, it is set
/// up on the cores with the keys in the entry, which are opened, and no others. No block of any
/// core changes, and no core becomes writable.
pub open spec fn is_read<C, E, K, X>(
    store: CoreStore,
    keys_core: Seq<u8>,
    entry: Seq<u8>,
    result: Result<Peer<Seq<u8>>, PeerError<C, E, K, X, Seq<u8>, ()>>,
    after: CoreStore,
) -> bool {
    &&& result == reader_result::<C, E, K, X>(store, keys_core, entry)
    &&& forall|key: Seq<u8>| #[trigger] after.blocks(key) == store.blocks(key)
    &&& forall|key: Seq<u8>| #[trigger] after.writable(key) == store.writable(key)
    &&& after.replicating
    &&& after.open_as(Core::Keys) == Some(keys_core)
    &&& result matches Ok(peer) ==> {
        &&& is_set_up(after, peer)
        &&& peer.keys_core == keys_core
        &&& peer.is_writer == store.writable(peer.keys.feed)
        &&& after.cores.dom() == store.cores.dom().insert(keys_core).insert(peer.keys.feed).insert(
            peer.keys.blob_keys,
        ).insert(peer.keys.blobs)
    }
}

/// What a reader does with the entry once it can be read.
proof fn lemma_reader_reads<C, E, K, X>(store: CoreStore, keys_core: Seq<u8>)
    requires
        store.open_as(Core::Keys) == Some(keys_core),
        store.cores.contains_key(keys_core),
        store.replicating,
        store.readable(keys_core).len() > 0,
    ensures
        run_peer::<C, E, K, X, Reader<Seq<u8>>>(
            Step::Ask(PeerRequest::ReadEntry, Reader::Reading { keys_core }),
            store,
            7,
        ) matches Some((result, after)) && is_read::<C, E, K, X>(
            store,
            keys_core,
            store.readable(keys_core)[0],
            result,
            after,
        ),
{
    reveal_with_fuel(crate::step::run, 8);
    let entry = store.readable(keys_core)[0];
    if let Ok(raw) = (store.decode)(entry) {
        if let Ok(keys) = raw.keys() {
            let s2 = store.opened(Core::Feed, keys.feed, store.writable(keys.feed));
            let s3 = s2.opened(Core::BlobKeys, keys.blob_keys, s2.writable(keys.blob_keys));
            let s4 = s3.opened(Core::Blobs, keys.blobs, s3.writable(keys.blobs));
            assert(forall|key: Seq<u8>| #[trigger] s4.blocks(key) == store.blocks(key));
            assert(forall|key: Seq<u8>| #[trigger] s4.writable(key) == store.writable(key));
            assert(s4.cores.dom() =~= store.cores.dom().insert(keys_core).insert(keys.feed).insert(
                keys.blob_keys,
            ).insert(keys.blobs));
        }
    }
}

/// Opening a reader whose `keys` core has a first block gives the peer with the keys in that
/// block, which is a writer if and only if the store has the secret key of the feed core. Its feed
/// and its keyed blobs are set up on the cores with those keys. If the block does not decode, or
/// holds texts that are no keys, it gives the error for that. No block of any core changes.
pub proof fn law_reader<C, E, K, X>(store: CoreStore, keys_core: Seq<u8>)
    requires
        store.blocks(keys_core).len() > 0,
    ensures
        run_peer::<C, E, K, X, Reader<Seq<u8>>>(
            Reader::start::<C, E, K, X>(keys_core),
            store,
            9,
        ) matches Some((result, after)) && is_read::<C, E, K, X>(
            store,
            keys_core,
            store.blocks(keys_core)[0],
            result,
            after,
        ),
{
    reveal_with_fuel(crate::step::run, 3);
    let s1 = store.opened(Core::Keys, keys_core, store.writable(keys_core));
    let s2 = CoreStore { replicating: true, ..s1 };
    lemma_reader_reads::<C, E, K, X>(s2, keys_core);
    lemma_reader_opened::<C, E, K, X>(store, s2, keys_core);
    assert(s2.cores.dom().insert(keys_core) =~= s2.cores.dom());
}

/// Opening the `keys` core changes nothing about what a reader gives.
proof fn lemma_reader_opened<C, E, K, X>(store: CoreStore, opened: CoreStore, keys_core: Seq<u8>)
    requires
        opened.cores == store.opened(Core::Keys, keys_core, store.writable(keys_core)).cores,
        opened.decode == store.decode,
    ensures
        forall|key: Seq<u8>| #[trigger] opened.blocks(key) == store.blocks(key),
        forall|key: Seq<u8>| #[trigger] opened.writable(key) == store.writable(key),
        forall|entry: Seq<u8>| #[trigger]
            reader_result::<C, E, K, X>(opened, keys_core, entry) == reader_result::<C, E, K, X>(
                store,
                keys_core,
                entry,
            ),
        opened.cores.dom() == store.cores.dom().insert(keys_core),
        opened.cores.contains_key(keys_core),
{
    assert(opened.cores.dom() =~= store.cores.dom().insert(keys_core));
    assert forall|key: Seq<u8>| #[trigger] opened.writable(key) == store.writable(key) by {
        assert(opened.cores.contains_key(key) || !opened.cores.contains_key(key));
    }
    assert forall|entry: Seq<u8>| #[trigger]
        reader_result::<C, E, K, X>(opened, keys_core, entry) == reader_result::<C, E, K, X>(
            store,
            keys_core,
            entry,
        ) by {
        assert(forall|key: Seq<u8>| #[trigger] opened.writable(key) == store.writable(key));
    }
}

/// How often a reader looks in vain for blocks that take so many milliseconds to come.
pub open spec fn vain_looks(delay: nat) -> nat {
    ((delay + 24) / 25) as nat
}

/// A reader waits for the entry, and reads it then.
proof fn lemma_reader_waits<C, E, K, X>(store: CoreStore, keys_core: Seq<u8>)
    requires
        store.open_as(Core::Keys) == Some(keys_core),
        store.cores.contains_key(keys_core),
        store.replicating,
        store.blocks(keys_core).len() == 0,
        (store.remote)(keys_core).len() > 0,
    ensures
        run_peer::<C, E, K, X, Reader<Seq<u8>>>(
            Step::Ask(PeerRequest::ReadEntry, Reader::Reading { keys_core }),
            store,
            7 + 2 * vain_looks(store.delay),
        ) matches Some((result, after)) && is_read::<C, E, K, X>(
            store,
            keys_core,
            (store.remote)(keys_core)[0],
            result,
            after,
        ),
    decreases store.delay,
{
    if store.delay == 0 {
        lemma_reader_reads::<C, E, K, X>(store, keys_core);
    } else {
        let later = store.later(25);
        reveal_with_fuel(crate::step::run, 3);
        lemma_reader_waits::<C, E, K, X>(later, keys_core);
        assert(vain_looks(store.delay) == vain_looks(later.delay) + 1);
        assert(forall|key: Seq<u8>| #[trigger] later.blocks(key) == store.blocks(key));
        assert(forall|key: Seq<u8>| #[trigger] later.writable(key) == store.writable(key));
        assert(reader_result::<C, E, K, X>(later, keys_core, (store.remote)(keys_core)[0])
            == reader_result::<C, E, K, X>(store, keys_core, (store.remote)(keys_core)[0]));
    }
}

/// Opening a reader whose `keys` core is empty begins replication and waits for the first block of
/// that core, however long it takes to come. It looks every 25 milliseconds, and goes on with the
/// block when it is there as if it had been there from the start.
pub proof fn law_reader_waits_for_entry<C, E, K, X>(store: CoreStore, keys_core: Seq<u8>)
    requires
        store.blocks(keys_core).len() == 0,
        (store.remote)(keys_core).len() > 0,
    ensures
        run_peer::<C, E, K, X, Reader<Seq<u8>>>(
            Reader::start::<C, E, K, X>(keys_core),
            store,
            9 + 2 * vain_looks(store.delay),
        ) matches Some((result, after)) && is_read::<C, E, K, X>(
            store,
            keys_core,
            (store.remote)(keys_core)[0],
            result,
            after,
        ),
{
    reveal_with_fuel(crate::step::run, 3);
    let s1 = store.opened(Core::Keys, keys_core, store.writable(keys_core));
    let s2 = CoreStore { replicating: true, ..s1 };
    lemma_reader_waits::<C, E, K, X>(s2, keys_core);
    lemma_reader_opened::<C, E, K, X>(store, s2, keys_core);
    assert(s2.cores.dom().insert(keys_core) =~= s2.cores.dom());
}

/// A reader that knows only the key of a writer's `keys` core finds the writer's keys, once the
/// writer's `keys` core has reached its store, if its store reads the JSON of the bootstrap entry
/// as the texts that stand in it. The writer is a writer. The reader is one only if its store has
/// the secret key of the feed core.
pub proof fn law_reader_discovers_writer<C, E, K, X>(
    writers: CoreStore,
    name: Seq<char>,
    readers: CoreStore,
)
    requires
        writers.valid(),
        writers.blocks(writers.key_of(name, Core::Keys)).len() == 0,
        readers.blocks(writers.key_of(name, Core::Keys)) == seq![writers.entry_of(name)],
        (readers.decode)(writers.entry_of(name)) == Ok::<
            RawPeerKeys<Seq<char>>,
            serde_json::Error,
        >(writers.keys_of(name).raw()),
    ensures
        writers.keys_of(name).are_public_keys() ==> {
            &&& run_peer::<C, E, K, X, Writer<Seq<char>, Seq<u8>>>(
                Writer::start::<C, E, K, X>(name),
                writers,
                7,
            ) matches Some((Ok(writer), after))
            &&& after.blocks(writer.keys_core) == readers.blocks(writer.keys_core)
            &&& run_peer::<C, E, K, X, Reader<Seq<u8>>>(
                Reader::start::<C, E, K, X>(writer.keys_core),
                readers,
                9,
            ) matches Some((Ok(reader), _))
            &&& reader.keys == writer.keys
            &&& reader.keys_core == writer.keys_core
            &&& writer.is_writer
            &&& reader.is_writer == readers.writable(writer.keys.feed)
        },
{
    law_writer::<C, E, K, X>(writers, name);
    law_reader::<C, E, K, X>(readers, writers.key_of(name, Core::Keys));
    crate::keys::law_peer_keys_round_trip(writers.keys_of(name));
}

/// The store reads JSON: bytes that hold texts as a bootstrap entry does, of base64url symbols
/// alone, decode to those texts.
pub open spec fn reads_json(store: CoreStore) -> bool {
    forall|bytes: Seq<u8>| #[trigger]
        crate::keys::entry_fields(bytes) matches Some(raw) ==> raw.are_plain() ==> (store.decode)(
            bytes,
        ) == Ok::<RawPeerKeys<Seq<char>>, serde_json::Error>(raw)
}

/// A reader in another store, to which replication brings what the writer's store holds, becomes a
/// peer of the writer: it has the writer's keys, and its feed and its keyed blobs are set up on the
/// very cores that the writer's are set up on, each in its role. The writer can append to them. The
/// reader can only if its store has the secret key.
pub proof fn law_reader_shares_cores_of_writer<C, E, K, X>(
    writers: CoreStore,
    name: Seq<char>,
    readers: CoreStore,
)
    requires
        writers.valid(),
        writers.blocks(writers.key_of(name, Core::Keys)).len() == 0,
        writers.keys_of(name).are_public_keys(),
        readers.blocks(writers.key_of(name, Core::Keys)).len() == 0,
        reads_json(readers),
    ensures
        run_peer::<C, E, K, X, Writer<Seq<char>, Seq<u8>>>(
            Writer::start::<C, E, K, X>(name),
            writers,
            7,
        ) matches Some((Ok(writer), at_writer)) && ((readers.remote)(writer.keys_core)
            == at_writer.blocks(writer.keys_core) ==> {
            &&& run_peer::<C, E, K, X, Reader<Seq<u8>>>(
                Reader::start::<C, E, K, X>(writer.keys_core),
                readers,
                9 + 2 * vain_looks(readers.delay),
            ) matches Some((Ok(reader), at_reader))
            &&& reader.keys == writer.keys
            &&& reader.keys_core == writer.keys_core
            &&& is_set_up(at_writer, writer)
            &&& is_set_up(at_reader, reader)
            &&& at_reader.feed_on == at_writer.feed_on
            &&& at_reader.blobs_on == at_writer.blobs_on
            &&& at_reader.replicating
            &&& writer.is_writer
            &&& reader.is_writer == readers.writable(writer.keys.feed)
        }),
{
    let keys_core = writers.key_of(name, Core::Keys);
    let keys = writers.keys_of(name);
    law_writer::<C, E, K, X>(writers, name);
    let at_writer = run_peer::<C, E, K, X, Writer<Seq<char>, Seq<u8>>>(
        Writer::start::<C, E, K, X>(name),
        writers,
        7,
    ).unwrap().1;
    if (readers.remote)(keys_core) == at_writer.blocks(keys_core) {
        let entry = (readers.remote)(keys_core)[0];
        assert(entry == writers.entry_of(name));
        law_reader_waits_for_entry::<C, E, K, X>(readers, keys_core);
        crate::keys::law_key_texts_are_unquoted(keys.feed);
        crate::keys::law_key_texts_are_unquoted(keys.blob_keys);
        crate::keys::law_key_texts_are_unquoted(keys.blobs);
        crate::keys::law_entry_holds_texts(keys.raw());
        crate::keys::law_keys_are_plain(keys);
        assert((readers.decode)(entry) == Ok::<RawPeerKeys<Seq<char>>, serde_json::Error>(
            keys.raw(),
        ));
        crate::keys::law_key_round_trip(keys.feed);
        crate::keys::law_key_round_trip(keys.blob_keys);
        crate::keys::law_key_round_trip(keys.blobs);
    }
}

/// Answers to requests, given one after the other whatever is asked for.
#[verifier::reject_recursive_types(C)]
#[verifier::reject_recursive_types(E)]
#[verifier::reject_recursive_types(K)]
#[verifier::reject_recursive_types(X)]
pub struct Answers<C, E, K, X> {
    /// The answers that are left.
    pub replies: Seq<PlannedReply<C, E, K, X>>,
}

impl<C, E, K, X> Service<PlannedRequest, PlannedReply<C, E, K, X>> for Answers<C, E, K, X> {
    open spec fn serve(self, request: PlannedRequest) -> (
        PlannedReply<C, E, K, X>,
        Answers<C, E, K, X>,
    ) {
        (self.replies[0], Answers { replies: self.replies.skip(1) })
    }
}

/// A writer is what it is told of its cores: its keys are theirs, and it can append to the feed if
/// and only if the secret key of the feed core is there, whatever holds of the other cores.
pub proof fn law_writer_is_what_it_is_told<C, E, K, X>(
    name: Seq<char>,
    feed: CoreInfo<Seq<u8>>,
    blob_keys: CoreInfo<Seq<u8>>,
    blobs: CoreInfo<Seq<u8>>,
    keys_core: CoreInfo<Seq<u8>>,
)
    ensures
        ({
            let opened = seq![
                PlannedReply::<C, E, K, X>::Opened(feed),
                PeerReply::Opened(blob_keys),
                PeerReply::Opened(blobs),
                PeerReply::Opened(keys_core),
            ];
            let appended = if keys_core.length == 0 {
                opened.push(PeerReply::Appended)
            } else {
                opened
            };
            crate::step::run::<
                PlannedRequest,
                PlannedReply<C, E, K, X>,
                Writer<Seq<char>, Seq<u8>>,
                Answers<C, E, K, X>,
            >(
                Writer::start::<C, E, K, X>(name),
                Answers { replies: appended.push(PeerReply::Attached).push(PeerReply::Attached) },
                appended.len() + 2,
            ) matches Some((Ok(peer), _)) && {
                &&& peer.keys.feed == feed.public
                &&& peer.keys.blob_keys == blob_keys.public
                &&& peer.keys.blobs == blobs.public
                &&& peer.keys_core == keys_core.public
                &&& peer.is_writer == feed.writable
            }
        }),
{
    reveal_with_fuel(crate::step::run, 8);
}

/// A reader can append to the feed if and only if it is told that the secret key of the feed core
/// is there, whatever it is told of the other cores.
pub proof fn law_reader_is_what_it_is_told<C, E, K, X>(
    key: Seq<u8>,
    keys_core: CoreInfo<Seq<u8>>,
    entry: Seq<u8>,
    raw: RawPeerKeys<Seq<char>>,
    feed: CoreInfo<Seq<u8>>,
    blob_keys: CoreInfo<Seq<u8>>,
    blobs: CoreInfo<Seq<u8>>,
)
    requires
        crate::keys::decoded_key(raw.feed) is Ok,
        crate::keys::decoded_key(raw.blob_keys) is Ok,
        crate::keys::decoded_key(raw.blobs) is Ok,
    ensures
        crate::step::run::<
            PlannedRequest,
            PlannedReply<C, E, K, X>,
            Reader<Seq<u8>>,
            Answers<C, E, K, X>,
        >(
            Reader::start::<C, E, K, X>(key),
            Answers {
                replies: seq![
                    PeerReply::Opened(keys_core),
                    PeerReply::Replicating,
                    PeerReply::Block(Some(entry)),
                    PeerReply::Entry(raw),
                    PeerReply::Opened(feed),
                    PeerReply::Opened(blob_keys),
                    PeerReply::Opened(blobs),
                    PeerReply::Attached,
                    PeerReply::Attached,
                ],
            },
            9,
        ) matches Some((Ok(peer), _)) && {
            &&& Ok::<Seq<u8>, KeyError<()>>(peer.keys.feed) == crate::keys::decoded_key(raw.feed)
            &&& Ok::<Seq<u8>, KeyError<()>>(peer.keys.blob_keys) == crate::keys::decoded_key(
                raw.blob_keys,
            )
            &&& Ok::<Seq<u8>, KeyError<()>>(peer.keys.blobs) == crate::keys::decoded_key(raw.blobs)
            &&& peer.keys_core == keys_core.public
            &&& peer.is_writer == feed.writable
        },
{
    reveal_with_fuel(crate::step::run, 10);
}

/// Where a reader stands that looked for the bootstrap entry in vain `rounds` times, and waited
/// each time.
pub open spec fn after_waiting<C, E, K, X>(
    step: Step<
        PlannedRequest,
        Reader<Seq<u8>>,
        Peer<Seq<u8>>,
        PeerError<C, E, K, X, Seq<u8>, ()>,
    >,
    rounds: nat,
) -> Step<PlannedRequest, Reader<Seq<u8>>, Peer<Seq<u8>>, PeerError<C, E, K, X, Seq<u8>, ()>>
    decreases rounds,
{
    if rounds == 0 {
        step
    } else {
        match step {
            Step::Ask(PeerRequest::ReadEntry, reader) => match reader.next(
                PeerReply::<C, E, K, X, Seq<char>, Seq<u8>, Seq<u8>>::Block(None),
            ) {
                Step::Ask(PeerRequest::Wait { millis }, reader) if millis == 25 => after_waiting(
                    reader.next(PeerReply::<C, E, K, X, Seq<char>, Seq<u8>, Seq<u8>>::Waited),
                    (rounds - 1) as nat,
                ),
                other => other,
            },
            other => other,
        }
    }
}

/// As long as the bootstrap entry is not there, a reader waits and looks again. However often it
/// did, it stands where it stood.
pub proof fn law_reader_waits<C, E, K, X>(keys_core: Seq<u8>, rounds: nat)
    ensures
        after_waiting::<C, E, K, X>(
            Step::Ask(PeerRequest::ReadEntry, Reader::Reading { keys_core }),
            rounds,
        ) == Step::<
            PlannedRequest,
            Reader<Seq<u8>>,
            Peer<Seq<u8>>,
            PeerError<C, E, K, X, Seq<u8>, ()>,
        >::Ask(PeerRequest::ReadEntry, Reader::Reading { keys_core }),
    decreases rounds,
{
    if rounds > 0 {
        law_reader_waits::<C, E, K, X>(keys_core, (rounds - 1) as nat);
    }
}

/// The name of a core of a peer is the name of the peer, followed by `-blobKeys`, `-blobs` or
/// `-keys`, or by nothing for the feed core.
pub proof fn law_core_names(name: Seq<char>, core: Core)
    ensures
        crate::peer::core_name(name, core) == stored_name(name, core),
{
    reveal_strlit("");
    assert(crate::peer::core_name(name, core) =~= stored_name(name, core));
}

/// Peers with different names have different cores in each role.
pub proof fn law_core_names_of_peers_differ(a: Seq<char>, b: Seq<char>, core: Core)
    requires
        a != b,
    ensures
        crate::peer::core_name(a, core) != crate::peer::core_name(b, core),
{
    law_core_names(a, core);
    law_core_names(b, core);
    if stored_name(a, core) == stored_name(b, core) {
        assert(stored_name(a, core).len() == stored_name(b, core).len());
        assert(stored_name(a, core).take(a.len() as int) =~= a);
        assert(stored_name(b, core).take(b.len() as int) =~= b);
    }
}

/// Writers with different names, in a store that gives different cores to different names, have
/// different keys in each role, so that neither is found by the key of the other.
pub proof fn law_writers_differ<C, E, K, X>(store: CoreStore, a: Seq<char>, b: Seq<char>)
    requires
        store.valid(),
        a != b,
        forall|x: Seq<char>, y: Seq<char>|
            x != y ==> #[trigger] (store.named)(x) != #[trigger] (store.named)(y),
    ensures
        run_peer::<C, E, K, X, Writer<Seq<char>, Seq<u8>>>(
            Writer::start::<C, E, K, X>(a),
            store,
            7,
        ) matches Some((Ok(first), after)) && run_peer::<
            C,
            E,
            K,
            X,
            Writer<Seq<char>, Seq<u8>>,
        >(Writer::start::<C, E, K, X>(b), after, 7) matches Some((Ok(second), _)) && {
            &&& first.keys_core != second.keys_core
            &&& first.keys.feed != second.keys.feed
            &&& first.keys.blob_keys != second.keys.blob_keys
            &&& first.keys.blobs != second.keys.blobs
        },
{
    law_writer::<C, E, K, X>(store, a);
    let after = run_peer::<C, E, K, X, Writer<Seq<char>, Seq<u8>>>(
        Writer::start::<C, E, K, X>(a),
        store,
        7,
    ).unwrap().1;
    law_writer::<C, E, K, X>(after, b);
    law_core_names_of_peers_differ(a, b, Core::Feed);
    law_core_names_of_peers_differ(a, b, Core::BlobKeys);
    law_core_names_of_peers_differ(a, b, Core::Blobs);
    law_core_names_of_peers_differ(a, b, Core::Keys);
    law_core_names(a, Core::BlobKeys);
    law_core_names(a, Core::Blobs);
    law_core_names(a, Core::Keys);
    law_core_names(b, Core::BlobKeys);
    law_core_names(b, Core::Blobs);
    law_core_names(b, Core::Keys);
}

/// The four cores of a peer have different names.
pub proof fn law_core_names_differ(name: Seq<char>, a: Core, b: Core)
    requires
        a != b,
    ensures
        crate::peer::core_name(name, a) != crate::peer::core_name(name, b),
{
    reveal_strlit("-blobKeys");
    reveal_strlit("-blobs");
    reveal_strlit("-keys");
    assert(crate::peer::core_name(name, a).len() != crate::peer::core_name(name, b).len());
}

/// A failure that opening a peer can meet ends it with `error`, and nothing more is asked for.
pub open spec fn ends_with<
    C,
    E,
    K,
    X,
    S: Program<
        PlannedRequest,
        PlannedReply<C, E, K, X>,
        Value = Peer<Seq<u8>>,
        Failure = PeerError<C, E, K, X, Seq<u8>, ()>,
    >,
>(
    state: S,
    failure: PlannedReply<C, E, K, X>,
    error: PeerError<C, E, K, X, Seq<u8>, ()>,
) -> bool {
    state.expects(failure) ==> state.next(failure) == Step::<
        PlannedRequest,
        S,
        Peer<Seq<u8>>,
        PeerError<C, E, K, X, Seq<u8>, ()>,
    >::Done(Err(error))
}

/// Where the store, the `keys` core, the feed or the blobs fail, opening a peer ends with the
/// error that stands for it.
pub proof fn law_failure_ends_opening<C, E, K, X>(
    writer: Writer<Seq<char>, Seq<u8>>,
    reader: Reader<Seq<u8>>,
    store_error: C,
    core_error: X,
    feed_error: E,
    blobs_error: K,
)
    ensures
        ends_with::<C, E, K, X, _>(
            writer,
            PeerReply::StoreFailed(store_error),
            PeerError::Corestore(store_error),
        ),
        ends_with::<C, E, K, X, _>(
            reader,
            PeerReply::StoreFailed(store_error),
            PeerError::Corestore(store_error),
        ),
        ends_with::<C, E, K, X, _>(
            writer,
            PeerReply::CoreFailed(core_error),
            PeerError::Hypercore(core_error),
        ),
        ends_with::<C, E, K, X, _>(
            reader,
            PeerReply::CoreFailed(core_error),
            PeerError::Hypercore(core_error),
        ),
        ends_with::<C, E, K, X, _>(
            writer,
            PeerReply::FeedFailed(feed_error),
            PeerError::Hyperbee(feed_error),
        ),
        ends_with::<C, E, K, X, _>(
            reader,
            PeerReply::FeedFailed(feed_error),
            PeerError::Hyperbee(feed_error),
        ),
        ends_with::<C, E, K, X, _>(
            writer,
            PeerReply::BlobsFailed(blobs_error),
            PeerError::KeyedBlobs(blobs_error),
        ),
        ends_with::<C, E, K, X, _>(
            reader,
            PeerReply::BlobsFailed(blobs_error),
            PeerError::KeyedBlobs(blobs_error),
        ),
{
}

/// Opening a peer begins with a request from whose every reply it goes on.
pub proof fn law_peers_are_answerable<C, E, K, X>(name: Seq<char>, key: Seq<u8>)
    ensures
        crate::step::answerable::<
            PlannedRequest,
            PlannedReply<C, E, K, X>,
            Writer<Seq<char>, Seq<u8>>,
        >(Writer::start::<C, E, K, X>(name)),
        crate::step::answerable::<PlannedRequest, PlannedReply<C, E, K, X>, Reader<Seq<u8>>>(
            Reader::start::<C, E, K, X>(key),
        ),
{
}

/// The contents of an error, of a peer, of a request and of a reply are those of their parts. The
/// error of bytes that are no point of the curve is left out.
pub proof fn law_contents<C, E, K, X>(
    error: PeerError<C, E, K, X>,
    peer: Peer,
    request: PeerRequest,
    reply: PeerReply<C, E, K, X>,
)
    ensures
        error.deep_view() == match error {
            PeerError::Corestore(error) => PeerError::<C, E, K, X, Seq<u8>, ()>::Corestore(error),
            PeerError::Feed(error) => PeerError::Feed(error.deep_view()),
            PeerError::Hyperbee(error) => PeerError::Hyperbee(error),
            PeerError::KeyedBlobs(error) => PeerError::KeyedBlobs(error),
            PeerError::Hypercore(error) => PeerError::Hypercore(error),
            PeerError::KeysEntryDecode(error) => PeerError::KeysEntryDecode(error),
            PeerError::KeyEncoding(fault) => PeerError::KeyEncoding(fault),
            PeerError::InvalidPublicKeyLength => PeerError::InvalidPublicKeyLength,
            PeerError::InvalidPublicKey(_) => PeerError::InvalidPublicKey(()),
        },
        peer.deep_view().keys.feed == peer.keys.feed@,
        peer.deep_view().keys.blob_keys == peer.keys.blob_keys@,
        peer.deep_view().keys.blobs == peer.keys.blobs@,
        peer.deep_view().keys_core == peer.keys_core@,
        peer.deep_view().is_writer == peer.is_writer,
        request.deep_view() == match request {
            PeerRequest::OpenNamed { core, name } => PlannedRequest::OpenNamed {
                core,
                name: name@,
            },
            PeerRequest::OpenKeyed { core, key } => PeerRequest::OpenKeyed { core, key: key@ },
            PeerRequest::Replicate => PeerRequest::Replicate,
            PeerRequest::AppendEntry { bytes } => PeerRequest::AppendEntry { bytes: bytes@ },
            PeerRequest::ReadEntry => PeerRequest::ReadEntry,
            PeerRequest::DecodeEntry { bytes } => PeerRequest::DecodeEntry { bytes: bytes@ },
            PeerRequest::Wait { millis } => PeerRequest::Wait { millis },
            PeerRequest::AttachFeed => PeerRequest::AttachFeed,
            PeerRequest::AttachBlobs => PeerRequest::AttachBlobs,
        },
        reply.deep_view() == match reply {
            PeerReply::Opened(info) => PlannedReply::<C, E, K, X>::Opened(
                CoreInfo {
                    public: info.public@,
                    writable: info.writable,
                    length: info.length,
                },
            ),
            PeerReply::Replicating => PeerReply::Replicating,
            PeerReply::Appended => PeerReply::Appended,
            PeerReply::Block(block) => PeerReply::Block(crate::bee::optional_bytes(block)),
            PeerReply::Entry(raw) => PeerReply::Entry(
                RawPeerKeys {
                    feed: raw.feed@,
                    blob_keys: raw.blob_keys@,
                    blobs: raw.blobs@,
                },
            ),
            PeerReply::Malformed(error) => PeerReply::Malformed(error),
            PeerReply::Waited => PeerReply::Waited,
            PeerReply::Attached => PeerReply::Attached,
            PeerReply::StoreFailed(error) => PeerReply::StoreFailed(error),
            PeerReply::CoreFailed(error) => PeerReply::CoreFailed(error),
            PeerReply::FeedFailed(error) => PeerReply::FeedFailed(error),
            PeerReply::BlobsFailed(error) => PeerReply::BlobsFailed(error),
        },
{
    broadcast use crate::bytes::lemma_bytes_contents;

}

/// Which replies answer a request: the failure that the request names, and a reply of the kind that
/// it names whatever that holds. Of the texts of an entry, those that are too long to be decoded are
/// left out.
pub proof fn law_answers<C, E, K, X>(
    request: PlannedRequest,
    store_error: C,
    core_error: X,
    feed_error: E,
    blobs_error: K,
    info: CoreInfo<Seq<u8>>,
    block: Option<Seq<u8>>,
    raw: RawPeerKeys<Seq<char>>,
    error: serde_json::Error,
)
    ensures
        request is OpenNamed || request is OpenKeyed ==> {
            &&& request.answered_by(PlannedReply::<C, E, K, X>::Opened(info))
            &&& request.answered_by(PlannedReply::<C, E, K, X>::StoreFailed(store_error))
        },
        request is Replicate ==> request.answered_by(PlannedReply::<C, E, K, X>::Replicating),
        request is AppendEntry ==> {
            &&& request.answered_by(PlannedReply::<C, E, K, X>::Appended)
            &&& request.answered_by(PlannedReply::<C, E, K, X>::CoreFailed(core_error))
        },
        request is ReadEntry ==> {
            &&& request.answered_by(PlannedReply::<C, E, K, X>::Block(block))
            &&& request.answered_by(PlannedReply::<C, E, K, X>::CoreFailed(core_error))
        },
        request is DecodeEntry ==> {
            &&& raw.fit() ==> request.answered_by(PlannedReply::<C, E, K, X>::Entry(raw))
            &&& request.answered_by(PlannedReply::<C, E, K, X>::Malformed(error))
        },
        request is Wait ==> request.answered_by(PlannedReply::<C, E, K, X>::Waited),
        request is AttachFeed ==> {
            &&& request.answered_by(PlannedReply::<C, E, K, X>::Attached)
            &&& request.answered_by(PlannedReply::<C, E, K, X>::FeedFailed(feed_error))
        },
        request is AttachBlobs ==> {
            &&& request.answered_by(PlannedReply::<C, E, K, X>::Attached)
            &&& request.answered_by(PlannedReply::<C, E, K, X>::BlobsFailed(blobs_error))
        },
{
}

/// What a reader goes on to when it has the keys of the bootstrap entry, or why it has none: the
/// core with the key of the feed is opened for the feed, or the error for that key ends it.
pub proof fn law_reader_learned<C, E, K, X>(
    keys_core: Seq<u8>,
    keys: Result<PeerKeys<Seq<u8>>, KeyError<()>>,
)
    ensures
        match keys {
            Ok(keys) => Reader::learned::<C, E, K, X>(keys_core, Ok(keys)) == Step::<
                PlannedRequest,
                Reader<Seq<u8>>,
                Peer<Seq<u8>>,
                PeerError<C, E, K, X, Seq<u8>, ()>,
            >::Ask(
                PeerRequest::OpenKeyed { core: Core::Feed, key: keys.feed },
                Reader::OpeningFeed { keys_core, keys },
            ),
            Err(error) => Reader::learned::<C, E, K, X>(keys_core, Err(error)) == Step::<
                PlannedRequest,
                Reader<Seq<u8>>,
                Peer<Seq<u8>>,
                PeerError<C, E, K, X, Seq<u8>, ()>,
            >::Done(Err(error_of(error))),
        },
{
}

} // verus!
