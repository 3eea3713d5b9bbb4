//! Peer-to-peer RSS on Hypercore: a feed that keeps the order of insertion, a store of blobs by
//! keys, and the peers that hold the two.
//!
//! [`OrderedHyperbee`] is the feed, [`KeyedBlobs`] the blobs, and [`Peer`] a writer or a reader of
//! both. Their methods start operations that ask a driver for what they need, one request at a
//! time; [`step`] says how. What each operation asks for and ends with is its contract. What the
//! operations do together, on stores that perform every request, is stated in [`feed_laws`],
//! [`keyed_blobs_laws`] and [`peer_laws`].

pub mod base64url;
pub mod bee;
pub mod bytes;
pub mod feed;
pub mod feed_laws;
pub mod keyed_blobs;
pub mod keyed_blobs_laws;
pub mod keys;
pub mod listing;
pub mod order;
pub mod peer;
pub mod peer_laws;
pub mod ranking;
pub mod step;

pub use feed::{FeedEntry, FeedError, OrderedHyperbee};
pub use keyed_blobs::{KeyedBlobs, KeyedBlobsError};
pub use keys::PeerKeys;
pub use peer::{Peer, PeerError};
