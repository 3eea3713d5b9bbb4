//! Public keys, and the three of them by which the cores of a peer are found.

use vstd::prelude::*;
use vstd::string::StringExecFns;

use crate::base64url::Fault;
use crate::bytes::copy_bytes;

verus! {

/// The error of a key that is no point of the curve. The library carries it and reads nothing of
/// it.
#[verifier::external_type_specification]
#[verifier::external_body]
pub struct ExSignatureError(signature::Error);

/// Whether these 32 bytes are the compressed form of a point of the ed25519 curve, as
/// `hypercore::VerifyingKey::from_bytes` decides it.
pub uninterp spec fn is_public_key(bytes: Seq<u8>) -> bool;

/// `hypercore::VerifyingKey::from_bytes`, which keeps the bytes it is given and fails if they are
/// not the compressed form of a point of the curve. Nothing is said of what the error holds.
#[verifier::external_body]
fn check_point(bytes: &[u8; 32]) -> (checked: Result<(), signature::Error>)
    ensures
        checked is Ok == is_public_key(bytes@),
{
    hypercore::VerifyingKey::from_bytes(bytes).map(|_| ())
}

/// The public key of a core: 32 bytes that are a point of the ed25519 curve.
#[derive(Clone, Copy, Debug, PartialEq, Eq)]
pub struct PublicKey {
    bytes: [u8; 32],
}

impl View for PublicKey {
    type V = Seq<u8>;

    closed spec fn view(&self) -> Seq<u8> {
        self.bytes@
    }
}

impl DeepView for PublicKey {
    type V = Seq<u8>;

    open spec fn deep_view(&self) -> Seq<u8> {
        self@
    }
}

impl PublicKey {
    #[verifier::type_invariant]
    spec fn is_point(self) -> bool {
        is_public_key(self.bytes@)
    }

    /// The key with these bytes, if they are one.
    pub fn from_bytes(bytes: &[u8; 32]) -> (key: Result<PublicKey, signature::Error>)
        ensures
            key is Ok == is_public_key(bytes@),
            key matches Ok(key) ==> key@ == bytes@,
    {
        match check_point(bytes) {
            Ok(()) => Ok(PublicKey { bytes: *bytes }),
            Err(error) => Err(error),
        }
    }

    /// The bytes of the key.
    pub fn as_bytes(&self) -> (bytes: &[u8; 32])
        ensures
            bytes@ == self@,
            self@.len() == 32,
            is_public_key(self@),
    {
        proof {
            use_type_invariant(self);
        }
        &self.bytes
    }
}

/// Why a text is no public key. `G` is the error of bytes that are no point; only that it comes
/// is stated, so it is left out of the contents of an error.
#[derive(Debug)]
pub enum KeyError<G = signature::Error> {
    /// The text is no base64url.
    KeyEncoding(Fault),
    /// The text is not 32 bytes.
    InvalidPublicKeyLength,
    /// The bytes are no point of the curve.
    InvalidPublicKey(G),
}

impl DeepView for KeyError {
    type V = KeyError<()>;

    open spec fn deep_view(&self) -> KeyError<()> {
        match self {
            KeyError::KeyEncoding(fault) => KeyError::KeyEncoding(*fault),
            KeyError::InvalidPublicKeyLength => KeyError::InvalidPublicKeyLength,
            KeyError::InvalidPublicKey(_) => KeyError::InvalidPublicKey(()),
        }
    }
}

/// The text of a key.
pub open spec fn encoded_key(key: Seq<u8>) -> Seq<char> {
    crate::base64url::characters(crate::base64url::base64url(key))
}

/// The key with a given text, or why there is none.
pub open spec fn decoded_key(text: Seq<char>) -> Result<Seq<u8>, KeyError<()>> {
    match crate::base64url::decoded(vstd::utf8::encode_utf8(text)) {
        Err(fault) => Err(KeyError::KeyEncoding(fault)),
        Ok(bytes) => if bytes.len() != 32 {
            Err(KeyError::InvalidPublicKeyLength)
        } else if !is_public_key(bytes) {
            Err(KeyError::InvalidPublicKey(()))
        } else {
            Ok(bytes)
        },
    }
}

/// The text is short enough to be decoded.
pub open spec fn text_fits(text: Seq<char>) -> bool {
    vstd::utf8::encode_utf8(text).len() <= usize::MAX / 8
}

/// The base64url text of a key, without padding.
pub fn encode_key(key: &PublicKey) -> (text: String)
    ensures
        text@ == encoded_key(key@),
{
    crate::base64url::encode(key.as_bytes())
}

/// The 32 bytes as an array.
fn key_bytes(bytes: &Vec<u8>) -> (key: [u8; 32])
    requires
        bytes@.len() == 32,
    ensures
        key@ == bytes@,
{
    let mut key: [u8; 32] = [0; 32];
    let mut i: usize = 0;
    while i < 32
        invariant
            0 <= i <= 32,
            bytes@.len() == 32,
            forall|j: int| 0 <= j < i ==> key@[j] == bytes@[j],
        decreases 32 - i,
    {
        key[i] = bytes[i];
        i += 1;
    }
    assert(key@ =~= bytes@);
    key
}

/// What the check of 32 bytes makes of a text: the key, or that the bytes are no point.
pub open spec fn key_of_point<K, G>(checked: Result<K, G>) -> Result<K, KeyError<G>> {
    match checked {
        Ok(key) => Ok(key),
        Err(error) => Err(KeyError::InvalidPublicKey(error)),
    }
}

/// What the check of 32 bytes makes of a text.
pub fn checked_key(checked: Result<PublicKey, signature::Error>) -> (key: Result<
    PublicKey,
    KeyError,
>)
    ensures
        key == key_of_point(checked),
        checked matches Ok(point) ==> key == Ok::<PublicKey, KeyError>(point),
        checked matches Err(error) ==> key == Err::<PublicKey, KeyError>(
            KeyError::InvalidPublicKey(error),
        ),
{
    match checked {
        Ok(key) => Ok(key),
        Err(error) => Err(KeyError::InvalidPublicKey(error)),
    }
}

/// The key whose base64url text is `s`.
pub fn decode_key(s: &str) -> (key: Result<PublicKey, KeyError>)
    requires
        text_fits(s@),
    ensures
        crate::step::outcome(key) == decoded_key(s@),
{
    match crate::base64url::decode(s.as_bytes()) {
        Err(fault) => Err(KeyError::KeyEncoding(fault)),
        Ok(bytes) => {
            proof {
                crate::base64url::law_text_round_trip(bytes@);
            }
            if bytes.len() != 32 {
                Err(KeyError::InvalidPublicKeyLength)
            } else {
                checked_key(PublicKey::from_bytes(&key_bytes(&bytes)))
            }
        },
    }
}

/// The public keys of a peer's `feed`, `blobKeys` and `blobs` cores.
#[derive(Clone, Copy, Debug, PartialEq, Eq)]
pub struct PeerKeys<K = PublicKey> {
    /// The key of the feed core.
    pub feed: K,
    /// The key of the `blobKeys` core.
    pub blob_keys: K,
    /// The key of the `blobs` core.
    pub blobs: K,
}

impl<K: DeepView> DeepView for PeerKeys<K> {
    type V = PeerKeys<K::V>;

    open spec fn deep_view(&self) -> Self::V {
        PeerKeys {
            feed: self.feed.deep_view(),
            blob_keys: self.blob_keys.deep_view(),
            blobs: self.blobs.deep_view(),
        }
    }
}

/// The texts of [`PeerKeys`], as they stand in the bootstrap entry of a `keys` core.
#[derive(Debug)]
pub struct RawPeerKeys<S = String> {
    /// The text of the feed core's key.
    pub feed: S,
    /// The text of the `blobKeys` core's key.
    pub blob_keys: S,
    /// The text of the `blobs` core's key.
    pub blobs: S,
}

impl<S: DeepView> DeepView for RawPeerKeys<S> {
    type V = RawPeerKeys<S::V>;

    open spec fn deep_view(&self) -> Self::V {
        RawPeerKeys {
            feed: self.feed.deep_view(),
            blob_keys: self.blob_keys.deep_view(),
            blobs: self.blobs.deep_view(),
        }
    }
}

impl<K> PeerKeys<K> {
    /// The three keys, or the error of the first that failed.
    pub open spec fn all_of<X>(
        feed: Result<K, X>,
        blob_keys: Result<K, X>,
        blobs: Result<K, X>,
    ) -> Result<PeerKeys<K>, X> {
        match (feed, blob_keys, blobs) {
            (Err(error), _, _) => Err(error),
            (Ok(_), Err(error), _) => Err(error),
            (Ok(_), Ok(_), Err(error)) => Err(error),
            (Ok(feed), Ok(blob_keys), Ok(blobs)) => Ok(PeerKeys { feed, blob_keys, blobs }),
        }
    }
}

impl PeerKeys<Seq<u8>> {
    /// The texts of the keys.
    pub open spec fn raw(self) -> RawPeerKeys<Seq<char>> {
        RawPeerKeys {
            feed: encoded_key(self.feed),
            blob_keys: encoded_key(self.blob_keys),
            blobs: encoded_key(self.blobs),
        }
    }

    /// Each is a public key.
    pub open spec fn are_public_keys(self) -> bool {
        &&& self.feed.len() == 32 && is_public_key(self.feed)
        &&& self.blob_keys.len() == 32 && is_public_key(self.blob_keys)
        &&& self.blobs.len() == 32 && is_public_key(self.blobs)
    }
}

impl RawPeerKeys<Seq<char>> {
    /// The keys with these texts, or why the first that has none has none.
    pub open spec fn keys(self) -> Result<PeerKeys<Seq<u8>>, KeyError<()>> {
        PeerKeys::all_of(
            decoded_key(self.feed),
            decoded_key(self.blob_keys),
            decoded_key(self.blobs),
        )
    }

    /// The texts hold base64url symbols alone.
    pub open spec fn are_plain(self) -> bool {
        is_plain(self.feed) && is_plain(self.blob_keys) && is_plain(self.blobs)
    }

    /// The texts are short enough to be decoded.
    pub open spec fn fit(self) -> bool {
        text_fits(self.feed) && text_fits(self.blob_keys) && text_fits(self.blobs)
    }
}

impl RawPeerKeys {
    /// The texts of `keys`.
    pub fn from(keys: &PeerKeys) -> (raw: RawPeerKeys)
        ensures
            raw.deep_view() == keys.deep_view().raw(),
            raw.deep_view().are_plain(),
            raw.feed@ == encoded_key(keys.feed@),
            raw.blob_keys@ == encoded_key(keys.blob_keys@),
            raw.blobs@ == encoded_key(keys.blobs@),
    {
        proof {
            law_keys_are_plain(keys.deep_view());
        }
        RawPeerKeys {
            feed: encode_key(&keys.feed),
            blob_keys: encode_key(&keys.blob_keys),
            blobs: encode_key(&keys.blobs),
        }
    }
}

/// The text holds base64url symbols alone. JSON escapes none of them in a string.
pub open spec fn is_plain(text: Seq<char>) -> bool {
    forall|i: int| 0 <= i < text.len() ==> is_symbol(#[trigger] text[i])
}

/// The character is a base64url symbol.
pub open spec fn is_symbol(c: char) -> bool {
    c < '\u{80}' && crate::base64url::symbol_value(c as u8) is Some
}

/// The bootstrap entry with these texts: the JSON object
/// `{"keys":{"feed":"..","blobKeys":"..","blobs":".."}}` in UTF-8.
pub open spec fn entry_text(raw: RawPeerKeys<Seq<char>>) -> Seq<u8> {
    vstd::utf8::encode_utf8(
        "{\"keys\":{\"feed\":\""@ + raw.feed + "\",\"blobKeys\":\""@ + raw.blob_keys
            + "\",\"blobs\":\""@ + raw.blobs + "\"}}"@,
    )
}

/// The bytes of the bootstrap entry with these texts.
pub fn entry_bytes(raw: &RawPeerKeys) -> (bytes: Vec<u8>)
    requires
        raw.deep_view().are_plain(),
    ensures
        bytes@ == entry_text(raw.deep_view()),
{
    let text = String::from_str("{\"keys\":{\"feed\":\"").concat(raw.feed.as_str()).concat(
        "\",\"blobKeys\":\"",
    ).concat(raw.blob_keys.as_str()).concat("\",\"blobs\":\"").concat(raw.blobs.as_str()).concat(
        "\"}}",
    );
    copy_bytes(text.as_str().as_bytes())
}

impl PeerKeys {
    /// The three keys, or the error of the first that failed.
    pub fn gather(
        feed: Result<PublicKey, KeyError>,
        blob_keys: Result<PublicKey, KeyError>,
        blobs: Result<PublicKey, KeyError>,
    ) -> (keys: Result<PeerKeys, KeyError>)
        ensures
            keys == PeerKeys::all_of(feed, blob_keys, blobs),
    {
        match (feed, blob_keys, blobs) {
            (Err(error), _, _) => Err(error),
            (Ok(_), Err(error), _) => Err(error),
            (Ok(_), Ok(_), Err(error)) => Err(error),
            (Ok(feed), Ok(blob_keys), Ok(blobs)) => Ok(PeerKeys { feed, blob_keys, blobs }),
        }
    }

    /// The keys with the texts `raw`.
    pub fn try_from(raw: RawPeerKeys) -> (keys: Result<PeerKeys, KeyError>)
        requires
            raw.deep_view().fit(),
        ensures
            crate::step::outcome(keys) == raw.deep_view().keys(),
    {
        PeerKeys::gather(
            decode_key(raw.feed.as_str()),
            decode_key(raw.blob_keys.as_str()),
            decode_key(raw.blobs.as_str()),
        )
    }
}

/// The text of a key, 43 characters, decodes to that key. The text of 32 bytes that are no key is
/// refused for that reason.
pub proof fn law_key_round_trip(bytes: Seq<u8>)
    requires
        bytes.len() == 32,
    ensures
        encoded_key(bytes).len() == 43,
        text_fits(encoded_key(bytes)),
        decoded_key(encoded_key(bytes)) == if is_public_key(bytes) {
            Ok::<Seq<u8>, KeyError<()>>(bytes)
        } else {
            Err(KeyError::InvalidPublicKey(()))
        },
{
    crate::base64url::lemma_characters(bytes);
    crate::base64url::law_text_round_trip(bytes);
}

/// The text of anything but 32 bytes is refused for its length.
pub proof fn law_key_length(bytes: Seq<u8>)
    requires
        bytes.len() != 32,
    ensures
        decoded_key(encoded_key(bytes)) == Err::<Seq<u8>, KeyError<()>>(
            KeyError::InvalidPublicKeyLength,
        ),
{
    crate::base64url::lemma_characters(bytes);
    crate::base64url::law_text_round_trip(bytes);
}

/// Keys read back from their texts are the keys that were written.
pub proof fn law_peer_keys_round_trip(keys: PeerKeys<Seq<u8>>)
    ensures
        keys.are_public_keys() ==> keys.raw().fit() && keys.raw().keys() == Ok::<
            PeerKeys<Seq<u8>>,
            KeyError<()>,
        >(keys),
{
    if keys.are_public_keys() {
        law_key_round_trip(keys.feed);
        law_key_round_trip(keys.blob_keys);
        law_key_round_trip(keys.blobs);
    }
}

/// The texts of keys hold base64url symbols alone.
pub proof fn law_keys_are_plain(keys: PeerKeys<Seq<u8>>)
    ensures
        keys.raw().are_plain(),
{
    lemma_text_is_plain(keys.feed);
    lemma_text_is_plain(keys.blob_keys);
    lemma_text_is_plain(keys.blobs);
}

/// The text of a key holds base64url symbols alone.
proof fn lemma_text_is_plain(key: Seq<u8>)
    ensures
        is_plain(encoded_key(key)),
{
    assert forall|i: int| 0 <= i < encoded_key(key).len() implies is_symbol(
        #[trigger] encoded_key(key)[i],
    ) by {
        crate::base64url::lemma_text_symbol(key, i);
    }
}

/// A text is that of one key.
proof fn lemma_one_key(a: Seq<u8>, b: Seq<u8>)
    requires
        encoded_key(a) == encoded_key(b),
    ensures
        a == b,
{
    crate::base64url::lemma_characters(a);
    crate::base64url::lemma_characters(b);
    if a != b {
        crate::base64url::law_texts_differ(a, b);
    }
}

/// Different keys have different bootstrap entries: an entry says which keys it was written for.
pub proof fn law_entries_differ(a: PeerKeys<Seq<u8>>, b: PeerKeys<Seq<u8>>)
    requires
        a.feed.len() == 32 && a.blob_keys.len() == 32 && a.blobs.len() == 32,
        b.feed.len() == 32 && b.blob_keys.len() == 32 && b.blobs.len() == 32,
        a != b,
    ensures
        entry_text(a.raw()) != entry_text(b.raw()),
{
    if entry_text(a.raw()) == entry_text(b.raw()) {
        let (open, middle, last, end) = (
            "{\"keys\":{\"feed\":\""@,
            "\",\"blobKeys\":\""@,
            "\",\"blobs\":\""@,
            "\"}}"@,
        );
        let (x, y) = (a.raw(), b.raw());
        let s = open + x.feed + middle + x.blob_keys + last + x.blobs + end;
        let t = open + y.feed + middle + y.blob_keys + last + y.blobs + end;
        vstd::utf8::encode_utf8_decode_utf8(s);
        vstd::utf8::encode_utf8_decode_utf8(t);
        assert(s == t);
        law_key_round_trip(a.feed);
        law_key_round_trip(b.feed);
        law_key_round_trip(a.blob_keys);
        law_key_round_trip(b.blob_keys);
        law_key_round_trip(a.blobs);
        law_key_round_trip(b.blobs);
        let at = open.len() as int;
        assert(x.feed =~= s.subrange(at, at + 43));
        assert(y.feed =~= t.subrange(at, at + 43));
        let at = at + 43 + middle.len();
        assert(x.blob_keys =~= s.subrange(at, at + 43));
        assert(y.blob_keys =~= t.subrange(at, at + 43));
        let at = at + 43 + last.len();
        assert(x.blobs =~= s.subrange(at, at + 43));
        assert(y.blobs =~= t.subrange(at, at + 43));
        lemma_one_key(a.feed, b.feed);
        lemma_one_key(a.blob_keys, b.blob_keys);
        lemma_one_key(a.blobs, b.blobs);
    }
}

/// The text of a key is its base64url, without padding.
pub proof fn law_encoded_key(key: Seq<u8>)
    ensures
        vstd::utf8::encode_utf8(encoded_key(key)) == crate::base64url::base64url(key),
{
    crate::base64url::lemma_characters(key);
}

/// A text is that of one byte string at most, and of one if and only if it has no fault.
proof fn lemma_text_of(text: Seq<u8>, bytes: Seq<u8>)
    ensures
        crate::base64url::base64url(bytes) == text <==> crate::base64url::decoded(text) == Ok::<
            Seq<u8>,
            Fault,
        >(bytes),
{
    crate::base64url::law_texts_decode(text);
    crate::base64url::law_text_round_trip(bytes);
}

/// What a text is as a key. It is the key that it is the base64url of, if that is a public key. It
/// is refused as an encoding, with the fault, if it has one. It is refused for its length if it is
/// the base64url of anything but 32 bytes, and as no point of the curve if the 32 bytes are none.
pub proof fn law_decoded_key(text: Seq<char>, bytes: Seq<u8>, fault: Fault)
    ensures
        decoded_key(text) == Ok::<Seq<u8>, KeyError<()>>(bytes) <==> {
            &&& crate::base64url::base64url(bytes) == vstd::utf8::encode_utf8(text)
            &&& bytes.len() == 32
            &&& is_public_key(bytes)
        },
        decoded_key(text) == Err::<Seq<u8>, KeyError<()>>(KeyError::KeyEncoding(fault))
            <==> crate::base64url::text_fault(vstd::utf8::encode_utf8(text)) == Some(fault),
        crate::base64url::base64url(bytes) == vstd::utf8::encode_utf8(text) ==> {
            &&& bytes.len() != 32 <==> decoded_key(text) == Err::<Seq<u8>, KeyError<()>>(
                KeyError::InvalidPublicKeyLength,
            )
            &&& bytes.len() == 32 && !is_public_key(bytes) <==> decoded_key(text) == Err::<
                Seq<u8>,
                KeyError<()>,
            >(KeyError::InvalidPublicKey(()))
        },
{
    let utf8 = vstd::utf8::encode_utf8(text);
    lemma_text_of(utf8, bytes);
    if let Ok(found) = crate::base64url::decoded(utf8) {
        lemma_text_of(utf8, found);
    }
}

/// Each text of the keys of a peer is that of the key with the same role.
pub proof fn law_texts_of_keys(keys: PeerKeys<Seq<u8>>)
    ensures
        keys.raw().feed == encoded_key(keys.feed),
        keys.raw().blob_keys == encoded_key(keys.blob_keys),
        keys.raw().blobs == encoded_key(keys.blobs),
{
}

/// Texts are the keys of a peer if and only if each is the key with the same role. Otherwise the
/// first that is no key, of the feed, of `blobKeys` and of `blobs`, decides the error.
pub proof fn law_keys_of_texts(
    raw: RawPeerKeys<Seq<char>>,
    keys: PeerKeys<Seq<u8>>,
    error: KeyError<()>,
)
    ensures
        raw.keys() == Ok::<PeerKeys<Seq<u8>>, KeyError<()>>(keys) <==> {
            &&& decoded_key(raw.feed) == Ok::<Seq<u8>, KeyError<()>>(keys.feed)
            &&& decoded_key(raw.blob_keys) == Ok::<Seq<u8>, KeyError<()>>(keys.blob_keys)
            &&& decoded_key(raw.blobs) == Ok::<Seq<u8>, KeyError<()>>(keys.blobs)
        },
        raw.keys() == Err::<PeerKeys<Seq<u8>>, KeyError<()>>(error) <==> {
            let error = Err::<Seq<u8>, KeyError<()>>(error);
            ||| decoded_key(raw.feed) == error
            ||| decoded_key(raw.feed) is Ok && decoded_key(raw.blob_keys) == error
            ||| decoded_key(raw.feed) is Ok && decoded_key(raw.blob_keys) is Ok && decoded_key(
                raw.blobs,
            ) == error
        },
{
}

/// Three results are three keys, each in its role, if and only if all are keys. Otherwise the
/// first that is none decides the error.
pub proof fn law_all_of<K, X>(
    feed: Result<K, X>,
    blob_keys: Result<K, X>,
    blobs: Result<K, X>,
    keys: PeerKeys<K>,
    error: X,
)
    ensures
        PeerKeys::all_of(feed, blob_keys, blobs) == Ok::<PeerKeys<K>, X>(keys) <==> feed == Ok::<
            K,
            X,
        >(keys.feed) && blob_keys == Ok::<K, X>(keys.blob_keys) && blobs == Ok::<K, X>(keys.blobs),
        PeerKeys::all_of(feed, blob_keys, blobs) == Err::<PeerKeys<K>, X>(error) <==> {
            ||| feed == Err::<K, X>(error)
            ||| feed is Ok && blob_keys == Err::<K, X>(error)
            ||| feed is Ok && blob_keys is Ok && blobs == Err::<K, X>(error)
        },
{
}

/// The contents of keys, of texts and of errors are those of their parts.
pub proof fn law_contents(keys: PeerKeys, raw: RawPeerKeys, error: KeyError)
    ensures
        keys.deep_view().feed == keys.feed@,
        keys.deep_view().blob_keys == keys.blob_keys@,
        keys.deep_view().blobs == keys.blobs@,
        raw.deep_view().feed == raw.feed@,
        raw.deep_view().blob_keys == raw.blob_keys@,
        raw.deep_view().blobs == raw.blobs@,
        forall|fault: Fault|
            error.deep_view() == KeyError::<()>::KeyEncoding(fault) <==> error == KeyError::<
                signature::Error,
            >::KeyEncoding(fault),
        error.deep_view() is InvalidPublicKeyLength <==> error is InvalidPublicKeyLength,
        error.deep_view() is InvalidPublicKey <==> error is InvalidPublicKey,
{
}

/// What stands between the quotation marks of a text, and before the first and after the last.
pub open spec fn quoted_parts(text: Seq<char>) -> Seq<Seq<char>>
    decreases text.len(),
{
    if text.len() == 0 {
        seq![Seq::empty()]
    } else {
        let parts = quoted_parts(text.drop_last());
        if text.last() == '"' {
            parts.push(Seq::empty())
        } else {
            parts.drop_last().push(parts.last().push(text.last()))
        }
    }
}

/// The texts of a bootstrap entry, read as the JSON that it is: an object with one member `keys`,
/// which is an object with the members `feed`, `blobKeys` and `blobs`, each a string.
pub open spec fn entry_fields(bytes: Seq<u8>) -> Option<RawPeerKeys<Seq<char>>> {
    let parts = quoted_parts(vstd::utf8::decode_utf8(bytes));
    if {
        &&& vstd::utf8::valid_utf8(bytes)
        &&& parts.len() == 15
        &&& parts[0] == "{"@
        &&& parts[1] == "keys"@
        &&& parts[2] == ":{"@
        &&& parts[3] == "feed"@
        &&& parts[4] == ":"@
        &&& parts[6] == ","@
        &&& parts[7] == "blobKeys"@
        &&& parts[8] == ":"@
        &&& parts[10] == ","@
        &&& parts[11] == "blobs"@
        &&& parts[12] == ":"@
        &&& parts[14] == "}}"@
    } {
        Some(RawPeerKeys { feed: parts[5], blob_keys: parts[9], blobs: parts[13] })
    } else {
        None
    }
}

/// A text has at least one part.
proof fn lemma_some_part(text: Seq<char>)
    ensures
        quoted_parts(text).len() > 0,
    decreases text.len(),
{
    if text.len() > 0 {
        lemma_some_part(text.drop_last());
    }
}

/// A text without quotation marks is its only part.
proof fn lemma_one_part(text: Seq<char>)
    requires
        !text.contains('"'),
    ensures
        quoted_parts(text) == seq![text],
    decreases text.len(),
{
    if text.len() > 0 {
        let first = text.drop_last();
        assert(!first.contains('"')) by {
            if first.contains('"') {
                let i = choose|i: int| 0 <= i < first.len() && first[i] == '"';
                assert(text[i] == '"');
            }
        }
        lemma_one_part(first);
        assert(text.last() == text[text.len() - 1]);
        assert(text.last() != '"');
        assert(first.push(text.last()) =~= text);
        assert(quoted_parts(text) =~= seq![text]);
    } else {
        assert(text =~= Seq::empty());
    }
}

/// A quotation mark parts a text.
proof fn lemma_mark_parts(a: Seq<char>, b: Seq<char>)
    ensures
        quoted_parts(a + seq!['"'] + b) == quoted_parts(a) + quoted_parts(b),
    decreases b.len(),
{
    let text = a + seq!['"'] + b;
    lemma_some_part(b);
    if b.len() == 0 {
        assert(text.drop_last() =~= a);
        assert(text.last() == '"');
        assert(quoted_parts(text) =~= quoted_parts(a) + quoted_parts(b));
    } else {
        let rest = b.drop_last();
        lemma_mark_parts(a, rest);
        lemma_some_part(rest);
        assert(text.drop_last() =~= a + seq!['"'] + rest);
        assert(text.last() == b.last());
        assert(quoted_parts(text) =~= quoted_parts(a) + quoted_parts(b));
    }
}

/// One more part behind a quotation mark.
proof fn lemma_next_part(a: Seq<char>, b: Seq<char>)
    requires
        !b.contains('"'),
    ensures
        quoted_parts(a + seq!['"'] + b) == quoted_parts(a).push(b),
{
    lemma_mark_parts(a, b);
    lemma_one_part(b);
    assert(quoted_parts(a) + seq![b] =~= quoted_parts(a).push(b));
}

/// The bootstrap entry is JSON that holds each text under the name of its role, if no text has
/// quotation marks in it.
pub proof fn law_entry_holds_texts(raw: RawPeerKeys<Seq<char>>)
    requires
        !raw.feed.contains('"'),
        !raw.blob_keys.contains('"'),
        !raw.blobs.contains('"'),
    ensures
        entry_fields(entry_text(raw)) == Some(raw),
{
    reveal_strlit("{");
    reveal_strlit("keys");
    reveal_strlit(":{");
    reveal_strlit("feed");
    reveal_strlit(":");
    reveal_strlit(",");
    reveal_strlit("blobKeys");
    reveal_strlit("blobs");
    reveal_strlit("}}");
    reveal_strlit("{\"keys\":{\"feed\":\"");
    reveal_strlit("\",\"blobKeys\":\"");
    reveal_strlit("\",\"blobs\":\"");
    reveal_strlit("\"}}");
    let mark = seq!['"'];
    let (open, middle, last, end) = (
        "{\"keys\":{\"feed\":\""@,
        "\",\"blobKeys\":\""@,
        "\",\"blobs\":\""@,
        "\"}}"@,
    );
    let t0 = "{"@;
    let t1 = t0 + mark + "keys"@;
    let t2 = t1 + mark + ":{"@;
    let t3 = t2 + mark + "feed"@;
    let t4 = t3 + mark + ":"@;
    let t5 = t4 + mark + raw.feed;
    let t6 = t5 + mark + ","@;
    let t7 = t6 + mark + "blobKeys"@;
    let t8 = t7 + mark + ":"@;
    let t9 = t8 + mark + raw.blob_keys;
    let t10 = t9 + mark + ","@;
    let t11 = t10 + mark + "blobs"@;
    let t12 = t11 + mark + ":"@;
    let t13 = t12 + mark + raw.blobs;
    let t14 = t13 + mark + "}}"@;
    lemma_one_part(t0);
    lemma_next_part(t0, "keys"@);
    lemma_next_part(t1, ":{"@);
    lemma_next_part(t2, "feed"@);
    lemma_next_part(t3, ":"@);
    lemma_next_part(t4, raw.feed);
    lemma_next_part(t5, ","@);
    lemma_next_part(t6, "blobKeys"@);
    lemma_next_part(t7, ":"@);
    lemma_next_part(t8, raw.blob_keys);
    lemma_next_part(t9, ","@);
    lemma_next_part(t10, "blobs"@);
    lemma_next_part(t11, ":"@);
    lemma_next_part(t12, raw.blobs);
    lemma_next_part(t13, "}}"@);
    assert(t4 + mark =~= open);
    assert(t8 + mark =~= t5 + middle);
    assert(t12 + mark =~= t9 + last);
    assert(t14 =~= t13 + end);
    let text = open + raw.feed + middle + raw.blob_keys + last + raw.blobs + end;
    assert(t14 == text);
    vstd::utf8::encode_utf8_decode_utf8(text);
    vstd::utf8::encode_utf8_valid_utf8(text);
}

/// The texts of keys have no quotation marks in them.
pub proof fn law_key_texts_are_unquoted(key: Seq<u8>)
    ensures
        !encoded_key(key).contains('"'),
{
    lemma_text_is_plain(key);
    let text = encoded_key(key);
    if text.contains('"') {
        let i = choose|i: int| 0 <= i < text.len() && text[i] == '"';
        assert(is_symbol(text[i]));
    }
}

/// The bootstrap entry of keys, read as JSON, gives the base64url texts of those keys, each under
/// the name of its role.
pub proof fn law_entry_holds_keys(keys: PeerKeys<Seq<u8>>)
    ensures
        entry_fields(entry_text(keys.raw())) matches Some(raw) && {
            &&& vstd::utf8::encode_utf8(raw.feed) == crate::base64url::base64url(keys.feed)
            &&& vstd::utf8::encode_utf8(raw.blob_keys) == crate::base64url::base64url(
                keys.blob_keys,
            )
            &&& vstd::utf8::encode_utf8(raw.blobs) == crate::base64url::base64url(keys.blobs)
        },
{
    law_key_texts_are_unquoted(keys.feed);
    law_key_texts_are_unquoted(keys.blob_keys);
    law_key_texts_are_unquoted(keys.blobs);
    law_entry_holds_texts(keys.raw());
    law_encoded_key(keys.feed);
    law_encoded_key(keys.blob_keys);
    law_encoded_key(keys.blobs);
}

/// The character is a letter from `A` to `Z` or from `a` to `z`, a digit, `-` or `_`.
pub open spec fn is_word_character(c: char) -> bool {
    let code = c as int;
    ||| 0x41 <= code && code <= 0x5a
    ||| 0x61 <= code && code <= 0x7a
    ||| 0x30 <= code && code <= 0x39
    ||| code == 0x2d
    ||| code == 0x5f
}

/// A text is plain if and only if it is made of letters from `A` to `Z` and `a` to `z`, digits, `-`
/// and `_`.
pub proof fn law_is_plain(text: Seq<char>)
    ensures
        is_plain(text) <==> forall|i: int|
            0 <= i && i < text.len() ==> is_word_character(#[trigger] text[i]),
{
    assert forall|i: int| 0 <= i && i < text.len() implies is_symbol(text[i]) == is_word_character(
        #[trigger] text[i],
    ) by {
        lemma_is_symbol(text[i]);
    }
    if is_plain(text) {
        assert forall|i: int| 0 <= i && i < text.len() implies is_word_character(
            #[trigger] text[i],
        ) by {
            assert(is_symbol(text[i]));
        }
    }
}

/// The symbols are letters, digits, `-` and `_`.
proof fn lemma_is_symbol(c: char)
    ensures
        is_symbol(c) <==> is_word_character(c),
{
}

/// Texts of an eighth of the greatest length at most are short enough to be decoded.
pub proof fn law_texts_fit(raw: RawPeerKeys<Seq<char>>)
    ensures
        raw.fit() <==> {
            &&& 8 * vstd::utf8::encode_utf8(raw.feed).len() <= usize::MAX
            &&& 8 * vstd::utf8::encode_utf8(raw.blob_keys).len() <= usize::MAX
            &&& 8 * vstd::utf8::encode_utf8(raw.blobs).len() <= usize::MAX
        },
{
}

} // verus!
