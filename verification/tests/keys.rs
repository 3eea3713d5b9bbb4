use hyper_rss::base64url::{Fault, FaultKind};
use hyper_rss::keys::{
    checked_key, decode_key, encode_key, entry_bytes, KeyError, PeerKeys, PublicKey, RawPeerKeys,
};

const KEY_A: [u8; 32] = [
    215, 90, 152, 1, 130, 177, 10, 183, 213, 75, 254, 211, 201, 100, 7, 58, 14, 225, 114, 243, 218,
    166, 35, 37, 175, 2, 26, 104, 247, 7, 81, 26,
];
const TEXT_A: &str = "11qYAYKxCrfVS_7TyWQHOg7hcvPapiMlrwIaaPcHURo";

const KEY_B: [u8; 32] = [
    61, 64, 23, 195, 232, 67, 137, 90, 146, 183, 10, 167, 77, 27, 126, 188, 156, 152, 44, 207, 46,
    196, 150, 140, 192, 205, 85, 241, 42, 244, 102, 12,
];
const TEXT_B: &str = "PUAXw-hDiVqStwqnTRt-vJyYLM8uxJaMwM1V8Sr0Zgw";

const KEY_C: [u8; 32] = [
    252, 81, 205, 142, 98, 24, 161, 163, 141, 164, 126, 208, 2, 48, 240, 88, 8, 22, 237, 19, 186,
    51, 3, 172, 93, 235, 145, 21, 72, 144, 128, 37,
];
const TEXT_C: &str = "_FHNjmIYoaONpH7QAjDwWAgW7RO6MwOsXeuRFUiQgCU";

/// 32 bytes that are no point of the curve.
const NO_POINT: &str = "AgAAAAAAAAAAAAAAAAAAAAAAAAAAAAAAAAAAAAAAAAA";

fn key(bytes: &[u8; 32]) -> PublicKey {
    PublicKey::from_bytes(bytes).unwrap()
}

fn fault(text: &str) -> Fault {
    match decode_key(text) {
        Err(KeyError::KeyEncoding(fault)) => fault,
        other => panic!("{other:?}"),
    }
}

#[test]
fn keys_are_written_as_unpadded_base64url() {
    assert_eq!(encode_key(&key(&KEY_A)), TEXT_A);
    assert_eq!(encode_key(&key(&KEY_B)), TEXT_B);
    assert_eq!(encode_key(&key(&KEY_C)), TEXT_C);
}

#[test]
fn keys_read_back() {
    assert_eq!(decode_key(TEXT_A).unwrap().as_bytes(), &KEY_A);
    assert_eq!(decode_key(TEXT_B).unwrap().as_bytes(), &KEY_B);
    assert_eq!(decode_key(TEXT_C).unwrap(), key(&KEY_C));
}

#[test]
fn bytes_that_are_no_point_are_no_key() {
    let mut bytes = [0; 32];
    assert!(PublicKey::from_bytes(&bytes).is_ok());
    bytes[0] = 2;
    assert!(PublicKey::from_bytes(&bytes).is_err());
    assert!(matches!(decode_key(NO_POINT), Err(KeyError::InvalidPublicKey(_))));
}

#[test]
fn keys_agree_with_those_of_hypercore() {
    let signing = hypercore::generate_signing_key();
    let public = signing.verifying_key();
    let key = PublicKey::from_bytes(public.as_bytes()).unwrap();
    assert_eq!(key.as_bytes(), public.as_bytes());
    assert_eq!(encode_key(&key), data_encoding::BASE64URL_NOPAD.encode(public.as_bytes()));
    assert_eq!(decode_key(&encode_key(&key)).unwrap(), key);
}

#[test]
fn texts_of_other_lengths_are_no_key() {
    assert!(matches!(decode_key(""), Err(KeyError::InvalidPublicKeyLength)));
    assert!(matches!(decode_key("AAAA"), Err(KeyError::InvalidPublicKeyLength)));
    assert!(matches!(decode_key(&TEXT_A[..42]), Err(KeyError::KeyEncoding(_))));
    let long = [TEXT_A, "A"].concat();
    assert!(matches!(decode_key(&long), Err(KeyError::InvalidPublicKeyLength)));
}

#[test]
fn a_length_that_no_bytes_have_is_a_fault() {
    assert_eq!(fault("A"), Fault { position: 0, kind: FaultKind::Length });
    assert_eq!(fault("AAAAA"), Fault { position: 4, kind: FaultKind::Length });
    assert_eq!(fault("?!?!?"), Fault { position: 4, kind: FaultKind::Length });
}

#[test]
fn the_first_foreign_symbol_is_a_fault() {
    assert_eq!(fault("AA=="), Fault { position: 2, kind: FaultKind::Symbol });
    assert_eq!(fault("A+/A"), Fault { position: 1, kind: FaultKind::Symbol });
    assert_eq!(fault("AAAAAA A"), Fault { position: 6, kind: FaultKind::Symbol });
    assert_eq!(fault("AA\u{e9}"), Fault { position: 2, kind: FaultKind::Symbol });
    let standard = TEXT_A.replace('_', "/");
    assert_eq!(fault(&standard), Fault { position: 13, kind: FaultKind::Symbol });
}

#[test]
fn trailing_bits_are_a_fault() {
    assert_eq!(fault("AB"), Fault { position: 1, kind: FaultKind::Trailing });
    assert_eq!(fault("AAAAAAB"), Fault { position: 6, kind: FaultKind::Trailing });
    let mut text = TEXT_A.to_string();
    text.replace_range(42.., "p");
    assert_eq!(fault(&text), Fault { position: 42, kind: FaultKind::Trailing });
}

#[test]
fn peer_keys_are_written_as_their_texts() {
    let keys = PeerKeys { feed: key(&KEY_A), blob_keys: key(&KEY_B), blobs: key(&KEY_C) };
    let raw = RawPeerKeys::from(&keys);
    assert_eq!(raw.feed, TEXT_A);
    assert_eq!(raw.blob_keys, TEXT_B);
    assert_eq!(raw.blobs, TEXT_C);
    assert_eq!(PeerKeys::try_from(raw).unwrap(), keys);
}

#[test]
fn the_first_text_that_is_no_key_decides_the_error() {
    let raw = |feed: &str, blob_keys: &str, blobs: &str| RawPeerKeys {
        feed: feed.to_string(),
        blob_keys: blob_keys.to_string(),
        blobs: blobs.to_string(),
    };
    assert!(matches!(
        PeerKeys::try_from(raw("!", NO_POINT, "AAAA")),
        Err(KeyError::KeyEncoding(Fault { position: 0, kind: FaultKind::Length }))
    ));
    assert!(matches!(
        PeerKeys::try_from(raw(TEXT_A, NO_POINT, "AAAA")),
        Err(KeyError::InvalidPublicKey(_))
    ));
    assert!(matches!(
        PeerKeys::try_from(raw(TEXT_A, TEXT_B, "AAAA")),
        Err(KeyError::InvalidPublicKeyLength)
    ));
}

#[test]
fn a_checked_key_is_that_key_or_the_error() {
    assert_eq!(checked_key(Ok(key(&KEY_A))).unwrap(), key(&KEY_A));
    let refused = checked_key(Err(signature::Error::new()));
    assert!(matches!(refused, Err(KeyError::InvalidPublicKey(_))));
}

#[test]
fn three_keys_are_gathered_or_the_first_error_is() {
    let (a, b, c) = (key(&KEY_A), key(&KEY_B), key(&KEY_C));
    let keys = PeerKeys::gather(Ok(a), Ok(b), Ok(c)).unwrap();
    assert_eq!((keys.feed, keys.blob_keys, keys.blobs), (a, b, c));
    let length = || Err(KeyError::InvalidPublicKeyLength);
    let point = || Err(KeyError::InvalidPublicKey(signature::Error::new()));
    assert!(matches!(
        PeerKeys::gather(length(), point(), point()),
        Err(KeyError::InvalidPublicKeyLength)
    ));
    assert!(matches!(
        PeerKeys::gather(Ok(a), point(), length()),
        Err(KeyError::InvalidPublicKey(_))
    ));
    assert!(matches!(
        PeerKeys::gather(Ok(a), Ok(b), length()),
        Err(KeyError::InvalidPublicKeyLength)
    ));
}

#[test]
fn the_bootstrap_entry_is_an_object_of_the_three_texts() {
    let raw = RawPeerKeys {
        feed: "A".to_string(),
        blob_keys: "b-C_".to_string(),
        blobs: "09".to_string(),
    };
    assert_eq!(entry_bytes(&raw), br#"{"keys":{"feed":"A","blobKeys":"b-C_","blobs":"09"}}"#);
}

#[test]
fn the_bootstrap_entry_is_read_as_json() {
    let keys = PeerKeys { feed: key(&KEY_A), blob_keys: key(&KEY_B), blobs: key(&KEY_C) };
    let bytes = entry_bytes(&RawPeerKeys::from(&keys));
    let entry: serde_json::Value = serde_json::from_slice(&bytes).unwrap();
    assert_eq!(entry.as_object().unwrap().len(), 1);
    assert_eq!(entry["keys"].as_object().unwrap().len(), 3);
    assert_eq!(entry["keys"]["feed"], TEXT_A);
    assert_eq!(entry["keys"]["blobKeys"], TEXT_B);
    assert_eq!(entry["keys"]["blobs"], TEXT_C);
}
