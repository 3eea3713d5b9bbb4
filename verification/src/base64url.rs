//! Unpadded base64url texts: what bytes are written as, and which texts are no bytes.
//!
//! Encoding and decoding are those of `data_encoding::BASE64URL_NOPAD`.

use vstd::prelude::*;

verus! {

/// What is wrong with a text that is no base64url.
#[derive(Clone, Copy, Debug, PartialEq, Eq, Structural)]
pub enum FaultKind {
    /// No bytes have a text of this length.
    Length,
    /// A byte of the text is no symbol.
    Symbol,
    /// Bits that belong to no byte are not zero.
    Trailing,
    /// Padding has a wrong length. This encoding has no padding, so this never comes.
    Padding,
}

/// Why and where a text fails to decode.
#[derive(Clone, Copy, Debug, PartialEq, Eq, Structural)]
pub struct Fault {
    /// Index of a byte of the text.
    pub position: usize,
    /// What is wrong there.
    pub kind: FaultKind,
}

/// The symbol for a number below 64.
pub open spec fn symbol(value: int) -> u8 {
    if value < 26 {
        (0x41 + value) as u8
    } else if value < 52 {
        (0x61 + (value - 26)) as u8
    } else if value < 62 {
        (0x30 + (value - 52)) as u8
    } else if value == 62 {
        0x2d
    } else {
        0x5f
    }
}

/// The number that a symbol stands for.
pub open spec fn symbol_value(symbol: u8) -> Option<int> {
    if 0x41 <= symbol <= 0x5a {
        Some(symbol - 0x41)
    } else if 0x61 <= symbol <= 0x7a {
        Some(symbol - 0x61 + 26)
    } else if 0x30 <= symbol <= 0x39 {
        Some(symbol - 0x30 + 52)
    } else if symbol == 0x2d {
        Some(62)
    } else if symbol == 0x5f {
        Some(63)
    } else {
        None
    }
}

/// A byte, or zero past the end.
pub open spec fn byte_or_zero(bytes: Seq<u8>, i: int) -> int {
    if i < bytes.len() {
        bytes[i] as int
    } else {
        0
    }
}

/// The bits of `bytes` in groups of six, the first bits first: the group at `i`.
pub open spec fn sextet(bytes: Seq<u8>, i: int) -> int {
    let first = i / 4 * 3;
    if i % 4 == 0 {
        byte_or_zero(bytes, first) / 4
    } else if i % 4 == 1 {
        byte_or_zero(bytes, first) % 4 * 16 + byte_or_zero(bytes, first + 1) / 16
    } else if i % 4 == 2 {
        byte_or_zero(bytes, first + 1) % 16 * 4 + byte_or_zero(bytes, first + 2) / 64
    } else {
        byte_or_zero(bytes, first + 2) % 64
    }
}

/// The number of symbols that `len` bytes are written with.
pub open spec fn text_len(len: nat) -> nat {
    ((4 * len + 2) / 3) as nat
}

/// The text of bytes: one symbol for each six bits.
pub open spec fn base64url(bytes: Seq<u8>) -> Seq<u8> {
    Seq::new(text_len(bytes.len()), |i: int| symbol(sextet(bytes, i)))
}

/// The characters with these codes.
pub open spec fn characters(text: Seq<u8>) -> Seq<char> {
    Seq::new(text.len(), |i: int| text[i] as char)
}

/// The index of the first byte that is no symbol, or the length if all are.
pub open spec fn first_foreign(text: Seq<u8>) -> nat
    decreases text.len(),
{
    if text.len() == 0 || symbol_value(text[0]) is None {
        0
    } else {
        1 + first_foreign(text.skip(1))
    }
}

/// The bits of the last symbol that belong to no byte, as a number.
pub open spec fn trailing_bits(text: Seq<u8>) -> int {
    let last = symbol_value(text.last()).unwrap();
    if text.len() % 4 == 2 {
        last % 16
    } else if text.len() % 4 == 3 {
        last % 4
    } else {
        0
    }
}

/// Why a text fails to decode: its length, its first foreign byte or its trailing bits.
pub open spec fn text_fault(text: Seq<u8>) -> Option<Fault> {
    if text.len() % 4 == 1 {
        Some(Fault { position: (text.len() - 1) as usize, kind: FaultKind::Length })
    } else if first_foreign(text) < text.len() {
        Some(Fault { position: first_foreign(text) as usize, kind: FaultKind::Symbol })
    } else if text.len() > 0 && trailing_bits(text) != 0 {
        Some(Fault { position: (text.len() - 1) as usize, kind: FaultKind::Trailing })
    } else {
        None
    }
}

/// What a text decodes to: the bytes that are written so, or the fault.
pub open spec fn decoded(text: Seq<u8>) -> Result<Seq<u8>, Fault> {
    match text_fault(text) {
        Some(fault) => Err(fault),
        None => Ok(choose|bytes: Seq<u8>| base64url(bytes) == text),
    }
}

/// `data_encoding::BASE64URL_NOPAD.encode`: the text of `bytes` with the symbols `A` to `Z`, `a`
/// to `z`, `0` to `9`, `-` and `_`, the first bits first, without padding. It may panic on inputs
/// longer than `usize::MAX / 512`, which are left out.
#[verifier::external_body]
pub(crate) fn encode(bytes: &[u8]) -> (text: String)
    requires
        bytes@.len() <= usize::MAX / 512,
    ensures
        text@ == characters(base64url(bytes@)),
{
    data_encoding::BASE64URL_NOPAD.encode(bytes)
}

/// `data_encoding::BASE64URL_NOPAD.decode`: the bytes that are written as `text`, or the first of
/// these faults: the length, with the greatest valid length as its position; the first byte that
/// is no symbol; trailing bits that are not zero, at the last symbol. It may panic on inputs
/// longer than `usize::MAX / 8`, which are left out.
#[verifier::external_body]
pub(crate) fn decode(text: &[u8]) -> (bytes: Result<Vec<u8>, Fault>)
    requires
        text@.len() <= usize::MAX / 8,
    ensures
        match bytes {
            Ok(bytes) => text_fault(text@) is None && base64url(bytes@) == text@,
            Err(fault) => text_fault(text@) == Some(fault),
        },
{
    data_encoding::BASE64URL_NOPAD.decode(text).map_err(
        |error| Fault {
            position: error.position,
            kind: match error.kind {
                data_encoding::DecodeKind::Length => FaultKind::Length,
                data_encoding::DecodeKind::Symbol => FaultKind::Symbol,
                data_encoding::DecodeKind::Trailing => FaultKind::Trailing,
                data_encoding::DecodeKind::Padding => FaultKind::Padding,
            },
        },
    )
}

/// A symbol stands for the number it was written for.
proof fn lemma_symbol(value: int)
    requires
        0 <= value < 64,
    ensures
        symbol_value(symbol(value)) == Some(value),
        symbol(value) < 128,
{
}

/// Groups of six bits are numbers below 64.
proof fn lemma_sextet(bytes: Seq<u8>, i: int)
    requires
        0 <= i,
    ensures
        0 <= sextet(bytes, i) < 64,
{
    let first = i / 4 * 3;
    assert(0 <= byte_or_zero(bytes, first) < 256);
    assert(0 <= byte_or_zero(bytes, first + 1) < 256);
    assert(0 <= byte_or_zero(bytes, first + 2) < 256);
}

/// The text of bytes is made of symbols.
pub(crate) proof fn lemma_text_symbol(bytes: Seq<u8>, i: int)
    requires
        0 <= i < base64url(bytes).len(),
    ensures
        symbol_value(base64url(bytes)[i]) is Some,
        base64url(bytes)[i] < 128,
{
    lemma_sextet(bytes, i);
    lemma_symbol(sextet(bytes, i));
}

/// All symbols: no byte is foreign.
proof fn lemma_no_foreign(text: Seq<u8>)
    requires
        forall|i: int| 0 <= i < text.len() ==> symbol_value(#[trigger] text[i]) is Some,
    ensures
        first_foreign(text) == text.len(),
    decreases text.len(),
{
    if text.len() > 0 {
        assert forall|i: int| 0 <= i < text.skip(1).len() implies symbol_value(
            #[trigger] text.skip(1)[i],
        ) is Some by {
            assert(text.skip(1)[i] == text[i + 1]);
        }
        lemma_no_foreign(text.skip(1));
    }
}

/// The text of bytes has no fault.
proof fn lemma_text_is_sound(bytes: Seq<u8>)
    ensures
        text_fault(base64url(bytes)) is None,
{
    let text = base64url(bytes);
    let n = bytes.len() as int;
    assert forall|i: int| 0 <= i < text.len() implies symbol_value(#[trigger] text[i]) is Some by {
        lemma_sextet(bytes, i);
        lemma_symbol(sextet(bytes, i));
    }
    lemma_no_foreign(text);
    if n > 0 {
        let last = text.len() - 1;
        lemma_sextet(bytes, last);
        lemma_symbol(sextet(bytes, last));
        if n % 3 == 1 {
            assert(last % 4 == 1 && last / 4 * 3 == n - 1);
        } else if n % 3 == 2 {
            assert(last % 4 == 2 && last / 4 * 3 == n - 2);
        } else {
            assert(last % 4 == 3);
        }
    }
}

/// Different bytes have different texts.
pub proof fn law_texts_differ(a: Seq<u8>, b: Seq<u8>)
    requires
        a != b,
    ensures
        base64url(a) != base64url(b),
{
    if base64url(a) == base64url(b) {
        assert(base64url(a).len() == base64url(b).len());
        assert(a.len() == b.len());
        assert forall|i: int| 0 <= i < base64url(a).len() implies #[trigger] sextet(a, i) == sextet(
            b,
            i,
        ) by {
            assert(base64url(a)[i] == base64url(b)[i]);
            lemma_sextet(a, i);
            lemma_sextet(b, i);
            lemma_symbol(sextet(a, i));
            lemma_symbol(sextet(b, i));
        }
        assert forall|i: int| 0 <= i < a.len() implies a[i] == b[i] by {
            let at = i / 3 * 4 + i % 3;
            assert(sextet(a, at) == sextet(b, at));
            assert(sextet(a, at + 1) == sextet(b, at + 1));
        }
        assert(a =~= b);
    }
}

/// The text of bytes decodes to those bytes.
pub proof fn law_text_round_trip(bytes: Seq<u8>)
    ensures
        decoded(base64url(bytes)) == Ok::<Seq<u8>, Fault>(bytes),
{
    lemma_text_is_sound(bytes);
    let found = choose|b: Seq<u8>| base64url(b) == base64url(bytes);
    assert(base64url(found) == base64url(bytes));
    if found != bytes {
        law_texts_differ(found, bytes);
    }
}

/// The number that the symbol at `i` stands for.
spec fn value_at(text: Seq<u8>, i: int) -> int {
    symbol_value(text[i]).unwrap()
}

/// The bytes that a text without a fault is written for.
spec fn text_bytes(text: Seq<u8>) -> Seq<u8> {
    Seq::new(
        (text.len() * 3 / 4) as nat,
        |i: int|
            {
                let first = i / 3 * 4;
                if i % 3 == 0 {
                    (value_at(text, first) * 4 + value_at(text, first + 1) / 16) as u8
                } else if i % 3 == 1 {
                    (value_at(text, first + 1) % 16 * 16 + value_at(text, first + 2) / 4) as u8
                } else {
                    (value_at(text, first + 2) % 4 * 64 + value_at(text, first + 3)) as u8
                }
            },
    )
}

/// If no byte is foreign, all are symbols.
proof fn lemma_all_symbols(text: Seq<u8>, i: int)
    requires
        first_foreign(text) == text.len(),
        0 <= i < text.len(),
    ensures
        symbol_value(text[i]) is Some,
        0 <= value_at(text, i) < 64,
        symbol(value_at(text, i)) == text[i],
    decreases text.len(),
{
    if i > 0 {
        lemma_all_symbols(text.skip(1), i - 1);
    }
}

/// A foreign byte comes no later than the end.
proof fn lemma_first_foreign(text: Seq<u8>)
    ensures
        first_foreign(text) <= text.len(),
    decreases text.len(),
{
    if text.len() > 0 {
        lemma_first_foreign(text.skip(1));
    }
}

/// Three bytes made of four numbers below 64 fall into those numbers again.
proof fn lemma_regroup(v0: int, v1: int, v2: int, v3: int)
    requires
        0 <= v0 < 64,
        0 <= v1 < 64,
        0 <= v2 < 64,
        0 <= v3 < 64,
    ensures
        ({
            let b0 = v0 * 4 + v1 / 16;
            let b1 = v1 % 16 * 16 + v2 / 4;
            let b2 = v2 % 4 * 64 + v3;
            &&& 0 <= b0 < 256
            &&& 0 <= b1 < 256
            &&& 0 <= b2 < 256
            &&& b0 / 4 == v0
            &&& b0 % 4 * 16 + b1 / 16 == v1
            &&& b1 % 16 * 4 + b2 / 64 == v2
            &&& b2 % 64 == v3
        }),
{
}

/// The number at `i`, or zero past the end.
spec fn value_or_zero(text: Seq<u8>, i: int) -> int {
    if i < text.len() {
        value_at(text, i)
    } else {
        0
    }
}

/// Symbols stand for numbers below 64.
proof fn lemma_value(text: Seq<u8>, i: int)
    requires
        text_fault(text) is None,
        0 <= i,
    ensures
        0 <= value_or_zero(text, i) < 64,
        i < text.len() ==> symbol(value_at(text, i)) == text[i],
{
    lemma_first_foreign(text);
    if i < text.len() {
        lemma_all_symbols(text, i);
    }
}

/// How many symbols and bytes are left from a group of four symbols on.
proof fn lemma_group_lens(text: Seq<u8>, group: int)
    requires
        text_fault(text) is None,
        0 <= 4 * group < text.len(),
    ensures
        ({
            let (symbols, bytes) = (text.len() - 4 * group, text_bytes(text).len() - 3 * group);
            ||| symbols >= 4 && bytes >= 3
            ||| symbols == 3 && bytes == 2
            ||| symbols == 2 && bytes == 1
        }),
{
}

/// The three bytes of a group of four symbols. Those past the end count as zero, as do the bits of
/// the last symbol that belong to them.
proof fn lemma_group_bytes(text: Seq<u8>, group: int)
    requires
        text_fault(text) is None,
        0 <= 4 * group < text.len(),
    ensures
        ({
            let (v0, v1, v2, v3) = (
                value_or_zero(text, 4 * group),
                value_or_zero(text, 4 * group + 1),
                value_or_zero(text, 4 * group + 2),
                value_or_zero(text, 4 * group + 3),
            );
            let bytes = text_bytes(text);
            &&& byte_or_zero(bytes, 3 * group) == v0 * 4 + v1 / 16
            &&& byte_or_zero(bytes, 3 * group + 1) == v1 % 16 * 16 + v2 / 4
            &&& byte_or_zero(bytes, 3 * group + 2) == v2 % 4 * 64 + v3
        }),
{
    let (first, b) = (4 * group, 3 * group);
    let bytes = text_bytes(text);
    lemma_group_lens(text, group);
    lemma_value(text, first);
    lemma_value(text, first + 1);
    lemma_value(text, first + 2);
    lemma_value(text, first + 3);
    lemma_regroup(
        value_or_zero(text, first),
        value_or_zero(text, first + 1),
        value_or_zero(text, first + 2),
        value_or_zero(text, first + 3),
    );
    assert(b / 3 * 4 == first && b % 3 == 0);
    assert((b + 1) / 3 * 4 == first && (b + 1) % 3 == 1);
    assert((b + 2) / 3 * 4 == first && (b + 2) % 3 == 2);
    lemma_first_foreign(text);
    assert(trailing_bits(text) == 0);
    if text.len() == first + 2 {
        assert(text.len() % 4 == 2);
        assert(value_or_zero(text, first + 1) % 16 == 0);
    } else if text.len() == first + 3 {
        assert(text.len() % 4 == 3);
        assert(value_or_zero(text, first + 2) % 4 == 0);
    }
}

/// The group of six bits at `i` of the bytes of a text is the number of its symbol at `i`.
proof fn lemma_text_sextet(text: Seq<u8>, i: int)
    requires
        text_fault(text) is None,
        0 <= i < text.len(),
    ensures
        sextet(text_bytes(text), i) == value_at(text, i),
        symbol(value_at(text, i)) == text[i],
{
    let group = i / 4;
    let first = 4 * group;
    lemma_group_bytes(text, group);
    lemma_value(text, i);
    lemma_value(text, first);
    lemma_value(text, first + 1);
    lemma_value(text, first + 2);
    lemma_value(text, first + 3);
    lemma_regroup(
        value_or_zero(text, first),
        value_or_zero(text, first + 1),
        value_or_zero(text, first + 2),
        value_or_zero(text, first + 3),
    );
    assert(i / 4 * 3 == 3 * group);
    assert(i == first + i % 4);
}

/// A text decodes if and only if it is the text of some bytes.
pub proof fn law_texts_decode(text: Seq<u8>)
    ensures
        text_fault(text) is None <==> exists|bytes: Seq<u8>| #[trigger] base64url(bytes) == text,
        decoded(text) matches Ok(bytes) ==> base64url(bytes) == text,
{
    if text_fault(text) is None {
        let bytes = text_bytes(text);
        assert(base64url(bytes).len() == text.len());
        assert forall|i: int| 0 <= i < text.len() implies base64url(bytes)[i] == text[i] by {
            lemma_text_sextet(text, i);
        }
        assert(base64url(bytes) =~= text);
    } else if exists|bytes: Seq<u8>| #[trigger] base64url(bytes) == text {
        let bytes = choose|bytes: Seq<u8>| #[trigger] base64url(bytes) == text;
        lemma_text_is_sound(bytes);
    }
}

/// The text of bytes, as characters, is encoded in UTF-8 as that text.
pub(crate) proof fn lemma_characters(bytes: Seq<u8>)
    ensures
        vstd::utf8::encode_utf8(characters(base64url(bytes))) == base64url(bytes),
{
    let text = base64url(bytes);
    let chars = characters(text);
    assert forall|i: int| 0 <= i < chars.len() implies '\0' <= #[trigger] chars[i] <= '\u{7f}'
        && chars[i] as u8 == text[i] by {
        lemma_sextet(bytes, i);
        lemma_symbol(sextet(bytes, i));
    }
    vstd::utf8::is_ascii_chars_encode_utf8(chars);
    assert(vstd::utf8::encode_utf8(chars) =~= text);
}

} // verus!
