//! Positions in the feed as the keys of the `order` namespace: decimal numbers, padded with zeros
//! to six digits. The order of keys of one length is the order of their numbers; a longer key can
//! sort before a shorter one.

use vstd::prelude::*;

use crate::bytes::copy_bytes;
use crate::feed::FeedError;

verus! {

/// The width to which order keys are padded.
pub const ORDER_WIDTH: usize = 6;

/// The first number with more digits than [`ORDER_WIDTH`].
pub const ORDER_LIMIT: u64 = 1_000_000;

/// The byte is a decimal digit.
pub open spec fn is_digit(byte: u8) -> bool {
    0x30 <= byte <= 0x39
}

/// The digit of value `d`.
pub open spec fn digit(d: nat) -> u8 {
    (0x30 + d) as u8
}

/// The number in decimal, without leading zeros.
pub open spec fn decimal(n: nat) -> Seq<u8>
    decreases n,
{
    if n < 10 {
        seq![digit(n)]
    } else {
        decimal(n / 10).push(digit(n % 10))
    }
}

/// The number in decimal, filled up with zeros on the left to [`ORDER_WIDTH`] digits.
pub open spec fn order_string(n: nat) -> Seq<u8> {
    let digits = decimal(n);
    if digits.len() < ORDER_WIDTH {
        Seq::new((ORDER_WIDTH - digits.len()) as nat, |i: int| 0x30u8) + digits
    } else {
        digits
    }
}

/// The number that a sequence of digits stands for.
pub open spec fn digits_value(digits: Seq<u8>) -> nat
    decreases digits.len(),
{
    if digits.len() == 0 {
        0
    } else {
        10 * digits_value(digits.drop_last()) + (digits.last() - 0x30) as nat
    }
}

/// The digits of an order key: what is left when one leading `+` is taken away.
pub open spec fn unsigned_part(bytes: Seq<u8>) -> Seq<u8> {
    if bytes.len() > 0 && bytes[0] == 0x2b {
        bytes.skip(1)
    } else {
        bytes
    }
}

/// The number that an order key stands for: an optional `+`, then at least one digit and nothing
/// but digits, and no more than fits in 64 bits.
pub open spec fn order_number(bytes: Seq<u8>) -> Option<u64> {
    let digits = unsigned_part(bytes);
    if digits.len() > 0 && (forall|i: int|
        0 <= i < digits.len() ==> is_digit(#[trigger] digits[i])) && digits_value(digits)
        <= u64::MAX {
        Some(digits_value(digits) as u64)
    } else {
        None
    }
}

/// The number in decimal.
fn decimal_digits(n: u64) -> (digits: Vec<u8>)
    ensures
        digits@ == decimal(n as nat),
        1 <= digits@.len() <= 20,
        n < 10 ==> digits@.len() == 1,
    decreases n,
{
    proof {
        lemma_decimal_len(n as nat);
    }
    let mut digits: Vec<u8> = Vec::new();
    if n >= 10 {
        digits = decimal_digits(n / 10);
    }
    digits.push(0x30 + (n % 10) as u8);
    assert(digits@ =~= decimal(n as nat));
    digits
}

/// The order key of the item at position `n`: the number in decimal, padded with zeros to six
/// digits.
pub fn order_string_from_number(n: u64) -> (bytes: Vec<u8>)
    ensures
        bytes@ == order_string(n as nat),
{
    let mut digits = decimal_digits(n);
    let ghost all = digits@;
    let mut bytes: Vec<u8> = Vec::new();
    while bytes.len() + digits.len() < ORDER_WIDTH
        invariant
            digits@ == all,
            all.len() <= 20,
            bytes@.len() + all.len() <= ORDER_WIDTH || bytes@.len() == 0,
            bytes@ =~= Seq::new(bytes@.len(), |i: int| 0x30u8),
        decreases ORDER_WIDTH - bytes@.len(),
    {
        bytes.push(0x30);
    }
    bytes.append(&mut digits);
    assert(bytes@ =~= order_string(n as nat));
    bytes
}

/// The position that an order key stands for, or [`FeedError::InvalidOrderKey`] with the key if
/// it stands for none.
pub fn number_from_order_string<E>(bytes: &[u8]) -> (number: Result<u64, FeedError<E>>)
    ensures
        match order_number(bytes@) {
            Some(n) => number == Ok::<u64, FeedError<E>>(n),
            None => number matches Err(FeedError::InvalidOrderKey(key)) && key@ == bytes@,
        },
{
    let start: usize = if bytes.len() > 0 && bytes[0] == 0x2b {
        1
    } else {
        0
    };
    let ghost digits = unsigned_part(bytes@);
    assert(digits =~= bytes@.skip(start as int));
    if start == bytes.len() {
        return Err(FeedError::InvalidOrderKey(copy_bytes(bytes)));
    }
    let mut value: u64 = 0;
    let mut i: usize = start;
    while i < bytes.len()
        invariant
            start <= i <= bytes@.len(),
            digits == bytes@.skip(start as int),
            digits == unsigned_part(bytes@),
            forall|j: int| 0 <= j < i - start ==> is_digit(#[trigger] digits[j]),
            value == digits_value(digits.take(i - start)),
        decreases bytes@.len() - i,
    {
        let byte = bytes[i];
        let ghost k = i - start;
        assert(digits[k] == byte);
        if byte < 0x30 || byte > 0x39 {
            return Err(FeedError::InvalidOrderKey(copy_bytes(bytes)));
        }
        assert(digits.take(k + 1).drop_last() =~= digits.take(k));
        let d = (byte - 0x30) as u64;
        if value > (u64::MAX - d) / 10 {
            proof {
                lemma_digits_value_prefix(digits, k + 1);
            }
            return Err(FeedError::InvalidOrderKey(copy_bytes(bytes)));
        }
        value = 10 * value + d;
        i += 1;
    }
    assert(digits.take(i - start) =~= digits);
    Ok(value)
}

/// A number of `64` bits has at most twenty digits.
proof fn lemma_decimal_len(n: nat)
    requires
        n <= u64::MAX,
    ensures
        1 <= decimal(n).len() <= 20,
        n >= 10 ==> decimal(n).len() == decimal(n / 10).len() + 1,
{
    lemma_decimal_len_below(n, 20);
    assert(n < pow10(20)) by {
        reveal_with_fuel(pow10, 21);
    }
}

/// Ten to the power of `k`.
pub open spec fn pow10(k: nat) -> nat
    decreases k,
{
    if k == 0 {
        1
    } else {
        10 * pow10((k - 1) as nat)
    }
}

/// A number below ten to the power of `k` has at most `k` digits.
proof fn lemma_decimal_len_below(n: nat, k: nat)
    requires
        k > 0,
    ensures
        decimal(n).len() >= 1,
        n < pow10(k) ==> decimal(n).len() <= k,
    decreases n,
{
    if n >= 10 {
        if k == 1 {
            lemma_decimal_len_below(n / 10, 1);
            assert(pow10(1) == 10) by {
                reveal_with_fuel(pow10, 2);
            }
        } else {
            lemma_decimal_len_below(n / 10, (k - 1) as nat);
        }
    }
}

/// A longer sequence of digits stands for no smaller number.
proof fn lemma_digits_value_prefix(digits: Seq<u8>, k: int)
    requires
        0 <= k <= digits.len(),
    ensures
        digits_value(digits.take(k)) <= digits_value(digits),
    decreases digits.len(),
{
    if k == digits.len() {
        assert(digits.take(k) =~= digits);
    } else {
        lemma_digits_value_prefix(digits.drop_last(), k);
        assert(digits.drop_last().take(k) =~= digits.take(k));
    }
}

/// The last `k` digits of a number.
spec fn low_digits(n: nat, k: nat) -> Seq<u8>
    decreases k,
{
    if k == 0 {
        Seq::empty()
    } else {
        low_digits(n / 10, (k - 1) as nat).push(digit(n % 10))
    }
}

/// A sequence of `k` zeros.
spec fn zeros(k: nat) -> Seq<u8> {
    Seq::new(k, |i: int| 0x30u8)
}

/// A number padded to `k` digits is its last `k` digits.
proof fn lemma_padded(n: nat, k: nat)
    requires
        k >= decimal(n).len(),
    ensures
        zeros((k - decimal(n).len()) as nat) + decimal(n) == low_digits(n, k),
        n < pow10(k),
        low_digits(n, k).len() == k,
    decreases n, k,
{
    lemma_decimal_len_below(n, 1);
    let len = decimal(n).len();
    let below = (k - 1) as nat;
    if n < 10 {
        assert(len == 1);
        lemma_zero_digits(below);
        assert(n / 10 == 0);
        assert(zeros(below) + decimal(n) =~= low_digits(n, k));
        lemma_pow10_positive(below);
    } else {
        lemma_padded(n / 10, below);
        assert(zeros((k - len) as nat) + decimal(n) =~= (zeros((k - len) as nat) + decimal(
            n / 10,
        )).push(digit(n % 10)));
    }
}

/// Ten to any power is at least one.
proof fn lemma_pow10_positive(k: nat)
    ensures
        pow10(k) >= 1,
    decreases k,
{
    if k > 0 {
        lemma_pow10_positive((k - 1) as nat);
    }
}

/// The digits of zero are zeros.
proof fn lemma_zero_digits(k: nat)
    ensures
        low_digits(0, k) == zeros(k),
    decreases k,
{
    if k > 0 {
        lemma_zero_digits((k - 1) as nat);
    }
    assert(low_digits(0, k) =~= zeros(k));
}

/// The last digits of a number stand for it if they are all of it.
proof fn lemma_low_digits_value(n: nat, k: nat)
    requires
        n < pow10(k),
    ensures
        low_digits(n, k).len() == k,
        digits_value(low_digits(n, k)) == n,
        forall|i: int| 0 <= i < k ==> is_digit(#[trigger] low_digits(n, k)[i]),
    decreases k,
{
    if k > 0 {
        let below = (k - 1) as nat;
        lemma_low_digits_value(n / 10, below);
        assert(low_digits(n, k).drop_last() =~= low_digits(n / 10, below));
    }
}

/// Numbers of `k` digits are ordered as their digits are.
proof fn lemma_low_digits_sorted(i: nat, j: nat, k: nat)
    requires
        i < j < pow10(k),
    ensures
        crate::bytes::before(low_digits(i, k), low_digits(j, k)),
    decreases k,
{
    if k > 0 {
        let below = (k - 1) as nat;
        let (a, b) = (low_digits(i, k), low_digits(j, k));
        lemma_low_digits_value(i, k);
        lemma_low_digits_value(j, k);
        if i / 10 < j / 10 {
            lemma_low_digits_sorted(i / 10, j / 10, below);
            let (x, y) = (low_digits(i / 10, below), low_digits(j / 10, below));
            lemma_low_digits_value(i / 10, below);
            lemma_low_digits_value(j / 10, below);
            let at = choose|at: int| crate::bytes::parts_at(x, y, at);
            assert(forall|l: int| 0 <= l < below ==> a[l] == x[l] && b[l] == y[l]);
            assert(at < below);
            assert(crate::bytes::parts_at(a, b, at));
        } else {
            assert(i / 10 == j / 10);
            assert(crate::bytes::parts_at(a, b, below as int));
        }
    }
}

/// An order key is the last digits of its number, as many as it is long.
proof fn lemma_order_string_digits(n: nat)
    ensures
        order_string(n) == low_digits(n, order_string(n).len()),
        n < pow10(order_string(n).len()),
        order_string(n).len() >= ORDER_WIDTH,
        n < ORDER_LIMIT ==> order_string(n).len() == ORDER_WIDTH,
{
    let len = decimal(n).len();
    lemma_decimal_len_below(n, 6);
    assert(pow10(6) == ORDER_LIMIT) by {
        reveal_with_fuel(pow10, 7);
    }
    if len < ORDER_WIDTH {
        lemma_padded(n, ORDER_WIDTH as nat);
        assert(order_string(n) =~= zeros((ORDER_WIDTH - len) as nat) + decimal(n));
    } else {
        lemma_padded(n, len);
        assert(order_string(n) =~= zeros(0) + decimal(n));
    }
}

/// Reading an order key gives back the number it was made from.
pub proof fn law_order_key_round_trip(n: u64)
    ensures
        order_number(order_string(n as nat)) == Some(n),
{
    let key = order_string(n as nat);
    lemma_order_string_digits(n as nat);
    lemma_low_digits_value(n as nat, key.len());
    assert(is_digit(key[0]));
    assert(unsigned_part(key) == key);
}

/// Different numbers have different order keys.
pub proof fn law_order_keys_differ(i: u64, j: u64)
    requires
        i != j,
    ensures
        order_string(i as nat) != order_string(j as nat),
{
    law_order_key_round_trip(i);
    law_order_key_round_trip(j);
}

/// Among order keys of one length the order of the keys is the order of the numbers. All numbers
/// below [`ORDER_LIMIT`] have keys of one length.
pub proof fn law_order_keys_sorted(i: nat, j: nat)
    requires
        order_string(i).len() == order_string(j).len() || (i < ORDER_LIMIT && j < ORDER_LIMIT),
    ensures
        crate::bytes::before(order_string(i), order_string(j)) <==> i < j,
{
    lemma_order_string_digits(i);
    lemma_order_string_digits(j);
    let k = order_string(i).len();
    if i < j {
        lemma_low_digits_sorted(i, j, k);
    } else if j < i {
        lemma_low_digits_sorted(j, i, k);
        crate::bytes::lemma_before_asymmetric(order_string(j), order_string(i));
    } else {
        crate::bytes::lemma_before_irreflexive(order_string(i));
    }
}

/// Powers of ten.
proof fn lemma_pow10(k: nat)
    ensures
        pow10(k) == vstd::arithmetic::power::pow(10, k),
        pow10(k) >= 1,
    decreases k,
{
    reveal(vstd::arithmetic::power::pow);
    if k > 0 {
        lemma_pow10((k - 1) as nat);
    }
}

/// The digit of a higher place is that of the place below in a tenth of the number.
proof fn lemma_next_place(n: nat, k: nat)
    ensures
        n / pow10(k + 1) == (n / 10) / pow10(k),
{
    lemma_pow10(k);
    vstd::arithmetic::div_mod::lemma_div_denominator(n as int, 10, pow10(k) as int);
}

/// Each of the digits that stand for a number is that number's digit of its place.
proof fn lemma_digits_have_places(digits: Seq<u8>)
    requires
        forall|i: int| 0 <= i < digits.len() ==> is_digit(#[trigger] digits[i]),
    ensures
        digits_value(digits) < pow10(digits.len()),
        forall|i: int|
            0 <= i < digits.len() ==> (#[trigger] digits[i]) == 0x30 + digits_value(digits) / pow10(
                (digits.len() - 1 - i) as nat,
            ) % 10,
    decreases digits.len(),
{
    if digits.len() > 0 {
        let first = digits.drop_last();
        let n = digits_value(digits);
        assert(is_digit(digits[digits.len() - 1]));
        assert forall|i: int| 0 <= i < first.len() implies is_digit(#[trigger] first[i]) by {
            assert(is_digit(digits[i]));
        }
        lemma_digits_have_places(first);
        assert(n / 10 == digits_value(first));
        assert forall|i: int| 0 <= i < digits.len() implies (#[trigger] digits[i]) == 0x30 + n
            / pow10((digits.len() - 1 - i) as nat) % 10 by {
            if i < first.len() {
                let k = (first.len() - 1 - i) as nat;
                lemma_next_place(n, k);
                assert((digits.len() - 1 - i) as nat == k + 1);
                assert(first[i] == 0x30 + digits_value(first) / pow10(k) % 10);
                assert(digits[i] == first[i]);
            } else {
                assert((digits.len() - 1 - i) as nat == 0);
                assert(pow10(0) == 1);
                assert(n / 1 == n);
                assert(n % 10 == digits.last() - 0x30);
            }
        }
    }
}

/// Digits that are those of a number, each of its place, stand for it.
proof fn lemma_places_have_digits(digits: Seq<u8>, n: nat)
    requires
        n < pow10(digits.len()),
        forall|i: int|
            0 <= i < digits.len() ==> (#[trigger] digits[i]) == 0x30 + n / pow10(
                (digits.len() - 1 - i) as nat,
            ) % 10,
    ensures
        forall|i: int| 0 <= i < digits.len() ==> is_digit(#[trigger] digits[i]),
        digits_value(digits) == n,
    decreases digits.len(),
{
    if digits.len() > 0 {
        let first = digits.drop_last();
        assert forall|i: int| 0 <= i < first.len() implies (#[trigger] first[i]) == 0x30 + (n / 10)
            / pow10((first.len() - 1 - i) as nat) % 10 by {
            assert(first[i] == digits[i]);
            lemma_next_place(n, (first.len() - 1 - i) as nat);
        }
        lemma_places_have_digits(first, n / 10);
        assert(pow10(0) == 1);
        assert(digits[digits.len() - 1] == 0x30 + n / pow10(0) % 10);
        assert forall|i: int| 0 <= i < digits.len() implies is_digit(#[trigger] digits[i]) by {
            if i < first.len() {
                assert(is_digit(first[i]));
            }
        }
    }
}

/// The bytes are the ASCII digits of `n` in decimal, with leading zeros where there are more of
/// them: the byte at `i` of `len` is the digit for the weight ten to the power of `len - 1 - i`.
pub open spec fn is_decimal_text(bytes: Seq<u8>, n: nat) -> bool {
    &&& bytes.len() > 0
    &&& n < vstd::arithmetic::power::pow(10, bytes.len())
    &&& forall|i: int|
        0 <= i < bytes.len() ==> (#[trigger] bytes[i]) == 0x30 + n as int
            / vstd::arithmetic::power::pow(10, (bytes.len() - 1 - i) as nat) % 10
}

/// The sum of the digits, each times its power of ten.
pub open spec fn weighted_sum(bytes: Seq<u8>) -> int
    decreases bytes.len(),
{
    if bytes.len() == 0 {
        0
    } else {
        (bytes[0] - 0x30) * vstd::arithmetic::power::pow(10, (bytes.len() - 1) as nat)
            + weighted_sum(bytes.skip(1))
    }
}

/// A text of digits is decimal for a number if and only if that is what its digits stand for.
proof fn lemma_decimal_text(digits: Seq<u8>, n: nat)
    ensures
        is_decimal_text(digits, n) <==> {
            &&& digits.len() > 0
            &&& forall|i: int| 0 <= i < digits.len() ==> is_digit(#[trigger] digits[i])
            &&& digits_value(digits) == n
        },
{
    assert forall|k: nat| pow10(k) == #[trigger] vstd::arithmetic::power::pow(10, k) by {
        lemma_pow10(k);
    }
    if is_decimal_text(digits, n) {
        lemma_places_have_digits(digits, n);
    } else if digits.len() > 0 && forall|i: int|
        0 <= i < digits.len() ==> is_digit(#[trigger] digits[i]) {
        lemma_digits_have_places(digits);
    }
}

/// An order key stands for `n` if and only if it is `n` in decimal, behind any leading zeros and
/// one `+` at most. So a key with any other byte, or of a number that takes more than 64 bits,
/// stands for none.
pub proof fn law_order_number(bytes: Seq<u8>, n: u64)
    ensures
        order_number(bytes) == Some(n) <==> is_decimal_text(bytes, n as nat) || (bytes.len() > 0
            && bytes[0] == 0x2b && is_decimal_text(bytes.skip(1), n as nat)),
{
    lemma_decimal_text(bytes, n as nat);
    if bytes.len() > 0 {
        lemma_decimal_text(bytes.skip(1), n as nat);
        if bytes[0] == 0x2b {
            assert(!is_digit(bytes[0]));
        }
    }
}

/// The number that a text of digits stands for is the sum of the digits, each times its power of
/// ten, if that fits in 64 bits.
pub proof fn law_order_number_is_sum(bytes: Seq<u8>)
    requires
        bytes.len() > 0,
        forall|i: int| 0 <= i < bytes.len() ==> 0x30 <= #[trigger] bytes[i] <= 0x39,
    ensures
        0 <= weighted_sum(bytes),
        order_number(bytes) == if weighted_sum(bytes) <= u64::MAX {
            Some(weighted_sum(bytes) as u64)
        } else {
            None
        },
{
    assert forall|i: int| 0 <= i < bytes.len() implies is_digit(#[trigger] bytes[i]) by {
        assert(0x30 <= bytes[i] <= 0x39);
    }
    lemma_weighted_sum(bytes);
    assert(0x30 <= bytes[0] <= 0x39);
}

/// The sum of the digits by their weights is what they stand for.
proof fn lemma_weighted_sum(digits: Seq<u8>)
    requires
        forall|i: int| 0 <= i < digits.len() ==> is_digit(#[trigger] digits[i]),
    ensures
        weighted_sum(digits) == digits_value(digits),
    decreases digits.len(),
{
    if digits.len() == 1 {
        lemma_pow10(0);
        assert(digits.skip(1) =~= Seq::empty());
        assert(digits.drop_last() =~= Seq::empty());
        assert(is_digit(digits[0]));
        assert(digits_value(digits.drop_last()) == 0);
        assert(weighted_sum(digits.skip(1)) == 0);
        assert((digits[0] - 0x30) * vstd::arithmetic::power::pow(10, 0) == digits[0] - 0x30)
            by (nonlinear_arith)
            requires
                vstd::arithmetic::power::pow(10, 0) == 1,
        ;
    } else if digits.len() > 1 {
        let (front, rest) = (digits.drop_last(), digits.skip(1));
        let middle = rest.drop_last();
        assert forall|i: int| 0 <= i < front.len() implies is_digit(#[trigger] front[i]) by {
            assert(is_digit(digits[i]));
        }
        assert forall|i: int| 0 <= i < rest.len() implies is_digit(#[trigger] rest[i]) by {
            assert(is_digit(digits[i + 1]));
        }
        lemma_weighted_sum(front);
        lemma_weighted_sum(rest);
        assert(front.skip(1) =~= middle);
        assert forall|i: int| 0 <= i < middle.len() implies is_digit(#[trigger] middle[i]) by {
            assert(is_digit(digits[i + 1]));
        }
        lemma_weighted_sum(middle);
        let (a, p, q) = (
            digits[0] - 0x30,
            vstd::arithmetic::power::pow(10, (front.len() - 1) as nat),
            vstd::arithmetic::power::pow(10, (digits.len() - 1) as nat),
        );
        lemma_pow10((front.len() - 1) as nat);
        lemma_pow10((digits.len() - 1) as nat);
        assert(q == 10 * p);
        assert(a * q == 10 * (a * p)) by (nonlinear_arith)
            requires
                q == 10 * p,
        ;
        assert(rest.last() == digits.last());
        assert(is_digit(rest[rest.len() - 1]));
    }
}

/// A number of more than one digit is at least the power of ten of its first.
proof fn lemma_decimal_is_short(n: nat)
    ensures
        decimal(n).len() > 1 ==> n >= pow10((decimal(n).len() - 1) as nat),
    decreases n,
{
    if n >= 10 {
        lemma_decimal_is_short(n / 10);
        lemma_decimal_len_below(n / 10, 1);
        if decimal(n / 10).len() == 1 {
            assert(pow10(1) == 10) by {
                reveal_with_fuel(pow10, 2);
            }
        }
    }
}

/// The order key of a number is the number in decimal, in at least six digits, and in no more
/// than it takes.
pub proof fn law_order_string(n: nat)
    ensures
        is_decimal_text(order_string(n), n),
        order_string(n).len() >= 6,
        order_string(n).len() > 6 ==> n >= vstd::arithmetic::power::pow(
            10,
            (order_string(n).len() - 1) as nat,
        ),
{
    let key = order_string(n);
    lemma_order_string_digits(n);
    lemma_low_digits_value(n, key.len());
    lemma_decimal_text(key, n);
    if key.len() > 6 {
        lemma_decimal_is_short(n);
        lemma_pow10((key.len() - 1) as nat);
    }
}

} // verus!
