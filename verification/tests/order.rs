use hyper_rss::order::{number_from_order_string, order_string_from_number};
use hyper_rss::ranking::sort_by_rank;
use hyper_rss::FeedError;

fn number(bytes: &[u8]) -> Result<u64, FeedError<()>> {
    number_from_order_string(bytes)
}

#[test]
fn order_strings_are_padded_to_six_digits() {
    assert_eq!(order_string_from_number(0), b"000000");
    assert_eq!(order_string_from_number(7), b"000007");
    assert_eq!(order_string_from_number(120), b"000120");
    assert_eq!(order_string_from_number(999_999), b"999999");
}

#[test]
fn order_strings_grow_past_six_digits() {
    assert_eq!(order_string_from_number(1_000_000), b"1000000");
    assert_eq!(order_string_from_number(u64::MAX), b"18446744073709551615");
}

#[test]
fn order_strings_are_what_the_formatter_writes() {
    for n in [0, 1, 9, 10, 99, 4_711, 999_999, 1_000_000, 12_345_678_901, u64::MAX] {
        assert_eq!(order_string_from_number(n), format!("{n:06}").into_bytes());
    }
}

#[test]
fn order_strings_read_back() {
    for n in [0, 1, 42, 999_999, 1_000_000, u64::MAX - 1, u64::MAX] {
        assert_eq!(number(&order_string_from_number(n)).unwrap(), n);
    }
}

#[test]
fn order_strings_sort_by_their_numbers_below_a_million() {
    for n in [0, 9, 99, 1_234, 99_999, 999_998] {
        assert!(order_string_from_number(n) < order_string_from_number(n + 1));
    }
}

#[test]
fn order_strings_stop_sorting_at_a_million() {
    assert!(order_string_from_number(1_000_000) < order_string_from_number(999_999));
}

#[test]
fn numbers_need_no_padding() {
    assert_eq!(number(b"5").unwrap(), 5);
    assert_eq!(number(b"00000000000000000000000000005").unwrap(), 5);
}

#[test]
fn a_plus_sign_is_accepted() {
    assert_eq!(number(b"+5").unwrap(), 5);
    assert_eq!(number(b"+000120").unwrap(), 120);
}

#[test]
fn numbers_that_do_not_fit_are_refused() {
    assert_eq!(number(b"18446744073709551615").unwrap(), u64::MAX);
    assert!(matches!(
        number(b"18446744073709551616"),
        Err(FeedError::InvalidOrderKey(key)) if key == b"18446744073709551616"
    ));
    assert!(matches!(number(b"99999999999999999999999"), Err(FeedError::InvalidOrderKey(_))));
}

#[test]
fn what_is_no_number_is_refused_with_the_key() {
    for key in [&b""[..], b"+", b"-", b"-5", b"++5", b"5+", b"abc", b"12a", b" 1", b"1 ", b"\xff"] {
        assert!(matches!(number(key), Err(FeedError::InvalidOrderKey(k)) if k == key));
    }
}

#[test]
fn numbers_are_what_the_parser_reads() {
    for text in ["0", "+0", "-0", "007", "1_000", "0x10", "18446744073709551615", "1e3", ""] {
        assert_eq!(number(text.as_bytes()).ok(), text.parse::<u64>().ok());
    }
}

#[test]
fn items_of_one_rank_keep_their_order() {
    let items = vec![(1, "a"), (3, "b"), (1, "c"), (2, "d"), (3, "e"), (1, "f")];
    let mut sorted = sort_by_rank(items);
    sorted.reverse();
    assert_eq!(sorted, [(3, "b"), (3, "e"), (2, "d"), (1, "a"), (1, "c"), (1, "f")]);
}
