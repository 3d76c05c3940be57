use torrent::text::{
    ascii_string, hex_upper_digit, is_unreserved, push_decimal, push_percent_encoded,
};
use torrent::{bool_from_int, bool_from_optional_int, NotZeroOrOne};

fn decimal(n: u64) -> String {
    let mut out = Vec::new();
    push_decimal(&mut out, n);
    String::from_utf8(out).unwrap()
}

fn escaped(data: &[u8]) -> String {
    let mut out = b"x=".to_vec();
    push_percent_encoded(&mut out, data);
    String::from_utf8(out).unwrap()
}

#[test]
fn numbers_are_written_in_base_ten() {
    assert_eq!(decimal(0), "0");
    assert_eq!(decimal(7), "7");
    assert_eq!(decimal(10), "10");
    assert_eq!(decimal(6881), "6881");
    assert_eq!(decimal(1_000_000), "1000000");
    assert_eq!(decimal(u64::MAX), "18446744073709551615");
}

#[test]
fn bytes_are_escaped_one_by_one() {
    assert_eq!(escaped(b""), "x=");
    assert_eq!(escaped(b"abcXYZ019-._~"), "x=abcXYZ019-._~");
    assert_eq!(escaped(&[0, 9, 10, 15, 16, 255]), "x=%00%09%0A%0F%10%FF");
    assert_eq!(escaped(b" +&=%/"), "x=%20%2B%26%3D%25%2F");
}

#[test]
fn the_unreserved_bytes_are_letters_digits_and_four_marks() {
    let kept: Vec<u8> = (0u8..=255).filter(|b| is_unreserved(*b)).collect();
    let expected: Vec<u8> =
        b"-.0123456789ABCDEFGHIJKLMNOPQRSTUVWXYZ_abcdefghijklmnopqrstuvwxyz~".to_vec();
    assert_eq!(kept, expected);
}

#[test]
fn hexadecimal_digits_are_upper_case() {
    let digits: Vec<u8> = (0u8..16).map(hex_upper_digit).collect();
    assert_eq!(digits, b"0123456789ABCDEF".to_vec());
}

#[test]
fn ascii_bytes_make_a_string() {
    assert_eq!(ascii_string(b"port=6881".to_vec()), "port=6881");
    assert_eq!(ascii_string(Vec::new()), "");
}

#[test]
fn a_flag_is_zero_or_one() {
    assert_eq!(bool_from_int(0), Ok(false));
    assert_eq!(bool_from_int(1), Ok(true));
    assert_eq!(bool_from_int(2), Err(NotZeroOrOne { value: 2 }));
    assert_eq!(bool_from_int(255), Err(NotZeroOrOne { value: 255 }));
}

#[test]
fn a_flag_may_be_absent() {
    assert_eq!(bool_from_optional_int(None), Ok(None));
    assert_eq!(bool_from_optional_int(Some(0)), Ok(Some(false)));
    assert_eq!(bool_from_optional_int(Some(1)), Ok(Some(true)));
    assert_eq!(bool_from_optional_int(Some(7)), Err(NotZeroOrOne { value: 7 }));
}
