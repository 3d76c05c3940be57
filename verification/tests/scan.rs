use torrent::scan::{
    count_entries, find_byte, find_last_value, info_repeats, nesting_of, nesting_within,
    next_token, read_number, skip_value, string_token, MAX_NESTING,
};

#[test]
fn the_nesting_is_the_number_of_open_lists_and_dictionaries() {
    assert_eq!(nesting_of(b""), 0);
    assert_eq!(nesting_of(b"i1e"), 0);
    assert_eq!(nesting_of(b"4:spam"), 0);
    assert_eq!(nesting_of(b"le"), 1);
    assert_eq!(nesting_of(b"d1:ali1eli2eeee"), 3);
    assert_eq!(nesting_of(b"lllll"), 5);
    assert_eq!(nesting_of(b"lelllll"), 1);
    assert_eq!(nesting_of(b"l5:llllle"), 1);
    assert_eq!(nesting_of(b"l9:llll"), 1);
    assert_eq!(nesting_of(b"lxllll"), 1);
    assert_eq!(nesting_of(b"li1lllle"), 1);
    assert_eq!(nesting_of(b"elll"), 0);
    assert_eq!(MAX_NESTING, 64);
    assert!(nesting_within(b"ll", 2));
    assert!(!nesting_within(b"lll", 2));
}

#[test]
fn tokens_are_told_apart_by_their_first_byte() {
    assert_eq!(next_token(b"i42e4:spam", 0, 0), Some((4, 0)));
    assert_eq!(next_token(b"i42e4:spam", 4, 0), Some((10, 0)));
    assert_eq!(next_token(b"le", 0, 0), Some((1, 1)));
    assert_eq!(next_token(b"le", 1, 1), Some((2, 0)));
    assert_eq!(next_token(b"de", 0, 0), Some((1, 1)));
    assert_eq!(next_token(b"e", 0, 0), None);
    assert_eq!(next_token(b"i42", 0, 0), None);
    assert_eq!(next_token(b"x", 0, 0), None);
    assert_eq!(next_token(b"", 0, 0), None);
    assert_eq!(next_token(b"5:spam", 0, 0), None);
}

#[test]
fn a_byte_string_has_its_length_in_digits() {
    assert_eq!(string_token(b"4:spam", 0), Some((2, 6)));
    assert_eq!(string_token(b"0:", 0), Some((2, 2)));
    assert_eq!(string_token(b"004:spam", 0), Some((4, 8)));
    assert_eq!(string_token(b"xx10:0123456789yy", 2), Some((5, 15)));
    assert_eq!(string_token(b"4:spa", 0), None);
    assert_eq!(string_token(b"4spam", 0), None);
    assert_eq!(string_token(b"4x:spam", 0), None);
    assert_eq!(string_token(b"99999999999999999999999999:a", 0), None);
    assert_eq!(string_token(b":a", 0), None);
    assert_eq!(string_token(b"1:a", 7), None);
    assert_eq!(read_number(b"a123b", 1, 4), Some(123));
    assert_eq!(read_number(b"a123b", 1, 1), Some(0));
    assert_eq!(read_number(b"a123b", 1, 5), None);
    assert_eq!(read_number(usize::MAX.to_string().as_bytes(), 0, usize::MAX.to_string().len()), Some(usize::MAX));
    assert_eq!(find_byte(b"abcabc", 1, b'a'), 3);
    assert_eq!(find_byte(b"abcabc", 4, b'a'), 6);
}

#[test]
fn a_value_is_passed_over_whole() {
    assert_eq!(skip_value(b"i1ei2e", 0), Some(3));
    assert_eq!(skip_value(b"i1ei2e", 3), Some(6));
    assert_eq!(skip_value(b"xd1:ali1ei2eee3:end", 1), Some(14));
    assert_eq!(skip_value(b"lle", 0), None);
    assert_eq!(skip_value(b"e", 0), None);
    assert_eq!(skip_value(b"", 0), None);
    assert_eq!(skip_value(b"le", 5), None);
}

#[test]
fn keys_are_counted_in_the_bytes() {
    let entries = b"1:ai1e1:bi2e1:ai3e1:ble1:ai4ee";
    assert_eq!(count_entries(entries, 0, b"a"), 2);
    assert_eq!(count_entries(entries, 0, b"b"), 2);
    assert_eq!(count_entries(entries, 6, b"b"), 2);
    assert_eq!(count_entries(entries, 12, b"b"), 1);
    assert_eq!(count_entries(entries, 0, b"c"), 0);
    assert_eq!(find_last_value(entries, 0, b"a"), Some(26));
    assert_eq!(find_last_value(entries, 0, b"b"), Some(21));
    assert_eq!(find_last_value(entries, 0, b"c"), None);
}

#[test]
fn repeated_keys_of_the_info_dictionary_are_found() {
    assert!(info_repeats(b"d4:infod6:lengthi1e6:lengthi2eee", "length"));
    assert!(!info_repeats(b"d4:infod6:lengthi1e6:lengthi2eee", "files"));
    assert!(!info_repeats(b"d4:infod6:lengthi1eee", "length"));
    assert!(!info_repeats(b"d6:lengthi1e6:lengthi2e4:infodee", "length"));
    assert!(!info_repeats(b"d4:infod5:filesld6:lengthi1eed6:lengthi2eeeee", "length"));
    assert!(info_repeats(b"d4:infode4:infod5:filesle5:filesleee", "files"));
    assert!(!info_repeats(b"d4:infod5:filesle5:fileslee4:infodee", "files"));
    assert!(!info_repeats(b"l4:infod6:lengthi1e6:lengthi2eee", "length"));
    assert!(!info_repeats(b"", "length"));
}
