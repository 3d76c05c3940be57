use torrent::bencode::{same_bytes, Bencode};

fn dict(entries: Vec<(&str, Bencode)>) -> Bencode {
    Bencode::Dict(entries.into_iter().map(|(k, v)| (k.as_bytes().to_vec(), v)).collect())
}

#[test]
fn a_document_is_read_into_a_tree() {
    assert_eq!(Bencode::from_bytes(b"i-3e"), Some(Bencode::Int(-3)));
    assert_eq!(Bencode::from_bytes(b"4:spam"), Some(Bencode::Bytes(b"spam".to_vec())));
    assert_eq!(
        Bencode::from_bytes(b"li1e1:ae"),
        Some(Bencode::List(vec![Bencode::Int(1), Bencode::Bytes(b"a".to_vec())]))
    );
    assert_eq!(
        Bencode::from_bytes(b"d3:keyli1eee"),
        Some(dict(vec![("key", Bencode::List(vec![Bencode::Int(1)]))]))
    );
    assert_eq!(Bencode::from_bytes(b"d3:key"), None);
    assert_eq!(Bencode::from_bytes(b""), None);
}

#[test]
fn a_tree_is_written_with_its_keys_sorted() {
    let doc = dict(vec![
        ("b", Bencode::Int(2)),
        ("a", Bencode::List(vec![Bencode::Bytes(b"x".to_vec()), Bencode::Int(-1)])),
    ]);
    assert_eq!(doc.to_bytes(), Some(b"d1:al1:xi-1ee1:bi2ee".to_vec()));
    assert_eq!(Bencode::Bytes(vec![]).to_bytes(), Some(b"0:".to_vec()));
}

#[test]
fn the_last_entry_of_a_key_counts() {
    let doc = dict(vec![("a", Bencode::Int(1)), ("b", Bencode::Int(2)), ("a", Bencode::Int(3))]);
    assert_eq!(doc.get("a"), Some(&Bencode::Int(3)));
    assert_eq!(doc.get("b"), Some(&Bencode::Int(2)));
    assert_eq!(doc.get("c"), None);
    assert!(doc.has_repeated("a"));
    assert!(!doc.has_repeated("b"));
    assert!(!doc.has_repeated("c"));
    assert_eq!(doc.to_bytes(), Some(b"d1:ai3e1:bi2ee".to_vec()));
    assert_eq!(Bencode::Int(1).get("a"), None);
    assert!(!Bencode::Int(1).has_repeated("a"));
}

#[test]
fn a_tree_is_read_by_its_kind() {
    assert_eq!(Bencode::Int(5).as_int(), Some(5));
    assert_eq!(Bencode::Int(5).as_bytes(), None);
    assert_eq!(Bencode::Bytes(vec![1]).as_bytes(), Some(&vec![1u8]));
    assert_eq!(Bencode::Bytes(vec![1]).as_list(), None);
    assert_eq!(Bencode::List(vec![]).as_list(), Some(&vec![]));
    assert_eq!(Bencode::List(vec![]).as_dict(), None);
    assert_eq!(dict(vec![]).as_dict(), Some(&vec![]));
    assert_eq!(dict(vec![]).as_int(), None);
}

#[test]
fn byte_strings_are_compared_byte_by_byte() {
    assert!(same_bytes(b"abc", b"abc"));
    assert!(!same_bytes(b"abc", b"abd"));
    assert!(!same_bytes(b"abc", b"ab"));
    assert!(same_bytes(b"", b""));
}

#[test]
fn a_document_is_read_to_a_depth_of_sixty_four() {
    let mut bytes = vec![b'l'; 64];
    bytes.extend_from_slice(&[b'e'; 64]);
    let mut expected = Bencode::List(vec![]);
    for _ in 1..64 {
        expected = Bencode::List(vec![expected]);
    }
    assert_eq!(Bencode::from_bytes(&bytes), Some(expected));

    let mut bytes = vec![b'l'; 65];
    bytes.extend_from_slice(&[b'e'; 65]);
    assert_eq!(Bencode::from_bytes(&bytes), None);
    assert_eq!(Bencode::from_bytes(&vec![b'l'; 1_000_000]), None);

    let mut bytes = b"d1:a".to_vec();
    bytes.extend_from_slice(&[b'd'; 64]);
    assert_eq!(Bencode::from_bytes(&bytes), None);
}

#[test]
fn bytes_inside_a_byte_string_do_not_nest() {
    let mut bytes = b"l100:".to_vec();
    bytes.extend_from_slice(&[b'l'; 100]);
    bytes.push(b'e');
    assert_eq!(
        Bencode::from_bytes(&bytes),
        Some(Bencode::List(vec![Bencode::Bytes(vec![b'l'; 100])]))
    );
}

fn lists_around(levels: usize) -> Bencode {
    let mut doc = Bencode::Int(7);
    for _ in 0..levels {
        doc = Bencode::List(vec![doc]);
    }
    doc
}

#[test]
fn a_tree_is_written_to_a_depth_of_sixty_four() {
    let mut expected = vec![b'l'; 64];
    expected.extend_from_slice(b"i7e");
    expected.extend(std::iter::repeat(b'e').take(64));
    let doc = lists_around(64);
    assert!(doc.nested_within(64));
    assert!(!doc.nested_within(63));
    assert_eq!(doc.to_bytes(), Some(expected.clone()));
    assert!(Bencode::from_bytes(&expected).is_some());

    let deeper = lists_around(65);
    assert!(!deeper.nested_within(64));
    assert_eq!(deeper.to_bytes(), None);
}

#[test]
fn a_leaf_nests_to_no_depth() {
    assert!(Bencode::Int(1).nested_within(0));
    assert!(Bencode::Bytes(b"ll".to_vec()).nested_within(0));
    assert!(!Bencode::List(vec![]).nested_within(0));
    assert!(Bencode::List(vec![]).nested_within(1));
    assert!(!Bencode::Dict(vec![(b"a".to_vec(), Bencode::List(vec![]))]).nested_within(1));
    assert!(Bencode::Dict(vec![(b"a".to_vec(), Bencode::List(vec![]))]).nested_within(2));
}
