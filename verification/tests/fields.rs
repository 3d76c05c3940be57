use torrent::bencode::{push_entry, Bencode};
use torrent::fields::{
    read_date, read_length, read_optional_text, read_text, read_texts, read_tiers,
};
use torrent::peers::PeerAddress;

fn bytes(text: &str) -> Bencode {
    Bencode::Bytes(text.as_bytes().to_vec())
}

#[test]
fn a_text_is_a_byte_string_in_utf8() {
    assert_eq!(read_text(&bytes("na\u{ef}ve")), Some("na\u{ef}ve".to_string()));
    assert_eq!(read_text(&bytes("")), Some(String::new()));
    assert_eq!(read_text(&Bencode::Bytes(vec![0xc3])), None);
    assert_eq!(read_text(&Bencode::Int(1)), None);
}

#[test]
fn a_list_of_texts_is_read_whole_or_not_at_all() {
    let list = Bencode::List(vec![bytes("a"), bytes("b")]);
    assert_eq!(read_texts(&list), Some(vec!["a".to_string(), "b".to_string()]));
    assert_eq!(read_texts(&Bencode::List(vec![])), Some(vec![]));
    assert_eq!(read_texts(&Bencode::List(vec![bytes("a"), Bencode::Int(1)])), None);
    assert_eq!(read_texts(&bytes("a")), None);
    let tiers = Bencode::List(vec![list, Bencode::List(vec![])]);
    assert_eq!(read_tiers(&tiers), Some(vec![vec!["a".to_string(), "b".to_string()], vec![]]));
    assert_eq!(read_tiers(&Bencode::List(vec![bytes("a")])), None);
    assert_eq!(read_tiers(&Bencode::Int(0)), None);
}

#[test]
fn lengths_and_dates_are_not_negative() {
    assert_eq!(read_length(&Bencode::Int(0)), Some(0));
    assert_eq!(read_length(&Bencode::Int(16384)), Some(16384));
    assert_eq!(read_length(&Bencode::Int(-1)), None);
    assert_eq!(read_length(&bytes("1")), None);
    assert_eq!(read_date(&Bencode::Int(1_700_000_000)), Some(1_700_000_000));
    assert_eq!(read_date(&Bencode::Int(i64::MAX)), Some(i64::MAX as u64));
    assert_eq!(read_date(&Bencode::Int(-1)), None);
    assert_eq!(read_date(&Bencode::List(vec![])), None);
}

#[test]
fn an_absent_text_is_no_mistake() {
    assert_eq!(read_optional_text(None), Some(None));
    assert_eq!(read_optional_text(Some(&bytes("x"))), Some(Some("x".to_string())));
    assert_eq!(read_optional_text(Some(&Bencode::Int(1))), None);
}

#[test]
fn entries_are_added_at_the_end() {
    let mut entries = Vec::new();
    push_entry(&mut entries, "b", Bencode::Int(1));
    push_entry(&mut entries, "a", Bencode::Int(2));
    assert_eq!(
        entries,
        vec![(b"b".to_vec(), Bencode::Int(1)), (b"a".to_vec(), Bencode::Int(2))]
    );
    assert_eq!(Bencode::Dict(entries).to_bytes(), Some(b"d1:ai2e1:bi1ee".to_vec()));
}

#[test]
fn a_peer_is_written_as_six_bytes() {
    let mut out = vec![9u8];
    PeerAddress { ip: [1, 2, 3, 4], port: 0x0506 }.push_bytes(&mut out);
    assert_eq!(out, vec![9, 1, 2, 3, 4, 5, 6]);
}
