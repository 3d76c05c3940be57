//! The fields of a document: the shapes that a value can have, and readers
//! that take a value of a tree in one of those shapes.

use crate::bencode::{nodes, Bencode, Node};
use crate::text::string_from_utf8;
use vstd::prelude::*;
use vstd::slice::slice_to_vec;
use vstd::string::*;
use vstd::utf8::*;

verus! {

/// The bytes of a dictionary key.
pub open spec fn key_of(name: &str) -> Seq<u8> {
    name.spec_bytes()
}

/// The text of a byte string that is valid UTF-8.
pub open spec fn text_of(node: Node) -> Option<Seq<char>> {
    match node {
        Node::Bytes(b) => if valid_utf8(b) {
            Some(decode_utf8(b))
        } else {
            None
        },
        _ => None,
    }
}

/// The texts of a list of byte strings that are all valid UTF-8.
pub open spec fn texts_of(node: Node) -> Option<Seq<Seq<char>>> {
    match node {
        Node::List(items) => if forall|i: int|
            0 <= i < items.len() ==> text_of(#[trigger] items[i]) is Some {
            Some(Seq::new(items.len(), |i: int| text_of(items[i]).unwrap()))
        } else {
            None
        },
        _ => None,
    }
}

/// The tiers of a list of lists of texts.
pub open spec fn tiers_of(node: Node) -> Option<Seq<Seq<Seq<char>>>> {
    match node {
        Node::List(items) => if forall|i: int|
            0 <= i < items.len() ==> texts_of(#[trigger] items[i]) is Some {
            Some(Seq::new(items.len(), |i: int| texts_of(items[i]).unwrap()))
        } else {
            None
        },
        _ => None,
    }
}

/// The length that an integer gives: it is not negative and fits a `usize`.
pub open spec fn length_of(node: Node) -> Option<nat> {
    match node {
        Node::Int(i) => if 0 <= i <= usize::MAX {
            Some(i as nat)
        } else {
            None
        },
        _ => None,
    }
}

/// The time that an integer gives: it is not negative.
pub open spec fn date_of(node: Node) -> Option<nat> {
    match node {
        Node::Int(i) => if 0 <= i {
            Some(i as nat)
        } else {
            None
        },
        _ => None,
    }
}

/// A field that may be absent: `None` where it is there and `read` refuses it.
pub open spec fn optional<T>(field: Option<Node>, read: spec_fn(Node) -> Option<T>) -> Option<
    Option<T>,
> {
    match field {
        None => Some(None),
        Some(node) => match read(node) {
            Some(value) => Some(Some(value)),
            None => None,
        },
    }
}

/// A field that must be there: `None` where it is absent or `read` refuses it.
pub open spec fn required<T>(field: Option<Node>, read: spec_fn(Node) -> Option<T>) -> Option<T> {
    match field {
        None => None,
        Some(node) => read(node),
    }
}

/// The bytes of a byte string.
pub open spec fn bytes_of(node: Node) -> Option<Seq<u8>> {
    match node {
        Node::Bytes(b) => Some(b),
        _ => None,
    }
}

/// The integer that an integer of the document gives.
pub open spec fn int_of(node: Node) -> Option<int> {
    match node {
        Node::Int(i) => if i64::MIN <= i <= i64::MAX {
            Some(i)
        } else {
            None
        },
        _ => None,
    }
}

/// The texts of a list of strings.
pub open spec fn texts(strings: Seq<String>) -> Seq<Seq<char>> {
    Seq::new(strings.len(), |i: int| strings[i]@)
}

/// The texts of a list of lists of strings.
pub open spec fn tiers(lists: Seq<Vec<String>>) -> Seq<Seq<Seq<char>>> {
    Seq::new(lists.len(), |i: int| texts(lists[i]@))
}

/// Reads a text: a byte string that is valid UTF-8.
pub fn read_text(doc: &Bencode) -> (r: Option<String>)
    ensures
        match r {
            Some(s) => text_of(doc@) == Some(s@),
            None => text_of(doc@) is None,
        },
{
    match doc.as_bytes() {
        Some(b) => match string_from_utf8(slice_to_vec(b.as_slice())) {
            Some(s) => {
                proof {
                    encode_utf8_decode_utf8(s@);
                }
                Some(s)
            },
            None => None,
        },
        None => None,
    }
}

/// Reads a list of texts.
pub fn read_texts(doc: &Bencode) -> (r: Option<Vec<String>>)
    ensures
        match r {
            Some(v) => texts_of(doc@) == Some(texts(v@)),
            None => texts_of(doc@) is None,
        },
{
    match doc.as_list() {
        Some(items) => {
            let ghost ns = nodes(items@);
            let mut out: Vec<String> = Vec::new();
            let mut i: usize = 0;
            while i < items.len()
                invariant
                    i <= items.len(),
                    ns == nodes(items@),
                    doc@ == Node::List(ns),
                    out@.len() == i,
                    forall|j: int| 0 <= j < i ==> text_of(#[trigger] ns[j]) == Some(out@[j]@),
                decreases items.len() - i,
            {
                assert(ns[i as int] == items@[i as int]@);
                match read_text(&items[i]) {
                    Some(s) => {
                        out.push(s);
                    },
                    None => {
                        return None;
                    },
                }
                i += 1;
            }
            assert(texts_of(doc@).unwrap() =~= texts(out@));
            Some(out)
        },
        None => None,
    }
}

/// Reads a list of lists of texts.
pub fn read_tiers(doc: &Bencode) -> (r: Option<Vec<Vec<String>>>)
    ensures
        match r {
            Some(v) => tiers_of(doc@) == Some(tiers(v@)),
            None => tiers_of(doc@) is None,
        },
{
    match doc.as_list() {
        Some(items) => {
            let ghost ns = nodes(items@);
            let mut out: Vec<Vec<String>> = Vec::new();
            let mut i: usize = 0;
            while i < items.len()
                invariant
                    i <= items.len(),
                    ns == nodes(items@),
                    doc@ == Node::List(ns),
                    out@.len() == i,
                    forall|j: int|
                        0 <= j < i ==> texts_of(#[trigger] ns[j]) == Some(texts(out@[j]@)),
                decreases items.len() - i,
            {
                assert(ns[i as int] == items@[i as int]@);
                match read_texts(&items[i]) {
                    Some(tier) => {
                        out.push(tier);
                    },
                    None => {
                        return None;
                    },
                }
                i += 1;
            }
            assert(tiers_of(doc@).unwrap() =~= tiers(out@));
            Some(out)
        },
        None => None,
    }
}

/// Reads a length: an integer that is not negative and fits a `usize`.
pub fn read_length(doc: &Bencode) -> (r: Option<usize>)
    ensures
        match r {
            Some(n) => length_of(doc@) == Some(n as nat),
            None => length_of(doc@) is None,
        },
{
    match doc.as_int() {
        Some(i) => if i >= 0 && i as u64 <= usize::MAX as u64 {
            Some(i as usize)
        } else {
            None
        },
        None => None,
    }
}

/// Reads a time: an integer that is not negative.
pub fn read_date(doc: &Bencode) -> (r: Option<u64>)
    ensures
        match r {
            Some(n) => date_of(doc@) == Some(n as nat),
            None => date_of(doc@) is None,
        },
{
    match doc.as_int() {
        Some(i) => if i >= 0 {
            Some(i as u64)
        } else {
            None
        },
        None => None,
    }
}

/// Reads a text that may be absent: `None` where it is there and is no text.
pub fn read_optional_text(field: Option<&Bencode>) -> (r: Option<Option<String>>)
    ensures
        match r {
            Some(Some(s)) => field matches Some(n) && text_of(n@) == Some(s@),
            Some(None) => field is None,
            None => field matches Some(n) && text_of(n@) is None,
        },
{
    match field {
        Some(n) => match read_text(n) {
            Some(s) => Some(Some(s)),
            None => None,
        },
        None => Some(None),
    }
}

} // verus!
