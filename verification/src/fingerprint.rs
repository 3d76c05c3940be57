//! The info-hash: the `info` dictionary written back as a document in its
//! canonical encoding, and the SHA-1 digest of those bytes.

use crate::bencode::{
    all_within, bencode_encoding, entries_map, entries_repeated, lemma_entries_empty,
    lemma_values_within_push, lemma_view_dict, lemma_view_list, lemma_within_deeper, nodes,
    push_entry, values_within, Bencode, Node,
};
use crate::scan::MAX_NESTING;
use crate::chunks::join_chunks;
use crate::digest::{hex_encode, hex_lower, sha1, sha1_digest};
use crate::fields::{key_of, text_of, texts_of};
use crate::hashes::HASH_WIDTH;
use crate::meta_info::{
    file_views, files_of, only_file_keys, only_info_keys, DecodeError, File, FileView, Info, InfoView, Key,
    KeyView, MetaInfo,
};
use vstd::prelude::*;
use vstd::string::*;
use vstd::utf8::*;

verus! {

/// The keys of the `info` dictionary differ from one another, and so do the
/// keys of a file.
pub proof fn lemma_keys_differ()
    ensures
        key_of("name") != key_of("piece length"),
        key_of("name") != key_of("pieces"),
        key_of("name") != key_of("private"),
        key_of("name") != key_of("length"),
        key_of("name") != key_of("files"),
        key_of("piece length") != key_of("pieces"),
        key_of("piece length") != key_of("private"),
        key_of("piece length") != key_of("length"),
        key_of("piece length") != key_of("files"),
        key_of("pieces") != key_of("private"),
        key_of("pieces") != key_of("length"),
        key_of("pieces") != key_of("files"),
        key_of("private") != key_of("length"),
        key_of("private") != key_of("files"),
        key_of("length") != key_of("files"),
        key_of("length") != key_of("path"),
{
    reveal_strlit("name");
    reveal_strlit("piece length");
    reveal_strlit("pieces");
    reveal_strlit("private");
    reveal_strlit("length");
    reveal_strlit("files");
    reveal_strlit("path");
    is_ascii_spec_bytes("name");
    is_ascii_spec_bytes("piece length");
    is_ascii_spec_bytes("pieces");
    is_ascii_spec_bytes("private");
    is_ascii_spec_bytes("length");
    is_ascii_spec_bytes("files");
    is_ascii_spec_bytes("path");
    assert(key_of("name").len() == 4);
    assert(key_of("piece length").len() == 12);
    assert(key_of("pieces").len() == 6);
    assert(key_of("private").len() == 7);
    assert(key_of("length").len() == 6);
    assert(key_of("files").len() == 5);
    assert(key_of("path").len() == 4);
    assert(key_of("pieces")[0] == 'p' as u8);
    assert(key_of("length")[0] == 'l' as u8);
}

impl FileView {
    /// The dictionary of the file, as it stands in a document.
    pub open spec fn document(self) -> Node {
        Node::Dict(
            Map::empty().insert(key_of("length"), Node::Int(self.length as int)).insert(
                key_of("path"),
                Node::List(
                    Seq::new(self.path.len(), |i: int| Node::Bytes(encode_utf8(self.path[i]))),
                ),
            ),
            Set::empty(),
        )
    }
}

impl InfoView {
    /// The `info` dictionary, as it stands in a document: the name, the
    /// piece length, the hashes written one after another, the private flag
    /// where there is one, and `length` or `files` by the layout.
    pub open spec fn document(self) -> Node {
        let base = Map::empty().insert(key_of("name"), Node::Bytes(encode_utf8(self.name))).insert(
            key_of("piece length"),
            Node::Int(self.piece_length as int),
        ).insert(key_of("pieces"), Node::Bytes(join_chunks(self.pieces)));
        let flagged = match self.private {
            Some(p) => base.insert(key_of("private"), Node::Int(p)),
            None => base,
        };
        let all = match self.key {
            KeyView::SingleFile { length } => flagged.insert(
                key_of("length"),
                Node::Int(length as int),
            ),
            KeyView::MultiFile { files } => flagged.insert(
                key_of("files"),
                Node::List(Seq::new(files.len(), |i: int| files[i].document())),
            ),
        };
        Node::Dict(all, Set::empty())
    }

    /// The info-hash: the SHA-1 digest of the canonical encoding of the
    /// `info` dictionary.
    pub open spec fn fingerprint(self) -> Seq<u8> {
        sha1(bencode_encoding(self.document()))
    }
}

/// Adds an entry at the end of a dictionary under construction whose
/// values nest no deeper than `limit`.
fn add_entry(
    entries: &mut Vec<(Vec<u8>, Bencode)>,
    key: &str,
    value: Bencode,
    Ghost(limit): Ghost<nat>,
)
    requires
        values_within(old(entries)@, limit),
        value.within(limit),
    ensures
        values_within(final(entries)@, limit),
        entries_map(final(entries)@) == entries_map(old(entries)@).insert(
            key.spec_bytes(),
            value@,
        ),
        entries_repeated(final(entries)@) == if entries_map(old(entries)@).dom().contains(
            key.spec_bytes(),
        ) {
            entries_repeated(old(entries)@).insert(key.spec_bytes())
        } else {
            entries_repeated(old(entries)@)
        },
{
    push_entry(entries, key, value);
    proof {
        lemma_values_within_push(old(entries)@, entries@, limit);
    }
}

impl File {
    /// The dictionary of the file, as it stands in a document. It nests two
    /// deep: the dictionary, and in it the list of path segments.
    pub fn to_document(&self) -> (r: Bencode)
        ensures
            r@ == self@.document(),
            r.within(2),
    {
        let path = self.path();
        let mut segments: Vec<Bencode> = Vec::new();
        let mut i: usize = 0;
        while i < path.len()
            invariant
                i <= path.len(),
                segments@.len() == i,
                forall|j: int|
                    0 <= j < i ==> (#[trigger] segments@[j])@ == Node::Bytes(
                        encode_utf8(path@[j]@),
                    ),
                all_within(segments@, 0),
            decreases path.len() - i,
        {
            segments.push(Bencode::Bytes(path[i].as_str().as_bytes_vec()));
            i += 1;
        }
        let mut entries: Vec<(Vec<u8>, Bencode)> = Vec::new();
        proof {
            lemma_entries_empty();
            lemma_keys_differ();
            lemma_view_list(segments);
            assert(nodes(segments@) =~= Seq::new(
                self@.path.len(),
                |i: int| Node::Bytes(encode_utf8(self@.path[i])),
            ));
        }
        add_entry(&mut entries, "length", Bencode::Int(self.length() as i64), Ghost(1));
        add_entry(&mut entries, "path", Bencode::List(segments), Ghost(1));
        proof {
            lemma_view_dict(entries);
        }
        Bencode::Dict(entries)
    }
}

impl Info {
    /// The `info` dictionary, as it stands in a document. It nests four
    /// deep: the dictionary, the list of files, the dictionary of a file,
    /// and the list of its path segments.
    pub fn to_document(&self) -> (r: Bencode)
        ensures
            r@ == self@.document(),
            r.within(4),
    {
        proof {
            lemma_entries_empty();
            lemma_keys_differ();
        }
        let mut entries: Vec<(Vec<u8>, Bencode)> = Vec::new();
        add_entry(&mut entries, "name", Bencode::Bytes(self.name().as_bytes_vec()), Ghost(3));
        add_entry(
            &mut entries,
            "piece length",
            Bencode::Int(self.piece_length() as i64),
            Ghost(3),
        );
        add_entry(&mut entries, "pieces", Bencode::Bytes(self.hashes().to_bytes()), Ghost(3));
        match self.private_flag() {
            Some(p) => {
                add_entry(&mut entries, "private", Bencode::Int(p), Ghost(3));
            },
            None => {},
        }
        match self.key() {
            Key::SingleFile { length } => {
                add_entry(&mut entries, "length", Bencode::Int(*length as i64), Ghost(3));
            },
            Key::MultiFile { files } => {
                let mut items: Vec<Bencode> = Vec::new();
                let mut i: usize = 0;
                while i < files.len()
                    invariant
                        i <= files.len(),
                        items@.len() == i,
                        forall|j: int|
                            0 <= j < i ==> (#[trigger] items@[j])@ == files@[j]@.document(),
                        all_within(items@, 2),
                    decreases files.len() - i,
                {
                    items.push(files[i].to_document());
                    i += 1;
                }
                proof {
                    lemma_view_list(items);
                    assert(nodes(items@) =~= Seq::new(
                        file_views(files@).len(),
                        |i: int| file_views(files@)[i].document(),
                    ));
                }
                add_entry(&mut entries, "files", Bencode::List(items), Ghost(3));
            },
        }
        proof {
            lemma_view_dict(entries);
        }
        Bencode::Dict(entries)
    }

    /// The info-hash of the torrent: the SHA-1 digest of the canonical
    /// encoding of the `info` dictionary.
    pub fn hash(&self) -> (r: [u8; 20])
        ensures
            r@ == self@.fingerprint(),
    {
        let doc = self.to_document();
        proof {
            self@.lemma_document_settled();
            lemma_within_deeper(doc, 4, MAX_NESTING as nat);
        }
        match doc.to_bytes() {
            Some(encoded) => sha1_digest(encoded.as_slice()),
            // Never taken: the document nests four deep, so it is written.
            None => {
                assert(false);
                [0u8; 20]
            },
        }
    }
}

impl MetaInfo {
    /// The info-hash of the torrent in lower-case hexadecimal digits.
    pub fn info_hash(&self) -> (r: String)
        ensures
            r@ == hex_lower(self@.info.fingerprint()),
    {
        let digest = self.info().hash();
        hex_encode(digest.as_slice())
    }
}

/// Two `info` dictionaries that hold the same values have the same
/// info-hash: the hash is a function of the values alone.
pub proof fn lemma_fingerprint_deterministic(a: Info, b: Info)
    requires
        a@ == b@,
    ensures
        a@.fingerprint() == b@.fingerprint(),
{
}

impl FileView {
    /// Reading the dictionary that was made of a file gives the file back.
    pub proof fn lemma_document_round_trip(self)
        requires
            self.wf(),
        ensures
            File::decode_spec(self.document()) == Some(self),
    {
        lemma_keys_differ();
        let segments = Seq::new(self.path.len(), |i: int| Node::Bytes(encode_utf8(self.path[i])));
        assert forall|i: int| 0 <= i < segments.len() implies text_of(#[trigger] segments[i])
            == Some(self.path[i]) by {
            encode_utf8_valid_utf8(self.path[i]);
            encode_utf8_decode_utf8(self.path[i]);
        }
        assert(texts_of(Node::List(segments)).unwrap() =~= self.path);
        assert(only_file_keys(self.document()));
    }
}

impl InfoView {
    /// Reading the dictionary that was made of an `info` gives the `info`
    /// back: the dictionary holds all that the value holds.
    pub proof fn lemma_document_round_trip(self)
        requires
            self.wf(),
        ensures
            Info::decode_spec(self.document()) == Ok::<InfoView, DecodeError>(self),
    {
        lemma_keys_differ();
        let doc = self.document();
        encode_utf8_valid_utf8(self.name);
        encode_utf8_decode_utf8(self.name);
        crate::chunks::lemma_join_then_split(self.pieces, HASH_WIDTH as nat);
        crate::chunks::lemma_join_len(self.pieces, HASH_WIDTH as nat);
        assert((self.pieces.len() * 20) / 20 == self.pieces.len());
        match self.key {
            KeyView::SingleFile { length } => {},
            KeyView::MultiFile { files } => {
                let items = Seq::new(files.len(), |i: int| files[i].document());
                assert forall|i: int| 0 <= i < items.len() implies File::decode_spec(
                    #[trigger] items[i],
                ) == Some(files[i]) by {
                    files[i].lemma_document_round_trip();
                }
                assert(files_of(Node::List(items)).unwrap() =~= files);
            },
        }
        assert(Key::decode_spec(doc) == Ok::<KeyView, DecodeError>(self.key));
        assert(only_info_keys(doc));
    }
}

impl FileView {
    /// The dictionary of a file repeats no key.
    pub proof fn lemma_document_settled(self)
        ensures
            self.document().settled() == self.document(),
    {
        reveal_with_fuel(Node::settled, 3);
        let doc = self.document();
        let segments = doc->Dict_0[key_of("path")];
        assert(segments.settled()->List_0 =~= segments->List_0);
        assert(doc.settled()->Dict_0 =~= doc->Dict_0);
    }
}

impl InfoView {
    /// The `info` dictionary of a document repeats no key, nor does the
    /// dictionary of any of its files.
    pub proof fn lemma_document_settled(self)
        ensures
            self.document().settled() == self.document(),
    {
        reveal_with_fuel(Node::settled, 3);
        let doc = self.document();
        match self.key {
            KeyView::SingleFile { length } => {},
            KeyView::MultiFile { files } => {
                let list = doc->Dict_0[key_of("files")];
                assert forall|i: int| 0 <= i < files.len() implies (#[trigger] list->List_0[i]).settled()
                    == list->List_0[i] by {
                    files[i].lemma_document_settled();
                }
                assert(list.settled()->List_0 =~= list->List_0);
            },
        }
        assert(doc.settled()->Dict_0 =~= doc->Dict_0);
    }
}

} // verus!
