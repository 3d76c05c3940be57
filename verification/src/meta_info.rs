//! Torrent descriptions: the metainfo document, its `info` dictionary with
//! the single-file or multi-file layout, and the list of piece hashes.

use crate::bencode::{document_of, entries_map, has_key, nodes, same_bytes, Bencode, Node};
use crate::scan::{info_key_count, info_repeats};
use crate::chunks::{divides_evenly, split_chunks, uniform};
pub use crate::hashes::{Hashes, HASH_WIDTH};
use crate::fields::{
    bytes_of, date_of, int_of, key_of, length_of, optional, read_date, read_length,
    read_optional_text, read_text, read_texts, read_tiers, required, text_of, texts, texts_of,
    tiers, tiers_of,
};
use vstd::prelude::*;
use vstd::string::*;
use vstd::utf8::*;

verus! {

/// Why a document is not a torrent description.
#[derive(Debug, Clone, Copy, PartialEq, Eq, Structural)]
pub enum DecodeError {
    /// The bytes are not a bencoded document.
    MalformedDocument,
    /// The `info` dictionary has both `length` and `files`.
    AmbiguousLayout,
    /// The `info` dictionary has neither `length` nor `files`.
    MissingLayout,
    /// `length` or `files` is given more than once.
    DuplicateField,
    /// The `info` dictionary has a key that is not one of its six.
    UnknownField,
    /// `pieces` does not hold one 20-byte hash for each piece.
    MalformedHashList,
    /// A required field is absent, or a field does not have its shape.
    TypeMismatch,
}

/// Why a torrent file could not be loaded.
#[derive(Debug, Clone, Copy, PartialEq, Eq, Structural)]
pub enum MetaInfoError {
    InvalidPath,
    UnableToReadFile,
    BencodeParseFailed,
}

/// Which of the two layout keys stand more than once in the bytes of an
/// `info` dictionary. A tree that was read from bytes holds each key once,
/// so what the bytes repeated is told beside it.
#[derive(Debug, Clone, Copy, PartialEq, Eq, Structural)]
pub struct Repeated {
    pub length: bool,
    pub files: bool,
}

/// A file of a multi-file torrent, as values.
pub struct FileView {
    pub length: nat,
    pub path: Seq<Seq<char>>,
}

/// The layout of a torrent, as values.
pub enum KeyView {
    SingleFile { length: nat },
    MultiFile { files: Seq<FileView> },
}

/// The `info` dictionary, as values.
pub struct InfoView {
    pub name: Seq<char>,
    pub piece_length: nat,
    pub pieces: Seq<Seq<u8>>,
    pub private: Option<int>,
    pub key: KeyView,
}

/// The metainfo document, as values.
pub struct MetaInfoView {
    pub info: InfoView,
    pub announce: Seq<char>,
    pub announce_list: Option<Seq<Seq<Seq<char>>>>,
    pub creation_date: Option<nat>,
    pub comment: Option<Seq<char>>,
    pub created_by: Option<Seq<char>>,
    pub encoding: Option<Seq<char>>,
}

/// The files that a list of file dictionaries gives.
pub open spec fn files_of(node: Node) -> Option<Seq<FileView>> {
    match node {
        Node::List(items) => if forall|i: int|
            0 <= i < items.len() ==> File::decode_spec(#[trigger] items[i]) is Some {
            Some(Seq::new(items.len(), |i: int| File::decode_spec(items[i]).unwrap()))
        } else {
            None
        },
        _ => None,
    }
}

/// The sum of the lengths of the files.
pub open spec fn sum_lengths(files: Seq<FileView>) -> nat
    decreases files.len(),
{
    if files.len() == 0 {
        0
    } else {
        sum_lengths(files.drop_last()) + files.last().length
    }
}

/// The number of pieces of `piece_length` bytes that `total` bytes take: the
/// quotient, rounded up.
pub open spec fn piece_count(total: nat, piece_length: nat) -> nat {
    if piece_length == 0 {
        0
    } else {
        ((total + piece_length - 1) / (piece_length as int)) as nat
    }
}

/// Whether every key of the dictionary is one of the six keys of an `info`
/// dictionary.
pub open spec fn only_info_keys(node: Node) -> bool {
    forall|k: Seq<u8>| #[trigger] node.keys().contains(k) ==> info_key(k)
}

/// Whether `k` is one of the six keys of an `info` dictionary.
pub open spec fn info_key(k: Seq<u8>) -> bool {
    ||| k == key_of("name")
    ||| k == key_of("piece length")
    ||| k == key_of("pieces")
    ||| k == key_of("private")
    ||| k == key_of("length")
    ||| k == key_of("files")
}

impl FileView {
    /// A file has at least one path segment, and its length fits the
    /// integers of the document and of the machine.
    pub open spec fn wf(self) -> bool {
        &&& self.path.len() > 0
        &&& self.length <= usize::MAX
        &&& self.length <= i64::MAX
    }
}

impl KeyView {
    pub open spec fn wf(self) -> bool {
        match self {
            KeyView::SingleFile { length } => length <= usize::MAX && length <= i64::MAX,
            KeyView::MultiFile { files } => forall|i: int|
                0 <= i < files.len() ==> (#[trigger] files[i]).wf(),
        }
    }

    /// The length of the content: that of the one file, or the sum over the
    /// files.
    pub open spec fn total_length(self) -> nat {
        match self {
            KeyView::SingleFile { length } => length,
            KeyView::MultiFile { files } => sum_lengths(files),
        }
    }
}

impl InfoView {
    /// The piece length is positive, every hash has 20 bytes, and there is
    /// one hash for each piece of the content.
    pub open spec fn wf(self) -> bool {
        &&& 0 < self.piece_length <= usize::MAX
        &&& self.piece_length <= i64::MAX
        &&& uniform(self.pieces, HASH_WIDTH as nat)
        &&& self.pieces.len() == piece_count(self.key.total_length(), self.piece_length)
        &&& self.private matches Some(p) ==> i64::MIN <= p <= i64::MAX
        &&& self.key.wf()
    }

    /// Whether the torrent is private: the flag is there and is not zero.
    pub open spec fn is_private(self) -> bool {
        self.private matches Some(p) && p != 0
    }
}

/// A file of a multi-file torrent.
#[derive(Debug, PartialEq, Eq)]
pub struct File {
    length: usize,
    path: Vec<String>,
}

/// The layout of a torrent: one file, or a list of files that are treated as
/// one by writing them one after another.
#[derive(Debug, PartialEq, Eq)]
pub enum Key {
    SingleFile { length: usize },
    MultiFile { files: Vec<File> },
}

/// The `info` dictionary of a torrent.
#[derive(Debug, PartialEq, Eq)]
pub struct Info {
    name: String,
    piece_length: usize,
    pieces: Hashes,
    private: Option<i64>,
    key: Key,
}

/// A torrent description.
#[derive(Debug, PartialEq, Eq)]
pub struct MetaInfo {
    info: Info,
    announce: String,
    announce_list: Option<Vec<Vec<String>>>,
    creation_date: Option<u64>,
    comment: Option<String>,
    created_by: Option<String>,
    encoding: Option<String>,
}

/// The `info` dictionary, by the name that the metainfo document gives it.
pub type InfoDictionary = Info;

/// An item of the `files` list of a multi-file torrent.
pub type FileListItem = File;

impl View for File {
    type V = FileView;

    closed spec fn view(&self) -> FileView {
        FileView { length: self.length as nat, path: texts(self.path@) }
    }
}

/// What a list of files says, file by file.
pub open spec fn file_views(files: Seq<File>) -> Seq<FileView> {
    Seq::new(files.len(), |i: int| files[i]@)
}

impl View for Key {
    type V = KeyView;

    open spec fn view(&self) -> KeyView {
        match self {
            Key::SingleFile { length } => KeyView::SingleFile { length: *length as nat },
            Key::MultiFile { files } => KeyView::MultiFile { files: file_views(files@) },
        }
    }
}

impl View for Info {
    type V = InfoView;

    closed spec fn view(&self) -> InfoView {
        InfoView {
            name: self.name@,
            piece_length: self.piece_length as nat,
            pieces: self.pieces@,
            private: match self.private {
                Some(p) => Some(p as int),
                None => None,
            },
            key: self.key@,
        }
    }
}

impl View for MetaInfo {
    type V = MetaInfoView;

    closed spec fn view(&self) -> MetaInfoView {
        MetaInfoView {
            info: self.info@,
            announce: self.announce@,
            announce_list: match self.announce_list {
                Some(lists) => Some(tiers(lists@)),
                None => None,
            },
            creation_date: match self.creation_date {
                Some(t) => Some(t as nat),
                None => None,
            },
            comment: match self.comment {
                Some(s) => Some(s@),
                None => None,
            },
            created_by: match self.created_by {
                Some(s) => Some(s@),
                None => None,
            },
            encoding: match self.encoding {
                Some(s) => Some(s@),
                None => None,
            },
        }
    }
}

/// Whether every key of the dictionary is `length` or `path`.
pub open spec fn only_file_keys(node: Node) -> bool {
    forall|k: Seq<u8>| #[trigger]
        node.keys().contains(k) ==> k == key_of("length") || k == key_of("path")
}

impl File {
    /// The file that a dictionary gives: `length` is a length, `path` is a
    /// list of at least one text, and there is no other key, so that the
    /// dictionary can be written back as it was.
    pub open spec fn decode_spec(node: Node) -> Option<FileView> {
        if !only_file_keys(node) {
            None
        } else {
            File::fields_spec(node)
        }
    }

    /// The file that the `length` and the `path` of a dictionary give.
    pub open spec fn fields_spec(node: Node) -> Option<FileView> {
        match (
            required(node.get(key_of("length")), |n: Node| length_of(n)),
            required(node.get(key_of("path")), |n: Node| texts_of(n)),
        ) {
            (Some(length), Some(path)) => if path.len() > 0 && length <= i64::MAX {
                Some(FileView { length, path })
            } else {
                None
            },
            _ => None,
        }
    }
}

impl Key {
    /// The layout that an `info` dictionary gives, by which of `length` and
    /// `files` it has.
    pub open spec fn decode_spec(info: Node) -> Result<KeyView, DecodeError> {
        Key::decode_spec_with(info, Repeated { length: false, files: false })
    }

    /// The layout that an `info` dictionary gives, where `twice` tells which
    /// layout keys the bytes of the dictionary repeated.
    pub open spec fn decode_spec_with(info: Node, twice: Repeated) -> Result<
        KeyView,
        DecodeError,
    > {
        let length = info.get(key_of("length"));
        let files = info.get(key_of("files"));
        if length is Some && files is Some {
            Err(DecodeError::AmbiguousLayout)
        } else if length is None && files is None {
            Err(DecodeError::MissingLayout)
        } else if info.repeats(key_of("length")) || info.repeats(key_of("files")) || twice.length
            || twice.files {
            Err(DecodeError::DuplicateField)
        } else if length is Some {
            match length_of(length.unwrap()) {
                Some(n) => if n <= i64::MAX {
                    Ok(KeyView::SingleFile { length: n })
                } else {
                    Err(DecodeError::TypeMismatch)
                },
                None => Err(DecodeError::TypeMismatch),
            }
        } else {
            match files_of(files.unwrap()) {
                Some(list) => Ok(KeyView::MultiFile { files: list }),
                None => Err(DecodeError::TypeMismatch),
            }
        }
    }
}

impl File {
    #[verifier::type_invariant]
    spec fn inv(self) -> bool {
        self@.wf()
    }

    /// Reads a file from its dictionary.
    pub fn from_document(doc: &Bencode) -> (r: Option<File>)
        ensures
            match r {
                Some(f) => File::decode_spec(doc@) == Some(f@),
                None => File::decode_spec(doc@) is None,
            },
    {
        if !has_only_file_keys(doc) {
            return None;
        }
        let length = match doc.get("length") {
            Some(n) => read_length(n),
            None => None,
        };
        let path = match doc.get("path") {
            Some(p) => read_texts(p),
            None => None,
        };
        match (length, path) {
            (Some(length), Some(path)) => if path.len() > 0 && length as u64 <= i64::MAX as u64 {
                Some(File { length, path })
            } else {
                None
            },
            _ => None,
        }
    }

    /// The length of the file, in bytes.
    pub fn length(&self) -> (r: usize)
        ensures
            r == self@.length,
            self@.wf(),
    {
        proof {
            use_type_invariant(self);
        }
        self.length
    }

    /// The path of the file: directories, then the file's name.
    pub fn path(&self) -> (r: &Vec<String>)
        ensures
            texts(r@) == self@.path,
            r@.len() > 0,
    {
        proof {
            use_type_invariant(self);
        }
        &self.path
    }
}

/// Reads a list of files.
pub fn read_files(doc: &Bencode) -> (r: Option<Vec<File>>)
    ensures
        match r {
            Some(v) => files_of(doc@) == Some(file_views(v@)),
            None => files_of(doc@) is None,
        },
{
    match doc.as_list() {
        Some(items) => {
            let ghost ns = nodes(items@);
            let mut out: Vec<File> = Vec::new();
            let mut i: usize = 0;
            while i < items.len()
                invariant
                    i <= items.len(),
                    ns == nodes(items@),
                    doc@ == Node::List(ns),
                    out@.len() == i,
                    forall|j: int|
                        0 <= j < i ==> File::decode_spec(#[trigger] ns[j]) == Some(out@[j]@),
                decreases items.len() - i,
            {
                assert(ns[i as int] == items@[i as int]@);
                match File::from_document(&items[i]) {
                    Some(f) => {
                        out.push(f);
                    },
                    None => {
                        return None;
                    },
                }
                i += 1;
            }
            assert(files_of(doc@).unwrap() =~= file_views(out@));
            Some(out)
        },
        None => None,
    }
}

impl Key {
    /// Reads the layout of an `info` dictionary: one file where it has
    /// `length`, several where it has `files`; an error where it has both,
    /// neither, or one of them twice.
    pub fn from_document(info: &Bencode) -> (r: Result<Key, DecodeError>)
        ensures
            match r {
                Ok(key) => Key::decode_spec(info@) == Ok::<KeyView, DecodeError>(key@),
                Err(e) => Key::decode_spec(info@) == Err::<KeyView, DecodeError>(e),
            },
    {
        Key::from_document_with(info, Repeated { length: false, files: false })
    }

    /// Reads the layout of an `info` dictionary, where `twice` tells which
    /// layout keys the bytes of the dictionary repeated.
    pub fn from_document_with(info: &Bencode, twice: Repeated) -> (r: Result<Key, DecodeError>)
        ensures
            match r {
                Ok(key) => Key::decode_spec_with(info@, twice) == Ok::<KeyView, DecodeError>(key@),
                Err(e) => Key::decode_spec_with(info@, twice) == Err::<KeyView, DecodeError>(e),
            },
    {
        let length = info.get("length");
        let files = info.get("files");
        match (length, files) {
            (Some(_), Some(_)) => Err(DecodeError::AmbiguousLayout),
            (None, None) => Err(DecodeError::MissingLayout),
            (Some(length), None) => {
                if info.has_repeated("length") || info.has_repeated("files") || twice.length
                    || twice.files {
                    return Err(DecodeError::DuplicateField);
                }
                match read_length(length) {
                    Some(n) => if n as u64 <= i64::MAX as u64 {
                        Ok(Key::SingleFile { length: n })
                    } else {
                        Err(DecodeError::TypeMismatch)
                    },
                    None => Err(DecodeError::TypeMismatch),
                }
            },
            (None, Some(files)) => {
                if info.has_repeated("length") || info.has_repeated("files") || twice.length
                    || twice.files {
                    return Err(DecodeError::DuplicateField);
                }
                match read_files(files) {
                    Some(list) => Ok(Key::MultiFile { files: list }),
                    None => Err(DecodeError::TypeMismatch),
                }
            },
        }
    }
}

/// Whether a dictionary has no key but `length` and `path`.
pub fn has_only_file_keys(doc: &Bencode) -> (r: bool)
    ensures
        r == only_file_keys(doc@),
{
    match doc.as_dict() {
        Some(entries) => {
            let mut i: usize = 0;
            while i < entries.len()
                invariant
                    i <= entries.len(),
                    doc@.keys() == entries_map(entries@).dom(),
                    forall|j: int|
                        0 <= j < i ==> (#[trigger] entries@[j]).0@ == key_of("length")
                            || entries@[j].0@ == key_of("path"),
                decreases entries.len() - i,
            {
                let k = entries[i].0.as_slice();
                if !same_bytes(k, "length".as_bytes()) && !same_bytes(k, "path".as_bytes()) {
                    proof {
                        let key = entries@[i as int].0@;
                        assert(has_key(entries@, key));
                        assert(doc@.keys().contains(key));
                    }
                    return false;
                }
                i += 1;
            }
            assert forall|k: Seq<u8>| #[trigger] doc@.keys().contains(k) implies k == key_of(
                "length",
            ) || k == key_of("path") by {
                let j = choose|j: int| 0 <= j < entries@.len() && (#[trigger] entries@[j]).0@ == k;
                assert(entries@[j].0@ == key_of("length") || entries@[j].0@ == key_of("path"));
            }
            true
        },
        None => true,
    }
}

/// Whether the bytes are one of the six keys of an `info` dictionary.
pub fn is_info_key(k: &[u8]) -> (r: bool)
    ensures
        r == info_key(k@),
{
    same_bytes(k, "name".as_bytes()) || same_bytes(k, "piece length".as_bytes()) || same_bytes(
        k,
        "pieces".as_bytes(),
    ) || same_bytes(k, "private".as_bytes()) || same_bytes(k, "length".as_bytes()) || same_bytes(
        k,
        "files".as_bytes(),
    )
}

/// Whether a dictionary has no key but the six of an `info` dictionary.
pub fn has_only_info_keys(doc: &Bencode) -> (r: bool)
    ensures
        r == only_info_keys(doc@),
{
    match doc.as_dict() {
        Some(entries) => {
            let mut i: usize = 0;
            while i < entries.len()
                invariant
                    i <= entries.len(),
                    doc@.keys() == entries_map(entries@).dom(),
                    forall|j: int| 0 <= j < i ==> info_key((#[trigger] entries@[j]).0@),
                decreases entries.len() - i,
            {
                if !is_info_key(entries[i].0.as_slice()) {
                    proof {
                        let k = entries@[i as int].0@;
                        assert(has_key(entries@, k));
                        assert(doc@.keys().contains(k));
                    }
                    return false;
                }
                i += 1;
            }
            assert forall|k: Seq<u8>| #[trigger] doc@.keys().contains(k) implies info_key(k) by {
                let j = choose|j: int| 0 <= j < entries@.len() && (#[trigger] entries@[j]).0@ == k;
                assert(info_key(entries@[j].0@));
            }
            true
        },
        None => true,
    }
}

impl Key {
    /// The length of the content: that of the one file, or the sum over the
    /// files.
    pub fn total_length(&self) -> (t: u128)
        ensures
            t == self@.total_length(),
            t <= 0xffff_ffff_ffff_ffff * 0xffff_ffff_ffff_ffff,
    {
        match self {
            Key::SingleFile { length } => *length as u128,
            Key::MultiFile { files } => {
                let ghost views = file_views(files@);
                let mut t: u128 = 0;
                let mut i: usize = 0;
                while i < files.len()
                    invariant
                        i <= files.len(),
                        views == file_views(files@),
                        t == sum_lengths(views.take(i as int)),
                        t <= i * 0xffff_ffff_ffff_ffff,
                    decreases files.len() - i,
                {
                    proof {
                        assert(views.take(i + 1).drop_last() =~= views.take(i as int));
                        assert(views.take(i + 1).last() == files@[i as int]@);
                        assert((i + 1) * 0xffff_ffff_ffff_ffff <= 0xffff_ffff_ffff_ffff
                            * 0xffff_ffff_ffff_ffff) by (nonlinear_arith)
                            requires
                                i < 0xffff_ffff_ffff_ffff,
                        ;
                        assert((i + 1) * 0xffff_ffff_ffff_ffff == i * 0xffff_ffff_ffff_ffff
                            + 0xffff_ffff_ffff_ffff) by (nonlinear_arith);
                    }
                    t = t + files[i].length as u128;
                    i += 1;
                }
                assert(views.take(files.len() as int) =~= views);
                t
            },
        }
    }
}

impl Info {
    /// The `info` dictionary that a document gives. The layout is read
    /// first; then every key must be one of the six; then each field must
    /// have its shape; then the hash list must hold one 20-byte hash for each
    /// piece of the content.
    pub open spec fn decode_spec(node: Node) -> Result<InfoView, DecodeError> {
        Info::decode_spec_with(node, Repeated { length: false, files: false })
    }

    /// The `info` dictionary that a document gives, where `twice` tells
    /// which layout keys the bytes of the dictionary repeated.
    pub open spec fn decode_spec_with(node: Node, twice: Repeated) -> Result<
        InfoView,
        DecodeError,
    > {
        if !(node is Dict) {
            Err(DecodeError::TypeMismatch)
        } else {
            match Key::decode_spec_with(node, twice) {
                Err(e) => Err(e),
                Ok(key) => if !only_info_keys(node) {
                    Err(DecodeError::UnknownField)
                } else {
                    match (
                        required(node.get(key_of("name")), |n: Node| text_of(n)),
                        required(node.get(key_of("piece length")), |n: Node| length_of(n)),
                        required(node.get(key_of("pieces")), |n: Node| bytes_of(n)),
                        optional(node.get(key_of("private")), |n: Node| int_of(n)),
                    ) {
                        (Some(name), Some(piece_length), Some(hashes), Some(private)) => {
                            if piece_length == 0 || piece_length > i64::MAX {
                                Err(DecodeError::TypeMismatch)
                            } else if !divides_evenly(hashes.len(), HASH_WIDTH as nat)
                                || hashes.len() / (HASH_WIDTH as nat) != piece_count(
                                key.total_length(),
                                piece_length,
                            ) {
                                Err(DecodeError::MalformedHashList)
                            } else {
                                Ok(
                                    InfoView {
                                        name,
                                        piece_length,
                                        pieces: split_chunks(hashes, HASH_WIDTH as nat),
                                        private,
                                        key,
                                    },
                                )
                            }
                        },
                        _ => Err(DecodeError::TypeMismatch),
                    }
                },
            }
        }
    }

    #[verifier::type_invariant]
    spec fn inv(self) -> bool {
        self@.wf()
    }

    /// Reads an `info` dictionary.
    pub fn from_document(doc: &Bencode) -> (r: Result<Info, DecodeError>)
        ensures
            match r {
                Ok(info) => Info::decode_spec(doc@) == Ok::<InfoView, DecodeError>(info@),
                Err(e) => Info::decode_spec(doc@) == Err::<InfoView, DecodeError>(e),
            },
    {
        Info::from_document_with(doc, Repeated { length: false, files: false })
    }

    /// Reads an `info` dictionary, where `twice` tells which layout keys the
    /// bytes of the dictionary repeated.
    pub fn from_document_with(doc: &Bencode, twice: Repeated) -> (r: Result<Info, DecodeError>)
        ensures
            match r {
                Ok(info) => Info::decode_spec_with(doc@, twice) == Ok::<InfoView, DecodeError>(
                    info@,
                ),
                Err(e) => Info::decode_spec_with(doc@, twice) == Err::<InfoView, DecodeError>(e),
            },
    {
        if doc.as_dict().is_none() {
            return Err(DecodeError::TypeMismatch);
        }
        let key = match Key::from_document_with(doc, twice) {
            Ok(key) => key,
            Err(e) => {
                return Err(e);
            },
        };
        if !has_only_info_keys(doc) {
            return Err(DecodeError::UnknownField);
        }
        let name = match doc.get("name") {
            Some(n) => read_text(n),
            None => None,
        };
        let piece_length = match doc.get("piece length") {
            Some(n) => read_length(n),
            None => None,
        };
        let hashes = match doc.get("pieces") {
            Some(n) => n.as_bytes(),
            None => None,
        };
        let private = match doc.get("private") {
            Some(n) => match n.as_int() {
                Some(p) => Some(Some(p)),
                None => None,
            },
            None => Some(None),
        };
        match (name, piece_length, hashes, private) {
            (Some(name), Some(piece_length), Some(hashes), Some(private)) => {
                if piece_length == 0 || piece_length as u64 > i64::MAX as u64 {
                    return Err(DecodeError::TypeMismatch);
                }
                let pieces = match Hashes::from_bytes(hashes.as_slice()) {
                    Ok(pieces) => pieces,
                    Err(_) => {
                        return Err(DecodeError::MalformedHashList);
                    },
                };
                let total = key.total_length();
                let needed = (total + (piece_length as u128 - 1)) / piece_length as u128;
                assert(pieces@.len() == hashes@.len() / (HASH_WIDTH as nat));
                assert(needed == piece_count(key@.total_length(), piece_length as nat));
                if pieces.0.len() as u128 != needed {
                    return Err(DecodeError::MalformedHashList);
                }
                proof {
                    lemma_decoded_key_wf(doc@);
                    crate::chunks::lemma_split_then_join(hashes@, HASH_WIDTH as nat);
                }
                Ok(Info { name, piece_length, pieces, private, key })
            },
            _ => Err(DecodeError::TypeMismatch),
        }
    }
}

/// A layout that was read is well formed.
pub proof fn lemma_decoded_key_wf(info: Node)
    ensures
        Key::decode_spec(info) matches Ok(key) ==> key.wf(),
{
}

impl Info {
    /// Whether the torrent is private: the flag is there and is not zero.
    pub fn private(&self) -> (r: bool)
        ensures
            r == self@.is_private(),
    {
        match self.private {
            Some(p) => p != 0,
            None => false,
        }
    }

    /// The hashes of the pieces, in order.
    pub fn pieces(&self) -> (r: &Vec<[u8; 20]>)
        ensures
            Hashes(*r)@ == self@.pieces,
            r@.len() == piece_count(self@.key.total_length(), self@.piece_length),
    {
        proof {
            use_type_invariant(self);
        }
        &self.pieces.0
    }

    /// The hashes of the pieces.
    pub fn hashes(&self) -> (r: &Hashes)
        ensures
            r@ == self@.pieces,
    {
        &self.pieces
    }

    /// The private flag as the document gives it, where it gives one.
    pub fn private_flag(&self) -> (r: Option<i64>)
        ensures
            match r {
                Some(p) => self@.private == Some(p as int),
                None => self@.private is None,
            },
    {
        self.private
    }

    /// The number of bytes in each piece but the last, which may be shorter.
    pub fn piece_length(&self) -> (r: usize)
        ensures
            r == self@.piece_length,
            r > 0,
            self@.wf(),
    {
        proof {
            use_type_invariant(self);
        }
        self.piece_length
    }

    /// The suggested name of the file or directory.
    pub fn name(&self) -> (r: &str)
        ensures
            r@ == self@.name,
    {
        self.name.as_str()
    }

    /// The layout: one file or several.
    pub fn key(&self) -> (r: &Key)
        ensures
            r@ == self@.key,
            r@.wf(),
    {
        proof {
            use_type_invariant(self);
        }
        &self.key
    }
}

impl MetaInfo {
    /// The torrent description that a document gives: a dictionary with an
    /// `info` dictionary and the tracker's URL under `announce`; the other
    /// fields may be absent. Keys that are not named here are passed over.
    pub open spec fn decode_spec(node: Node) -> Result<MetaInfoView, DecodeError> {
        MetaInfo::decode_spec_with(node, Repeated { length: false, files: false })
    }

    /// The torrent description that a document gives, where `twice` tells
    /// which layout keys the bytes of its `info` dictionary repeated.
    pub open spec fn decode_spec_with(node: Node, twice: Repeated) -> Result<
        MetaInfoView,
        DecodeError,
    > {
        match node.get(key_of("info")) {
            None => Err(DecodeError::TypeMismatch),
            Some(info_node) => match Info::decode_spec_with(info_node, twice) {
                Err(e) => Err(e),
                Ok(info) => match (
                    required(node.get(key_of("announce")), |n: Node| text_of(n)),
                    optional(node.get(key_of("announce-list")), |n: Node| tiers_of(n)),
                    optional(node.get(key_of("creation date")), |n: Node| date_of(n)),
                    optional(node.get(key_of("comment")), |n: Node| text_of(n)),
                    optional(node.get(key_of("created by")), |n: Node| text_of(n)),
                    optional(node.get(key_of("encoding")), |n: Node| text_of(n)),
                ) {
                    (
                        Some(announce),
                        Some(announce_list),
                        Some(creation_date),
                        Some(comment),
                        Some(created_by),
                        Some(encoding),
                    ) => Ok(
                        MetaInfoView {
                            info,
                            announce,
                            announce_list,
                            creation_date,
                            comment,
                            created_by,
                            encoding,
                        },
                    ),
                    _ => Err(DecodeError::TypeMismatch),
                },
            },
        }
    }

    /// The torrent description that the bytes of a torrent file give.
    pub open spec fn decode_bytes_spec(bytes: Seq<u8>) -> Result<MetaInfoView, DecodeError> {
        match document_of(bytes) {
            None => Err(DecodeError::MalformedDocument),
            Some(node) => MetaInfo::decode_spec_with(
                node,
                Repeated {
                    length: info_key_count(bytes, key_of("length")) > 1,
                    files: info_key_count(bytes, key_of("files")) > 1,
                },
            ),
        }
    }

    /// Reads a torrent description from a document.
    pub fn from_document(doc: &Bencode) -> (r: Result<MetaInfo, DecodeError>)
        ensures
            match r {
                Ok(torrent) => MetaInfo::decode_spec(doc@) == Ok::<MetaInfoView, DecodeError>(
                    torrent@,
                ),
                Err(e) => MetaInfo::decode_spec(doc@) == Err::<MetaInfoView, DecodeError>(e),
            },
    {
        MetaInfo::from_document_with(doc, Repeated { length: false, files: false })
    }

    /// Reads a torrent description from a document, where `twice` tells
    /// which layout keys the bytes of its `info` dictionary repeated.
    pub fn from_document_with(doc: &Bencode, twice: Repeated) -> (r: Result<
        MetaInfo,
        DecodeError,
    >)
        ensures
            match r {
                Ok(torrent) => MetaInfo::decode_spec_with(doc@, twice) == Ok::<
                    MetaInfoView,
                    DecodeError,
                >(torrent@),
                Err(e) => MetaInfo::decode_spec_with(doc@, twice) == Err::<
                    MetaInfoView,
                    DecodeError,
                >(e),
            },
    {
        let info = match doc.get("info") {
            Some(n) => match Info::from_document_with(n, twice) {
                Ok(info) => info,
                Err(e) => {
                    return Err(e);
                },
            },
            None => {
                return Err(DecodeError::TypeMismatch);
            },
        };
        let announce = match doc.get("announce") {
            Some(n) => read_text(n),
            None => None,
        };
        let announce_list = match doc.get("announce-list") {
            Some(n) => match read_tiers(n) {
                Some(v) => Some(Some(v)),
                None => None,
            },
            None => Some(None),
        };
        let creation_date = match doc.get("creation date") {
            Some(n) => match read_date(n) {
                Some(v) => Some(Some(v)),
                None => None,
            },
            None => Some(None),
        };
        let comment = read_optional_text(doc.get("comment"));
        let created_by = read_optional_text(doc.get("created by"));
        let encoding = read_optional_text(doc.get("encoding"));
        match (announce, announce_list, creation_date, comment, created_by, encoding) {
            (
                Some(announce),
                Some(announce_list),
                Some(creation_date),
                Some(comment),
                Some(created_by),
                Some(encoding),
            ) => Ok(
                MetaInfo {
                    info,
                    announce,
                    announce_list,
                    creation_date,
                    comment,
                    created_by,
                    encoding,
                },
            ),
            _ => Err(DecodeError::TypeMismatch),
        }
    }

    /// Reads a torrent description from the bytes of a torrent file.
    pub fn decode(bytes: &[u8]) -> (r: Result<MetaInfo, DecodeError>)
        ensures
            match r {
                Ok(torrent) => MetaInfo::decode_bytes_spec(bytes@) == Ok::<
                    MetaInfoView,
                    DecodeError,
                >(torrent@),
                Err(e) => MetaInfo::decode_bytes_spec(bytes@) == Err::<MetaInfoView, DecodeError>(
                    e,
                ),
            },
    {
        match Bencode::from_bytes(bytes) {
            Some(doc) => {
                let twice = Repeated {
                    length: info_repeats(bytes, "length"),
                    files: info_repeats(bytes, "files"),
                };
                MetaInfo::from_document_with(&doc, twice)
            },
            None => Err(DecodeError::MalformedDocument),
        }
    }

    /// Reads a torrent description from the bytes of a torrent file, for a
    /// caller that has read the file and tells its failures apart by
    /// [`MetaInfoError`].
    pub fn from_bytes(bytes: &[u8]) -> (r: Result<MetaInfo, MetaInfoError>)
        ensures
            match r {
                Ok(torrent) => MetaInfo::decode_bytes_spec(bytes@) == Ok::<
                    MetaInfoView,
                    DecodeError,
                >(torrent@),
                Err(e) => MetaInfo::decode_bytes_spec(bytes@) is Err && e
                    == MetaInfoError::BencodeParseFailed,
            },
    {
        match MetaInfo::decode(bytes) {
            Ok(torrent) => Ok(torrent),
            Err(_) => Err(MetaInfoError::BencodeParseFailed),
        }
    }

    /// The `info` dictionary.
    pub fn info(&self) -> (r: &Info)
        ensures
            r@ == self@.info,
    {
        &self.info
    }

    /// The URL of the tracker.
    pub fn tracker_url(&self) -> (r: &str)
        ensures
            r@ == self@.announce,
    {
        self.announce.as_str()
    }

    /// The length of the file of a single-file torrent.
    pub fn len(&self) -> (r: usize)
        requires
            self@.info.key is SingleFile,
        ensures
            self@.info.key == (KeyView::SingleFile { length: r as nat }),
    {
        match self.info.key {
            Key::SingleFile { length } => length,
            Key::MultiFile { files: _ } => 0,
        }
    }

    /// Whether the file of a single-file torrent is empty.
    #[must_use]
    pub fn is_empty(&self) -> (r: bool)
        requires
            self@.info.key is SingleFile,
        ensures
            r == (self@.info.key == KeyView::SingleFile { length: 0 }),
    {
        self.len() == 0
    }

    /// The tiers of further trackers, where the document names any.
    pub fn announce_list(&self) -> (r: &Option<Vec<Vec<String>>>)
        ensures
            match r {
                Some(lists) => self@.announce_list == Some(tiers(lists@)),
                None => self@.announce_list is None,
            },
    {
        &self.announce_list
    }

    /// When the torrent was made, in seconds since the epoch.
    pub fn creation_date(&self) -> (r: Option<u64>)
        ensures
            match r {
                Some(t) => self@.creation_date == Some(t as nat),
                None => self@.creation_date is None,
            },
    {
        self.creation_date
    }

    /// The author's comment.
    pub fn comment(&self) -> (r: &Option<String>)
        ensures
            match r {
                Some(s) => self@.comment == Some(s@),
                None => self@.comment is None,
            },
    {
        &self.comment
    }

    /// The program that made the torrent.
    pub fn created_by(&self) -> (r: &Option<String>)
        ensures
            match r {
                Some(s) => self@.created_by == Some(s@),
                None => self@.created_by is None,
            },
    {
        &self.created_by
    }

    /// The encoding of the strings of the `info` dictionary.
    pub fn encoding(&self) -> (r: &Option<String>)
        ensures
            match r {
                Some(s) => self@.encoding == Some(s@),
                None => self@.encoding is None,
            },
    {
        &self.encoding
    }
}

/// An `info` dictionary with both `length` and `files` is refused as
/// ambiguous, and one with neither as missing its layout, whatever else it
/// holds.
pub proof fn lemma_layout_decides(info: Node)
    requires
        info is Dict,
    ensures
        info.has(key_of("length")) && info.has(key_of("files")) ==> Info::decode_spec(info) == Err::<
            InfoView,
            DecodeError,
        >(DecodeError::AmbiguousLayout),
        !info.has(key_of("length")) && !info.has(key_of("files")) ==> Info::decode_spec(info)
            == Err::<InfoView, DecodeError>(DecodeError::MissingLayout),
{
}

/// A file without a path segment is refused.
pub proof fn lemma_empty_path_refused(file: Node)
    requires
        file.get(key_of("path")) == Some(Node::List(Seq::empty())),
    ensures
        File::decode_spec(file) is None,
{
    let segments = Seq::<Node>::empty();
    assert(texts_of(Node::List(segments)).unwrap().len() == 0);
}

/// An `info` dictionary that was read is well formed: its piece length is
/// positive, its hashes have 20 bytes, there is one hash for each piece, and
/// every file has a path.
pub proof fn lemma_decoded_info_wf(node: Node)
    ensures
        Info::decode_spec(node) matches Ok(info) ==> info.wf(),
{
    if Info::decode_spec(node) is Ok {
        lemma_decoded_key_wf(node);
        let hashes = required(node.get(key_of("pieces")), |n: Node| bytes_of(n)).unwrap();
        crate::chunks::lemma_split_then_join(hashes, HASH_WIDTH as nat);
    }
}

} // verus!
