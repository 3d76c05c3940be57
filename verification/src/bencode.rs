//! Bencoded documents as trees: integers, byte strings, lists and
//! dictionaries. The bytes are read and written by `serde_bencode`; this
//! module holds the tree, what it means, and verified access to it.

use crate::scan::{nesting, nesting_within, MAX_NESTING};
use vstd::prelude::*;
use vstd::string::*;

verus! {

/// A bencoded value as it is held in memory. A dictionary is a list of
/// entries; where a key occurs more than once the last entry counts.
#[derive(Debug, PartialEq, Eq)]
pub enum Bencode {
    Int(i64),
    Bytes(Vec<u8>),
    List(Vec<Bencode>),
    Dict(Vec<(Vec<u8>, Bencode)>),
}

/// What a bencoded value says. A dictionary maps each key to one value, in no
/// order; beside the map stands the set of keys that were given more than
/// once.
pub enum Node {
    Int(int),
    Bytes(Seq<u8>),
    List(Seq<Node>),
    Dict(Map<Seq<u8>, Node>, Set<Seq<u8>>),
}

/// Whether more than one entry has the key `key`.
pub open spec fn key_repeats(entries: Seq<(Vec<u8>, Bencode)>, key: Seq<u8>) -> bool {
    exists|i: int, j: int|
        0 <= i < j < entries.len() && (#[trigger] entries[i]).0@ == key && (#[trigger] entries[j]).0@
            == key
}

/// Whether some entry has the key `key`.
pub open spec fn has_key(entries: Seq<(Vec<u8>, Bencode)>, key: Seq<u8>) -> bool {
    exists|i: int| 0 <= i < entries.len() && (#[trigger] entries[i]).0@ == key
}

/// Whether entry `i` is the last one with the key `key`.
pub open spec fn is_last(entries: Seq<(Vec<u8>, Bencode)>, key: Seq<u8>, i: int) -> bool {
    &&& 0 <= i < entries.len()
    &&& entries[i].0@ == key
    &&& forall|j: int| i < j < entries.len() ==> (#[trigger] entries[j]).0@ != key
}

/// The position of the last entry with the key `key`.
pub open spec fn last_index(entries: Seq<(Vec<u8>, Bencode)>, key: Seq<u8>) -> int {
    choose|i: int| is_last(entries, key, i)
}

impl View for Bencode {
    type V = Node;

    open spec fn view(&self) -> Node
        decreases self,
    {
        match self {
            Bencode::Int(i) => Node::Int(*i as int),
            Bencode::Bytes(b) => Node::Bytes(b@),
            Bencode::List(items) => Node::List(
                Seq::new(
                    items.len() as nat,
                    |i: int|
                        if 0 <= i < items.len() {
                            items[i].view()
                        } else {
                            Node::Int(0)
                        },
                ),
            ),
            Bencode::Dict(entries) => Node::Dict(
                Map::new(
                    |k: Seq<u8>| has_key(entries@, k),
                    |k: Seq<u8>|
                        {
                            let i = last_index(entries@, k);
                            if 0 <= i < entries.len() {
                                entries[i].1.view()
                            } else {
                                Node::Int(0)
                            }
                        },
                ),
                Set::new(|k: Seq<u8>| key_repeats(entries@, k)),
            ),
        }
    }
}

/// What a list of trees says, item by item.
pub open spec fn nodes(items: Seq<Bencode>) -> Seq<Node> {
    Seq::new(items.len(), |i: int| items[i]@)
}

/// What a list of entries says: each key that occurs, mapped to the value of
/// its last entry.
pub open spec fn entries_map(entries: Seq<(Vec<u8>, Bencode)>) -> Map<Seq<u8>, Node> {
    Map::new(|k: Seq<u8>| has_key(entries, k), |k: Seq<u8>| entries[last_index(entries, k)].1@)
}

/// The keys that more than one entry has.
pub open spec fn entries_repeated(entries: Seq<(Vec<u8>, Bencode)>) -> Set<Seq<u8>> {
    Set::new(|k: Seq<u8>| key_repeats(entries, k))
}

impl Node {
    /// Whether this is a dictionary in which `key` was given more than once.
    pub open spec fn repeats(self, key: Seq<u8>) -> bool {
        match self {
            Node::Dict(_, repeated) => repeated.contains(key),
            _ => false,
        }
    }

    /// The keys of a dictionary; of anything else, none.
    pub open spec fn keys(self) -> Set<Seq<u8>> {
        match self {
            Node::Dict(m, _) => m.dom(),
            _ => Set::empty(),
        }
    }

    /// The value under `key`, where this is a dictionary that has the key.
    pub open spec fn get(self, key: Seq<u8>) -> Option<Node> {
        match self {
            Node::Dict(m, _) => if m.dom().contains(key) {
                Some(m[key])
            } else {
                None
            },
            _ => None,
        }
    }

    /// Whether this is a dictionary that has the key.
    pub open spec fn has(self, key: Seq<u8>) -> bool {
        self.get(key) is Some
    }

    /// Whether the value nests no deeper than `limit`.
    pub open spec fn within(self, limit: nat) -> bool
        decreases limit,
    {
        match self {
            Node::Int(_) => true,
            Node::Bytes(_) => true,
            Node::List(items) => limit > 0 && forall|i: int|
                0 <= i < items.len() ==> (#[trigger] items[i]).within((limit - 1) as nat),
            Node::Dict(m, _) => limit > 0 && forall|k: Seq<u8>| #[trigger]
                m.dom().contains(k) ==> m[k].within((limit - 1) as nat),
        }
    }

    /// The same value with no key repeated, here and in every value below:
    /// what is left once each key stands for its last entry alone.
    pub open spec fn settled(self) -> Node
        decreases self,
    {
        match self {
            Node::Int(i) => Node::Int(i),
            Node::Bytes(b) => Node::Bytes(b),
            Node::List(items) => Node::List(
                Seq::new(
                    items.len(),
                    |i: int|
                        if 0 <= i < items.len() {
                            items[i].settled()
                        } else {
                            Node::Int(0)
                        },
                ),
            ),
            Node::Dict(m, _) => Node::Dict(
                Map::new(
                    |k: Seq<u8>| m.dom().contains(k),
                    |k: Seq<u8>|
                        if m.dom().contains(k) {
                            m[k].settled()
                        } else {
                            Node::Int(0)
                        },
                ),
                Set::empty(),
            ),
        }
    }
}

/// A key that occurs has a last entry.
pub proof fn lemma_last_index(entries: Seq<(Vec<u8>, Bencode)>, key: Seq<u8>)
    requires
        has_key(entries, key),
    ensures
        is_last(entries, key, last_index(entries, key)),
    decreases entries.len(),
{
    let n = entries.len() as int;
    if entries[n - 1].0@ == key {
        assert(is_last(entries, key, n - 1));
    } else {
        let front = entries.drop_last();
        let w = choose|i: int| 0 <= i < entries.len() && (#[trigger] entries[i]).0@ == key;
        assert(front[w].0@ == key);
        lemma_last_index(front, key);
        let i = last_index(front, key);
        assert forall|j: int| i < j < entries.len() implies (#[trigger] entries[j]).0@ != key by {
            if j < n - 1 {
                assert(front[j].0@ != key);
            }
        }
        assert(is_last(entries, key, i));
    }
}

/// The last entry with a key is the one that `last_index` names.
pub proof fn lemma_last_unique(entries: Seq<(Vec<u8>, Bencode)>, key: Seq<u8>, i: int)
    requires
        is_last(entries, key, i),
    ensures
        has_key(entries, key),
        last_index(entries, key) == i,
{
    let c = last_index(entries, key);
    assert(is_last(entries, key, c));
    if c < i {
        assert(entries[i].0@ != key);
    } else if i < c {
        assert(entries[c].0@ != key);
    }
}

/// A dictionary tree says what `entries_map` says of its entries.
pub proof fn lemma_view_dict(entries: Vec<(Vec<u8>, Bencode)>)
    ensures
        Bencode::Dict(entries)@ == Node::Dict(entries_map(entries@), entries_repeated(entries@)),
{
    let left = Bencode::Dict(entries)@->Dict_0;
    let right = entries_map(entries@);
    assert forall|k: Seq<u8>| left.dom().contains(k) implies #[trigger] left[k] == right[k] by {
        lemma_last_index(entries@, k);
    }
    assert(left =~= right);
}

/// A list tree says what `nodes` says of its items.
pub proof fn lemma_view_list(items: Vec<Bencode>)
    ensures
        Bencode::List(items)@ == Node::List(nodes(items@)),
{
    assert(Bencode::List(items)@->List_0 =~= nodes(items@));
}

/// Adding an entry at the end sets its key to its value and leaves the other
/// keys as they were; the key counts as repeated if it was there before.
pub proof fn lemma_entries_push(
    entries: Seq<(Vec<u8>, Bencode)>,
    key: Vec<u8>,
    value: Bencode,
)
    ensures
        entries_map(entries.push((key, value))) == entries_map(entries).insert(key@, value@),
        entries_repeated(entries.push((key, value))) == if has_key(entries, key@) {
            entries_repeated(entries).insert(key@)
        } else {
            entries_repeated(entries)
        },
{
    let longer = entries.push((key, value));
    let left = entries_map(longer);
    let right = entries_map(entries).insert(key@, value@);
    let n = entries.len() as int;
    assert(longer[n].0@ == key@);
    assert forall|k: Seq<u8>| left.dom().contains(k) <==> right.dom().contains(k) by {
        if has_key(longer, k) && k != key@ {
            let w = choose|i: int| 0 <= i < longer.len() && (#[trigger] longer[i]).0@ == k;
            assert(entries[w].0@ == k);
        }
        if has_key(entries, k) {
            let w = choose|i: int| 0 <= i < entries.len() && (#[trigger] entries[i]).0@ == k;
            assert(longer[w].0@ == k);
        }
    }
    assert forall|k: Seq<u8>| left.dom().contains(k) implies #[trigger] left[k] == right[k] by {
        if k == key@ {
            assert(is_last(longer, k, n));
            lemma_last_unique(longer, k, n);
        } else {
            lemma_last_index(entries, k);
            let i = last_index(entries, k);
            assert(longer[i] == entries[i]);
            assert forall|j: int| i < j < longer.len() implies (#[trigger] longer[j]).0@ != k by {
                if j < n {
                    assert(entries[j].0@ != k);
                }
            }
            assert(is_last(longer, k, i));
            lemma_last_unique(longer, k, i);
        }
    }
    assert(left =~= right);
    let twice = entries_repeated(longer);
    let expected = if has_key(entries, key@) {
        entries_repeated(entries).insert(key@)
    } else {
        entries_repeated(entries)
    };
    assert forall|k: Seq<u8>| twice.contains(k) <==> expected.contains(k) by {
        if key_repeats(longer, k) {
            let (i, j) = choose|i: int, j: int|
                0 <= i < j < longer.len() && (#[trigger] longer[i]).0@ == k && (
                #[trigger] longer[j]).0@ == k;
            assert(entries[i].0@ == k);
            if j < n {
                assert(entries[j].0@ == k);
            }
        }
        if key_repeats(entries, k) {
            let (i, j) = choose|i: int, j: int|
                0 <= i < j < entries.len() && (#[trigger] entries[i]).0@ == k && (
                #[trigger] entries[j]).0@ == k;
            assert(longer[i].0@ == k && longer[j].0@ == k);
        }
        if has_key(entries, key@) && k == key@ {
            let w = choose|i: int| 0 <= i < entries.len() && (#[trigger] entries[i]).0@ == k;
            assert(longer[w].0@ == k && longer[n].0@ == k);
        }
    }
    assert(twice =~= expected);
}

/// No entries say nothing: no key, and none repeated.
pub proof fn lemma_entries_empty()
    ensures
        entries_map(Seq::empty()) == Map::<Seq<u8>, Node>::empty(),
        entries_repeated(Seq::empty()) == Set::<Seq<u8>>::empty(),
{
    assert(entries_map(Seq::empty()) =~= Map::<Seq<u8>, Node>::empty());
    assert(entries_repeated(Seq::empty()) =~= Set::<Seq<u8>>::empty());
}

/// Whether two byte strings hold the same bytes.
pub fn same_bytes(a: &[u8], b: &[u8]) -> (r: bool)
    ensures
        r == (a@ == b@),
{
    if a.len() != b.len() {
        return false;
    }
    let mut i: usize = 0;
    while i < a.len()
        invariant
            i <= a@.len(),
            a@.len() == b@.len(),
            forall|j: int| 0 <= j < i ==> a@[j] == b@[j],
        decreases a@.len() - i,
    {
        if a[i] != b[i] {
            return false;
        }
        i += 1;
    }
    assert(a@ =~= b@);
    true
}

impl Bencode {
    /// The value under `key`: that of the last entry with the key, where this
    /// is a dictionary that has one.
    pub fn get(&self, key: &str) -> (r: Option<&Bencode>)
        ensures
            match r {
                Some(v) => self@.get(key.spec_bytes()) == Some(v@),
                None => self@.get(key.spec_bytes()) is None,
            },
    {
        match self {
            Bencode::Dict(entries) => {
                let k = key.as_bytes();
                let mut found: Option<usize> = None;
                let mut i: usize = 0;
                while i < entries.len()
                    invariant
                        i <= entries.len(),
                        k@ == key.spec_bytes(),
                        match found {
                            Some(a) => a < i && entries[a as int].0@ == k@ && forall|j: int|
                                a < j < i ==> (#[trigger] entries@[j]).0@ != k@,
                            None => forall|j: int| 0 <= j < i ==> (#[trigger] entries@[j]).0@ != k@,
                        },
                    decreases entries.len() - i,
                {
                    if same_bytes(entries[i].0.as_slice(), k) {
                        found = Some(i);
                    }
                    i += 1;
                }
                proof {
                    lemma_view_dict(*entries);
                }
                match found {
                    Some(a) => {
                        proof {
                            assert(is_last(entries@, k@, a as int));
                            lemma_last_unique(entries@, k@, a as int);
                        }
                        Some(&entries[a].1)
                    },
                    None => None,
                }
            },
            _ => None,
        }
    }

    /// Whether this is a dictionary in which `key` has more than one entry.
    pub fn has_repeated(&self, key: &str) -> (r: bool)
        ensures
            r == self@.repeats(key.spec_bytes()),
    {
        match self {
            Bencode::Dict(entries) => {
                proof {
                    lemma_view_dict(*entries);
                }
                let k = key.as_bytes();
                let mut seen: Option<usize> = None;
                let mut i: usize = 0;
                while i < entries.len()
                    invariant
                        i <= entries.len(),
                        k@ == key.spec_bytes(),
                        self@ == Node::Dict(entries_map(entries@), entries_repeated(entries@)),
                        match seen {
                            Some(a) => a < i && entries[a as int].0@ == k@ && forall|j: int|
                                0 <= j < i && j != a ==> (#[trigger] entries@[j]).0@ != k@,
                            None => forall|j: int| 0 <= j < i ==> (#[trigger] entries@[j]).0@ != k@,
                        },
                    decreases entries.len() - i,
                {
                    if same_bytes(entries[i].0.as_slice(), k) {
                        match seen {
                            Some(a) => {
                                assert(entries@[a as int].0@ == k@ && entries@[i as int].0@ == k@);
                                return true;
                            },
                            None => {
                                seen = Some(i);
                            },
                        }
                    }
                    i += 1;
                }
                false
            },
            _ => false,
        }
    }

    /// The integer, where this is one.
    pub fn as_int(&self) -> (r: Option<i64>)
        ensures
            match r {
                Some(i) => self@ == Node::Int(i as int),
                None => !(self@ is Int),
            },
    {
        match self {
            Bencode::Int(i) => Some(*i),
            _ => None,
        }
    }

    /// The bytes, where this is a byte string.
    pub fn as_bytes(&self) -> (r: Option<&Vec<u8>>)
        ensures
            match r {
                Some(b) => self@ == Node::Bytes(b@),
                None => !(self@ is Bytes),
            },
    {
        match self {
            Bencode::Bytes(b) => Some(b),
            _ => None,
        }
    }

    /// The items, where this is a list.
    pub fn as_list(&self) -> (r: Option<&Vec<Bencode>>)
        ensures
            match r {
                Some(items) => self@ == Node::List(nodes(items@)),
                None => !(self@ is List),
            },
    {
        match self {
            Bencode::List(items) => {
                proof {
                    lemma_view_list(*items);
                }
                Some(items)
            },
            _ => None,
        }
    }

    /// The entries, where this is a dictionary.
    pub fn as_dict(&self) -> (r: Option<&Vec<(Vec<u8>, Bencode)>>)
        ensures
            match r {
                Some(entries) => self@ == Node::Dict(
                    entries_map(entries@),
                    entries_repeated(entries@),
                ),
                None => !(self@ is Dict),
            },
    {
        match self {
            Bencode::Dict(entries) => {
                proof {
                    lemma_view_dict(*entries);
                }
                Some(entries)
            },
            _ => None,
        }
    }
}

/// Adds an entry at the end of a dictionary under construction.
pub fn push_entry(entries: &mut Vec<(Vec<u8>, Bencode)>, key: &str, value: Bencode)
    ensures
        final(entries)@.len() == old(entries)@.len() + 1,
        final(entries)@.drop_last() == old(entries)@,
        final(entries)@.last().1 == value,
        entries_map(final(entries)@) == entries_map(old(entries)@).insert(
            key.spec_bytes(),
            value@,
        ),
        entries_repeated(final(entries)@) == if entries_map(old(entries)@).dom().contains(
            key.spec_bytes(),
        ) {
            entries_repeated(old(entries)@).insert(key.spec_bytes())
        } else {
            entries_repeated(old(entries)@)
        },
{
    let k = key.as_bytes_vec();
    proof {
        lemma_entries_push(entries@, k, value);
    }
    entries.push((k, value));
    assert(entries@.drop_last() =~= old(entries)@);
}

/// The outside crate's own tree, `serde_bencode::value::Value`, which this
/// module converts to and from [`Bencode`].
#[verifier::external_type_specification]
#[verifier::external_body]
pub struct ExValue(serde_bencode::value::Value);

/// The outside crate's error.
#[verifier::external_type_specification]
#[verifier::external_body]
pub struct ExError(serde_bencode::Error);

/// What a `serde_bencode::value::Value` holds: its integer, its bytes, its
/// items in order, or the entries of its hash map; no key is repeated.
pub uninterp spec fn value_node(value: serde_bencode::value::Value) -> Node;

/// What `serde_bencode::from_bytes` reads from `bytes` as a
/// `serde_bencode::value::Value`, or `None` where it reports an error.
pub uninterp spec fn bencode_document(bytes: Seq<u8>) -> Option<Node>;

/// The bytes that `serde_bencode::to_bytes` writes for a
/// `serde_bencode::value::Value` that holds `doc`.
pub uninterp spec fn bencode_encoding(doc: Node) -> Seq<u8>;

/// Calls `serde_bencode::from_bytes` at the type
/// `serde_bencode::value::Value`. The parser calls itself once for each list
/// or dictionary that is open, and reads the tokens that [`nesting`] walks,
/// so the bytes must nest no deeper than [`MAX_NESTING`]. Claimed: what the
/// value holds is a function of the bytes alone, named
/// [`bencode_document`]; the outside parser is deterministic, and what a
/// value holds does not depend on the order in which its hash maps hand out
/// their entries; and the value nests no deeper than the bytes do.
#[verifier::external_body]
fn read_value(bytes: &[u8]) -> (r: Result<serde_bencode::value::Value, serde_bencode::Error>)
    requires
        nesting(bytes@) <= MAX_NESTING,
    ensures
        match r {
            Ok(value) => bencode_document(bytes@) == Some(value_node(value)) && value_node(
                value,
            ).within(MAX_NESTING as nat),
            Err(_) => bencode_document(bytes@) is None,
        },
{
    serde_bencode::from_bytes::<serde_bencode::value::Value>(bytes)
}

/// Calls `serde_bencode::to_bytes` on a `serde_bencode::value::Value`. The
/// serializer calls itself once for each list or dictionary inside another,
/// so the value must nest no deeper than [`MAX_NESTING`].
/// Claimed: the call succeeds, since the serializer fails only on floats and
/// on keys that are not byte strings, and a `Value` holds neither; and the
/// bytes are a function of what the value holds, named
/// [`bencode_encoding`]: the serializer writes the entries of each
/// dictionary sorted by key.
#[verifier::external_body]
fn write_value(value: &serde_bencode::value::Value) -> (r: Result<Vec<u8>, serde_bencode::Error>)
    requires
        value_node(*value).within(MAX_NESTING as nat),
    ensures
        r is Ok,
        r matches Ok(encoded) ==> encoded@ == bencode_encoding(value_node(*value)),
{
    serde_bencode::to_bytes(value)
}

/// Moves a `serde_bencode::value::Value` into a [`Bencode`], variant by
/// variant; the entries of a dictionary come in the order in which its hash
/// map hands them out. The conversion calls itself once for each list or
/// dictionary inside another, so the value must nest no deeper than
/// [`MAX_NESTING`]. Claimed: the tree says what the value holds. A hash map
/// has each key once, so the tree repeats none.
#[verifier::external_body]
fn from_value(value: serde_bencode::value::Value) -> (r: Bencode)
    requires
        value_node(value).within(MAX_NESTING as nat),
    ensures
        r@ == value_node(value),
{
    match value {
        serde_bencode::value::Value::Int(i) => Bencode::Int(i),
        serde_bencode::value::Value::Bytes(b) => Bencode::Bytes(b),
        serde_bencode::value::Value::List(items) => Bencode::List(
            items.into_iter().map(from_value).collect(),
        ),
        serde_bencode::value::Value::Dict(map) => Bencode::Dict(
            map.into_iter().map(|(k, v)| (k, from_value(v))).collect(),
        ),
    }
}

/// Copies a [`Bencode`] into a `serde_bencode::value::Value`, variant by
/// variant; the entries of a dictionary are put into its hash map one by one
/// with `HashMap::insert`, which replaces the value of a key that is there.
/// The conversion calls itself once for each list or dictionary inside
/// another, so the tree must nest no deeper than [`MAX_NESTING`]. Claimed:
/// the value holds what the tree says, but for the repeated keys, of which a
/// hash map has none; and it nests no deeper than the tree.
#[verifier::external_body]
fn to_value(doc: &Bencode) -> (r: serde_bencode::value::Value)
    requires
        doc.within(MAX_NESTING as nat),
    ensures
        value_node(r) == doc@.settled(),
        value_node(r).within(MAX_NESTING as nat),
{
    match doc {
        Bencode::Int(i) => serde_bencode::value::Value::Int(*i),
        Bencode::Bytes(b) => serde_bencode::value::Value::Bytes(b.clone()),
        Bencode::List(items) => serde_bencode::value::Value::List(
            items.iter().map(to_value).collect(),
        ),
        Bencode::Dict(entries) => {
            let mut map = std::collections::HashMap::new();
            for (k, v) in entries {
                map.insert(k.clone(), to_value(v));
            }
            serde_bencode::value::Value::Dict(map)
        },
    }
}

/// What the bytes say as a document: what the parser reads from them,
/// where they nest no deeper than [`MAX_NESTING`]; else nothing.
pub open spec fn document_of(bytes: Seq<u8>) -> Option<Node> {
    if nesting(bytes) <= MAX_NESTING {
        bencode_document(bytes)
    } else {
        None
    }
}

impl Bencode {
    /// Reads a bencoded document; `None` where the bytes are not one, or
    /// nest deeper than [`MAX_NESTING`].
    pub fn from_bytes(bytes: &[u8]) -> (r: Option<Bencode>)
        ensures
            match r {
                Some(doc) => document_of(bytes@) == Some(doc@),
                None => document_of(bytes@) is None,
            },
    {
        if !nesting_within(bytes, MAX_NESTING) {
            return None;
        }
        match read_value(bytes) {
            Ok(value) => Some(from_value(value)),
            Err(_) => None,
        }
    }

    /// Writes the document in its canonical encoding. Of a key that is
    /// repeated the last entry is written. `None` where the tree nests
    /// deeper than [`MAX_NESTING`].
    pub fn to_bytes(&self) -> (r: Option<Vec<u8>>)
        ensures
            match r {
                Some(bytes) => self.within(MAX_NESTING as nat) && bytes@ == bencode_encoding(
                    self@.settled(),
                ),
                None => !self.within(MAX_NESTING as nat),
            },
    {
        if !self.nested_within(MAX_NESTING) {
            return None;
        }
        let value = to_value(self);
        match write_value(&value) {
            Ok(bytes) => Some(bytes),
            Err(_) => None,
        }
    }
}

/// Whether each of the trees nests no deeper than `limit`.
pub open spec fn all_within(items: Seq<Bencode>, limit: nat) -> bool
    decreases limit, 1nat,
{
    forall|i: int| 0 <= i < items.len() ==> (#[trigger] items[i]).within(limit)
}

/// Whether the value of each entry nests no deeper than `limit`.
pub open spec fn values_within(entries: Seq<(Vec<u8>, Bencode)>, limit: nat) -> bool
    decreases limit, 1nat,
{
    forall|i: int| 0 <= i < entries.len() ==> (#[trigger] entries[i]).1.within(limit)
}

impl Bencode {
    /// Whether the tree nests no deeper than `limit`: no more than `limit`
    /// lists and dictionaries stand inside one another, in any entry.
    pub open spec fn within(&self, limit: nat) -> bool
        decreases limit, 0nat,
    {
        match self {
            Bencode::Int(_) => true,
            Bencode::Bytes(_) => true,
            Bencode::List(items) => limit > 0 && all_within(items@, (limit - 1) as nat),
            Bencode::Dict(entries) => limit > 0 && values_within(entries@, (limit - 1) as nat),
        }
    }

    /// Whether the tree nests no deeper than `limit`.
    pub fn nested_within(&self, limit: usize) -> (r: bool)
        ensures
            r == self.within(limit as nat),
        decreases limit,
    {
        match self {
            Bencode::Int(_) => true,
            Bencode::Bytes(_) => true,
            Bencode::List(items) => {
                if limit == 0 {
                    return false;
                }
                let mut i: usize = 0;
                while i < items.len()
                    invariant
                        i <= items.len(),
                        limit > 0,
                        self.within(limit as nat) == all_within(items@, (limit - 1) as nat),
                        forall|j: int|
                            0 <= j < i ==> (#[trigger] items@[j]).within((limit - 1) as nat),
                    decreases items.len() - i,
                {
                    if !items[i].nested_within(limit - 1) {
                        assert(!items@[i as int].within((limit - 1) as nat));
                        return false;
                    }
                    i += 1;
                }
                true
            },
            Bencode::Dict(entries) => {
                if limit == 0 {
                    return false;
                }
                let mut i: usize = 0;
                while i < entries.len()
                    invariant
                        i <= entries.len(),
                        limit > 0,
                        self.within(limit as nat) == values_within(entries@, (limit - 1) as nat),
                        forall|j: int|
                            0 <= j < i ==> (#[trigger] entries@[j]).1.within((limit - 1) as nat),
                    decreases entries.len() - i,
                {
                    if !entries[i].1.nested_within(limit - 1) {
                        assert(!entries@[i as int].1.within((limit - 1) as nat));
                        return false;
                    }
                    i += 1;
                }
                true
            },
        }
    }
}

/// A tree that nests no deeper than `limit` nests no deeper than any
/// greater limit.
pub proof fn lemma_within_deeper(tree: Bencode, limit: nat, greater: nat)
    requires
        tree.within(limit),
        limit <= greater,
    ensures
        tree.within(greater),
    decreases limit,
{
    match tree {
        Bencode::List(items) => {
            assert forall|i: int| 0 <= i < items@.len() implies (#[trigger] items@[i]).within(
                (greater - 1) as nat,
            ) by {
                lemma_within_deeper(items@[i], (limit - 1) as nat, (greater - 1) as nat);
            }
        },
        Bencode::Dict(entries) => {
            assert forall|i: int| 0 <= i < entries@.len() implies (#[trigger] entries@[i]).1.within(
                (greater - 1) as nat,
            ) by {
                lemma_within_deeper(entries@[i].1, (limit - 1) as nat, (greater - 1) as nat);
            }
        },
        _ => {},
    }
}

/// Entries whose values nest no deeper than `limit` stay so when an entry
/// with such a value is added at the end.
pub proof fn lemma_values_within_push(
    before: Seq<(Vec<u8>, Bencode)>,
    after: Seq<(Vec<u8>, Bencode)>,
    limit: nat,
)
    requires
        values_within(before, limit),
        after.len() == before.len() + 1,
        after.drop_last() == before,
        after.last().1.within(limit),
    ensures
        values_within(after, limit),
{
    assert forall|i: int| 0 <= i < after.len() implies (#[trigger] after[i]).1.within(limit) by {
        if i < before.len() {
            assert(after[i] == after.drop_last()[i]);
        }
    }
}

} // verus!
