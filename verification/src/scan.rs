//! Walking the bytes of a bencoded document token by token, without
//! building a tree: how deep the document nests, where a value ends, and how
//! often a key stands in a dictionary. The tokens are an integer from `i` to
//! the next `e`, a byte string with its length in digits before a `:`, the
//! opening `l` and `d`, and the closing `e`.

use crate::bencode::same_bytes;
use vstd::prelude::*;
use vstd::slice::slice_subrange;
use vstd::string::*;

verus! {

/// The deepest nesting of lists and dictionaries that a document is read
/// with.
pub const MAX_NESTING: usize = 64;

/// Whether the byte is a decimal digit.
pub open spec fn is_digit(b: u8) -> bool {
    '0' as u8 <= b <= '9' as u8
}

/// The place of the first byte `b` at or after `pos`, or the length of the
/// bytes where there is none.
pub open spec fn find(bytes: Seq<u8>, pos: int, b: u8) -> int
    decreases bytes.len() - pos,
{
    if pos < 0 || pos >= bytes.len() {
        bytes.len() as int
    } else if bytes[pos] == b {
        pos
    } else {
        find(bytes, pos + 1, b)
    }
}

/// The number that the digits from `from` up to `to` write; `None` where a
/// byte is no digit or the number does not fit a `usize`.
pub open spec fn number(bytes: Seq<u8>, from: int, to: int) -> Option<nat>
    decreases to - from,
{
    if to <= from {
        Some(0)
    } else if !is_digit(bytes[to - 1]) {
        None
    } else {
        match number(bytes, from, to - 1) {
            Some(n) => if n * 10 + (bytes[to - 1] - '0' as u8) <= usize::MAX {
                Some((n * 10 + (bytes[to - 1] - '0' as u8)) as nat)
            } else {
                None
            },
            None => None,
        }
    }
}

/// The byte string that starts at `pos`: where its content starts and where
/// it ends. `None` where no digit stands at `pos`, no `:` follows, the length
/// is no number, or the content is cut short.
pub open spec fn string_at(bytes: Seq<u8>, pos: int) -> Option<(int, int)> {
    if 0 <= pos < bytes.len() && is_digit(bytes[pos]) {
        let colon = find(bytes, pos, ':' as u8);
        if colon >= bytes.len() {
            None
        } else {
            match number(bytes, pos, colon) {
                Some(n) => if colon + 1 + n <= bytes.len() {
                    Some((colon + 1, colon + 1 + n))
                } else {
                    None
                },
                None => None,
            }
        }
    } else {
        None
    }
}

/// One token further: the place after the token at `pos`, and the nesting
/// after it. `None` at the end of the bytes, at a token that is cut short,
/// at a byte that starts no token, and at an `e` that closes nothing.
pub open spec fn step(bytes: Seq<u8>, pos: int, depth: nat) -> Option<(int, nat)> {
    if pos < 0 || pos >= bytes.len() {
        None
    } else if bytes[pos] == 'i' as u8 {
        let end = find(bytes, pos + 1, 'e' as u8);
        if end >= bytes.len() {
            None
        } else {
            Some((end + 1, depth))
        }
    } else if is_digit(bytes[pos]) {
        match string_at(bytes, pos) {
            Some((_, end)) => Some((end, depth)),
            None => None,
        }
    } else if bytes[pos] == 'l' as u8 || bytes[pos] == 'd' as u8 {
        Some((pos + 1, depth + 1))
    } else if bytes[pos] == 'e' as u8 && depth > 0 {
        Some((pos + 1, (depth - 1) as nat))
    } else {
        None
    }
}

/// The deepest nesting from `pos` on, given the nesting at `pos` and the
/// deepest seen before. The walk ends where the first value ends and where
/// no token follows.
pub open spec fn deepest(bytes: Seq<u8>, pos: int, depth: nat, seen: nat) -> nat
    decreases bytes.len() - pos,
{
    match step(bytes, pos, depth) {
        Some((next, after)) => if after == 0 || next <= pos {
            seen
        } else {
            deepest(
                bytes,
                next,
                after,
                if after > seen {
                    after
                } else {
                    seen
                },
            )
        },
        None => seen,
    }
}

/// How deep the first value of the bytes nests: the greatest number of
/// lists and dictionaries that are open at once.
pub open spec fn nesting(bytes: Seq<u8>) -> nat {
    deepest(bytes, 0, 0, 0)
}

/// Where the value ends that is open at `pos` with the nesting `depth`.
pub open spec fn close(bytes: Seq<u8>, pos: int, depth: nat) -> Option<int>
    decreases bytes.len() - pos,
{
    match step(bytes, pos, depth) {
        Some((next, after)) => if after == 0 {
            Some(next)
        } else if next <= pos {
            None
        } else {
            close(bytes, next, after)
        },
        None => None,
    }
}

/// Where the value ends that starts at `pos`; `None` where it is cut short.
pub open spec fn value_end(bytes: Seq<u8>, pos: int) -> Option<int> {
    close(bytes, pos, 0)
}

/// The number of entries with the key `key` among the entries of a
/// dictionary that start at `pos`. The walk ends at the first thing that is
/// no byte string followed by a whole value.
pub open spec fn count_key(bytes: Seq<u8>, pos: int, key: Seq<u8>) -> nat
    decreases bytes.len() - pos,
{
    match string_at(bytes, pos) {
        Some((start, end)) => match value_end(bytes, end) {
            Some(next) => if next <= pos || next > bytes.len() {
                0
            } else {
                count_key(bytes, next, key) + if bytes.subrange(start, end) == key {
                    1nat
                } else {
                    0nat
                }
            },
            None => 0,
        },
        None => 0,
    }
}

/// Where the value starts of the last entry with the key `key`, among the
/// entries of a dictionary that start at `pos`.
pub open spec fn last_value(bytes: Seq<u8>, pos: int, key: Seq<u8>) -> Option<int>
    decreases bytes.len() - pos,
{
    match string_at(bytes, pos) {
        Some((start, end)) => match value_end(bytes, end) {
            Some(next) => if next <= pos || next > bytes.len() {
                None
            } else if last_value(bytes, next, key) is Some {
                last_value(bytes, next, key)
            } else if bytes.subrange(start, end) == key {
                Some(end)
            } else {
                None
            },
            None => None,
        },
        None => None,
    }
}

/// How often the key `key` stands in the `info` dictionary of a document:
/// in the dictionary under the last `info` of the outer dictionary.
pub open spec fn info_key_count(bytes: Seq<u8>, key: Seq<u8>) -> nat {
    if bytes.len() > 0 && bytes[0] == 'd' as u8 {
        match last_value(bytes, 1, "info".spec_bytes()) {
            Some(at) => if at < bytes.len() && bytes[at] == 'd' as u8 {
                count_key(bytes, at + 1, key)
            } else {
                0
            },
            None => 0,
        }
    } else {
        0
    }
}

/// Digits that are no number, or too great a number, stay so when more
/// bytes follow.
pub proof fn lemma_number_none(bytes: Seq<u8>, from: int, mid: int, to: int)
    requires
        from <= mid <= to,
        number(bytes, from, mid) is None,
    ensures
        number(bytes, from, to) is None,
    decreases to - mid,
{
    if mid < to {
        lemma_number_none(bytes, from, mid, to - 1);
    }
}

/// The place of the first byte `b` at or after `pos`.
pub fn find_byte(bytes: &[u8], pos: usize, b: u8) -> (r: usize)
    requires
        pos <= bytes@.len(),
    ensures
        r == find(bytes@, pos as int, b),
        pos <= r <= bytes@.len(),
{
    let mut i: usize = pos;
    while i < bytes.len() && bytes[i] != b
        invariant
            pos <= i <= bytes@.len(),
            find(bytes@, pos as int, b) == find(bytes@, i as int, b),
        decreases bytes@.len() - i,
    {
        i += 1;
    }
    i
}

/// The number that the digits from `from` up to `to` write.
pub fn read_number(bytes: &[u8], from: usize, to: usize) -> (r: Option<usize>)
    requires
        from <= to <= bytes@.len(),
    ensures
        match r {
            Some(n) => number(bytes@, from as int, to as int) == Some(n as nat),
            None => number(bytes@, from as int, to as int) is None,
        },
{
    let mut n: usize = 0;
    let mut i: usize = from;
    while i < to
        invariant
            from <= i <= to <= bytes@.len(),
            number(bytes@, from as int, i as int) == Some(n as nat),
        decreases to - i,
    {
        let b = bytes[i];
        if b < '0' as u8 || b > '9' as u8 {
            proof {
                lemma_number_none(bytes@, from as int, i + 1, to as int);
            }
            return None;
        }
        let d = (b - '0' as u8) as usize;
        if n > (usize::MAX - d) / 10 {
            proof {
                lemma_number_none(bytes@, from as int, i + 1, to as int);
            }
            return None;
        }
        n = n * 10 + d;
        i += 1;
    }
    Some(n)
}

/// The byte string that starts at `pos`: where its content starts and where
/// it ends.
pub fn string_token(bytes: &[u8], pos: usize) -> (r: Option<(usize, usize)>)
    ensures
        match r {
            Some((start, end)) => string_at(bytes@, pos as int) == Some((start as int, end as int))
                && pos < start <= end <= bytes@.len(),
            None => string_at(bytes@, pos as int) is None,
        },
{
    if pos >= bytes.len() || bytes[pos] < '0' as u8 || bytes[pos] > '9' as u8 {
        return None;
    }
    let colon = find_byte(bytes, pos, ':' as u8);
    if colon >= bytes.len() {
        return None;
    }
    match read_number(bytes, pos, colon) {
        Some(n) => if n <= bytes.len() - colon - 1 {
            Some((colon + 1, colon + 1 + n))
        } else {
            None
        },
        None => None,
    }
}

/// One token further: the place after the token at `pos`, and the nesting
/// after it.
pub fn next_token(bytes: &[u8], pos: usize, depth: usize) -> (r: Option<(usize, usize)>)
    requires
        depth <= pos,
    ensures
        match r {
            Some((next, after)) => step(bytes@, pos as int, depth as nat) == Some(
                (next as int, after as nat),
            ) && pos < next <= bytes@.len() && after <= next,
            None => step(bytes@, pos as int, depth as nat) is None,
        },
{
    if pos >= bytes.len() {
        return None;
    }
    let b = bytes[pos];
    if b == 'i' as u8 {
        let end = find_byte(bytes, pos + 1, 'e' as u8);
        if end >= bytes.len() {
            None
        } else {
            Some((end + 1, depth))
        }
    } else if '0' as u8 <= b && b <= '9' as u8 {
        match string_token(bytes, pos) {
            Some((_, end)) => Some((end, depth)),
            None => None,
        }
    } else if b == 'l' as u8 || b == 'd' as u8 {
        Some((pos + 1, depth + 1))
    } else if b == 'e' as u8 && depth > 0 {
        Some((pos + 1, depth - 1))
    } else {
        None
    }
}

/// How deep the first value of the bytes nests.
pub fn nesting_of(bytes: &[u8]) -> (r: usize)
    ensures
        r == nesting(bytes@),
{
    let mut pos: usize = 0;
    let mut depth: usize = 0;
    let mut seen: usize = 0;
    loop
        invariant
            depth <= pos <= bytes@.len(),
            seen <= pos,
            nesting(bytes@) == deepest(bytes@, pos as int, depth as nat, seen as nat),
        decreases bytes@.len() - pos,
    {
        match next_token(bytes, pos, depth) {
            Some((next, after)) => {
                if after == 0 {
                    return seen;
                }
                pos = next;
                depth = after;
                if after > seen {
                    seen = after;
                }
            },
            None => {
                return seen;
            },
        }
    }
}

/// Whether the first value of the bytes nests no deeper than `limit`.
pub fn nesting_within(bytes: &[u8], limit: usize) -> (r: bool)
    ensures
        r == (nesting(bytes@) <= limit),
{
    nesting_of(bytes) <= limit
}

/// Where the value ends that starts at `pos`.
pub fn skip_value(bytes: &[u8], pos: usize) -> (r: Option<usize>)
    ensures
        match r {
            Some(end) => value_end(bytes@, pos as int) == Some(end as int) && pos < end
                <= bytes@.len(),
            None => value_end(bytes@, pos as int) is None,
        },
{
    if pos > bytes.len() {
        return None;
    }
    let mut at: usize = pos;
    let mut depth: usize = 0;
    loop
        invariant
            pos <= at <= bytes@.len(),
            depth <= at,
            value_end(bytes@, pos as int) == close(bytes@, at as int, depth as nat),
        decreases bytes@.len() - at,
    {
        match next_token(bytes, at, depth) {
            Some((next, after)) => {
                if after == 0 {
                    return Some(next);
                }
                depth = after;
                at = next;
            },
            None => {
                return None;
            },
        }
    }
}

/// The number of entries with the key `key` among the entries of a
/// dictionary that start at `pos`, counted up to two.
pub fn count_entries(bytes: &[u8], pos: usize, key: &[u8]) -> (r: usize)
    ensures
        r == if count_key(bytes@, pos as int, key@) > 2 {
            2
        } else {
            count_key(bytes@, pos as int, key@)
        },
{
    let mut at: usize = pos;
    let mut count: usize = 0;
    loop
        invariant
            count <= 1,
            count_key(bytes@, pos as int, key@) == count_key(bytes@, at as int, key@) + count,
        decreases bytes@.len() - at,
    {
        let (start, end) = match string_token(bytes, at) {
            Some(token) => token,
            None => {
                return count;
            },
        };
        let next = match skip_value(bytes, end) {
            Some(next) => next,
            None => {
                return count;
            },
        };
        if same_bytes(slice_subrange(bytes, start, end), key) {
            if count == 1 {
                return 2;
            }
            count = 1;
        }
        at = next;
    }
}

/// Where the value starts of the last entry with the key `key`, among the
/// entries of a dictionary that start at `pos`.
pub fn find_last_value(bytes: &[u8], pos: usize, key: &[u8]) -> (r: Option<usize>)
    ensures
        match r {
            Some(at) => last_value(bytes@, pos as int, key@) == Some(at as int) && at
                <= bytes@.len(),
            None => last_value(bytes@, pos as int, key@) is None,
        },
{
    let mut at: usize = pos;
    let mut found: Option<usize> = None;
    loop
        invariant
            last_value(bytes@, pos as int, key@) == if last_value(bytes@, at as int, key@)
                is Some {
                last_value(bytes@, at as int, key@)
            } else {
                match found {
                    Some(f) => Some(f as int),
                    None => None,
                }
            },
            found matches Some(f) ==> f <= bytes@.len(),
        decreases bytes@.len() - at,
    {
        let (start, end) = match string_token(bytes, at) {
            Some(token) => token,
            None => {
                return found;
            },
        };
        let next = match skip_value(bytes, end) {
            Some(next) => next,
            None => {
                return found;
            },
        };
        if same_bytes(slice_subrange(bytes, start, end), key) {
            found = Some(end);
        }
        at = next;
    }
}

/// Whether the key `key` stands more than once in the `info` dictionary of
/// a document.
pub fn info_repeats(bytes: &[u8], key: &str) -> (r: bool)
    ensures
        r == (info_key_count(bytes@, key.spec_bytes()) > 1),
{
    if bytes.len() == 0 || bytes[0] != 'd' as u8 {
        return false;
    }
    match find_last_value(bytes, 1, "info".as_bytes()) {
        Some(at) => if at < bytes.len() && bytes[at] == 'd' as u8 {
            count_entries(bytes, at + 1, key.as_bytes()) > 1
        } else {
            false
        },
        None => false,
    }
}

} // verus!
