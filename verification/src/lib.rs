//! A BitTorrent metainfo library: typed torrent descriptions, the info-hash
//! that identifies their content, and the tracker announce exchange with its
//! compact peer list.

use vstd::prelude::*;

pub mod bencode;
pub mod chunks;
pub mod digest;
pub mod fields;
pub mod fingerprint;
pub mod hashes;
pub mod meta_info;
pub mod peers;
pub mod scan;
pub mod text;
pub mod tracker;
pub mod tui;

verus! {

/// An integer that should be zero or one, and is neither.
#[derive(Debug, Clone, Copy, PartialEq, Eq, Structural)]
pub struct NotZeroOrOne {
    pub value: u8,
}

/// The flag that an integer stands for: zero is false, one is true, and any
/// other value is refused.
pub open spec fn flag_of(value: u8) -> Result<bool, NotZeroOrOne> {
    if value == 0 {
        Ok(false)
    } else if value == 1 {
        Ok(true)
    } else {
        Err(NotZeroOrOne { value })
    }
}

/// Reads a flag from an integer that must be zero or one.
pub fn bool_from_int(value: u8) -> (r: Result<bool, NotZeroOrOne>)
    ensures
        r == flag_of(value),
{
    match value {
        0 => Ok(false),
        1 => Ok(true),
        other => Err(NotZeroOrOne { value: other }),
    }
}

/// Reads a flag that may be absent from an integer that must be zero or one.
pub fn bool_from_optional_int(value: Option<u8>) -> (r: Result<Option<bool>, NotZeroOrOne>)
    ensures
        match value {
            None => r == Ok::<Option<bool>, NotZeroOrOne>(None),
            Some(v) => match flag_of(v) {
                Ok(flag) => r == Ok::<Option<bool>, NotZeroOrOne>(Some(flag)),
                Err(e) => r == Err::<Option<bool>, NotZeroOrOne>(e),
            },
        },
{
    match value {
        Some(0) => Ok(Some(false)),
        Some(1) => Ok(Some(true)),
        Some(other) => Err(NotZeroOrOne { value: other }),
        None => Ok(None),
    }
}

} // verus!
