//! The hashes of the pieces: a byte string cut into 20-byte records.

use crate::chunks::{divides_evenly, join_chunks, split_chunks, WidthError};
use vstd::prelude::*;

verus! {

/// The bytes of a hash.
pub const HASH_WIDTH: usize = 20;

/// The 20-byte hashes of the pieces, in order.
#[derive(Debug, Clone, PartialEq, Eq)]
pub struct Hashes(pub Vec<[u8; 20]>);

impl View for Hashes {
    type V = Seq<Seq<u8>>;

    open spec fn view(&self) -> Seq<Seq<u8>> {
        Seq::new(self.0.len() as nat, |i: int| self.0[i]@)
    }
}

impl Hashes {
    /// Cuts a byte string into 20-byte hashes. Fails where its length is not
    /// a multiple of 20.
    pub fn from_bytes(bytes: &[u8]) -> (r: Result<Hashes, WidthError>)
        ensures
            r is Ok <==> divides_evenly(bytes@.len(), HASH_WIDTH as nat),
            r matches Ok(hashes) ==> hashes@ == split_chunks(bytes@, HASH_WIDTH as nat),
            r matches Err(e) ==> e == (WidthError { len: bytes.len(), width: HASH_WIDTH }),
    {
        let len = bytes.len();
        if len % HASH_WIDTH != 0 {
            return Err(WidthError { len, width: HASH_WIDTH });
        }
        let count = len / HASH_WIDTH;
        let mut hashes: Vec<[u8; 20]> = Vec::new();
        let mut i: usize = 0;
        while i < count
            invariant
                len == bytes@.len(),
                len == count * 20,
                i <= count,
                hashes@.len() == i,
                forall|k: int|
                    0 <= k < i ==> (#[trigger] hashes@[k])@ == bytes@.subrange(k * 20, k * 20 + 20),
            decreases count - i,
        {
            let start: usize = i * HASH_WIDTH;
            let mut hash = [0u8; 20];
            let mut j: usize = 0;
            while j < HASH_WIDTH
                invariant
                    j <= 20,
                    len == bytes@.len(),
                    start + 20 <= len,
                    forall|m: int| 0 <= m < j ==> hash@[m] == bytes@[start + m],
                decreases 20 - j,
            {
                hash[j] = bytes[start + j];
                j += 1;
            }
            assert(hash@ =~= bytes@.subrange(start as int, start + 20));
            hashes.push(hash);
            i += 1;
        }
        let hashes = Hashes(hashes);
        assert(hashes@ =~= split_chunks(bytes@, HASH_WIDTH as nat));
        Ok(hashes)
    }

    /// Writes the hashes one after another.
    pub fn to_bytes(&self) -> (r: Vec<u8>)
        ensures
            r@ == join_chunks(self@),
    {
        let mut out: Vec<u8> = Vec::new();
        let mut i: usize = 0;
        while i < self.0.len()
            invariant
                i <= self.0.len(),
                out@ == join_chunks(self@.take(i as int)),
            decreases self.0.len() - i,
        {
            let hash = &self.0[i];
            let ghost before = out@;
            let mut j: usize = 0;
            while j < HASH_WIDTH
                invariant
                    j <= 20,
                    out@ == before + hash@.take(j as int),
                decreases 20 - j,
            {
                out.push(hash[j]);
                j += 1;
                assert(out@ =~= before + hash@.take(j as int));
            }
            proof {
                assert(hash@.take(20) =~= hash@);
                assert(self@.take(i + 1).drop_last() =~= self@.take(i as int));
                assert(self@.take(i + 1).last() == hash@);
            }
            i += 1;
        }
        assert(self@.take(self.0.len() as int) =~= self@);
        out
    }
}

} // verus!
