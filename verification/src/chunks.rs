//! Fixed-width record lists: a byte string cut into consecutive records of
//! one width, and the records joined back into the byte string.

use vstd::prelude::*;

verus! {

/// A byte string of `len` bytes cannot be cut into records of `width` bytes.
#[derive(Debug, Clone, Copy, PartialEq, Eq, Structural)]
pub struct WidthError {
    pub len: usize,
    pub width: usize,
}

/// Whether a byte string of `len` bytes divides into records of `width` bytes.
pub open spec fn divides_evenly(len: nat, width: nat) -> bool {
    width > 0 && len % width == 0
}

/// The records of `bytes`: record `i` holds the bytes from `i * width` up to
/// `(i + 1) * width`.
pub open spec fn split_chunks(bytes: Seq<u8>, width: nat) -> Seq<Seq<u8>>
    recommends
        divides_evenly(bytes.len(), width),
{
    Seq::new(
        bytes.len() / width,
        |i: int| bytes.subrange(i * width, i * width + width),
    )
}

/// The records written one after another.
pub open spec fn join_chunks(chunks: Seq<Seq<u8>>) -> Seq<u8>
    decreases chunks.len(),
{
    if chunks.len() == 0 {
        Seq::empty()
    } else {
        join_chunks(chunks.drop_last()) + chunks.last()
    }
}

/// Whether every record has exactly `width` bytes.
pub open spec fn uniform(chunks: Seq<Seq<u8>>, width: nat) -> bool {
    forall|i: int| 0 <= i < chunks.len() ==> (#[trigger] chunks[i]).len() == width
}

/// The records held by a vector of byte vectors.
pub open spec fn chunk_views(chunks: Seq<Vec<u8>>) -> Seq<Seq<u8>> {
    Seq::new(chunks.len(), |i: int| chunks[i]@)
}

/// Joined records of one width have `count * width` bytes.
pub proof fn lemma_join_len(chunks: Seq<Seq<u8>>, width: nat)
    requires
        uniform(chunks, width),
    ensures
        join_chunks(chunks).len() == chunks.len() * width,
    decreases chunks.len(),
{
    if chunks.len() > 0 {
        lemma_join_len(chunks.drop_last(), width);
        assert(chunks.len() * width == (chunks.len() - 1) * width + width) by (nonlinear_arith);
    }
}

/// Byte `i * width + j` of joined records of one width is byte `j` of record `i`.
pub proof fn lemma_join_index(chunks: Seq<Seq<u8>>, width: nat, i: int, j: int)
    requires
        uniform(chunks, width),
        0 <= i < chunks.len(),
        0 <= j < width,
    ensures
        0 <= i * width + j < join_chunks(chunks).len(),
        join_chunks(chunks)[i * width + j] == chunks[i][j],
    decreases chunks.len(),
{
    lemma_join_len(chunks, width);
    lemma_join_len(chunks.drop_last(), width);
    assert(0 <= i * width + j < chunks.len() * width) by (nonlinear_arith)
        requires
            0 <= i < chunks.len(),
            0 <= j < width,
    ;
    if i == chunks.len() - 1 {
        assert(i * width + j - (chunks.len() - 1) * width == j) by (nonlinear_arith)
            requires
                i == chunks.len() - 1,
        ;
    } else {
        lemma_join_index(chunks.drop_last(), width, i, j);
    }
}

/// Cutting a byte string into records and joining them gives the byte string back.
pub proof fn lemma_split_then_join(bytes: Seq<u8>, width: nat)
    requires
        divides_evenly(bytes.len(), width),
    ensures
        uniform(split_chunks(bytes, width), width),
        join_chunks(split_chunks(bytes, width)) == bytes,
{
    let chunks = split_chunks(bytes, width);
    let count = bytes.len() / width;
    assert(bytes.len() == count * width) by (nonlinear_arith)
        requires
            width > 0,
            bytes.len() % width == 0,
            count == bytes.len() / width,
    ;
    assert forall|i: int| 0 <= i < chunks.len() implies (#[trigger] chunks[i]).len() == width by {
        assert(0 <= i * width && i * width + width <= count * width) by (nonlinear_arith)
            requires
                0 <= i < count,
        ;
    }
    lemma_join_len(chunks, width);
    assert forall|k: int| 0 <= k < bytes.len() implies join_chunks(chunks)[k] == bytes[k] by {
        let i = k / (width as int);
        let j = k % (width as int);
        assert(k == i * width + j && 0 <= j < width && 0 <= i < count) by (nonlinear_arith)
            requires
                0 <= k < count * width,
                width > 0,
                i == k / (width as int),
                j == k % (width as int),
        ;
        lemma_join_index(chunks, width, i, j);
        assert(0 <= i * width && i * width + width <= count * width) by (nonlinear_arith)
            requires
                0 <= i < count,
        ;
        assert(chunks[i] == bytes.subrange(i * width, i * width + width));
    }
    assert(join_chunks(chunks) =~= bytes);
}

/// Joining records of one width and cutting the result at that width gives
/// the records back.
pub proof fn lemma_join_then_split(chunks: Seq<Seq<u8>>, width: nat)
    requires
        width > 0,
        uniform(chunks, width),
    ensures
        divides_evenly(join_chunks(chunks).len(), width),
        split_chunks(join_chunks(chunks), width) == chunks,
{
    let bytes = join_chunks(chunks);
    lemma_join_len(chunks, width);
    assert((chunks.len() * width) % width == 0 && (chunks.len() * width) / width == chunks.len())
        by (nonlinear_arith)
        requires
            width > 0,
    ;
    let back = split_chunks(bytes, width);
    assert(back.len() == chunks.len());
    assert forall|i: int| 0 <= i < chunks.len() implies back[i] == chunks[i] by {
        assert(0 <= i * width && i * width + width <= chunks.len() * width) by (nonlinear_arith)
            requires
                0 <= i < chunks.len(),
        ;
        assert forall|j: int| 0 <= j < width implies back[i][j] == chunks[i][j] by {
            lemma_join_index(chunks, width, i, j);
        }
        assert(back[i] =~= chunks[i]);
    }
    assert(back =~= chunks);
}

/// Cuts `bytes` into consecutive records of `width` bytes, in order. Fails
/// when `width` is zero or does not divide the length.
pub fn decode_chunks(bytes: &[u8], width: usize) -> (r: Result<Vec<Vec<u8>>, WidthError>)
    ensures
        r is Ok <==> divides_evenly(bytes@.len(), width as nat),
        r matches Ok(chunks) ==> chunk_views(chunks@) == split_chunks(bytes@, width as nat),
        r matches Err(e) ==> e == (WidthError { len: bytes.len(), width }),
{
    let len = bytes.len();
    if width == 0 || len % width != 0 {
        return Err(WidthError { len, width });
    }
    let count = len / width;
    proof {
        assert(len == count * width) by (nonlinear_arith)
            requires
                width > 0,
                len % width == 0,
                count == len / width,
        ;
    }
    let mut chunks: Vec<Vec<u8>> = Vec::new();
    let mut i: usize = 0;
    while i < count
        invariant
            width > 0,
            len == bytes@.len(),
            len == count * width,
            count == len / width,
            i <= count,
            chunks@.len() == i,
            forall|k: int|
                0 <= k < i ==> (#[trigger] chunks@[k])@ == bytes@.subrange(
                    k * width,
                    k * width + width,
                ),
        decreases count - i,
    {
        proof {
            assert(0 <= i * width && i * width + width <= count * width) by (nonlinear_arith)
                requires
                    0 <= i < count,
            ;
        }
        let start: usize = i * width;
        let mut chunk: Vec<u8> = Vec::new();
        let mut j: usize = 0;
        while j < width
            invariant
                j <= width,
                len == bytes@.len(),
                start + width <= len,
                chunk@ == bytes@.subrange(start as int, start + j),
            decreases width - j,
        {
            chunk.push(bytes[start + j]);
            j += 1;
            assert(chunk@ =~= bytes@.subrange(start as int, start + j));
        }
        chunks.push(chunk);
        i += 1;
    }
    assert(chunk_views(chunks@) =~= split_chunks(bytes@, width as nat));
    Ok(chunks)
}

/// Writes the records one after another, in order.
pub fn encode_chunks(chunks: &Vec<Vec<u8>>) -> (r: Vec<u8>)
    ensures
        r@ == join_chunks(chunk_views(chunks@)),
{
    let mut out: Vec<u8> = Vec::new();
    let mut i: usize = 0;
    while i < chunks.len()
        invariant
            i <= chunks@.len(),
            out@ == join_chunks(chunk_views(chunks@).take(i as int)),
        decreases chunks@.len() - i,
    {
        let chunk = &chunks[i];
        let ghost before = out@;
        let mut j: usize = 0;
        while j < chunk.len()
            invariant
                j <= chunk@.len(),
                out@ == before + chunk@.take(j as int),
            decreases chunk@.len() - j,
        {
            out.push(chunk[j]);
            j += 1;
            assert(out@ =~= before + chunk@.take(j as int));
        }
        proof {
            let views = chunk_views(chunks@);
            assert(chunk@.take(chunk@.len() as int) =~= chunk@);
            assert(views.take(i + 1).drop_last() =~= views.take(i as int));
            assert(views.take(i + 1).last() == chunk@);
        }
        i += 1;
    }
    assert(chunk_views(chunks@).take(chunks@.len() as int) =~= chunk_views(chunks@));
    out
}

} // verus!
