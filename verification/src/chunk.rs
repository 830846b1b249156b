//! Row-aligned splitting of a pixel buffer for a bounded transport.
//!
//! A transport message carries at most `max_payload` bytes, of which
//! `overhead` are taken by the protocol itself. `plan` partitions the
//! buffer into chunks of whole rows that each fit, in display order;
//! emission is the caller's: one message per chunk, each acknowledged
//! before the next is taken.

use vstd::arithmetic::div_mod::lemma_fundamental_div_mod;
use vstd::arithmetic::div_mod::lemma_mod_bound;
use vstd::arithmetic::mul::lemma_mul_by_zero_is_zero;
use vstd::arithmetic::mul::lemma_mul_inequality;
use vstd::arithmetic::mul::lemma_mul_is_commutative;
use vstd::arithmetic::mul::lemma_mul_is_distributive_add_other_way;
use vstd::arithmetic::mul::lemma_mul_nonnegative;
use vstd::prelude::*;

use crate::error::CaptureError;
use crate::pixel::PixelBuffer;

verus! {

/// A row-aligned slice of a pixel buffer: `row_count` full rows starting at
/// destination row `dst_y`, covering `bytes[start .. start + len]`.
#[derive(Clone, Copy, Debug, PartialEq, Eq, Structural)]
pub struct TransferChunk {
    pub dst_y: i32,
    pub row_count: u32,
    pub start: usize,
    pub len: usize,
}

/// A chunk is internally consistent for a row stride: it holds at least one
/// row, and its byte range is exactly its rows' range.
pub open spec fn chunk_wf(c: TransferChunk, stride: int) -> bool {
    &&& c.dst_y >= 0
    &&& c.row_count >= 1
    &&& c.start == c.dst_y * stride
    &&& c.len == c.row_count * stride
}

/// The chunks are a contiguous, gapless, order-preserving partition of
/// rows `0 .. height`: the first starts at row zero, each next one starts
/// where the previous ended, and the last ends at `height`.
pub open spec fn valid_partition(chunks: Seq<TransferChunk>, stride: int, height: int) -> bool {
    &&& forall|i: int| 0 <= i < chunks.len() ==> chunk_wf(#[trigger] chunks[i], stride)
    &&& forall|i: int|
        0 <= i < chunks.len() ==> (#[trigger] chunks[i]).dst_y + chunks[i].row_count <= height
    &&& forall|i: int|
        #![trigger chunks[i]]
        1 <= i < chunks.len() ==> chunks[i].dst_y == chunks[i - 1].dst_y + chunks[i
            - 1].row_count
    &&& if chunks.len() == 0 {
        height == 0
    } else {
        chunks[0].dst_y == 0 && chunks.last().dst_y + chunks.last().row_count == height
    }
}

/// The rows carried by the chunks, in emission order.
pub open spec fn total_rows(chunks: Seq<TransferChunk>) -> int
    decreases chunks.len(),
{
    if chunks.len() == 0 {
        0
    } else {
        total_rows(chunks.drop_last()) + chunks.last().row_count
    }
}

/// The byte range of one chunk.
pub open spec fn payload_of(c: TransferChunk, bytes: Seq<u8>) -> Seq<u8> {
    bytes.subrange(c.start as int, c.start + c.len)
}

/// The byte ranges of the chunks, concatenated in emission order.
pub open spec fn concat_payloads(chunks: Seq<TransferChunk>, bytes: Seq<u8>) -> Seq<u8>
    decreases chunks.len(),
{
    if chunks.len() == 0 {
        Seq::empty()
    } else {
        concat_payloads(chunks.drop_last(), bytes) + payload_of(chunks.last(), bytes)
    }
}

/// When `plan` fails: the buffer does not fit in one message, yet even one
/// row together with the protocol overhead is over the message bound.
pub open spec fn plan_fails(frame: PixelBuffer, max_payload: int, overhead: int) -> bool {
    &&& frame.height >= 1
    &&& frame.bytes@.len() >= max_payload
    &&& (frame.stride == 0 || max_payload < overhead + frame.stride)
}

/// How many rows fit in one message once the buffer has to be split.
pub open spec fn rows_per_chunk_spec(frame: PixelBuffer, max_payload: int, overhead: int) -> int {
    (max_payload - overhead) / (frame.stride as int)
}

/// Partitions the buffer into row-aligned chunks for transmission.
///
/// A buffer shorter than `max_payload` travels as one chunk of all rows.
/// Otherwise each chunk carries `(max_payload - overhead) / stride` rows,
/// the last one whatever remains; when not even one row fits, the split is
/// impossible and the error says so.
pub fn plan(frame: &PixelBuffer, max_payload: usize, overhead: usize) -> (r: Result<
    Vec<TransferChunk>,
    CaptureError,
>)
    requires
        frame.wf(),
        frame.height <= i32::MAX,
    ensures
        r is Err <==> plan_fails(*frame, max_payload as int, overhead as int),
        r matches Err(e) ==> e == CaptureError::ChunkTooSmall,
        r matches Ok(chunks) ==> valid_partition(
            chunks@,
            frame.stride as int,
            frame.height as int,
        ),
        r matches Ok(chunks) ==> (frame.height == 0 ==> chunks@.len() == 0),
        r matches Ok(chunks) ==> ((frame.height >= 1 && frame.bytes@.len() < max_payload) ==> (
        chunks@.len() == 1 && chunks@[0] == (TransferChunk {
            dst_y: 0,
            row_count: frame.height,
            start: 0,
            len: frame.bytes@.len() as usize,
        }))),
        r matches Ok(chunks) ==> (frame.bytes@.len() >= max_payload ==> {
            let rpc = rows_per_chunk_spec(*frame, max_payload as int, overhead as int);
            &&& forall|i: int|
                0 <= i < chunks@.len() ==> (#[trigger] chunks@[i]).dst_y == i * rpc
            &&& forall|i: int|
                0 <= i < chunks@.len() ==> (#[trigger] chunks@[i]).row_count <= rpc
            &&& forall|i: int|
                0 <= i < chunks@.len() - 1 ==> (#[trigger] chunks@[i]).row_count == rpc
            &&& forall|i: int|
                0 <= i < chunks@.len() ==> (#[trigger] chunks@[i]).len + overhead <= max_payload
        }),
{
    if frame.height == 0 {
        return Ok(Vec::new());
    }
    let total = frame.bytes.len();
    if total < max_payload {
        let mut chunks: Vec<TransferChunk> = Vec::new();
        chunks.push(
            TransferChunk { dst_y: 0, row_count: frame.height, start: 0, len: total },
        );
        proof {
            lemma_mul_is_commutative(frame.stride as int, frame.height as int);
        }
        return Ok(chunks);
    }
    if max_payload <= overhead {
        return Err(CaptureError::ChunkTooSmall);
    }
    proof {
        assert(frame.stride >= 1) by (nonlinear_arith)
            requires
                frame.stride as int * frame.height as int >= max_payload as int,
                max_payload as int > overhead as int >= 0,
                frame.stride >= 0,
        ;
    }
    let stride = frame.stride as usize;
    let avail = max_payload - overhead;
    let rows_per_chunk = avail / stride;
    proof {
        lemma_fundamental_div_mod(avail as int, stride as int);
        lemma_mod_bound(avail as int, stride as int);
        assert(rows_per_chunk == avail as int / stride as int);
        assert(avail as int == stride as int * (avail as int / stride as int) + avail as int % (
        stride as int));
        if rows_per_chunk == 0 {
            lemma_mul_by_zero_is_zero(stride as int);
            assert(avail < stride);
        } else {
            assert(stride as int * (rows_per_chunk as int) >= stride as int) by (nonlinear_arith)
                requires
                    rows_per_chunk >= 1,
                    stride >= 1,
            ;
            assert(avail >= stride);
        }
    }
    if rows_per_chunk == 0 {
        return Err(CaptureError::ChunkTooSmall);
    }
    let ghost rpc = rows_per_chunk_spec(*frame, max_payload as int, overhead as int);
    proof {
        lemma_mul_is_commutative(stride as int, rpc);
        assert(rpc * (stride as int) <= avail);
    }
    let mut chunks: Vec<TransferChunk> = Vec::new();
    let mut dst_y: u32 = 0;
    let mut start: usize = 0;
    while dst_y < frame.height
        invariant
            frame.wf(),
            frame.height <= i32::MAX,
            stride == frame.stride,
            total == frame.bytes@.len(),
            1 <= rows_per_chunk,
            rows_per_chunk == rpc,
            rpc * stride <= max_payload - overhead,
            overhead < max_payload,
            0 <= dst_y <= frame.height,
            start == dst_y * (stride as int),
            forall|i: int| 0 <= i < chunks@.len() ==> chunk_wf(#[trigger] chunks@[i], stride as int),
            forall|i: int|
                0 <= i < chunks@.len() ==> (#[trigger] chunks@[i]).dst_y + chunks@[i].row_count
                    <= dst_y,
            forall|i: int|
                #![trigger chunks@[i]]
                1 <= i < chunks@.len() ==> chunks@[i].dst_y == chunks@[i - 1].dst_y + chunks@[i
                    - 1].row_count,
            chunks@.len() == 0 ==> dst_y == 0,
            chunks@.len() > 0 ==> chunks@[0].dst_y == 0 && chunks@.last().dst_y
                + chunks@.last().row_count == dst_y,
            forall|i: int| 0 <= i < chunks@.len() ==> (#[trigger] chunks@[i]).dst_y == i * rpc,
            forall|i: int| 0 <= i < chunks@.len() ==> (#[trigger] chunks@[i]).row_count <= rpc,
            forall|i: int|
                0 <= i < chunks@.len() - 1 ==> (#[trigger] chunks@[i]).row_count == rpc,
            (chunks@.len() > 0 && dst_y < frame.height) ==> chunks@.last().row_count == rpc,
            forall|i: int|
                0 <= i < chunks@.len() ==> (#[trigger] chunks@[i]).len + overhead <= max_payload,
        decreases frame.height - dst_y,
    {
        let remaining = (frame.height - dst_y) as usize;
        let rows: usize = if rows_per_chunk < remaining {
            rows_per_chunk
        } else {
            remaining
        };
        proof {
            assert(rows * stride <= rpc * stride) by (nonlinear_arith)
                requires
                    0 <= rows <= rpc,
                    stride >= 0,
            ;
            assert((dst_y + rows) * (stride as int) <= frame.height as int * (stride as int))
                by (nonlinear_arith)
                requires
                    dst_y + rows <= frame.height,
                    stride >= 0,
            ;
            lemma_mul_is_commutative(frame.height as int, stride as int);
            lemma_mul_is_distributive_add_other_way(stride as int, dst_y as int, rows as int);
            assert(dst_y * (stride as int) + rows * (stride as int) <= total);
        }
        let len = rows * stride;
        let chunk = TransferChunk {
            dst_y: dst_y as i32,
            row_count: rows as u32,
            start,
            len,
        };
        chunks.push(chunk);
        proof {
            if chunks@.len() >= 2 {
                lemma_mul_is_distributive_add_other_way(rpc, chunks@.len() - 2, 1);
                assert(1 * rpc == rpc);
            }
            assert(chunks@.last().dst_y == (chunks@.len() - 1) * rpc);
        }
        dst_y = dst_y + rows as u32;
        start = start + len;
    }
    Ok(chunks)
}

/// Where the first `n` chunks of a partition end: row zero for none, else
/// one past the last row of the `n`-th.
spec fn prefix_end(chunks: Seq<TransferChunk>, n: int) -> int {
    if n == 0 {
        0
    } else {
        chunks[n - 1].dst_y + chunks[n - 1].row_count
    }
}

/// The first `n` chunks of a partition carry exactly the first
/// `prefix_end` rows, and their byte ranges concatenate to those rows'
/// bytes.
proof fn lemma_prefix_reconstructs(
    chunks: Seq<TransferChunk>,
    bytes: Seq<u8>,
    stride: int,
    height: int,
    n: int,
)
    requires
        stride >= 0,
        height >= 0,
        bytes.len() == stride * height,
        valid_partition(chunks, stride, height),
        0 <= n <= chunks.len(),
    ensures
        total_rows(chunks.subrange(0, n)) == prefix_end(chunks, n),
        concat_payloads(chunks.subrange(0, n), bytes) == bytes.subrange(
            0,
            prefix_end(chunks, n) * stride,
        ),
    decreases n,
{
    lemma_mul_is_commutative(stride, height);
    if n == 0 {
        let s = chunks.subrange(0, 0);
        lemma_mul_by_zero_is_zero(stride);
        assert(concat_payloads(s, bytes) =~= bytes.subrange(0, 0));
    } else {
        lemma_prefix_reconstructs(chunks, bytes, stride, height, n - 1);
        let s = chunks.subrange(0, n);
        let c = chunks[n - 1];
        assert(s.drop_last() =~= chunks.subrange(0, n - 1));
        assert(s.last() == c);
        assert(chunk_wf(c, stride));
        assert(prefix_end(chunks, n - 1) == c.dst_y);
        let a = c.dst_y as int * stride;
        let b = (c.dst_y + c.row_count) * stride;
        lemma_mul_is_distributive_add_other_way(stride, c.dst_y as int, c.row_count as int);
        assert(b == a + c.row_count * stride);
        lemma_mul_nonnegative(c.dst_y as int, stride);
        assert(c.dst_y + c.row_count <= height);
        lemma_mul_inequality(c.dst_y + c.row_count, height, stride);
        assert(b <= height * stride);
        assert(payload_of(c, bytes) =~= bytes.subrange(a, b));
        assert(bytes.subrange(0, a) + bytes.subrange(a, b) =~= bytes.subrange(0, b));
        assert(concat_payloads(s, bytes) == concat_payloads(s.drop_last(), bytes) + payload_of(
            c,
            bytes,
        ));
    }
}

/// Partition correctness: for a valid partition of a buffer of
/// `stride * height` bytes, the chunks' rows add up to exactly `height`,
/// and concatenating the chunks' byte ranges in emission order reproduces
/// the buffer byte for byte.
pub proof fn lemma_partition_reconstructs(
    chunks: Seq<TransferChunk>,
    bytes: Seq<u8>,
    stride: int,
    height: int,
)
    requires
        stride >= 0,
        height >= 0,
        bytes.len() == stride * height,
        valid_partition(chunks, stride, height),
    ensures
        total_rows(chunks) == height,
        concat_payloads(chunks, bytes) == bytes,
{
    let n = chunks.len() as int;
    lemma_prefix_reconstructs(chunks, bytes, stride, height, n);
    assert(chunks.subrange(0, n) =~= chunks);
    lemma_mul_is_commutative(stride, height);
    if chunks.len() == 0 {
        lemma_mul_by_zero_is_zero(stride);
        assert(bytes.subrange(0, 0) =~= bytes);
    } else {
        assert(prefix_end(chunks, n) == height);
        assert(bytes.subrange(0, height * stride) =~= bytes);
    }
}

/// Copies one chunk's byte range out of the buffer for emission.
pub fn chunk_payload(frame: &PixelBuffer, chunk: &TransferChunk) -> (out: Vec<u8>)
    requires
        chunk.start + chunk.len <= frame.bytes@.len(),
    ensures
        out@ == payload_of(*chunk, frame.bytes@),
{
    let total = frame.bytes.len();
    let mut out: Vec<u8> = Vec::new();
    let mut i: usize = 0;
    while i < chunk.len
        invariant
            total == frame.bytes@.len(),
            chunk.start + chunk.len <= total,
            0 <= i <= chunk.len,
            out@ == frame.bytes@.subrange(chunk.start as int, chunk.start + i),
        decreases chunk.len - i,
    {
        out.push(frame.bytes[chunk.start + i]);
        i = i + 1;
        proof {
            assert(out@ =~= frame.bytes@.subrange(chunk.start as int, chunk.start + i));
        }
    }
    proof {
        assert(out@ =~= payload_of(*chunk, frame.bytes@));
    }
    out
}

} // verus!
