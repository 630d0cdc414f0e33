//! Decoding of one compressed chunk around the opaque block codec: sizing
//! the output buffer from the block header, and validating what the codec
//! reports before a single decoded byte is trusted.
use vstd::prelude::*;
use crate::element::{elements_of, bytes_to_elements};
use crate::aggregate::{PartialAggregate, reduce, seq_units, seq_kind};

verus! {

/// Why a chunk could not be decoded.
#[derive(Clone, Copy, Debug, PartialEq, Eq, Structural)]
pub enum CodecError {
    /// The length declared in the block header is not a whole number of
    /// elements.
    NotElementMultiple { declared_len: usize },
    /// The codec wrote a byte count other than the declared length, or
    /// returned a negative error code.
    LengthMismatch { declared_len: usize, returned: i32 },
    /// The output buffer handed back is not the one the plan sized.
    BufferSizeMismatch { expected: usize, actual: usize },
    /// The block is too short to hold the header that declares its sizes.
    HeaderTruncated { compressed_len: usize },
}

/// Why one unit of work (fetch, decode, reduce) failed.
#[derive(Clone, Copy, Debug, PartialEq, Eq, Structural)]
pub enum ChunkError {
    /// The store answered with a status outside 200..=299.
    HttpStatus { status: u16 },
    /// The request could not be completed at all.
    Network,
    Codec(CodecError),
    /// A size or count does not fit the integer type that must hold it.
    Arithmetic,
}

/// Sizes handed to the codec's decode routine, which takes them as `i32`.
#[derive(Clone, Copy, Debug, PartialEq, Eq, Structural)]
pub struct DecodePlan {
    pub compressed_len: i32,
    pub declared_len: usize,
    pub capacity: i32,
}

/// Byte written to every position of an output buffer before decoding:
/// a pair of them reads as a binary16 NaN, so an under-write cannot pass
/// for data.
pub const SENTINEL_BYTE: u8 = 0xFF;

/// Length of the block header that declares the sizes; no block shorter
/// than this may be inspected.
pub const MIN_HEADER_LEN: usize = 16;

/// Checks that a block of `compressed_len` bytes holds a whole header.
pub fn check_header(compressed_len: usize) -> (r: Result<(), ChunkError>)
    ensures
        compressed_len >= MIN_HEADER_LEN ==> r == Ok::<(), ChunkError>(()),
        compressed_len < MIN_HEADER_LEN ==> r == Err::<(), ChunkError>(
            ChunkError::Codec(CodecError::HeaderTruncated { compressed_len }),
        ),
{
    if compressed_len < MIN_HEADER_LEN {
        Err(ChunkError::Codec(CodecError::HeaderTruncated { compressed_len }))
    } else {
        Ok(())
    }
}

/// Plans the decoding of a block of `compressed_len` bytes whose header
/// declares `declared_len` decoded bytes.
pub fn plan_decode(compressed_len: usize, declared_len: usize) -> (r: Result<DecodePlan, ChunkError>)
    ensures
        declared_len % 2 != 0 ==> r == Err::<DecodePlan, ChunkError>(
            ChunkError::Codec(CodecError::NotElementMultiple { declared_len }),
        ),
        declared_len % 2 == 0 && (compressed_len > i32::MAX || declared_len > i32::MAX) ==> r
            == Err::<DecodePlan, ChunkError>(ChunkError::Arithmetic),
        declared_len % 2 == 0 && compressed_len <= i32::MAX && declared_len <= i32::MAX ==> r
            == Ok::<DecodePlan, ChunkError>(
            (DecodePlan {
                compressed_len: compressed_len as i32,
                declared_len,
                capacity: declared_len as i32,
            }),
        ),
{
    if declared_len % 2 != 0 {
        return Err(ChunkError::Codec(CodecError::NotElementMultiple { declared_len }));
    }
    if compressed_len > i32::MAX as usize || declared_len > i32::MAX as usize {
        return Err(ChunkError::Arithmetic);
    }
    Ok(DecodePlan {
        compressed_len: compressed_len as i32,
        declared_len,
        capacity: declared_len as i32,
    })
}

impl DecodePlan {
    /// An output buffer of exactly the declared length, every byte set to
    /// the sentinel.
    pub fn output_buffer(&self) -> (r: Vec<u8>)
        ensures
            r@.len() == self.declared_len,
            forall|i: int| 0 <= i < r@.len() ==> #[trigger] r@[i] == SENTINEL_BYTE,
    {
        let mut r: Vec<u8> = Vec::with_capacity(self.declared_len);
        let mut i: usize = 0;
        while i < self.declared_len
            invariant
                i <= self.declared_len,
                r@.len() == i,
                forall|j: int| 0 <= j < r@.len() ==> #[trigger] r@[j] == SENTINEL_BYTE,
            decreases self.declared_len - i,
        {
            r.push(SENTINEL_BYTE);
            i = i + 1;
        }
        r
    }
}

/// Whether a decode that reported `returned` into `buffer` succeeded: the
/// count must be exactly the declared length, which must be a whole number
/// of elements, and the buffer must have exactly that length.
pub open spec fn decode_succeeded(plan: DecodePlan, returned: i32, buffer: Seq<u8>) -> bool {
    &&& returned as int == plan.declared_len as int
    &&& plan.declared_len % 2 == 0
    &&& buffer.len() == plan.declared_len
}

/// The error `finish_decode` reports for a failed decode.
pub open spec fn finish_decode_error(plan: DecodePlan, returned: i32, buffer: Seq<u8>) -> ChunkError {
    if returned as int != plan.declared_len as int {
        ChunkError::Codec(CodecError::LengthMismatch { declared_len: plan.declared_len, returned })
    } else if plan.declared_len % 2 != 0 {
        ChunkError::Codec(CodecError::NotElementMultiple { declared_len: plan.declared_len })
    } else {
        ChunkError::Codec(
            CodecError::BufferSizeMismatch { expected: plan.declared_len, actual: buffer.len() as usize },
        )
    }
}

/// Validates the outcome of the codec's decode routine and reads the
/// buffer as elements.
pub fn finish_decode(plan: &DecodePlan, returned: i32, buffer: &Vec<u8>) -> (r: Result<
    Vec<u16>,
    ChunkError,
>)
    ensures
        r.is_ok() <==> decode_succeeded(*plan, returned, buffer@),
        r matches Ok(v) ==> v@ == elements_of(buffer@) && v@.len() == plan.declared_len / 2,
        r matches Err(e) ==> e == finish_decode_error(*plan, returned, buffer@),
{
    if returned < 0 || returned as usize != plan.declared_len {
        return Err(
            ChunkError::Codec(
                CodecError::LengthMismatch { declared_len: plan.declared_len, returned },
            ),
        );
    }
    if plan.declared_len % 2 != 0 {
        return Err(
            ChunkError::Codec(CodecError::NotElementMultiple { declared_len: plan.declared_len }),
        );
    }
    if buffer.len() != plan.declared_len {
        return Err(
            ChunkError::Codec(
                CodecError::BufferSizeMismatch { expected: plan.declared_len, actual: buffer.len() },
            ),
        );
    }
    Ok(bytes_to_elements(buffer))
}

} // verus!

verus! {

/// Whether the store's answer carries a chunk.
pub open spec fn is_success_status(status: u16) -> bool {
    200 <= status <= 299
}

/// Accepts a response body only under a success status; any other status
/// is a transport failure, never an empty or error-page chunk.
pub fn accept_response<B>(status: u16, body: B) -> (r: Result<B, ChunkError>)
    ensures
        is_success_status(status) ==> r == Ok::<B, ChunkError>(body),
        !is_success_status(status) ==> r == Err::<B, ChunkError>(
            ChunkError::HttpStatus { status },
        ),
{
    if 200 <= status && status <= 299 {
        Ok(body)
    } else {
        Err(ChunkError::HttpStatus { status })
    }
}

/// Validates a decode and reduces the decoded elements: the aggregate of
/// one chunk, whose count is its declared length over the element width.
pub fn chunk_aggregate(plan: &DecodePlan, returned: i32, buffer: &Vec<u8>) -> (r: Result<
    PartialAggregate,
    ChunkError,
>)
    ensures
        r.is_ok() <==> decode_succeeded(*plan, returned, buffer@),
        r matches Ok(p) ==> {
            &&& p.sum == seq_units(elements_of(buffer@))
            &&& p.count == plan.declared_len / 2
            &&& p.kind == seq_kind(elements_of(buffer@))
        },
        r matches Err(e) ==> e == finish_decode_error(*plan, returned, buffer@),
{
    match finish_decode(plan, returned, buffer) {
        Ok(v) => Ok(reduce(&v)),
        Err(e) => Err(e),
    }
}

} // verus!
