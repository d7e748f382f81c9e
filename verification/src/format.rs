//! The blob format as mathematics: what encoding a sequence of buffers gives,
//! and what decoding a sequence of bytes gives.

use crate::error::BlobReadError;
use crate::header::{header_bytes, header_value};
use vstd::prelude::*;

verus! {

/// The largest length of a blob that can be decoded: the largest offset that
/// a header can hold.
pub open spec fn max_blob_len() -> int {
    u32::MAX as int
}

/// Total number of body bytes in `buffers`.
pub open spec fn payload_len(buffers: Seq<Seq<u8>>) -> nat
    decreases buffers.len(),
{
    if buffers.len() == 0 {
        0
    } else {
        payload_len(buffers.drop_last()) + buffers.last().len()
    }
}

/// Length of the blob that `buffers` encode to: every body byte, and four
/// header bytes for each buffer.
pub open spec fn encoded_len(buffers: Seq<Seq<u8>>) -> nat {
    payload_len(buffers) + 4 * buffers.len()
}

/// The header stored for a frame whose body ends at offset `end`. Offsets
/// beyond the range of a header are reduced modulo 2^32.
pub open spec fn end_header(end: int) -> Seq<u8> {
    header_bytes((end % 0x1_0000_0000) as u32)
}

/// The blob that `buffers` encode to: one frame for each buffer, in order,
/// each header holding the length of the blob up to the end of its frame.
pub open spec fn encode(buffers: Seq<Seq<u8>>) -> Seq<u8>
    decreases buffers.len(),
{
    if buffers.len() == 0 {
        Seq::empty()
    } else {
        let front = encode(buffers.drop_last());
        let body = buffers.last();
        front + end_header((front.len() + 4 + body.len()) as int) + body
    }
}

/// The four bytes of `blob` from offset `at` on; a byte beyond the end of the
/// blob reads as zero.
pub open spec fn header_window(blob: Seq<u8>, at: int) -> Seq<u8> {
    Seq::new(4, |i: int| if at + i < blob.len() { blob[at + i] } else { 0u8 })
}

/// The offset held by the header that starts at offset `at` of `blob`.
pub open spec fn header_at(blob: Seq<u8>, at: int) -> int {
    header_value(header_window(blob, at))
}

/// Whether the header at offset `at` names a body that starts after the
/// header and ends within the blob.
pub open spec fn frame_fits(blob: Seq<u8>, at: int) -> bool {
    at + 4 <= header_at(blob, at) <= blob.len()
}

/// `front` followed by what `rest` holds, or the error of `rest`.
pub open spec fn after(front: Seq<Seq<u8>>, rest: Result<Seq<Seq<u8>>, BlobReadError>) -> Result<
    Seq<Seq<u8>>,
    BlobReadError,
> {
    match rest {
        Ok(bodies) => Ok(front + bodies),
        Err(e) => Err(e),
    }
}

/// The bodies of the frames of `blob` from offset `at` to the end of the
/// blob, or the error for the first frame that does not fit.
pub open spec fn decode_from(blob: Seq<u8>, at: int) -> Result<Seq<Seq<u8>>, BlobReadError>
    decreases blob.len() - at,
{
    if at >= blob.len() {
        Ok(Seq::empty())
    } else if !frame_fits(blob, at) {
        Err(BlobReadError::InvalidEncodedIndex(header_at(blob, at) as usize))
    } else {
        let end = header_at(blob, at);
        after(seq![blob.subrange(at + 4, end)], decode_from(blob, end))
    }
}

/// What decoding `blob` gives: `TooLarge` for a blob longer than a header
/// can address, else the bodies of its frames or the error for the first
/// frame that does not fit.
pub open spec fn decode(blob: Seq<u8>) -> Result<Seq<Seq<u8>>, BlobReadError> {
    if blob.len() > max_blob_len() {
        Err(BlobReadError::TooLarge)
    } else {
        decode_from(blob, 0)
    }
}

/// The contents of each slice of `slices`, in order.
pub open spec fn contents(slices: Seq<&[u8]>) -> Seq<Seq<u8>> {
    Seq::new(slices.len(), |i: int| slices[i]@)
}

} // verus!
