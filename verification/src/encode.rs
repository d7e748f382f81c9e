//! Packing buffers into a blob.

use crate::format::{contents, encode, encoded_len, payload_len};
use crate::header::u32_to_ne_bytes;
use crate::laws::{lemma_encode_len, lemma_encoded_len_take};
use vstd::prelude::*;

verus! {

/// The low 32 bits of `offset`.
fn low_u32(offset: usize) -> (low: u32)
    ensures
        low == (offset as int) % 0x1_0000_0000,
{
    let wide: u64 = offset as u64;
    assert((wide as u32) as u64 == wide % 0x1_0000_0000) by (bit_vector);
    #[verifier::truncate]
    (wide as u32)
}

/// Converts a sequence of byte slices to one blob.
///
/// For each slice, in order, the blob holds a four-byte header and then the
/// bytes of the slice. The header holds the offset at which the slice's bytes
/// end within the blob, in the byte order of the running machine, so the blob
/// is four bytes per slice longer than the slices together. Only a blob of
/// at most `u32::MAX` bytes can be decoded again; in a longer one the offsets
/// are stored modulo 2^32.
///
/// The blob is a `Vec`, so its length must not exceed `isize::MAX`.
pub fn byte_arrays_to_blob(bytes_2d: &[&[u8]]) -> (blob: Vec<u8>)
    requires
        encoded_len(contents(bytes_2d@)) <= isize::MAX,
    ensures
        blob@ == encode(contents(bytes_2d@)),
        blob@.len() == payload_len(contents(bytes_2d@)) + 4 * bytes_2d@.len(),
{
    let ghost buffers = contents(bytes_2d@);
    let mut idx_end: usize = 0;
    let mut blob: Vec<u8> = Vec::new();

    for i in 0..bytes_2d.len()
        invariant
            buffers == contents(bytes_2d@),
            encoded_len(buffers) <= isize::MAX,
            idx_end == blob@.len(),
            blob@ == encode(buffers.take(i as int)),
    {
        let byte_arr: &[u8] = bytes_2d[i];
        proof {
            lemma_encode_len(buffers.take(i as int));
            lemma_encoded_len_take(buffers, i + 1);
            assert(buffers.take(i + 1).drop_last() =~= buffers.take(i as int));
        }
        idx_end += 4 + byte_arr.len();
        let write_end_idx: [u8; 4] = u32_to_ne_bytes(low_u32(idx_end));
        blob.extend_from_slice(&write_end_idx);
        blob.extend_from_slice(byte_arr);
    }
    proof {
        assert(buffers.take(bytes_2d@.len() as int) =~= buffers);
        lemma_encode_len(buffers);
    }
    blob
}

} // verus!
