//! Splitting a blob into the bodies of its frames.

use crate::error::BlobReadError;
use crate::format::{after, contents, decode, decode_from, header_at};
use crate::header::u32_from_ne_bytes;
use vstd::prelude::*;

verus! {

/// Reads the header that starts at offset `at` of `blob`. Where fewer than
/// four bytes are left, the missing ones are read as zero.
fn read_header(blob: &[u8], at: usize) -> (value: u32)
    requires
        at <= blob@.len(),
    ensures
        value == header_at(blob@, at as int),
{
    let available: usize = blob.len() - at;
    let mut window: [u8; 4] = [0u8; 4];
    let mut i: usize = 0;
    while i < 4 && i < available
        invariant
            i <= 4,
            i <= available,
            at + available == blob@.len() <= usize::MAX,
            window@.len() == 4,
            forall|k: int| 0 <= k < i ==> window@[k] == blob@[at + k],
            forall|k: int| i <= k < 4 ==> window@[k] == 0u8,
        decreases 4 - i,
    {
        window[i] = blob[at + i];
        i += 1;
    }
    u32_from_ne_bytes(window)
}

/// Converts a blob to the slices of its frame bodies, in order. The slices
/// borrow from `blob`; no body byte is copied.
///
/// Fails with `TooLarge` where the blob is longer than `u32::MAX` bytes, and
/// otherwise with `InvalidEncodedIndex` at the first frame whose header holds
/// an offset beyond the blob or before the end of that header. A header cut
/// short by the end of the blob is read with zeros for the missing bytes, and
/// never fits.
pub fn blob_to_byte_arrays<'a>(blob: &'a [u8]) -> (result: Result<Vec<&'a [u8]>, BlobReadError>)
    ensures
        match result {
            Ok(slices) => decode(blob@) == Ok::<Seq<Seq<u8>>, BlobReadError>(contents(slices@)),
            Err(e) => decode(blob@) == Err::<Seq<Seq<u8>>, BlobReadError>(e),
        },
        blob@.len() > u32::MAX ==> result matches Err(BlobReadError::TooLarge),
        blob@.len() == 0 ==> (result matches Ok(slices) && slices@.len() == 0),
{
    if blob.len() > u32::MAX as usize {
        return Err(BlobReadError::TooLarge);
    }
    let mut idx_end: usize = 0;
    let mut idx_start: usize = 0;
    let mut byte_arrays: Vec<&[u8]> = Vec::new();

    while idx_end < blob.len()
        invariant
            idx_start == idx_end,
            blob@.len() <= u32::MAX,
            decode_from(blob@, 0) == after(
                contents(byte_arrays@),
                decode_from(blob@, idx_start as int),
            ),
        decreases blob@.len() - idx_end,
    {
        let ghost front = contents(byte_arrays@);
        idx_end = read_header(blob, idx_start) as usize;
        if idx_end > blob.len() || idx_end < 4 || idx_end - 4 < idx_start {
            return Err(BlobReadError::InvalidEncodedIndex(idx_end));
        }
        idx_start += 4;
        let body: &[u8] = &blob[idx_start..idx_end];
        byte_arrays.push(body);
        idx_start = idx_end;
        proof {
            let rest = decode_from(blob@, idx_end as int);
            assert(contents(byte_arrays@) =~= front + seq![body@]);
            match rest {
                Ok(bodies) => {
                    assert(front + (seq![body@] + bodies) =~= (front + seq![body@]) + bodies);
                },
                Err(_) => {},
            }
        }
    }
    Ok(byte_arrays)
}

} // verus!
