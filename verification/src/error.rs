//! Why a blob could not be split into its buffers.

use vstd::prelude::*;

verus! {

/// Errors that can occur when reading a blob.
#[derive(Debug)]
pub enum BlobReadError {
    /// A frame header does not name a place where its own body can end: the
    /// offset it holds lies beyond the blob, or before the end of the header
    /// itself. Carries the offset that the header holds. For a header cut
    /// short by the end of the blob, that is the offset its bytes spell with
    /// zeros in place of the missing ones.
    InvalidEncodedIndex(usize),
    /// The blob is longer than the largest offset that a header can hold.
    TooLarge,
}

} // verus!
