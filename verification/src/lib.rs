//! Packs an ordered collection of byte buffers into one contiguous blob and
//! splits such a blob back into its buffers without copying them.
//!
//! A blob is a run of frames. Each frame is a four-byte header followed by a
//! body; the header holds, in the byte order of the running machine, the
//! offset within the blob at which the body ends.

pub mod decode;
pub mod encode;
pub mod error;
pub mod format;
pub mod header;
pub mod laws;

pub use decode::blob_to_byte_arrays;
pub use encode::byte_arrays_to_blob;
pub use error::BlobReadError;
