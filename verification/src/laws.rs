//! Laws that relate encoding and decoding.

use crate::error::BlobReadError;
use crate::format::{
    after, decode, decode_from, encode, encoded_len, end_header, frame_fits, header_at,
    header_window, max_blob_len, payload_len,
};
use crate::header::{
    lemma_header_bytes_of_value, lemma_header_value_of_bytes, lemma_header_value_range,
};
use vstd::prelude::*;

verus! {

/// Size law: the encoded blob holds every body byte and four header bytes
/// for each buffer.
pub proof fn lemma_encode_len(buffers: Seq<Seq<u8>>)
    ensures
        encode(buffers).len() == encoded_len(buffers),
        encode(buffers).len() == payload_len(buffers) + 4 * buffers.len(),
    decreases buffers.len(),
{
    if buffers.len() > 0 {
        lemma_encode_len(buffers.drop_last());
    }
}

/// Taking one more buffer adds its body and four header bytes to the encoded
/// length, and the encoded length of a prefix never exceeds that of the whole.
pub proof fn lemma_encoded_len_take(buffers: Seq<Seq<u8>>, n: int)
    requires
        0 <= n <= buffers.len(),
    ensures
        encoded_len(buffers.take(n)) <= encoded_len(buffers),
        n < buffers.len() ==> encoded_len(buffers.take(n + 1)) == encoded_len(buffers.take(n)) + 4
            + buffers[n].len(),
    decreases buffers.len() - n,
{
    if n < buffers.len() {
        assert(buffers.take(n + 1).drop_last() =~= buffers.take(n));
        assert(buffers.take(n + 1).last() == buffers[n]);
        lemma_encoded_len_take(buffers, n + 1);
    } else {
        assert(buffers.take(n) =~= buffers);
    }
}

/// The blob of a prefix of the buffers is a prefix of the blob of all of them.
pub proof fn lemma_encode_prefix(buffers: Seq<Seq<u8>>, n: int)
    requires
        0 <= n <= buffers.len(),
    ensures
        encode(buffers.take(n)).is_prefix_of(encode(buffers)),
    decreases buffers.len(),
{
    if n == buffers.len() {
        assert(buffers.take(n) =~= buffers);
    } else {
        let shorter = buffers.drop_last();
        lemma_encode_prefix(shorter, n);
        assert(shorter.take(n) =~= buffers.take(n));
        assert(encode(shorter).is_prefix_of(encode(buffers)));
    }
}

/// In a blob that starts with the encoding of `buffers`, the last of those
/// frames is read back as it was written: its header fits, and decoding from
/// its start gives its body, then whatever follows the frame.
proof fn lemma_decode_last_frame(buffers: Seq<Seq<u8>>, blob: Seq<u8>)
    requires
        buffers.len() > 0,
        encode(buffers).is_prefix_of(blob),
        blob.len() <= max_blob_len(),
    ensures
        decode_from(blob, encoded_len(buffers.drop_last()) as int) == after(
            seq![buffers.last()],
            decode_from(blob, encoded_len(buffers) as int),
        ),
{
    let front = encode(buffers.drop_last());
    let body = buffers.last();
    let start = front.len() as int;
    let end = start + 4 + body.len();
    let header = end_header(end);
    lemma_encode_len(buffers);
    lemma_header_value_of_bytes((end % 0x1_0000_0000) as u32);
    assert forall|i: int| 0 <= i < 4 implies header_window(blob, start)[i] == header[i] by {
        assert(blob[start + i] == encode(buffers)[start + i]);
    }
    assert(header_window(blob, start) =~= header);
    assert forall|i: int| 0 <= i < body.len() implies blob.subrange(start + 4, end)[i] == body[i] by {
        assert(blob[start + 4 + i] == encode(buffers)[start + 4 + i]);
    }
    assert(blob.subrange(start + 4, end) =~= body);
}

/// Decoding a blob that starts with the encoding of `buffers` gives those
/// buffers first, in order, and then goes on behind them.
pub proof fn lemma_decode_encoded_prefix(buffers: Seq<Seq<u8>>, blob: Seq<u8>)
    requires
        encode(buffers).is_prefix_of(blob),
        blob.len() <= max_blob_len(),
    ensures
        decode(blob) == after(buffers, decode_from(blob, encoded_len(buffers) as int)),
    decreases buffers.len(),
{
    let rest = decode_from(blob, encoded_len(buffers) as int);
    if buffers.len() > 0 {
        let shorter = buffers.drop_last();
        lemma_encode_prefix(buffers, buffers.len() - 1);
        assert(buffers.take(buffers.len() - 1) =~= shorter);
        lemma_decode_encoded_prefix(shorter, blob);
        lemma_decode_last_frame(buffers, blob);
        match rest {
            Ok(bodies) => {
                assert(shorter + (seq![buffers.last()] + bodies) =~= buffers + bodies);
            },
            Err(_) => {},
        }
    }
}

/// Round trip: decoding the encoding of any buffers gives the same buffers
/// in the same order, as long as the blob is not longer than a header can
/// address.
pub proof fn lemma_decode_encode(buffers: Seq<Seq<u8>>)
    requires
        encoded_len(buffers) <= max_blob_len(),
    ensures
        decode(encode(buffers)) == Ok::<Seq<Seq<u8>>, BlobReadError>(buffers),
{
    let blob = encode(buffers);
    lemma_encode_len(buffers);
    lemma_decode_encoded_prefix(buffers, blob);
    assert(buffers + Seq::<Seq<u8>>::empty() =~= buffers);
}

/// The first frame that does not fit ends the decoding: where well-formed
/// frames are followed by a header that holds an offset before the end of
/// that header or beyond the blob, the blob decodes to `InvalidEncodedIndex`
/// with that offset.
pub proof fn lemma_first_unfit_frame_rejected(buffers: Seq<Seq<u8>>, blob: Seq<u8>)
    requires
        encode(buffers).is_prefix_of(blob),
        encoded_len(buffers) < blob.len() <= max_blob_len(),
        !frame_fits(blob, encoded_len(buffers) as int),
    ensures
        decode(blob) == Err::<Seq<Seq<u8>>, BlobReadError>(
            BlobReadError::InvalidEncodedIndex(header_at(blob, encoded_len(buffers) as int) as usize),
        ),
{
    lemma_decode_encoded_prefix(buffers, blob);
}

/// Offsets do not decrease: where well-formed frames are followed by a
/// header that holds a smaller offset than the header of one of them, the
/// blob decodes to `InvalidEncodedIndex` with that smaller offset.
pub proof fn lemma_decreasing_offset_rejected(buffers: Seq<Seq<u8>>, blob: Seq<u8>, earlier: int)
    requires
        encode(buffers).is_prefix_of(blob),
        encoded_len(buffers) < blob.len() <= max_blob_len(),
        0 <= earlier < buffers.len(),
        header_at(blob, encoded_len(buffers) as int) < header_at(
            blob,
            encoded_len(buffers.take(earlier)) as int,
        ),
    ensures
        decode(blob) == Err::<Seq<Seq<u8>>, BlobReadError>(
            BlobReadError::InvalidEncodedIndex(header_at(blob, encoded_len(buffers) as int) as usize),
        ),
{
    let framed = buffers.take(earlier + 1);
    lemma_encode_prefix(buffers, earlier + 1);
    lemma_encode_len(buffers);
    assert(framed.drop_last() =~= buffers.take(earlier));
    // The earlier header holds the offset at which its own frame ends.
    lemma_header_value_of_bytes((encoded_len(framed) % 0x1_0000_0000) as u32);
    let start = encoded_len(buffers.take(earlier)) as int;
    lemma_encode_len(buffers.take(earlier));
    let header = end_header(encoded_len(framed) as int);
    assert forall|i: int| 0 <= i < 4 implies header_window(blob, start)[i] == header[i] by {
        assert(encode(buffers)[start + i] == encode(framed)[start + i]);
    }
    assert(header_window(blob, start) =~= header);
    lemma_first_unfit_frame_rejected(buffers, blob);
}

/// A blob that decodes is the encoding of what it decodes to; in particular
/// its last frame ends where the blob ends.
pub proof fn lemma_encode_decode(blob: Seq<u8>, buffers: Seq<Seq<u8>>)
    requires
        decode(blob) == Ok::<Seq<Seq<u8>>, BlobReadError>(buffers),
    ensures
        encode(buffers) == blob,
{
    assert(blob.take(0) =~= encode(Seq::<Seq<u8>>::empty()));
    lemma_encode_decoded_suffix(blob, 0, Seq::empty(), buffers);
}

/// Where the bytes before offset `at` encode `front` and the frames from
/// `at` on decode to `rest`, the whole blob encodes `front` followed by `rest`.
proof fn lemma_encode_decoded_suffix(
    blob: Seq<u8>,
    at: int,
    front: Seq<Seq<u8>>,
    rest: Seq<Seq<u8>>,
)
    requires
        0 <= at <= blob.len() <= max_blob_len(),
        encode(front) == blob.take(at),
        decode_from(blob, at) == Ok::<Seq<Seq<u8>>, BlobReadError>(rest),
    ensures
        encode(front + rest) == blob,
    decreases blob.len() - at,
{
    if at >= blob.len() {
        assert(front + rest =~= front);
    } else {
        let end = header_at(blob, at);
        let body = blob.subrange(at + 4, end);
        let window = header_window(blob, at);
        let tail = decode_from(blob, end)->Ok_0;
        let longer = front.push(body);
        lemma_header_bytes_of_value(window);
        lemma_header_value_range(window);
        assert(longer.drop_last() =~= front);
        assert(encode(longer) =~= blob.take(end));
        assert(front + rest =~= longer + tail);
        lemma_encode_decoded_suffix(blob, end, longer, tail);
    }
}

} // verus!
