use byte_array_blob::{blob_to_byte_arrays, byte_arrays_to_blob, BlobReadError};

/// The four header bytes that hold `offset` on this machine.
fn header(offset: u32) -> [u8; 4] {
    offset.to_ne_bytes()
}

/// A blob made of the given pieces, one after the other.
fn join(pieces: &[&[u8]]) -> Vec<u8> {
    let mut out = Vec::new();
    for piece in pieces {
        out.extend_from_slice(piece);
    }
    out
}

fn invalid_index(blob: &[u8]) -> usize {
    match blob_to_byte_arrays(blob) {
        Err(BlobReadError::InvalidEncodedIndex(idx)) => idx,
        Err(BlobReadError::TooLarge) => panic!("expected InvalidEncodedIndex, got TooLarge"),
        Ok(slices) => panic!("expected InvalidEncodedIndex, got {} slices", slices.len()),
    }
}

#[test]
fn bytes_blob_test() {
    let bytes_arr: Vec<&[u8]> = vec![&[0u8, 0u8, 0u8, 0u8], &[0u8, 0u8, 0u8, 0u8]];

    let blob = byte_arrays_to_blob(&bytes_arr);
    assert_eq!(blob.len(), 16);
    assert_eq!(blob_to_byte_arrays(&blob).unwrap().len(), 2);
}

#[test]
#[allow(unused)]
fn blob_read_invalid_index() {
    let blob = vec![255u8, 255u8, 255u8, 255u8];
    let read = blob_to_byte_arrays(&blob);

    if let Err(e) = blob_to_byte_arrays(&blob) {
        match e {
            BlobReadError::InvalidEncodedIndex(idx) => {
                assert_eq!(idx, u32::MAX as usize)
            }
            _ => {
                panic!("Error should be BlobReadError::InvalidEncodedIndex")
            }
        }
    } else {
        panic!("blob_to_byte_arrays() should return Err for invalid data");
    }
}

#[test]
fn round_trip_two_buffers() {
    let data1 = [1u8, 2, 3, 4, 5];
    let data2 = [8u8; 64];

    let blob = byte_arrays_to_blob(&[&data1, &data2]);
    assert_eq!(blob.len(), data1.len() + 4 + data2.len() + 4);

    let slices = blob_to_byte_arrays(&blob).unwrap();
    assert_eq!(slices.len(), 2);
    assert_eq!(slices[0], data1);
    assert_eq!(slices[1], data2);
}

#[test]
fn round_trip_no_buffers() {
    let blob = byte_arrays_to_blob(&[]);
    assert!(blob.is_empty());
    let slices = blob_to_byte_arrays(&blob).unwrap();
    assert!(slices.is_empty());
}

#[test]
fn round_trip_empty_buffers() {
    let buffers: Vec<&[u8]> = vec![&[], &[7u8], &[], &[], &[1u8, 2u8], &[]];
    let blob = byte_arrays_to_blob(&buffers);
    assert_eq!(blob.len(), 3 + 4 * 6);
    let slices = blob_to_byte_arrays(&blob).unwrap();
    assert_eq!(slices, buffers);
}

#[test]
fn round_trip_many_sizes() {
    let mut owned: Vec<Vec<u8>> = Vec::new();
    for n in 0..40usize {
        let mut buffer = Vec::new();
        for k in 0..(n * 7 % 23) {
            buffer.push((n * 31 + k) as u8);
        }
        owned.push(buffer);
    }
    let buffers: Vec<&[u8]> = owned.iter().map(|b| b.as_slice()).collect();
    let blob = byte_arrays_to_blob(&buffers);
    let payload: usize = owned.iter().map(|b| b.len()).sum();
    assert_eq!(blob.len(), payload + 4 * owned.len());
    let slices = blob_to_byte_arrays(&blob).unwrap();
    assert_eq!(slices, buffers);
}

#[test]
fn encoded_bytes_are_headers_and_bodies() {
    let blob = byte_arrays_to_blob(&[&[1u8, 2, 3], &[], &[9u8; 300]]);
    let expected = join(&[
        &header(7),
        &[1u8, 2, 3],
        &header(11),
        &header(315),
        &[9u8; 300],
    ]);
    assert_eq!(blob, expected);
}

#[test]
fn header_holds_cumulative_end_offset() {
    let blob = byte_arrays_to_blob(&[&[5u8; 2], &[6u8; 3]]);
    assert_eq!(u32::from_ne_bytes([blob[0], blob[1], blob[2], blob[3]]), 6);
    assert_eq!(u32::from_ne_bytes([blob[6], blob[7], blob[8], blob[9]]), 13);
    assert_eq!(blob.len(), 13);
}

#[test]
fn header_is_in_native_byte_order() {
    let blob = byte_arrays_to_blob(&[&[0u8; 254]]);
    assert_eq!(blob.len(), 258);
    let little = 1u32.to_ne_bytes()[0] == 1;
    if little {
        assert_eq!(blob[..4], [2u8, 1, 0, 0]);
    } else {
        assert_eq!(blob[..4], [0u8, 0, 1, 2]);
    }
}

#[test]
fn empty_blob_decodes_to_nothing() {
    let blob: [u8; 0] = [];
    let slices = blob_to_byte_arrays(&blob).unwrap();
    assert_eq!(slices.len(), 0);
}

#[test]
fn minimal_valid_frame() {
    let little = 1u32.to_ne_bytes()[0] == 1;
    let blob: [u8; 8] = if little {
        [8, 0, 0, 0, 255, 0, 0, 0]
    } else {
        [0, 0, 0, 8, 255, 0, 0, 0]
    };
    let slices = blob_to_byte_arrays(&blob).unwrap();
    assert_eq!(slices.len(), 1);
    assert_eq!(slices[0], &[255u8, 0, 0, 0]);
}

#[test]
fn decodes_frames_written_by_hand() {
    let blob = join(&[&header(6), &[1u8, 2], &header(10), &header(17), &[3u8, 4, 5]]);
    let slices = blob_to_byte_arrays(&blob).unwrap();
    let expected: Vec<&[u8]> = vec![&[1u8, 2], &[], &[3u8, 4, 5]];
    assert_eq!(slices, expected);
}

#[test]
fn decoded_blob_encodes_to_itself() {
    let blob = join(&[&header(4), &header(9), &[7u8], &header(13), &header(20), &[1u8, 2, 3]]);
    let slices = blob_to_byte_arrays(&blob).unwrap();
    assert_eq!(slices.len(), 4);
    assert_eq!(byte_arrays_to_blob(&slices), blob);
}

#[test]
fn decoded_slices_borrow_from_the_blob() {
    let blob = byte_arrays_to_blob(&[&[1u8, 2, 3], &[4u8, 5]]);
    let slices = blob_to_byte_arrays(&blob).unwrap();
    assert_eq!(slices[0].as_ptr(), blob[4..].as_ptr());
    assert_eq!(slices[1].as_ptr(), blob[11..].as_ptr());
}

#[test]
fn header_beyond_blob_is_rejected() {
    let blob = join(&[&header(9), &[1u8, 2, 3, 4]]);
    assert_eq!(invalid_index(&blob), 9);
}

#[test]
fn header_before_its_own_end_is_rejected() {
    assert_eq!(invalid_index(&header(0)), 0);
    assert_eq!(invalid_index(&header(3)), 3);
    let blob = join(&[&header(3), &[0u8; 4]]);
    assert_eq!(invalid_index(&blob), 3);
}

#[test]
fn decreasing_offset_is_rejected() {
    let blob = join(&[&header(8), &[1u8; 4], &header(6), &[2u8; 4]]);
    assert_eq!(invalid_index(&blob), 6);
}

#[test]
fn repeated_offset_is_rejected() {
    let blob = join(&[&header(8), &[1u8; 4], &header(8), &[2u8; 4]]);
    assert_eq!(invalid_index(&blob), 8);
}

#[test]
fn first_unfit_frame_is_reported() {
    let blob = join(&[
        &header(5),
        &[1u8],
        &header(200),
        &[2u8],
        &header(1),
        &[3u8],
    ]);
    assert_eq!(invalid_index(&blob), 200);
}

#[test]
fn frame_that_stops_short_of_the_end_is_rejected() {
    // One whole frame, then a single byte where the next header should start.
    let blob = join(&[&header(6), &[1u8, 2], &[0u8]]);
    assert_eq!(invalid_index(&blob), 0);
}

#[test]
fn truncated_header_is_rejected() {
    let bytes = header(0x0403_0201);
    for present in 1..4usize {
        let mut padded = [0u8; 4];
        padded[..present].copy_from_slice(&bytes[..present]);
        let expected = u32::from_ne_bytes(padded) as usize;
        assert_eq!(invalid_index(&bytes[..present]), expected);

        let blob = join(&[&header(5), &[9u8], &bytes[..present]]);
        assert_eq!(invalid_index(&blob), expected);
    }
}

#[test]
fn truncated_header_reads_missing_bytes_as_zero() {
    let little = 1u32.to_ne_bytes()[0] == 1;
    let expected = if little { 5 } else { 0x0500_0000 };
    assert_eq!(invalid_index(&[5u8, 0]), expected);
    assert_eq!(invalid_index(&[5u8]), expected);
}

#[test]
fn oversize_blob_is_too_large() {
    // Needs a blob of 4 GiB: runs where the machine grants that much memory.
    if usize::BITS > 32 {
        let len = u32::MAX as usize + 1;
        let mut blob: Vec<u8> = Vec::new();
        if blob.try_reserve_exact(len).is_ok() {
            // The first header holds an offset that does not fit: the length is judged first.
            blob.resize(len, 0);
            assert!(matches!(
                blob_to_byte_arrays(&blob),
                Err(BlobReadError::TooLarge)
            ));
        }
    }
}

#[test]
fn largest_header_value_is_not_too_large() {
    // A short blob is never TooLarge, whatever its header holds.
    let blob = join(&[&header(u32::MAX), &[0u8; 12]]);
    assert_eq!(invalid_index(&blob), u32::MAX as usize);
}

#[test]
fn error_debug_names_the_variant() {
    assert_eq!(
        format!("{:?}", BlobReadError::InvalidEncodedIndex(7)),
        "InvalidEncodedIndex(7)"
    );
    assert_eq!(format!("{:?}", BlobReadError::TooLarge), "TooLarge");
}
