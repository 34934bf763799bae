use boids::png::{adler32, crc32, encode_png_rgba, png_file_bytes, zlib_stored};

#[test]
fn crc32_matches_known_values() {
    // The canonical check value for CRC-32/ISO-HDLC.
    assert_eq!(crc32(b"123456789"), 0xCBF4_3926);
    assert_eq!(crc32(b""), 0);
}

#[test]
fn adler32_matches_known_values() {
    // From the zlib documentation.
    assert_eq!(adler32(b""), 1);
    assert_eq!(adler32(b"Wikipedia"), 0x11E6_0398);
}

#[test]
fn zlib_stream_is_decodable_by_construction() {
    // Header check value: the two header bytes interpreted big-endian must be a multiple of 31.
    let stream = zlib_stored(b"hello world");
    assert_eq!(u16::from_be_bytes([stream[0], stream[1]]) % 31, 0);
    // Single stored block, final, with a length of 11.
    assert_eq!(stream[2], 0x01);
    assert_eq!(u16::from_le_bytes([stream[3], stream[4]]), 11);
    assert_eq!(u16::from_le_bytes([stream[5], stream[6]]), !11u16);
    assert_eq!(&stream[7..18], b"hello world");
    // Trailing Adler-32 over the uncompressed data.
    assert_eq!(
        u32::from_be_bytes(stream[18..22].try_into().unwrap()),
        adler32(b"hello world")
    );
}

#[test]
fn multi_block_stream_splits_and_marks_the_end() {
    let data = vec![7u8; 100_000];
    let stream = zlib_stored(&data);
    // 65535 + 34465: two blocks, only the second marked final.
    assert_eq!(stream[2], 0x00);
    assert_eq!(u16::from_le_bytes([stream[3], stream[4]]), 65_535);
    let second = 2 + 5 + 65_535;
    assert_eq!(stream[second], 0x01);
    assert_eq!(
        u16::from_le_bytes([stream[second + 1], stream[second + 2]]),
        34_465
    );
}

#[test]
fn empty_input_still_produces_a_valid_block() {
    let stream = zlib_stored(b"");
    assert_eq!(stream[2], 0x01);
    assert_eq!(u16::from_le_bytes([stream[3], stream[4]]), 0);
}

#[test]
fn encoded_png_has_the_expected_structure() {
    let pixels: Vec<u8> = (0..16 * 16 * 4).map(|i| (i % 251) as u8).collect();
    let png = encode_png_rgba(16, 16, &pixels);

    assert_eq!(&png[0..8], &[0x89, b'P', b'N', b'G', 0x0D, 0x0A, 0x1A, 0x0A]);
    // IHDR: length 13, type IHDR, big-endian dimensions, then the five fixed bytes.
    assert_eq!(u32::from_be_bytes(png[8..12].try_into().unwrap()), 13);
    assert_eq!(&png[12..16], b"IHDR");
    assert_eq!(u32::from_be_bytes(png[16..20].try_into().unwrap()), 16);
    assert_eq!(u32::from_be_bytes(png[20..24].try_into().unwrap()), 16);
    assert_eq!(&png[24..29], &[8, 6, 0, 0, 0]);
    // The IHDR CRC must verify.
    assert_eq!(
        u32::from_be_bytes(png[29..33].try_into().unwrap()),
        crc32(&png[12..29])
    );
    // IEND must be present and empty.
    assert_eq!(&png[png.len() - 8..png.len() - 4], b"IEND");

    // Every chunk in the file must have a valid CRC, which is what a decoder checks first.
    let mut offset = 8;
    let mut chunks = 0;
    while offset < png.len() {
        let len = u32::from_be_bytes(png[offset..offset + 4].try_into().unwrap()) as usize;
        let end = offset + 8 + len;
        let expected = u32::from_be_bytes(png[end..end + 4].try_into().unwrap());
        assert_eq!(crc32(&png[offset + 4..end]), expected, "chunk at {offset}");
        chunks += 1;
        offset = end + 4;
    }
    assert_eq!(chunks, 3, "expected IHDR, IDAT and IEND");
    assert_eq!(offset, png.len(), "trailing bytes after IEND");
}

#[test]
fn size_mismatch_is_reported() {
    let err = png_file_bytes(4, 4, &[0u8; 10]).expect_err("a short buffer must be rejected");
    assert!(err.contains("needs 64"), "unexpected message: {err}");
    assert_eq!(err, "pixel buffer is 10 bytes but 4x4 RGBA needs 64");
    assert!(png_file_bytes(4, 4, &[0u8; 65]).is_err());
    assert_eq!(
        png_file_bytes(4, 4, &[9u8; 64]).expect("the right size"),
        encode_png_rgba(4, 4, &[9u8; 64])
    );
}

/// Takes the stored blocks of a stream apart again.
fn stored_payload(stream: &[u8]) -> Vec<u8> {
    let mut out = Vec::new();
    let mut at = 2;
    loop {
        let len = u16::from_le_bytes([stream[at + 1], stream[at + 2]]) as usize;
        out.extend_from_slice(&stream[at + 5..at + 5 + len]);
        let last = stream[at] == 1;
        at += 5 + len;
        if last {
            assert_eq!(at + 4, stream.len());
            return out;
        }
    }
}

#[test]
fn streams_give_their_data_back() {
    for len in [0usize, 1, 65_534, 65_535, 65_536, 131_070, 131_071] {
        let data: Vec<u8> = (0..len).map(|i| (i * 31 % 256) as u8).collect();
        assert_eq!(stored_payload(&zlib_stored(&data)), data, "{len} bytes");
    }
}

#[test]
fn rows_start_with_a_filter_byte() {
    let pixels: Vec<u8> = (0..2 * 2 * 4).map(|i| i as u8 + 1).collect();
    let png = encode_png_rgba(2, 2, &pixels);
    // The image data chunk starts behind the signature and the header chunk.
    let len = u32::from_be_bytes(png[33..37].try_into().unwrap()) as usize;
    let raw = stored_payload(&png[41..41 + len]);
    assert_eq!(raw.len(), 18);
    assert_eq!(raw[0], 0);
    assert_eq!(&raw[1..9], &pixels[0..8]);
    assert_eq!(raw[9], 0);
    assert_eq!(&raw[10..18], &pixels[8..16]);
}
