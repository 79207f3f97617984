use libre99::screenshot::{adler32, chunk, encode_png, zlib_stored, Crc};

#[test]
fn crc_and_adler_match_known_vectors() {
    // CRC-32 of "IEND" is the well-known PNG end-chunk CRC 0xAE426082.
    let mut c = Crc::new();
    c.update(b"IEND");
    assert_eq!(c.finish(), 0xAE42_6082);
    // Adler-32 of "Wikipedia" is 0x11E60398 (the canonical example).
    assert_eq!(adler32(b"Wikipedia"), 0x11E6_0398);
}

#[test]
fn encodes_a_well_formed_png() {
    let (w, h) = (4, 3);
    let pixels: Vec<u32> = (0..(w * h) as u32).map(|i| i * 0x0011_2233).collect();
    let png = encode_png(w, h, &pixels);
    assert_eq!(&png[..8], &[0x89, b'P', b'N', b'G', 0x0D, 0x0A, 0x1A, 0x0A]);
    // IHDR length (13) + type at bytes 8..16; ends with an IEND chunk.
    assert_eq!(&png[12..16], b"IHDR");
    assert_eq!(&png[png.len() - 8..png.len() - 4], b"IEND");
}

#[test]
fn crc_fed_in_pieces_equals_crc_of_the_whole() {
    let mut a = Crc::new();
    a.update(b"IE");
    a.update(b"ND");
    assert_eq!(a.finish(), 0xAE42_6082);
    assert_eq!(Crc::new().finish(), 0);
}

#[test]
fn the_empty_zlib_stream_is_one_empty_final_block() {
    assert_eq!(zlib_stored(&[]), [0x78, 0x01, 0x01, 0x00, 0x00, 0xFF, 0xFF, 0x00, 0x00, 0x00, 0x01]);
    assert_eq!(adler32(&[]), 1);
}

#[test]
fn stored_blocks_carry_length_and_complement() {
    let z = zlib_stored(&[7, 8, 9]);
    assert_eq!(&z[..7], &[0x78, 0x01, 0x01, 0x03, 0x00, 0xFC, 0xFF]);
    assert_eq!(&z[7..10], &[7, 8, 9]);
    assert_eq!(&z[10..], &adler32(&[7, 8, 9]).to_be_bytes());
    // Data longer than one block splits at 65535 bytes, the first block not final.
    let big = vec![0u8; 70_000];
    let z = zlib_stored(&big);
    assert_eq!(&z[2..7], &[0x00, 0xFF, 0xFF, 0x00, 0x00]);
    let second = 2 + 5 + 65_535;
    assert_eq!(&z[second..second + 5], &[0x01, 0x71, 0x11, 0x8E, 0xEE]);
    assert_eq!(z.len(), 2 + 5 + 65_535 + 5 + 4_465 + 4);
}

#[test]
fn a_chunk_is_length_type_data_crc() {
    let mut out = Vec::new();
    chunk(&mut out, b"IEND", &[]);
    assert_eq!(out, [0, 0, 0, 0, b'I', b'E', b'N', b'D', 0xAE, 0x42, 0x60, 0x82]);
}

#[test]
fn scanlines_are_filtered_rgb_rows() {
    // One 2x1 image: the IDAT payload is the zlib of [0, R, G, B, R, G, B].
    let png = encode_png(2, 1, &[0x00112233, 0x00445566]);
    let raw = [0u8, 0x11, 0x22, 0x33, 0x44, 0x55, 0x66];
    let z = zlib_stored(&raw);
    let idat_at = 8 + 25;
    assert_eq!(&png[idat_at + 4..idat_at + 8], b"IDAT");
    assert_eq!(&png[idat_at + 8..idat_at + 8 + z.len()], &z[..]);
}
