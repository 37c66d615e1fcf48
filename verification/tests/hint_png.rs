//! The PNG size hint.

use ferrite_carver::device::MemImage;
use ferrite_carver::size_hint::frames::{png_hint};

/// Build a minimal valid PNG with IHDR + IDAT + IEND.
fn make_png(idat_data: &[u8]) -> Vec<u8> {
    let mut buf = Vec::new();

    // PNG signature (8 bytes).
    buf.extend_from_slice(&[0x89, 0x50, 0x4E, 0x47, 0x0D, 0x0A, 0x1A, 0x0A]);

    // IHDR chunk: length=13, type="IHDR", 13 bytes data, 4 bytes CRC.
    let ihdr_data: [u8; 13] = [
        0x00, 0x00, 0x00, 0x01, // width = 1
        0x00, 0x00, 0x00, 0x01, // height = 1
        0x08, // bit depth = 8
        0x02, // color type = RGB
        0x00, // compression method
        0x00, // filter method
        0x00, // interlace method
    ];
    buf.extend_from_slice(&13u32.to_be_bytes()); // length
    buf.extend_from_slice(b"IHDR");
    buf.extend_from_slice(&ihdr_data);
    buf.extend_from_slice(&[0x00; 4]); // CRC placeholder

    // IDAT chunk.
    let len = idat_data.len() as u32;
    buf.extend_from_slice(&len.to_be_bytes());
    buf.extend_from_slice(b"IDAT");
    buf.extend_from_slice(idat_data);
    buf.extend_from_slice(&[0x00; 4]); // CRC placeholder

    // IEND chunk: length=0, type="IEND", CRC.
    buf.extend_from_slice(&0u32.to_be_bytes());
    buf.extend_from_slice(b"IEND");
    buf.extend_from_slice(&[0xAE, 0x42, 0x60, 0x82]); // standard IEND CRC

    buf
}

#[test]
fn png_hint_minimal() {
    let data = make_png(&[0xDE, 0xAD]);
    let expected_size = data.len() as u64;
    let dev = MemImage::new(data, 512);
    let result = png_hint(&dev, 0);
    assert_eq!(result, Some(expected_size));
}

#[test]
fn png_hint_with_offset() {
    let mut data = vec![0xFF; 100]; // junk prefix
    let png = make_png(&[0x01, 0x02, 0x03]);
    let expected_size = png.len() as u64;
    data.extend_from_slice(&png);
    let dev = MemImage::new(data, 512);
    let result = png_hint(&dev, 100);
    assert_eq!(result, Some(expected_size));
}

#[test]
fn png_hint_false_iend_in_idat() {
    // IDAT data that contains the IEND footer bytes — should NOT cause
    // premature termination because we walk by chunk length, not by
    // scanning for the byte pattern.
    let fake_iend = [0x49, 0x45, 0x4E, 0x44, 0xAE, 0x42, 0x60, 0x82];
    let data = make_png(&fake_iend);
    let expected_size = data.len() as u64;
    let dev = MemImage::new(data, 512);
    let result = png_hint(&dev, 0);
    assert_eq!(result, Some(expected_size));
}

#[test]
fn png_hint_truncated_header() {
    // Only the PNG signature, no chunks.
    let data = vec![0x89, 0x50, 0x4E, 0x47, 0x0D, 0x0A, 0x1A, 0x0A];
    let dev = MemImage::new(data, 512);
    assert_eq!(png_hint(&dev, 0), None);
}

#[test]
fn png_hint_corrupt_chunk_type() {
    let mut data = make_png(&[0x01]);
    // Corrupt the IDAT chunk type (byte 33 = 'I' in "IDAT").
    // IHDR starts at 8: 4 len + 4 type + 13 data + 4 CRC = 25 bytes.
    // IDAT starts at 8 + 25 = 33: 4 len + then type at 37.
    data[37] = 0x00; // non-ASCII-alpha → invalid chunk type
    let dev = MemImage::new(data, 512);
    assert_eq!(png_hint(&dev, 0), None);
}
