//! The JPEG size hint.

use ferrite_carver::device::MemImage;
use ferrite_carver::size_hint::frames::{jpeg_hint};

/// Build a minimal but structurally valid JPEG:
///   SOI + APP0(len) + DQT(len) + SOF0(len) + DHT(len) + SOS(len) + <scan> + EOI
fn make_jpeg(extra_app_data: &[u8], scan_data: &[u8]) -> Vec<u8> {
    let mut buf = Vec::new();

    // SOI
    buf.extend_from_slice(&[0xFF, 0xD8]);

    // APP0 (JFIF) — length = 2 + 14 = 16 (length field includes itself)
    let app0_payload: &[u8] = &[
        0x4A, 0x46, 0x49, 0x46, 0x00, 0x01, 0x01, 0x00, 0x00, 0x01, 0x00, 0x01, 0x00, 0x00,
    ]; // 14 bytes
    buf.extend_from_slice(&[0xFF, 0xE0]);
    let app0_len = (2 + app0_payload.len()) as u16;
    buf.extend_from_slice(&app0_len.to_be_bytes());
    buf.extend_from_slice(app0_payload);

    // Extra APP data (simulates an EXIF block containing a thumbnail with its own FF D9)
    if !extra_app_data.is_empty() {
        buf.extend_from_slice(&[0xFF, 0xE1]);
        let elen = (2 + extra_app_data.len()) as u16;
        buf.extend_from_slice(&elen.to_be_bytes());
        buf.extend_from_slice(extra_app_data);
    }

    // DQT (minimal, length = 2 + 65 = 67)
    buf.extend_from_slice(&[0xFF, 0xDB]);
    buf.extend_from_slice(&67u16.to_be_bytes());
    buf.extend_from_slice(&[0u8; 65]);

    // SOF0 (minimal, length = 2 + 11 = 13)
    buf.extend_from_slice(&[0xFF, 0xC0]);
    buf.extend_from_slice(&13u16.to_be_bytes());
    buf.extend_from_slice(&[
        0x08, 0x00, 0x01, 0x00, 0x01, 0x01, 0x01, 0x11, 0x00, 0x00, 0x00,
    ]);

    // DHT (minimal, length = 2 + 17 = 19)
    buf.extend_from_slice(&[0xFF, 0xC4]);
    buf.extend_from_slice(&19u16.to_be_bytes());
    buf.extend_from_slice(&[0u8; 17]);

    // SOS header (length = 2 + 8 = 10)
    buf.extend_from_slice(&[0xFF, 0xDA]);
    buf.extend_from_slice(&10u16.to_be_bytes());
    buf.extend_from_slice(&[0x01, 0x01, 0x00, 0x00, 0x3F, 0x00, 0x00, 0x00]);

    // Entropy-coded scan data
    buf.extend_from_slice(scan_data);

    // EOI
    buf.extend_from_slice(&[0xFF, 0xD9]);

    buf
}

#[test]
fn jpeg_hint_minimal() {
    let data = make_jpeg(&[], &[0xAA, 0xBB, 0xCC]);
    let expected = data.len() as u64;
    let dev = MemImage::new(data, 512);
    assert_eq!(jpeg_hint(&dev, 0, 10_485_760), Some(expected));
}

#[test]
fn jpeg_hint_skips_thumbnail_eoi() {
    // APP1 block contains a fake thumbnail that ends with FF D9.
    // The walker must skip the whole APP1 block and find the real EOI at the end.
    let thumbnail_data: Vec<u8> = vec![
        0xFF, 0xD8, // fake thumbnail SOI
        0x00, 0x01, 0x02, 0x03, // some bytes
        0xFF, 0xD9, // fake thumbnail EOI — should NOT be returned
    ];
    let scan_data: &[u8] = &[0x55, 0x66, 0x77];
    let data = make_jpeg(&thumbnail_data, scan_data);
    let expected = data.len() as u64;
    let dev = MemImage::new(data, 512);
    assert_eq!(jpeg_hint(&dev, 0, 10_485_760), Some(expected));
}

#[test]
fn jpeg_hint_stuffed_ff_in_scan() {
    // FF 00 in scan data must not terminate the walk.
    let scan_data: &[u8] = &[0xFF, 0x00, 0xFF, 0x00, 0xAA, 0xBB];
    let data = make_jpeg(&[], scan_data);
    let expected = data.len() as u64;
    let dev = MemImage::new(data, 512);
    assert_eq!(jpeg_hint(&dev, 0, 10_485_760), Some(expected));
}

#[test]
fn jpeg_hint_with_file_offset() {
    let mut buf = vec![0u8; 512]; // junk prefix
    let jpeg = make_jpeg(&[], &[0xDE, 0xAD]);
    let expected = jpeg.len() as u64;
    buf.extend_from_slice(&jpeg);
    let dev = MemImage::new(buf, 512);
    assert_eq!(jpeg_hint(&dev, 512, 10_485_760), Some(expected));
}

#[test]
fn jpeg_hint_truncated_returns_none() {
    // JPEG without a final EOI — should return None.
    let mut data = make_jpeg(&[], &[0xAA]);
    data.truncate(data.len() - 2); // remove FF D9
    let dev = MemImage::new(data, 512);
    assert_eq!(jpeg_hint(&dev, 0, 10_485_760), None);
}
