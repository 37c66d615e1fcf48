//! The EBML size hint.

use ferrite_carver::device::MemImage;
use ferrite_carver::post_validate::containers::{read_vint as read_ebml_vint, unknown_size};
use ferrite_carver::size_hint::structured::{ebml_hint};

/// Is `value` the "unknown size" value of a `width`-byte integer?
fn is_unknown_size(value: u64, width: usize) -> bool {
    value == unknown_size(width)
}

fn device_from(data: Vec<u8>) -> MemImage {
    MemImage::new(data, 512)
}

#[test]
fn ebml_vint_one_byte() {
    // 0x82 = 1000_0010 → width=1, value = 0x02
    assert_eq!(read_ebml_vint(&[0x82], 0), Some((0x02, 1)));
}

#[test]
fn ebml_vint_two_bytes() {
    // 0x40 0x10 → width=2, value = 0x0010 = 16
    assert_eq!(read_ebml_vint(&[0x40, 0x10], 0), Some((16, 2)));
}

#[test]
fn ebml_vint_unknown_detection() {
    // 1-byte unknown: 0xFF → value = 0x7F, width=1
    assert!(is_unknown_size(0x7F, 1));
    // 2-byte unknown: 0x7FFF → value = 0x3FFF, width=2
    assert!(is_unknown_size(0x3FFF, 2));
    // Not unknown
    assert!(!is_unknown_size(100, 1));
}

#[test]
fn ebml_mkv_basic() {
    // Minimal EBML: header ID (4) + header VINT size (1, value=2) + header body (2 bytes)
    //             + Segment ID (4) + Segment VINT size (1, value=1000)
    // total = 4+1+2 + 4+1+1000 = 7 + 1005 = 1012
    // But Segment VINT can't encode 1000 in 1 byte. Let's use 2-byte VINT.
    let mut data = vec![0u8; 2048];
    // EBML header
    data[0..4].copy_from_slice(&[0x1A, 0x45, 0xDF, 0xA3]);
    // Header size: VINT 1 byte = 0x82 (value 2)
    data[4] = 0x82;
    // Header body: 2 dummy bytes
    data[5] = 0x00;
    data[6] = 0x00;

    // Segment element at offset 7
    data[7..11].copy_from_slice(&[0x18, 0x53, 0x80, 0x67]);
    // Segment size: VINT 2 bytes = 0x43 0xE8 (value = 0x03E8 = 1000)
    data[11] = 0x43;
    data[12] = 0xE8;

    let dev = device_from(data);
    let result = ebml_hint(&dev, 0);
    // total = 7 (header) + 4 (seg ID) + 2 (seg VINT) + 1000 (seg data) = 1013
    assert_eq!(result, Some(1013));
}

#[test]
fn ebml_unknown_size_returns_none() {
    let mut data = vec![0u8; 64];
    data[0..4].copy_from_slice(&[0x1A, 0x45, 0xDF, 0xA3]);
    data[4] = 0x82; // header size = 2
                    // Segment at offset 7
    data[7..11].copy_from_slice(&[0x18, 0x53, 0x80, 0x67]);
    // VINT "unknown" for 1-byte: 0xFF (value=0x7F)
    data[11] = 0xFF;

    let dev = device_from(data);
    assert_eq!(ebml_hint(&dev, 0), None);
}

#[test]
fn ebml_no_segment_returns_none() {
    let mut data = vec![0u8; 64];
    data[0..4].copy_from_slice(&[0x1A, 0x45, 0xDF, 0xA3]);
    data[4] = 0x82;
    // Wrong element at offset 7
    data[7..11].copy_from_slice(&[0x00, 0x00, 0x00, 0x00]);

    let dev = device_from(data);
    assert_eq!(ebml_hint(&dev, 0), None);
}
