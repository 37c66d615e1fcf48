//! The ASF size hint.

use ferrite_carver::device::MemImage;
use ferrite_carver::size_hint::frames::{asf_hint};

/// GUID of the ASF header object.
const HDR_GUID: [u8; 16] = [
    0x30, 0x26, 0xB2, 0x75, 0x8E, 0x66, 0xCF, 0x11, 0xA6, 0xD9, 0x00, 0xAA, 0x00, 0x62, 0xCE, 0x6C,
];

/// GUID of the ASF file properties object.
const FPO_GUID: [u8; 16] = [
    0xA1, 0xDC, 0xAB, 0x8C, 0x47, 0xA9, 0xCF, 0x11, 0x8E, 0xE4, 0x00, 0xC0, 0x0C, 0x20, 0x53, 0x65,
];

/// Build a minimal ASF buffer containing one File Properties Object with
/// the given `file_size`.
fn make_asf(file_size: u64) -> Vec<u8> {
    // Outer header: 30 bytes + one sub-object of 48 bytes = 78 bytes total.
    let header_size: u64 = 78;
    let num_headers: u32 = 1;

    let fpo_size: u64 = 48; // 24 header + 16 File ID GUID + 8 file size

    let mut buf = vec![0u8; header_size as usize];

    // Outer ASF Header Object
    buf[..16].copy_from_slice(&HDR_GUID);
    buf[16..24].copy_from_slice(&header_size.to_le_bytes());
    buf[24..28].copy_from_slice(&num_headers.to_le_bytes());
    buf[28] = 0x01;
    buf[29] = 0x02;

    // File Properties Object at offset 30
    buf[30..46].copy_from_slice(&FPO_GUID);
    buf[46..54].copy_from_slice(&fpo_size.to_le_bytes());
    // File ID GUID (16 bytes) at 54 — leave as zeros
    // File Size at offset 40 within the FPO = absolute offset 30 + 40 = 70
    buf[70..78].copy_from_slice(&file_size.to_le_bytes());

    buf
}

#[test]
fn asf_reads_file_size() {
    let expected: u64 = 512 * 1024 * 1024; // 512 MiB
    let data = make_asf(expected);
    let device = MemImage::new(data, 512);
    assert_eq!(asf_hint(&device, 0), Some(expected));
}

#[test]
fn asf_zero_file_size_returns_none() {
    let data = make_asf(0);
    let device = MemImage::new(data, 512);
    assert!(asf_hint(&device, 0).is_none());
}

#[test]
fn asf_wrong_guid_returns_none() {
    let mut data = make_asf(1_000_000);
    data[0] = 0xFF; // corrupt GUID
    let device = MemImage::new(data, 512);
    assert!(asf_hint(&device, 0).is_none());
}

#[test]
fn asf_nonzero_file_offset() {
    let base: u64 = 4096;
    let expected: u64 = 256 * 1024 * 1024;
    let asf_buf = make_asf(expected);
    let mut data = vec![0u8; base as usize + asf_buf.len()];
    data[base as usize..].copy_from_slice(&asf_buf);
    let device = MemImage::new(data, 512);
    assert_eq!(asf_hint(&device, base), Some(expected));
}
