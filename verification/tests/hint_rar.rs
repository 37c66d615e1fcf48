//! The RAR size hint.

use ferrite_carver::device::MemImage;
use ferrite_carver::size_hint::structured::{rar_hint, read_rar5_vint};

fn device_from(data: Vec<u8>) -> MemImage {
    MemImage::new(data, 512)
}

#[test]
fn rar4_end_of_archive() {
    // RAR4 signature (7 bytes) + one end-of-archive block.
    let mut data = vec![0u8; 512];
    // RAR4 magic
    data[0..7].copy_from_slice(b"Rar!\x1A\x07\x00");
    // End-of-archive block at offset 7:
    // CRC(2) + TYPE(1) + FLAGS(2) + SIZE(2) = 7 bytes
    // HEAD_TYPE = 0x7B, HEAD_FLAGS = 0x4000 (fixed per spec), HEAD_SIZE = 7
    data[9] = 0x7B; // HEAD_TYPE
    data[10..12].copy_from_slice(&0x4000u16.to_le_bytes()); // HEAD_FLAGS
    data[12..14].copy_from_slice(&7u16.to_le_bytes()); // HEAD_SIZE

    let dev = device_from(data);
    let result = rar_hint(&dev, 0);
    // 7 (sig) + 7 (block) = 14
    assert_eq!(result, Some(14));
}

#[test]
fn rar4_with_data_block() {
    let mut data = vec![0u8; 2048];
    data[0..7].copy_from_slice(b"Rar!\x1A\x07\x00");
    // Data block at offset 7:
    // TYPE = 0x74 (FILE_HEAD), FLAGS = 0x8000 (has ADD_SIZE), SIZE = 32
    data[9] = 0x74;
    data[10..12].copy_from_slice(&0x8000u16.to_le_bytes());
    data[12..14].copy_from_slice(&32u16.to_le_bytes());
    // ADD_SIZE = 500 at offset 7+7=14
    data[14..18].copy_from_slice(&500u32.to_le_bytes());

    // End block at 7 + 32 + 500 = 539:
    data[541] = 0x7B;
    data[542..544].copy_from_slice(&0x0000u16.to_le_bytes());
    data[544..546].copy_from_slice(&7u16.to_le_bytes());

    let dev = device_from(data);
    let result = rar_hint(&dev, 0);
    // 7 (sig) + 32+500 (data block) + 7 (end block) = 546
    assert_eq!(result, Some(546));
}

#[test]
fn rar5_end_of_archive() {
    // RAR5 signature (8 bytes) + end-of-archive block.
    let mut data = vec![0u8; 512];
    data[0..8].copy_from_slice(b"Rar!\x1A\x07\x01\x00");
    // End-of-archive block at offset 8:
    // CRC32(4) + header_size(vint=1 byte, value=3) + type(vint=1, value=5) + flags(vint=1, value=0)
    let off = 8;
    data[off..off + 4].copy_from_slice(&[0x00; 4]); // CRC32
    data[off + 4] = 3; // header_size = 3 (covers type+flags+nothing else)
    data[off + 5] = 5; // header_type = 5 (end of archive)
    data[off + 6] = 0; // header_flags = 0

    let dev = device_from(data);
    let result = rar_hint(&dev, 0);
    // 8 (sig) + 4(crc) + 1(hdr_size_vint) + 3(header body) = 8 + 8 = 16
    assert_eq!(result, Some(16));
}

#[test]
fn rar5_vint_parsing() {
    // Single byte: 0x05 → value=5, consumed=1
    assert_eq!(read_rar5_vint(&[0x05], 0), Some((5, 1)));
    // Multi-byte: 0x80|0x01 0x01 → (1) | (1 << 7) = 129
    assert_eq!(read_rar5_vint(&[0x81, 0x01], 0), Some((129, 2)));
}

#[test]
fn rar_non_rar_returns_none() {
    let data = vec![0u8; 512];
    let dev = device_from(data);
    assert_eq!(rar_hint(&dev, 0), None);
}
