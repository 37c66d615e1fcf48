//! The PE size hint.

use ferrite_carver::device::MemImage;
use ferrite_carver::size_hint::structured::{pe_hint};

fn device_from(data: Vec<u8>) -> MemImage {
    MemImage::new(data, 512)
}

#[test]
fn pe_basic_two_sections() {
    // Craft a minimal PE with 2 sections.
    let mut data = vec![0u8; 4096];
    // MZ header
    data[0..2].copy_from_slice(b"MZ");
    // e_lfanew at offset 60 = 128
    data[60..64].copy_from_slice(&128u32.to_le_bytes());

    // PE signature at 128
    data[128..132].copy_from_slice(b"PE\0\0");
    // COFF header at 132: Machine(2), NumberOfSections(2), ...
    data[134..136].copy_from_slice(&2u16.to_le_bytes()); // num_sections
                                                         // SizeOfOptionalHeader at 132+16=148
    data[148..150].copy_from_slice(&112u16.to_le_bytes()); // typical optional header size

    // Section table at 128 + 24 + 112 = 264
    // Section 0: SizeOfRawData=512 @16, PointerToRawData=1024 @20
    let sec0 = 264;
    data[sec0 + 16..sec0 + 20].copy_from_slice(&512u32.to_le_bytes());
    data[sec0 + 20..sec0 + 24].copy_from_slice(&1024u32.to_le_bytes());

    // Section 1: SizeOfRawData=256 @16, PointerToRawData=2048 @20
    let sec1 = 264 + 40;
    data[sec1 + 16..sec1 + 20].copy_from_slice(&256u32.to_le_bytes());
    data[sec1 + 20..sec1 + 24].copy_from_slice(&2048u32.to_le_bytes());

    let dev = device_from(data);
    let result = pe_hint(&dev, 0);
    // max(1024+512=1536, 2048+256=2304) = 2304
    assert_eq!(result, Some(2304));
}

#[test]
fn pe_invalid_lfanew_returns_none() {
    let mut data = vec![0u8; 512];
    data[0..2].copy_from_slice(b"MZ");
    // e_lfanew = 0 (invalid)
    data[60..64].copy_from_slice(&0u32.to_le_bytes());
    let dev = device_from(data);
    assert_eq!(pe_hint(&dev, 0), None);
}

#[test]
fn pe_bad_pe_sig_returns_none() {
    let mut data = vec![0u8; 4096];
    data[0..2].copy_from_slice(b"MZ");
    data[60..64].copy_from_slice(&128u32.to_le_bytes());
    data[128..132].copy_from_slice(b"XX\0\0"); // wrong signature
    let dev = device_from(data);
    assert_eq!(pe_hint(&dev, 0), None);
}
