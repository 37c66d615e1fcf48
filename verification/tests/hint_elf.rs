//! The ELF size hint.

use ferrite_carver::device::MemImage;
use ferrite_carver::size_hint::structured::{elf_hint};

fn device_from(data: Vec<u8>) -> MemImage {
    MemImage::new(data, 512)
}

#[test]
fn elf64_le_basic() {
    // Craft a minimal 64-bit LE ELF.
    let mut data = vec![0u8; 8192];
    // ELF magic + class + data
    data[0..4].copy_from_slice(&[0x7F, 0x45, 0x4C, 0x46]); // \x7FELF
    data[4] = 2; // 64-bit
    data[5] = 1; // LE

    // e_phoff = 64 (u64 LE @32)
    data[32..40].copy_from_slice(&64u64.to_le_bytes());
    // e_phentsize = 56 (u16 LE @54)
    data[54..56].copy_from_slice(&56u16.to_le_bytes());
    // e_phnum = 1 (u16 LE @56)
    data[56..58].copy_from_slice(&1u16.to_le_bytes());

    // e_shoff = 4096 (u64 LE @40)
    data[40..48].copy_from_slice(&4096u64.to_le_bytes());
    // e_shentsize = 64 (u16 LE @58)
    data[58..60].copy_from_slice(&64u16.to_le_bytes());
    // e_shnum = 5 (u16 LE @60)
    data[60..62].copy_from_slice(&5u16.to_le_bytes());

    // Program header at 64: p_offset(u64 @8)=1024, p_filesz(u64 @32)=2048
    data[64 + 8..64 + 16].copy_from_slice(&1024u64.to_le_bytes());
    data[64 + 32..64 + 40].copy_from_slice(&2048u64.to_le_bytes());

    let dev = device_from(data);
    let result = elf_hint(&dev, 0);
    // section_table_end = 4096 + 64*5 = 4416
    // segment_extent = 1024 + 2048 = 3072
    // max = 4416
    assert_eq!(result, Some(4416));
}

#[test]
fn elf32_be_basic() {
    let mut data = vec![0u8; 4096];
    data[0..4].copy_from_slice(&[0x7F, 0x45, 0x4C, 0x46]);
    data[4] = 1; // 32-bit
    data[5] = 2; // BE

    // e_phoff = 52 (u32 BE @28)
    data[28..32].copy_from_slice(&52u32.to_be_bytes());
    // e_phentsize = 32 (u16 BE @42)
    data[42..44].copy_from_slice(&32u16.to_be_bytes());
    // e_phnum = 1 (u16 BE @44)
    data[44..46].copy_from_slice(&1u16.to_be_bytes());

    // e_shoff = 0 (no section table)
    // e_shnum = 0

    // Program header at 52: p_offset(u32 @4)=256, p_filesz(u32 @16)=512
    data[52 + 4..52 + 8].copy_from_slice(&256u32.to_be_bytes());
    data[52 + 16..52 + 20].copy_from_slice(&512u32.to_be_bytes());

    let dev = device_from(data);
    let result = elf_hint(&dev, 0);
    // max(segment: 256+512=768, ph_table: 52+32=84)
    assert_eq!(result, Some(768));
}

#[test]
fn elf_invalid_class_returns_none() {
    let mut data = vec![0u8; 512];
    data[0..4].copy_from_slice(&[0x7F, 0x45, 0x4C, 0x46]);
    data[4] = 3; // invalid class
    data[5] = 1;
    let dev = device_from(data);
    assert_eq!(elf_hint(&dev, 0), None);
}
