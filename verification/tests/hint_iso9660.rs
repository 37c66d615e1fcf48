//! The iso9660 size hint.

use ferrite_carver::device::MemImage;
use ferrite_carver::size_hint::frames::{iso9660_hint};

const PVD_OFFSET: u64 = 32_768;
const VSS_LE_OFFSET: u64 = 80;
const LBS_LE_OFFSET: u64 = 128;

fn make_device_with_pvd(volume_blocks: u32, block_size: u16) -> MemImage {
    // ISO image needs at least PVD_OFFSET + 132 bytes.
    let size = PVD_OFFSET + 200;
    let mut data = vec![0u8; size as usize];

    // Write Volume Space Size (u32 LE) at PVD+80.
    let vss = volume_blocks.to_le_bytes();
    let vss_pos = (PVD_OFFSET + VSS_LE_OFFSET) as usize;
    data[vss_pos..vss_pos + 4].copy_from_slice(&vss);

    // Write Logical Block Size (u16 LE) at PVD+128.
    let lbs = block_size.to_le_bytes();
    let lbs_pos = (PVD_OFFSET + LBS_LE_OFFSET) as usize;
    data[lbs_pos..lbs_pos + 2].copy_from_slice(&lbs);

    MemImage::new(data, 512)
}

#[test]
fn iso9660_standard_2048_block() {
    // Typical CD-ROM: 350 000 blocks × 2048 = 716 800 000 bytes (~683 MiB).
    let device = make_device_with_pvd(350_000, 2048);
    let size = iso9660_hint(&device, 0).unwrap();
    assert_eq!(size, 350_000 * 2048);
}

#[test]
fn iso9660_zero_volume_blocks_returns_none() {
    let device = make_device_with_pvd(0, 2048);
    assert!(iso9660_hint(&device, 0).is_none());
}

#[test]
fn iso9660_bad_block_size_returns_none() {
    // Block size 999 is not a power of two — should be rejected.
    let device = make_device_with_pvd(100_000, 999);
    assert!(iso9660_hint(&device, 0).is_none());
}

#[test]
fn iso9660_nonzero_file_offset() {
    // Image starts 4096 bytes into the device (e.g. carved from a larger image).
    let base: u64 = 4096;
    let size = (PVD_OFFSET + 200 + base) as usize;
    let mut data = vec![0u8; size];

    let blocks: u32 = 200_000;
    let bsize: u16 = 2048;

    let vss_pos = (base + PVD_OFFSET + VSS_LE_OFFSET) as usize;
    data[vss_pos..vss_pos + 4].copy_from_slice(&blocks.to_le_bytes());

    let lbs_pos = (base + PVD_OFFSET + LBS_LE_OFFSET) as usize;
    data[lbs_pos..lbs_pos + 2].copy_from_slice(&bsize.to_le_bytes());

    let device = MemImage::new(data, 512);
    let result = iso9660_hint(&device, base).unwrap();
    assert_eq!(result, 200_000 * 2048);
}
