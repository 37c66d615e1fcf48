//! The ADTS size hint.

use ferrite_carver::device::MemImage;
use ferrite_carver::size_hint::frames::{adts_hint};

const MIN_FRAMES: u32 = 8;
const MIN_FRAME_LEN: usize = 7;

/// Build a minimal ADTS frame:
///   byte 0: 0xFF
///   byte 1: 0xF1 (MPEG-4, layer=00, protection_absent=1)
///   byte 2: profile+SFI+private+channel (arbitrary valid)
///   bytes 3-5: encode `frame_len` in the 13-bit field
///   byte 6: buffer_fullness (0x1F = VBR)
fn make_adts_frame(frame_len: usize) -> Vec<u8> {
    assert!((7..=8191).contains(&frame_len));
    let mut f = vec![0u8; frame_len];
    f[0] = 0xFF;
    f[1] = 0xF1; // MPEG-4, no CRC
    f[2] = 0x50; // profile=1, SFI=4 (44100Hz), channel=2
                 // Encode frame_len into bits [30:18] of bytes 3-5.
    f[3] = ((frame_len >> 11) & 0x03) as u8;
    f[4] = ((frame_len >> 3) & 0xFF) as u8;
    f[5] = (((frame_len & 0x07) << 5) | 0x1F) as u8; // low 3 bits + fullness=VBR
    f[6] = 0xFC; // number_of_raw_data_blocks=0
    f
}

fn make_device_with_frames(n: usize, frame_len: usize) -> MemImage {
    let mut data: Vec<u8> = Vec::new();
    for _ in 0..n {
        data.extend_from_slice(&make_adts_frame(frame_len));
    }
    MemImage::new(data, 512)
}

#[test]
fn eight_frames_produces_size() {
    let frame_len = 512;
    let dev = make_device_with_frames(8, frame_len);
    let result = adts_hint(&dev, 0);
    assert_eq!(result, Some((8 * frame_len) as u64));
}

#[test]
fn ten_frames_produces_correct_size() {
    let frame_len = 1024;
    let dev = make_device_with_frames(10, frame_len);
    let result = adts_hint(&dev, 0);
    assert_eq!(result, Some((10 * frame_len) as u64));
}

#[test]
fn fewer_than_min_frames_returns_none() {
    let frame_len = 512;
    let dev = make_device_with_frames(7, frame_len); // MIN_FRAMES = 8
    let result = adts_hint(&dev, 0);
    assert!(
        result.is_none(),
        "7 frames should return None (below MIN_FRAMES)"
    );
}

#[test]
fn invalid_sync_after_valid_frames_stops_walk() {
    // 10 valid frames followed by garbage — ≥ MIN_FRAMES so returns a size.
    let frame_len = 256;
    let mut data: Vec<u8> = Vec::new();
    for _ in 0..10 {
        data.extend_from_slice(&make_adts_frame(frame_len));
    }
    data.extend_from_slice(&[0x00u8; 256]); // garbage — no sync
    let dev = MemImage::new(data, 512);
    let result = adts_hint(&dev, 0);
    assert_eq!(result, Some((10 * frame_len) as u64));
}

#[test]
fn inconsistent_sfi_terminates_walk() {
    // First 8 frames have sfi=4 (44100 Hz); frame 9 has sfi=3 (48000 Hz).
    // The sfi change should stop the walk at 8 frames and return a size.
    let frame_len = 256;
    let mut data: Vec<u8> = Vec::new();
    for _ in 0..8 {
        data.extend_from_slice(&make_adts_frame(frame_len));
    }
    // Frame 9: change sfi from 4 (0b0100) to 3 (0b0011) in b2[5:2].
    let mut bad_frame = make_adts_frame(frame_len);
    bad_frame[2] = (bad_frame[2] & 0xC3) | (3u8 << 2); // sfi=3
    data.extend_from_slice(&bad_frame);
    let dev = MemImage::new(data, 512);
    // Walk stops at frame 9; 8 frames were valid → returns size for 8 frames.
    assert_eq!(adts_hint(&dev, 0), Some((8 * frame_len) as u64));
}

#[test]
fn invalid_sfi_in_first_frame_returns_none() {
    // sfi = 14 (reserved/invalid) in the very first frame → None.
    let frame_len = 256;
    let mut data: Vec<u8> = Vec::new();
    for _ in 0..10 {
        let mut f = make_adts_frame(frame_len);
        f[2] = (f[2] & 0xC3) | (14u8 << 2); // sfi=14 (invalid)
        data.extend_from_slice(&f);
    }
    let dev = MemImage::new(data, 512);
    assert!(adts_hint(&dev, 0).is_none());
}

#[test]
fn zero_frame_len_in_header_returns_none() {
    // Synthesise a fake ADTS header with frame_len=0 — should return None.
    let mut bad = vec![0u8; 16];
    bad[0] = 0xFF;
    bad[1] = 0xF1;
    // frame_len field = 0 (bytes 3-5 stay 0x00) < MIN_FRAME_LEN → None
    let dev = MemImage::new(bad, 512);
    assert!(adts_hint(&dev, 0).is_none());
}

#[test]
fn offset_walk_starts_at_file_offset() {
    // Put 8 valid frames at byte 100, preceded by zeros.
    let frame_len = 512;
    let prefix = vec![0u8; 100];
    let mut data = prefix.clone();
    for _ in 0..8 {
        data.extend_from_slice(&make_adts_frame(frame_len));
    }
    let dev = MemImage::new(data, 512);
    // Walk starting at offset 100; result is relative to file_offset.
    let result = adts_hint(&dev, 100);
    assert_eq!(result, Some((8 * frame_len) as u64));
}
