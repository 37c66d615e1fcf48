//! The AU and MIDI size hints.

use ferrite_carver::device::MemImage;
use ferrite_carver::size_hint::frames::{au_hint, midi_hint};

fn au_header(data_offset: u32, data_size: u32) -> Vec<u8> {
    let mut d = vec![0u8; 64];
    d[0..4].copy_from_slice(b".snd");
    d[4..8].copy_from_slice(&data_offset.to_be_bytes());
    d[8..12].copy_from_slice(&data_size.to_be_bytes());
    d
}

#[test]
fn au_total_is_offset_plus_size() {
    let dev = MemImage::new(au_header(24, 1000), 512);
    assert_eq!(au_hint(&dev, 0), Some(1024));
}

#[test]
fn au_streaming_size_gives_none() {
    let dev = MemImage::new(au_header(24, 0xFFFF_FFFF), 512);
    assert_eq!(au_hint(&dev, 0), None);
}

#[test]
fn au_total_below_header_gives_none() {
    let dev = MemImage::new(au_header(8, 8), 512);
    assert_eq!(au_hint(&dev, 0), None);
}

#[test]
fn au_cut_header_gives_none() {
    let dev = MemImage::new(vec![0x2E, 0x73, 0x6E, 0x64, 0, 0], 512);
    assert_eq!(au_hint(&dev, 0), None);
}

fn midi(tracks: &[&[u8]]) -> Vec<u8> {
    let mut d = Vec::new();
    d.extend_from_slice(b"MThd");
    d.extend_from_slice(&6u32.to_be_bytes());
    d.extend_from_slice(&1u16.to_be_bytes());
    d.extend_from_slice(&(tracks.len() as u16).to_be_bytes());
    d.extend_from_slice(&96u16.to_be_bytes());
    for t in tracks {
        d.extend_from_slice(b"MTrk");
        d.extend_from_slice(&(t.len() as u32).to_be_bytes());
        d.extend_from_slice(t);
    }
    d
}

#[test]
fn midi_sums_header_and_tracks() {
    let mut data = midi(&[&[0x00, 0xFF, 0x2F, 0x00], &[1, 2, 3, 4, 5, 6, 7, 8, 9, 10]]);
    data.extend_from_slice(&[0xAA; 100]);
    let dev = MemImage::new(data, 512);
    assert_eq!(midi_hint(&dev, 0), Some(14 + 8 + 4 + 8 + 10));
}

#[test]
fn midi_at_offset() {
    let mut data = vec![0u8; 300];
    data.extend_from_slice(&midi(&[&[0u8; 20]]));
    let dev = MemImage::new(data, 512);
    assert_eq!(midi_hint(&dev, 300), Some(14 + 8 + 20));
}

#[test]
fn midi_bad_track_magic_gives_none() {
    let mut data = midi(&[&[0u8; 4]]);
    data[14..18].copy_from_slice(b"XTrk");
    let dev = MemImage::new(data, 512);
    assert_eq!(midi_hint(&dev, 0), None);
}

#[test]
fn midi_missing_track_gives_none() {
    let mut data = midi(&[&[0u8; 4]]);
    // Claim two tracks while only one follows.
    data[10..12].copy_from_slice(&2u16.to_be_bytes());
    let dev = MemImage::new(data, 512);
    assert_eq!(midi_hint(&dev, 0), None);
}

#[test]
fn midi_wrong_header_length_gives_none() {
    let mut data = midi(&[&[0u8; 4]]);
    data[4..8].copy_from_slice(&7u32.to_be_bytes());
    let dev = MemImage::new(data, 512);
    assert_eq!(midi_hint(&dev, 0), None);
}
