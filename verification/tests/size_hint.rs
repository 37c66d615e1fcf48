//! Size hints: the true file size read from fields embedded in the file.

use ferrite_carver::device::MemImage;
use ferrite_carver::signature::{Signature, SizeHint};
use ferrite_carver::size_hint::read_size_hint;

fn device_from(data: Vec<u8>) -> MemImage {
    MemImage::new(data, 512)
}

fn dummy_sig() -> Signature {
    Signature {
        name: "Test".into(),
        extension: "bin".into(),
        header: vec![Some(0xFF)],
        footer: vec![],
        footer_last: false,
        max_size: 1024,
        size_hint: None,
        min_size: 0,
        pre_validate: None,
        header_offset: 0,
        min_hit_gap: 0,
        suppress_group: None,
        footer_extra: 0,
    }
}

#[test]
fn isobmff_two_box_file() {
    // Craft a minimal ISOBMFF byte stream:
    //   ftyp box: size=24 (bytes 0-23)
    //   moov box: size=16 (bytes 24-39)
    // Expected total = 40 bytes.
    let mut data = vec![0u8; 512];
    // ftyp box
    data[0..4].copy_from_slice(&24u32.to_be_bytes()); // size
    data[4..8].copy_from_slice(b"ftyp"); // type
                                         // moov box
    data[24..28].copy_from_slice(&16u32.to_be_bytes()); // size
    data[28..32].copy_from_slice(b"moov"); // type
                                           // byte 40 onward: zeroes — non-printable stops the walker

    let dev = device_from(data);
    let _ = dummy_sig(); // just to use the import
    let result = read_size_hint(&dev, 0, &SizeHint::Isobmff, u64::MAX);
    assert_eq!(
        result,
        Some(40),
        "expected 40 bytes from two-box ISOBMFF file"
    );
}

#[test]
fn isobmff_invalid_type_stops_walk() {
    // A box whose type contains 0x00 bytes should stop the walker.
    let mut data = vec![0u8; 512];
    data[0..4].copy_from_slice(&16u32.to_be_bytes());
    data[4..8].copy_from_slice(b"ftyp");
    // Second box has a non-printable type byte.
    data[16..20].copy_from_slice(&16u32.to_be_bytes());
    data[20] = 0x01; // not printable ASCII
    data[21..24].copy_from_slice(b"bad");

    let dev = device_from(data);
    let result = read_size_hint(&dev, 0, &SizeHint::Isobmff, u64::MAX);
    // Walker should stop after the first valid box.
    assert_eq!(result, Some(16));
}

#[test]
fn isobmff_size_zero_stops_walk() {
    // A box with size=0 (EOF-extending) stops the walk; accumulated total returned.
    let mut data = vec![0u8; 512];
    data[0..4].copy_from_slice(&16u32.to_be_bytes());
    data[4..8].copy_from_slice(b"ftyp");
    data[16..20].copy_from_slice(&0u32.to_be_bytes()); // size=0 → EOF-extending
    data[20..24].copy_from_slice(b"mdat");

    let dev = device_from(data);
    let result = read_size_hint(&dev, 0, &SizeHint::Isobmff, u64::MAX);
    // Should stop at the size-0 box and return the 16 bytes accumulated so far.
    assert_eq!(result, Some(16));
}

#[test]
fn isobmff_no_valid_boxes_returns_none() {
    // All-zero data has no valid ISOBMFF boxes.
    let data = vec![0u8; 512];
    let dev = device_from(data);
    let result = read_size_hint(&dev, 0, &SizeHint::Isobmff, u64::MAX);
    assert_eq!(result, None);
}

// ── TIFF IFD walker tests ──────────────────────────────────────────────────

/// Build a minimal little-endian TIFF header + IFD0 at offset 8.
///
/// IFD0 has two entries:
///   0x0111 StripOffsets  (LONG, count=1, value=strip_off)
///   0x0117 StripByteCounts (LONG, count=1, value=strip_len)
fn make_tiff_le_single_strip(strip_off: u32, strip_len: u32) -> Vec<u8> {
    let mut data = vec![0u8; 512];
    // TIFF header
    data[0..2].copy_from_slice(b"II"); // little-endian
    data[2..4].copy_from_slice(&42u16.to_le_bytes()); // TIFF magic
    data[4..8].copy_from_slice(&8u32.to_le_bytes()); // IFD0 at offset 8

    // IFD0: 2 entries
    data[8..10].copy_from_slice(&2u16.to_le_bytes());
    // Entry 0: StripOffsets
    data[10..12].copy_from_slice(&0x0111u16.to_le_bytes()); // tag
    data[12..14].copy_from_slice(&4u16.to_le_bytes()); // type LONG
    data[14..18].copy_from_slice(&1u32.to_le_bytes()); // count
    data[18..22].copy_from_slice(&strip_off.to_le_bytes()); // value
                                                            // Entry 1: StripByteCounts
    data[22..24].copy_from_slice(&0x0117u16.to_le_bytes());
    data[24..26].copy_from_slice(&4u16.to_le_bytes());
    data[26..30].copy_from_slice(&1u32.to_le_bytes());
    data[30..34].copy_from_slice(&strip_len.to_le_bytes());
    // Next IFD offset = 0
    data[34..38].copy_from_slice(&0u32.to_le_bytes());
    data
}

#[test]
fn tiff_single_strip_extent() {
    // strip at offset 100, length 1000 → file size = 1100
    let data = make_tiff_le_single_strip(100, 1000);
    let dev = device_from(data);
    let result = read_size_hint(&dev, 0, &SizeHint::Tiff, u64::MAX);
    assert_eq!(result, Some(1100), "single-strip TIFF extent");
}

#[test]
fn tiff_subifd_extent() {
    // IFD0 → SubIFD entry → sub-IFD with large strip.
    // Layout:
    //   0..8   TIFF header (IFD0 at 8)
    //   8..26  IFD0 (1 entry: SubIFD at offset 32)
    //   32..62 Sub-IFD (2 entries: StripOffsets + StripByteCounts)
    // Strip at offset 1024, length 20000 → expected = 21024
    let mut data = vec![0u8; 4096];
    // TIFF header
    data[0..2].copy_from_slice(b"II");
    data[2..4].copy_from_slice(&42u16.to_le_bytes());
    data[4..8].copy_from_slice(&8u32.to_le_bytes()); // IFD0 at 8

    // IFD0: 1 entry (SubIFD, tag 0x014A)
    data[8..10].copy_from_slice(&1u16.to_le_bytes());
    data[10..12].copy_from_slice(&0x014Au16.to_le_bytes()); // tag
    data[12..14].copy_from_slice(&4u16.to_le_bytes()); // LONG
    data[14..18].copy_from_slice(&1u32.to_le_bytes()); // count = 1
    data[18..22].copy_from_slice(&32u32.to_le_bytes()); // sub-IFD at offset 32
    data[22..26].copy_from_slice(&0u32.to_le_bytes()); // next IFD = 0

    // Sub-IFD at offset 32: 2 entries
    data[32..34].copy_from_slice(&2u16.to_le_bytes());
    // StripOffsets
    data[34..36].copy_from_slice(&0x0111u16.to_le_bytes());
    data[36..38].copy_from_slice(&4u16.to_le_bytes());
    data[38..42].copy_from_slice(&1u32.to_le_bytes());
    data[42..46].copy_from_slice(&1024u32.to_le_bytes()); // strip at 1024
                                                          // StripByteCounts
    data[46..48].copy_from_slice(&0x0117u16.to_le_bytes());
    data[48..50].copy_from_slice(&4u16.to_le_bytes());
    data[50..54].copy_from_slice(&1u32.to_le_bytes());
    data[54..58].copy_from_slice(&20000u32.to_le_bytes()); // length 20000
    data[58..62].copy_from_slice(&0u32.to_le_bytes()); // next IFD = 0

    let dev = device_from(data);
    let result = read_size_hint(&dev, 0, &SizeHint::Tiff, u64::MAX);
    assert_eq!(result, Some(21024), "SubIFD strip extent");
}

#[test]
fn tiff_invalid_byte_order_returns_none() {
    let mut data = vec![0u8; 64];
    data[0..2].copy_from_slice(b"XX"); // invalid byte order marker
    let dev = device_from(data);
    let result = read_size_hint(&dev, 0, &SizeHint::Tiff, u64::MAX);
    assert_eq!(result, None);
}

// ── RAF size hint tests ────────────────────────────────────────────────────

#[test]
fn raf_cfa_dominates() {
    // JPEG: offset=200, len=500 (end=700)
    // CFA:  offset=1000, len=5000 (end=6000) ← dominant
    let mut data = vec![0u8; 512];
    data[84..88].copy_from_slice(&200u32.to_be_bytes());
    data[88..92].copy_from_slice(&500u32.to_be_bytes());
    data[92..96].copy_from_slice(&1000u32.to_be_bytes());
    data[96..100].copy_from_slice(&5000u32.to_be_bytes());
    let dev = device_from(data);
    let result = read_size_hint(&dev, 0, &SizeHint::Raf, u64::MAX);
    assert_eq!(result, Some(6000));
}

#[test]
fn raf_jpeg_dominates() {
    // JPEG: offset=5000, len=15000 (end=20000) ← dominant
    // CFA:  offset=100, len=1000 (end=1100)
    let mut data = vec![0u8; 512];
    data[84..88].copy_from_slice(&5000u32.to_be_bytes());
    data[88..92].copy_from_slice(&15000u32.to_be_bytes());
    data[92..96].copy_from_slice(&100u32.to_be_bytes());
    data[96..100].copy_from_slice(&1000u32.to_be_bytes());
    let dev = device_from(data);
    let result = read_size_hint(&dev, 0, &SizeHint::Raf, u64::MAX);
    assert_eq!(result, Some(20000));
}

#[test]
fn raf_all_zero_returns_none() {
    let data = vec![0u8; 512];
    let dev = device_from(data);
    let result = read_size_hint(&dev, 0, &SizeHint::Raf, u64::MAX);
    assert_eq!(result, None);
}

#[test]
fn linear_hint_reads_field_plus_add() {
    let mut data = vec![0u8; 32];
    data[8..12].copy_from_slice(&[0x10, 0x00, 0x00, 0x00]);
    let dev = device_from(data.clone());
    let le = SizeHint::Linear { offset: 4, len: 4, little_endian: true, add: 8 };
    assert_eq!(read_size_hint(&dev, 4, &le, 0), Some(0x18));
    let be = SizeHint::Linear { offset: 4, len: 4, little_endian: false, add: 0 };
    assert_eq!(read_size_hint(&dev, 4, &be, 0), Some(0x1000_0000));
    let odd = SizeHint::Linear { offset: 4, len: 3, little_endian: true, add: 0 };
    assert_eq!(read_size_hint(&dev, 4, &odd, 0), None);
    let short = SizeHint::Linear { offset: 28, len: 8, little_endian: true, add: 0 };
    assert_eq!(read_size_hint(&dev, 0, &short, 0), None);
    let saturated = SizeHint::Linear { offset: 0, len: 8, little_endian: true, add: u64::MAX };
    data[0..8].copy_from_slice(&[1, 0, 0, 0, 0, 0, 0, 0]);
    assert_eq!(read_size_hint(&device_from(data), 0, &saturated, 0), Some(u64::MAX));
}
