//! The GIF size hint.

use ferrite_carver::device::MemImage;
use ferrite_carver::size_hint::frames::{gif_hint};

/// Build a minimal valid GIF89a with a single 1×1 image.
fn make_gif(extra_lzw: &[u8]) -> Vec<u8> {
    let mut buf = Vec::new();

    // Header.
    buf.extend_from_slice(b"GIF89a");

    // Logical Screen Descriptor: 1×1, no GCT.
    buf.extend_from_slice(&[
        0x01, 0x00, // width = 1
        0x01, 0x00, // height = 1
        0x00, // packed: no GCT
        0x00, // bg color
        0x00, // pixel aspect ratio
    ]);

    // Image descriptor: 0x2C, left=0, top=0, w=1, h=1, packed=0.
    buf.push(0x2C);
    buf.extend_from_slice(&[0x00, 0x00, 0x00, 0x00, 0x01, 0x00, 0x01, 0x00, 0x00]);

    // LZW minimum code size.
    buf.push(0x02);

    // Sub-block: 2 bytes of LZW data.
    buf.push(0x02); // sub-block length
    buf.push(0x4C); // LZW data byte 1
    buf.push(0x01); // LZW data byte 2

    // Extra sub-block data (for testing false footer matches).
    if !extra_lzw.is_empty() {
        let len = extra_lzw.len().min(255) as u8;
        buf.push(len);
        buf.extend_from_slice(&extra_lzw[..len as usize]);
    }

    // Sub-block terminator.
    buf.push(0x00);

    // Trailer.
    buf.push(0x3B);

    buf
}

#[test]
fn gif_hint_minimal() {
    let data = make_gif(&[]);
    let expected = data.len() as u64;
    let dev = MemImage::new(data, 512);
    assert_eq!(gif_hint(&dev, 0, 10_485_760), Some(expected));
}

#[test]
fn gif_hint_with_offset() {
    let mut data = vec![0xFF; 200]; // junk prefix
    let gif = make_gif(&[]);
    let expected = gif.len() as u64;
    data.extend_from_slice(&gif);
    let dev = MemImage::new(data, 512);
    assert_eq!(gif_hint(&dev, 200, 10_485_760), Some(expected));
}

#[test]
fn gif_hint_false_footer_in_lzw() {
    // LZW data contains `00 3B` — should NOT cause premature stop.
    let data = make_gif(&[0x00, 0x3B, 0xAA, 0xBB]);
    let expected = data.len() as u64;
    let dev = MemImage::new(data, 512);
    assert_eq!(gif_hint(&dev, 0, 10_485_760), Some(expected));
}

#[test]
fn gif_hint_with_gce_extension() {
    let mut buf = Vec::new();

    // Header + LSD (no GCT).
    buf.extend_from_slice(b"GIF89a");
    buf.extend_from_slice(&[0x01, 0x00, 0x01, 0x00, 0x00, 0x00, 0x00]);

    // Graphic Control Extension.
    buf.push(0x21); // extension introducer
    buf.push(0xF9); // GCE label
    buf.push(0x04); // block size
    buf.extend_from_slice(&[0x00, 0x00, 0x00, 0x00]); // 4 bytes of GCE data
    buf.push(0x00); // block terminator

    // Image descriptor.
    buf.push(0x2C);
    buf.extend_from_slice(&[0x00, 0x00, 0x00, 0x00, 0x01, 0x00, 0x01, 0x00, 0x00]);
    buf.push(0x02); // LZW min code
    buf.push(0x02); // sub-block len
    buf.push(0x4C);
    buf.push(0x01);
    buf.push(0x00); // terminator
    buf.push(0x3B); // trailer

    let expected = buf.len() as u64;
    let dev = MemImage::new(buf, 512);
    assert_eq!(gif_hint(&dev, 0, 10_485_760), Some(expected));
}

#[test]
fn gif_hint_with_gct() {
    let mut buf = Vec::new();

    // Header.
    buf.extend_from_slice(b"GIF89a");

    // LSD: has GCT with 4 colors (size field = 1 → 2^(1+1) = 4).
    buf.extend_from_slice(&[
        0x01, 0x00, 0x01, 0x00,
        0x81, // GCT flag=1, size=1 (4 colors)
        0x00, 0x00,
    ]);

    // GCT: 4 × 3 = 12 bytes.
    buf.extend_from_slice(&[0u8; 12]);

    // Image + LZW + trailer.
    buf.push(0x2C);
    buf.extend_from_slice(&[0x00, 0x00, 0x00, 0x00, 0x01, 0x00, 0x01, 0x00, 0x00]);
    buf.push(0x02);
    buf.push(0x02);
    buf.push(0x4C);
    buf.push(0x01);
    buf.push(0x00);
    buf.push(0x3B);

    let expected = buf.len() as u64;
    let dev = MemImage::new(buf, 512);
    assert_eq!(gif_hint(&dev, 0, 10_485_760), Some(expected));
}

#[test]
fn gif_hint_truncated() {
    // GIF with no trailer — should return None.
    let mut data = make_gif(&[]);
    data.pop(); // remove trailer 0x3B
    let dev = MemImage::new(data, 512);
    assert_eq!(gif_hint(&dev, 0, 10_485_760), None);
}
