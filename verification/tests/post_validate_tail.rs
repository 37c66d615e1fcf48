//! Quality of an extracted file judged from its tail alone.

use ferrite_carver::post_validate::tail::validate_extracted;
use ferrite_carver::post_validate::CarveQuality;

// ── is_truncated short-circuit ────────────────────────────────────────────

#[test]
fn post_validate_truncated_flag_returns_truncated_regardless_of_ext() {
    assert_eq!(
        validate_extracted("jpg", &[0xFF, 0xD9], true),
        CarveQuality::Truncated
    );
    assert_eq!(
        validate_extracted("unknown", &[], true),
        CarveQuality::Truncated
    );
}

// ── JPEG ─────────────────────────────────────────────────────────────────

#[test]
fn post_validate_jpeg_complete_with_eoi_marker() {
    let tail = &[0x00u8, 0x01, 0xFF, 0xD9];
    assert_eq!(
        validate_extracted("jpg", tail, false),
        CarveQuality::Complete
    );
}

#[test]
fn post_validate_jpeg_corrupt_without_eoi() {
    let tail = &[0xFF, 0xD8, 0xFF, 0xE0, 0x00];
    assert_eq!(
        validate_extracted("jpg", tail, false),
        CarveQuality::Corrupt
    );
}

#[test]
fn post_validate_jpeg_corrupt_on_empty_data() {
    assert_eq!(validate_extracted("jpg", &[], false), CarveQuality::Corrupt);
}

#[test]
fn post_validate_jpeg_corrupt_when_only_one_byte() {
    assert_eq!(
        validate_extracted("jpg", &[0xD9], false),
        CarveQuality::Corrupt
    );
}

// ── PNG ──────────────────────────────────────────────────────────────────

#[test]
fn post_validate_png_complete_with_iend() {
    let mut tail = vec![0u8; 4];
    tail.extend_from_slice(&[
        0x00, 0x00, 0x00, 0x00, 0x49, 0x45, 0x4E, 0x44, 0xAE, 0x42, 0x60, 0x82,
    ]);
    assert_eq!(
        validate_extracted("png", &tail, false),
        CarveQuality::Complete
    );
}

#[test]
fn post_validate_png_corrupt_missing_iend() {
    let tail = &[
        0x89u8, 0x50, 0x4E, 0x47, 0x00, 0x00, 0x00, 0x00, 0x00, 0x00, 0x00, 0x00,
    ];
    assert_eq!(
        validate_extracted("png", tail, false),
        CarveQuality::Corrupt
    );
}

#[test]
fn post_validate_png_corrupt_on_empty() {
    assert_eq!(validate_extracted("png", &[], false), CarveQuality::Corrupt);
}

// ── GIF ──────────────────────────────────────────────────────────────────

#[test]
fn post_validate_gif_complete_with_trailer() {
    let tail = b"GIF89a\x3B";
    assert_eq!(
        validate_extracted("gif", tail, false),
        CarveQuality::Complete
    );
}

#[test]
fn post_validate_gif_corrupt_missing_trailer() {
    let tail = b"GIF89a";
    assert_eq!(
        validate_extracted("gif", tail, false),
        CarveQuality::Corrupt
    );
}

#[test]
fn post_validate_gif_corrupt_on_empty() {
    assert_eq!(validate_extracted("gif", &[], false), CarveQuality::Corrupt);
}

// ── PDF ──────────────────────────────────────────────────────────────────

#[test]
fn post_validate_pdf_complete_with_eof_marker() {
    let tail = b"%PDF-1.4\n...content...\n%%EOF\n";
    assert_eq!(
        validate_extracted("pdf", tail, false),
        CarveQuality::Complete
    );
}

#[test]
fn post_validate_pdf_corrupt_without_eof() {
    let tail = b"%PDF-1.4\n...content...";
    assert_eq!(
        validate_extracted("pdf", tail, false),
        CarveQuality::Corrupt
    );
}

#[test]
fn post_validate_pdf_complete_eof_within_last_1kb() {
    let mut tail = vec![0u8; 2000];
    // Put %%EOF at byte 1800 (within last 1 KiB of the 2000-byte tail).
    tail[1800..1805].copy_from_slice(b"%%EOF");
    assert_eq!(
        validate_extracted("pdf", &tail, false),
        CarveQuality::Complete
    );
}

#[test]
fn post_validate_pdf_corrupt_eof_outside_last_1kb() {
    let mut tail = vec![0u8; 2000];
    // Put %%EOF at byte 100 (more than 1 KiB from the end — not searched).
    tail[100..105].copy_from_slice(b"%%EOF");
    assert_eq!(
        validate_extracted("pdf", &tail, false),
        CarveQuality::Corrupt
    );
}

// ── ZIP / EOCD ────────────────────────────────────────────────────────────

#[test]
fn post_validate_zip_complete_with_eocd() {
    let mut tail = vec![0u8; 32];
    tail[10..14].copy_from_slice(&[0x50, 0x4B, 0x05, 0x06]);
    assert_eq!(
        validate_extracted("zip", &tail, false),
        CarveQuality::Complete
    );
}

#[test]
fn post_validate_zip_corrupt_missing_eocd() {
    let tail = b"PK\x03\x04some zip content without central dir";
    assert_eq!(
        validate_extracted("zip", tail, false),
        CarveQuality::Corrupt
    );
}

#[test]
fn post_validate_zip_complete_on_ole_extension() {
    let mut tail = vec![0u8; 32];
    tail[0..4].copy_from_slice(&[0x50, 0x4B, 0x05, 0x06]);
    assert_eq!(
        validate_extracted("ole", &tail, false),
        CarveQuality::Complete
    );
}

// ── Unknown formats ──────────────────────────────────────────────────────

#[test]
fn post_validate_unknown_format_returns_unknown() {
    assert_eq!(
        validate_extracted("mp4", &[0u8; 32], false),
        CarveQuality::Unknown
    );
    assert_eq!(
        validate_extracted("mkv", &[0u8; 32], false),
        CarveQuality::Unknown
    );
    assert_eq!(
        validate_extracted("avi", &[0u8; 32], false),
        CarveQuality::Unknown
    );
}
