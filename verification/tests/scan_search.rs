//! Searching one chunk for the hits of one signature.

use ferrite_carver::pre_validate::PreValidate;
use ferrite_carver::scan_search::{find_all, zip_local_header_is_file};
use ferrite_carver::signature::Signature;

/// Build a minimal ZIP local file header.
fn make_zip_lfh(fname: &str, version_needed: u16, compression: u16) -> Vec<u8> {
    let fname_bytes = fname.as_bytes();
    let mut buf = vec![0u8; 30 + fname_bytes.len()];
    buf[0..4].copy_from_slice(b"PK\x03\x04");
    buf[4..6].copy_from_slice(&version_needed.to_le_bytes());
    buf[8..10].copy_from_slice(&compression.to_le_bytes());
    let flen = fname_bytes.len() as u16;
    buf[26..28].copy_from_slice(&flen.to_le_bytes());
    buf[30..30 + fname_bytes.len()].copy_from_slice(fname_bytes);
    buf
}

fn zip_sig() -> Signature {
    Signature {
        name: "ZIP".into(),
        extension: "zip".into(),
        header: vec![Some(0x50), Some(0x4B), Some(0x03), Some(0x04)],
        footer: vec![0x50, 0x4B, 0x05, 0x06],
        footer_last: false,
        max_size: 1_000_000,
        size_hint: None,
        min_size: 0,
        pre_validate: Some(PreValidate::Zip),
        header_offset: 0,
        min_hit_gap: 0,
        suppress_group: None,
        footer_extra: 0,
    }
}

#[test]
fn zip_directory_entry_filtered() {
    let data = make_zip_lfh("patch/", 20, 8);
    assert!(!zip_local_header_is_file(&data, 0), "directory entry ('patch/') should be rejected");
}

#[test]
fn zip_file_entry_kept() {
    let data = make_zip_lfh("readme.txt", 20, 8);
    assert!(zip_local_header_is_file(&data, 0), "regular file entry should be accepted");
}

#[test]
fn zip_invalid_version_filtered() {
    let data = make_zip_lfh("file.bin", 200, 8);
    assert!(!zip_local_header_is_file(&data, 0), "version > 63 should be rejected");
}

#[test]
fn zip_unknown_compression_filtered() {
    let data = make_zip_lfh("file.bin", 20, 255);
    assert!(!zip_local_header_is_file(&data, 0), "unknown compression method should be rejected");
}

#[test]
fn zip_zero_fname_len_filtered() {
    let mut data = make_zip_lfh("x", 20, 8);
    data[26] = 0;
    data[27] = 0;
    assert!(!zip_local_header_is_file(&data, 0), "zero filename length should be rejected");
}

#[test]
fn zip_pre_validate_drops_dir_hit_in_find_all() {
    let sig = zip_sig();
    let data = make_zip_lfh("patch/", 20, 8);
    let hits = find_all(&sig, &data, 0, data.len());
    assert!(hits.is_empty(), "find_all should produce no hit for a directory-entry ZIP header");
}

#[test]
fn zip_pre_validate_keeps_file_hit_in_find_all() {
    let sig = zip_sig();
    let data = make_zip_lfh("document.pdf", 20, 8);
    let hits = find_all(&sig, &data, 0, data.len());
    assert_eq!(hits.len(), 1, "find_all should produce exactly one hit for a file-entry ZIP header");
}

// ── Further cases ───────────────────────────────────────────────────────────

fn plain_sig(header: Vec<Option<u8>>) -> Signature {
    Signature {
        name: "T".into(),
        extension: "t".into(),
        header,
        footer: vec![],
        footer_last: false,
        max_size: 100,
        size_hint: None,
        min_size: 0,
        pre_validate: None,
        header_offset: 0,
        min_hit_gap: 0,
        suppress_group: None,
        footer_extra: 0,
    }
}

#[test]
fn find_all_reports_absolute_offsets_in_order() {
    let sig = plain_sig(vec![Some(0xAB), None, Some(0xCD)]);
    let mut data = vec![0u8; 64];
    data[3] = 0xAB;
    data[5] = 0xCD;
    data[40] = 0xAB;
    data[41] = 0x77;
    data[42] = 0xCD;
    let hits = find_all(&sig, &data, 1000, data.len());
    let offs: Vec<u64> = hits.iter().map(|h| h.byte_offset).collect();
    assert_eq!(offs, vec![1003, 1040]);
}

#[test]
fn find_all_ignores_hits_at_or_past_report_end() {
    let sig = plain_sig(vec![Some(0x11)]);
    let mut data = vec![0u8; 16];
    data[2] = 0x11;
    data[8] = 0x11;
    let hits = find_all(&sig, &data, 0, 8);
    assert_eq!(hits.len(), 1);
    assert_eq!(hits[0].byte_offset, 2);
}

#[test]
fn find_all_shifts_by_header_offset() {
    let mut sig = plain_sig(vec![Some(0x43), Some(0x44)]);
    sig.header_offset = 10;
    let mut data = vec![0u8; 64];
    data[30] = 0x43;
    data[31] = 0x44;
    let hits = find_all(&sig, &data, 100, data.len());
    assert_eq!(hits.len(), 1);
    assert_eq!(hits[0].byte_offset, 120);
}

#[test]
fn find_all_header_cut_by_buffer_end_is_not_a_hit() {
    let sig = plain_sig(vec![Some(0xEE), Some(0xFF)]);
    let mut data = vec![0u8; 8];
    data[7] = 0xEE;
    assert!(find_all(&sig, &data, 0, data.len()).is_empty());
}
