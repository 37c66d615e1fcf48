//! Scanning a device for signature hits, and extracting the file behind a hit.

use ferrite_carver::carver_io::EXTRACT_CHUNK;
use ferrite_carver::device::MemImage;
use ferrite_carver::scanner::{CarveHit, Carver};
use ferrite_carver::signature::{CarvingConfig, Signature};


// ── Helpers ───────────────────────────────────────────────────────────────

fn sig(header: &[u8], footer: &[u8], max_size: u64) -> Signature {
    Signature {
        name: "Test".into(),
        extension: "bin".into(),
        header: header.iter().map(|&b| Some(b)).collect(),
        footer: footer.to_vec(),
        footer_last: false,
        max_size,
        size_hint: None,
        min_size: 0,
        pre_validate: None,
        header_offset: 0,
        min_hit_gap: 0,
        suppress_group: None,
        footer_extra: 0,
    }
}

fn config_with(sigs: Vec<Signature>, chunk_size: usize) -> CarvingConfig {
    CarvingConfig {
        signatures: sigs,
        scan_chunk_size: chunk_size,
        start_byte: 0,
        end_byte: None,
    }
}

fn device_from(data: Vec<u8>) -> MemImage {
    MemImage::new(data, 512)
}

// ── scan tests ────────────────────────────────────────────────────────────

#[test]
fn scan_finds_single_hit() {
    let mut data = vec![0u8; 1024];
    data[0..3].copy_from_slice(&[0xFF, 0xD8, 0xFF]);

    let dev = device_from(data);
    let cfg = config_with(vec![sig(&[0xFF, 0xD8, 0xFF], &[], 1_000_000)], 512);
    let hits = Carver::new(dev, cfg).scan().unwrap();

    assert_eq!(hits.len(), 1);
    assert_eq!(hits[0].byte_offset, 0);
}

#[test]
fn scan_finds_hit_mid_device() {
    let mut data = vec![0u8; 2048];
    data[768..771].copy_from_slice(&[0xAA, 0xBB, 0xCC]);

    let dev = device_from(data);
    let cfg = config_with(vec![sig(&[0xAA, 0xBB, 0xCC], &[], 1_000)], 1024);
    let hits = Carver::new(dev, cfg).scan().unwrap();

    assert_eq!(hits.len(), 1);
    assert_eq!(hits[0].byte_offset, 768);
}

#[test]
fn scan_finds_multiple_hits_same_sig() {
    let mut data = vec![0u8; 2048];
    data[0..2].copy_from_slice(&[0xBE, 0xEF]);
    data[1024..1026].copy_from_slice(&[0xBE, 0xEF]);

    let dev = device_from(data);
    let cfg = config_with(vec![sig(&[0xBE, 0xEF], &[], 512)], 1024);
    let hits = Carver::new(dev, cfg).scan().unwrap();

    assert_eq!(hits.len(), 2);
    assert_eq!(hits[0].byte_offset, 0);
    assert_eq!(hits[1].byte_offset, 1024);
}

#[test]
fn scan_detects_header_at_chunk_boundary() {
    // Header = [0xDE, 0xAD, 0xBE, 0xEF], placed starting at byte 2.
    // chunk_size = 4, so bytes 0-3 are chunk 0, bytes 4-7 are chunk 1.
    // The header starts at pos=2 inside chunk 0 (< chunk_size=4) but its
    // last byte falls at pos=5 inside the overlap window.
    let mut data = vec![0u8; 512];
    data[2..6].copy_from_slice(&[0xDE, 0xAD, 0xBE, 0xEF]);

    let dev = device_from(data);
    let header = vec![0xDE, 0xAD, 0xBE, 0xEF];
    let cfg = config_with(vec![sig(&header, &[], 256)], 4);
    let hits = Carver::new(dev, cfg).scan().unwrap();

    // Must find exactly one hit at offset 2.
    assert_eq!(hits.len(), 1, "expected exactly one hit, got: {hits:?}");
    assert_eq!(hits[0].byte_offset, 2);
}

#[test]
fn scan_no_double_count_in_overlap() {
    // Header straddles the boundary (starts inside this chunk's non-overlap
    // window and extends into the overlap). It must only be reported once.
    let mut data = vec![0u8; 512];
    let header = [0x11u8, 0x22, 0x33];
    // Place at offset 3 — with chunk_size=4 this is pos=3 < 4, reported in chunk 0.
    // In chunk 1 (offset=4), pos would be -1 (not in buffer), so no duplicate.
    data[3..6].copy_from_slice(&header);

    let dev = device_from(data);
    let cfg = config_with(vec![sig(&header, &[], 256)], 4);
    let hits = Carver::new(dev, cfg).scan().unwrap();

    assert_eq!(hits.len(), 1);
    assert_eq!(hits[0].byte_offset, 3);
}

#[test]
fn scan_multiple_signatures_parallel() {
    let mut data = vec![0u8; 2048];
    // Sig A at offset 0
    data[0..2].copy_from_slice(&[0xAA, 0x01]);
    // Sig B at offset 512
    data[512..514].copy_from_slice(&[0xBB, 0x02]);

    let dev = device_from(data);
    let cfg = config_with(
        vec![sig(&[0xAA, 0x01], &[], 100), sig(&[0xBB, 0x02], &[], 100)],
        1024,
    );
    let hits = Carver::new(dev, cfg).scan().unwrap();

    assert_eq!(hits.len(), 2);
    // Sorted by offset
    assert_eq!(hits[0].byte_offset, 0);
    assert_eq!(hits[1].byte_offset, 512);
}

#[test]
fn scan_empty_device_returns_empty() {
    // A device that contains no matching header bytes returns no hits.
    let cfg = config_with(vec![sig(&[0xFF], &[], 100)], 512);
    let dev = device_from(vec![0u8; 512]);
    let hits = Carver::new(dev, cfg).scan().unwrap();
    assert!(hits.is_empty());
}

#[test]
fn scan_wildcard_header_matches_riff_subtypes() {
    // Simulate two RIFF files: an AVI and a WAV.
    // AVI: RIFF????AVI  (41 56 49 20)
    // WAV: RIFF????WAVE (57 41 56 45)
    let mut data = vec![0u8; 2048];
    // AVI at offset 0: RIFF + size(u32le=100) + "AVI "
    data[0..4].copy_from_slice(b"RIFF");
    data[4..8].copy_from_slice(&100u32.to_le_bytes());
    data[8..12].copy_from_slice(b"AVI ");
    // WAV at offset 512: RIFF + size(u32le=200) + "WAVE"
    data[512..516].copy_from_slice(b"RIFF");
    data[516..520].copy_from_slice(&200u32.to_le_bytes());
    data[520..524].copy_from_slice(b"WAVE");

    let dev = device_from(data);

    // AVI signature with wildcard bytes at positions 4-7.
    let avi_sig = Signature {
        name: "AVI".into(),
        extension: "avi".into(),
        header: vec![
            Some(0x52),
            Some(0x49),
            Some(0x46),
            Some(0x46), // RIFF
            None,
            None,
            None,
            None, // size (wildcard)
            Some(0x41),
            Some(0x56),
            Some(0x49),
            Some(0x20), // AVI<space>
        ],
        footer: vec![],
        footer_last: false,
        max_size: 2_147_483_648,
        size_hint: None,
        min_size: 0,
        pre_validate: None,
        header_offset: 0,
        min_hit_gap: 0,
        suppress_group: None,
        footer_extra: 0,
    };
    let wav_sig = Signature {
        name: "WAV".into(),
        extension: "wav".into(),
        header: vec![
            Some(0x52),
            Some(0x49),
            Some(0x46),
            Some(0x46), // RIFF
            None,
            None,
            None,
            None, // size (wildcard)
            Some(0x57),
            Some(0x41),
            Some(0x56),
            Some(0x45), // WAVE
        ],
        footer: vec![],
        footer_last: false,
        max_size: 2_147_483_648,
        size_hint: None,
        min_size: 0,
        pre_validate: None,
        header_offset: 0,
        min_hit_gap: 0,
        suppress_group: None,
        footer_extra: 0,
    };
    let cfg = CarvingConfig {
        signatures: vec![avi_sig, wav_sig],
        scan_chunk_size: 1024,
        start_byte: 0,
        end_byte: None,
    };
    let hits = Carver::new(dev, cfg).scan().unwrap();

    assert_eq!(hits.len(), 2, "expected AVI + WAV hits, got: {hits:?}");
    assert_eq!(hits[0].byte_offset, 0);
    assert_eq!(hits[0].signature.extension, "avi");
    assert_eq!(hits[1].byte_offset, 512);
    assert_eq!(hits[1].signature.extension, "wav");
}

#[test]
fn min_size_filters_hit_near_device_end() {
    // Device is 512 bytes. Header at offset 500. min_size = 100.
    // 500 + 100 = 600 > 512, so the hit should be filtered out.
    let data = {
        let mut d = vec![0u8; 512];
        d[500] = 0xAA;
        d
    };
    let dev = device_from(data);
    let sig = Signature {
        name: "Test".into(),
        extension: "tst".into(),
        header: vec![Some(0xAA)],
        footer: vec![],
        footer_last: false,
        max_size: 1_000_000,
        size_hint: None,
        min_size: 100,
        pre_validate: None,
        header_offset: 0,
        min_hit_gap: 0,
        suppress_group: None,
        footer_extra: 0,
    };
    let cfg = CarvingConfig {
        signatures: vec![sig],
        ..Default::default()
    };
    let hits = Carver::new(dev, cfg).scan().unwrap();
    assert!(
        hits.is_empty(),
        "hit near device end should be filtered by min_size"
    );
}

#[test]
fn min_hit_gap_suppresses_nearby_hits() {
    // Three occurrences of the magic at offsets 0, 100, and 2000.
    // With min_hit_gap = 512, the hit at 100 is suppressed (100 < 0+512)
    // but the hit at 2000 is kept (2000 >= 0+512).
    let mut data = vec![0u8; 4096];
    data[0] = 0xAB;
    data[100] = 0xAB;
    data[2000] = 0xAB;

    let dev = device_from(data);
    let gapped_sig = Signature {
        name: "GapTest".into(),
        extension: "tst".into(),
        header: vec![Some(0xAB)],
        footer: vec![],
        footer_last: false,
        max_size: 1_000_000,
        size_hint: None,
        min_size: 0,
        pre_validate: None,
        header_offset: 0,
        min_hit_gap: 512,
        suppress_group: None,
        footer_extra: 0,
    };
    let cfg = CarvingConfig {
        signatures: vec![gapped_sig],
        scan_chunk_size: 4096,
        start_byte: 0,
        end_byte: None,
    };
    let hits = Carver::new(dev, cfg).scan().unwrap();

    assert_eq!(hits.len(), 2, "expected hits at 0 and 2000, got: {hits:?}");
    assert_eq!(hits[0].byte_offset, 0);
    assert_eq!(hits[1].byte_offset, 2000);
}

#[test]
fn min_hit_gap_zero_does_not_suppress() {
    // With min_hit_gap = 0, all three hits should be reported.
    let mut data = vec![0u8; 512];
    data[0] = 0xAB;
    data[10] = 0xAB;
    data[20] = 0xAB;

    let dev = device_from(data);
    let cfg = config_with(vec![sig(&[0xAB], &[], 100)], 512);
    let hits = Carver::new(dev, cfg).scan().unwrap();

    assert_eq!(hits.len(), 3, "min_hit_gap=0 should not suppress any hits");
}

#[test]
fn min_hit_gap_tracks_across_chunks() {
    // Two chunks of 512 bytes each. Hit at offset 0 (chunk 0) and offset 600 (chunk 1).
    // With min_hit_gap = 1024, the second hit at 600 is suppressed (600 < 0+1024).
    let mut data = vec![0u8; 1024];
    data[0] = 0xCC;
    data[600] = 0xCC;

    let dev = device_from(data);
    let gapped_sig = Signature {
        name: "CrossChunk".into(),
        extension: "bin".into(),
        header: vec![Some(0xCC)],
        footer: vec![],
        footer_last: false,
        max_size: 1_000_000,
        size_hint: None,
        min_size: 0,
        pre_validate: None,
        header_offset: 0,
        min_hit_gap: 1024,
        suppress_group: None,
        footer_extra: 0,
    };
    let cfg = CarvingConfig {
        signatures: vec![gapped_sig],
        scan_chunk_size: 512,
        start_byte: 0,
        end_byte: None,
    };
    let hits = Carver::new(dev, cfg).scan().unwrap();

    assert_eq!(hits.len(), 1, "cross-chunk gap should suppress second hit");
    assert_eq!(hits[0].byte_offset, 0);
}

#[test]
fn suppress_group_cross_sig_dedup() {
    // Simulate M2TS/TS co-detection: SigA fires at offset 0 (magic = 0xDD),
    // SigB fires at offset 4 (magic = 0xEE), mimicking M2TS+TS where every
    // M2TS packet places the TS sync byte 4 bytes later.
    //
    // Both sigs share suppress_group = "transport" with min_hit_gap = 512.
    // After SigA hits at 0, the group tracker is at 0.
    // SigB's hit at 4 is within the 512-byte gap → suppressed.
    let mut data = vec![0u8; 512];
    data[0] = 0xDD; // SigA
    data[4] = 0xEE; // SigB (would be suppressed by the group)

    let dev = device_from(data);
    let sig_a = Signature {
        name: "SigA".into(),
        extension: "a".into(),
        header: vec![Some(0xDD)],
        footer: vec![],
        footer_last: false,
        max_size: 1_000_000,
        size_hint: None,
        min_size: 0,
        pre_validate: None,
        header_offset: 0,
        min_hit_gap: 512,
        suppress_group: Some("transport".into()),
        footer_extra: 0,
    };
    let sig_b = Signature {
        name: "SigB".into(),
        extension: "b".into(),
        header: vec![Some(0xEE)],
        footer: vec![],
        footer_last: false,
        max_size: 1_000_000,
        size_hint: None,
        min_size: 0,
        pre_validate: None,
        header_offset: 0,
        min_hit_gap: 512,
        suppress_group: Some("transport".into()),
        footer_extra: 0,
    };
    let cfg = CarvingConfig {
        signatures: vec![sig_a, sig_b],
        scan_chunk_size: 512,
        start_byte: 0,
        end_byte: None,
    };
    let hits = Carver::new(dev, cfg).scan().unwrap();
    assert_eq!(
        hits.len(),
        1,
        "SigB hit at offset 4 should be suppressed by SigA's group gap"
    );
    assert_eq!(hits[0].byte_offset, 0);
    assert_eq!(hits[0].signature.name, "SigA");
}

#[test]
fn min_size_keeps_hit_with_sufficient_space() {
    // Device is 512 bytes. Header at offset 0. min_size = 100.
    // 0 + 100 = 100 <= 512, so the hit should be kept.
    let data = {
        let mut d = vec![0u8; 512];
        d[0] = 0xAA;
        d
    };
    let dev = device_from(data);
    let sig = Signature {
        name: "Test".into(),
        extension: "tst".into(),
        header: vec![Some(0xAA)],
        footer: vec![],
        footer_last: false,
        max_size: 1_000_000,
        size_hint: None,
        min_size: 100,
        pre_validate: None,
        header_offset: 0,
        min_hit_gap: 0,
        suppress_group: None,
        footer_extra: 0,
    };
    let cfg = CarvingConfig {
        signatures: vec![sig],
        ..Default::default()
    };
    let hits = Carver::new(dev, cfg).scan().unwrap();
    assert_eq!(
        hits.len(),
        1,
        "hit with sufficient remaining space should be kept"
    );
}

// ── extraction ───────────────────────────────────────────────────────────

#[test]
fn extract_no_footer_writes_max_size() {
    let data: Vec<u8> = (0u8..=255).cycle().take(1024).collect();
    let dev = device_from(data.clone());
    let hit = CarveHit {
        byte_offset: 0,
        signature: sig(&[data[0]], &[], 100),
    };
    let out = Carver::new(dev, CarvingConfig::default())
        .extract_to_vec(&hit)
        .unwrap();
    let written = out.len() as u64;
    assert_eq!(written, 100);
    assert_eq!(&out, &data[..100]);
}

#[test]
fn extract_no_footer_capped_at_device_end() {
    let data = vec![0xAAu8; 200];
    let dev = device_from(data.clone());
    let hit = CarveHit {
        byte_offset: 150,
        signature: sig(&[0xAA], &[], 1_000_000),
    };
    let out = Carver::new(dev, CarvingConfig::default())
        .extract_to_vec(&hit)
        .unwrap();
    let written = out.len() as u64;
    assert_eq!(written, 50);
    assert_eq!(out.len(), 50);
}

#[test]
fn extract_with_footer_stops_after_footer() {
    let header = [0xFF, 0xD8, 0xFF];
    let footer = [0xFF, 0xD9];
    let mut data = vec![0u8; 1024];
    data[0..3].copy_from_slice(&header);
    data[10..12].copy_from_slice(&footer);

    let dev = device_from(data);
    let hit = CarveHit {
        byte_offset: 0,
        signature: sig(&header, &footer, 1_000_000),
    };
    let out = Carver::new(dev, CarvingConfig::default())
        .extract_to_vec(&hit)
        .unwrap();
    let written = out.len() as u64;
    assert_eq!(written, 12, "expected 12 bytes written, got {written}");
    assert_eq!(out[10..12], footer);
}

#[test]
fn extract_footer_spanning_extract_chunk_boundary() {
    let footer = [0xDE, 0xAD];
    let boundary = EXTRACT_CHUNK;
    let mut data = vec![0x00u8; boundary + 512];
    data[boundary - 1] = footer[0];
    data[boundary] = footer[1];

    let dev = device_from(data.clone());
    let hit = CarveHit {
        byte_offset: 0,
        signature: sig(&[0x00], &footer, data.len() as u64),
    };
    let out = Carver::new(dev, CarvingConfig::default())
        .extract_to_vec(&hit)
        .unwrap();
    let written = out.len() as u64;
    let expected_len = boundary + 1;
    assert_eq!(written as usize, expected_len);
    assert_eq!(out[boundary - 1..=boundary], footer);
}

#[test]
fn extract_footer_last_stops_at_last_occurrence() {
    let footer = [0xFF, 0xD9u8];
    let mut data = vec![0xAAu8; 1024];
    data[10..12].copy_from_slice(&footer);
    data[50..52].copy_from_slice(&footer);
    data[200..202].copy_from_slice(&footer);

    let dev = device_from(data);
    let sig = Signature {
        name: "Test".into(),
        extension: "tst".into(),
        header: vec![Some(0xAA)],
        footer: footer.to_vec(),
        footer_last: true,
        max_size: 1024,
        size_hint: None,
        min_size: 0,
        pre_validate: None,
            header_offset: 0,
            min_hit_gap: 0,
            suppress_group: None,
            footer_extra: 0,
    };
    let hit = CarveHit {
        byte_offset: 0,
        signature: sig,
    };
    let out = Carver::new(dev, CarvingConfig::default())
        .extract_to_vec(&hit)
        .unwrap();
    let written = out.len() as u64;
    assert_eq!(written, 202, "footer_last should stop after last footer");
    assert_eq!(&out[200..202], &footer);
}

#[test]
fn extract_footer_last_no_footer_writes_all() {
    let data = vec![0xBBu8; 500];
    let dev = device_from(data);
    let sig = Signature {
        name: "Test".into(),
        extension: "tst".into(),
        header: vec![Some(0xBB)],
        footer: vec![0xFF, 0xFE],
        footer_last: true,
        max_size: 300,
        size_hint: None,
        min_size: 0,
        pre_validate: None,
            header_offset: 0,
            min_hit_gap: 0,
            suppress_group: None,
            footer_extra: 0,
    };
    let hit = CarveHit {
        byte_offset: 0,
        signature: sig,
    };
    let out = Carver::new(dev, CarvingConfig::default())
        .extract_to_vec(&hit)
        .unwrap();
    let written = out.len() as u64;
    assert_eq!(written, 300);
}

#[test]
fn extract_footer_not_found_writes_max_size() {
    let data = vec![0xAAu8; 1024];
    let dev = device_from(data);
    let sig_val = sig(&[0xAA], &[0xFF, 0xFE], 300);
    let hit = CarveHit {
        byte_offset: 0,
        signature: sig_val,
    };
    let out = Carver::new(dev, CarvingConfig::default())
        .extract_to_vec(&hit)
        .unwrap();
    let written = out.len() as u64;
    assert_eq!(written, 300);
}
