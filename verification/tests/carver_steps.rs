//! Scans taken a chunk at a time, extraction edge cases, device reads and
//! the gap tracker.

use ferrite_carver::device::{read_bytes_clamped, BlockDevice, MemImage};
use ferrite_carver::error::CarveError;
use ferrite_carver::scanner::{CarveHit, Carver, GapTracker, ScanStep};
use ferrite_carver::signature::{CarvingConfig, Signature, SizeHint};

fn sig(name: &str, header: &[u8], footer: &[u8], max_size: u64) -> Signature {
    Signature {
        name: name.into(),
        extension: "bin".into(),
        header: header.iter().map(|&b| Some(b)).collect(),
        footer: footer.to_vec(),
        footer_last: false,
        max_size,
        size_hint: None,
        min_size: 0,
        pre_validate: None,
        header_offset: 0,
        min_hit_gap: 0,
        suppress_group: None,
        footer_extra: 0,
    }
}

fn config(sigs: Vec<Signature>, chunk: usize) -> CarvingConfig {
    CarvingConfig { signatures: sigs, scan_chunk_size: chunk, start_byte: 0, end_byte: None }
}

#[test]
fn scan_steps_deliver_each_chunk_then_finish() {
    let mut data = vec![0u8; 1024];
    data[10] = 0xAB;
    data[600] = 0xAB;
    let carver = Carver::new(MemImage::new(data, 512), config(vec![sig("A", &[0xAB], &[], 100)], 512));
    let mut cur = carver.start_scan();
    let mut batches = Vec::new();
    loop {
        match carver.scan_next(&mut cur) {
            ScanStep::Finished => break,
            ScanStep::ReadFailed => panic!("an in-memory image never fails a read"),
            ScanStep::Hits(h) => {
                let p = cur.progress();
                batches.push((h.iter().map(|x| x.byte_offset).collect::<Vec<_>>(), p.bytes_scanned, p.hits_found));
            }
        }
    }
    assert_eq!(batches, vec![(vec![10], 512, 1), (vec![600], 1024, 2)]);
    let p = cur.progress();
    assert_eq!((p.scan_start, p.scan_end, p.device_size), (0, 1024, 1024));
    assert_eq!(cur.last_read(), 512);
    // Finished stays finished.
    assert!(matches!(carver.scan_next(&mut cur), ScanStep::Finished));
}

#[test]
fn scan_respects_start_and_end_bytes() {
    let mut data = vec![0u8; 2048];
    data[100] = 0xCD;
    data[1000] = 0xCD;
    data[1900] = 0xCD;
    let mut cfg = config(vec![sig("C", &[0xCD], &[], 10)], 256);
    cfg.start_byte = 500;
    cfg.end_byte = Some(1500);
    let hits = Carver::new(MemImage::new(data, 512), cfg).scan().unwrap();
    let offs: Vec<u64> = hits.iter().map(|h| h.byte_offset).collect();
    assert_eq!(offs, vec![1000]);
}

#[test]
fn scan_of_empty_window_or_device_finds_nothing() {
    let mut cfg = config(vec![sig("C", &[0x00], &[], 10)], 256);
    cfg.start_byte = 300;
    cfg.end_byte = Some(200);
    assert!(Carver::new(MemImage::new(vec![0u8; 512], 512), cfg).scan().unwrap().is_empty());
    let cfg = config(vec![sig("C", &[0x00], &[], 10)], 256);
    assert!(Carver::new(MemImage::new(Vec::new(), 512), cfg).scan().unwrap().is_empty());
    let cfg = config(Vec::new(), 256);
    assert!(Carver::new(MemImage::new(vec![0u8; 512], 512), cfg).scan().unwrap().is_empty());
}

#[test]
fn scan_hits_are_sorted_across_signatures() {
    let mut data = vec![0u8; 4096];
    data[3000] = 0x11;
    data[20] = 0x22;
    data[1500] = 0x11;
    let cfg = config(vec![sig("one", &[0x11], &[], 10), sig("two", &[0x22], &[], 10)], 1024);
    let hits = Carver::new(MemImage::new(data, 512), cfg).scan().unwrap();
    let got: Vec<(u64, String)> = hits.iter().map(|h| (h.byte_offset, h.signature.name.clone())).collect();
    assert_eq!(got, vec![(20, "two".to_string()), (1500, "one".to_string()), (3000, "one".to_string())]);
}

#[test]
fn header_across_every_chunk_boundary_is_found_once() {
    // Every placement of a 3-byte header around a 16-byte chunk boundary.
    for start in 10..20usize {
        let mut data = vec![0u8; 64];
        data[start..start + 3].copy_from_slice(&[0xA1, 0xB2, 0xC3]);
        let cfg = config(vec![sig("T", &[0xA1, 0xB2, 0xC3], &[], 10)], 16);
        let hits = Carver::new(MemImage::new(data, 512), cfg).scan().unwrap();
        assert_eq!(hits.len(), 1, "header at {start}");
        assert_eq!(hits[0].byte_offset, start as u64);
    }
}

fn hit(signature: Signature, byte_offset: u64) -> CarveHit {
    CarveHit { byte_offset, signature }
}

#[test]
fn extract_includes_footer_extra_bytes() {
    let mut data = vec![0x55u8; 200];
    data[40..44].copy_from_slice(&[0x50, 0x4B, 0x05, 0x06]);
    let mut s = sig("Z", &[0x55], &[0x50, 0x4B, 0x05, 0x06], 1000);
    s.footer_extra = 18;
    let out = Carver::new(MemImage::new(data.clone(), 512), CarvingConfig::default()).extract_to_vec(&hit(s, 0)).unwrap();
    assert_eq!(out.len(), 44 + 18);
    assert_eq!(&out[..], &data[..62]);
}

#[test]
fn extract_footer_extra_capped_by_window() {
    let mut data = vec![0x55u8; 50];
    data[40..42].copy_from_slice(&[0xEE, 0xFF]);
    let mut s = sig("Z", &[0x55], &[0xEE, 0xFF], 1000);
    s.footer_extra = 100;
    let out = Carver::new(MemImage::new(data, 512), CarvingConfig::default()).extract_to_vec(&hit(s, 0)).unwrap();
    assert_eq!(out.len(), 50);
}

#[test]
fn extract_past_device_end_is_empty() {
    let s = sig("Z", &[0x55], &[], 1000);
    let out = Carver::new(MemImage::new(vec![0u8; 100], 512), CarvingConfig::default()).extract_to_vec(&hit(s, 100)).unwrap();
    assert!(out.is_empty());
}

#[test]
fn extract_uses_size_hint_and_skips_footer_search() {
    // BMP-like: total size 300 at offset 2 (u32 LE); a footer occurs early but
    // a resolved size hint takes precedence.
    let mut data = vec![0u8; 1024];
    data[0..2].copy_from_slice(b"BM");
    data[2..6].copy_from_slice(&300u32.to_le_bytes());
    data[50..52].copy_from_slice(&[0xFF, 0xD9]);
    let mut s = sig("BMP", b"BM", &[0xFF, 0xD9], 100_000);
    s.size_hint = Some(SizeHint::Linear { offset: 2, len: 4, little_endian: true, add: 0 });
    let carver = Carver::new(MemImage::new(data.clone(), 512), CarvingConfig::default());
    let out = carver.extract_to_vec(&hit(s.clone(), 0)).unwrap();
    assert_eq!(out.len(), 300);
    assert_eq!(&out[..], &data[..300]);
    // The hint is capped by max_size.
    s.max_size = 120;
    assert_eq!(carver.extract_to_vec(&hit(s, 0)).unwrap().len(), 120);
}

#[test]
fn extract_below_min_size_is_skipped() {
    let mut data = vec![0u8; 1024];
    data[2..6].copy_from_slice(&10u32.to_le_bytes());
    let mut s = sig("Small", &[0x00], &[], 100_000);
    s.size_hint = Some(SizeHint::Linear { offset: 2, len: 4, little_endian: true, add: 0 });
    s.min_size = 64;
    let out = Carver::new(MemImage::new(data, 512), CarvingConfig::default()).extract_to_vec(&hit(s, 0)).unwrap();
    assert!(out.is_empty());
}

#[test]
fn extract_takes_hint_from_configured_signature() {
    // The hit's own signature carries no hint; the configured one of the
    // same name does.
    let mut data = vec![0u8; 1024];
    data[2..6].copy_from_slice(&77u32.to_le_bytes());
    let bare = sig("Named", &[0x00], &[], 500);
    let mut configured = bare.clone();
    configured.size_hint = Some(SizeHint::Linear { offset: 2, len: 4, little_endian: true, add: 0 });
    let carver = Carver::new(MemImage::new(data, 512), config(vec![configured], 512));
    assert_eq!(carver.extract_to_vec(&hit(bare, 0)).unwrap().len(), 77);
}

#[test]
fn ogg_walk_failure_skips_extraction_and_is_not_viable() {
    let data = vec![0x4Fu8; 4096];
    let mut s = sig("OGG", &[0x4F], &[], 4000);
    s.size_hint = Some(SizeHint::OggStream);
    let carver = Carver::new(MemImage::new(data, 512), config(vec![s.clone()], 512));
    assert!(!carver.is_viable_hit(&hit(s.clone(), 0)));
    assert!(carver.extract_to_vec(&hit(s, 0)).unwrap().is_empty());
    // Without a frame-walking hint every hit is viable.
    let plain = sig("Plain", &[0x4F], &[], 4000);
    assert!(carver.is_viable_hit(&hit(plain, 0)));
}

#[test]
fn ogg_stream_with_end_page_is_extracted_exactly() {
    // One Ogg page: 27-byte header with the end-of-stream flag, one segment of 10 bytes.
    let mut data = vec![0u8; 512];
    data[0..4].copy_from_slice(b"OggS");
    data[5] = 0x04;
    data[26] = 1;
    data[27] = 10;
    let mut s = sig("OGG", b"OggS", &[], 4000);
    s.size_hint = Some(SizeHint::OggStream);
    let carver = Carver::new(MemImage::new(data, 512), config(vec![s.clone()], 512));
    assert!(carver.is_viable_hit(&hit(s.clone(), 0)));
    assert_eq!(carver.extract_to_vec(&hit(s, 0)).unwrap().len(), 38);
}

#[test]
fn clamped_reads_cut_at_device_end() {
    let data: Vec<u8> = (0..=255u8).cycle().take(1000).collect();
    let dev = MemImage::new(data.clone(), 512);
    assert_eq!(read_bytes_clamped(&dev, 0, 10).unwrap(), data[..10].to_vec());
    assert_eq!(read_bytes_clamped(&dev, 510, 4).unwrap(), data[510..514].to_vec());
    assert_eq!(read_bytes_clamped(&dev, 990, 50).unwrap(), data[990..].to_vec());
    assert!(read_bytes_clamped(&dev, 1000, 5).unwrap().is_empty());
    assert!(read_bytes_clamped(&dev, 5, 0).unwrap().is_empty());
}

#[test]
fn gap_tracker_reads_back_what_was_recorded() {
    let mut g = GapTracker::new();
    let a = "alpha".to_string();
    let b = "beta".to_string();
    assert_eq!(g.last(&a), None);
    g.record(&a, 10);
    g.record(&b, 20);
    g.record(&a, 30);
    assert_eq!(g.last(&a), Some(30));
    assert_eq!(g.last(&b), Some(20));
}

#[test]
fn error_descriptions() {
    assert_eq!(CarveError::BlockDevice("x".into()).describe(), "block device error: x");
    assert_eq!(CarveError::InvalidSignature("y".into()).describe(), "invalid signature definition: y");
    assert_eq!(CarveError::TomlParse("z".into()).describe(), "TOML parse error: z");
    assert_eq!(CarveError::Io("w".into()).describe(), "I/O error: w");
}

#[test]
fn hits_at_one_offset_keep_signature_order() {
    let mut data = vec![0u8; 256];
    data[40] = 0x7E;
    data[41] = 0x01;
    let cfg = config(vec![sig("first", &[0x7E], &[], 10), sig("second", &[0x7E, 0x01], &[], 10)], 128);
    let hits = Carver::new(MemImage::new(data, 512), cfg).scan().unwrap();
    let got: Vec<(u64, &str)> = hits.iter().map(|h| (h.byte_offset, h.signature.name.as_str())).collect();
    assert_eq!(got, vec![(40, "first"), (40, "second")]);
}

#[test]
fn clamped_read_of_any_length_succeeds() {
    let data: Vec<u8> = (0..=255u8).cycle().take(1000).collect();
    let dev = MemImage::new(data.clone(), 512);
    assert_eq!(read_bytes_clamped(&dev, 990, usize::MAX).unwrap(), data[990..].to_vec());
    assert_eq!(read_bytes_clamped(&dev, 0, usize::MAX).unwrap(), data);
}

#[test]
fn device_keeps_the_sector_size_it_was_given() {
    let data: Vec<u8> = (0..=255u8).cycle().take(300_000).collect();
    let big = MemImage::new(data.clone(), 1 << 20);
    assert_eq!(big.sector_size(), 1 << 20);
    assert_eq!(read_bytes_clamped(&big, 70_000, 100).unwrap(), data[70_000..70_100].to_vec());
    let huge = MemImage::new(data.clone(), u32::MAX);
    assert_eq!(huge.sector_size(), u32::MAX);
    assert_eq!(read_bytes_clamped(&huge, 299_990, 50).unwrap(), data[299_990..].to_vec());
}
