//! Hex parsing and building signatures from their configuration records.

use ferrite_carver::error::CarveError;
use ferrite_carver::signature::{parse_hex, parse_hex_pattern, CarvingConfig, RawSignature, SizeHint};

#[test]
fn parse_hex_basic() {
    assert_eq!(parse_hex("FF D8 FF").unwrap(), &[0xFF, 0xD8, 0xFF]);
    assert_eq!(parse_hex("00").unwrap(), &[0x00]);
    assert_eq!(parse_hex("").unwrap(), &[] as &[u8]);
}

#[test]
fn parse_hex_rejects_invalid() {
    assert!(parse_hex("ZZ").is_err());
    assert!(parse_hex("FF GG").is_err());
}

#[test]
fn parse_hex_pattern_wildcards() {
    let p = parse_hex_pattern("52 49 46 46 ?? ?? ?? ?? 41 56 49 20").unwrap();
    assert_eq!(p[0], Some(0x52));
    assert_eq!(p[4], None);
    assert_eq!(p[5], None);
    assert_eq!(p[8], Some(0x41));
}

#[test]
fn parse_hex_pattern_no_wildcards() {
    let p = parse_hex_pattern("FF D8 FF").unwrap();
    assert_eq!(p, vec![Some(0xFF), Some(0xD8), Some(0xFF)]);
}

// ── Records as a configuration file writes them ─────────────────────────────

/// A record with the given required fields and every optional one absent.
fn raw(name: &str, extension: &str, header: &str, footer: &str, max_size: u64) -> RawSignature {
    RawSignature {
        name: name.to_string(),
        extension: extension.to_string(),
        header: header.to_string(),
        footer: footer.to_string(),
        footer_last: false,
        max_size,
        min_size: 0,
        size_hint_offset: None,
        size_hint_len: None,
        size_hint_endian: None,
        size_hint_add: None,
        size_hint_scale: None,
        size_hint_kind: None,
        pre_validate: None,
        header_offset: 0,
        min_hit_gap: 0,
        suppress_group: None,
        size_hint_ts_offset: None,
        size_hint_stride: None,
        footer_extra: 0,
    }
}

fn load(records: Vec<RawSignature>) -> Result<CarvingConfig, CarveError> {
    CarvingConfig::from_raw_signatures(&records)
}

#[test]
fn load_toml_jpeg() {
    let cfg = load(vec![raw("JPEG Image", "jpg", "FF D8 FF", "FF D9", 10485760)]).unwrap();
    assert_eq!(cfg.signatures.len(), 1);
    let sig = &cfg.signatures[0];
    assert_eq!(sig.name, "JPEG Image");
    assert_eq!(sig.extension, "jpg");
    assert_eq!(sig.header, vec![Some(0xFF), Some(0xD8), Some(0xFF)]);
    assert_eq!(sig.footer, &[0xFF, 0xD9]);
    assert_eq!(sig.max_size, 10_485_760);
    assert!(sig.size_hint.is_none());
}

#[test]
fn load_toml_no_footer() {
    let cfg = load(vec![raw("MP3 Audio", "mp3", "49 44 33", "", 52428800)]).unwrap();
    assert!(cfg.signatures[0].footer.is_empty());
}

#[test]
fn load_toml_size_hint_linear() {
    let mut r = raw("AVI Video (RIFF)", "avi", "52 49 46 46 ?? ?? ?? ?? 41 56 49 20", "", 2147483648);
    r.size_hint_offset = Some(4);
    r.size_hint_len = Some(4);
    r.size_hint_endian = Some("le".to_string());
    r.size_hint_add = Some(8);
    let cfg = load(vec![r]).unwrap();
    let sig = &cfg.signatures[0];
    assert_eq!(sig.header[0], Some(0x52));
    assert_eq!(sig.header[4], None); // wildcard
    assert_eq!(sig.header[8], Some(0x41));
    match sig.size_hint.as_ref().unwrap() {
        SizeHint::Linear { offset, len, little_endian, add } => {
            assert_eq!(*offset, 4);
            assert_eq!(*len, 4);
            assert!(little_endian);
            assert_eq!(*add, 8);
        }
        other => panic!("expected Linear, got {other:?}"),
    }
}

#[test]
fn load_toml_size_hint_ole2() {
    let mut r = raw("OLE2 Compound", "ole", "D0 CF 11 E0 A1 B1 1A E1", "", 524288000);
    r.size_hint_kind = Some("ole2".to_string());
    let cfg = load(vec![r]).unwrap();
    assert_eq!(cfg.signatures[0].size_hint, Some(SizeHint::Ole2));
}

#[test]
fn load_toml_size_hint_sqlite() {
    let mut r = raw("SQLite Database", "db", "53 51 4C 69 74 65 20 66 6F 72 6D 61 74 20 33 00", "", 10737418240);
    r.size_hint_kind = Some("sqlite".to_string());
    let cfg = load(vec![r]).unwrap();
    assert_eq!(cfg.signatures[0].size_hint, Some(SizeHint::Sqlite));
}

#[test]
fn load_toml_size_hint_seven_zip() {
    let mut r = raw("7-Zip Archive", "7z", "37 7A BC AF 27 1C", "", 524288000);
    r.size_hint_kind = Some("seven_zip".to_string());
    let cfg = load(vec![r]).unwrap();
    assert_eq!(cfg.signatures[0].size_hint, Some(SizeHint::SevenZip));
}

#[test]
fn load_toml_size_hint_linear_scaled() {
    let mut r = raw("Windows Event Log", "evtx", "45 4C 46 49 4C 45 00", "", 104857600);
    r.size_hint_kind = Some("linear_scaled".to_string());
    r.size_hint_offset = Some(42);
    r.size_hint_len = Some(2);
    r.size_hint_endian = Some("le".to_string());
    r.size_hint_scale = Some(65536);
    r.size_hint_add = Some(4096);
    let cfg = load(vec![r]).unwrap();
    match cfg.signatures[0].size_hint.as_ref().unwrap() {
        SizeHint::LinearScaled { offset, len, little_endian, scale, add } => {
            assert_eq!(*offset, 42);
            assert_eq!(*len, 2);
            assert!(little_endian);
            assert_eq!(*scale, 65536);
            assert_eq!(*add, 4096);
        }
        other => panic!("expected LinearScaled, got {other:?}"),
    }
}

#[test]
fn load_toml_multiple() {
    let cfg = load(vec![raw("A", "a", "AA", "", 100), raw("B", "b", "BB CC", "DD", 200)]).unwrap();
    assert_eq!(cfg.signatures.len(), 2);
    assert_eq!(cfg.signatures[1].header, vec![Some(0xBB), Some(0xCC)]);
}

#[test]
fn load_toml_footer_last_defaults_false() {
    let cfg = load(vec![raw("Test", "tst", "AA BB", "CC DD", 1000)]).unwrap();
    assert!(!cfg.signatures[0].footer_last, "footer_last should default to false");
}

#[test]
fn load_toml_footer_last_explicit_true() {
    let mut r = raw("PDF Document", "pdf", "25 50 44 46", "25 25 45 4F 46", 104857600);
    r.footer_last = true;
    let cfg = load(vec![r]).unwrap();
    assert!(cfg.signatures[0].footer_last, "footer_last should be true when set");
}

#[test]
fn load_toml_size_hint_ogg_stream() {
    let mut r = raw("OGG Media", "ogg", "4F 67 67 53", "", 2147483648);
    r.size_hint_kind = Some("ogg_stream".to_string());
    let cfg = load(vec![r]).unwrap();
    assert_eq!(cfg.signatures[0].size_hint, Some(SizeHint::OggStream));
}

#[test]
fn load_toml_header_offset() {
    let mut r = raw("ISO 9660", "iso", "43 44 30 30 31", "", 9395240960);
    r.header_offset = 32769;
    let cfg = load(vec![r]).unwrap();
    assert_eq!(cfg.signatures[0].header_offset, 32769);
}

#[test]
fn load_toml_header_offset_defaults_zero() {
    let cfg = load(vec![raw("JPEG Image", "jpg", "FF D8 FF", "FF D9", 10485760)]).unwrap();
    assert_eq!(cfg.signatures[0].header_offset, 0);
}

#[test]
fn load_toml_invalid_hex_errors() {
    assert!(load(vec![raw("Bad", "bad", "ZZ", "", 100)]).is_err());
}

// ── Further cases ───────────────────────────────────────────────────────────

#[test]
fn parse_hex_error_names_the_token() {
    match parse_hex("FF GG 00") {
        Err(CarveError::InvalidSignature(m)) => assert!(m.contains("GG"), "message: {m}"),
        other => panic!("expected an invalid-signature error, got {other:?}"),
    }
}

#[test]
fn mpeg_ts_hint_from_stride_fields() {
    let mut r = raw("MPEG-TS", "ts", "47", "", 1000);
    r.size_hint_kind = Some("mpeg_ts".to_string());
    r.size_hint_ts_offset = Some(4);
    r.size_hint_stride = Some(192);
    let cfg = load(vec![r]).unwrap();
    assert_eq!(cfg.signatures[0].size_hint, Some(SizeHint::MpegTs { ts_offset: 4, stride: 192 }));
}

#[test]
fn default_config_scans_four_mib_chunks() {
    let cfg = CarvingConfig::default();
    assert!(cfg.signatures.is_empty());
    assert_eq!(cfg.scan_chunk_size, 4 * 1024 * 1024);
    assert_eq!(cfg.start_byte, 0);
    assert_eq!(cfg.end_byte, None);
}

#[test]
fn size_hint_labels() {
    assert_eq!(SizeHint::Isobmff.kind_name(), "mp4");
    assert_eq!(SizeHint::MpegTs { ts_offset: 0, stride: 188 }.kind_name(), "mpeg_ts");
    assert!(SizeHint::OggStream.skip_on_failure());
    assert!(!SizeHint::Pdf.skip_on_failure());
}

#[test]
fn parse_hex_reads_back_every_byte_as_upper_hex() {
    let v: Vec<u8> = (0u16..256).map(|b| b as u8).collect();
    let s = v.iter().map(|b| format!("{:02X}", b)).collect::<Vec<_>>().join(" ");
    assert_eq!(parse_hex(&s).unwrap(), v);
    let fixed: Vec<Option<u8>> = v.iter().map(|b| Some(*b)).collect();
    assert_eq!(parse_hex_pattern(&s).unwrap(), fixed);
}
