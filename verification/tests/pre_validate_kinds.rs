//! Validator kinds: their names and the names parsed back, and the
//! dispatch through `is_valid`.

use ferrite_carver::pre_validate::{is_valid, PreValidate};

#[test]
fn kind_names_parse_back() {
    for k in [
        PreValidate::Zip,
        PreValidate::JpegJfif,
        PreValidate::Png,
        PreValidate::Mp4,
        PreValidate::SevenZip,
        PreValidate::Sqlite,
        PreValidate::Dpx,
        PreValidate::Exr,
    ] {
        assert_eq!(PreValidate::from_kind(k.kind_name()), Some(k.clone()));
        assert_eq!(PreValidate::from_kind(&k.kind_name().to_ascii_uppercase()), Some(k));
    }
}

#[test]
fn unknown_kind_is_none() {
    assert_eq!(PreValidate::from_kind("no_such_kind"), None);
    assert_eq!(PreValidate::from_kind(""), None);
}

#[test]
fn is_valid_dispatches_to_the_kind() {
    let mut png = vec![0u8; 24];
    png[0..8].copy_from_slice(b"\x89PNG\r\n\x1a\n");
    png[8..12].copy_from_slice(&13u32.to_be_bytes());
    png[12..16].copy_from_slice(b"IHDR");
    assert!(is_valid(&PreValidate::Png, &png, 0));
    png[12..16].copy_from_slice(b"tEXt");
    assert!(!is_valid(&PreValidate::Png, &png, 0));
}

#[test]
fn a_hit_too_close_to_the_buffer_end_gets_the_benefit_of_the_doubt() {
    // Only the PNG signature's first bytes are in the buffer.
    let png = b"\x89PNG".to_vec();
    assert!(is_valid(&PreValidate::Png, &png, 0));
}
