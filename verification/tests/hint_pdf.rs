//! Linearized-PDF length hints and the byte search behind them.

use ferrite_carver::device::MemImage;
use ferrite_carver::size_hint::structured::{find_bytes, pdf_hint};

#[test]
fn find_bytes_gives_first_occurrence() {
    assert_eq!(find_bytes(b"abcabc", b"bc"), Some(1));
    assert_eq!(find_bytes(b"abcabc", b"abc"), Some(0));
    assert_eq!(find_bytes(b"abcabc", b"cab"), Some(2));
    assert_eq!(find_bytes(b"abcabc", b"abd"), None);
    assert_eq!(find_bytes(b"ab", b"abc"), None);
    assert_eq!(find_bytes(b"", b"a"), None);
}

#[test]
fn pdf_linearized_length_is_read() {
    let mut data = b"%PDF-1.7\n1 0 obj\n<< /Linearized 1 /L 12345 /H [ 1 2 ] >>\nendobj\n".to_vec();
    data.resize(400, b' ');
    let dev = MemImage::new(data, 512);
    assert_eq!(pdf_hint(&dev, 0), Some(12345));
}

#[test]
fn pdf_without_linearized_gives_none() {
    let mut data = b"%PDF-1.7\n1 0 obj\n<< /L 12345 >>\nendobj\n".to_vec();
    data.resize(400, b' ');
    let dev = MemImage::new(data, 512);
    assert_eq!(pdf_hint(&dev, 0), None);
}
