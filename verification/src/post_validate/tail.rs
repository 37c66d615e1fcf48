//! Tail-only post-extraction check: judges a carved file from its last
//! ≤ 65 536 bytes alone, which keeps it cheap even for large video files.
use vstd::prelude::*;
use crate::bytes::{occurs_at, occurs_within, find_within, matches_at};
use crate::text::{chars_of, same_chars};
use super::{CarveQuality, ends_with_eoi, eocd, gif_ok, pdf_ok, verdict};
use super::png::{ends_with_iend, iend_chunk};

verus! {

/// What [`validate_extracted`] answers for an extension, tail and
/// truncation flag.
pub open spec fn tail_quality(ext: Seq<char>, tail: Seq<u8>, is_truncated: bool) -> CarveQuality {
    if is_truncated {
        CarveQuality::Truncated
    } else if ext == "jpg"@ {
        verdict(ends_with_eoi(tail))
    } else if ext == "png"@ {
        verdict(ends_with_iend(tail))
    } else if ext == "gif"@ {
        verdict(gif_ok(tail))
    } else if ext == "pdf"@ {
        verdict(pdf_ok(tail))
    } else if ext == "zip"@ || ext == "ole"@ || ext == "7z"@ || ext == "pst"@ {
        verdict(occurs_within(tail, 0, tail.len() as int, eocd()))
    } else {
        CarveQuality::Unknown
    }
}

/// A truncated extraction is judged truncated from its tail too.
pub proof fn lemma_tail_truncated_flag_wins(ext: Seq<char>, tail: Seq<u8>)
    ensures tail_quality(ext, tail, true) == CarveQuality::Truncated,
{
}

/// Validate the tail bytes of a newly extracted file.
///
/// JPEG must end with `FF D9`, PNG with the IEND chunk, GIF with `3B`; PDF
/// needs `%%EOF` in its last 1 KiB and the ZIP family an end-of-central-
/// directory signature.  With `is_truncated` the check is skipped and
/// `Truncated` returned.
pub fn validate_extracted(ext: &str, tail: &[u8], is_truncated: bool) -> (r: CarveQuality)
    ensures r == tail_quality(ext@, tail@, is_truncated),
{
    if is_truncated {
        return CarveQuality::Truncated;
    }
    let e = chars_of(ext);
    let ok = if same_chars(&e, "jpg") {
        tail.len() >= 2 && tail[tail.len() - 2] == 0xFF && tail[tail.len() - 1] == 0xD9
    } else if same_chars(&e, "png") {
        tail.len() >= 12 && matches_at(
            tail,
            tail.len() - 12,
            &[0x00, 0x00, 0x00, 0x00, 0x49, 0x45, 0x4E, 0x44, 0xAE, 0x42, 0x60, 0x82],
        )
    } else if same_chars(&e, "gif") {
        tail.len() > 0 && tail[tail.len() - 1] == 0x3B
    } else if same_chars(&e, "pdf") {
        let lo: usize = if tail.len() >= 1024 { tail.len() - 1024 } else { 0 };
        find_within(tail, lo, tail.len(), &[0x25, 0x25, 0x45, 0x4F, 0x46])
    } else if same_chars(&e, "zip") || same_chars(&e, "ole") || same_chars(&e, "7z") || same_chars(&e, "pst") {
        find_within(tail, 0, tail.len(), &[0x50, 0x4B, 0x05, 0x06])
    } else {
        return CarveQuality::Unknown;
    };
    if ok { CarveQuality::Complete } else { CarveQuality::Corrupt }
}

} // verus!
