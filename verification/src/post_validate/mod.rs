//! Post-extraction structural validation.
//!
//! After a file is carved from a device image its structural integrity is
//! judged from format-specific byte patterns:
//!
//! | Tag         | Meaning                                                  |
//! |-------------|----------------------------------------------------------|
//! | `Complete`  | End-of-file marker found; deeper check passed.           |
//! | `Truncated` | Extraction hit the size cap before the end-of-file mark. |
//! | `Corrupt`   | End-of-file marker absent; file is likely damaged.       |
//! | `Unknown`   | No deep check implemented for this format.               |
//!
//! [`validate_extracted`] looks at the **head** (first ≤ 8 192 bytes) and
//! **tail** (last ≤ 65 536 bytes) of the extracted file.  The checks that
//! walk a whole file live in [`file_checks`]; the older tail-only check is
//! kept in [`tail`].
use vstd::prelude::*;
use vstd::utf8::{decode_utf8, valid_utf8};
use crate::bytes::{
    be16, be32, le32, is_alpha, occurs_at, occurs_within, alpha, find_within, matches_at,
    rd_be16, rd_be32, rd_le32, rfind_within,
};
use crate::text::{chars_of, is_ws, same_chars, ws};

pub mod containers;
pub mod file_checks;
pub mod png;
pub mod structural;
pub mod tail;

verus! {

/// Structural integrity tag assigned after file extraction.
#[derive(Debug, Clone, Copy, PartialEq, Eq, Structural)]
pub enum CarveQuality {
    /// End-of-file marker present; structural check passed.
    Complete,
    /// Extraction hit the max-size cap before the end-of-file marker was found.
    Truncated,
    /// File has content but is missing its expected structural tail.
    Corrupt,
    /// No deep structural check is available for this format.
    Unknown,
}

/// `Complete` when `ok`, `Corrupt` otherwise.
pub open spec fn verdict(ok: bool) -> CarveQuality {
    if ok { CarveQuality::Complete } else { CarveQuality::Corrupt }
}

/// The CRC-32 (IEEE 802.3, reflected, as used by PNG and zlib) of `data`.
pub uninterp spec fn crc32_ieee(data: Seq<u8>) -> u32;

/// `crc32fast::hash`: the CRC-32 (IEEE) checksum of `data`.  The contract
/// names the checksum and claims only that it depends on the bytes alone.
#[verifier::external_body]
pub(crate) fn crc32(data: &[u8]) -> (r: u32)
    ensures r == crc32_ieee(data@),
{
    crc32fast::hash(data)
}

/// The characters a byte string decodes to when it is valid UTF-8; the empty
/// string otherwise (how the HTML check treats undecodable input).
pub open spec fn utf8_text(b: Seq<u8>) -> Seq<char> {
    if valid_utf8(b) { decode_utf8(b) } else { Seq::empty() }
}

/// `std::str::from_utf8`: succeeds exactly on valid UTF-8, giving the string
/// those bytes encode.
#[verifier::external_body]
fn str_from_utf8(b: &[u8]) -> (r: Option<&str>)
    ensures
        r is Some == valid_utf8(b@),
        r matches Some(s) ==> s@ == decode_utf8(b@),
{
    std::str::from_utf8(b).ok()
}

/// The characters of `b` decoded as UTF-8, or none when it is not UTF-8.
fn utf8_chars(b: &[u8]) -> (r: Vec<char>)
    ensures r@ == utf8_text(b@),
{
    match str_from_utf8(b) {
        Some(s) => chars_of(s),
        None => Vec::new(),
    }
}

/// What [`validate_extracted`] answers for an extension, head, tail,
/// truncation flag and file size.
pub open spec fn extracted_quality(
    ext: Seq<char>,
    head: Seq<u8>,
    tail: Seq<u8>,
    is_truncated: bool,
    file_size: u64,
) -> CarveQuality {
    if is_truncated {
        CarveQuality::Truncated
    } else if ext == "jpg"@ {
        jpeg_quality(head, tail)
    } else if ext == "png"@ {
        png::png_quality(head, tail, file_size as int)
    } else if ext == "gif"@ {
        verdict(gif_ok(tail))
    } else if ext == "pdf"@ {
        verdict(pdf_ok(tail))
    } else if ext == "html"@ {
        html_quality(head, tail)
    } else if ext == "zip"@ || ext == "ole"@ || ext == "7z"@ || ext == "pst"@ || ext == "epub"@ {
        verdict(zip_ok(tail, file_size as int))
    } else {
        CarveQuality::Unknown
    }
}

/// A truncated extraction is judged truncated, whatever its type and bytes.
pub proof fn lemma_truncated_flag_wins(ext: Seq<char>, head: Seq<u8>, tail: Seq<u8>, file_size: u64)
    ensures extracted_quality(ext, head, tail, true, file_size) == CarveQuality::Truncated,
{
}

/// An extracted PNG (not flagged truncated) whose tail does not end with
/// the IEND chunk is corrupt, whatever its head and size.
pub proof fn lemma_png_without_iend_is_corrupt(head: Seq<u8>, tail: Seq<u8>, file_size: u64)
    requires !png::ends_with_iend(tail),
    ensures extracted_quality("png"@, head, tail, false, file_size) == CarveQuality::Corrupt,
{
    reveal_strlit("png");
    reveal_strlit("jpg");
    assert("png"@[0] != "jpg"@[0]);
}

/// The first APP0 or APP1 segment of a JPEG head (an Exif or JFIF block,
/// which may hold a thumbnail with its own SOI) is not searched for a second
/// SOI: changing any byte inside it, past its length field and before
/// `2 + length` (the big-endian length at 4), never changes the verdict.
/// In particular a thumbnail's `FF D8` there does not make the file corrupt.
pub proof fn lemma_jpeg_first_app_segment_skipped(head: Seq<u8>, tail: Seq<u8>, file_size: u64, i: int, x: u8)
    requires
        head.len() >= 6,
        head[3] == 0xE0 || head[3] == 0xE1,
        6 <= i < head.len(),
        i < 2 + (head[4] as int * 256 + head[5] as int),
    ensures
        extracted_quality("jpg"@, head.update(i, x), tail, false, file_size)
            == extracted_quality("jpg"@, head, tail, false, file_size),
{
    reveal_strlit("jpg");
    let h2 = head.update(i, x);
    assert(first_app_end(h2) == first_app_end(head));
    let e = first_app_end(head);
    assert(e > i);
    let pat = seq![0xFFu8, 0xD8];
    assert forall|j: int| e <= j implies #[trigger] occurs_at(h2, j, pat) == occurs_at(head, j, pat) by {
        if 0 <= j && j + 2 <= head.len() {
            assert(h2.subrange(j, j + 2) =~= head.subrange(j, j + 2));
        }
    }
    if occurs_within(head, e, head.len() as int, pat) {
        let j = choose|j: int| e <= j && j + pat.len() <= head.len() && #[trigger] occurs_at(head, j, pat);
        assert(occurs_at(h2, j, pat));
    }
    if occurs_within(h2, e, h2.len() as int, pat) {
        let j = choose|j: int| e <= j && j + pat.len() <= h2.len() && #[trigger] occurs_at(h2, j, pat);
        assert(occurs_at(head, j, pat));
    }
    assert(embedded_soi(h2) == embedded_soi(head));
}

/// Only the known types can be judged complete or corrupt; any other
/// extension gives `Unknown` (or `Truncated` for a truncated file).
pub proof fn lemma_unknown_type_not_judged(ext: Seq<char>, head: Seq<u8>, tail: Seq<u8>, is_truncated: bool, file_size: u64)
    requires
        ext != "jpg"@, ext != "png"@, ext != "gif"@, ext != "pdf"@, ext != "html"@,
        ext != "zip"@, ext != "ole"@, ext != "7z"@, ext != "pst"@, ext != "epub"@,
    ensures
        extracted_quality(ext, head, tail, is_truncated, file_size)
            == (if is_truncated { CarveQuality::Truncated } else { CarveQuality::Unknown }),
{
}

/// Validate the head and tail bytes of a newly extracted file.
///
/// `head` should be the first ≤ 8 192 bytes of the extracted file, `tail`
/// the last ≤ 65 536 bytes and `file_size` its total size (used by ZIP to
/// check the central directory offset and by PNG to place chunks).  With
/// `is_truncated` the check is skipped and `Truncated` returned.
pub fn validate_extracted(ext: &str, head: &[u8], tail: &[u8], is_truncated: bool, file_size: u64) -> (r: CarveQuality)
    ensures r == extracted_quality(ext@, head@, tail@, is_truncated, file_size),
{
    if is_truncated {
        return CarveQuality::Truncated;
    }
    let e = chars_of(ext);
    if same_chars(&e, "jpg") {
        jpeg_check(head, tail)
    } else if same_chars(&e, "png") {
        png::png_check(head, tail, file_size)
    } else if same_chars(&e, "gif") {
        if gif_check(tail) { CarveQuality::Complete } else { CarveQuality::Corrupt }
    } else if same_chars(&e, "pdf") {
        if pdf_check(tail) { CarveQuality::Complete } else { CarveQuality::Corrupt }
    } else if same_chars(&e, "html") {
        html_check(head, tail)
    } else if same_chars(&e, "zip") || same_chars(&e, "ole") || same_chars(&e, "7z") || same_chars(&e, "pst")
        || same_chars(&e, "epub") {
        if zip_check(tail, file_size) { CarveQuality::Complete } else { CarveQuality::Corrupt }
    } else {
        CarveQuality::Unknown
    }
}

// ── JPEG ─────────────────────────────────────────────────────────────────────

/// The data ends with the End-of-Image marker `FF D9`.
pub open spec fn ends_with_eoi(t: Seq<u8>) -> bool {
    t.len() >= 2 && t[t.len() - 2] == 0xFF && t[t.len() - 1] == 0xD9
}

/// Where the first APP0/APP1 segment after the SOI ends (clamped to the
/// head), or 4 when the first marker is no APP0/APP1.
pub open spec fn first_app_end(head: Seq<u8>) -> int {
    if head[3] == 0xE0 || head[3] == 0xE1 {
        let e = 2 + be16(head, 4);
        if e <= head.len() { e } else { head.len() as int }
    } else {
        4
    }
}

/// A second SOI `FF D8` appears after the first APP segment of the head.
pub open spec fn embedded_soi(head: Seq<u8>) -> bool {
    head.len() >= 6 && occurs_within(head, first_app_end(head), head.len() as int, seq![0xFFu8, 0xD8])
}

/// A marker byte allowed to follow `FF` inside entropy-coded data (besides
/// the fill byte `FF`): stuffing `00`, restart markers `D0`–`D7`, EOI `D9`.
pub open spec fn scan_follower(b: u8) -> bool {
    b == 0x00 || (0xD0 <= b <= 0xD7) || b == 0xD9
}

/// Entropy-coded data `s[i..hi]` holds no invalid marker: scanning left to
/// right, each `FF` is followed by a stuffing/restart/EOI byte (both
/// skipped) or a fill byte `FF` (which is re-examined).  An `FF` at the very
/// end is tolerated.
pub open spec fn scan_ok(s: Seq<u8>, i: int, hi: int) -> bool
    decreases hi - i,
{
    if i >= hi {
        true
    } else if s[i] != 0xFF {
        scan_ok(s, i + 1, hi)
    } else if i + 1 >= hi {
        true
    } else if scan_follower(s[i + 1]) {
        scan_ok(s, i + 2, hi)
    } else if s[i + 1] == 0xFF {
        scan_ok(s, i + 1, hi)
    } else {
        false
    }
}

/// Start of the last 4 KiB of entropy data before the final EOI.
pub open spec fn scan_start(t: Seq<u8>) -> int {
    if t.len() - 2 >= 4096 { t.len() - 2 - 4096 } else { 0 }
}

/// JPEG: ends with EOI, no second SOI after the first APP segment, and
/// the last 4 KiB of entropy data holds no invalid marker.
pub open spec fn jpeg_quality(head: Seq<u8>, tail: Seq<u8>) -> CarveQuality {
    if !ends_with_eoi(tail) || embedded_soi(head) {
        CarveQuality::Corrupt
    } else {
        verdict(scan_ok(tail, scan_start(tail), tail.len() - 2))
    }
}

fn entropy_check(t: &[u8], lo: usize, hi: usize) -> (r: bool)
    requires lo <= hi <= t.len(),
    ensures r == scan_ok(t@, lo as int, hi as int),
{
    let mut i: usize = lo;
    while i < hi
        invariant
            lo <= i,
            hi <= t.len(),
            scan_ok(t@, i as int, hi as int) == scan_ok(t@, lo as int, hi as int),
        decreases hi - i,
    {
        if t[i] == 0xFF {
            if i + 1 >= hi {
                return true;
            }
            let f = t[i + 1];
            if f == 0x00 || (0xD0 <= f && f <= 0xD7) || f == 0xD9 {
                i += 2;
            } else if f == 0xFF {
                i += 1;
            } else {
                return false;
            }
        } else {
            i += 1;
        }
    }
    true
}

fn jpeg_check(head: &[u8], tail: &[u8]) -> (r: CarveQuality)
    ensures r == jpeg_quality(head@, tail@),
{
    if tail.len() < 2 || tail[tail.len() - 2] != 0xFF || tail[tail.len() - 1] != 0xD9 {
        return CarveQuality::Corrupt;
    }
    if head.len() >= 6 {
        let first_marker = head[3];
        let app_seg_end: usize = if first_marker == 0xE0 || first_marker == 0xE1 {
            let seg_len = rd_be16(head, 4) as usize;
            if seg_len <= head.len() - 2 { 2 + seg_len } else { head.len() }
        } else {
            4
        };
        if find_within(head, app_seg_end, head.len(), &[0xFF, 0xD8]) {
            return CarveQuality::Corrupt;
        }
    }
    let scan_end = tail.len() - 2;
    let lo: usize = if scan_end >= 4096 { scan_end - 4096 } else { 0 };
    if entropy_check(tail, lo, scan_end) { CarveQuality::Complete } else { CarveQuality::Corrupt }
}

// ── GIF / PDF ────────────────────────────────────────────────────────────────

/// GIF: the last byte is the trailer `3B`.
pub open spec fn gif_ok(t: Seq<u8>) -> bool {
    t.len() > 0 && t[t.len() - 1] == 0x3B
}

fn gif_check(tail: &[u8]) -> (r: bool)
    ensures r == gif_ok(tail@),
{
    tail.len() > 0 && tail[tail.len() - 1] == 0x3B
}

/// `%%EOF`.
pub open spec fn pdf_eof() -> Seq<u8> { seq![0x25u8, 0x25, 0x45, 0x4F, 0x46] }

/// PDF: `%%EOF` lies within the last 1 KiB.
pub open spec fn pdf_ok(t: Seq<u8>) -> bool {
    let lo = if t.len() >= 1024 { t.len() - 1024 } else { 0 };
    occurs_within(t, lo, t.len() as int, pdf_eof())
}

fn pdf_check(tail: &[u8]) -> (r: bool)
    ensures r == pdf_ok(tail@),
{
    let lo: usize = if tail.len() >= 1024 { tail.len() - 1024 } else { 0 };
    find_within(tail, lo, tail.len(), &[0x25, 0x25, 0x45, 0x4F, 0x46])
}

// ── ZIP family ───────────────────────────────────────────────────────────────

/// End-of-central-directory signature `PK\x05\x06`.
pub open spec fn eocd() -> Seq<u8> { seq![0x50u8, 0x4B, 0x05, 0x06] }

/// `p` is the last EOCD signature in `t`.
pub open spec fn is_last_eocd(t: Seq<u8>, p: int) -> bool {
    occurs_at(t, p, eocd()) && forall|q: int| p < q && q + 4 <= t.len() ==> !#[trigger] occurs_at(t, q, eocd())
}

/// The central directory offset recorded in a complete EOCD record at `p`
/// lies beyond the file (the value `FFFFFFFF` marks ZIP64 and is accepted).
pub open spec fn cd_offset_beyond(t: Seq<u8>, p: int, file_size: int) -> bool {
    p + 22 <= t.len() && le32(t, p + 16) != 0xFFFF_FFFF && le32(t, p + 16) > file_size
}

/// ZIP / OLE2 / 7-Zip / PST / EPUB: an EOCD signature is present and the
/// last one does not point its central directory beyond the file.
pub open spec fn zip_ok(t: Seq<u8>, file_size: int) -> bool {
    occurs_within(t, 0, t.len() as int, eocd())
        && !exists|p: int| is_last_eocd(t, p) && cd_offset_beyond(t, p, file_size)
}

fn zip_check(tail: &[u8], file_size: u64) -> (r: bool)
    ensures r == zip_ok(tail@, file_size as int),
{
    match rfind_within(tail, 0, tail.len(), &[0x50, 0x4B, 0x05, 0x06]) {
        None => false,
        Some(p) => {
            assert(is_last_eocd(tail@, p as int));
            assert(occurs_within(tail@, 0, tail@.len() as int, eocd()));
            let beyond = if tail.len() >= 22 && p <= tail.len() - 22 {
                let cd = rd_le32(tail, p + 16);
                cd != 0xFFFF_FFFF && cd as u64 > file_size
            } else {
                false
            };
            assert forall|q: int| is_last_eocd(tail@, q) implies q == p by {
                if q < p { assert(occurs_at(tail@, p as int, eocd())); }
                if q > p { assert(occurs_at(tail@, q, eocd())); }
            }
            !beyond
        },
    }
}

// ── HTML ─────────────────────────────────────────────────────────────────────

/// Length of `s[..k]` once trailing whitespace is removed.
pub open spec fn trimmed_len(s: Seq<char>, k: int) -> int
    decreases k,
{
    if k > 0 && is_ws(s[k - 1]) { trimmed_len(s, k - 1) } else { k }
}

/// `s[..k]` ends with `pat`.
pub open spec fn ends_with_at(s: Seq<char>, k: int, pat: Seq<char>) -> bool {
    pat.len() <= k && s.subrange(k - pat.len(), k) == pat
}

/// First position at or after `i` where `pat` starts in `s`.
pub open spec fn find_from(s: Seq<char>, pat: Seq<char>, i: int) -> Option<int>
    decreases s.len() + 1 - i,
{
    if i < 0 || i + pat.len() > s.len() {
        None
    } else if s.subrange(i, i + pat.len()) == pat {
        Some(i)
    } else {
        find_from(s, pat, i + 1)
    }
}

/// Where the content of the `<body>` element starts: just after the first
/// `>` following the first `<body` (or, failing that, `<BODY`).
pub open spec fn body_start(s: Seq<char>) -> Option<int> {
    let tag = match find_from(s, "<body"@, 0) {
        Some(p) => Some(p),
        None => find_from(s, "<BODY"@, 0),
    };
    match tag {
        None => None,
        Some(p) => match find_from(s, ">"@, p) {
            Some(g) => Some(g + 1),
            None => None,
        },
    }
}

/// Number of non-whitespace characters of `s[i..]` outside `<…>` tags,
/// starting inside a tag when `in_tag`.
pub open spec fn visible_from(s: Seq<char>, i: int, in_tag: bool) -> int
    decreases s.len() - i,
{
    if i < 0 || i >= s.len() {
        0
    } else if s[i] == '<' {
        visible_from(s, i + 1, true)
    } else if s[i] == '>' {
        visible_from(s, i + 1, false)
    } else if !in_tag && !is_ws(s[i]) {
        1 + visible_from(s, i + 1, in_tag)
    } else {
        visible_from(s, i + 1, in_tag)
    }
}

/// HTML: ends with `</html>` (or `</HTML>`) up to trailing whitespace, and
/// when a `<body>` tag is in the head, its content holds at least 32
/// visible characters.  Bytes that are not UTF-8 count as an empty text.
pub open spec fn html_quality(head: Seq<u8>, tail: Seq<u8>) -> CarveQuality {
    let t = utf8_text(tail);
    let k = trimmed_len(t, t.len() as int);
    if !ends_with_at(t, k, "</html>"@) && !ends_with_at(t, k, "</HTML>"@) {
        CarveQuality::Corrupt
    } else {
        let h = utf8_text(head);
        match body_start(h) {
            None => CarveQuality::Complete,
            Some(b) => verdict(visible_from(h, b, false) >= 32),
        }
    }
}

proof fn lemma_visible_nonneg(s: Seq<char>, i: int, in_tag: bool)
    ensures visible_from(s, i, in_tag) >= 0,
    decreases s.len() - i,
{
    if 0 <= i < s.len() {
        lemma_visible_nonneg(s, i + 1, s[i] == '<' || (s[i] != '>' && in_tag));
        lemma_visible_nonneg(s, i + 1, true);
        lemma_visible_nonneg(s, i + 1, false);
        lemma_visible_nonneg(s, i + 1, in_tag);
    }
}

fn trimmed(v: &Vec<char>) -> (k: usize)
    ensures
        k == trimmed_len(v@, v@.len() as int),
        k <= v@.len(),
{
    let mut k = v.len();
    while k > 0 && ws(v[k - 1])
        invariant
            k <= v.len(),
            trimmed_len(v@, k as int) == trimmed_len(v@, v@.len() as int),
        decreases k,
    {
        k -= 1;
    }
    k
}

fn ends_with_chars(v: &Vec<char>, k: usize, pat: &str) -> (r: bool)
    requires k <= v.len(),
    ensures r == ends_with_at(v@, k as int, pat@),
{
    let p = chars_of(pat);
    if p.len() > k {
        return false;
    }
    let base = k - p.len();
    let mut i: usize = 0;
    while i < p.len()
        invariant
            i <= p.len(),
            base + p.len() == k,
            k <= v.len(),
            p@ == pat@,
            forall|j: int| 0 <= j < i ==> v@[base + j] == p@[j],
        decreases p.len() - i,
    {
        if v[base + i] != p[i] {
            assert(v@.subrange(base as int, k as int)[i as int] != pat@[i as int]);
            return false;
        }
        i += 1;
    }
    assert(v@.subrange(base as int, k as int) =~= pat@);
    true
}

proof fn lemma_find_from_bounds(s: Seq<char>, pat: Seq<char>, i: int)
    ensures
        find_from(s, pat, i) matches Some(p) ==> i <= p && p + pat.len() <= s.len(),
    decreases s.len() + 1 - i,
{
    if !(i < 0 || i + pat.len() > s.len()) && s.subrange(i, i + pat.len()) != pat {
        lemma_find_from_bounds(s, pat, i + 1);
    }
}

fn find_chars(v: &Vec<char>, pat: &str, from: usize) -> (r: Option<usize>)
    ensures
        match r {
            Some(p) => find_from(v@, pat@, from as int) == Some(p as int),
            None => find_from(v@, pat@, from as int) is None,
        },
{
    let p = chars_of(pat);
    let mut i = from;
    while i <= v.len() && p.len() <= v.len() - i
        invariant
            from <= i,
            p@ == pat@,
            find_from(v@, pat@, i as int) == find_from(v@, pat@, from as int),
        decreases v.len() - i,
    {
        let mut j: usize = 0;
        let mut same = true;
        while j < p.len()
            invariant
                j <= p.len(),
                i + p.len() <= v.len(),
                p@ == pat@,
                same == forall|m: int| 0 <= m < j ==> v@[i + m] == p@[m],
            decreases p.len() - j,
        {
            if v[i + j] != p[j] {
                same = false;
            }
            j += 1;
        }
        if same {
            assert(v@.subrange(i as int, i + p@.len()) =~= pat@);
            return Some(i);
        } else {
            assert(v@.subrange(i as int, i + p@.len()) != pat@) by {
                let m = choose|m: int| 0 <= m < p@.len() && v@[i + m] != p@[m];
                assert(v@.subrange(i as int, i + p@.len())[m] != pat@[m]);
            }
        }
        i += 1;
    }
    None
}

/// Counts visible characters of `v[from..]`, stopping early at 32.
fn visible_at_least_32(v: &Vec<char>, from: usize) -> (r: bool)
    ensures r == (visible_from(v@, from as int, false) >= 32),
{
    let mut count: usize = 0;
    let mut in_tag = false;
    let mut i = from;
    proof { lemma_visible_nonneg(v@, from as int, false); }
    while i < v.len()
        invariant
            from <= i,
            count < 32,
            count + visible_from(v@, i as int, in_tag) == visible_from(v@, from as int, false),
        decreases v.len() - i,
    {
        let ch = v[i];
        if ch == '<' {
            in_tag = true;
        } else if ch == '>' {
            in_tag = false;
        } else if !in_tag && !ws(ch) {
            count += 1;
            if count >= 32 {
                proof { lemma_visible_nonneg(v@, i + 1, in_tag); }
                return true;
            }
        }
        i += 1;
    }
    false
}

fn html_check(head: &[u8], tail: &[u8]) -> (r: CarveQuality)
    ensures r == html_quality(head@, tail@),
{
    let t = utf8_chars(tail);
    let k = trimmed(&t);
    if !ends_with_chars(&t, k, "</html>") && !ends_with_chars(&t, k, "</HTML>") {
        return CarveQuality::Corrupt;
    }
    let h = utf8_chars(head);
    let tag = match find_chars(&h, "<body", 0) {
        Some(p) => Some(p),
        None => find_chars(&h, "<BODY", 0),
    };
    let start = match tag {
        None => None,
        Some(p) => match find_chars(&h, ">", p) {
            Some(g) => {
                proof {
                    reveal_strlit(">");
                    assert(">"@ =~= seq!['>']);
                    lemma_find_from_bounds(h@, ">"@, p as int);
                    assert(find_from(h@, ">"@, p as int) == Some(g as int));
                    assert(g + 1 <= h@.len());
                }
                Some(g + 1)
            },
            None => None,
        },
    };
    match start {
        None => CarveQuality::Complete,
        Some(b) => if visible_at_least_32(&h, b) { CarveQuality::Complete } else { CarveQuality::Corrupt },
    }
}

} // verus!
