//! Text, document, font and miscellaneous file formats.
use vstd::prelude::*;
use crate::bytes::{
    ascii_lower, be16, be32, is_digit, is_print, is_upper, le16, occurs_at, short, digit, print,
    to_lower, upper, matches_at, rd_be16, rd_be32, rd_le16, short_at,
};

verus! {

/// PDF: `-1.<digit>` or `-2.<digit>` after `%PDF`.
pub open spec fn accepts_pdf(d: Seq<u8>, pos: int) -> bool {
    short(d, pos, 8) || (d[pos + 4] == 0x2D && (d[pos + 5] == 0x31 || d[pos + 5] == 0x32)
        && d[pos + 6] == 0x2E && is_digit(d[pos + 7]))
}

pub fn validate_pdf(data: &[u8], pos: usize) -> (r: bool)
    ensures r == accepts_pdf(data@, pos as int),
{
    if short_at(data, pos, 8) {
        return true;
    }
    data[pos + 4] == 0x2D && (data[pos + 5] == 0x31 || data[pos + 5] == 0x32) && data[pos + 6] == 0x2E
        && digit(data[pos + 7])
}

/// XML: ` version` follows `<?xml`.
pub open spec fn accepts_xml(d: Seq<u8>, pos: int) -> bool {
    short(d, pos, 13) || occurs_at(d, pos + 5, seq![0x20u8, 0x76, 0x65, 0x72, 0x73, 0x69, 0x6F, 0x6E])
}

pub fn validate_xml(data: &[u8], pos: usize) -> (r: bool)
    ensures r == accepts_xml(data@, pos as int),
{
    if short_at(data, pos, 13) {
        return true;
    }
    matches_at(data, pos + 5, &[0x20, 0x76, 0x65, 0x72, 0x73, 0x69, 0x6F, 0x6E])
}

/// HTML: `<!DOCTYPE` followed by a space and `html` in any letter case.
pub open spec fn accepts_html(d: Seq<u8>, pos: int) -> bool {
    short(d, pos, 14) || (d[pos + 9] == 0x20 && ascii_lower(d[pos + 10]) == 0x68
        && ascii_lower(d[pos + 11]) == 0x74 && ascii_lower(d[pos + 12]) == 0x6D
        && ascii_lower(d[pos + 13]) == 0x6C)
}

pub fn validate_html(data: &[u8], pos: usize) -> (r: bool)
    ensures r == accepts_html(data@, pos as int),
{
    if short_at(data, pos, 14) {
        return true;
    }
    data[pos + 9] == 0x20 && to_lower(data[pos + 10]) == 0x68 && to_lower(data[pos + 11]) == 0x74
        && to_lower(data[pos + 12]) == 0x6D && to_lower(data[pos + 13]) == 0x6C
}

/// RTF: byte @6 is backslash, space, CR or LF.
pub open spec fn accepts_rtf(d: Seq<u8>, pos: int) -> bool {
    let b = d[pos + 6];
    short(d, pos, 7) || b == 0x5C || b == 0x20 || b == 0x0D || b == 0x0A
}

pub fn validate_rtf(data: &[u8], pos: usize) -> (r: bool)
    ensures r == accepts_rtf(data@, pos as int),
{
    if short_at(data, pos, 7) {
        return true;
    }
    let b = data[pos + 6];
    b == 0x5C || b == 0x20 || b == 0x0D || b == 0x0A
}

/// vCard: `BEGIN:VCARD` followed by CR or LF.
pub open spec fn accepts_vcard(d: Seq<u8>, pos: int) -> bool {
    short(d, pos, 12) || d[pos + 11] == 0x0D || d[pos + 11] == 0x0A
}

pub fn validate_vcard(data: &[u8], pos: usize) -> (r: bool)
    ensures r == accepts_vcard(data@, pos as int),
{
    if short_at(data, pos, 12) {
        return true;
    }
    data[pos + 11] == 0x0D || data[pos + 11] == 0x0A
}

/// iCalendar: `BEGIN:VCALENDAR` followed by CR or LF.
pub open spec fn accepts_ical(d: Seq<u8>, pos: int) -> bool {
    short(d, pos, 16) || d[pos + 15] == 0x0D || d[pos + 15] == 0x0A
}

pub fn validate_ical(data: &[u8], pos: usize) -> (r: bool)
    ensures r == accepts_ical(data@, pos as int),
{
    if short_at(data, pos, 16) {
        return true;
    }
    data[pos + 15] == 0x0D || data[pos + 15] == 0x0A
}

/// A byte allowed on an mbox `From ` line: tab, CR or printable ASCII.
pub open spec fn from_line_byte(b: u8) -> bool {
    b == 0x09 || b == 0x0D || is_print(b)
}

/// Scan of the `From ` line bytes `d[i..end]`: stops at the first LF;
/// refuses any other disallowed byte before it; succeeds when an `@` was
/// seen (tracked in `has_at`).
pub open spec fn from_line_ok(d: Seq<u8>, i: int, end: int, has_at: bool) -> bool
    decreases end - i,
{
    if i >= end {
        has_at
    } else {
        let b = d[i];
        let h = has_at || b == 0x40;
        if b == 0x0A {
            h
        } else if !from_line_byte(b) {
            false
        } else {
            from_line_ok(d, i + 1, end, h)
        }
    }
}

/// Email (mbox): with 85 bytes available, the 80 bytes after `From ` up to
/// the first LF must be printable (tab and CR allowed) and contain `@`;
/// with fewer, the byte after `From ` must be printable.
pub open spec fn accepts_eml(d: Seq<u8>, pos: int) -> bool {
    if short(d, pos, 85) {
        short(d, pos, 6) || is_print(d[pos + 5])
    } else {
        from_line_ok(d, pos + 5, pos + 85, false)
    }
}

pub fn validate_eml(data: &[u8], pos: usize) -> (r: bool)
    ensures r == accepts_eml(data@, pos as int),
{
    if short_at(data, pos, 85) {
        if short_at(data, pos, 6) {
            return true;
        }
        return print(data[pos + 5]);
    }
    let end = pos + 85;
    let mut has_at = false;
    let mut i = pos + 5;
    while i < end
        invariant
            pos + 5 <= i <= end,
            end == pos + 85,
            end <= data.len(),
            from_line_ok(data@, pos + 5, end as int, false) == from_line_ok(data@, i as int, end as int, has_at),
        decreases end - i,
    {
        let b = data[i];
        let h = has_at || b == 0x40;
        if b == 0x0A {
            return h;
        }
        if !(b == 0x09 || b == 0x0D || print(b)) {
            return false;
        }
        has_at = h;
        i += 1;
    }
    has_at
}

/// PEM: space after `-----BEGIN` and an upper-case label start.
pub open spec fn accepts_pem(d: Seq<u8>, pos: int) -> bool {
    short(d, pos, 12) || (d[pos + 10] == 0x20 && is_upper(d[pos + 11]))
}

pub fn validate_pem(data: &[u8], pos: usize) -> (r: bool)
    ensures r == accepts_pem(data@, pos as int),
{
    if short_at(data, pos, 12) {
        return true;
    }
    data[pos + 10] == 0x20 && upper(data[pos + 11])
}

/// PHP: whitespace after `<?php`.
pub open spec fn accepts_php(d: Seq<u8>, pos: int) -> bool {
    let b = d[pos + 5];
    short(d, pos, 6) || b == 0x20 || b == 0x09 || b == 0x0D || b == 0x0A
}

pub fn validate_php(data: &[u8], pos: usize) -> (r: bool)
    ensures r == accepts_php(data@, pos as int),
{
    if short_at(data, pos, 6) {
        return true;
    }
    let b = data[pos + 5];
    b == 0x20 || b == 0x09 || b == 0x0D || b == 0x0A
}

/// Shebang: `#!/` then `b` or `u`, then three printable bytes.
pub open spec fn accepts_shebang(d: Seq<u8>, pos: int) -> bool {
    short(d, pos, 7) || (d[pos + 2] == 0x2F && (d[pos + 3] == 0x62 || d[pos + 3] == 0x75)
        && is_print(d[pos + 4]) && is_print(d[pos + 5]) && is_print(d[pos + 6]))
}

pub fn validate_shebang(data: &[u8], pos: usize) -> (r: bool)
    ensures r == accepts_shebang(data@, pos as int),
{
    if short_at(data, pos, 7) {
        return true;
    }
    if data[pos + 2] != 0x2F {
        return false;
    }
    let b3 = data[pos + 3];
    if b3 != 0x62 && b3 != 0x75 {
        return false;
    }
    print(data[pos + 4]) && print(data[pos + 5]) && print(data[pos + 6])
}

/// FITS: value indicator space @9 and logical `T` @29.
pub open spec fn accepts_fits(d: Seq<u8>, pos: int) -> bool {
    short(d, pos, 30) || (d[pos + 9] == 0x20 && d[pos + 29] == 0x54)
}

pub fn validate_fits(data: &[u8], pos: usize) -> (r: bool)
    ensures r == accepts_fits(data@, pos as int),
{
    if short_at(data, pos, 30) {
        return true;
    }
    if data[pos + 9] != 0x20 {
        return false;
    }
    data[pos + 29] == 0x54
}

/// 2 to the power `e` (1 for non-positive `e`).
pub open spec fn pow2(e: int) -> int
    decreases e,
{
    if e <= 0 { 1 } else { 2 * pow2(e - 1) }
}

/// TrueType: numTables in [4, 50] with entrySelector = ⌊log2 numTables⌋ and
/// searchRange = 16 · 2^entrySelector.
pub open spec fn accepts_ttf(d: Seq<u8>, pos: int) -> bool {
    let nt = be16(d, pos + 4);
    let es = be16(d, pos + 8);
    short(d, pos, 12) || (4 <= nt <= 50 && be16(d, pos + 6) == 16 * pow2(es)
        && pow2(es) <= nt < pow2(es + 1))
}

pub fn validate_ttf(data: &[u8], pos: usize) -> (r: bool)
    ensures r == accepts_ttf(data@, pos as int),
{
    if short_at(data, pos, 12) {
        return true;
    }
    let num_tables = rd_be16(data, pos + 4);
    if !(4 <= num_tables && num_tables <= 50) {
        return false;
    }
    let search_range = rd_be16(data, pos + 6);
    let entry_selector = rd_be16(data, pos + 8);
    // 2^entry_selector, stopping once it exceeds numTables (no valid table
    // count reaches 2^6).
    let mut p: u32 = 1;
    let mut k: u16 = 0;
    while k < entry_selector && p <= 64
        invariant
            k <= entry_selector,
            p == pow2(k as int),
            p <= 128,
        decreases entry_selector - k,
    {
        p = p * 2;
        k += 1;
    }
    if k < entry_selector {
        // p > 64 ≥ numTables, so 2^entry_selector > numTables as well.
        assert(pow2(entry_selector as int) >= pow2(k as int)) by {
            lemma_pow2_mono(k as int, entry_selector as int);
        }
        return false;
    }
    let nt = num_tables as u32;
    search_range as u32 == 16 * p && p <= nt && nt < 2 * p
}

pub proof fn lemma_pow2_mono(a: int, b: int)
    requires 0 <= a <= b,
    ensures 1 <= pow2(a) <= pow2(b),
    decreases b,
{
    if a < b {
        lemma_pow2_mono(a, b - 1);
    } else if a > 0 {
        lemma_pow2_mono(a - 1, a - 1);
    }
}

/// WOFF: flavor TrueType / CFF / `true`; length ≥ 44; numTables in [1, 50].
pub open spec fn accepts_woff(d: Seq<u8>, pos: int) -> bool {
    let f = be32(d, pos + 4);
    short(d, pos, 14) || ((f == 0x0001_0000 || f == 0x4F54_544F || f == 0x7472_7565)
        && be32(d, pos + 8) >= 44 && 1 <= be16(d, pos + 12) <= 50)
}

pub fn validate_woff(data: &[u8], pos: usize) -> (r: bool)
    ensures r == accepts_woff(data@, pos as int),
{
    if short_at(data, pos, 14) {
        return true;
    }
    let f = rd_be32(data, pos + 4);
    if !(f == 0x0001_0000 || f == 0x4F54_544F || f == 0x7472_7565) {
        return false;
    }
    if rd_be32(data, pos + 8) < 44 {
        return false;
    }
    let nt = rd_be16(data, pos + 12);
    1 <= nt && nt <= 50
}

/// WOFF2: flavor TrueType / CFF; numTables (u16 BE @12) in [1, 50].
pub open spec fn accepts_woff2(d: Seq<u8>, pos: int) -> bool {
    let f = be32(d, pos + 4);
    short(d, pos, 14) || ((f == 0x0001_0000 || f == 0x4F54_544F) && 1 <= be16(d, pos + 12) <= 50)
}

pub fn validate_woff2(data: &[u8], pos: usize) -> (r: bool)
    ensures r == accepts_woff2(data@, pos as int),
{
    if short_at(data, pos, 14) {
        return true;
    }
    let f = rd_be32(data, pos + 4);
    if f != 0x0001_0000 && f != 0x4F54_544F {
        return false;
    }
    let nt = rd_be16(data, pos + 12);
    1 <= nt && nt <= 50
}

/// OpenType (CFF): numTables in [1, 50].
pub open spec fn accepts_otf(d: Seq<u8>, pos: int) -> bool {
    short(d, pos, 6) || 1 <= be16(d, pos + 4) <= 50
}

pub fn validate_otf(data: &[u8], pos: usize) -> (r: bool)
    ensures r == accepts_otf(data@, pos as int),
{
    if short_at(data, pos, 6) {
        return true;
    }
    let nt = rd_be16(data, pos + 4);
    1 <= nt && nt <= 50
}

/// CHM: the 12-byte magic must be wholly present.
pub open spec fn accepts_chm(d: Seq<u8>, pos: int) -> bool {
    !short(d, pos, 12)
}

pub fn validate_chm(data: &[u8], pos: usize) -> (r: bool)
    ensures r == accepts_chm(data@, pos as int),
{
    !short_at(data, pos, 12)
}

/// InDesign: the 16-byte GUID must be wholly present.
pub open spec fn accepts_indd(d: Seq<u8>, pos: int) -> bool {
    !short(d, pos, 16)
}

pub fn validate_indd(data: &[u8], pos: usize) -> (r: bool)
    ensures r == accepts_indd(data@, pos as int),
{
    !short_at(data, pos, 16)
}

/// WTV: the 16-byte GUID must be wholly present.
pub open spec fn accepts_wtv(d: Seq<u8>, pos: int) -> bool {
    !short(d, pos, 16)
}

pub fn validate_wtv(data: &[u8], pos: usize) -> (r: bool)
    ensures r == accepts_wtv(data@, pos as int),
{
    !short_at(data, pos, 16)
}

/// Binary plist: at least 34 bytes present.
pub open spec fn accepts_plist(d: Seq<u8>, pos: int) -> bool {
    !short(d, pos, 34)
}

pub fn validate_plist(data: &[u8], pos: usize) -> (r: bool)
    ensures r == accepts_plist(data@, pos as int),
{
    !short_at(data, pos, 34)
}

/// Blender: pointer-size byte `-` or `_`, endianness byte `v` or `V`.
pub open spec fn accepts_blend(d: Seq<u8>, pos: int) -> bool {
    short(d, pos, 9) || ((d[pos + 7] == 0x2D || d[pos + 7] == 0x5F) && (d[pos + 8] == 0x76 || d[pos + 8] == 0x56))
}

pub fn validate_blend(data: &[u8], pos: usize) -> (r: bool)
    ensures r == accepts_blend(data@, pos as int),
{
    if short_at(data, pos, 9) {
        return true;
    }
    let ptr = data[pos + 7];
    let endian = data[pos + 8];
    (ptr == 0x2D || ptr == 0x5F) && (endian == 0x76 || endian == 0x56)
}

/// DICOM: first element in group 0x0002 with an upper-case VR.
pub open spec fn accepts_dicom(d: Seq<u8>, pos: int) -> bool {
    short(d, pos, 10) || (le16(d, pos + 4) == 2 && is_upper(d[pos + 8]) && is_upper(d[pos + 9]))
}

pub fn validate_dicom(data: &[u8], pos: usize) -> (r: bool)
    ensures r == accepts_dicom(data@, pos as int),
{
    if short_at(data, pos, 10) {
        return true;
    }
    if rd_le16(data, pos + 4) != 0x0002 {
        return false;
    }
    upper(data[pos + 8]) && upper(data[pos + 9])
}

/// CorelDRAW: version suffix @11 in `4`–`9`, `A`–`Z` or space.
pub open spec fn accepts_cdr(d: Seq<u8>, pos: int) -> bool {
    let b = d[pos + 11];
    short(d, pos, 12) || (0x34 <= b <= 0x39 || is_upper(b) || b == 0x20)
}

pub fn validate_cdr(data: &[u8], pos: usize) -> (r: bool)
    ensures r == accepts_cdr(data@, pos as int),
{
    if short_at(data, pos, 12) {
        return true;
    }
    let b = data[pos + 11];
    (0x34 <= b && b <= 0x39) || upper(b) || b == 0x20
}

} // verus!
