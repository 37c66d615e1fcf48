//! Archive and container formats: ZIP family, RAR, 7-Zip, GZip, XZ, BZip2,
//! Cabinet, LZH, TAR and PAR2.
use vstd::prelude::*;
use crate::bytes::{
    le16, min, le32, le64, occurs_at, occurs_within, short, unclosed_before, find_within,
    has_unclosed_before, matches_at, rd_le16, rd_le32, rd_le64, short_at,
};

verus! {

/// `PK\x03\x04` — ZIP local file header.
pub open spec fn zip_lfh_magic() -> Seq<u8> { seq![0x50u8, 0x4B, 0x03, 0x04] }

/// `PK\x05\x06` — ZIP end of central directory.
pub open spec fn zip_eocd_magic() -> Seq<u8> { seq![0x50u8, 0x4B, 0x05, 0x06] }

/// Compression methods registered by PKWARE.
pub open spec fn zip_method_known(m: int) -> bool {
    m == 0 || m == 8 || m == 9 || m == 12 || m == 14 || m == 19 || m == 93 || m == 95
        || m == 96 || m == 97 || m == 98 || m == 99
}

/// A ZIP local file header at `pos` (with at least 30 bytes present) that
/// names a plausible regular file: version ≤ 63, name length in [1, 512],
/// a registered compression method, and a name not ending in `/` (when the
/// whole name is present).
pub open spec fn zip_header_plausible(d: Seq<u8>, pos: int) -> bool {
    let fl = le16(d, pos + 26);
    &&& le16(d, pos + 4) <= 63
    &&& 1 <= fl <= 512
    &&& zip_method_known(le16(d, pos + 8))
    &&& !(pos + 30 + fl <= d.len() && d[pos + 30 + fl - 1] == 0x2F)
}

/// ZIP local header check, also rejecting entries internal to an archive
/// whose earlier local header appears before `pos` with no end-of-central-
/// directory record after it.
pub open spec fn accepts_zip(d: Seq<u8>, pos: int) -> bool {
    short(d, pos, 30) || (zip_header_plausible(d, pos)
        && !unclosed_before(d, pos, zip_lfh_magic(), zip_eocd_magic()))
}

fn zip_method_known_exec(m: u16) -> (r: bool)
    ensures r == zip_method_known(m as int),
{
    m == 0 || m == 8 || m == 9 || m == 12 || m == 14 || m == 19 || m == 93 || m == 95
        || m == 96 || m == 97 || m == 98 || m == 99
}

/// Header plausibility shared by [`validate_zip`] and the scanner's ZIP filter.
pub fn zip_header_is_plausible(data: &[u8], pos: usize) -> (r: bool)
    requires pos + 30 <= data.len(),
    ensures r == zip_header_plausible(data@, pos as int),
{
    let version = rd_le16(data, pos + 4);
    let method = rd_le16(data, pos + 8);
    let fname_len = rd_le16(data, pos + 26) as usize;
    if version > 63 {
        return false;
    }
    if fname_len == 0 || fname_len > 512 {
        return false;
    }
    if !zip_method_known_exec(method) {
        return false;
    }
    if fname_len <= data.len() - pos - 30 && data[pos + 30 + fname_len - 1] == 0x2F {
        return false;
    }
    true
}

pub fn validate_zip(data: &[u8], pos: usize) -> (r: bool)
    ensures r == accepts_zip(data@, pos as int),
{
    if short_at(data, pos, 30) {
        return true;
    }
    if !zip_header_is_plausible(data, pos) {
        return false;
    }
    let internal = has_unclosed_before(data, pos, &[0x50, 0x4B, 0x03, 0x04], &[0x50, 0x4B, 0x05, 0x06]);
    !internal
}

/// JAR: ZIP whose first entry name (length in [1, 256]) starts with `META-INF`.
pub open spec fn accepts_jar(d: Seq<u8>, pos: int) -> bool {
    let fl = le16(d, pos + 26);
    short(d, pos, 30) || (1 <= fl <= 256 && (short(d, pos, 30 + fl)
        || (fl >= 8 && occurs_at(d, pos + 30, seq![0x4Du8, 0x45, 0x54, 0x41, 0x2D, 0x49, 0x4E, 0x46]))))
}

pub fn validate_jar(data: &[u8], pos: usize) -> (r: bool)
    ensures r == accepts_jar(data@, pos as int),
{
    if short_at(data, pos, 30) {
        return true;
    }
    let fname_len = rd_le16(data, pos + 26) as usize;
    if fname_len == 0 || fname_len > 256 {
        return false;
    }
    if short_at(data, pos, 30 + fname_len) {
        return true;
    }
    // "META-INF"
    fname_len >= 8 && matches_at(data, pos + 30, &[0x4D, 0x45, 0x54, 0x41, 0x2D, 0x49, 0x4E, 0x46])
}

/// Start of the first entry's content in a ZIP whose first entry is named
/// `mimetype` (8 bytes) followed by an extra field of `le16(@28)` bytes.
pub open spec fn mimetype_content_start(d: Seq<u8>, pos: int) -> int {
    pos + 38 + le16(d, pos + 28)
}

pub open spec fn mimetype_named(d: Seq<u8>, pos: int) -> bool {
    le16(d, pos + 26) == 8 && occurs_at(d, pos + 30, seq![0x6Du8, 0x69, 0x6D, 0x65, 0x74, 0x79, 0x70, 0x65])
}

/// EPUB: first entry `mimetype` whose first 32 content bytes contain `epub+zip`.
pub open spec fn accepts_epub(d: Seq<u8>, pos: int) -> bool {
    let cs = mimetype_content_start(d, pos);
    short(d, pos, 38) || (mimetype_named(d, pos) && (cs >= d.len()
        || occurs_within(d, cs, min(d.len() as int, cs + 32),
            seq![0x65u8, 0x70, 0x75, 0x62, 0x2B, 0x7A, 0x69, 0x70])))
}

/// OpenDocument: first entry `mimetype` whose first 50 content bytes contain
/// `opendocument`.
pub open spec fn accepts_odt(d: Seq<u8>, pos: int) -> bool {
    let cs = mimetype_content_start(d, pos);
    short(d, pos, 38) || (mimetype_named(d, pos) && (cs >= d.len()
        || occurs_within(d, cs, min(d.len() as int, cs + 50),
            seq![0x6Fu8, 0x70, 0x65, 0x6E, 0x64, 0x6F, 0x63, 0x75, 0x6D, 0x65, 0x6E, 0x74])))
}

/// Shared body of the EPUB / ODT checks: the first entry must be `mimetype`
/// and its content window of `window` bytes must contain `marker`.
fn mimetype_entry_contains(data: &[u8], pos: usize, window: usize, marker: &[u8]) -> (r: bool)
    requires
        pos + 38 <= data.len(),
        window <= 64,
    ensures
        r == (mimetype_named(data@, pos as int) && (mimetype_content_start(data@, pos as int) >= data@.len()
            || occurs_within(data@, mimetype_content_start(data@, pos as int),
                min(data@.len() as int, mimetype_content_start(data@, pos as int) + window), marker@))),
{
    let fname_len = rd_le16(data, pos + 26) as usize;
    if fname_len != 8 {
        return false;
    }
    // "mimetype"
    if !matches_at(data, pos + 30, &[0x6D, 0x69, 0x6D, 0x65, 0x74, 0x79, 0x70, 0x65]) {
        return false;
    }
    let extra_len = rd_le16(data, pos + 28) as usize;
    if extra_len >= data.len() - pos - 38 {
        return true;
    }
    let content_start = pos + 38 + extra_len;
    let content_end = if data.len() - content_start < window { data.len() } else { content_start + window };
    find_within(data, content_start, content_end, marker)
}

pub fn validate_epub(data: &[u8], pos: usize) -> (r: bool)
    ensures r == accepts_epub(data@, pos as int),
{
    if short_at(data, pos, 38) {
        return true;
    }
    // "epub+zip"
    mimetype_entry_contains(data, pos, 32, &[0x65, 0x70, 0x75, 0x62, 0x2B, 0x7A, 0x69, 0x70])
}

pub fn validate_odt(data: &[u8], pos: usize) -> (r: bool)
    ensures r == accepts_odt(data@, pos as int),
{
    if short_at(data, pos, 38) {
        return true;
    }
    // "opendocument"
    mimetype_entry_contains(data, pos, 50,
        &[0x6F, 0x70, 0x65, 0x6E, 0x64, 0x6F, 0x63, 0x75, 0x6D, 0x65, 0x6E, 0x74])
}

/// RAR: format byte @6 is 0 (v4) or 1 (v5); a v4 archive header must have
/// type 0x73 @9 and must not be a non-first volume (flags @10, bits 0 and 8).
pub open spec fn accepts_rar(d: Seq<u8>, pos: int) -> bool {
    let fmt = d[pos + 6];
    let flags = le16(d, pos + 10);
    short(d, pos, 7) || ((fmt == 0 || fmt == 1) && (fmt == 1 || short(d, pos, 12)
        || (d[pos + 9] == 0x73 && !(flags % 2 == 1 && (flags / 256) % 2 == 0))))
}

pub fn validate_rar(data: &[u8], pos: usize) -> (r: bool)
    ensures r == accepts_rar(data@, pos as int),
{
    if short_at(data, pos, 7) {
        return true;
    }
    let fmt = data[pos + 6];
    if !(fmt == 0x00 || fmt == 0x01) {
        return false;
    }
    if fmt == 0x00 {
        if short_at(data, pos, 12) {
            return true;
        }
        if data[pos + 9] != 0x73 {
            return false;
        }
        let flags = rd_le16(data, pos + 10);
        let is_volume = flags % 2 == 1;
        let is_first = (flags / 256) % 2 == 1;
        if is_volume && !is_first {
            return false;
        }
    }
    true
}

/// 7-Zip: major version byte @6 is 0.
pub open spec fn accepts_seven_zip(d: Seq<u8>, pos: int) -> bool {
    short(d, pos, 7) || d[pos + 6] == 0
}

pub fn validate_seven_zip(data: &[u8], pos: usize) -> (r: bool)
    ensures r == accepts_seven_zip(data@, pos as int),
{
    if short_at(data, pos, 7) {
        return true;
    }
    data[pos + 6] == 0x00
}

/// GZip (RFC 1952): method 8, reserved flag bit 5 clear, XFL in {0,2,4},
/// OS in [0, 13] or 255.
pub open spec fn accepts_gz(d: Seq<u8>, pos: int) -> bool {
    let xfl = d[pos + 8];
    let os = d[pos + 9];
    short(d, pos, 10) || (d[pos + 2] == 8 && d[pos + 3] & 0x20 == 0
        && (xfl == 0 || xfl == 2 || xfl == 4) && (os <= 13 || os == 255))
}

pub fn validate_gz(data: &[u8], pos: usize) -> (r: bool)
    ensures r == accepts_gz(data@, pos as int),
{
    if short_at(data, pos, 10) {
        return true;
    }
    if data[pos + 2] != 8 {
        return false;
    }
    if data[pos + 3] & 0x20 != 0 {
        return false;
    }
    let xfl = data[pos + 8];
    if xfl != 0 && xfl != 2 && xfl != 4 {
        return false;
    }
    let os = data[pos + 9];
    os <= 13 || os == 255
}

/// XZ: reserved byte @6 is 0; check type @7 in {0x00, 0x01, 0x04, 0x0A}.
pub open spec fn accepts_xz(d: Seq<u8>, pos: int) -> bool {
    let c = d[pos + 7];
    short(d, pos, 8) || (d[pos + 6] == 0 && (c == 0x00 || c == 0x01 || c == 0x04 || c == 0x0A))
}

pub fn validate_xz(data: &[u8], pos: usize) -> (r: bool)
    ensures r == accepts_xz(data@, pos as int),
{
    if short_at(data, pos, 8) {
        return true;
    }
    if data[pos + 6] != 0x00 {
        return false;
    }
    let c = data[pos + 7];
    c == 0x00 || c == 0x01 || c == 0x04 || c == 0x0A
}

/// BZip2: level byte @3 in '1'..='9'; block magic `31 41 59 26 53 59` @4.
pub open spec fn accepts_bzip2(d: Seq<u8>, pos: int) -> bool {
    short(d, pos, 10) || (0x31 <= d[pos + 3] <= 0x39
        && occurs_at(d, pos + 4, seq![0x31u8, 0x41, 0x59, 0x26, 0x53, 0x59]))
}

pub fn validate_bzip2(data: &[u8], pos: usize) -> (r: bool)
    ensures r == accepts_bzip2(data@, pos as int),
{
    if short_at(data, pos, 10) {
        return true;
    }
    let level = data[pos + 3];
    if !(0x31 <= level && level <= 0x39) {
        return false;
    }
    matches_at(data, pos + 4, &[0x31, 0x41, 0x59, 0x26, 0x53, 0x59])
}

/// Cabinet: reserved1 (u32 LE @4) is 0 and cabinet size (u32 LE @8) > 0.
pub open spec fn accepts_cab(d: Seq<u8>, pos: int) -> bool {
    short(d, pos, 12) || (le32(d, pos + 4) == 0 && le32(d, pos + 8) > 0)
}

pub fn validate_cab(data: &[u8], pos: usize) -> (r: bool)
    ensures r == accepts_cab(data@, pos as int),
{
    if short_at(data, pos, 12) {
        return true;
    }
    if rd_le32(data, pos + 4) != 0 {
        return false;
    }
    rd_le32(data, pos + 8) > 0
}

/// LZH: method character @3 in '0'..='7', 'd' or 's'.
pub open spec fn accepts_lzh(d: Seq<u8>, pos: int) -> bool {
    let m = d[pos + 3];
    short(d, pos, 5) || (0x30 <= m <= 0x37 || m == 0x64 || m == 0x73)
}

pub fn validate_lzh(data: &[u8], pos: usize) -> (r: bool)
    ensures r == accepts_lzh(data@, pos as int),
{
    if short_at(data, pos, 5) {
        return true;
    }
    let m = data[pos + 3];
    (0x30 <= m && m <= 0x37) || m == 0x64 || m == 0x73
}

/// TAR (ustar): version @6 is `"00"` or `"  "`.
pub open spec fn accepts_tar(d: Seq<u8>, pos: int) -> bool {
    short(d, pos, 8) || (d[pos + 6] == 0x30 && d[pos + 7] == 0x30)
        || (d[pos + 6] == 0x20 && d[pos + 7] == 0x20)
}

pub fn validate_tar(data: &[u8], pos: usize) -> (r: bool)
    ensures r == accepts_tar(data@, pos as int),
{
    if short_at(data, pos, 8) {
        return true;
    }
    let a = data[pos + 6];
    let b = data[pos + 7];
    (a == 0x30 && b == 0x30) || (a == 0x20 && b == 0x20)
}

/// PAR2: packet length (u64 LE @8) ≥ 64.
pub open spec fn accepts_par2(d: Seq<u8>, pos: int) -> bool {
    short(d, pos, 16) || le64(d, pos + 8) >= 64
}

pub fn validate_par2(data: &[u8], pos: usize) -> (r: bool)
    ensures r == accepts_par2(data@, pos as int),
{
    if short_at(data, pos, 16) {
        return true;
    }
    rd_le64(data, pos + 8) >= 64
}

} // verus!
