//! Still-image formats: JPEG variants, PNG, GIF, BMP, ICO, PCX, PSD, WebP,
//! GIMP XCF, DPX, OpenEXR, DjVu and the ISOBMFF still/movie brands.
use vstd::prelude::*;
use crate::bytes::{
    be16, be32, is_digit, le16, le32, occurs_at, short, unclosed_before, digit,
    has_unclosed_before, matches_at, rd_be16, rd_be32, rd_le16, rd_le32, short_at,
};

verus! {

/// JPEG start-of-image marker `FF D8`.
pub open spec fn soi() -> Seq<u8> { seq![0xFFu8, 0xD8] }

/// JPEG end-of-image marker `FF D9`.
pub open spec fn eoi() -> Seq<u8> { seq![0xFFu8, 0xD9] }

/// A JPEG hit at `pos` is a thumbnail nested inside an earlier JPEG when an
/// SOI lies before it with no EOI between that SOI and `pos`.
pub open spec fn jpeg_embedded(d: Seq<u8>, pos: int) -> bool {
    unclosed_before(d, pos, soi(), eoi())
}

pub fn jpeg_is_embedded(data: &[u8], pos: usize) -> (r: bool)
    requires pos <= data.len(),
    ensures r == jpeg_embedded(data@, pos as int),
{
    has_unclosed_before(data, pos, &[0xFF, 0xD8], &[0xFF, 0xD9])
}

/// JFIF: `JFIF\0` at offset 6, not an embedded thumbnail.
pub open spec fn accepts_jpeg_jfif(d: Seq<u8>, pos: int) -> bool {
    short(d, pos, 11) || (occurs_at(d, pos + 6, seq![0x4Au8, 0x46, 0x49, 0x46, 0x00]) && !jpeg_embedded(d, pos))
}

pub fn validate_jpeg_jfif(data: &[u8], pos: usize) -> (r: bool)
    ensures r == accepts_jpeg_jfif(data@, pos as int),
{
    if short_at(data, pos, 11) {
        return true;
    }
    if !matches_at(data, pos + 6, &[0x4A, 0x46, 0x49, 0x46, 0x00]) {
        return false;
    }
    !jpeg_is_embedded(data, pos)
}

/// Exif: `Exif` at offset 6, not an embedded thumbnail.
pub open spec fn accepts_jpeg_exif(d: Seq<u8>, pos: int) -> bool {
    short(d, pos, 10) || (occurs_at(d, pos + 6, seq![0x45u8, 0x78, 0x69, 0x66]) && !jpeg_embedded(d, pos))
}

pub fn validate_jpeg_exif(data: &[u8], pos: usize) -> (r: bool)
    ensures r == accepts_jpeg_exif(data@, pos as int),
{
    if short_at(data, pos, 10) {
        return true;
    }
    if !matches_at(data, pos + 6, &[0x45, 0x78, 0x69, 0x66]) {
        return false;
    }
    !jpeg_is_embedded(data, pos)
}

/// JPEG opening with DQT: segment length (u16 BE @4) in [67, 518].
pub open spec fn accepts_jpeg_dqt(d: Seq<u8>, pos: int) -> bool {
    short(d, pos, 6) || (67 <= be16(d, pos + 4) <= 518 && !jpeg_embedded(d, pos))
}

pub fn validate_jpeg_dqt(data: &[u8], pos: usize) -> (r: bool)
    ensures r == accepts_jpeg_dqt(data@, pos as int),
{
    if short_at(data, pos, 6) {
        return true;
    }
    let dqt_len = rd_be16(data, pos + 4);
    if !(67 <= dqt_len && dqt_len <= 518) {
        return false;
    }
    !jpeg_is_embedded(data, pos)
}

/// JPEG opening with COM: segment length (u16 BE @4) ≥ 2.
pub open spec fn accepts_jpeg_com(d: Seq<u8>, pos: int) -> bool {
    short(d, pos, 6) || (be16(d, pos + 4) >= 2 && !jpeg_embedded(d, pos))
}

pub fn validate_jpeg_com(data: &[u8], pos: usize) -> (r: bool)
    ensures r == accepts_jpeg_com(data@, pos as int),
{
    if short_at(data, pos, 6) {
        return true;
    }
    if rd_be16(data, pos + 4) < 2 {
        return false;
    }
    !jpeg_is_embedded(data, pos)
}

/// PNG: first chunk has length 13 and type `IHDR`.
pub open spec fn accepts_png(d: Seq<u8>, pos: int) -> bool {
    short(d, pos, 20) || (be32(d, pos + 8) == 13 && occurs_at(d, pos + 12, seq![0x49u8, 0x48, 0x44, 0x52]))
}

pub fn validate_png(data: &[u8], pos: usize) -> (r: bool)
    ensures r == accepts_png(data@, pos as int),
{
    if short_at(data, pos, 20) {
        return true;
    }
    rd_be32(data, pos + 8) == 13 && matches_at(data, pos + 12, &[0x49, 0x48, 0x44, 0x52])
}

/// GIF: `7a` or `9a` after `GIF8`.
pub open spec fn accepts_gif(d: Seq<u8>, pos: int) -> bool {
    short(d, pos, 6) || ((d[pos + 4] == 0x37 || d[pos + 4] == 0x39) && d[pos + 5] == 0x61)
}

pub fn validate_gif(data: &[u8], pos: usize) -> (r: bool)
    ensures r == accepts_gif(data@, pos as int),
{
    if short_at(data, pos, 6) {
        return true;
    }
    (data[pos + 4] == 0x37 || data[pos + 4] == 0x39) && data[pos + 5] == 0x61
}

/// BMP: file size ≥ 26, pixel offset in [14, file size], known DIB header size.
pub open spec fn accepts_bmp(d: Seq<u8>, pos: int) -> bool {
    let fs = le32(d, pos + 2);
    let po = le32(d, pos + 10);
    let dib = le32(d, pos + 14);
    short(d, pos, 18) || (fs >= 26 && 14 <= po <= fs
        && (dib == 12 || dib == 40 || dib == 52 || dib == 56 || dib == 108 || dib == 124))
}

pub fn validate_bmp(data: &[u8], pos: usize) -> (r: bool)
    ensures r == accepts_bmp(data@, pos as int),
{
    if short_at(data, pos, 18) {
        return true;
    }
    let file_size = rd_le32(data, pos + 2);
    if file_size < 26 {
        return false;
    }
    let pixel_offset = rd_le32(data, pos + 10);
    if pixel_offset < 14 || pixel_offset > file_size {
        return false;
    }
    let dib = rd_le32(data, pos + 14);
    dib == 12 || dib == 40 || dib == 52 || dib == 56 || dib == 108 || dib == 124
}

/// ICO: image count (u16 LE @4) in [1, 200]; when a full first directory
/// entry is present it must have reserved byte 0, planes ≤ 1, a standard bit
/// depth, data size in [1, 1 MiB], data offset in [6 + 16·count, 1 MiB], and
/// not both planes and bit depth zero.
pub open spec fn accepts_ico(d: Seq<u8>, pos: int) -> bool {
    let count = le16(d, pos + 4);
    let e = pos + 6;
    let planes = le16(d, e + 4);
    let bpp = le16(d, e + 6);
    let size = le32(d, e + 8);
    let off = le32(d, e + 12);
    if short(d, pos, 22) {
        short(d, pos, 6) || 1 <= count <= 200
    } else {
        &&& 1 <= count <= 200
        &&& d[e + 3] == 0
        &&& planes <= 1
        &&& (bpp == 0 || bpp == 1 || bpp == 4 || bpp == 8 || bpp == 16 || bpp == 24 || bpp == 32)
        &&& 1 <= size <= 1_048_576
        &&& 6 + 16 * count <= off <= 1_048_576
        &&& !(planes == 0 && bpp == 0)
    }
}

pub fn validate_ico(data: &[u8], pos: usize) -> (r: bool)
    ensures r == accepts_ico(data@, pos as int),
{
    if short_at(data, pos, 22) {
        if short_at(data, pos, 6) {
            return true;
        }
        let count = rd_le16(data, pos + 4);
        return 1 <= count && count <= 200;
    }
    let count = rd_le16(data, pos + 4);
    if !(1 <= count && count <= 200) {
        return false;
    }
    let entry = pos + 6;
    if data[entry + 3] != 0 {
        return false;
    }
    let planes = rd_le16(data, entry + 4);
    if planes > 1 {
        return false;
    }
    let bpp = rd_le16(data, entry + 6);
    if !(bpp == 0 || bpp == 1 || bpp == 4 || bpp == 8 || bpp == 16 || bpp == 24 || bpp == 32) {
        return false;
    }
    let data_size = rd_le32(data, entry + 8);
    if data_size == 0 || data_size > 1_048_576 {
        return false;
    }
    let data_offset = rd_le32(data, entry + 12);
    let min_offset = 6 + 16 * count as u32;
    if data_offset < min_offset || data_offset > 1_048_576 {
        return false;
    }
    if planes == 0 && bpp == 0 {
        return false;
    }
    true
}

/// PCX: version in {0,2,3,4,5}, encoding ≤ 1, bits per plane in {1,2,4,8},
/// xMax ≥ xMin, yMax ≥ yMin, reserved byte 0, planes in {1,3,4}, and a
/// non-zero bytes-per-line.
pub open spec fn accepts_pcx(d: Seq<u8>, pos: int) -> bool {
    let v = d[pos + 1];
    let bpp = d[pos + 3];
    let planes = d[pos + 65];
    short(d, pos, 68) || {
        &&& (v == 0 || v == 2 || v == 3 || v == 4 || v == 5)
        &&& d[pos + 2] <= 1
        &&& (bpp == 1 || bpp == 2 || bpp == 4 || bpp == 8)
        &&& le16(d, pos + 8) >= le16(d, pos + 4)
        &&& le16(d, pos + 10) >= le16(d, pos + 6)
        &&& d[pos + 64] == 0
        &&& (planes == 1 || planes == 3 || planes == 4)
        &&& le16(d, pos + 66) > 0
    }
}

pub fn validate_pcx(data: &[u8], pos: usize) -> (r: bool)
    ensures r == accepts_pcx(data@, pos as int),
{
    if short_at(data, pos, 68) {
        return true;
    }
    let version = data[pos + 1];
    if !(version == 0 || version == 2 || version == 3 || version == 4 || version == 5) {
        return false;
    }
    if data[pos + 2] > 1 {
        return false;
    }
    let bpp = data[pos + 3];
    if !(bpp == 1 || bpp == 2 || bpp == 4 || bpp == 8) {
        return false;
    }
    if rd_le16(data, pos + 8) < rd_le16(data, pos + 4) {
        return false;
    }
    if rd_le16(data, pos + 10) < rd_le16(data, pos + 6) {
        return false;
    }
    if data[pos + 64] != 0x00 {
        return false;
    }
    let planes = data[pos + 65];
    if !(planes == 1 || planes == 3 || planes == 4) {
        return false;
    }
    rd_le16(data, pos + 66) > 0
}

/// PSD/PSB: version (u16 BE @4) in {1,2}; channels (u16 BE @6) in [1, 56].
pub open spec fn accepts_psd(d: Seq<u8>, pos: int) -> bool {
    let v = be16(d, pos + 4);
    short(d, pos, 26) || ((v == 1 || v == 2) && 1 <= be16(d, pos + 6) <= 56)
}

pub fn validate_psd(data: &[u8], pos: usize) -> (r: bool)
    ensures r == accepts_psd(data@, pos as int),
{
    if short_at(data, pos, 26) {
        return true;
    }
    let version = rd_be16(data, pos + 4);
    if !(version == 1 || version == 2) {
        return false;
    }
    let channels = rd_be16(data, pos + 6);
    1 <= channels && channels <= 56
}

/// WebP: `WEBP` @8 and RIFF size (u32 LE @4) ≥ 4.
pub open spec fn accepts_webp(d: Seq<u8>, pos: int) -> bool {
    short(d, pos, 12) || (occurs_at(d, pos + 8, seq![0x57u8, 0x45, 0x42, 0x50]) && le32(d, pos + 4) >= 4)
}

pub fn validate_webp(data: &[u8], pos: usize) -> (r: bool)
    ensures r == accepts_webp(data@, pos as int),
{
    if short_at(data, pos, 12) {
        return true;
    }
    if !matches_at(data, pos + 8, &[0x57, 0x45, 0x42, 0x50]) {
        return false;
    }
    rd_le32(data, pos + 4) >= 4
}

/// GIMP XCF: version @10 is `file\0` or three digits and a NUL.
pub open spec fn accepts_xcf(d: Seq<u8>, pos: int) -> bool {
    short(d, pos, 15) || occurs_at(d, pos + 10, seq![0x66u8, 0x69, 0x6C, 0x65, 0x00])
        || (is_digit(d[pos + 10]) && is_digit(d[pos + 11]) && is_digit(d[pos + 12]) && d[pos + 13] == 0)
}

pub fn validate_xcf(data: &[u8], pos: usize) -> (r: bool)
    ensures r == accepts_xcf(data@, pos as int),
{
    if short_at(data, pos, 15) {
        return true;
    }
    if matches_at(data, pos + 10, &[0x66, 0x69, 0x6C, 0x65, 0x00]) {
        return true;
    }
    digit(data[pos + 10]) && digit(data[pos + 11]) && digit(data[pos + 12]) && data[pos + 13] == 0x00
}

/// DPX: version string `V<digit>.0` at offset 8.
pub open spec fn accepts_dpx(d: Seq<u8>, pos: int) -> bool {
    short(d, pos, 12) || (d[pos + 8] == 0x56 && is_digit(d[pos + 9]) && d[pos + 10] == 0x2E && d[pos + 11] == 0x30)
}

pub fn validate_dpx(data: &[u8], pos: usize) -> (r: bool)
    ensures r == accepts_dpx(data@, pos as int),
{
    if short_at(data, pos, 12) {
        return true;
    }
    data[pos + 8] == 0x56 && digit(data[pos + 9]) && data[pos + 10] == 0x2E && data[pos + 11] == 0x30
}

/// OpenEXR: version byte 2 with reserved flag bits clear.
pub open spec fn accepts_exr(d: Seq<u8>, pos: int) -> bool {
    short(d, pos, 8) || (d[pos + 4] == 2 && d[pos + 5] & 0xF0 == 0 && d[pos + 6] == 0 && d[pos + 7] == 0)
}

pub fn validate_exr(data: &[u8], pos: usize) -> (r: bool)
    ensures r == accepts_exr(data@, pos as int),
{
    if short_at(data, pos, 8) {
        return true;
    }
    data[pos + 4] == 2 && (data[pos + 5] & 0xF0) == 0 && data[pos + 6] == 0 && data[pos + 7] == 0
}

/// DjVu: form type @12 is `DJVU`, `DJVM`, `DJVI` or `THUM`.
pub open spec fn accepts_djvu(d: Seq<u8>, pos: int) -> bool {
    short(d, pos, 16) || occurs_at(d, pos + 12, seq![0x44u8, 0x4A, 0x56, 0x55])
        || occurs_at(d, pos + 12, seq![0x44u8, 0x4A, 0x56, 0x4D])
        || occurs_at(d, pos + 12, seq![0x44u8, 0x4A, 0x56, 0x49])
        || occurs_at(d, pos + 12, seq![0x54u8, 0x48, 0x55, 0x4D])
}

pub fn validate_djvu(data: &[u8], pos: usize) -> (r: bool)
    ensures r == accepts_djvu(data@, pos as int),
{
    if short_at(data, pos, 16) {
        return true;
    }
    matches_at(data, pos + 12, &[0x44, 0x4A, 0x56, 0x55])
        || matches_at(data, pos + 12, &[0x44, 0x4A, 0x56, 0x4D])
        || matches_at(data, pos + 12, &[0x44, 0x4A, 0x56, 0x49])
        || matches_at(data, pos + 12, &[0x54, 0x48, 0x55, 0x4D])
}

/// ISOBMFF `ftyp` box size (u32 BE at the hit) in [12, 512].
pub open spec fn ftyp_size_ok(d: Seq<u8>, pos: int) -> bool {
    12 <= be32(d, pos) <= 512
}

fn ftyp_size_plausible(data: &[u8], pos: usize) -> (r: bool)
    requires pos + 4 <= data.len(),
    ensures r == ftyp_size_ok(data@, pos as int),
{
    let box_size = rd_be32(data, pos);
    12 <= box_size && box_size <= 512
}

/// HEIC / HEIF: plausible `ftyp` size (8 bytes suffice).
pub open spec fn accepts_heic(d: Seq<u8>, pos: int) -> bool {
    short(d, pos, 8) || ftyp_size_ok(d, pos)
}

pub fn validate_heic(data: &[u8], pos: usize) -> (r: bool)
    ensures r == accepts_heic(data@, pos as int),
{
    if short_at(data, pos, 8) {
        return true;
    }
    ftyp_size_plausible(data, pos)
}

/// Canon CR3: plausible `ftyp` size (8 bytes suffice).
pub open spec fn accepts_cr3(d: Seq<u8>, pos: int) -> bool {
    short(d, pos, 8) || ftyp_size_ok(d, pos)
}

pub fn validate_cr3(data: &[u8], pos: usize) -> (r: bool)
    ensures r == accepts_cr3(data@, pos as int),
{
    if short_at(data, pos, 8) {
        return true;
    }
    ftyp_size_plausible(data, pos)
}

/// QuickTime MOV: plausible `ftyp` size (12 bytes needed).
pub open spec fn accepts_mov(d: Seq<u8>, pos: int) -> bool {
    short(d, pos, 12) || ftyp_size_ok(d, pos)
}

pub fn validate_mov(data: &[u8], pos: usize) -> (r: bool)
    ensures r == accepts_mov(data@, pos as int),
{
    if short_at(data, pos, 12) {
        return true;
    }
    ftyp_size_plausible(data, pos)
}

/// iTunes M4V: plausible `ftyp` size (12 bytes needed).
pub open spec fn accepts_m4v(d: Seq<u8>, pos: int) -> bool {
    short(d, pos, 12) || ftyp_size_ok(d, pos)
}

pub fn validate_m4v(data: &[u8], pos: usize) -> (r: bool)
    ensures r == accepts_m4v(data@, pos as int),
{
    if short_at(data, pos, 12) {
        return true;
    }
    ftyp_size_plausible(data, pos)
}

/// iTunes M4A: plausible `ftyp` size (12 bytes needed).
pub open spec fn accepts_m4a(d: Seq<u8>, pos: int) -> bool {
    short(d, pos, 12) || ftyp_size_ok(d, pos)
}

pub fn validate_m4a(data: &[u8], pos: usize) -> (r: bool)
    ensures r == accepts_m4a(data@, pos as int),
{
    if short_at(data, pos, 12) {
        return true;
    }
    ftyp_size_plausible(data, pos)
}

/// 3GPP: plausible `ftyp` size and a brand starting with `3gp` or `3g2`.
pub open spec fn accepts_3gp(d: Seq<u8>, pos: int) -> bool {
    short(d, pos, 12) || (ftyp_size_ok(d, pos) && (occurs_at(d, pos + 8, seq![0x33u8, 0x67, 0x70])
        || occurs_at(d, pos + 8, seq![0x33u8, 0x67, 0x32])))
}

pub fn validate_3gp(data: &[u8], pos: usize) -> (r: bool)
    ensures r == accepts_3gp(data@, pos as int),
{
    if short_at(data, pos, 12) {
        return true;
    }
    if !ftyp_size_plausible(data, pos) {
        return false;
    }
    matches_at(data, pos + 8, &[0x33, 0x67, 0x70]) || matches_at(data, pos + 8, &[0x33, 0x67, 0x32])
}

} // verus!
