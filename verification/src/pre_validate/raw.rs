//! Camera RAW and TIFF-family formats.
use vstd::prelude::*;
use crate::bytes::{
    be16, be32, is_digit, le16, le32, min, occurs_at, occurs_within, short, digit, find_within,
    matches_at, rd_be16, rd_be32, rd_le16, rd_le32, short_at,
};

verus! {

pub open spec fn sony() -> Seq<u8> { seq![0x53u8, 0x4F, 0x4E, 0x59] }

pub open spec fn nikon() -> Seq<u8> { seq![0x4Eu8, 0x49, 0x4B, 0x4F, 0x4E] }

pub open spec fn pentax() -> Seq<u8> { seq![0x50u8, 0x45, 0x4E, 0x54, 0x41, 0x58, 0x20] }

pub open spec fn kodak_mixed() -> Seq<u8> { seq![0x4Bu8, 0x6F, 0x64, 0x61, 0x6B] }

pub open spec fn kodak_upper() -> Seq<u8> { seq![0x4Bu8, 0x4F, 0x44, 0x41, 0x4B] }

/// `CR\x02\x00` — Canon CR2 marker at offset 8.
pub open spec fn cr2_marker() -> Seq<u8> { seq![0x43u8, 0x52, 0x02, 0x00] }

/// End of the 512-byte maker-string window that starts at `pos`.
pub open spec fn window_end(d: Seq<u8>, pos: int) -> int {
    min(d.len() as int, pos + 512)
}

/// Does `pat` occur in the first 512 bytes from `pos`?
pub open spec fn in_window(d: Seq<u8>, pos: int, pat: Seq<u8>) -> bool {
    occurs_within(d, pos, window_end(d, pos), pat)
}

fn window_end_exec(data: &[u8], pos: usize) -> (r: usize)
    requires pos <= data.len(),
    ensures r == window_end(data@, pos as int),
{
    if data.len() - pos < 512 { data.len() } else { pos + 512 }
}

/// IFD0 entry `k` (IFD at `pos + 8`, entries from `pos + 10`) lies before the
/// end of the declared `ec` entries (clamped to the data) and carries the
/// little-endian tag 0x7200 (Sony SR2Private).
pub open spec fn sr2_private_entry(d: Seq<u8>, pos: int, ec: int, k: int) -> bool {
    let e = pos + 10 + 12 * k;
    &&& e < min(pos + 10 + ec * 12, d.len() as int)
    &&& e + 2 <= d.len()
    &&& d[e] == 0x00
    &&& d[e + 1] == 0x72
}

pub open spec fn has_sr2_private(d: Seq<u8>, pos: int, ec: int) -> bool {
    exists|k: int| 0 <= k && #[trigger] sr2_private_entry(d, pos, ec, k)
}

fn find_sr2_private(data: &[u8], pos: usize, ec: usize) -> (r: bool)
    requires
        pos + 10 <= data.len(),
        ec <= 50,
    ensures r == has_sr2_private(data@, pos as int, ec as int),
{
    let end = if data.len() - pos - 10 < ec * 12 { data.len() } else { pos + 10 + ec * 12 };
    let mut k: usize = 0;
    while k <= ec && 12 * k < end - pos - 10
        invariant
            pos + 10 <= end <= data.len(),
            k <= ec + 1,
            ec <= 50,
            end == min(pos + 10 + ec * 12, data@.len() as int),
            forall|j: int| 0 <= j < k ==> !#[trigger] sr2_private_entry(data@, pos as int, ec as int, j),
        decreases ec + 1 - k,
    {
        let e = pos + 10 + 12 * k;
        if e + 1 < data.len() && data[e] == 0x00 && data[e + 1] == 0x72 {
            assert(sr2_private_entry(data@, pos as int, ec as int, k as int));
            return true;
        }
        k += 1;
    }
    assert forall|j: int| 0 <= j implies !#[trigger] sr2_private_entry(data@, pos as int, ec as int, j) by {
        if j >= k {
            assert(pos + 10 + 12 * j >= end);
        }
    }
    false
}

/// Sony ARW: IFD0 entry count (u16 LE @8) in [5, 50], `SONY` in the first
/// 512 bytes, and no SR2Private tag among the IFD0 entries.
pub open spec fn accepts_arw(d: Seq<u8>, pos: int) -> bool {
    let ec = le16(d, pos + 8);
    short(d, pos, 10) || (5 <= ec <= 50 && in_window(d, pos, sony()) && !has_sr2_private(d, pos, ec))
}

pub fn validate_arw(data: &[u8], pos: usize) -> (r: bool)
    ensures r == accepts_arw(data@, pos as int),
{
    if short_at(data, pos, 10) {
        return true;
    }
    let entry_count = rd_le16(data, pos + 8) as usize;
    if !(5 <= entry_count && entry_count <= 50) {
        return false;
    }
    let we = window_end_exec(data, pos);
    if !find_within(data, pos, we, &[0x53, 0x4F, 0x4E, 0x59]) {
        return false;
    }
    !find_sr2_private(data, pos, entry_count)
}

/// Sony SR2: IFD0 entry count in [3, 50], `SONY` in the first 512 bytes, and
/// the SR2Private tag present among the IFD0 entries.
pub open spec fn accepts_sr2(d: Seq<u8>, pos: int) -> bool {
    let ec = le16(d, pos + 8);
    short(d, pos, 10) || (3 <= ec <= 50 && in_window(d, pos, sony()) && has_sr2_private(d, pos, ec))
}

pub fn validate_sr2(data: &[u8], pos: usize) -> (r: bool)
    ensures r == accepts_sr2(data@, pos as int),
{
    if short_at(data, pos, 10) {
        return true;
    }
    let entry_count = rd_le16(data, pos + 8) as usize;
    if !(3 <= entry_count && entry_count <= 50) {
        return false;
    }
    let we = window_end_exec(data, pos);
    if !find_within(data, pos, we, &[0x53, 0x4F, 0x4E, 0x59]) {
        return false;
    }
    find_sr2_private(data, pos, entry_count)
}

/// IFD offset (u32 LE @4) in [8, 4096].
pub open spec fn ifd_small(d: Seq<u8>, pos: int) -> bool {
    8 <= le32(d, pos + 4) <= 4096
}

fn ifd_small_exec(data: &[u8], pos: usize) -> (r: bool)
    requires pos + 8 <= data.len(),
    ensures r == ifd_small(data@, pos as int),
{
    let off = rd_le32(data, pos + 4);
    8 <= off && off <= 4096
}

/// Canon CR2: plausible IFD offset.
pub open spec fn accepts_cr2(d: Seq<u8>, pos: int) -> bool {
    short(d, pos, 8) || ifd_small(d, pos)
}

pub fn validate_cr2(data: &[u8], pos: usize) -> (r: bool)
    ensures r == accepts_cr2(data@, pos as int),
{
    if short_at(data, pos, 8) {
        return true;
    }
    ifd_small_exec(data, pos)
}

/// Olympus ORF: plausible IFD offset.
pub open spec fn accepts_orf(d: Seq<u8>, pos: int) -> bool {
    short(d, pos, 8) || ifd_small(d, pos)
}

pub fn validate_orf(data: &[u8], pos: usize) -> (r: bool)
    ensures r == accepts_orf(data@, pos as int),
{
    if short_at(data, pos, 8) {
        return true;
    }
    ifd_small_exec(data, pos)
}

/// Panasonic RW2: plausible IFD offset and, when the IFD is present, an
/// entry count in [3, 50].
pub open spec fn accepts_rw2(d: Seq<u8>, pos: int) -> bool {
    let ifd = pos + le32(d, pos + 4);
    short(d, pos, 10) || (ifd_small(d, pos) && (ifd + 2 > d.len() || 3 <= le16(d, ifd) <= 50))
}

pub fn validate_rw2(data: &[u8], pos: usize) -> (r: bool)
    ensures r == accepts_rw2(data@, pos as int),
{
    if short_at(data, pos, 10) {
        return true;
    }
    if !ifd_small_exec(data, pos) {
        return false;
    }
    let ifd_offset = rd_le32(data, pos + 4) as usize;
    if ifd_offset + 2 > data.len() - pos {
        return true;
    }
    let ec = rd_le16(data, pos + ifd_offset);
    3 <= ec && ec <= 50
}

/// Fujifilm RAF: space @15 and four digits @16..20.
pub open spec fn accepts_raf(d: Seq<u8>, pos: int) -> bool {
    short(d, pos, 20) || (d[pos + 15] == 0x20 && is_digit(d[pos + 16]) && is_digit(d[pos + 17])
        && is_digit(d[pos + 18]) && is_digit(d[pos + 19]))
}

pub fn validate_raf(data: &[u8], pos: usize) -> (r: bool)
    ensures r == accepts_raf(data@, pos as int),
{
    if short_at(data, pos, 20) {
        return true;
    }
    data[pos + 15] == 0x20 && digit(data[pos + 16]) && digit(data[pos + 17]) && digit(data[pos + 18])
        && digit(data[pos + 19])
}

/// The value of a TIFF 16-bit field in the given byte order.
pub open spec fn tiff16(d: Seq<u8>, i: int, little: bool) -> int {
    if little { le16(d, i) } else { be16(d, i) }
}

/// The value of a TIFF 32-bit field in the given byte order.
pub open spec fn tiff32(d: Seq<u8>, i: int, little: bool) -> int {
    if little { le32(d, i) } else { be32(d, i) }
}

/// IFD0 entry `k` (entries start at `base`) has tag 256 (ImageWidth).
pub open spec fn image_width_entry(d: Seq<u8>, base: int, little: bool, k: int) -> bool {
    tiff16(d, base + 12 * k, little) == 256
}

/// IFD0 structure check shared by the generic TIFF validators: when the
/// entry count is present it lies in [1, 500], and when all entries are
/// present one of them is ImageWidth.
pub open spec fn tiff_ifd0_ok(d: Seq<u8>, pos: int, little: bool) -> bool {
    let ifd = pos + tiff32(d, pos + 4, little);
    let ec = tiff16(d, ifd, little);
    d.len() >= ifd + 2 ==> (1 <= ec <= 500 && (d.len() >= ifd + 2 + ec * 12
        ==> exists|k: int| 0 <= k < ec && #[trigger] image_width_entry(d, ifd + 2, little, k)))
}

fn tiff_ifd0_check(data: &[u8], pos: usize, ifd_off: usize, little: bool) -> (r: bool)
    requires
        pos + 8 <= data.len(),
        ifd_off == tiff32(data@, pos + 4, little),
        8 <= ifd_off <= 65536,
    ensures r == tiff_ifd0_ok(data@, pos as int, little),
{
    if ifd_off + 2 > data.len() - pos {
        return true;
    }
    let ifd = pos + ifd_off;
    let ec = (if little { rd_le16(data, ifd) } else { rd_be16(data, ifd) }) as usize;
    assert(ec == tiff16(data@, ifd as int, little));
    assert(ifd == pos + tiff32(data@, pos + 4, little));
    if !(1 <= ec && ec <= 500) {
        return false;
    }
    if data.len() - ifd - 2 < ec * 12 {
        assert(!(data@.len() >= ifd + 2 + ec * 12));
        return true;
    }
    let mut k: usize = 0;
    while k < ec
        invariant
            1 <= ec <= 500,
            k <= ec,
            ifd + 2 + ec * 12 <= data.len(),
            ec == tiff16(data@, ifd as int, little),
            ifd == pos + tiff32(data@, pos + 4, little),
            forall|j: int| 0 <= j < k ==> !#[trigger] image_width_entry(data@, ifd + 2, little, j),
        decreases ec - k,
    {
        let e = ifd + 2 + k * 12;
        let tag = if little { rd_le16(data, e) } else { rd_be16(data, e) };
        if tag == 256 {
            assert(image_width_entry(data@, ifd + 2, little, k as int));
            return true;
        }
        k += 1;
    }
    false
}

/// Generic little-endian TIFF: IFD0 offset in [8, 65536]; not CR2, not a
/// Sony / Nikon / Kodak file; plausible IFD0 containing ImageWidth.
pub open spec fn accepts_tiff_le(d: Seq<u8>, pos: int) -> bool {
    let off = le32(d, pos + 4);
    short(d, pos, 8) || {
        &&& 8 <= off <= 65536
        &&& !(d.len() >= pos + 12 && occurs_at(d, pos + 8, cr2_marker()))
        &&& !in_window(d, pos, sony())
        &&& !in_window(d, pos, nikon())
        &&& !in_window(d, pos, kodak_mixed())
        &&& !in_window(d, pos, kodak_upper())
        &&& tiff_ifd0_ok(d, pos, true)
    }
}

pub fn validate_tiff_le(data: &[u8], pos: usize) -> (r: bool)
    ensures r == accepts_tiff_le(data@, pos as int),
{
    if short_at(data, pos, 8) {
        return true;
    }
    let ifd_off = rd_le32(data, pos + 4) as usize;
    if !(8 <= ifd_off && ifd_off <= 65536) {
        return false;
    }
    if data.len() - pos >= 12 && matches_at(data, pos + 8, &[0x43, 0x52, 0x02, 0x00]) {
        return false;
    }
    let we = window_end_exec(data, pos);
    if find_within(data, pos, we, &[0x53, 0x4F, 0x4E, 0x59]) {
        return false;
    }
    if find_within(data, pos, we, &[0x4E, 0x49, 0x4B, 0x4F, 0x4E]) {
        return false;
    }
    if find_within(data, pos, we, &[0x4B, 0x6F, 0x64, 0x61, 0x6B])
        || find_within(data, pos, we, &[0x4B, 0x4F, 0x44, 0x41, 0x4B]) {
        return false;
    }
    tiff_ifd0_check(data, pos, ifd_off, true)
}

/// Generic big-endian TIFF: IFD0 offset in [8, 65536]; plausible IFD0
/// containing ImageWidth.
pub open spec fn accepts_tiff_be(d: Seq<u8>, pos: int) -> bool {
    let off = be32(d, pos + 4);
    short(d, pos, 8) || (8 <= off <= 65536 && tiff_ifd0_ok(d, pos, false))
}

pub fn validate_tiff_be(data: &[u8], pos: usize) -> (r: bool)
    ensures r == accepts_tiff_be(data@, pos as int),
{
    if short_at(data, pos, 8) {
        return true;
    }
    let ifd_off = rd_be32(data, pos + 4) as usize;
    if !(8 <= ifd_off && ifd_off <= 65536) {
        return false;
    }
    tiff_ifd0_check(data, pos, ifd_off, false)
}

/// Nikon NEF: IFD offset in [8, 4096] and `NIKON` in the first 512 bytes.
pub open spec fn accepts_nef(d: Seq<u8>, pos: int) -> bool {
    short(d, pos, 8) || (ifd_small(d, pos) && in_window(d, pos, nikon()))
}

pub fn validate_nef(data: &[u8], pos: usize) -> (r: bool)
    ensures r == accepts_nef(data@, pos as int),
{
    if short_at(data, pos, 8) {
        return true;
    }
    if !ifd_small_exec(data, pos) {
        return false;
    }
    let we = window_end_exec(data, pos);
    find_within(data, pos, we, &[0x4E, 0x49, 0x4B, 0x4F, 0x4E])
}

/// Pentax PEF: IFD offset in [8, 4096] and `PENTAX ` in the first 512 bytes.
pub open spec fn accepts_pef(d: Seq<u8>, pos: int) -> bool {
    short(d, pos, 8) || (ifd_small(d, pos) && in_window(d, pos, pentax()))
}

pub fn validate_pef(data: &[u8], pos: usize) -> (r: bool)
    ensures r == accepts_pef(data@, pos as int),
{
    if short_at(data, pos, 8) {
        return true;
    }
    if !ifd_small_exec(data, pos) {
        return false;
    }
    let we = window_end_exec(data, pos);
    find_within(data, pos, we, &[0x50, 0x45, 0x4E, 0x54, 0x41, 0x58, 0x20])
}

/// Kodak DCR: IFD0 offset in [8, 65536]; not CR2, Nikon, Sony or Pentax;
/// `Kodak` or `KODAK` in the first 512 bytes.
pub open spec fn accepts_dcr(d: Seq<u8>, pos: int) -> bool {
    let off = le32(d, pos + 4);
    short(d, pos, 8) || {
        &&& 8 <= off <= 65536
        &&& !(d.len() >= pos + 12 && occurs_at(d, pos + 8, cr2_marker()))
        &&& !in_window(d, pos, nikon())
        &&& !in_window(d, pos, sony())
        &&& !in_window(d, pos, pentax())
        &&& (in_window(d, pos, kodak_mixed()) || in_window(d, pos, kodak_upper()))
    }
}

pub fn validate_dcr(data: &[u8], pos: usize) -> (r: bool)
    ensures r == accepts_dcr(data@, pos as int),
{
    if short_at(data, pos, 8) {
        return true;
    }
    let ifd_off = rd_le32(data, pos + 4);
    if !(8 <= ifd_off && ifd_off <= 65536) {
        return false;
    }
    if data.len() - pos >= 12 && matches_at(data, pos + 8, &[0x43, 0x52, 0x02, 0x00]) {
        return false;
    }
    let we = window_end_exec(data, pos);
    if find_within(data, pos, we, &[0x4E, 0x49, 0x4B, 0x4F, 0x4E]) {
        return false;
    }
    if find_within(data, pos, we, &[0x53, 0x4F, 0x4E, 0x59]) {
        return false;
    }
    if find_within(data, pos, we, &[0x50, 0x45, 0x4E, 0x54, 0x41, 0x58, 0x20]) {
        return false;
    }
    find_within(data, pos, we, &[0x4B, 0x6F, 0x64, 0x61, 0x6B])
        || find_within(data, pos, we, &[0x4B, 0x4F, 0x44, 0x41, 0x4B])
}

/// Canon CRW: `HEAPCCDR` at offset 6.
pub open spec fn accepts_crw(d: Seq<u8>, pos: int) -> bool {
    short(d, pos, 14) || occurs_at(d, pos + 6, seq![0x48u8, 0x45, 0x41, 0x50, 0x43, 0x43, 0x44, 0x52])
}

pub fn validate_crw(data: &[u8], pos: usize) -> (r: bool)
    ensures r == accepts_crw(data@, pos as int),
{
    if short_at(data, pos, 14) {
        return true;
    }
    matches_at(data, pos + 6, &[0x48, 0x45, 0x41, 0x50, 0x43, 0x43, 0x44, 0x52])
}

/// Minolta MRW: first block tag @8 is `PRD`, `TTW` or `WBG`.
pub open spec fn accepts_mrw(d: Seq<u8>, pos: int) -> bool {
    short(d, pos, 12) || occurs_at(d, pos + 8, seq![0x50u8, 0x52, 0x44])
        || occurs_at(d, pos + 8, seq![0x54u8, 0x54, 0x57]) || occurs_at(d, pos + 8, seq![0x57u8, 0x42, 0x47])
}

pub fn validate_mrw(data: &[u8], pos: usize) -> (r: bool)
    ensures r == accepts_mrw(data@, pos as int),
{
    if short_at(data, pos, 12) {
        return true;
    }
    matches_at(data, pos + 8, &[0x50, 0x52, 0x44]) || matches_at(data, pos + 8, &[0x54, 0x54, 0x57])
        || matches_at(data, pos + 8, &[0x57, 0x42, 0x47])
}

/// Sigma X3F: major version byte @5 is 2 or 3.
pub open spec fn accepts_x3f(d: Seq<u8>, pos: int) -> bool {
    short(d, pos, 8) || d[pos + 5] == 2 || d[pos + 5] == 3
}

pub fn validate_x3f(data: &[u8], pos: usize) -> (r: bool)
    ensures r == accepts_x3f(data@, pos as int),
{
    if short_at(data, pos, 8) {
        return true;
    }
    let major = data[pos + 5];
    major == 2 || major == 3
}

} // verus!
