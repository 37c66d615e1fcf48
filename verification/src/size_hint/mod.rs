//! Size hints: the true file size derived from fields embedded in the file.
//!
//! Each [`SizeHint`] kind reads the minimum number of bytes from the device
//! and gives the implied total file size, or `None` when the structure is
//! malformed (the extractor then falls back to `max_size`).  Every reader is
//! specified over the device contents: on a device whose reads succeed it
//! returns exactly what the specification gives.
use vstd::prelude::*;
use crate::bytes::{be16, be32, be64, le16, le32, is_print, sat_add, sat_mul, u16_at, u32_at, u64_at};
use crate::device::{clamped, read_bytes_clamped, BlockDevice};
use crate::pre_validate::document::pow2;
use crate::signature::SizeHint;

pub mod frames;
pub mod structured;
pub mod tiff;

verus! {

/// Devices small enough that offsets plus small increments stay in 64 bits.
pub open spec fn addressable(dev: Seq<u8>) -> bool {
    dev.len() <= 0x7FFF_FFFF_FFFF_FFFF
}

/// A read of at most `len` bytes at `offset`; `None` when the device
/// fails it.
pub(crate) fn read_dev<D: BlockDevice>(device: &D, offset: u64, len: usize) -> (r: Option<Vec<u8>>)
    ensures
        r matches Some(v) ==> v@ == clamped(device.contents(), offset as int, len as int),
        device.healthy() ==> r is Some,
{
    match read_bytes_clamped(device, offset, len) {
        Ok(v) => Some(v),
        Err(_) => None,
    }
}

// ── Fixed-field hints ────────────────────────────────────────────────────────

/// Value of a `len`-byte field at the start of `f` in the given order; only
/// widths 2, 4 and 8 are defined.
pub open spec fn field_value(f: Seq<u8>, len: int, le: bool) -> Option<int> {
    if len == 2 {
        Some(u16_at(f, 0, le))
    } else if len == 4 {
        Some(u32_at(f, 0, le))
    } else if len == 8 {
        Some(u64_at(f, 0, le))
    } else {
        None
    }
}

/// Linear hint: the field at `offset` plus `add` (saturating).
pub open spec fn linear_spec(dev: Seq<u8>, fo: int, offset: int, len: int, le: bool, add: int) -> Option<u64> {
    let f = clamped(dev, fo + offset, len);
    if f.len() < len {
        None
    } else {
        match field_value(f, len, le) {
            Some(v) => Some(sat_add(v, add) as u64),
            None => None,
        }
    }
}

/// Scaled linear hint: the field at `offset` times `scale` plus `add`
/// (both saturating).
pub open spec fn linear_scaled_spec(dev: Seq<u8>, fo: int, offset: int, len: int, le: bool, scale: int, add: int) -> Option<u64> {
    let f = clamped(dev, fo + offset, len);
    if f.len() < len {
        None
    } else {
        match field_value(f, len, le) {
            Some(v) => Some(sat_add(sat_mul(v, scale), add) as u64),
            None => None,
        }
    }
}

fn field_of(f: &[u8], len: u8, le: bool) -> (r: Option<u64>)
    requires f@.len() >= len,
    ensures r == (match field_value(f@, len as int, le) { Some(v) => Some(v as u64), None => None::<u64> }),
{
    if len == 2 {
        Some(crate::bytes::rd_u16(f, 0, le) as u64)
    } else if len == 4 {
        Some(crate::bytes::rd_u32(f, 0, le) as u64)
    } else if len == 8 {
        Some(crate::bytes::rd_u64(f, 0, le))
    } else {
        None
    }
}

fn offset_plus(fo: u64, offset: u64) -> (r: u64)
    ensures r == sat_add(fo as int, offset as int),
{
    fo.saturating_add(offset)
}

/// Reads a linear size hint.
pub fn linear_hint<D: BlockDevice>(device: &D, file_offset: u64, offset: usize, len: u8, little_endian: bool, add: u64) -> (r: Option<u64>)
    requires addressable(device.contents()),
    ensures (device.healthy() || r is Some) ==> r == linear_spec(device.contents(), file_offset as int, offset as int, len as int, little_endian, add as int),
{
    let at = offset_plus(file_offset, offset as u64);
    let f = read_dev(device, at, len as usize)?;
    proof { lemma_clamp_saturated(device.contents(), file_offset as int, offset as int, len as int); }
    if f.len() < len as usize {
        return None;
    }
    let v = field_of(&f, len, little_endian)?;
    Some(v.saturating_add(add))
}

/// Reads a scaled linear size hint.
pub fn linear_scaled_hint<D: BlockDevice>(
    device: &D,
    file_offset: u64,
    offset: usize,
    len: u8,
    little_endian: bool,
    scale: u64,
    add: u64,
) -> (r: Option<u64>)
    requires addressable(device.contents()),
    ensures (device.healthy() || r is Some) ==> r == linear_scaled_spec(device.contents(), file_offset as int, offset as int, len as int, little_endian, scale as int, add as int),
{
    let at = offset_plus(file_offset, offset as u64);
    let f = read_dev(device, at, len as usize)?;
    proof { lemma_clamp_saturated(device.contents(), file_offset as int, offset as int, len as int); }
    if f.len() < len as usize {
        return None;
    }
    let v = field_of(&f, len, little_endian)?;
    let scaled = match v.checked_mul(scale) {
        Some(x) => x,
        None => u64::MAX,
    };
    Some(scaled.saturating_add(add))
}

/// A read at a saturated offset sees what the mathematical offset sees.
proof fn lemma_clamp_saturated(dev: Seq<u8>, fo: int, off: int, len: int)
    requires addressable(dev), 0 <= fo, 0 <= off, fo <= u64::MAX, off <= u64::MAX,
    ensures clamped(dev, sat_add(fo, off), len) == clamped(dev, fo + off, len),
{
}

/// OLE2 compound file: sector size `2^shift` from the field at 30 (shift
/// within 7–16), FAT sector count at 44; the file spans
/// `(fat × sector/4 + 1) × sector` bytes (saturating).
pub open spec fn ole2_spec(dev: Seq<u8>, fo: int) -> Option<u64> {
    let s = clamped(dev, fo + 30, 2);
    let f = clamped(dev, fo + 44, 4);
    if s.len() < 2 || !(7 <= le16(s, 0) <= 16) || f.len() < 4 {
        None
    } else {
        let ss = pow2(le16(s, 0));
        Some(sat_mul(sat_add(sat_mul(le32(f, 0), ss / 4), 1), ss) as u64)
    }
}

/// An OLE2 compound file whose header fields lie on the device spans
/// `(fat × sector/4 + 1) × sector` bytes: the sector size is two to the
/// little-endian 16-bit shift at 30 (which must lie within 7–16), and `fat`
/// is the little-endian 32-bit FAT sector count at 44; each FAT sector maps
/// `sector/4` sectors, and one more sector holds the header.
pub proof fn lemma_ole2_size_from_fat(dev: Seq<u8>, fo: int)
    requires 0 <= fo, fo + 48 <= dev.len(),
    ensures ({
        let shift = dev[fo + 30] as int + dev[fo + 31] as int * 256;
        let fat = dev[fo + 44] as int + dev[fo + 45] as int * 0x100
            + dev[fo + 46] as int * 0x1_0000 + dev[fo + 47] as int * 0x100_0000;
        let sector = vstd::arithmetic::power2::pow2(shift as nat) as int;
        ole2_spec(dev, fo) == if 7 <= shift <= 16 { Some(((fat * (sector / 4) + 1) * sector) as u64) } else { None }
    }),
{
    let s = clamped(dev, fo + 30, 2);
    let f = clamped(dev, fo + 44, 4);
    assert(s.len() == 2 && s[0] == dev[fo + 30] && s[1] == dev[fo + 31]);
    assert(f.len() == 4 && f[0] == dev[fo + 44] && f[1] == dev[fo + 45] && f[2] == dev[fo + 46] && f[3] == dev[fo + 47]);
    let shift = le16(s, 0);
    let fat = le32(f, 0);
    assert(0 <= fat <= 0xFFFF_FFFF);
    if 7 <= shift <= 16 {
        let ss = pow2(shift);
        vstd::arithmetic::power2::lemma2_to64();
        reveal_with_fuel(pow2, 17);
        assert(ss == vstd::arithmetic::power2::pow2(shift as nat) as int);
        assert(128 <= ss <= 65536);
        let q = ss / 4;
        assert(q <= 16384);
        assert(fat * q <= 0xFFFF_FFFF * 16384) by (nonlinear_arith)
            requires 0 <= fat <= 0xFFFF_FFFF, 0 <= q <= 16384;
        assert(fat * q >= 0) by (nonlinear_arith)
            requires 0 <= fat, 0 <= q;
        assert((fat * q + 1) * ss <= (0xFFFF_FFFF * 16384 + 1) * 65536) by (nonlinear_arith)
            requires 0 <= fat * q <= 0xFFFF_FFFF * 16384, 0 <= ss <= 65536;
    }
}

fn sat_mul_u64(a: u64, b: u64) -> (r: u64)
    ensures r == sat_mul(a as int, b as int),
{
    match a.checked_mul(b) {
        Some(x) => x,
        None => u64::MAX,
    }
}

fn pow2_of(e: u16) -> (r: u64)
    requires e <= 16,
    ensures r == pow2(e as int),
{
    let mut p: u64 = 1;
    let mut k: u16 = 0;
    while k < e
        invariant
            k <= e <= 16,
            p == pow2(k as int),
            p <= 0x1_0000,
        decreases e - k,
    {
        proof { crate::pre_validate::document::lemma_pow2_mono(k as int + 1, 16); reveal_with_fuel(pow2, 17); }
        p = p * 2;
        k += 1;
    }
    p
}

/// Reads an OLE2 size hint.
pub fn ole2_hint<D: BlockDevice>(device: &D, file_offset: u64) -> (r: Option<u64>)
    requires addressable(device.contents()),
    ensures (device.healthy() || r is Some) ==> r == ole2_spec(device.contents(), file_offset as int),
{
    let s = read_dev(device, offset_plus(file_offset, 30), 2)?;
    let f = read_dev(device, offset_plus(file_offset, 44), 4)?;
    proof {
        lemma_clamp_saturated(device.contents(), file_offset as int, 30, 2);
        lemma_clamp_saturated(device.contents(), file_offset as int, 44, 4);
    }
    if s.len() < 2 {
        return None;
    }
    let shift = crate::bytes::rd_le16(&s, 0);
    if !(7 <= shift && shift <= 16) || f.len() < 4 {
        return None;
    }
    let ss = pow2_of(shift);
    let fat = crate::bytes::rd_le32(&f, 0) as u64;
    let addressable_sectors = sat_mul_u64(fat, ss / 4);
    Some(sat_mul_u64(addressable_sectors.saturating_add(1), ss))
}

/// SQLite: page size (field at 16, 1 meaning 65 536; at least 512) times
/// the page count at 28 (non-zero), saturating.
pub open spec fn sqlite_spec(dev: Seq<u8>, fo: int) -> Option<u64> {
    let p = clamped(dev, fo + 16, 2);
    let c = clamped(dev, fo + 28, 4);
    if p.len() < 2 {
        None
    } else {
        let ps = if be16(p, 0) == 1 { 65536 } else { be16(p, 0) };
        if ps < 512 || c.len() < 4 || be32(c, 0) == 0 { None } else { Some(sat_mul(ps, be32(c, 0)) as u64) }
    }
}

/// An SQLite database whose 32-byte header lies on the device is as large
/// as its page size times its page count: the page size is the big-endian
/// 16-bit field at 16 (the value 1 standing for 65 536), the page count the
/// big-endian 32-bit field at 28.  A page size below 512 or a zero page
/// count gives no size.
pub proof fn lemma_sqlite_size_is_pages_times_page_size(dev: Seq<u8>, fo: int)
    requires 0 <= fo, fo + 32 <= dev.len(),
    ensures ({
        let raw = dev[fo + 16] as int * 256 + dev[fo + 17] as int;
        let page_size = if raw == 1 { 65536 } else { raw };
        let pages = dev[fo + 28] as int * 0x100_0000 + dev[fo + 29] as int * 0x1_0000
            + dev[fo + 30] as int * 0x100 + dev[fo + 31] as int;
        sqlite_spec(dev, fo) == if page_size >= 512 && pages > 0 { Some((page_size * pages) as u64) } else { None }
    }),
{
    let p = clamped(dev, fo + 16, 2);
    let c = clamped(dev, fo + 28, 4);
    assert(p.len() == 2 && p[0] == dev[fo + 16] && p[1] == dev[fo + 17]);
    assert(c.len() == 4 && c[0] == dev[fo + 28] && c[1] == dev[fo + 29] && c[2] == dev[fo + 30] && c[3] == dev[fo + 31]);
    let raw = dev[fo + 16] as int * 256 + dev[fo + 17] as int;
    let page_size = if raw == 1 { 65536 } else { raw };
    let pages = be32(c, 0);
    assert(pages == dev[fo + 28] as int * 0x100_0000 + dev[fo + 29] as int * 0x1_0000
        + dev[fo + 30] as int * 0x100 + dev[fo + 31] as int);
    assert(0 <= page_size <= 65536);
    assert(0 <= pages <= 0xFFFF_FFFF);
    assert(page_size * pages <= 65536 * 0xFFFF_FFFF) by (nonlinear_arith)
        requires 0 <= page_size <= 65536, 0 <= pages <= 0xFFFF_FFFF;
}

/// Reads an SQLite size hint.
pub fn sqlite_hint<D: BlockDevice>(device: &D, file_offset: u64) -> (r: Option<u64>)
    requires addressable(device.contents()),
    ensures (device.healthy() || r is Some) ==> r == sqlite_spec(device.contents(), file_offset as int),
{
    let p = read_dev(device, offset_plus(file_offset, 16), 2)?;
    proof { lemma_clamp_saturated(device.contents(), file_offset as int, 16, 2); }
    if p.len() < 2 {
        return None;
    }
    let raw = crate::bytes::rd_be16(&p, 0);
    let ps: u64 = if raw == 1 { 65536 } else { raw as u64 };
    if ps < 512 {
        return None;
    }
    let c = read_dev(device, offset_plus(file_offset, 28), 4)?;
    proof { lemma_clamp_saturated(device.contents(), file_offset as int, 28, 4); }
    if c.len() < 4 {
        return None;
    }
    let pages = crate::bytes::rd_be32(&c, 0) as u64;
    if pages == 0 {
        return None;
    }
    Some(sat_mul_u64(ps, pages))
}

/// 7-Zip: `32 + NextHeaderOffset + NextHeaderSize` (64-bit fields at 12 and
/// 20, saturating).
pub open spec fn seven_zip_spec(dev: Seq<u8>, fo: int) -> Option<u64> {
    let a = clamped(dev, fo + 12, 8);
    let b = clamped(dev, fo + 20, 8);
    if a.len() < 8 || b.len() < 8 { None } else { Some(sat_add(sat_add(32, le64_of(a)), le64_of(b)) as u64) }
}

/// Little-endian 64-bit value at the start of `s`.
pub open spec fn le64_of(s: Seq<u8>) -> int {
    u64_at(s, 0, true)
}

/// Reads a 7-Zip size hint.
pub fn seven_zip_hint<D: BlockDevice>(device: &D, file_offset: u64) -> (r: Option<u64>)
    requires addressable(device.contents()),
    ensures (device.healthy() || r is Some) ==> r == seven_zip_spec(device.contents(), file_offset as int),
{
    let a = read_dev(device, offset_plus(file_offset, 12), 8)?;
    let b = read_dev(device, offset_plus(file_offset, 20), 8)?;
    proof {
        lemma_clamp_saturated(device.contents(), file_offset as int, 12, 8);
        lemma_clamp_saturated(device.contents(), file_offset as int, 20, 8);
    }
    if a.len() < 8 || b.len() < 8 {
        return None;
    }
    let next_offset = crate::bytes::rd_u64(&a, 0, true);
    let next_size = crate::bytes::rd_u64(&b, 0, true);
    Some(32u64.saturating_add(next_offset).saturating_add(next_size))
}

/// Fujifilm RAF: the larger end of the JPEG preview (offset/length at 84/88)
/// and the raw sensor data (92/96), big-endian; none when both are 0.
pub open spec fn raf_spec(dev: Seq<u8>, fo: int) -> Option<u64> {
    let h = clamped(dev, fo + 84, 16);
    if h.len() < 16 {
        None
    } else {
        let j = be32(h, 0) + be32(h, 4);
        let c = be32(h, 8) + be32(h, 12);
        let m = if j >= c { j } else { c };
        if m == 0 { None } else { Some(m as u64) }
    }
}

/// Reads a Fujifilm RAF size hint.
pub fn raf_size_hint<D: BlockDevice>(device: &D, file_offset: u64) -> (r: Option<u64>)
    requires addressable(device.contents()),
    ensures (device.healthy() || r is Some) ==> r == raf_spec(device.contents(), file_offset as int),
{
    let h = read_dev(device, offset_plus(file_offset, 84), 16)?;
    proof { lemma_clamp_saturated(device.contents(), file_offset as int, 84, 16); }
    if h.len() < 16 {
        return None;
    }
    let j = crate::bytes::rd_be32(&h, 0) as u64 + crate::bytes::rd_be32(&h, 4) as u64;
    let c = crate::bytes::rd_be32(&h, 8) as u64 + crate::bytes::rd_be32(&h, 12) as u64;
    let m = if j >= c { j } else { c };
    if m == 0 { None } else { Some(m) }
}

// ── Ogg ──────────────────────────────────────────────────────────────────────

/// Sum of the bytes of `s`.
pub open spec fn byte_sum(s: Seq<u8>) -> int
    decreases s.len(),
{
    if s.len() == 0 { 0 } else { byte_sum(s.drop_last()) + s.last() }
}

/// Walk of Ogg pages from `pos` (`n` pages seen): each page starts with
/// `OggS`, its size is `27 + segments + sum(segment table)`; the walk ends
/// at the end-of-stream page (flag bit 2 at page offset 5), giving the
/// distance from the file start to that page's end.  Running off the
/// device, losing sync, or passing 100 000 pages gives none.
pub open spec fn ogg_walk(dev: Seq<u8>, fo: int, pos: int, n: int) -> Option<u64>
    decreases 100_000 - n,
{
    if n < 0 || n >= 100_000 || pos >= dev.len() {
        None
    } else {
        let h = clamped(dev, pos, 27);
        if h.len() < 27 || h[0] != 0x4F || h[1] != 0x67 || h[2] != 0x67 || h[3] != 0x53 {
            None
        } else {
            let segs = clamped(dev, pos + 27, h[26] as int);
            if segs.len() < h[26] {
                None
            } else {
                let page = 27 + h[26] + byte_sum(segs);
                if (h[5] / 4) % 2 == 1 {
                    Some((pos - fo + page) as u64)
                } else {
                    ogg_walk(dev, fo, pos + page, n + 1)
                }
            }
        }
    }
}

proof fn lemma_byte_sum_bound(s: Seq<u8>)
    ensures 0 <= byte_sum(s) <= 255 * s.len(),
    decreases s.len(),
{
    if s.len() > 0 {
        lemma_byte_sum_bound(s.drop_last());
    }
}

/// Walks Ogg pages from `file_offset` to the end-of-stream page.
pub fn ogg_stream_hint<D: BlockDevice>(device: &D, file_offset: u64) -> (r: Option<u64>)
    requires addressable(device.contents()),
    ensures (device.healthy() || r is Some) ==> r == ogg_walk(device.contents(), file_offset as int, file_offset as int, 0),
{
    let device_size = device.size();
    let mut pos = file_offset;
    let mut n: u32 = 0;
    while n < 100_000
        invariant
            device_size == device.contents().len(),
            addressable(device.contents()),
            file_offset <= pos,
            ogg_walk(device.contents(), file_offset as int, pos as int, n as int)
                == ogg_walk(device.contents(), file_offset as int, file_offset as int, 0),
        decreases 100_000 - n,
    {
        if pos >= device_size {
            return None;
        }
        let h = read_dev(device, pos, 27)?;
        if h.len() < 27 || h[0] != 0x4F || h[1] != 0x67 || h[2] != 0x67 || h[3] != 0x53 {
            return None;
        }
        let nseg = h[26] as usize;
        let segs = read_dev(device, pos + 27, nseg)?;
        if segs.len() < nseg {
            return None;
        }
        let mut sum: u64 = 0;
        let mut i: usize = 0;
        while i < segs.len()
            invariant
                i <= segs.len(),
                segs.len() <= 255,
                sum == byte_sum(segs@.take(i as int)),
                sum <= 255 * i,
            decreases segs.len() - i,
        {
            assert(segs@.take(i + 1).drop_last() =~= segs@.take(i as int));
            sum = sum + segs[i] as u64;
            i += 1;
        }
        assert(segs@.take(segs@.len() as int) =~= segs@);
        let page = 27 + nseg as u64 + sum;
        if (h[5] / 4) % 2 == 1 {
            return Some(pos - file_offset + page);
        }
        pos = pos + page;
        n += 1;
    }
    None
}

// ── ISO base media ───────────────────────────────────────────────────────────

/// Size of the box at `pos` when the walk may take it: printable type, a
/// 32-bit size of at least 8, or a 64-bit size (marker 1) of at least 16;
/// none where the walk stops (size 0 = to the end, bad type, bad size, or a
/// 64-bit size past the device).
pub open spec fn iso_box_size(dev: Seq<u8>, pos: int) -> Option<int> {
    let raw = be32(dev, pos);
    if !(is_print(dev[pos + 4]) && is_print(dev[pos + 5]) && is_print(dev[pos + 6]) && is_print(dev[pos + 7])) || raw == 0 {
        None
    } else if raw == 1 {
        if pos + 16 > dev.len() || be64(dev, pos + 8) < 16 { None } else { Some(be64(dev, pos + 8)) }
    } else if raw < 8 {
        None
    } else {
        Some(raw)
    }
}

/// Walk of top-level boxes from `pos` (`n` seen), summing their sizes
/// (saturating) until a box the walk cannot take, the device end, or
/// 2 000 boxes; none when nothing was summed.
pub open spec fn iso_walk(dev: Seq<u8>, pos: int, total: int, n: int) -> Option<u64>
    decreases 2000 - n,
{
    if n < 0 || n >= 2000 || pos + 8 > dev.len() {
        if total > 0 { Some(total as u64) } else { None }
    } else {
        match iso_box_size(dev, pos) {
            None => if total > 0 { Some(total as u64) } else { None },
            Some(size) => iso_walk(dev, sat_add(pos, size), sat_add(total, size), n + 1),
        }
    }
}

/// Walks top-level ISOBMFF boxes from `file_offset`, summing their sizes.
pub fn isobmff_hint<D: BlockDevice>(device: &D, file_offset: u64) -> (r: Option<u64>)
    requires addressable(device.contents()),
    ensures (device.healthy() || r is Some) ==> r == iso_walk(device.contents(), file_offset as int, 0, 0),
{
    let device_size = device.size();
    let mut pos = file_offset;
    let mut total: u64 = 0;
    let mut n: u32 = 0;
    while n < 2000
        invariant
            device_size == device.contents().len(),
            addressable(device.contents()),
            iso_walk(device.contents(), pos as int, total as int, n as int)
                == iso_walk(device.contents(), file_offset as int, 0, 0),
        ensures
            iso_walk(device.contents(), file_offset as int, 0, 0)
                == (if total > 0 { Some(total) } else { None::<u64> }),
        decreases 2000 - n,
    {
        if pos > device_size || device_size - pos < 8 {
            break;
        }
        let h = read_dev(device, pos, 16)?;
        if h.len() < 8 {
            break;
        }
        proof {
            assert forall|k: int| 0 <= k < 8 implies h@[k] == device.contents()[pos + k] by {}
        }
        let raw = crate::bytes::rd_be32(&h, 0);
        if !(crate::bytes::print(h[4]) && crate::bytes::print(h[5]) && crate::bytes::print(h[6]) && crate::bytes::print(h[7])) || raw == 0 {
            break;
        }
        let size: u64 = if raw == 1 {
            if device_size - pos < 16 {
                break;
            }
            proof {
                assert forall|k: int| 8 <= k < 16 implies h@[k] == device.contents()[pos + k] by {}
            }
            let ls = crate::bytes::rd_be64(&h, 8);
            if ls < 16 {
                break;
            }
            ls
        } else if raw < 8 {
            break;
        } else {
            raw as u64
        };
        total = total.saturating_add(size);
        pos = pos.saturating_add(size);
        n += 1;
    }
    if total > 0 { Some(total) } else { None }
}

// ── Dispatch ─────────────────────────────────────────────────────────────────

/// The size a hint gives for a file at `fo` on a device holding `dev`.
/// Text-boundary hints read no structure and give none.
pub open spec fn size_hint_spec(dev: Seq<u8>, fo: int, hint: SizeHint, max_size: int) -> Option<u64> {
    match hint {
        SizeHint::Linear { offset, len, little_endian, add } => linear_spec(dev, fo, offset as int, len as int, little_endian, add as int),
        SizeHint::Ole2 => ole2_spec(dev, fo),
        SizeHint::LinearScaled { offset, len, little_endian, scale, add } =>
            linear_scaled_spec(dev, fo, offset as int, len as int, little_endian, scale as int, add as int),
        SizeHint::Sqlite => sqlite_spec(dev, fo),
        SizeHint::SevenZip => seven_zip_spec(dev, fo),
        SizeHint::OggStream => ogg_walk(dev, fo, fo, 0),
        SizeHint::Isobmff => iso_walk(dev, fo, 0, 0),
        SizeHint::Tiff => tiff::tiff_hint_spec(dev, fo),
        SizeHint::Raf => raf_spec(dev, fo),
        SizeHint::MpegTs { ts_offset, stride } => structured::mpeg_ts_spec(dev, fo, ts_offset as int, stride as int, max_size),
        SizeHint::Pe => structured::pe_spec(dev, fo),
        SizeHint::Elf => structured::elf_spec(dev, fo),
        SizeHint::Rar => structured::rar_spec(dev, fo),
        SizeHint::Ebml => structured::ebml_spec(dev, fo),
        SizeHint::TextBound => None,
        SizeHint::Ttf => structured::ttf_spec(dev, fo),
        SizeHint::Pdf => structured::pdf_spec(dev, fo),
    }
}

/// A linear hint gives the size field that lies `offset` bytes into the
/// file, read as an unsigned integer in its byte order, plus `add`
/// (saturating at the largest 64-bit value), when the field is 2, 4 or 8
/// bytes wide and lies wholly on the device; otherwise it gives none.
pub proof fn lemma_linear_hint_value(dev: Seq<u8>, fo: u64, offset: usize, len: u8, little_endian: bool, add: u64, max_size: int)
    ensures
        size_hint_spec(dev, fo as int, SizeHint::Linear { offset, len, little_endian, add }, max_size) == ({
            let p = fo + offset;
            let field = dev.subrange(p, p + len);
            if p + len > dev.len() || !(len == 2 || len == 4 || len == 8) {
                None
            } else if len == 2 {
                Some(sat_add(u16_at(field, 0, little_endian), add as int) as u64)
            } else if len == 4 {
                Some(sat_add(u32_at(field, 0, little_endian), add as int) as u64)
            } else {
                Some(sat_add(u64_at(field, 0, little_endian), add as int) as u64)
            }
        }),
{
    let p = fo + offset;
    let f = clamped(dev, p, len as int);
    if p + len <= dev.len() && len > 0 {
        assert(f =~= dev.subrange(p, p + len));
    }
}

/// Hints whose readers, on a failed read, skip what they could not read or
/// stop there and give what they found so far, rather than giving none.
pub open spec fn reads_on_past_failure(h: SizeHint) -> bool {
    h is Tiff || h is MpegTs
}

/// Read the embedded size hint of the file at `file_offset` and return the
/// implied total file size, or `None` when the structure is malformed or a
/// read fails (the TIFF walker instead skips what it could not read, and
/// the MPEG-TS walker stops there as at the device end).  `max_size` bounds
/// stream walkers (MPEG-TS).
pub fn read_size_hint<D: BlockDevice>(device: &D, file_offset: u64, hint: &SizeHint, max_size: u64) -> (r: Option<u64>)
    requires addressable(device.contents()), file_offset <= 0x7FFF_FFFF_FFFF_FFFF,
    ensures
        device.healthy() ==> r == size_hint_spec(device.contents(), file_offset as int, *hint, max_size as int),
        r is Some && !reads_on_past_failure(*hint) ==> r == size_hint_spec(device.contents(), file_offset as int, *hint, max_size as int),
        *hint is MpegTs ==> exists|k: int| 0 <= k <= device.contents().len()
            && r == #[trigger] size_hint_spec(device.contents().take(k), file_offset as int, *hint, max_size as int),
{
    match hint {
        SizeHint::Linear { offset, len, little_endian, add } => linear_hint(device, file_offset, *offset, *len, *little_endian, *add),
        SizeHint::Ole2 => ole2_hint(device, file_offset),
        SizeHint::LinearScaled { offset, len, little_endian, scale, add } =>
            linear_scaled_hint(device, file_offset, *offset, *len, *little_endian, *scale, *add),
        SizeHint::Sqlite => sqlite_hint(device, file_offset),
        SizeHint::SevenZip => seven_zip_hint(device, file_offset),
        SizeHint::OggStream => ogg_stream_hint(device, file_offset),
        SizeHint::Isobmff => isobmff_hint(device, file_offset),
        SizeHint::Tiff => tiff::tiff_size_hint(device, file_offset),
        SizeHint::Raf => raf_size_hint(device, file_offset),
        SizeHint::MpegTs { ts_offset, stride } => {
            let r = structured::mpeg_ts_size_hint(device, file_offset, *ts_offset, *stride, max_size);
            proof {
                let dev = device.contents();
                let k = choose|k: int| 0 <= k <= dev.len()
                    && r == #[trigger] structured::mpeg_ts_spec(dev.take(k), file_offset as int, *ts_offset as int, *stride as int, max_size as int);
                assert(r == size_hint_spec(dev.take(k), file_offset as int, *hint, max_size as int));
            }
            r
        },
        SizeHint::Pe => structured::pe_hint(device, file_offset),
        SizeHint::Elf => structured::elf_hint(device, file_offset),
        SizeHint::Rar => structured::rar_hint(device, file_offset),
        SizeHint::Ebml => structured::ebml_hint(device, file_offset),
        SizeHint::TextBound => None,
        SizeHint::Ttf => structured::ttf_hint(device, file_offset),
        SizeHint::Pdf => structured::pdf_hint(device, file_offset),
    }
}

} // verus!
