//! Size hints that walk a file's own framing: chunk lists (PNG, MIDI),
//! block lists (GIF), segment lists (JPEG), frame streams (ADTS), pack
//! streams (MPEG-PS), header objects (ASF) and fixed header fields (AU,
//! ISO 9660).  Each reader is specified over the device contents; on a
//! device whose reads succeed it returns exactly what its specification
//! gives.  A header that the device cuts short gives no size.
use vstd::prelude::*;
use crate::bytes::{be16, be32, le16, le32, matches_at, occurs_at, rd_be16, rd_be32, rd_le16, rd_le32, rd_u64, sat_add, u64_at};
use crate::pre_validate::document::pow2;
use crate::device::{clamped, BlockDevice};
use super::{addressable, read_dev};

verus! {

// ── AU ───────────────────────────────────────────────────────────────────────

/// Sun/NeXT AU: data offset (at 4) plus data size (at 8), big-endian; none
/// for the streaming size `FFFF FFFF` or a total under the 24-byte header.
pub open spec fn au_spec(dev: Seq<u8>, fo: int) -> Option<u64> {
    let h = clamped(dev, fo, 12);
    if h.len() < 12 || be32(h, 8) == 0xFFFF_FFFF || be32(h, 4) + be32(h, 8) < 24 {
        None
    } else {
        Some((be32(h, 4) + be32(h, 8)) as u64)
    }
}

/// Reads a Sun/NeXT AU size hint.
pub fn au_hint<D: BlockDevice>(device: &D, file_offset: u64) -> (r: Option<u64>)
    requires addressable(device.contents()),
    ensures (device.healthy() || r is Some) ==> r == au_spec(device.contents(), file_offset as int),
{
    let h = read_dev(device, file_offset, 12)?;
    if h.len() < 12 {
        return None;
    }
    let data_offset = rd_be32(&h, 4) as u64;
    let data_size = rd_be32(&h, 8);
    if data_size == 0xFFFF_FFFF {
        return None;
    }
    let total = data_offset + data_size as u64;
    if total < 24 {
        return None;
    }
    Some(total)
}

// ── ISO 9660 ─────────────────────────────────────────────────────────────────

/// Logical block sizes an ISO 9660 volume may have: powers of two from
/// 512 to 32 768.
pub open spec fn iso_block_size_ok(n: int) -> bool {
    n == 512 || n == 1024 || n == 2048 || n == 4096 || n == 8192 || n == 16384 || n == 32768
}

/// ISO 9660: volume space size (32-bit LE at 32 768 + 80, non-zero) times
/// the logical block size (16-bit LE at 32 768 + 128).
pub open spec fn iso9660_spec(dev: Seq<u8>, fo: int) -> Option<u64> {
    let v = clamped(dev, fo + 32_848, 4);
    let b = clamped(dev, fo + 32_896, 2);
    if v.len() < 4 || le32(v, 0) == 0 || b.len() < 2 || !iso_block_size_ok(le16(b, 0)) {
        None
    } else {
        Some((le32(v, 0) * le16(b, 0)) as u64)
    }
}

/// Reads an ISO 9660 size hint from the primary volume descriptor.
pub fn iso9660_hint<D: BlockDevice>(device: &D, file_offset: u64) -> (r: Option<u64>)
    requires addressable(device.contents()),
    ensures (device.healthy() || r is Some) ==> r == iso9660_spec(device.contents(), file_offset as int),
{
    if file_offset > 0x7FFF_FFFF_FFFF_FFFF {
        return None;
    }
    let v = read_dev(device, file_offset + 32_848, 4)?;
    if v.len() < 4 {
        return None;
    }
    let vss = rd_le32(&v, 0) as u64;
    if vss == 0 {
        return None;
    }
    let b = read_dev(device, file_offset + 32_896, 2)?;
    if b.len() < 2 {
        return None;
    }
    let lbs = rd_le16(&b, 0) as u64;
    if !(lbs == 512 || lbs == 1024 || lbs == 2048 || lbs == 4096 || lbs == 8192 || lbs == 16384 || lbs == 32768) {
        return None;
    }
    assert(vss * lbs <= 0xFFFF_FFFF * 32768) by (nonlinear_arith)
        requires vss <= 0xFFFF_FFFF, lbs <= 32768;
    Some(vss * lbs)
}

// ── MIDI ─────────────────────────────────────────────────────────────────────

/// Walk of `left` MIDI track chunks from `pos` with `total` bytes so far:
/// each starts with `MTrk` and a 32-bit big-endian length and adds
/// `8 + length`.
pub open spec fn midi_tracks(dev: Seq<u8>, pos: int, left: int, total: int) -> Option<u64>
    decreases left,
{
    if left <= 0 {
        Some(total as u64)
    } else {
        let c = clamped(dev, pos, 8);
        if c.len() < 8 || c[0] != 0x4D || c[1] != 0x54 || c[2] != 0x72 || c[3] != 0x6B {
            None
        } else {
            midi_tracks(dev, pos + 8 + be32(c, 4), left - 1, total + 8 + be32(c, 4))
        }
    }
}

/// Standard MIDI file: the `MThd` header (length field 6) names the track
/// count; the file is 14 bytes plus every track chunk.
pub open spec fn midi_spec(dev: Seq<u8>, fo: int) -> Option<u64> {
    let h = clamped(dev, fo, 14);
    if h.len() < 14 || h[0] != 0x4D || h[1] != 0x54 || h[2] != 0x68 || h[3] != 0x64 || be32(h, 4) != 6 {
        None
    } else {
        midi_tracks(dev, fo + 14, be16(h, 10), 14)
    }
}

/// Reads a Standard MIDI file size hint by walking its track chunks.
pub fn midi_hint<D: BlockDevice>(device: &D, file_offset: u64) -> (r: Option<u64>)
    requires addressable(device.contents()),
    ensures (device.healthy() || r is Some) ==> r == midi_spec(device.contents(), file_offset as int),
{
    let h = read_dev(device, file_offset, 14)?;
    if h.len() < 14 || h[0] != 0x4D || h[1] != 0x54 || h[2] != 0x68 || h[3] != 0x64 || rd_be32(&h, 4) != 6 {
        return None;
    }
    let n_tracks = rd_be16(&h, 10);
    if file_offset > 0x7FFF_FFFF_FFFF_FFFF {
        // Past any addressable device: the first track cannot be read.
        if n_tracks == 0 {
            return Some(14);
        }
        proof {
            assert(clamped(device.contents(), file_offset + 14, 8).len() == 0);
        }
        return None;
    }
    let mut total: u64 = 14;
    let mut pos: u64 = file_offset + 14;
    let mut k: u16 = 0;
    while k < n_tracks
        invariant
            k <= n_tracks,
            addressable(device.contents()),
            total <= 14 + k * 0x1_0000_0008,
            pos == file_offset + total,
            file_offset <= 0x7FFF_FFFF_FFFF_FFFF,
            midi_tracks(device.contents(), pos as int, (n_tracks - k) as int, total as int)
                == midi_spec(device.contents(), file_offset as int),
        decreases n_tracks - k,
    {
        let c = read_dev(device, pos, 8)?;
        if c.len() < 8 || c[0] != 0x4D || c[1] != 0x54 || c[2] != 0x72 || c[3] != 0x6B {
            return None;
        }
        let track_len = rd_be32(&c, 4) as u64;
        assert(total + 8 + track_len <= 14 + (k + 1) * 0x1_0000_0008) by (nonlinear_arith)
            requires total <= 14 + k * 0x1_0000_0008, track_len <= 0xFFFF_FFFF;
        total = total + 8 + track_len;
        pos = pos + 8 + track_len;
        k += 1;
    }
    Some(total)
}

// ── PNG ──────────────────────────────────────────────────────────────────────

/// Is `b` an ASCII letter?
pub open spec fn ascii_letter(b: u8) -> bool {
    (0x41 <= b <= 0x5A) || (0x61 <= b <= 0x7A)
}

/// Walk of PNG chunks from `pos` (relative to the file start `fo`, `n`
/// chunks seen): each chunk is a 32-bit big-endian length (at most
/// 256 MiB), a four-letter type, the data and a CRC; the walk ends after
/// `IEND`.  A short read, a bad type or passing 10 000 chunks gives none.
pub open spec fn png_walk(dev: Seq<u8>, fo: int, pos: int, n: int) -> Option<u64>
    decreases 10_000 - n,
{
    if n < 0 || n >= 10_000 {
        None
    } else {
        let h = clamped(dev, fo + pos, 8);
        if h.len() < 8 || be32(h, 0) > 0x1000_0000 {
            None
        } else if h[4] == 0x49 && h[5] == 0x45 && h[6] == 0x4E && h[7] == 0x44 {
            Some((pos + 12 + be32(h, 0)) as u64)
        } else if !(ascii_letter(h[4]) && ascii_letter(h[5]) && ascii_letter(h[6]) && ascii_letter(h[7])) {
            None
        } else {
            png_walk(dev, fo, pos + 12 + be32(h, 0), n + 1)
        }
    }
}

fn letter(b: u8) -> (r: bool)
    ensures r == ascii_letter(b),
{
    (0x41 <= b && b <= 0x5A) || (0x61 <= b && b <= 0x7A)
}

/// Reads a PNG size hint by walking its chunks to the end of `IEND`.
pub fn png_hint<D: BlockDevice>(device: &D, file_offset: u64) -> (r: Option<u64>)
    requires addressable(device.contents()),
    ensures (device.healthy() || r is Some) ==> r == png_walk(device.contents(), file_offset as int, 8, 0),
{
    if file_offset > 0x7FFF_FFFF_FFFF_FFFF {
        proof {
            assert(clamped(device.contents(), file_offset + 8, 8).len() == 0);
        }
        return None;
    }
    let mut pos: u64 = 8;
    let mut n: u32 = 0;
    while n < 10_000
        invariant
            n <= 10_000,
            addressable(device.contents()),
            file_offset <= 0x7FFF_FFFF_FFFF_FFFF,
            pos <= 8 + n * 0x1000_000C,
            png_walk(device.contents(), file_offset as int, pos as int, n as int)
                == png_walk(device.contents(), file_offset as int, 8, 0),
        decreases 10_000 - n,
    {
        let h = read_dev(device, file_offset + pos, 8)?;
        if h.len() < 8 {
            return None;
        }
        let len = rd_be32(&h, 0) as u64;
        if len > 0x1000_0000 {
            return None;
        }
        if h[4] == 0x49 && h[5] == 0x45 && h[6] == 0x4E && h[7] == 0x44 {
            return Some(pos + 12 + len);
        }
        if !(letter(h[4]) && letter(h[5]) && letter(h[6]) && letter(h[7])) {
            return None;
        }
        assert(pos + 12 + len <= 8 + (n + 1) * 0x1000_000C) by (nonlinear_arith)
            requires pos <= 8 + n * 0x1000_000C, len <= 0x1000_0000;
        pos = pos + 12 + len;
        n += 1;
    }
    None
}

// ── GIF ──────────────────────────────────────────────────────────────────────

/// The byte at `pos`, if the device holds one.
pub open spec fn byte_at(dev: Seq<u8>, pos: int) -> Option<u8> {
    if 0 <= pos < dev.len() { Some(dev[pos]) } else { None }
}

/// Bytes of the colour table announced by a packed field: present when
/// bit 7 is set, `3 × 2^(size + 1)` bytes for the size in bits 0–2.
pub open spec fn color_table_len(packed: u8) -> int {
    if packed >= 128 { 3 * pow2((packed % 8) as int + 1) } else { 0 }
}

/// A run of GIF sub-blocks from `pos` (`total` data bytes so far): length
/// bytes each followed by that many bytes, ended by a zero length; gives
/// the position after the terminator.  Reaching `max_end` or passing
/// 50 MiB of data gives none.
pub open spec fn gif_sub_blocks(dev: Seq<u8>, pos: int, max_end: int, total: int) -> Option<int>
    decreases (if pos < max_end { max_end - pos } else { 0 }),
{
    if pos >= max_end {
        None
    } else {
        match byte_at(dev, pos) {
            None => None,
            Some(len) => if len == 0 {
                Some(pos + 1)
            } else if total + len > 50 * 1024 * 1024 {
                None
            } else {
                gif_sub_blocks(dev, pos + 1 + len, max_end, total + len)
            },
        }
    }
}

/// Walk of GIF blocks from `pos` (`n` blocks seen): the trailer `3B` ends
/// the file; an extension (`21`) skips its label and sub-blocks; an image
/// (`2C`) skips its descriptor, local colour table, code size and
/// sub-blocks.  Anything else, reaching `max_end` or passing 10 000 blocks
/// gives none.
pub open spec fn gif_walk(dev: Seq<u8>, fo: int, pos: int, max_end: int, n: int) -> Option<u64>
    decreases 10_000 - n,
{
    if n < 0 || n >= 10_000 || pos >= max_end {
        None
    } else {
        match byte_at(dev, pos) {
            None => None,
            Some(b) => if b == 0x3B {
                Some((pos - fo + 1) as u64)
            } else if b == 0x21 {
                match gif_sub_blocks(dev, pos + 2, max_end, 0) {
                    None => None,
                    Some(p) => gif_walk(dev, fo, p, max_end, n + 1),
                }
            } else if b == 0x2C {
                let d = clamped(dev, pos + 1, 9);
                if d.len() < 9 {
                    None
                } else {
                    match gif_sub_blocks(dev, pos + 11 + color_table_len(d[8]), max_end, 0) {
                        None => None,
                        Some(p) => gif_walk(dev, fo, p, max_end, n + 1),
                    }
                }
            } else {
                None
            },
        }
    }
}

/// GIF: after the `GIF8` header, the screen descriptor and the global
/// colour table, walk the blocks within `max_size` bytes (and the device)
/// to the trailer.
pub open spec fn gif_spec(dev: Seq<u8>, fo: int, max_size: int) -> Option<u64> {
    let cap = sat_add(fo, max_size);
    let max_end = if cap < dev.len() { cap } else { dev.len() as int };
    let h = clamped(dev, fo, 13);
    if h.len() < 13 || h[0] != 0x47 || h[1] != 0x49 || h[2] != 0x46 || h[3] != 0x38 {
        None
    } else {
        gif_walk(dev, fo, fo + 13 + color_table_len(h[10]), max_end, 0)
    }
}

proof fn lemma_sub_blocks_end(dev: Seq<u8>, pos: int, max_end: int, total: int)
    ensures gif_sub_blocks(dev, pos, max_end, total) matches Some(q) ==> pos < q <= max_end,
    decreases (if pos < max_end { max_end - pos } else { 0 }),
{
    if pos < max_end {
        if let Some(len) = byte_at(dev, pos) {
            if len != 0 && total + len <= 50 * 1024 * 1024 {
                lemma_sub_blocks_end(dev, pos + 1 + len, max_end, total + len);
            }
        }
    }
}

fn color_table_bytes(packed: u8) -> (r: u64)
    ensures r == color_table_len(packed), r <= 768,
{
    if packed < 128 {
        return 0;
    }
    proof { reveal_with_fuel(pow2, 9); }
    let k = packed % 8;
    let p: u64 = if k == 0 { 2 } else if k == 1 { 4 } else if k == 2 { 8 } else if k == 3 { 16 }
        else if k == 4 { 32 } else if k == 5 { 64 } else if k == 6 { 128 } else { 256 };
    3 * p
}

fn byte_of<D: BlockDevice>(device: &D, pos: u64) -> (r: Option<u8>)
    ensures (device.healthy() || r is Some) ==> r == byte_at(device.contents(), pos as int),
{
    let v = read_dev(device, pos, 1)?;
    if v.len() == 0 {
        return None;
    }
    Some(v[0])
}

fn skip_sub_blocks<D: BlockDevice>(device: &D, start: u64, max_end: u64) -> (r: Option<u64>)
    requires max_end <= device.contents().len(), addressable(device.contents()),
    ensures
        (device.healthy() || r is Some) ==> r == (match gif_sub_blocks(device.contents(), start as int, max_end as int, 0) {
            Some(p) => Some(p as u64),
            None => None,
        }),
        r matches Some(p) ==> start < p <= max_end,
        gif_sub_blocks(device.contents(), start as int, max_end as int, 0) matches Some(q) ==> start < q <= max_end,
{
    proof { lemma_sub_blocks_end(device.contents(), start as int, max_end as int, 0); }
    let mut pos = start;
    let mut total: u64 = 0;
    loop
        invariant
            max_end <= device.contents().len(),
            addressable(device.contents()),
            start <= pos,
            total <= 50 * 1024 * 1024,
            gif_sub_blocks(device.contents(), start as int, max_end as int, 0) matches Some(q) ==> start < q <= max_end,
            gif_sub_blocks(device.contents(), pos as int, max_end as int, total as int)
                == gif_sub_blocks(device.contents(), start as int, max_end as int, 0),
        decreases (if pos < max_end { max_end - pos } else { 0 }),
    {
        if pos >= max_end {
            return None;
        }
        let len = byte_of(device, pos)?;
        if len == 0 {
            return Some(pos + 1);
        }
        if total + len as u64 > 50 * 1024 * 1024 {
            return None;
        }
        total = total + len as u64;
        pos = pos + 1 + len as u64;
    }
}

/// Reads a GIF size hint by walking its blocks to the trailer.
pub fn gif_hint<D: BlockDevice>(device: &D, file_offset: u64, max_size: u64) -> (r: Option<u64>)
    requires addressable(device.contents()),
    ensures (device.healthy() || r is Some) ==> r == gif_spec(device.contents(), file_offset as int, max_size as int),
{
    let device_size = device.size();
    let cap = file_offset.saturating_add(max_size);
    let max_end = if cap < device_size { cap } else { device_size };
    let h = read_dev(device, file_offset, 13)?;
    if h.len() < 13 || h[0] != 0x47 || h[1] != 0x49 || h[2] != 0x46 || h[3] != 0x38 {
        return None;
    }
    if file_offset > 0x7FFF_FFFF_FFFF_FFFF {
        return None;
    }
    let gct = color_table_bytes(h[10]);
    let mut pos: u64 = file_offset + 13 + gct;
    let mut n: u32 = 0;
    while n < 10_000
        invariant
            n <= 10_000,
            max_end <= device_size == device.contents().len(),
            addressable(device.contents()),
            pos <= 0x7FFF_FFFF_FFFF_FFFF + 800,
            file_offset <= pos,
            gif_walk(device.contents(), file_offset as int, pos as int, max_end as int, n as int)
                == gif_spec(device.contents(), file_offset as int, max_size as int),
        decreases 10_000 - n,
    {
        if pos >= max_end {
            return None;
        }
        let b = byte_of(device, pos)?;
        if b == 0x3B {
            return Some(pos - file_offset + 1);
        } else if b == 0x21 {
            pos = skip_sub_blocks(device, pos + 2, max_end)?;
        } else if b == 0x2C {
            let d = read_dev(device, pos + 1, 9)?;
            if d.len() < 9 {
                return None;
            }
            let lct = color_table_bytes(d[8]);
            pos = skip_sub_blocks(device, pos + 11 + lct, max_end)?;
        } else {
            return None;
        }
        n += 1;
    }
    None
}

// ── ASF ──────────────────────────────────────────────────────────────────────

/// GUID of the ASF header object.
pub open spec fn asf_header_guid() -> Seq<u8> {
    seq![0x30u8, 0x26, 0xB2, 0x75, 0x8E, 0x66, 0xCF, 0x11, 0xA6, 0xD9, 0x00, 0xAA, 0x00, 0x62, 0xCE, 0x6C]
}

/// GUID of the ASF file properties object.
pub open spec fn asf_file_properties_guid() -> Seq<u8> {
    seq![0xA1u8, 0xDC, 0xAB, 0x8C, 0x47, 0xA9, 0xCF, 0x11, 0x8E, 0xE4, 0x00, 0xC0, 0x0C, 0x20, 0x53, 0x65]
}

/// Walk of the ASF header's sub-objects from `pos` (the `k`-th of at most
/// `limit`), each a GUID and a 64-bit LE size of at least 24, while they
/// lie within `header_end`: the file properties object gives the file size
/// stored 40 bytes in (none when it is 0).
pub open spec fn asf_walk(dev: Seq<u8>, pos: int, header_end: int, k: int, limit: int) -> Option<u64>
    decreases limit - k,
{
    if k >= limit || pos + 24 > header_end {
        None
    } else {
        let o = clamped(dev, pos, 24);
        if o.len() < 24 || u64_at(o, 16, true) < 24 {
            None
        } else if occurs_at(o, 0, asf_file_properties_guid()) {
            let f = clamped(dev, pos + 40, 8);
            if f.len() < 8 || u64_at(f, 0, true) == 0 { None } else { Some(u64_at(f, 0, true) as u64) }
        } else {
            asf_walk(dev, pos + u64_at(o, 16, true), header_end, k + 1, limit)
        }
    }
}

/// ASF (WMV / WMA): the header object (its GUID, a size of at least 54
/// and a sub-object count) holds a file properties object with the total
/// file size; at most 256 sub-objects are looked at.
pub open spec fn asf_spec(dev: Seq<u8>, fo: int) -> Option<u64> {
    let h = clamped(dev, fo, 30);
    if h.len() < 30 || !occurs_at(h, 0, asf_header_guid()) || u64_at(h, 16, true) < 54 {
        None
    } else {
        let n = le32(h, 24);
        asf_walk(dev, fo + 30, fo + u64_at(h, 16, true), 0, if n < 256 { n } else { 256 })
    }
}

/// Reads an ASF size hint from the file properties object.
pub fn asf_hint<D: BlockDevice>(device: &D, file_offset: u64) -> (r: Option<u64>)
    requires addressable(device.contents()),
    ensures (device.healthy() || r is Some) ==> r == asf_spec(device.contents(), file_offset as int),
{
    let h = read_dev(device, file_offset, 30)?;
    if h.len() < 30 || !matches_at(&h, 0, &[0x30, 0x26, 0xB2, 0x75, 0x8E, 0x66, 0xCF, 0x11, 0xA6, 0xD9, 0x00, 0xAA, 0x00, 0x62, 0xCE, 0x6C]) {
        return None;
    }
    let header_size = rd_u64(&h, 16, true);
    if header_size < 54 {
        return None;
    }
    let num = rd_le32(&h, 24);
    let limit: u32 = if num < 256 { num } else { 256 };
    let device_size = device.size();
    if file_offset >= device_size {
        return None;
    }
    let header_end = file_offset.saturating_add(header_size);
    let mut pos: u64 = file_offset + 30;
    let mut k: u32 = 0;
    while k < limit
        invariant
            k <= limit <= 256,
            device_size == device.contents().len(),
            addressable(device.contents()),
            pos <= device_size + 30,
            header_end as int == (if file_offset + header_size > u64::MAX { u64::MAX as int } else { file_offset + header_size }),
            asf_walk(device.contents(), pos as int, file_offset + header_size, k as int, limit as int)
                == asf_spec(device.contents(), file_offset as int),
        decreases limit - k,
    {
        if pos + 24 > header_end {
            return None;
        }
        let o = read_dev(device, pos, 24)?;
        if o.len() < 24 {
            return None;
        }
        let size = rd_u64(&o, 16, true);
        if size < 24 {
            return None;
        }
        if matches_at(&o, 0, &[0xA1, 0xDC, 0xAB, 0x8C, 0x47, 0xA9, 0xCF, 0x11, 0x8E, 0xE4, 0x00, 0xC0, 0x0C, 0x20, 0x53, 0x65]) {
            let f = read_dev(device, pos + 40, 8)?;
            if f.len() < 8 {
                return None;
            }
            let file_size = rd_u64(&f, 0, true);
            if file_size == 0 {
                return None;
            }
            return Some(file_size);
        }
        if size >= device_size - pos {
            // The next object would start past the device: nothing more can be read.
            proof {
                let dev = device.contents();
                let next = pos + size;
                if k + 1 < limit && next + 24 <= file_offset + header_size {
                    assert(clamped(dev, next, 24).len() == 0);
                }
                reveal_with_fuel(asf_walk, 2);
            }
            return None;
        }
        pos = pos + size;
        k += 1;
    }
    None
}

// ── ADTS ─────────────────────────────────────────────────────────────────────

/// The frame length of an ADTS header (13 bits spanning bytes 3–5).
pub open spec fn adts_frame_len(h: Seq<u8>) -> int {
    (h[3] % 4) as int * 2048 + h[4] as int * 8 + (h[5] / 32) as int
}

/// The sampling-frequency index of an ADTS header (bits 2–5 of byte 2).
pub open spec fn adts_sfi(h: Seq<u8>) -> u8 {
    ((h[2] / 4) % 16) as u8
}

/// Does `h` start a frame of the stream: sync word `FFF`, layer 0, a valid
/// sampling-frequency index equal to the stream's (`sfi`, once known),
/// and a frame length of 7 to 8191 bytes?
pub open spec fn adts_frame_ok(h: Seq<u8>, sfi: Option<u8>) -> bool {
    &&& h.len() >= 6
    &&& h[0] == 0xFF
    &&& h[1] >= 0xF0
    &&& (h[1] / 2) % 4 == 0
    &&& adts_sfi(h) <= 12
    &&& (sfi matches Some(e) ==> e == adts_sfi(h))
    &&& 7 <= adts_frame_len(h) <= 8191
}

/// Walk of ADTS frames from `pos` (`n` frames seen, stream index `sfi`):
/// it stops at the device end, at the first header that is no frame of the
/// stream, or after 200 000 frames; fewer than 8 frames give none, else the
/// bytes walked.
pub open spec fn adts_walk(dev: Seq<u8>, fo: int, pos: int, n: int, sfi: Option<u8>) -> Option<u64>
    decreases 200_000 - n,
{
    if n >= 200_000 || pos >= dev.len() || !adts_frame_ok(clamped(dev, pos, 7), sfi) {
        if n < 8 { None } else { Some((pos - fo) as u64) }
    } else {
        let h = clamped(dev, pos, 7);
        adts_walk(dev, fo, pos + adts_frame_len(h), n + 1, Some(adts_sfi(h)))
    }
}

/// Reads an ADTS (AAC) size hint by walking its frames.
pub fn adts_hint<D: BlockDevice>(device: &D, file_offset: u64) -> (r: Option<u64>)
    requires addressable(device.contents()),
    ensures (device.healthy() || r is Some) ==> r == adts_walk(device.contents(), file_offset as int, file_offset as int, 0, None),
{
    let device_size = device.size();
    let mut pos = file_offset;
    let mut n: u32 = 0;
    let mut sfi: Option<u8> = None;
    while n < 200_000
        invariant
            n <= 200_000,
            device_size == device.contents().len(),
            addressable(device.contents()),
            file_offset <= pos,
            pos <= file_offset || pos <= device_size + 8191,
            adts_walk(device.contents(), file_offset as int, pos as int, n as int, sfi)
                == adts_walk(device.contents(), file_offset as int, file_offset as int, 0, None),
        ensures
            file_offset <= pos,
            adts_walk(device.contents(), file_offset as int, file_offset as int, 0, None)
                == (if n < 8 { None } else { Some((pos - file_offset) as u64) }),
        decreases 200_000 - n,
    {
        if pos >= device_size {
            break;
        }
        let h = read_dev(device, pos, 7)?;
        if h.len() < 6 || h[0] != 0xFF || h[1] < 0xF0 || (h[1] / 2) % 4 != 0 {
            break;
        }
        let s = (h[2] / 4) % 16;
        if s > 12 {
            break;
        }
        match sfi {
            Some(e) => {
                if e != s {
                    break;
                }
            },
            None => {},
        }
        let frame_len = (h[3] % 4) as u64 * 2048 + h[4] as u64 * 8 + (h[5] / 32) as u64;
        if frame_len < 7 || frame_len > 8191 {
            break;
        }
        pos = pos + frame_len;
        n += 1;
        sfi = Some(s);
    }
    if n < 8 {
        return None;
    }
    Some(pos - file_offset)
}

// ── JPEG ─────────────────────────────────────────────────────────────────────

/// Scan of entropy-coded data from `pos` for the end-of-image marker: the
/// first `FF D9` (with `saw_ff` telling whether the byte before `pos` was
/// `FF`); stuffed bytes and restart markers are passed over.  Reaching
/// `max_end` gives none.
pub open spec fn eoi_scan(dev: Seq<u8>, fo: int, pos: int, max_end: int, saw_ff: bool) -> Option<u64>
    decreases (if pos < max_end { max_end - pos } else { 0 }),
{
    if pos >= max_end {
        None
    } else {
        match byte_at(dev, pos) {
            None => None,
            Some(b) => if saw_ff && b == 0xD9 {
                Some((pos + 1 - fo) as u64)
            } else {
                eoi_scan(dev, fo, pos + 1, max_end, b == 0xFF)
            },
        }
    }
}

/// Walk of JPEG segments from `pos` (`n` seen): each starts with `FF` and
/// a marker; SOI and restart markers stand alone, EOI ends the file, SOS
/// hands over to the entropy scan after its header, and other segments
/// skip their 16-bit length (at least 2).  Passing `max_end` or 512
/// segments gives none.
pub open spec fn jpeg_segments(dev: Seq<u8>, fo: int, pos: int, max_end: int, n: int) -> Option<u64>
    decreases 512 - n,
{
    if n < 0 || n >= 512 || pos + 2 > max_end {
        None
    } else {
        let m = clamped(dev, pos, 2);
        if m.len() < 2 || m[0] != 0xFF {
            None
        } else if m[1] == 0xD8 || (0xD0 <= m[1] <= 0xD7) {
            jpeg_segments(dev, fo, pos + 2, max_end, n + 1)
        } else if m[1] == 0xD9 {
            Some((pos - fo + 2) as u64)
        } else {
            let l = clamped(dev, pos + 2, 2);
            if l.len() < 2 {
                None
            } else if m[1] == 0xDA {
                eoi_scan(dev, fo, pos + 2 + be16(l, 0), max_end, false)
            } else if be16(l, 0) < 2 {
                None
            } else {
                jpeg_segments(dev, fo, pos + 2 + be16(l, 0), max_end, n + 1)
            }
        }
    }
}

/// JPEG: walk the segments after SOI, within `max_size` bytes and the
/// device, to the real end-of-image marker (so that the EOI of an embedded
/// thumbnail does not end the file early).
pub open spec fn jpeg_spec(dev: Seq<u8>, fo: int, max_size: int) -> Option<u64> {
    let cap = sat_add(fo, max_size);
    let max_end = if cap < dev.len() { cap } else { dev.len() as int };
    jpeg_segments(dev, fo, fo + 2, max_end, 0)
}

/// Scans entropy-coded data in pieces for the end-of-image marker.
pub fn scan_for_eoi<D: BlockDevice>(device: &D, start: u64, file_offset: u64, max_end: u64) -> (r: Option<u64>)
    requires addressable(device.contents()), file_offset <= start,
    ensures (device.healthy() || r is Some) ==> r == eoi_scan(device.contents(), file_offset as int, start as int, max_end as int, false),
{
    let mut pos = start;
    let mut saw_ff = false;
    while pos < max_end
        invariant
            addressable(device.contents()),
            file_offset <= start <= pos,
            eoi_scan(device.contents(), file_offset as int, pos as int, max_end as int, saw_ff)
                == eoi_scan(device.contents(), file_offset as int, start as int, max_end as int, false),
        decreases max_end - pos,
    {
        let want: u64 = max_end - pos;
        let read_len: usize = if want < 8192 { want as usize } else { 8192 };
        let chunk = read_dev(device, pos, read_len)?;
        if chunk.len() == 0 {
            return None;
        }
        let mut i: usize = 0;
        while i < chunk.len()
            invariant
                i <= chunk.len() <= read_len,
                pos as int + read_len <= max_end,
                addressable(device.contents()),
                file_offset <= start <= pos,
                chunk@ == clamped(device.contents(), pos as int, read_len as int),
                eoi_scan(device.contents(), file_offset as int, pos + i, max_end as int, saw_ff)
                    == eoi_scan(device.contents(), file_offset as int, start as int, max_end as int, false),
            decreases chunk.len() - i,
        {
            let b = chunk[i];
            proof {
                assert(byte_at(device.contents(), pos + i) == Some(b));
            }
            if saw_ff && b == 0xD9 {
                return Some(pos + i as u64 + 1 - file_offset);
            }
            saw_ff = b == 0xFF;
            i += 1;
        }
        pos = pos + chunk.len() as u64;
    }
    None
}

/// Reads a JPEG size hint by walking its segments to the real EOI.
pub fn jpeg_hint<D: BlockDevice>(device: &D, file_offset: u64, max_size: u64) -> (r: Option<u64>)
    requires addressable(device.contents()),
    ensures (device.healthy() || r is Some) ==> r == jpeg_spec(device.contents(), file_offset as int, max_size as int),
{
    let device_size = device.size();
    let cap = file_offset.saturating_add(max_size);
    let max_end = if cap < device_size { cap } else { device_size };
    if file_offset > 0x7FFF_FFFF_FFFF_FFFF {
        return None;
    }
    let mut pos: u64 = file_offset + 2;
    let mut n: u32 = 0;
    while n < 512
        invariant
            n <= 512,
            max_end <= device_size == device.contents().len(),
            addressable(device.contents()),
            file_offset <= pos <= 0x7FFF_FFFF_FFFF_FFFF + 0x1_0002,
            jpeg_segments(device.contents(), file_offset as int, pos as int, max_end as int, n as int)
                == jpeg_spec(device.contents(), file_offset as int, max_size as int),
        decreases 512 - n,
    {
        if pos + 2 > max_end {
            return None;
        }
        let m = read_dev(device, pos, 2)?;
        if m.len() < 2 || m[0] != 0xFF {
            return None;
        }
        let marker = m[1];
        if marker == 0xD8 || (0xD0 <= marker && marker <= 0xD7) {
            pos = pos + 2;
        } else if marker == 0xD9 {
            return Some(pos - file_offset + 2);
        } else {
            let l = read_dev(device, pos + 2, 2)?;
            if l.len() < 2 {
                return None;
            }
            let seg_len = rd_be16(&l, 0) as u64;
            if marker == 0xDA {
                return scan_for_eoi(device, pos + 2 + seg_len, file_offset, max_end);
            }
            if seg_len < 2 {
                return None;
            }
            pos = pos + 2 + seg_len;
        }
        n += 1;
    }
    None
}

// ── MPEG-2 program stream ───────────────────────────────────────────────────

/// The pack start code `00 00 01 BA`.
pub open spec fn pack_code() -> Seq<u8> {
    seq![0x00u8, 0x00, 0x01, 0xBA]
}

/// The program end code `00 00 01 B9`.
pub open spec fn program_end_code() -> Seq<u8> {
    seq![0x00u8, 0x00, 0x01, 0xB9]
}

/// The four-byte windows of a piece `b` read at `base`, from index `i`:
/// `Ok` with the absolute position of the first program end code, or `Err`
/// with the position of the last pack start code seen (`last` before).
pub open spec fn ps_windows(b: Seq<u8>, i: int, base: int, last: Option<int>) -> Result<int, Option<int>>
    decreases b.len() - i,
{
    if i < 0 || i + 4 > b.len() {
        Err(last)
    } else if occurs_at(b, i, program_end_code()) {
        Ok(base + i)
    } else {
        ps_windows(b, i + 1, base, if occurs_at(b, i, pack_code()) { Some(base + i) } else { last })
    }
}

/// The size a program stream scan settles on without an end code: the
/// last pack start plus a typical 2 048-byte pack, at most `max_size`;
/// none without any pack.
pub open spec fn ps_finish(fo: int, last: Option<int>, max_size: int) -> Option<u64> {
    match last {
        None => None,
        Some(lp) => Some((if lp + 2048 - fo < max_size { lp + 2048 - fo } else { max_size }) as u64),
    }
}

/// Scan of a program stream in 512 KiB pieces from `pos` up to `limit`,
/// overlapping by 3 bytes: the program end code ends the file after it;
/// a piece shorter than 4 bytes, reaching `limit`, or 2 MiB without a
/// pack start since the last one (or the file start) ends the scan with
/// [`ps_finish`].
pub open spec fn ps_scan(dev: Seq<u8>, fo: int, pos: int, limit: int, last: Option<int>, max_size: int) -> Option<u64>
    decreases (if pos < limit { limit - pos } else { 0 }),
{
    if pos >= limit {
        ps_finish(fo, last, max_size)
    } else {
        let want = if limit - pos < 0x8_0000 { limit - pos } else { 0x8_0000 };
        let b = clamped(dev, pos, want);
        if b.len() < 4 {
            ps_finish(fo, last, max_size)
        } else {
            match ps_windows(b, 0, pos, last) {
                Ok(e) => Some((e + 4 - fo) as u64),
                Err(l) => {
                    let seen = match l { Some(x) => x, None => fo };
                    if pos + b.len() - seen > 0x20_0000 {
                        ps_finish(fo, l, max_size)
                    } else {
                        ps_scan(dev, fo, pos + b.len() - 3, limit, l, max_size)
                    }
                },
            }
        }
    }
}

/// MPEG-2 program stream: scan at most `max_size` bytes (and at most
/// 4 GiB) from the file start.
pub open spec fn mpeg_ps_spec(dev: Seq<u8>, fo: int, max_size: int) -> Option<u64> {
    ps_scan(dev, fo, fo, fo + (if max_size < 0x1_0000_0000 { max_size } else { 0x1_0000_0000 }), None, max_size)
}

/// Reads an MPEG-2 program stream size hint by scanning for pack start
/// codes and the program end code.  A piece that cannot be read ends the
/// scan as the device's end would: whatever the device does, the result is
/// the hint of the device cut short somewhere.
pub fn mpeg_ps_hint<D: BlockDevice>(device: &D, file_offset: u64, max_size: u64) -> (r: Option<u64>)
    requires addressable(device.contents()),
    ensures
        device.healthy() ==> r == mpeg_ps_spec(device.contents(), file_offset as int, max_size as int),
        exists|k: int| 0 <= k <= device.contents().len()
            && r == #[trigger] mpeg_ps_spec(device.contents().take(k), file_offset as int, max_size as int),
{
    let ghost dev = device.contents();
    proof { assert(dev.take(dev.len() as int) =~= dev); }
    if file_offset > 0x7FFF_FFFF_FFFF_FFFF {
        proof {
            let lim = file_offset + (if max_size < 0x1_0000_0000 { max_size as int } else { 0x1_0000_0000 });
            if file_offset < lim {
                assert(clamped(dev, file_offset as int, (if lim - file_offset < 0x8_0000 { lim - file_offset } else { 0x8_0000 })).len() == 0);
            }
            assert(mpeg_ps_spec(dev.take(dev.len() as int), file_offset as int, max_size as int) == None::<u64>);
        }
        return None;
    }
    let cap: u64 = if max_size < 0x1_0000_0000 { max_size } else { 0x1_0000_0000 };
    let limit = file_offset + cap;
    let mut pos = file_offset;
    let mut last: Option<u64> = None;
    loop
        invariant_except_break
            forall|k: int| (if pos + 3 < dev.len() { pos + 3 } else { dev.len() as int }) <= k <= dev.len() ==>
                ps_scan(#[trigger] dev.take(k), file_offset as int, pos as int, limit as int,
                    match last { Some(x) => Some(x as int), None => None }, max_size as int)
                == mpeg_ps_spec(dev.take(k), file_offset as int, max_size as int),
        invariant
            dev == device.contents(),
            dev.take(dev.len() as int) == dev,
            file_offset <= pos,
            file_offset <= 0x7FFF_FFFF_FFFF_FFFF,
            limit == file_offset + cap,
            cap <= 0x1_0000_0000,
            addressable(device.contents()),
            last matches Some(lp) ==> file_offset <= lp < pos,
            pos <= limit || pos == file_offset,
        ensures
            last matches Some(lp) ==> file_offset <= lp,
            device.healthy() ==> mpeg_ps_spec(dev, file_offset as int, max_size as int)
                == ps_finish(file_offset as int, match last { Some(x) => Some(x as int), None => None }, max_size as int),
            exists|k: int| 0 <= k <= dev.len() && #[trigger] mpeg_ps_spec(dev.take(k), file_offset as int, max_size as int)
                == ps_finish(file_offset as int, match last { Some(x) => Some(x as int), None => None }, max_size as int),
        decreases (if pos < limit { limit - pos } else { 0 }),
    {
        let ghost lastg: Option<int> = match last { Some(x) => Some(x as int), None => None };
        let ghost n = dev.len() as int;
        if pos >= limit {
            proof {
                assert(ps_scan(dev.take(n), file_offset as int, pos as int, limit as int, lastg, max_size as int)
                    == mpeg_ps_spec(dev.take(n), file_offset as int, max_size as int));
            }
            break;
        }
        let want_total: u64 = limit - pos;
        let want: usize = if want_total < 0x8_0000 { want_total as usize } else { 0x8_0000 };
        let b = match read_dev(device, pos, want) {
            Some(b) => b,
            None => {
                proof {
                    let k = if pos + 3 < n { pos + 3 } else { n };
                    assert(ps_scan(dev.take(k), file_offset as int, pos as int, limit as int, lastg, max_size as int)
                        == mpeg_ps_spec(dev.take(k), file_offset as int, max_size as int));
                    assert(clamped(dev.take(k), pos as int, want as int).len() < 4);
                }
                break;
            },
        };
        if b.len() < 4 {
            proof {
                assert(ps_scan(dev.take(n), file_offset as int, pos as int, limit as int, lastg, max_size as int)
                    == mpeg_ps_spec(dev.take(n), file_offset as int, max_size as int));
            }
            break;
        }
        let ghost last0 = last;
        let mut i: usize = 0;
        while i + 4 <= b.len()
            invariant
                i <= b.len(),
                4 <= b.len() <= 0x8_0000,
                file_offset <= pos <= 0x8000_0001_0000_0000,
                last matches Some(lp) ==> file_offset <= lp && lp + 4 <= pos + b.len(),
                pos < limit,
                dev == device.contents(),
                dev.take(dev.len() as int) == dev,
                want == (if limit - pos < 0x8_0000 { limit - pos } else { 0x8_0000 }),
                b@ == clamped(dev, pos as int, want as int),
                ps_scan(dev, file_offset as int, pos as int, limit as int,
                    match last0 { Some(x) => Some(x as int), None => None }, max_size as int)
                    == mpeg_ps_spec(dev, file_offset as int, max_size as int),
                ps_windows(b@, i as int, pos as int, match last { Some(x) => Some(x as int), None => None })
                    == ps_windows(b@, 0, pos as int, match last0 { Some(x) => Some(x as int), None => None }),
            decreases b.len() - i,
        {
            if matches_at(&b, i, &[0x00, 0x00, 0x01, 0xB9]) {
                proof {
                    assert(ps_windows(b@, i as int, pos as int, match last { Some(x) => Some(x as int), None => None })
                        == Ok::<int, Option<int>>(pos + i));
                }
                return Some(pos + i as u64 + 4 - file_offset);
            }
            if matches_at(&b, i, &[0x00, 0x00, 0x01, 0xBA]) {
                last = Some(pos + i as u64);
            }
            i += 1;
        }
        let chunk_end = pos + b.len() as u64;
        let seen = match last {
            Some(x) => x,
            None => file_offset,
        };
        proof {
            assert forall|k: int| pos + b.len() <= k <= n implies #[trigger] clamped(dev.take(k), pos as int, want as int) == b@ by {
                assert(clamped(dev.take(k), pos as int, want as int) =~= b@);
            }
        }
        if chunk_end - seen > 0x20_0000 {
            break;
        }
        pos = pos + (b.len() as u64 - 3);
    }
    match last {
        Some(lp) => {
            let size = lp + 2048 - file_offset;
            Some(if size < max_size { size } else { max_size })
        },
        None => None,
    }
}

} // verus!
