//! Size hints of structured formats: PE and ELF header tables, EBML
//! segments, TrueType table directories, linearized PDFs, RAR block chains
//! and MPEG transport streams.
use vstd::prelude::*;
use crate::bytes::{
    be16, be32, is_digit, le16, le32, occurs_at, occurs_within, sat_add, u16_at, u32_at, u64_at, digit,
    find_within, matches_at, rd_be16, rd_be32, rd_le16, rd_le32, rd_u16, rd_u32, rd_u64,
};
use crate::device::{clamped, BlockDevice};
use crate::post_validate::containers::{read_vint, vint_at, vint_unknown, lemma_vint_width_range, unknown_size};
use crate::post_validate::file_checks::{decimal_at, read_decimal};
use super::{addressable, read_dev};
use super::tiff::imax;

verus! {

fn max_u64(a: u64, b: u64) -> (r: u64)
    ensures r == imax(a as int, b as int),
{
    if a >= b { a } else { b }
}

fn add_sat(a: u64, b: u64) -> (r: u64)
    ensures r == sat_add(a as int, b as int),
{
    a.saturating_add(b)
}

// ── PE ───────────────────────────────────────────────────────────────────────

/// Largest `PointerToRawData + SizeOfRawData` over sections `i..n` of the
/// section table `t`, starting from `m`.
pub open spec fn pe_sections_extent(t: Seq<u8>, i: int, n: int, m: int) -> int
    decreases n - i,
{
    if i < 0 || i >= n { m } else { pe_sections_extent(t, i + 1, n, imax(m, le32(t, 40 * i + 20) + le32(t, 40 * i + 16))) }
}

/// PE: `e_lfanew` (at 60) in `[64, 16384]` naming a `PE\0\0` header whose
/// COFF part gives 1–256 sections; the file spans the farthest section data
/// or the end of the section table.
pub open spec fn pe_spec(dev: Seq<u8>, fo: int) -> Option<u64> {
    let a = clamped(dev, fo + 60, 4);
    if a.len() < 4 || !(64 <= le32(a, 0) <= 16384) {
        None
    } else {
        let e = le32(a, 0);
        let sig = clamped(dev, fo + e, 4);
        let coff = clamped(dev, fo + e + 4, 20);
        if sig.len() < 4 || sig != seq![0x50u8, 0x45, 0x00, 0x00] || coff.len() < 20 {
            None
        } else {
            let ns = le16(coff, 2);
            let table = e + 24 + le16(coff, 16);
            let secs = clamped(dev, fo + table, ns * 40);
            if ns == 0 || ns > 256 || secs.len() < ns * 40 {
                None
            } else {
                let m = imax(pe_sections_extent(secs, 0, ns, 0), table + ns * 40);
                if m > 0 { Some(m as u64) } else { None }
            }
        }
    }
}

/// Reads a PE size hint from the section table.
pub fn pe_hint<D: BlockDevice>(device: &D, file_offset: u64) -> (r: Option<u64>)
    requires addressable(device.contents()), file_offset <= 0x7FFF_FFFF_FFFF_FFFF,
    ensures (device.healthy() || r is Some) ==> r == pe_spec(device.contents(), file_offset as int),
{
    let a = read_dev(device, file_offset + 60, 4)?;
    if a.len() < 4 {
        return None;
    }
    let e = rd_le32(&a, 0) as u64;
    if !(64 <= e && e <= 16384) {
        return None;
    }
    let sig = read_dev(device, file_offset + e, 4)?;
    if sig.len() < 4 || !matches_at(&sig, 0, &[0x50, 0x45, 0x00, 0x00]) {
        proof {
            if sig@.len() >= 4 && sig@ == seq![0x50u8, 0x45, 0x00, 0x00] {
                assert(sig@.subrange(0, 4) =~= sig@);
            }
        }
        return None;
    }
    assert(sig@.len() == 4);
    assert(sig@ =~= sig@.subrange(0, 4));
    let coff = read_dev(device, file_offset + e + 4, 20)?;
    if coff.len() < 20 {
        return None;
    }
    let ns = rd_le16(&coff, 2) as u64;
    let table = e + 24 + rd_le16(&coff, 16) as u64;
    if ns == 0 || ns > 256 {
        return None;
    }
    let secs = read_dev(device, file_offset + table, (ns * 40) as usize)?;
    if (secs.len() as u64) < ns * 40 {
        return None;
    }
    let mut m: u64 = 0;
    let mut i: u64 = 0;
    while i < ns
        invariant
            i <= ns <= 256,
            secs@.len() >= ns * 40,
            m < 0x2_0000_0000,
            pe_sections_extent(secs@, i as int, ns as int, m as int) == pe_sections_extent(secs@, 0, ns as int, 0),
        decreases ns - i,
    {
        let b = (40 * i) as usize;
        let extent = rd_le32(&secs, b + 20) as u64 + rd_le32(&secs, b + 16) as u64;
        m = max_u64(m, extent);
        i += 1;
    }
    let total = max_u64(m, table + ns * 40);
    if total > 0 { Some(total) } else { None }
}

// ── ELF ──────────────────────────────────────────────────────────────────────

/// Largest `p_offset + p_filesz` (saturating) over `k` program headers of
/// `step` bytes from `base` in `ph`, stopping at the first not wholly
/// present.
pub open spec fn elf_ph_extent(ph: Seq<u8>, wide: bool, le: bool, base: int, step: int, k: int, m: int) -> int
    decreases k,
{
    if k <= 0 || base + (if wide { 48int } else { 20 }) > ph.len() {
        m
    } else {
        let po = if wide { u64_at(ph, base + 8, le) } else { u32_at(ph, base + 4, le) };
        let pf = if wide { u64_at(ph, base + 32, le) } else { u32_at(ph, base + 16, le) };
        elf_ph_extent(ph, wide, le, base + step, step, k - 1, imax(m, sat_add(po, pf)))
    }
}

/// ELF: class and byte order from the identification bytes, then the
/// farthest of the section header table end and every program header's
/// file extent (and the program header table end); at most 4096 headers of
/// each kind are considered.
pub open spec fn elf_spec(dev: Seq<u8>, fo: int) -> Option<u64> {
    let id = clamped(dev, fo, 6);
    if id.len() < 6 || (id[4] != 1 && id[4] != 2) || (id[5] != 1 && id[5] != 2) {
        None
    } else {
        let wide = id[4] == 2;
        let le = id[5] == 1;
        let hs = if wide { 64int } else { 52 };
        let h = clamped(dev, fo, hs);
        if h.len() < hs {
            None
        } else {
            let phoff = if wide { u64_at(h, 32, le) } else { u32_at(h, 28, le) };
            let phent = if wide { u16_at(h, 54, le) } else { u16_at(h, 42, le) };
            let phnum = if wide { u16_at(h, 56, le) } else { u16_at(h, 44, le) };
            let shoff = if wide { u64_at(h, 40, le) } else { u32_at(h, 32, le) };
            let shent = if wide { u16_at(h, 58, le) } else { u16_at(h, 46, le) };
            let shnum = if wide { u16_at(h, 60, le) } else { u16_at(h, 48, le) };
            let m1 = if shoff > 0 && shnum > 0 && shnum <= 4096 { sat_add(shoff, shent * shnum) } else { 0 };
            let m2 = if phoff > 0 && phnum > 0 && phnum <= 4096 {
                let ph = clamped(dev, fo + phoff, phent * phnum);
                imax(elf_ph_extent(ph, wide, le, 0, phent, phnum, m1), sat_add(phoff, phent * phnum))
            } else {
                m1
            };
            if m2 > 0 { Some(m2 as u64) } else { None }
        }
    }
}

/// Reads an ELF size hint from the section and program header tables.
pub fn elf_hint<D: BlockDevice>(device: &D, file_offset: u64) -> (r: Option<u64>)
    requires addressable(device.contents()), file_offset <= 0x7FFF_FFFF_FFFF_FFFF,
    ensures (device.healthy() || r is Some) ==> r == elf_spec(device.contents(), file_offset as int),
{
    let id = read_dev(device, file_offset, 6)?;
    if id.len() < 6 || (id[4] != 1 && id[4] != 2) || (id[5] != 1 && id[5] != 2) {
        return None;
    }
    let wide = id[4] == 2;
    let le = id[5] == 1;
    let hs: usize = if wide { 64 } else { 52 };
    let h = read_dev(device, file_offset, hs)?;
    if h.len() < hs {
        return None;
    }
    let phoff: u64 = if wide { rd_u64(&h, 32, le) } else { rd_u32(&h, 28, le) as u64 };
    let phent: u64 = if wide { rd_u16(&h, 54, le) as u64 } else { rd_u16(&h, 42, le) as u64 };
    let phnum: u64 = if wide { rd_u16(&h, 56, le) as u64 } else { rd_u16(&h, 44, le) as u64 };
    let shoff: u64 = if wide { rd_u64(&h, 40, le) } else { rd_u32(&h, 32, le) as u64 };
    let shent: u64 = if wide { rd_u16(&h, 58, le) as u64 } else { rd_u16(&h, 46, le) as u64 };
    let shnum: u64 = if wide { rd_u16(&h, 60, le) as u64 } else { rd_u16(&h, 48, le) as u64 };
    let mut m: u64 = 0;
    if shoff > 0 && shnum > 0 && shnum <= 4096 {
        assert(shent * shnum <= 0xFFFFu64 * 4096) by (nonlinear_arith) requires shent <= 0xFFFF, shnum <= 4096;
        m = add_sat(shoff, shent * shnum);
    }
    if phoff > 0 && phnum > 0 && phnum <= 4096 {
        assert(phent * phnum <= 0xFFFFu64 * 4096) by (nonlinear_arith) requires phent <= 0xFFFF, phnum <= 4096;
        let size = phent * phnum;
        let ph = read_dev(device, add_sat(file_offset, phoff), size as usize)?;
        proof { super::lemma_clamp_saturated(device.contents(), file_offset as int, phoff as int, size as int); }
        let need: u64 = if wide { 48 } else { 20 };
        let ghost m1 = m;
        let mut base: u64 = 0;
        let mut k: u64 = phnum;
        while k > 0
            invariant
                k <= phnum <= 4096,
                phent <= 0xFFFF,
                base <= (phnum - k) * phent,
                base <= 0x1000_0000,
                need == (if wide { 48u64 } else { 20 }),
                elf_ph_extent(ph@, wide, le, base as int, phent as int, k as int, m as int)
                    == elf_ph_extent(ph@, wide, le, 0, phent as int, phnum as int, m1 as int),
            ensures
                elf_ph_extent(ph@, wide, le, 0, phent as int, phnum as int, m1 as int) == m,
            decreases k,
        {
            if base + need > ph.len() as u64 {
                break;
            }
            let b = base as usize;
            let (po, pf) = if wide {
                (rd_u64(&ph, b + 8, le), rd_u64(&ph, b + 32, le))
            } else {
                (rd_u32(&ph, b + 4, le) as u64, rd_u32(&ph, b + 16, le) as u64)
            };
            m = max_u64(m, add_sat(po, pf));
            assert((phnum - k) * phent + phent == (phnum - (k - 1)) * phent) by (nonlinear_arith);
            assert((phnum - (k - 1)) * phent <= 4096 * 0xFFFF) by (nonlinear_arith)
                requires k >= 1, k <= phnum, phnum <= 4096, phent <= 0xFFFF;
            base = base + phent;
            k -= 1;
        }
        m = max_u64(m, add_sat(phoff, size));
    }
    if m > 0 { Some(m) } else { None }
}

// ── EBML ─────────────────────────────────────────────────────────────────────

/// Total size of a file whose Segment element (ID `18 53 80 67`) sits at
/// `o` in `d` and at `start` in the file: its header plus its declared
/// size; none for an unknown size or a total below 12.
pub open spec fn segment_total(d: Seq<u8>, o: int, start: int) -> Option<u64> {
    if o + 4 > d.len() || !occurs_at(d, o, seq![0x18u8, 0x53, 0x80, 0x67]) {
        None
    } else {
        match vint_at(d, o + 4) {
            None => None,
            Some((size, w)) => if size == vint_unknown(w) || start + 4 + w + size < 12 {
                None
            } else {
                Some((start + 4 + w + size) as u64)
            },
        }
    }
}

/// EBML: skip the EBML header (its ID and size from the first 64 bytes)
/// and read the Segment that follows (re-reading 12 bytes at it when the
/// first read did not reach far enough).
pub open spec fn ebml_spec(dev: Seq<u8>, fo: int) -> Option<u64> {
    let d = clamped(dev, fo, 64);
    if d.len() < 12 || !occurs_at(d, 0, seq![0x1Au8, 0x45, 0xDF, 0xA3]) {
        None
    } else {
        match vint_at(d, 4) {
            None => None,
            Some((hs, w)) => {
                let start = 4 + w + hs;
                if start + 12 > d.len() {
                    let s = clamped(dev, fo + start, 12);
                    if s.len() < 12 { None } else { segment_total(s, 0, start) }
                } else {
                    segment_total(d, start, start)
                }
            },
        }
    }
}

fn segment_total_of(d: &[u8], o: usize, start: u64) -> (r: Option<u64>)
    requires start < 0x200_0000_0000_0000,
    ensures r == segment_total(d@, o as int, start as int),
{
    if o > d.len() || d.len() - o < 4 || !matches_at(d, o, &[0x18, 0x53, 0x80, 0x67]) {
        return None;
    }
    let (size, w) = read_vint(d, o + 4)?;
    proof { lemma_vint_width_range(d@, o + 4); }
    let total = start + 4 + w as u64 + size;
    if size == unknown_size(w) || total < 12 {
        return None;
    }
    Some(total)
}

/// Reads an EBML (Matroska / WebM) size hint from the Segment size.
pub fn ebml_hint<D: BlockDevice>(device: &D, file_offset: u64) -> (r: Option<u64>)
    requires addressable(device.contents()), file_offset <= 0x7FFF_FFFF_FFFF_FFFF,
    ensures (device.healthy() || r is Some) ==> r == ebml_spec(device.contents(), file_offset as int),
{
    let d = read_dev(device, file_offset, 64)?;
    if d.len() < 12 || !matches_at(&d, 0, &[0x1A, 0x45, 0xDF, 0xA3]) {
        return None;
    }
    let (hs, w) = read_vint(&d, 4)?;
    proof { lemma_vint_width_range(d@, 4); }
    let start: u64 = 4 + w as u64 + hs;
    if start + 12 > d.len() as u64 {
        let s = read_dev(device, file_offset + start, 12)?;
        if s.len() < 12 {
            return None;
        }
        return segment_total_of(&s, 0, start);
    }
    segment_total_of(&d, start as usize, start)
}

// ── TrueType / OpenType ──────────────────────────────────────────────────────

/// Largest `offset + length` over table records `i..n` of directory `t`.
pub open spec fn ttf_tables_extent(t: Seq<u8>, i: int, n: int, m: int) -> int
    decreases n - i,
{
    if i < 0 || i >= n { m } else { ttf_tables_extent(t, i + 1, n, imax(m, be32(t, 16 * i + 8) + be32(t, 16 * i + 12))) }
}

/// TrueType / OpenType: `numTables` (big-endian at 4) records of 16 bytes
/// from offset 12; the file spans the farthest `offset + length`.  A font
/// without tables, or whose directory is cut short, gives none.
pub open spec fn ttf_spec(dev: Seq<u8>, fo: int) -> Option<u64> {
    let h = clamped(dev, fo, 12);
    if h.len() < 12 || be16(h, 4) == 0 {
        None
    } else {
        let n = be16(h, 4);
        let t = clamped(dev, fo + 12, 16 * n);
        if t.len() < 16 * n {
            None
        } else {
            let m = ttf_tables_extent(t, 0, n, 0);
            if m > 0 { Some(m as u64) } else { None }
        }
    }
}

/// Reads a TrueType / OpenType size hint from the table directory.
pub fn ttf_hint<D: BlockDevice>(device: &D, file_offset: u64) -> (r: Option<u64>)
    requires addressable(device.contents()), file_offset <= 0x7FFF_FFFF_FFFF_FFFF,
    ensures (device.healthy() || r is Some) ==> r == ttf_spec(device.contents(), file_offset as int),
{
    let h = read_dev(device, file_offset, 12)?;
    if h.len() < 12 {
        return None;
    }
    let n = rd_be16(&h, 4) as u64;
    if n == 0 {
        return None;
    }
    let t = read_dev(device, file_offset + 12, (16 * n) as usize)?;
    if (t.len() as u64) < 16 * n {
        return None;
    }
    let mut m: u64 = 0;
    let mut i: u64 = 0;
    while i < n
        invariant
            i <= n <= 0xFFFF,
            t@.len() >= 16 * n,
            m < 0x2_0000_0000,
            ttf_tables_extent(t@, i as int, n as int, m as int) == ttf_tables_extent(t@, 0, n as int, 0),
        decreases n - i,
    {
        let b = (16 * i) as usize;
        m = max_u64(m, rd_be32(&t, b + 8) as u64 + rd_be32(&t, b + 12) as u64);
        i += 1;
    }
    if m > 0 { Some(m) } else { None }
}

// ── Linearized PDF ───────────────────────────────────────────────────────────

/// `/L ` (the file-length key of a linearization dictionary).
pub open spec fn length_key() -> Seq<u8> { seq![0x2Fu8, 0x4C, 0x20] }

/// First position at or after `i` where `pat` lies wholly in `s`.
pub open spec fn first_occurrence(s: Seq<u8>, pat: Seq<u8>, i: int) -> Option<int>
    decreases s.len() + 1 - i,
{
    if i < 0 || i + pat.len() > s.len() {
        None
    } else if occurs_at(s, i, pat) {
        Some(i)
    } else {
        first_occurrence(s, pat, i + 1)
    }
}

/// First position at or after `i` holding neither a space nor a tab.
pub open spec fn skip_blanks(s: Seq<u8>, i: int) -> int
    decreases s.len() - i,
{
    if i < 0 || i >= s.len() || (s[i] != 0x20 && s[i] != 0x09) { i } else { skip_blanks(s, i + 1) }
}

/// Scan for `/L <number>` from `offset`: the first occurrence whose number
/// (after blanks) is readable and non-zero gives the length.
pub open spec fn pdf_length_scan(b: Seq<u8>, offset: int) -> Option<u64>
    decreases b.len() - offset,
{
    if offset < 0 || offset + 3 >= b.len() {
        None
    } else {
        match first_occurrence(b, length_key(), offset) {
            None => None,
            Some(p) => match decimal_at(b, skip_blanks(b, p + 3)) {
                Some(v) if v > 0 => Some(v),
                _ => if offset < p + 3 <= b.len() { pdf_length_scan(b, p + 3) } else { None },
            },
        }
    }
}

/// Linearized PDF: within the first 256 bytes, `/Linearized` and a
/// non-zero `/L` length.
pub open spec fn pdf_spec(dev: Seq<u8>, fo: int) -> Option<u64> {
    let b = clamped(dev, fo, 256);
    if !occurs_within(b, 0, b.len() as int, seq![0x2Fu8, 0x4C, 0x69, 0x6E, 0x65, 0x61, 0x72, 0x69, 0x7A, 0x65, 0x64]) {
        None
    } else {
        pdf_length_scan(b, 0)
    }
}

proof fn lemma_first_occurrence_bounds(s: Seq<u8>, pat: Seq<u8>, i: int)
    ensures first_occurrence(s, pat, i) matches Some(p) ==> i <= p && p + pat.len() <= s.len() && occurs_at(s, p, pat),
    decreases s.len() + 1 - i,
{
    if !(i < 0 || i + pat.len() > s.len()) && !occurs_at(s, i, pat) {
        lemma_first_occurrence_bounds(s, pat, i + 1);
    }
}

/// First position at or after `from` where `needle` lies wholly in
/// `haystack`.
fn find_bytes_from(haystack: &[u8], needle: &[u8], from: usize) -> (r: Option<usize>)
    requires needle@.len() > 0,
    ensures
        match r {
            Some(p) => first_occurrence(haystack@, needle@, from as int) == Some(p as int),
            None => first_occurrence(haystack@, needle@, from as int) is None,
        },
{
    let mut i = from;
    while i <= haystack.len() && needle.len() <= haystack.len() - i
        invariant
            from <= i,
            needle@.len() > 0,
            first_occurrence(haystack@, needle@, i as int) == first_occurrence(haystack@, needle@, from as int),
        decreases haystack.len() - i,
    {
        if matches_at(haystack, i, needle) {
            return Some(i);
        }
        i += 1;
    }
    None
}

/// Find a byte needle in a haystack, returning the starting index of its
/// first occurrence.
pub fn find_bytes(haystack: &[u8], needle: &[u8]) -> (r: Option<usize>)
    requires needle@.len() > 0,
    ensures
        match r {
            Some(p) => first_occurrence(haystack@, needle@, 0) == Some(p as int),
            None => first_occurrence(haystack@, needle@, 0) is None,
        },
{
    find_bytes_from(haystack, needle, 0)
}

/// Reads a linearized-PDF size hint.
pub fn pdf_hint<D: BlockDevice>(device: &D, file_offset: u64) -> (r: Option<u64>)
    requires addressable(device.contents()),
    ensures (device.healthy() || r is Some) ==> r == pdf_spec(device.contents(), file_offset as int),
{
    let b = read_dev(device, file_offset, 256)?;
    assert(b@.len() <= 256);
    if !find_within(&b, 0, b.len(), &[0x2F, 0x4C, 0x69, 0x6E, 0x65, 0x61, 0x72, 0x69, 0x7A, 0x65, 0x64]) {
        return None;
    }
    let mut offset: usize = 0;
    while offset + 3 < b.len()
        invariant
            offset <= b.len(),
            b@.len() <= 256,
            pdf_length_scan(b@, offset as int) == pdf_length_scan(b@, 0),
            pdf_spec(device.contents(), file_offset as int) == pdf_length_scan(b@, 0),
        decreases b.len() - offset,
    {
        let key: [u8; 3] = [0x2F, 0x4C, 0x20];
        proof { assert(key@ =~= length_key()); }
        let p = match find_bytes_from(&b, &key, offset) {
            Some(p) => p,
            None => return None,
        };
        proof { lemma_first_occurrence_bounds(b@, length_key(), offset as int); }
        let mut j = p + 3;
        while j < b.len() && (b[j] == 0x20 || b[j] == 0x09)
            invariant
                p + 3 <= j <= b.len(),
                skip_blanks(b@, j as int) == skip_blanks(b@, p + 3),
            decreases b.len() - j,
        {
            j += 1;
        }
        match read_decimal(&b, j) {
            Some(v) => {
                if v > 0 {
                    return Some(v);
                }
            },
            None => {},
        }
        offset = p + 3;
    }
    None
}

// ── MPEG transport stream ────────────────────────────────────────────────────

/// Scan state: (end of the last valid packet relative to the file start,
/// whether any was valid, current run of invalid packets).
pub type TsState = (int, bool, int);

/// Packets at `off`, `off + stride`, … of a chunk that starts `rel` bytes
/// into the file, as long as their sync byte (at `ts`) is in the chunk: a
/// `0x47` there marks a valid packet and ends the invalid run; the tenth
/// invalid packet in a row stops the whole walk (second component).
pub open spec fn ts_packets(data: Seq<u8>, ts: int, stride: int, rel: int, off: int, st: TsState) -> (TsState, bool)
    decreases data.len() - off + stride,
{
    if stride <= 0 || off < 0 || ts < 0 || off + ts >= data.len() {
        (st, false)
    } else if data[off + ts] == 0x47 {
        ts_packets(data, ts, stride, rel, off + stride, (rel + off + stride, true, 0))
    } else if st.2 + 1 >= 10 {
        ((st.0, st.1, st.2 + 1), true)
    } else {
        ts_packets(data, ts, stride, rel, off + stride, (st.0, st.1, st.2 + 1))
    }
}

/// The walk over chunks of 1024 packets from `pkt` up to `end`.
pub open spec fn ts_chunks(dev: Seq<u8>, fo: int, ts: int, stride: int, end: int, pkt: int, st: TsState) -> TsState
    decreases end - pkt,
{
    if stride <= 0 || pkt >= end {
        st
    } else {
        let len = if 1024 * stride < end - pkt { 1024 * stride } else { end - pkt };
        let data = clamped(dev, pkt, len);
        if data.len() == 0 {
            st
        } else {
            let (st2, stop) = ts_packets(data, ts, stride, pkt - fo, 0, st);
            if stop || data.len() < len { st2 } else { ts_chunks(dev, fo, ts, stride, end, pkt + len, st2) }
        }
    }
}

/// MPEG-TS / M2TS: packets of `stride` bytes with the sync byte `0x47` at
/// `ts` within each, walked from the file start up to `max_size` (and the
/// device end) until 10 invalid packets in a row; the file ends after the
/// last valid packet.  None when no packet was valid.
pub open spec fn mpeg_ts_spec(dev: Seq<u8>, fo: int, ts: int, stride: int, max_size: int) -> Option<u64> {
    let end = ts_end(fo, max_size, dev.len() as int);
    let st = ts_chunks(dev, fo, ts, stride, end, fo, (0, false, 0));
    if st.1 { Some(st.0 as u64) } else { None }
}

/// Where a transport stream walk stops at the latest: `max_size` bytes
/// past the file start (saturating), or the device end `n`.
pub open spec fn ts_end(fo: int, max_size: int, n: int) -> int {
    let end0 = sat_add(fo, max_size);
    if end0 < n { end0 } else { n }
}

/// Walks an MPEG transport stream packet by packet.  A piece that cannot be
/// read ends the walk as the device's end would: whatever the device does,
/// the result is the hint of the device cut short somewhere.
pub fn mpeg_ts_size_hint<D: BlockDevice>(device: &D, file_offset: u64, ts_offset: u8, stride: u16, max_size: u64) -> (r: Option<u64>)
    requires addressable(device.contents()), file_offset <= 0x7FFF_FFFF_FFFF_FFFF,
    ensures
        device.healthy() ==> r == mpeg_ts_spec(device.contents(), file_offset as int, ts_offset as int, stride as int, max_size as int),
        exists|k: int| 0 <= k <= device.contents().len()
            && r == #[trigger] mpeg_ts_spec(device.contents().take(k), file_offset as int, ts_offset as int, stride as int, max_size as int),
{
    let ghost dev = device.contents();
    proof { assert(dev.take(dev.len() as int) =~= dev); }
    let step = stride as u64;
    let ts = ts_offset as u64;
    let device_size = device.size();
    let end0 = file_offset.saturating_add(max_size);
    let end = if end0 < device_size { end0 } else { device_size };
    let mut pkt = file_offset;
    let mut last: u64 = 0;
    let mut found = false;
    let mut run: u32 = 0;
    let ghost target = ts_chunks(device.contents(), file_offset as int, ts as int, step as int, end as int, file_offset as int, (0, false, 0));
    while pkt < end
        invariant
            device_size == device.contents().len(),
            addressable(device.contents()),
            end <= device_size,
            end == (if sat_add(file_offset as int, max_size as int) < device_size { sat_add(file_offset as int, max_size as int) } else { device_size as int }),
            target == ts_chunks(device.contents(), file_offset as int, ts as int, step as int, end as int, file_offset as int, (0, false, 0)),
            ts == ts_offset,
            step == stride,
            file_offset <= pkt,
            step <= 0xFFFF,
            ts <= 0xFF,
            last <= 0x8000_0000_1000_0000,
            run < 10,
            dev == device.contents(),
            dev.take(dev.len() as int) == dev,
            ts_end(file_offset as int, max_size as int, device_size as int) == end,
            pkt <= end || pkt == file_offset,
            forall|k: int| (pkt <= k || pkt == file_offset) && k <= device_size ==>
                ts_chunks(#[trigger] dev.take(k), file_offset as int, ts as int, step as int,
                    ts_end(file_offset as int, max_size as int, k), pkt as int, (last as int, found, run as int))
                == ts_chunks(dev.take(k), file_offset as int, ts as int, step as int,
                    ts_end(file_offset as int, max_size as int, k), file_offset as int, (0, false, 0)),
        ensures
            device.healthy() ==> target == (last as int, found, run as int),
            exists|k: int| 0 <= k <= device_size && #[trigger] ts_chunks(dev.take(k), file_offset as int, ts as int, step as int,
                ts_end(file_offset as int, max_size as int, k), file_offset as int, (0, false, 0)) == (last as int, found, run as int),
        decreases end - pkt,
    {
        let ghost n = device_size as int;
        proof {
            assert(ts_end(file_offset as int, max_size as int, n) == end);
        }
        let want = 1024 * step;
        let len: u64 = if want < end - pkt { want } else { end - pkt };
        let data = match read_dev(device, pkt, len as usize) {
            Some(d) => d,
            None => {
                proof {
                    let k = pkt as int;
                    assert(ts_end(file_offset as int, max_size as int, k) == k);
                    assert(ts_chunks(dev.take(k), file_offset as int, ts as int, step as int, k, pkt as int, (last as int, found, run as int))
                        == (last as int, found, run as int));
                }
                break;
            },
        };
        if data.len() == 0 {
            proof {
                assert(ts_chunks(dev, file_offset as int, ts as int, step as int, end as int, pkt as int, (last as int, found, run as int))
                    == (last as int, found, run as int));
            }
            break;
        }
        let rel = pkt - file_offset;
        let ghost st_in = (last as int, found, run as int);
        let mut off: u64 = 0;
        let mut stop = false;
        while off + ts < data.len() as u64
            invariant_except_break
                !stop,
                run < 10,
            invariant
                step > 0,
                step <= 0xFFFF,
                ts <= 0xFF,
                data@.len() <= len,
                len <= 1024 * 0xFFFF,
                len <= end - pkt,
                rel == pkt - file_offset,
                rel <= 0x7FFF_FFFF_FFFF_FFFF,
                pkt + len <= end,
                end <= device_size,
                last <= 0x8000_0000_1000_0000,
                off <= data@.len() + step,
                !stop ==> ts_packets(data@, ts as int, step as int, rel as int, off as int, (last as int, found, run as int))
                    == ts_packets(data@, ts as int, step as int, rel as int, 0, st_in),
            ensures
                stop ==> ts_packets(data@, ts as int, step as int, rel as int, 0, st_in) == ((last as int, found, run as int), true),
                !stop ==> ts_packets(data@, ts as int, step as int, rel as int, 0, st_in) == ((last as int, found, run as int), false),
                !stop ==> run < 10,
                last <= 0x8000_0000_1000_0000,
            decreases data@.len() + step - off,
        {
            if data[(off + ts) as usize] == 0x47 {
                last = rel + off + step;
                found = true;
                run = 0;
            } else {
                if run + 1 >= 10 {
                    let ghost st_now = (last as int, found, run as int);
                    assert(ts_packets(data@, ts as int, step as int, rel as int, off as int, st_now)
                        == ((last as int, found, run + 1), true));
                    run = run + 1;
                    stop = true;
                    break;
                }
                run = run + 1;
            }
            off = off + step;
        }
        if stop || (data.len() as u64) < len {
            proof {
                assert(ts_chunks(dev, file_offset as int, ts as int, step as int, end as int, pkt as int, st_in)
                    == (last as int, found, run as int));
                assert(target == (last as int, found, run as int));
                assert(mpeg_ts_spec(dev.take(n), file_offset as int, ts_offset as int, stride as int, max_size as int)
                    == (if found { Some(last) } else { None::<u64> }));
            }
            return if found { Some(last) } else { None };
        }
        proof {
            assert forall|k: int| pkt + len <= k <= n implies
                ts_chunks(#[trigger] dev.take(k), file_offset as int, ts as int, step as int,
                    ts_end(file_offset as int, max_size as int, k), pkt as int, st_in)
                == ts_chunks(dev.take(k), file_offset as int, ts as int, step as int,
                    ts_end(file_offset as int, max_size as int, k), (pkt + len) as int, (last as int, found, run as int)) by {
                let ek = ts_end(file_offset as int, max_size as int, k);
                assert(pkt + len <= ek <= end);
                assert(clamped(dev.take(k), pkt as int, len as int) =~= data@);
            }
        }
        pkt = pkt + len;
    }
    proof {
        let k = choose|k: int| 0 <= k <= device_size && #[trigger] ts_chunks(dev.take(k), file_offset as int, ts as int, step as int,
            ts_end(file_offset as int, max_size as int, k), file_offset as int, (0, false, 0)) == (last as int, found, run as int);
        assert(dev.take(k).len() == k);
        assert(mpeg_ts_spec(dev.take(k), file_offset as int, ts_offset as int, stride as int, max_size as int)
            == (if found { Some(last) } else { None::<u64> }));
    }
    if found { Some(last) } else { None }
}

// ── RAR ──────────────────────────────────────────────────────────────────────

/// The size found when a RAR walk stops at `pos` without an end marker:
/// the distance walked when it exceeds the signature (`sig` bytes).
pub open spec fn rar_stop(pos: int, fo: int, sig: int) -> Option<u64> {
    if pos - fo > sig { Some((pos - fo) as u64) } else { None }
}

/// RAR 4 block walk from `pos` (`n` blocks seen): 7-byte headers (type at
/// 2, flags at 3, size at 5); flag `0x8000` adds a 32-bit data size after
/// the header; the end-of-archive block (type `0x7B`) ends the file.
pub open spec fn rar4_walk(dev: Seq<u8>, fo: int, pos: int, n: int) -> Option<u64>
    decreases 100_000 - n,
{
    if n < 0 || n >= 100_000 || pos + 7 > dev.len() || le16(dev, pos + 5) < 7
        || (le16(dev, pos + 3) >= 0x8000 && pos + 11 > dev.len()) {
        rar_stop(pos, fo, 7)
    } else {
        let add = if le16(dev, pos + 3) >= 0x8000 { le32(dev, pos + 7) } else { 0 };
        let next = sat_add(pos, le16(dev, pos + 5) + add);
        if dev[pos + 2] == 0x7B { Some((next - fo) as u64) } else { rar4_walk(dev, fo, next, n + 1) }
    }
}

/// 2^(7j) for the groups of a RAR 5 variable-length integer.
pub open spec fn group_weight(j: int) -> int
    decreases j,
{
    if j <= 0 { 1 } else { 128 * group_weight(j - 1) }
}

/// Contribution of byte `b` as group `j` (bits beyond 64 dropped).
pub open spec fn group_value(b: u8, j: int) -> int {
    if j == 9 { (b % 2) * 0x8000_0000_0000_0000 } else { (b % 128) * group_weight(j) }
}

/// RAR 5 variable-length integer at `o` with `j` groups read so far and
/// value `acc`: 7-bit groups, low first, while the top bit is set; at most
/// 10 bytes.  (value, length) or none when it runs out of data or bytes.
pub open spec fn rar5_vint_from(d: Seq<u8>, o: int, j: int, acc: int) -> Option<(u64, int)>
    decreases 10 - j,
{
    if j < 0 || j >= 10 || o + j >= d.len() || o < 0 {
        None
    } else {
        let v = acc + group_value(d[o + j], j);
        if d[o + j] < 128 { Some((v as u64, j + 1)) } else { rar5_vint_from(d, o, j + 1, v) }
    }
}

/// A RAR 5 variable-length integer at `o`.
pub open spec fn rar5_vint(d: Seq<u8>, o: int) -> Option<(u64, int)> {
    rar5_vint_from(d, o, 0, 0)
}

proof fn lemma_group_weight(j: int)
    requires 0 <= j <= 8,
    ensures group_weight(j) <= 0x100_0000_0000_0000, group_weight(j) >= 1,
    decreases j,
{
    reveal_with_fuel(group_weight, 10);
}

/// Decode the RAR 5 variable-length integer at `data[offset..]`.
pub fn read_rar5_vint(data: &[u8], offset: usize) -> (r: Option<(u64, usize)>)
    ensures
        match r {
            Some((v, n)) => rar5_vint(data@, offset as int) == Some((v, n as int)),
            None => rar5_vint(data@, offset as int) is None,
        },
{
    let mut result: u64 = 0;
    let mut j: usize = 0;
    let mut weight: u64 = 1;
    while j < 10
        invariant
            j <= 10,
            j <= 8 ==> weight == group_weight(j as int),
            j <= 9 ==> result < group_weight(j as int),
            rar5_vint_from(data@, offset as int, j as int, result as int) == rar5_vint(data@, offset as int),
        decreases 10 - j,
    {
        proof {
            reveal_with_fuel(group_weight, 11);
            if j <= 8 { lemma_group_weight(j as int); }
        }
        if offset > data.len() || j >= data.len() - offset {
            return None;
        }
        let b = data[offset + j];
        proof {
            if j <= 8 {
                assert((b % 128) as u64 * weight <= 127 * 0x100_0000_0000_0000) by (nonlinear_arith)
                    requires weight <= 0x100_0000_0000_0000;
            }
        }
        let add: u64 = if j == 9 { (b % 2) as u64 * 0x8000_0000_0000_0000 } else { (b % 128) as u64 * weight };
        proof {
            if j < 9 {
                assert((b % 128) as u64 * weight <= 127 * weight) by (nonlinear_arith) requires weight >= 1;
            }
        }
        result = result + add;
        if b < 128 {
            return Some((result, j + 1));
        }
        if j < 8 {
            weight = weight * 128;
        }
        j += 1;
    }
    None
}

/// The header of a RAR 5 block read into `d`: (type, header bytes plus
/// data bytes, saturating), or none when a size field cannot be decoded.
pub open spec fn rar5_block(d: Seq<u8>) -> Option<(u64, int)> {
    match rar5_vint(d, 4) {
        None => None,
        Some((hsz, n1)) => match rar5_vint(d, 4 + n1) {
            None => None,
            Some((ht, n2)) => match rar5_vint(d, 4 + n1 + n2) {
                None => None,
                Some((hf, n3)) => {
                    let off = 4 + n1 + n2 + n3;
                    let extra = if hf % 2 == 1 { rar5_vint(d, off) } else { Some((0u64, 0int)) };
                    match extra {
                        None => None,
                        Some((_, n4)) => {
                            let data_size = if (hf / 2) % 2 == 1 { rar5_vint(d, off + n4) } else { Some((0u64, 0int)) };
                            match data_size {
                                None => None,
                                Some((ds, _)) => Some((ht, sat_add(4 + n1 + hsz, ds as int))),
                            }
                        },
                    }
                },
            },
        },
    }
}

/// RAR 5 block walk from `pos` (`n` blocks seen): each block header is
/// read from up to 1 KiB at the block; the end-of-archive block (type 5)
/// ends the file; an undecodable header gives none.
pub open spec fn rar5_walk(dev: Seq<u8>, fo: int, pos: int, n: int) -> Option<u64>
    decreases 100_000 - n,
{
    if n < 0 || n >= 100_000 || pos + 4 >= dev.len() {
        rar_stop(pos, fo, 8)
    } else {
        let d = clamped(dev, pos, if dev.len() - pos < 1024 { dev.len() - pos } else { 1024 });
        if d.len() < 11 {
            rar_stop(pos, fo, 8)
        } else {
            match rar5_block(d) {
                None => None,
                Some((ht, total)) => {
                    let next = sat_add(pos, total);
                    if ht == 5 { Some((next - fo) as u64) } else { rar5_walk(dev, fo, next, n + 1) }
                },
            }
        }
    }
}

/// RAR: signature `Rar!\x1A\x07`, then version 4 (`00`) or 5 (`01 00`).
pub open spec fn rar_spec(dev: Seq<u8>, fo: int) -> Option<u64> {
    let s = clamped(dev, fo, 8);
    if s.len() < 7 || !occurs_at(s, 0, seq![0x52u8, 0x61, 0x72, 0x21, 0x1A, 0x07]) {
        None
    } else if s[6] == 0 {
        rar4_walk(dev, fo, fo + 7, 0)
    } else if s.len() >= 8 && s[6] == 1 && s[7] == 0 {
        rar5_walk(dev, fo, fo + 8, 0)
    } else {
        None
    }
}

proof fn lemma_rar5_vint_len(d: Seq<u8>, o: int, j: int, acc: int)
    ensures rar5_vint_from(d, o, j, acc) matches Some((v, n)) ==> j < n <= 10 && o + n <= d.len(),
    decreases 10 - j,
{
    if !(j < 0 || j >= 10 || o + j >= d.len() || o < 0) {
        if d[o + j] >= 128 {
            lemma_rar5_vint_len(d, o, j + 1, acc + group_value(d[o + j], j));
        }
    }
}

fn rar5_block_of(d: &[u8]) -> (r: Option<(u64, u64)>)
    requires d@.len() <= 1024,
    ensures
        match r {
            Some((t, total)) => rar5_block(d@) == Some((t, total as int)),
            None => rar5_block(d@) is None,
        },
{
    proof { lemma_rar5_vint_len(d@, 4, 0, 0); }
    let (hsz, n1) = read_rar5_vint(d, 4)?;
    proof { lemma_rar5_vint_len(d@, 4 + n1, 0, 0); }
    let (ht, n2) = read_rar5_vint(d, 4 + n1)?;
    proof { lemma_rar5_vint_len(d@, 4 + n1 + n2, 0, 0); }
    let (hf, n3) = read_rar5_vint(d, 4 + n1 + n2)?;
    let off = 4 + n1 + n2 + n3;
    proof { lemma_rar5_vint_len(d@, off as int, 0, 0); }
    let n4: usize = if hf % 2 == 1 {
        let (_, k) = read_rar5_vint(d, off)?;
        k
    } else {
        0
    };
    proof { lemma_rar5_vint_len(d@, off + n4, 0, 0); }
    let ds: u64 = if (hf / 2) % 2 == 1 {
        let (v, _) = read_rar5_vint(d, off + n4)?;
        v
    } else {
        0
    };
    let header_end = 4 + n1 as u64;
    let total = match header_end.checked_add(hsz) {
        Some(x) => x.saturating_add(ds),
        None => u64::MAX,
    };
    Some((ht, total))
}

/// Walks a RAR 4 archive's blocks.
fn rar4_walk_of<D: BlockDevice>(device: &D, file_offset: u64) -> (r: Option<u64>)
    requires addressable(device.contents()), file_offset <= 0x7FFF_FFFF_FFFF_FFFF,
    ensures (device.healthy() || r is Some) ==> r == rar4_walk(device.contents(), file_offset as int, file_offset + 7, 0),
{
    let device_size = device.size();
    let mut pos = file_offset + 7;
    let mut n: u32 = 0;
    while n < 100_000
        invariant
            device_size == device.contents().len(),
            addressable(device.contents()),
            file_offset + 7 <= pos,
            rar4_walk(device.contents(), file_offset as int, pos as int, n as int)
                == rar4_walk(device.contents(), file_offset as int, file_offset + 7, 0),
        ensures
            rar4_walk(device.contents(), file_offset as int, file_offset + 7, 0)
                == rar_stop(pos as int, file_offset as int, 7),
        decreases 100_000 - n,
    {
        if pos > device_size || device_size - pos < 7 {
            break;
        }
        let h = read_dev(device, pos, 11)?;
        if h.len() < 7 {
            break;
        }
        proof {
            assert forall|k: int| 0 <= k < h@.len() implies h@[k] == device.contents()[pos + k] by {}
        }
        let ty = h[2];
        let flags = rd_le16(&h, 3);
        let hs = rd_le16(&h, 5) as u64;
        if hs < 7 {
            break;
        }
        let add: u64 = if flags >= 0x8000 {
            if device_size - pos < 11 {
                break;
            }
            rd_le32(&h, 7) as u64
        } else {
            0
        };
        pos = pos.saturating_add(hs + add);
        if ty == 0x7B {
            return Some(pos - file_offset);
        }
        n += 1;
    }
    let size = pos - file_offset;
    if size > 7 { Some(size) } else { None }
}

/// Walks a RAR 5 archive's blocks.
fn rar5_walk_of<D: BlockDevice>(device: &D, file_offset: u64) -> (r: Option<u64>)
    requires addressable(device.contents()), file_offset <= 0x7FFF_FFFF_FFFF_FFFF,
    ensures (device.healthy() || r is Some) ==> r == rar5_walk(device.contents(), file_offset as int, file_offset + 8, 0),
{
    let device_size = device.size();
    let mut pos = file_offset + 8;
    let mut n: u32 = 0;
    while n < 100_000
        invariant
            device_size == device.contents().len(),
            addressable(device.contents()),
            file_offset + 8 <= pos,
            rar5_walk(device.contents(), file_offset as int, pos as int, n as int)
                == rar5_walk(device.contents(), file_offset as int, file_offset + 8, 0),
        ensures
            rar5_walk(device.contents(), file_offset as int, file_offset + 8, 0)
                == rar_stop(pos as int, file_offset as int, 8),
        decreases 100_000 - n,
    {
        if pos >= device_size || device_size - pos <= 4 {
            break;
        }
        let want: u64 = if device_size - pos < 1024 { device_size - pos } else { 1024 };
        let d = read_dev(device, pos, want as usize)?;
        if d.len() < 11 {
            break;
        }
        let (ht, total) = rar5_block_of(&d)?;
        pos = pos.saturating_add(total);
        if ht == 5 {
            return Some(pos - file_offset);
        }
        n += 1;
    }
    let size = pos - file_offset;
    if size > 8 { Some(size) } else { None }
}

/// Reads a RAR size hint by walking the archive's blocks to its end.
pub fn rar_hint<D: BlockDevice>(device: &D, file_offset: u64) -> (r: Option<u64>)
    requires addressable(device.contents()), file_offset <= 0x7FFF_FFFF_FFFF_FFFF,
    ensures (device.healthy() || r is Some) ==> r == rar_spec(device.contents(), file_offset as int),
{
    let s = read_dev(device, file_offset, 8)?;
    if s.len() < 7 || !matches_at(&s, 0, &[0x52, 0x61, 0x72, 0x21, 0x1A, 0x07]) {
        return None;
    }
    if s[6] == 0 {
        rar4_walk_of(device, file_offset)
    } else if s.len() >= 8 && s[6] == 1 && s[7] == 0 {
        rar5_walk_of(device, file_offset)
    } else {
        None
    }
}

} // verus!
