//! Whole-file structural checks for FLAC audio, ELF binaries and TIFF-based
//! images (TIFF, NEF, ARW, CR2, RW2, ORF, PEF, SR2, DCR).
use vstd::prelude::*;
use crate::bytes::{
    occurs_at, sat_add, u16_at, u32_at, u64_at, matches_at, rd_u16, rd_u32, rd_u64,
};
use super::{CarveQuality, verdict};

verus! {

// ── FLAC ─────────────────────────────────────────────────────────────────────

/// Walk of the FLAC metadata blocks from `pos`, `count` blocks having been
/// accepted already.  Each 4-byte block header must lie in the file with a
/// defined type (0–6) and a body that ends within the file; the first block
/// must be a 34-byte STREAMINFO (type 0).  The walk succeeds at the block
/// flagged last, or once 16 blocks have been accepted.
pub open spec fn flac_blocks_ok(f: Seq<u8>, pos: int, count: int) -> bool
    decreases 16 - count,
{
    if count < 0 || count >= 16 || pos < 0 || pos + 4 > f.len() {
        false
    } else {
        let h = f[pos];
        let ty = h % 128;
        let len = f[pos + 1] * 65536 + f[pos + 2] * 256 + f[pos + 3];
        let next = pos + 4 + len;
        if ty > 6 || (count == 0 && (ty != 0 || len != 34)) || next > f.len() {
            false
        } else if h >= 128 || count + 1 >= 16 {
            true
        } else {
            flac_blocks_ok(f, next, count + 1)
        }
    }
}

/// FLAC: `fLaC` then a sound metadata block chain.
pub open spec fn flac_file_quality(f: Seq<u8>) -> CarveQuality {
    verdict(occurs_at(f, 0, seq![0x66u8, 0x4C, 0x61, 0x43]) && flac_blocks_ok(f, 4, 0))
}

/// Checks a whole FLAC file by walking its metadata block chain.
pub fn check_flac_file(f: &[u8]) -> (r: CarveQuality)
    ensures r == flac_file_quality(f@),
{
    if !matches_at(f, 0, &[0x66, 0x4C, 0x61, 0x43]) {
        return CarveQuality::Corrupt;
    }
    let mut pos: usize = 4;
    let mut count: usize = 0;
    loop
        invariant
            count < 16,
            occurs_at(f@, 0, seq![0x66u8, 0x4C, 0x61, 0x43]),
            flac_blocks_ok(f@, pos as int, count as int) == flac_blocks_ok(f@, 4, 0),
        decreases 16 - count,
    {
        if pos > f.len() || f.len() - pos < 4 {
            return CarveQuality::Corrupt;
        }
        let h = f[pos];
        let ty = h % 128;
        let len = f[pos + 1] as usize * 65536 + f[pos + 2] as usize * 256 + f[pos + 3] as usize;
        if ty > 6 || (count == 0 && (ty != 0 || len != 34)) || len > f.len() - pos - 4 {
            return CarveQuality::Corrupt;
        }
        if h >= 128 || count + 1 >= 16 {
            return CarveQuality::Complete;
        }
        pos = pos + 4 + len;
        count += 1;
    }
}

// ── ELF ──────────────────────────────────────────────────────────────────────

/// A program header at `off` is sound: its file extent is empty or ends
/// within the file.
pub open spec fn elf_ph_ok(f: Seq<u8>, wide: bool, le: bool, off: int) -> bool {
    let (p_offset, p_filesz) = if wide {
        (u64_at(f, off + 8, le), u64_at(f, off + 32, le))
    } else {
        (u32_at(f, off + 4, le), u32_at(f, off + 16, le))
    };
    p_filesz == 0 || sat_add(p_offset, p_filesz) <= f.len()
}

/// Number of sound program headers among `k` consecutive ones of `step`
/// bytes starting at `off`.
pub open spec fn elf_ph_count(f: Seq<u8>, wide: bool, le: bool, off: int, step: int, k: int) -> int
    decreases k,
{
    if k <= 0 {
        0
    } else {
        (if elf_ph_ok(f, wide, le, off) { 1int } else { 0 }) + elf_ph_count(f, wide, le, off + step, step, k - 1)
    }
}

/// ELF: magic, a known class and byte order, a complete file header, then —
/// unless there are no program headers — at most 256 of them of the size
/// the class prescribes, all within the file, of which more than half of
/// the first 16 are sound.
pub open spec fn elf_file_quality(f: Seq<u8>) -> CarveQuality {
    if f.len() < 16 || !occurs_at(f, 0, seq![0x7Fu8, 0x45, 0x4C, 0x46]) || (f[4] != 1 && f[4] != 2)
        || (f[5] != 1 && f[5] != 2) {
        CarveQuality::Corrupt
    } else {
        let wide = f[4] == 2;
        let le = f[5] == 1;
        if f.len() < if wide { 64int } else { 52 } {
            CarveQuality::Corrupt
        } else {
            let phoff = if wide { u64_at(f, 32, le) } else { u32_at(f, 28, le) };
            let phentsize = if wide { u16_at(f, 54, le) } else { u16_at(f, 42, le) };
            let phnum = if wide { u16_at(f, 56, le) } else { u16_at(f, 44, le) };
            if phnum == 0 {
                CarveQuality::Complete
            } else if phnum > 256 || phentsize != (if wide { 56int } else { 32 })
                || phoff + phnum * phentsize > f.len() {
                CarveQuality::Corrupt
            } else {
                let k = if phnum < 16 { phnum } else { 16 };
                verdict(elf_ph_count(f, wide, le, phoff, phentsize, k) * 2 > k)
            }
        }
    }
}

proof fn lemma_elf_count_bounds(f: Seq<u8>, wide: bool, le: bool, off: int, step: int, k: int)
    requires k >= 0,
    ensures 0 <= elf_ph_count(f, wide, le, off, step, k) <= k,
    decreases k,
{
    if k > 0 {
        lemma_elf_count_bounds(f, wide, le, off + step, step, k - 1);
    }
}

/// Checks a whole ELF binary: header sanity and program header extents.
pub fn check_elf_file(f: &[u8]) -> (r: CarveQuality)
    ensures r == elf_file_quality(f@),
{
    if f.len() < 16 || !matches_at(f, 0, &[0x7F, 0x45, 0x4C, 0x46]) {
        return CarveQuality::Corrupt;
    }
    let class = f[4];
    let data = f[5];
    if (class != 1 && class != 2) || (data != 1 && data != 2) {
        return CarveQuality::Corrupt;
    }
    let wide = class == 2;
    let le = data == 1;
    let hdr_size: usize = if wide { 64 } else { 52 };
    if f.len() < hdr_size {
        return CarveQuality::Corrupt;
    }
    let phoff: u64 = if wide { rd_u64(f, 32, le) } else { rd_u32(f, 28, le) as u64 };
    let phentsize: u64 = if wide { rd_u16(f, 54, le) as u64 } else { rd_u16(f, 42, le) as u64 };
    let phnum: u64 = if wide { rd_u16(f, 56, le) as u64 } else { rd_u16(f, 44, le) as u64 };
    if phnum == 0 {
        return CarveQuality::Complete;
    }
    if phnum > 256 {
        return CarveQuality::Corrupt;
    }
    let expected: u64 = if wide { 56 } else { 32 };
    if phentsize != expected {
        return CarveQuality::Corrupt;
    }
    assert(phnum * phentsize <= 256 * 56) by (nonlinear_arith)
        requires phnum <= 256, phentsize <= 56;
    let need = phnum * phentsize;
    if need > f.len() as u64 || phoff > f.len() as u64 - need {
        return CarveQuality::Corrupt;
    }
    let k: u64 = if phnum < 16 { phnum } else { 16 };
    let ghost total = elf_ph_count(f@, wide, le, phoff as int, phentsize as int, k as int);
    let mut valid: u64 = 0;
    let mut off: u64 = phoff;
    let mut i: u64 = 0;
    assert((k - 0) * phentsize <= phnum * phentsize) by (nonlinear_arith)
        requires k <= phnum;
    proof { lemma_elf_count_bounds(f@, wide, le, phoff as int, phentsize as int, k as int); }
    while i < k
        invariant
            i <= k <= 16,
            phentsize == expected,
            expected == (if wide { 56u64 } else { 32 }),
            off + (k - i) * phentsize <= f.len(),
            valid <= i,
            valid + elf_ph_count(f@, wide, le, off as int, phentsize as int, (k - i) as int) == total,
        decreases k - i,
    {
        assert((k - i) * phentsize == (k - i - 1) * phentsize + phentsize) by (nonlinear_arith)
            requires i < k;
        assert((k - i - 1) * phentsize >= 0) by (nonlinear_arith)
            requires i < k;
        proof { lemma_elf_count_bounds(f@, wide, le, off + phentsize, phentsize as int, (k - i - 1) as int); }
        let o = off as usize;
        let (p_offset, p_filesz) = if wide {
            (rd_u64(f, o + 8, le), rd_u64(f, o + 32, le))
        } else {
            (rd_u32(f, o + 4, le) as u64, rd_u32(f, o + 16, le) as u64)
        };
        if p_filesz == 0 || p_offset.saturating_add(p_filesz) <= f.len() as u64 {
            valid += 1;
        }
        off = off + phentsize;
        i += 1;
    }
    if valid * 2 > k { CarveQuality::Complete } else { CarveQuality::Corrupt }
}

// ── TIFF ─────────────────────────────────────────────────────────────────────

/// Bytes per element of a TIFF field type (1–12); 0 for an unknown type.
pub open spec fn tiff_type_size(t: int) -> int {
    if t == 1 || t == 2 || t == 6 || t == 7 {
        1
    } else if t == 3 || t == 8 {
        2
    } else if t == 4 || t == 9 || t == 11 {
        4
    } else if t == 5 || t == 10 || t == 12 {
        8
    } else {
        0
    }
}

/// The IFD entry at `ep`: whether it is sound (known type, and data stored
/// outside the entry lies within the file), and the SubIFD it links to
/// (tag `0x014A` with an out-of-entry pointer inside the file), if any.
pub open spec fn tiff_entry(f: Seq<u8>, le: bool, ep: int) -> (bool, Option<u64>) {
    let tag = u16_at(f, ep, le);
    let tsz = tiff_type_size(u16_at(f, ep + 2, le));
    let data_bytes = u32_at(f, ep + 4, le) * tsz;
    let ext = u32_at(f, ep + 8, le);
    if tsz == 0 {
        (false, None)
    } else if data_bytes > 4 {
        (ext + data_bytes <= f.len(), if tag == 0x014A && ext > 0 && ext < f.len() { Some(ext as u64) } else { None })
    } else {
        (true, None)
    }
}

/// Entries `i..n` of the IFD at `ifd`, up to the first one not wholly in
/// the file: (entries seen, sound entries, SubIFD links in order).
pub open spec fn tiff_entries(f: Seq<u8>, le: bool, ifd: int, i: int, n: int) -> (int, int, Seq<u64>)
    decreases n - i,
{
    if i >= n || ifd + 2 + 12 * i + 12 > f.len() {
        (0, 0, Seq::empty())
    } else {
        let e = tiff_entry(f, le, ifd + 2 + 12 * i);
        let rest = tiff_entries(f, le, ifd, i + 1, n);
        (
            1 + rest.0,
            (if e.0 { 1int } else { 0 }) + rest.1,
            match e.1 {
                Some(x) => seq![x] + rest.2,
                None => rest.2,
            },
        )
    }
}

/// The next-IFD link after `count` entries of the IFD at `ifd`, when it is
/// in the file and points inside it.
pub open spec fn tiff_next_link(f: Seq<u8>, le: bool, ifd: int, count: int) -> Seq<u64> {
    let np = ifd + 2 + count * 12;
    if np + 4 <= f.len() && u32_at(f, np, le) > 0 && u32_at(f, np, le) < f.len() {
        seq![u32_at(f, np, le) as u64]
    } else {
        Seq::empty()
    }
}

/// Depth-first walk of the IFD graph: `queue` holds IFD offsets still to
/// visit (the last is taken first), `visited` those already walked (at most
/// 16).  An IFD is walked when its offset is non-zero, inside the file, new,
/// and its entry count in `[1, 1000]`; at most 64 of its entries are
/// examined, then its SubIFD links and its next link are queued.  Gives
/// (entries seen, sound entries).
pub open spec fn tiff_walk(f: Seq<u8>, le: bool, queue: Seq<u64>, visited: Seq<u64>, total: int, valid: int) -> (int, int)
    decreases 16 - visited.len(), queue.len(),
{
    if visited.len() > 16 || queue.len() == 0 {
        (total, valid)
    } else {
        let off = queue.last();
        let q = queue.drop_last();
        if off == 0 || off >= f.len() || visited.contains(off) || visited.len() >= 16 {
            tiff_walk(f, le, q, visited, total, valid)
        } else if off + 2 > f.len() || u16_at(f, off as int, le) == 0 || u16_at(f, off as int, le) > 1000 {
            tiff_walk(f, le, q, visited.push(off), total, valid)
        } else {
            let count = u16_at(f, off as int, le);
            let e = tiff_entries(f, le, off as int, 0, if count < 64 { count } else { 64 });
            tiff_walk(
                f,
                le,
                q + e.2 + tiff_next_link(f, le, off as int, count),
                visited.push(off),
                total + e.0,
                valid + e.1,
            )
        }
    }
}

/// TIFF: byte-order mark `II`/`MM`, magic 42 (or 85 for RW2), a first IFD
/// inside the file, and more than half of the IFD entries walked sound.
pub open spec fn tiff_file_quality(f: Seq<u8>) -> CarveQuality {
    if f.len() < 8 || !((f[0] == 0x49 && f[1] == 0x49) || (f[0] == 0x4D && f[1] == 0x4D)) {
        CarveQuality::Corrupt
    } else {
        let le = f[0] == 0x49;
        let ifd0 = u32_at(f, 4, le);
        if (u16_at(f, 2, le) != 0x2A && u16_at(f, 2, le) != 0x55) || ifd0 == 0 || ifd0 >= f.len() {
            CarveQuality::Corrupt
        } else {
            let w = tiff_walk(f, le, seq![ifd0 as u64], Seq::empty(), 0, 0);
            if w.0 == 0 { CarveQuality::Corrupt } else { verdict(w.1 * 2 > w.0) }
        }
    }
}

proof fn lemma_tiff_entries_bounds(f: Seq<u8>, le: bool, ifd: int, i: int, n: int)
    requires 0 <= i,
    ensures
        0 <= tiff_entries(f, le, ifd, i, n).1 <= tiff_entries(f, le, ifd, i, n).0,
        tiff_entries(f, le, ifd, i, n).0 <= if n > i { n - i } else { 0 },
        forall|j: int| 0 <= j < tiff_entries(f, le, ifd, i, n).2.len()
            ==> (#[trigger] tiff_entries(f, le, ifd, i, n).2[j]) < 0x1_0000_0000,
    decreases n - i,
{
    if !(i >= n || ifd + 2 + 12 * i + 12 > f.len()) {
        lemma_tiff_entries_bounds(f, le, ifd, i + 1, n);
        let e = tiff_entry(f, le, ifd + 2 + 12 * i);
        let rest = tiff_entries(f, le, ifd, i + 1, n);
        if let Some(x) = e.1 {
            assert forall|j: int| 0 <= j < (seq![x] + rest.2).len() implies (seq![x] + rest.2)[j] < 0x1_0000_0000 by {
                if j > 0 { assert((seq![x] + rest.2)[j] == rest.2[j - 1]); }
            }
        }
    }
}

pub(crate) fn u64_in(v: &Vec<u64>, x: u64) -> (r: bool)
    ensures r == v@.contains(x),
{
    let mut i: usize = 0;
    while i < v.len()
        invariant
            i <= v.len(),
            forall|j: int| 0 <= j < i ==> v@[j] != x,
        decreases v.len() - i,
    {
        if v[i] == x {
            return true;
        }
        i += 1;
    }
    false
}

fn tiff_type_bytes(t: u16) -> (r: u64)
    ensures r == tiff_type_size(t as int),
{
    if t == 1 || t == 2 || t == 6 || t == 7 {
        1
    } else if t == 3 || t == 8 {
        2
    } else if t == 4 || t == 9 || t == 11 {
        4
    } else if t == 5 || t == 10 || t == 12 {
        8
    } else {
        0
    }
}

/// Walks the entries of the IFD at `off`, adding SubIFD links to `queue`.
fn tiff_scan_ifd(f: &[u8], le: bool, off: u64, n: u64, queue: &mut Vec<u64>) -> (r: (u64, u64))
    requires
        off < 0x1_0000_0000,
        n <= 64,
        forall|j: int| 0 <= j < old(queue)@.len() ==> old(queue)@[j] < 0x1_0000_0000,
    ensures
        r.0 == tiff_entries(f@, le, off as int, 0, n as int).0,
        r.1 == tiff_entries(f@, le, off as int, 0, n as int).1,
        final(queue)@ == old(queue)@ + tiff_entries(f@, le, off as int, 0, n as int).2,
        forall|j: int| 0 <= j < final(queue)@.len() ==> final(queue)@[j] < 0x1_0000_0000,
{
    let ghost full = tiff_entries(f@, le, off as int, 0, n as int);
    let ghost q0 = queue@;
    let mut seen: u64 = 0;
    let mut good: u64 = 0;
    let mut i: u64 = 0;
    proof { lemma_tiff_entries_bounds(f@, le, off as int, 0, n as int); }
    while i < n
        invariant
            i <= n <= 64,
            off < 0x1_0000_0000,
            full == tiff_entries(f@, le, off as int, 0, n as int),
            seen <= i,
            good <= seen,
            seen + tiff_entries(f@, le, off as int, i as int, n as int).0 == full.0,
            good + tiff_entries(f@, le, off as int, i as int, n as int).1 == full.1,
            queue@ + tiff_entries(f@, le, off as int, i as int, n as int).2 == q0 + full.2,
            forall|j: int| 0 <= j < queue@.len() ==> queue@[j] < 0x1_0000_0000,
        ensures
            tiff_entries(f@, le, off as int, i as int, n as int) == (0int, 0int, Seq::<u64>::empty()),
        decreases n - i,
    {
        let ep = off + 2 + 12 * i;
        if ep + 12 > f.len() as u64 {
            break;
        }
        proof { lemma_tiff_entries_bounds(f@, le, off as int, i + 1, n as int); }
        let e = ep as usize;
        let tag = rd_u16(f, e, le);
        let tsz = tiff_type_bytes(rd_u16(f, e + 2, le));
        let count = rd_u32(f, e + 4, le) as u64;
        let ghost rest = tiff_entries(f@, le, off as int, i + 1, n as int);
        seen += 1;
        if tsz != 0 {
            assert(count * tsz <= 0xFFFF_FFFFu64 * 8) by (nonlinear_arith)
                requires count <= 0xFFFF_FFFFu64, tsz <= 8;
            let data_bytes = count * tsz;
            if data_bytes > 4 {
                let ext = rd_u32(f, e + 8, le) as u64;
                if ext + data_bytes <= f.len() as u64 {
                    good += 1;
                }
                if tag == 0x014A && ext > 0 && ext < f.len() as u64 {
                    assert(queue@.push(ext) + rest.2 =~= queue@ + (seq![ext] + rest.2));
                    queue.push(ext);
                }
            } else {
                good += 1;
            }
        }
        i += 1;
    }
    assert(queue@ + Seq::<u64>::empty() =~= queue@);
    (seen, good)
}

/// Checks a whole TIFF (or TIFF-based RAW) file by walking its IFD graph.
pub fn check_tiff_file(f: &[u8]) -> (r: CarveQuality)
    ensures r == tiff_file_quality(f@),
{
    if f.len() < 8 || !((f[0] == 0x49 && f[1] == 0x49) || (f[0] == 0x4D && f[1] == 0x4D)) {
        return CarveQuality::Corrupt;
    }
    let le = f[0] == 0x49;
    let magic = rd_u16(f, 2, le);
    let ifd0 = rd_u32(f, 4, le) as u64;
    if (magic != 0x2A && magic != 0x55) || ifd0 == 0 || ifd0 >= f.len() as u64 {
        return CarveQuality::Corrupt;
    }
    let mut queue: Vec<u64> = Vec::new();
    queue.push(ifd0);
    let mut visited: Vec<u64> = Vec::new();
    let mut total: u64 = 0;
    let mut valid: u64 = 0;
    let ghost result = tiff_walk(f@, le, queue@, visited@, 0, 0);
    while queue.len() > 0
        invariant
            visited@.len() <= 16,
            total <= 64 * visited@.len(),
            valid <= total,
            forall|j: int| 0 <= j < queue@.len() ==> queue@[j] < 0x1_0000_0000,
            tiff_walk(f@, le, queue@, visited@, total as int, valid as int) == result,
        decreases 16 - visited@.len(), queue@.len(),
    {
        let ghost q_before = queue@;
        let off = queue.pop().unwrap();
        assert(off == q_before.last());
        assert(queue@ == q_before.drop_last());
        if off == 0 || off >= f.len() as u64 || u64_in(&visited, off) || visited.len() >= 16 {
            continue;
        }
        if off + 2 > f.len() as u64 {
            visited.push(off);
            continue;
        }
        let count = rd_u16(f, off as usize, le) as u64;
        if count == 0 || count > 1000 {
            visited.push(off);
            continue;
        }
        visited.push(off);
        let n: u64 = if count < 64 { count } else { 64 };
        let (seen, good) = tiff_scan_ifd(f, le, off, n, &mut queue);
        proof { lemma_tiff_entries_bounds(f@, le, off as int, 0, n as int); }
        total += seen;
        valid += good;
        let np = off + 2 + count * 12;
        if np + 4 <= f.len() as u64 {
            let next = rd_u32(f, np as usize, le) as u64;
            if next > 0 && next < f.len() as u64 {
                queue.push(next);
            }
        }
        proof {
            let e = tiff_entries(f@, le, off as int, 0, n as int);
            assert(queue@ =~= q_before.drop_last() + e.2 + tiff_next_link(f@, le, off as int, count as int));
        }
    }
    if total == 0 {
        return CarveQuality::Corrupt;
    }
    if valid * 2 > total { CarveQuality::Complete } else { CarveQuality::Corrupt }
}

} // verus!
