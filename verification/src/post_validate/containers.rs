//! Whole-file structural checks for container formats: RIFF/AIFF, Windows
//! PE executables, ISO base media files (MP4, MOV, HEIC, …) and EBML
//! (Matroska / WebM).
use vstd::prelude::*;
use crate::bytes::{
    be32, be64, is_print, le16, le32, occurs_at, u32_at, matches_at, print, rd_be32, rd_be64, rd_le16,
    rd_le32, rd_u32,
};
use super::{CarveQuality, verdict};

verus! {

/// `s[i..i+4]` are printable ASCII (a well-formed four-character code).
pub open spec fn print4(s: Seq<u8>, i: int) -> bool {
    is_print(s[i]) && is_print(s[i + 1]) && is_print(s[i + 2]) && is_print(s[i + 3])
}

fn code_printable(s: &[u8], i: usize) -> (r: bool)
    requires i + 4 <= s.len(),
    ensures r == print4(s@, i as int),
{
    print(s[i]) && print(s[i + 1]) && print(s[i + 2]) && print(s[i + 3])
}

// ── RIFF / AIFF ──────────────────────────────────────────────────────────────

/// Sound chunks among the (at most `10 - iter`) chunks walked from `pos`:
/// a chunk is sound when its code is printable and its size below the file
/// size; walking stops at a header past the end or a chunk (padded to even
/// length) running past it.
pub open spec fn riff_chunks(f: Seq<u8>, le: bool, pos: int, iter: int) -> int
    decreases 10 - iter,
{
    if iter >= 10 || pos + 8 > f.len() {
        0
    } else {
        let size = u32_at(f, pos + 4, le);
        let next = pos + 8 + size + size % 2;
        (if print4(f, pos) && size < f.len() { 1int } else { 0 })
            + if next > f.len() { 0 } else { riff_chunks(f, le, next, iter + 1) }
    }
}

/// RIFF (little-endian sizes) or FORM (big-endian, AIFF): a printable form
/// type and at least 3 sound chunks among the first 10.
pub open spec fn riff_file_quality(f: Seq<u8>) -> CarveQuality {
    let riff = occurs_at(f, 0, seq![0x52u8, 0x49, 0x46, 0x46]);
    let form = occurs_at(f, 0, seq![0x46u8, 0x4F, 0x52, 0x4D]);
    if f.len() < 12 || !(riff || form) || !print4(f, 8) {
        CarveQuality::Corrupt
    } else {
        verdict(riff_chunks(f, riff, 12, 0) >= 3)
    }
}

proof fn lemma_riff_chunks_bound(f: Seq<u8>, le: bool, pos: int, iter: int)
    ensures 0 <= riff_chunks(f, le, pos, iter) <= if iter < 10 { 10 - iter } else { 0 },
    decreases 10 - iter,
{
    if !(iter >= 10 || pos + 8 > f.len()) {
        lemma_riff_chunks_bound(f, le, pos + 8 + u32_at(f, pos + 4, le) + u32_at(f, pos + 4, le) % 2, iter + 1);
    }
}

/// Checks a whole RIFF-family file (WAV, AVI, WebP) or AIFF/AIFC.
pub fn check_riff_file(f: &[u8]) -> (r: CarveQuality)
    ensures r == riff_file_quality(f@),
{
    if f.len() < 12 {
        return CarveQuality::Corrupt;
    }
    let le = if matches_at(f, 0, &[0x52, 0x49, 0x46, 0x46]) {
        true
    } else if matches_at(f, 0, &[0x46, 0x4F, 0x52, 0x4D]) {
        false
    } else {
        return CarveQuality::Corrupt;
    };
    if !code_printable(f, 8) {
        return CarveQuality::Corrupt;
    }
    let fs = f.len() as u64;
    let mut valid: u64 = 0;
    let mut pos: u64 = 12;
    let mut iter: u64 = 0;
    let ghost total = riff_chunks(f@, le, 12, 0);
    proof { lemma_riff_chunks_bound(f@, le, 12, 0); }
    while iter < 10
        invariant_except_break
            valid + riff_chunks(f@, le, pos as int, iter as int) == total,
        invariant
            fs == f.len(),
            pos <= fs,
            valid <= iter,
            le == occurs_at(f@, 0, seq![0x52u8, 0x49, 0x46, 0x46]),
        ensures
            valid == total,
        decreases 10 - iter,
    {
        if fs - pos < 8 {
            break;
        }
        let p = pos as usize;
        let size = rd_u32(f, p + 4, le) as u64;
        proof {
            lemma_riff_chunks_bound(f@, le, pos + 8 + size + size % 2, iter + 1);
        }
        if code_printable(f, p) && size < fs {
            valid += 1;
        }
        let padded = size + size % 2;
        iter += 1;
        if padded > fs - pos - 8 {
            break;
        }
        pos = pos + 8 + padded;
    }
    if valid >= 3 { CarveQuality::Complete } else { CarveQuality::Corrupt }
}

// ── PE executable ────────────────────────────────────────────────────────────

/// Section header at `o` is sound: a name of printable or NUL bytes and a
/// raw-data extent that is empty or ends within the file.
pub open spec fn pe_section_ok(f: Seq<u8>, o: int) -> bool {
    (forall|j: int| 0 <= j < 8 ==> is_print(#[trigger] f[o + j]) || f[o + j] == 0)
        && (le32(f, o + 16) == 0 || le32(f, o + 20) + le32(f, o + 16) <= f.len())
}

/// Number of sound section headers among `k` consecutive ones from `o`.
pub open spec fn pe_sections(f: Seq<u8>, o: int, k: int) -> int
    decreases k,
{
    if k <= 0 { 0 } else { (if pe_section_ok(f, o) { 1int } else { 0 }) + pe_sections(f, o + 40, k - 1) }
}

/// PE: `MZ`, a PE header at `e_lfanew` ∈ `[64, size − 24]` with signature
/// `PE\0\0`, 1–96 sections, an optional header of at most 8 KiB, a section
/// table within the file, and more than half of the first 32 sections sound.
pub open spec fn exe_file_quality(f: Seq<u8>) -> CarveQuality {
    if f.len() < 64 || !occurs_at(f, 0, seq![0x4Du8, 0x5A]) {
        CarveQuality::Corrupt
    } else {
        let e = le32(f, 60);
        if e < 64 || e + 24 > f.len() || !occurs_at(f, e, seq![0x50u8, 0x45, 0x00, 0x00]) {
            CarveQuality::Corrupt
        } else {
            let ns = le16(f, e + 6);
            let oh = le16(f, e + 20);
            let table = e + 24 + oh;
            if ns == 0 || ns > 96 || oh > 8192 || table + ns * 40 > f.len() {
                CarveQuality::Corrupt
            } else {
                let k = if ns < 32 { ns } else { 32 };
                verdict(pe_sections(f, table, k) * 2 > k)
            }
        }
    }
}

proof fn lemma_pe_sections_bound(f: Seq<u8>, o: int, k: int)
    requires k >= 0,
    ensures 0 <= pe_sections(f, o, k) <= k,
    decreases k,
{
    if k > 0 {
        lemma_pe_sections_bound(f, o + 40, k - 1);
    }
}

fn section_ok(f: &[u8], o: usize) -> (r: bool)
    requires o + 40 <= f.len(),
    ensures r == pe_section_ok(f@, o as int),
{
    let mut j: usize = 0;
    while j < 8
        invariant
            j <= 8,
            o + 40 <= f.len(),
            forall|m: int| 0 <= m < j ==> is_print(#[trigger] f@[o + m]) || f@[o + m] == 0,
        decreases 8 - j,
    {
        if !(print(f[o + j]) || f[o + j] == 0) {
            return false;
        }
        j += 1;
    }
    let size_raw = rd_le32(f, o + 16) as u64;
    let ptr_raw = rd_le32(f, o + 20) as u64;
    size_raw == 0 || ptr_raw + size_raw <= f.len() as u64
}

/// Checks a whole Windows PE executable / DLL.
pub fn check_exe_file(f: &[u8]) -> (r: CarveQuality)
    ensures r == exe_file_quality(f@),
{
    if f.len() < 64 || !matches_at(f, 0, &[0x4D, 0x5A]) {
        return CarveQuality::Corrupt;
    }
    let fs = f.len() as u64;
    let e = rd_le32(f, 60) as u64;
    if e < 64 || e + 24 > fs || !matches_at(f, e as usize, &[0x50, 0x45, 0x00, 0x00]) {
        return CarveQuality::Corrupt;
    }
    let ns = rd_le16(f, e as usize + 6) as u64;
    let oh = rd_le16(f, e as usize + 20) as u64;
    let table = e + 24 + oh;
    if ns == 0 || ns > 96 || oh > 8192 || table + ns * 40 > fs {
        return CarveQuality::Corrupt;
    }
    let k: u64 = if ns < 32 { ns } else { 32 };
    let ghost total = pe_sections(f@, table as int, k as int);
    let mut valid: u64 = 0;
    let mut i: u64 = 0;
    proof { lemma_pe_sections_bound(f@, table as int, k as int); }
    while i < k
        invariant
            i <= k <= ns,
            table + ns * 40 <= f.len(),
            valid <= i,
            valid + pe_sections(f@, table + 40 * i, (k - i) as int) == total,
        decreases k - i,
    {
        proof { lemma_pe_sections_bound(f@, table + 40 * i + 40, (k - i - 1) as int); }
        if section_ok(f, (table + 40 * i) as usize) {
            valid += 1;
        }
        i += 1;
    }
    if valid * 2 > k { CarveQuality::Complete } else { CarveQuality::Corrupt }
}

// ── ISO base media file format ───────────────────────────────────────────────

/// Box type `ftyp`.
pub open spec fn ftyp() -> Seq<u8> { seq![0x66u8, 0x74, 0x79, 0x70] }

/// Box type `moov`.
pub open spec fn moov() -> Seq<u8> { seq![0x6Du8, 0x6F, 0x6F, 0x76] }

/// Box type `mdat`.
pub open spec fn mdat() -> Seq<u8> { seq![0x6Du8, 0x64, 0x61, 0x74] }

/// Walk of at most `64 - iter` top-level boxes from `pos`: every box header
/// met has a printable type and a size (0 = to the end, 1 = 64-bit size of
/// at least 16 that follows, else at least 8) that stays within the file;
/// the walk ends at the box limit or a header past the end, and succeeds
/// when an `ftyp` and a `moov` or `mdat` box were met.
pub open spec fn iso_boxes_ok(f: Seq<u8>, pos: int, iter: int, has_ftyp: bool, has_media: bool) -> bool
    decreases 64 - iter,
{
    if iter >= 64 || pos + 8 > f.len() {
        has_ftyp && has_media
    } else if !print4(f, pos + 4) {
        false
    } else {
        let raw = be32(f, pos);
        let size = if raw == 0 { f.len() - pos } else if raw == 1 { be64(f, pos + 8) } else { raw };
        if (raw == 1 && (pos + 16 > f.len() || size < 16)) || (raw > 1 && raw < 8) || pos + size > f.len() {
            false
        } else {
            iso_boxes_ok(
                f,
                pos + size,
                iter + 1,
                has_ftyp || occurs_at(f, pos + 4, ftyp()),
                has_media || occurs_at(f, pos + 4, moov()) || occurs_at(f, pos + 4, mdat()),
            )
        }
    }
}

/// ISOBMFF: a sound top-level box walk holding `ftyp` and `moov`/`mdat`.
pub open spec fn isobmff_file_quality(f: Seq<u8>) -> CarveQuality {
    verdict(iso_boxes_ok(f, 0, 0, false, false))
}

/// Checks a whole ISOBMFF file (MP4, MOV, M4V, 3GP, M4A, HEIC, CR3).
pub fn check_isobmff_file(f: &[u8]) -> (r: CarveQuality)
    ensures r == isobmff_file_quality(f@),
{
    let fs = f.len() as u64;
    let mut has_ftyp = false;
    let mut has_media = false;
    let mut pos: u64 = 0;
    let mut iter: u64 = 0;
    while iter < 64
        invariant
            fs == f.len(),
            pos <= fs,
            iso_boxes_ok(f@, pos as int, iter as int, has_ftyp, has_media) == iso_boxes_ok(f@, 0, 0, false, false),
        ensures
            iso_boxes_ok(f@, pos as int, iter as int, has_ftyp, has_media) == (has_ftyp && has_media),
            iso_boxes_ok(f@, pos as int, iter as int, has_ftyp, has_media) == iso_boxes_ok(f@, 0, 0, false, false),
        decreases 64 - iter,
    {
        if fs - pos < 8 {
            break;
        }
        let p = pos as usize;
        if !code_printable(f, p + 4) {
            return CarveQuality::Corrupt;
        }
        let raw = rd_be32(f, p) as u64;
        let size: u64 = if raw == 0 {
            fs - pos
        } else if raw == 1 {
            if fs - pos < 16 {
                return CarveQuality::Corrupt;
            }
            let sz = rd_be64(f, p + 8);
            if sz < 16 || sz > fs - pos {
                return CarveQuality::Corrupt;
            }
            sz
        } else if raw < 8 {
            return CarveQuality::Corrupt;
        } else {
            if raw > fs - pos {
                return CarveQuality::Corrupt;
            }
            raw
        };
        if matches_at(f, p + 4, &[0x66, 0x74, 0x79, 0x70]) {
            has_ftyp = true;
        }
        if matches_at(f, p + 4, &[0x6D, 0x6F, 0x6F, 0x76]) || matches_at(f, p + 4, &[0x6D, 0x64, 0x61, 0x74]) {
            has_media = true;
        }
        pos = pos + size;
        iter += 1;
    }
    if has_ftyp && has_media { CarveQuality::Complete } else { CarveQuality::Corrupt }
}

// ── EBML (Matroska / WebM) ───────────────────────────────────────────────────

/// Width in bytes of the EBML variable-size integer whose first byte is `b`
/// (one more than its count of leading zero bits); 0 for `b == 0`.
pub open spec fn vint_width(b: u8) -> int {
    if b >= 128 {
        1
    } else if b >= 64 {
        2
    } else if b >= 32 {
        3
    } else if b >= 16 {
        4
    } else if b >= 8 {
        5
    } else if b >= 4 {
        6
    } else if b >= 2 {
        7
    } else if b >= 1 {
        8
    } else {
        0
    }
}

/// The length-marker bit of a first byte of width `w`: `1 << (8 - w)`.
pub open spec fn vint_marker(w: int) -> int {
    if w == 1 {
        128
    } else if w == 2 {
        64
    } else if w == 3 {
        32
    } else if w == 4 {
        16
    } else if w == 5 {
        8
    } else if w == 6 {
        4
    } else if w == 7 {
        2
    } else {
        1
    }
}

/// Value of a width-`w` integer at `o` after its first `i + 1` bytes: the
/// first byte without its marker bit, then each further byte appended.
pub open spec fn vint_prefix(d: Seq<u8>, o: int, w: int, i: int) -> int
    decreases i,
{
    if i <= 0 { d[o] - vint_marker(w) } else { vint_prefix(d, o, w, i - 1) * 256 + d[o + i] }
}

/// The EBML variable-size integer at `d[o..]`: (value, width), or `None`
/// when `o` is out of range, the first byte is 0, or the bytes run out.
pub open spec fn vint_at(d: Seq<u8>, o: int) -> Option<(int, int)> {
    if o < 0 || o >= d.len() || d[o] == 0 || o + vint_width(d[o]) > d.len() {
        None
    } else {
        Some((vint_prefix(d, o, vint_width(d[o]), vint_width(d[o]) - 1), vint_width(d[o])))
    }
}

/// `256^k`.
pub open spec fn pow256(k: int) -> int
    decreases k,
{
    if k <= 0 { 1 } else { 256 * pow256(k - 1) }
}

proof fn lemma_vint_prefix_bound(d: Seq<u8>, o: int, w: int, i: int)
    requires
        1 <= w <= 8,
        0 <= i < w,
        0 <= o,
        o + w <= d.len(),
        vint_marker(w) <= d[o] < 2 * vint_marker(w),
    ensures 0 <= vint_prefix(d, o, w, i) < vint_marker(w) * pow256(i),
    decreases i,
{
    reveal_with_fuel(pow256, 2);
    if i > 0 {
        lemma_vint_prefix_bound(d, o, w, i - 1);
        let p = vint_prefix(d, o, w, i - 1);
        let m = vint_marker(w);
        let q = pow256(i - 1);
        let b = d[o + i] as int;
        assert(pow256(i) == 256 * q);
        assert(p * 256 + b < m * pow256(i)) by (nonlinear_arith)
            requires p < m * q, 0 <= b < 256, pow256(i) == 256 * q, m >= 1;
    }
}

proof fn lemma_pow256_mono(i: int, j: int)
    requires 0 <= i <= j,
    ensures 1 <= pow256(i) <= pow256(j),
    decreases j,
{
    if j > i {
        lemma_pow256_mono(i, j - 1);
    } else if i > 0 {
        lemma_pow256_mono(i - 1, i - 1);
    }
}

/// Every width-`w` value, and every prefix of one, stays below `2^56`.
proof fn lemma_vint_cap(w: int, i: int)
    requires 1 <= w <= 8, 0 <= i < w,
    ensures
        vint_marker(w) * pow256(i) <= 0x100_0000_0000_0000,
        vint_marker(w) * pow256(w - 1) == vint_unknown(w) + 1,
{
    reveal_with_fuel(pow256, 9);
    lemma_pow256_mono(i, w - 1);
    let m = vint_marker(w);
    assert(m * pow256(w - 1) <= 0x100_0000_0000_0000) by {
        if w == 1 { } else if w == 2 { } else if w == 3 { } else if w == 4 { }
        else if w == 5 { } else if w == 6 { } else if w == 7 { } else { }
    }
    assert(m * pow256(i) <= m * pow256(w - 1)) by (nonlinear_arith)
        requires pow256(i) <= pow256(w - 1), m >= 1;
}

/// Decode the EBML variable-size integer at `data[offset..]`, giving its
/// value and the number of bytes it occupies.
pub fn read_vint(data: &[u8], offset: usize) -> (r: Option<(u64, usize)>)
    ensures
        match r {
            Some((v, w)) => vint_at(data@, offset as int) == Some((v as int, w as int)),
            None => vint_at(data@, offset as int) is None,
        },
{
    if offset >= data.len() {
        return None;
    }
    let first = data[offset];
    if first == 0 {
        return None;
    }
    let (width, marker): (usize, u8) = if first >= 128 {
        (1, 128)
    } else if first >= 64 {
        (2, 64)
    } else if first >= 32 {
        (3, 32)
    } else if first >= 16 {
        (4, 16)
    } else if first >= 8 {
        (5, 8)
    } else if first >= 4 {
        (6, 4)
    } else if first >= 2 {
        (7, 2)
    } else {
        (8, 1)
    };
    if width > data.len() - offset {
        return None;
    }
    let mut value: u64 = (first - marker) as u64;
    let mut i: usize = 1;
    while i < width
        invariant
            1 <= i <= width <= 8,
            offset + width <= data.len(),
            width == vint_width(first),
            marker == vint_marker(width as int),
            first == data@[offset as int],
            value == vint_prefix(data@, offset as int, width as int, i - 1),
        decreases width - i,
    {
        proof {
            lemma_vint_prefix_bound(data@, offset as int, width as int, i - 1);
            lemma_vint_cap(width as int, i as int);
            reveal_with_fuel(pow256, 2);
            let m = vint_marker(width as int);
            let q = pow256(i - 1);
            assert(value * 256 + 255 < m * pow256(i as int)) by (nonlinear_arith)
                requires value < m * q, pow256(i as int) == 256 * q;
        }
        value = value * 256 + data[offset + i] as u64;
        i += 1;
    }
    Some((value, width))
}

/// EBML element ID `1A 45 DF A3`.
pub open spec fn ebml_id() -> Seq<u8> { seq![0x1Au8, 0x45, 0xDF, 0xA3] }

/// Segment element ID `18 53 80 67`.
pub open spec fn segment_id() -> Seq<u8> { seq![0x18u8, 0x53, 0x80, 0x67] }

/// The "unknown size" value of a width-`w` integer: all value bits set.
pub open spec fn vint_unknown(w: int) -> int {
    vint_marker(w) * pow256(w - 1) - 1
}

/// The bytes where the Segment header is read: from `seg_off` to the end of
/// the first 64 bytes when at least 5 lie there, else up to 16 bytes from
/// `seg_off`.
pub open spec fn segment_window(f: Seq<u8>, seg_off: int) -> Seq<u8> {
    let n = if f.len() < 64 { f.len() as int } else { 64 };
    if seg_off + 5 <= n {
        f.subrange(seg_off, n)
    } else if seg_off + 5 <= f.len() {
        f.subrange(seg_off, if seg_off + 16 <= f.len() { seg_off + 16 } else { f.len() as int })
    } else {
        Seq::empty()
    }
}

/// EBML: the EBML header ID and size, then a Segment ID with a readable
/// size that is neither the "unknown" value nor zero.
pub open spec fn ebml_file_quality(f: Seq<u8>) -> CarveQuality {
    let n = if f.len() < 64 { f.len() as int } else { 64 };
    if n < 12 || !occurs_at(f, 0, ebml_id()) {
        CarveQuality::Corrupt
    } else {
        match vint_at(f.subrange(0, n), 4) {
            None => CarveQuality::Corrupt,
            Some((hs, hw)) => {
                let s = segment_window(f, 4 + hw + hs);
                if s.len() < 5 || !occurs_at(s, 0, segment_id()) {
                    CarveQuality::Corrupt
                } else {
                    match vint_at(s, 4) {
                        None => CarveQuality::Corrupt,
                        Some((ss, sw)) => verdict(ss != vint_unknown(sw) && ss != 0),
                    }
                }
            },
        }
    }
}

pub fn unknown_size(w: usize) -> (r: u64)
    requires 1 <= w <= 8,
    ensures r == vint_unknown(w as int),
{
    proof { lemma_vint_cap(w as int, 0); reveal_with_fuel(pow256, 9); }
    if w == 1 {
        0x7F
    } else if w == 2 {
        0x3FFF
    } else if w == 3 {
        0x1F_FFFF
    } else if w == 4 {
        0x0FFF_FFFF
    } else if w == 5 {
        0x07_FFFF_FFFF
    } else if w == 6 {
        0x03FF_FFFF_FFFF
    } else if w == 7 {
        0x01_FFFF_FFFF_FFFF
    } else {
        0x00FF_FFFF_FFFF_FFFF
    }
}

/// Checks a whole EBML file (MKV, WebM).
pub fn check_ebml_file(f: &[u8]) -> (r: CarveQuality)
    ensures r == ebml_file_quality(f@),
{
    let n: usize = if f.len() < 64 { f.len() } else { 64 };
    if n < 12 || !matches_at(f, 0, &[0x1A, 0x45, 0xDF, 0xA3]) {
        return CarveQuality::Corrupt;
    }
    let buf = &f[0..n];
    let (hs, hw) = match read_vint(buf, 4) {
        None => return CarveQuality::Corrupt,
        Some(x) => x,
    };
    proof { lemma_vint_width_range(buf@, 4); }
    let seg_off: u64 = 4 + hw as u64 + hs;
    let s: &[u8] = if seg_off + 5 <= n as u64 {
        &f[seg_off as usize..n]
    } else if seg_off + 5 <= f.len() as u64 {
        let hi: usize = if seg_off + 16 <= f.len() as u64 { seg_off as usize + 16 } else { f.len() };
        &f[seg_off as usize..hi]
    } else {
        return CarveQuality::Corrupt;
    };
    assert(s@ == segment_window(f@, seg_off as int));
    if s.len() < 5 || !matches_at(s, 0, &[0x18, 0x53, 0x80, 0x67]) {
        return CarveQuality::Corrupt;
    }
    match read_vint(s, 4) {
        None => CarveQuality::Corrupt,
        Some((ss, sw)) => {
            proof { lemma_vint_width_range(s@, 4); }
            if ss != unknown_size(sw) && ss != 0 { CarveQuality::Complete } else { CarveQuality::Corrupt }
        },
    }
}

pub(crate) proof fn lemma_vint_width_range(d: Seq<u8>, o: int)
    ensures
        vint_at(d, o) matches Some((v, w)) ==> 1 <= w <= 8 && 0 <= v < 0x100_0000_0000_0000,
{
    if let Some((v, w)) = vint_at(d, o) {
        lemma_vint_prefix_bound(d, o, w, w - 1);
        lemma_vint_cap(w, w - 1);
    }
}

} // verus!
