//! Whole-file structural checks for PNG, PDF, SQLite, Windows registry hives
//! and Windows event logs.
//!
//! Each check takes the complete contents of a carved file and walks its
//! internal structure (chunk headers, page type bytes, cross-reference
//! offsets), so that damage anywhere in the file is seen, not only in a
//! fixed head or tail window.
use vstd::prelude::*;
use crate::bytes::{
    be16, be32, is_digit, le32, occurs_at, occurs_within, digit, find_within, matches_at, rd_be16,
    rd_be32, rd_le32,
};
use super::{CarveQuality, crc32, crc32_ieee, pdf_eof, verdict};
use super::png::{alpha4, iend_type, type_alpha};

verus! {

// ── PNG ──────────────────────────────────────────────────────────────────────

/// The 8-byte PNG signature.
pub open spec fn png_signature() -> Seq<u8> {
    seq![0x89u8, 0x50, 0x4E, 0x47, 0x0D, 0x0A, 0x1A, 0x0A]
}

/// Chunks whose body is at most this long are read and CRC-checked; longer
/// ones (pixel data) are stepped over.
pub const MAX_CRC_BODY: u64 = 65_536;

/// Walk of the chunk sequence of a PNG file from offset `pos` until IEND.
/// Every chunk type must be alphabetic, each chunk of at most
/// [`MAX_CRC_BODY`] body bytes must lie in the file with a correct CRC, and
/// IEND must have an empty body; running out of data first is damage.
pub open spec fn png_chunks_ok(f: Seq<u8>, pos: int) -> bool
    decreases f.len() - pos,
{
    if pos < 0 || pos + 8 > f.len() {
        false
    } else if !alpha4(f, pos + 4) {
        false
    } else if occurs_at(f, pos + 4, iend_type()) {
        be32(f, pos) == 0
    } else {
        let len = be32(f, pos);
        let next = pos + 12 + len;
        if len <= MAX_CRC_BODY {
            next <= f.len() && crc32_ieee(f.subrange(pos + 4, pos + 8 + len)) == be32(f, pos + 8 + len)
                && png_chunks_ok(f, next)
        } else {
            next <= f.len() && png_chunks_ok(f, next)
        }
    }
}

/// PNG: the signature, then chunks walked up to an empty IEND.
pub open spec fn png_file_quality(f: Seq<u8>) -> CarveQuality {
    verdict(occurs_at(f, 0, png_signature()) && png_chunks_ok(f, 8))
}

/// Checks a whole PNG file by walking its chunks up to IEND.
pub fn check_png_file(f: &[u8]) -> (r: CarveQuality)
    ensures r == png_file_quality(f@),
{
    if !matches_at(f, 0, &[0x89, 0x50, 0x4E, 0x47, 0x0D, 0x0A, 0x1A, 0x0A]) {
        return CarveQuality::Corrupt;
    }
    let mut pos: usize = 8;
    loop
        invariant
            8 <= pos,
            occurs_at(f@, 0, png_signature()),
            png_chunks_ok(f@, pos as int) == png_chunks_ok(f@, 8),
        decreases f.len() - pos,
    {
        if pos > f.len() || f.len() - pos < 8 {
            return CarveQuality::Corrupt;
        }
        if !(type_alpha(f, pos + 4)) {
            return CarveQuality::Corrupt;
        }
        let len = rd_be32(f, pos);
        if matches_at(f, pos + 4, &[0x49, 0x45, 0x4E, 0x44]) {
            return if len == 0 { CarveQuality::Complete } else { CarveQuality::Corrupt };
        }
        if len as u64 <= MAX_CRC_BODY {
            if len as usize > f.len() - pos - 8 || f.len() - pos - 8 - (len as usize) < 4 {
                return CarveQuality::Corrupt;
            }
            let body_end = pos + 8 + len as usize;
            let computed = crc32(&f[pos + 4..body_end]);
            if computed != rd_be32(f, body_end) {
                return CarveQuality::Corrupt;
            }
            pos = body_end + 4;
        } else {
            if len as usize > f.len() - pos - 8 || f.len() - pos - 8 - (len as usize) < 4 {
                return CarveQuality::Corrupt;
            }
            pos = pos + 12 + len as usize;
        }
    }
}

// ── PDF ──────────────────────────────────────────────────────────────────────

/// The keyword `startxref`.
pub open spec fn startxref_kw() -> Seq<u8> {
    seq![0x73u8, 0x74, 0x61, 0x72, 0x74, 0x78, 0x72, 0x65, 0x66]
}

/// Line-ending or blank byte: `\n`, `\r`, space or tab.
pub open spec fn is_pdf_space(b: u8) -> bool {
    b == 0x0A || b == 0x0D || b == 0x20 || b == 0x09
}

/// First position at or after `i` holding no PDF space (or the end).
pub open spec fn skip_space(d: Seq<u8>, i: int) -> int
    decreases d.len() - i,
{
    if i < 0 || i >= d.len() || !is_pdf_space(d[i]) { i } else { skip_space(d, i + 1) }
}

/// First position at or after `i` holding no decimal digit (or the end).
pub open spec fn digits_end(d: Seq<u8>, i: int) -> int
    decreases d.len() - i,
{
    if i < 0 || i >= d.len() || !is_digit(d[i]) { i } else { digits_end(d, i + 1) }
}

/// Decimal value of the digits `d[j..k]`.
pub open spec fn decimal(d: Seq<u8>, j: int, k: int) -> int
    decreases k - j,
{
    if k <= j { 0 } else { decimal(d, j, k - 1) * 10 + (d[k - 1] - 0x30) }
}

/// The decimal number starting at `j`: present when at least one digit is
/// there and the value fits in 64 bits.
pub open spec fn decimal_at(d: Seq<u8>, j: int) -> Option<u64> {
    let k = digits_end(d, j);
    if k > j && decimal(d, j, k) <= u64::MAX { Some(decimal(d, j, k) as u64) } else { None }
}

/// The number following a `startxref` keyword at `i`, after blanks.
pub open spec fn startxref_value(d: Seq<u8>, i: int) -> Option<u64> {
    decimal_at(d, skip_space(d, i + 9))
}

/// The value of the last `startxref` keyword starting before `n` that is
/// followed by a readable number.
pub open spec fn last_startxref_before(d: Seq<u8>, n: int) -> Option<u64>
    decreases n,
{
    if n <= 0 {
        None
    } else if occurs_at(d, n - 1, startxref_kw()) && startxref_value(d, n - 1) is Some {
        startxref_value(d, n - 1)
    } else {
        last_startxref_before(d, n - 1)
    }
}

proof fn lemma_skip_space_bounds(d: Seq<u8>, i: int)
    requires 0 <= i,
    ensures i <= skip_space(d, i), skip_space(d, i) <= if i <= d.len() { d.len() as int } else { i },
    decreases d.len() - i,
{
    if i < d.len() && is_pdf_space(d[i]) {
        lemma_skip_space_bounds(d, i + 1);
    }
}

proof fn lemma_digits_end_bounds(d: Seq<u8>, i: int)
    requires 0 <= i,
    ensures
        i <= digits_end(d, i),
        digits_end(d, i) <= if i <= d.len() { d.len() as int } else { i },
        forall|m: int| i <= m < digits_end(d, i) ==> is_digit(#[trigger] d[m]),
    decreases d.len() - i,
{
    if i < d.len() && is_digit(d[i]) {
        lemma_digits_end_bounds(d, i + 1);
    }
}

proof fn lemma_decimal_grows(d: Seq<u8>, j: int, k: int)
    requires
        j <= k,
        forall|m: int| j <= m < k ==> is_digit(#[trigger] d[m]),
    ensures decimal(d, j, k) >= 0,
    decreases k - j,
{
    if k > j {
        lemma_decimal_grows(d, j, k - 1);
    }
}

/// Reads the decimal number starting at `start`.
pub(crate) fn read_decimal(d: &[u8], start: usize) -> (r: Option<u64>)
    requires start <= d.len(),
    ensures r == decimal_at(d@, start as int),
{
    let mut k = start;
    let mut value: u64 = 0;
    let mut overflow = false;
    proof { lemma_digits_end_bounds(d@, start as int); }
    while k < d.len() && digit(d[k])
        invariant
            start <= k <= d.len(),
            digits_end(d@, k as int) == digits_end(d@, start as int),
            forall|m: int| start <= m < k ==> is_digit(#[trigger] d@[m]),
            !overflow ==> value == decimal(d@, start as int, k as int),
            overflow ==> decimal(d@, start as int, k as int) > u64::MAX,
        decreases d.len() - k,
    {
        let dg = (d[k] - 0x30) as u64;
        proof { lemma_decimal_grows(d@, start as int, k as int); }
        if !overflow {
            if value > (u64::MAX - dg) / 10 {
                overflow = true;
            } else {
                value = value * 10 + dg;
            }
        }
        k += 1;
    }
    if k > start && !overflow { Some(value) } else { None }
}

/// Reads the number after the keyword at `i`.
fn read_startxref_value(d: &[u8], i: usize) -> (r: Option<u64>)
    requires i + 9 <= d.len(),
    ensures r == startxref_value(d@, i as int),
{
    let mut j = i + 9;
    while j < d.len() && (d[j] == 0x0A || d[j] == 0x0D || d[j] == 0x20 || d[j] == 0x09)
        invariant
            i + 9 <= j <= d.len(),
            skip_space(d@, j as int) == skip_space(d@, i + 9),
        decreases d.len() - j,
    {
        j += 1;
    }
    read_decimal(d, j)
}

/// The number after the last `startxref` keyword in `data`, or `None` when
/// no keyword is followed by a readable number.
pub fn parse_last_startxref(data: &[u8]) -> (r: Option<u64>)
    ensures r == last_startxref_before(data@, data@.len() as int),
{
    let mut last: Option<u64> = None;
    let mut n: usize = 0;
    while n < data.len()
        invariant
            n <= data.len(),
            last == last_startxref_before(data@, n as int),
        decreases data.len() - n,
    {
        if matches_at(data, n, &[0x73, 0x74, 0x61, 0x72, 0x74, 0x78, 0x72, 0x65, 0x66]) {
            let v = read_startxref_value(data, n);
            if v.is_some() {
                last = v;
            }
        }
        n += 1;
    }
    last
}

/// `d` looks like the start of a cross-reference section: after leading
/// blanks it begins with `xref` (a table) or a digit (a stream object).
pub open spec fn xref_like(d: Seq<u8>) -> bool {
    let s = skip_space(d, 0);
    occurs_at(d, s, seq![0x78u8, 0x72, 0x65, 0x66]) || (s < d.len() && is_digit(d[s]))
}

/// Does `data` look like the start of a PDF cross-reference section?
pub fn looks_like_xref(data: &[u8]) -> (r: bool)
    ensures r == xref_like(data@),
{
    let mut s: usize = 0;
    while s < data.len() && (data[s] == 0x0A || data[s] == 0x0D || data[s] == 0x20 || data[s] == 0x09)
        invariant
            s <= data.len(),
            skip_space(data@, s as int) == skip_space(data@, 0),
        decreases data.len() - s,
    {
        s += 1;
    }
    matches_at(data, s, &[0x78, 0x72, 0x65, 0x66]) || (s < data.len() && digit(data[s]))
}

/// PDF: `%%EOF` in the last 1 KiB, a `startxref` value there that lies
/// strictly inside the file past offset 0, and an xref section at it.
pub open spec fn pdf_file_quality(f: Seq<u8>) -> CarveQuality {
    let lo = if f.len() >= 1024 { f.len() - 1024 } else { 0 };
    let t = f.subrange(lo, f.len() as int);
    if !occurs_within(t, 0, t.len() as int, pdf_eof()) {
        CarveQuality::Corrupt
    } else {
        match last_startxref_before(t, t.len() as int) {
            None => CarveQuality::Corrupt,
            Some(x) => if x == 0 || x >= f.len() {
                CarveQuality::Corrupt
            } else {
                let hi = if x + 16 <= f.len() { x + 16 } else { f.len() as int };
                verdict(xref_like(f.subrange(x as int, hi)))
            },
        }
    }
}

/// Checks a whole PDF file: `%%EOF` near the end and a `startxref` that
/// names a real cross-reference section.
pub fn check_pdf_file(f: &[u8]) -> (r: CarveQuality)
    ensures r == pdf_file_quality(f@),
{
    let lo: usize = if f.len() >= 1024 { f.len() - 1024 } else { 0 };
    let t = &f[lo..f.len()];
    if !find_within(t, 0, t.len(), &[0x25, 0x25, 0x45, 0x4F, 0x46]) {
        return CarveQuality::Corrupt;
    }
    match parse_last_startxref(t) {
        None => CarveQuality::Corrupt,
        Some(x) => {
            if x == 0 || x >= f.len() as u64 {
                return CarveQuality::Corrupt;
            }
            let xs = x as usize;
            let hi: usize = if f.len() >= 16 && xs <= f.len() - 16 { xs + 16 } else { f.len() };
            if looks_like_xref(&f[xs..hi]) { CarveQuality::Complete } else { CarveQuality::Corrupt }
        },
    }
}

// ── SQLite ───────────────────────────────────────────────────────────────────

/// `SQLite format 3\0`.
pub open spec fn sqlite_magic() -> Seq<u8> {
    seq![0x53u8, 0x51, 0x4C, 0x69, 0x74, 0x65, 0x20, 0x66, 0x6F, 0x72, 0x6D, 0x61, 0x74, 0x20, 0x33, 0x00]
}

/// A B-tree page type byte (or `00` for overflow/free pages).
pub open spec fn sqlite_page_type(b: u8) -> bool {
    b == 0x00 || b == 0x02 || b == 0x05 || b == 0x0A || b == 0x0D
}

/// Page size: the big-endian field at 16, where 1 stands for 65 536.
pub open spec fn sqlite_page_size(f: Seq<u8>) -> int {
    if be16(f, 16) == 1 { 65536 } else { be16(f, 16) }
}

/// Sampling pages `p..n` (page `p` starts at `p × page_size`) until one lies
/// past the file: (pages sampled, pages whose first byte is a page type).
pub open spec fn sqlite_sample(f: Seq<u8>, page_size: int, p: int, n: int) -> (int, int)
    decreases n - p,
{
    if p >= n || p * page_size >= f.len() {
        (0, 0)
    } else {
        let rest = sqlite_sample(f, page_size, p + 1, n);
        (rest.0 + 1, rest.1 + if sqlite_page_type(f[p * page_size]) { 1int } else { 0 })
    }
}

/// SQLite: magic, a page size of at least 512, a non-zero page count, a
/// valid schema page type at offset 100, and more than half of the pages
/// 2–6 present in the file starting with a page type (none present: no
/// requirement).
pub open spec fn sqlite_file_quality(f: Seq<u8>) -> CarveQuality {
    if f.len() < 101 || !occurs_at(f, 0, sqlite_magic()) || sqlite_page_size(f) < 512 || be32(f, 28) == 0
        || !sqlite_page_type(f[100]) {
        CarveQuality::Corrupt
    } else {
        let n = if be32(f, 28) < 6 { be32(f, 28) } else { 6 };
        let s = sqlite_sample(f, sqlite_page_size(f), 1, n);
        verdict(s.0 == 0 || s.1 * 2 > s.0)
    }
}

proof fn lemma_sqlite_sample_bounds(f: Seq<u8>, page_size: int, p: int, n: int)
    ensures
        0 <= sqlite_sample(f, page_size, p, n).1 <= sqlite_sample(f, page_size, p, n).0,
        sqlite_sample(f, page_size, p, n).0 <= if n - p > 0 { n - p } else { 0 },
    decreases n - p,
{
    if !(p >= n || p * page_size >= f.len()) {
        lemma_sqlite_sample_bounds(f, page_size, p + 1, n);
    }
}

fn page_type_byte(b: u8) -> (r: bool)
    ensures r == sqlite_page_type(b),
{
    b == 0x00 || b == 0x02 || b == 0x05 || b == 0x0A || b == 0x0D
}

/// Checks a whole SQLite database: header fields and sampled page types.
pub fn check_sqlite_file(f: &[u8]) -> (r: CarveQuality)
    ensures r == sqlite_file_quality(f@),
{
    if f.len() < 101 {
        return CarveQuality::Corrupt;
    }
    if !matches_at(f, 0, &[0x53, 0x51, 0x4C, 0x69, 0x74, 0x65, 0x20, 0x66, 0x6F, 0x72, 0x6D, 0x61, 0x74, 0x20, 0x33, 0x00]) {
        return CarveQuality::Corrupt;
    }
    let raw_ps = rd_be16(f, 16);
    let page_size: u64 = if raw_ps == 1 { 65536 } else { raw_ps as u64 };
    if page_size < 512 {
        return CarveQuality::Corrupt;
    }
    let page_count = rd_be32(f, 28) as u64;
    if page_count == 0 {
        return CarveQuality::Corrupt;
    }
    if !page_type_byte(f[100]) {
        return CarveQuality::Corrupt;
    }
    let n: u64 = if page_count < 6 { page_count } else { 6 };
    let mut checked: u64 = 0;
    let mut valid: u64 = 0;
    let mut p: u64 = 1;
    let ghost total = sqlite_sample(f@, page_size as int, 1, n as int);
    proof { lemma_sqlite_sample_bounds(f@, page_size as int, 1, n as int); }
    while p < n
        invariant
            1 <= p <= 6,
            n <= 6,
            page_size <= 65536,
            page_size == sqlite_page_size(f@),
            total == sqlite_sample(f@, page_size as int, 1, n as int),
            checked + 1 == p,
            valid <= checked,
            checked + sqlite_sample(f@, page_size as int, p as int, n as int).0 == total.0,
            valid + sqlite_sample(f@, page_size as int, p as int, n as int).1 == total.1,
        ensures
            sqlite_sample(f@, page_size as int, p as int, n as int) == (0int, 0int),
            checked == total.0,
            valid == total.1,
        decreases n - p,
    {
        assert(p * page_size <= 6 * 65536) by (nonlinear_arith)
            requires p <= 6, page_size <= 65536;
        let off = p * page_size;
        if off >= f.len() as u64 {
            break;
        }
        proof { lemma_sqlite_sample_bounds(f@, page_size as int, p + 1, n as int); }
        checked += 1;
        if page_type_byte(f[off as usize]) {
            valid += 1;
        }
        p += 1;
    }
    if checked == 0 || valid * 2 > checked { CarveQuality::Complete } else { CarveQuality::Corrupt }
}

// ── Registry hive / event log ────────────────────────────────────────────────

/// Registry hive: `regf` at 0 and the first `hbin` block at 4096.
pub open spec fn regf_file_quality(f: Seq<u8>) -> CarveQuality {
    verdict(occurs_at(f, 0, seq![0x72u8, 0x65, 0x67, 0x66]) && f.len() >= 4100
        && occurs_at(f, 4096, seq![0x68u8, 0x62, 0x69, 0x6E]))
}

/// Checks a whole Windows registry hive.
pub fn check_regf_file(f: &[u8]) -> (r: CarveQuality)
    ensures r == regf_file_quality(f@),
{
    if matches_at(f, 0, &[0x72, 0x65, 0x67, 0x66]) && f.len() >= 4100 && matches_at(f, 4096, &[0x68, 0x62, 0x69, 0x6E]) {
        CarveQuality::Complete
    } else {
        CarveQuality::Corrupt
    }
}

/// Windows event log: `ElfFile\0` at 0, `ElfChnk\0` at 4096, and the first
/// chunk's free-space offset (at 4096 + 48) in `[512, 65536]`.
pub open spec fn evtx_file_quality(f: Seq<u8>) -> CarveQuality {
    verdict(occurs_at(f, 0, seq![0x45u8, 0x6C, 0x66, 0x46, 0x69, 0x6C, 0x65, 0x00])
        && occurs_at(f, 4096, seq![0x45u8, 0x6C, 0x66, 0x43, 0x68, 0x6E, 0x6B, 0x00])
        && f.len() >= 4148 && 512 <= le32(f, 4144) <= 65536)
}

/// Checks a whole Windows event log.
pub fn check_evtx_file(f: &[u8]) -> (r: CarveQuality)
    ensures r == evtx_file_quality(f@),
{
    if !matches_at(f, 0, &[0x45, 0x6C, 0x66, 0x46, 0x69, 0x6C, 0x65, 0x00]) {
        return CarveQuality::Corrupt;
    }
    if !matches_at(f, 4096, &[0x45, 0x6C, 0x66, 0x43, 0x68, 0x6E, 0x6B, 0x00]) {
        return CarveQuality::Corrupt;
    }
    if f.len() < 4148 {
        return CarveQuality::Corrupt;
    }
    let fso = rd_le32(f, 4144);
    if 512 <= fso && fso <= 65536 { CarveQuality::Complete } else { CarveQuality::Corrupt }
}

} // verus!
