//! PNG head/tail check: IEND footer, CRC-verified chunks in the head, the
//! chunk after a long first IDAT, and the chunk just before IEND.
use vstd::prelude::*;
use crate::bytes::{be32, is_alpha, occurs_at, alpha, matches_at, rd_be32};
use super::{CarveQuality, crc32, crc32_ieee, verdict};

verus! {

/// The 12-byte IEND chunk: zero length, type `IEND`, fixed CRC.
pub open spec fn iend_chunk() -> Seq<u8> {
    seq![0x00u8, 0x00, 0x00, 0x00, 0x49, 0x45, 0x4E, 0x44, 0xAE, 0x42, 0x60, 0x82]
}

/// Chunk type `IDAT`.
pub open spec fn idat_type() -> Seq<u8> { seq![0x49u8, 0x44, 0x41, 0x54] }

/// Chunk type `IEND`.
pub open spec fn iend_type() -> Seq<u8> { seq![0x49u8, 0x45, 0x4E, 0x44] }

/// The data ends with the IEND chunk.
pub open spec fn ends_with_iend(t: Seq<u8>) -> bool {
    t.len() >= 12 && occurs_at(t, t.len() - 12, iend_chunk())
}

/// `s[i..i+4]` are ASCII letters (a well-formed chunk type).
pub open spec fn alpha4(s: Seq<u8>, i: int) -> bool {
    is_alpha(s[i]) && is_alpha(s[i + 1]) && is_alpha(s[i + 2]) && is_alpha(s[i + 3])
}

/// `a - b`, or 0 when that is negative.
pub open spec fn sat_sub(a: int, b: int) -> int {
    if a >= b { a - b } else { 0 }
}

/// Walk of the chunks held in the head from offset `pos`.  `None` when a
/// chunk has a bad type or CRC, or when a chunk running past the head would
/// swallow the place where IEND must sit (`file_size - 12`).  Otherwise
/// `Some(e)` where `e` is the end offset of the chunk the walk stopped at
/// when that chunk is an IDAT running past the head.
pub open spec fn head_walk(head: Seq<u8>, file_size: int, pos: int) -> Option<Option<int>>
    decreases head.len() - pos,
{
    if pos < 0 || pos + 12 > head.len() {
        Some(None)
    } else if !alpha4(head, pos + 4) {
        None
    } else {
        let end = pos + 12 + be32(head, pos);
        if end > head.len() {
            if end > sat_sub(file_size, 12) {
                None
            } else if occurs_at(head, pos + 4, idat_type()) {
                Some(Some(end))
            } else {
                Some(None)
            }
        } else if crc32_ieee(head.subrange(pos + 4, end - 4)) != be32(head, end - 4) {
            None
        } else if occurs_at(head, pos + 4, iend_type()) {
            Some(None)
        } else {
            head_walk(head, file_size, end)
        }
    }
}

/// When the chunk header following an IDAT that ends at file offset `e`
/// lies wholly in the tail, its type is ASCII-alphabetic.
pub open spec fn after_idat_ok(tail: Seq<u8>, file_size: int, e: int) -> bool {
    let ts = sat_sub(file_size, tail.len() as int);
    if e >= ts && e + 8 <= file_size && e - ts + 8 <= tail.len() {
        alpha4(tail, e - ts + 4)
    } else {
        true
    }
}

/// Start of a candidate chunk with `d` data bytes ending just before IEND.
pub open spec fn pred_start(t: Seq<u8>, d: int) -> int {
    t.len() - 24 - d
}

/// A chunk with `d` data bytes could end just before IEND: its stored length
/// is `d` and its type alphabetic.
pub open spec fn pred_candidate(t: Seq<u8>, d: int) -> bool {
    be32(t, pred_start(t, d)) == d && alpha4(t, pred_start(t, d) + 4)
}

/// Searching data lengths upward from `d`, the first candidate predecessor
/// of IEND (if any) carries a correct CRC.
pub open spec fn pred_ok(t: Seq<u8>, d: int) -> bool
    decreases t.len() - 24 - d + 1,
{
    if d < 0 || d > t.len() - 24 {
        true
    } else if pred_candidate(t, d) {
        crc32_ieee(t.subrange(pred_start(t, d) + 4, t.len() - 16)) == be32(t, t.len() - 16)
    } else {
        pred_ok(t, d + 1)
    }
}

/// PNG verdict from the head, the tail and the file size.
pub open spec fn png_quality(head: Seq<u8>, tail: Seq<u8>, file_size: int) -> CarveQuality {
    if !ends_with_iend(tail) {
        CarveQuality::Corrupt
    } else {
        let walk = if head.len() > 8 { head_walk(head, file_size, 8) } else { Some(None) };
        match walk {
            None => CarveQuality::Corrupt,
            Some(idat) => if idat matches Some(e) && !after_idat_ok(tail, file_size, e) {
                CarveQuality::Corrupt
            } else {
                verdict(tail.len() <= 24 || pred_ok(tail, 0))
            },
        }
    }
}

pub(crate) fn type_alpha(s: &[u8], i: usize) -> (r: bool)
    requires i + 4 <= s.len(),
    ensures r == alpha4(s@, i as int),
{
    alpha(s[i]) && alpha(s[i + 1]) && alpha(s[i + 2]) && alpha(s[i + 3])
}

fn walk_head(head: &[u8], file_size: u64) -> (r: Option<Option<u64>>)
    requires head.len() > 8,
    ensures
        match r {
            None => head_walk(head@, file_size as int, 8) is None,
            Some(None) => head_walk(head@, file_size as int, 8) == Some(None::<int>),
            Some(Some(e)) => head_walk(head@, file_size as int, 8) == Some(Some(e as int)),
        },
{
    let fs12: u64 = if file_size >= 12 { file_size - 12 } else { 0 };
    let mut pos: usize = 8;
    loop
        invariant
            8 <= pos,
            fs12 == sat_sub(file_size as int, 12),
            head_walk(head@, file_size as int, pos as int) == head_walk(head@, file_size as int, 8),
        decreases head.len() - pos,
    {
        if pos > head.len() || head.len() - pos < 12 {
            return Some(None);
        }
        if !type_alpha(head, pos + 4) {
            return None;
        }
        let dlen = rd_be32(head, pos);
        if dlen as usize > head.len() - pos - 12 {
            let p12 = pos as u64 + 12;
            if fs12 < p12 || dlen as u64 > fs12 - p12 {
                return None;
            }
            let end = p12 + dlen as u64;
            if matches_at(head, pos + 4, &[0x49, 0x44, 0x41, 0x54]) {
                return Some(Some(end));
            }
            return Some(None);
        }
        let end = pos + 12 + dlen as usize;
        let computed = crc32(&head[pos + 4..end - 4]);
        if computed != rd_be32(head, end - 4) {
            return None;
        }
        if matches_at(head, pos + 4, &[0x49, 0x45, 0x4E, 0x44]) {
            return Some(None);
        }
        pos = end;
    }
}

fn after_idat_check(tail: &[u8], file_size: u64, e: u64) -> (r: bool)
    requires e + 12 <= file_size,
    ensures r == after_idat_ok(tail@, file_size as int, e as int),
{
    let ts: u64 = if file_size >= tail.len() as u64 { file_size - tail.len() as u64 } else { 0 };
    if e >= ts && e + 8 <= file_size {
        let k = e - ts;
        if k <= tail.len() as u64 && k as usize <= tail.len() - 8 && tail.len() >= 8 {
            return type_alpha(tail, k as usize + 4);
        }
    }
    true
}

fn pred_check(tail: &[u8]) -> (r: bool)
    requires tail.len() > 24,
    ensures r == pred_ok(tail@, 0),
{
    let iend_start = tail.len() - 12;
    let max_d = iend_start - 12;
    let mut d: usize = 0;
    while d <= max_d
        invariant
            iend_start == tail.len() - 12,
            max_d == tail.len() - 24,
            pred_ok(tail@, d as int) == pred_ok(tail@, 0),
        decreases max_d + 1 - d,
    {
        let cs = iend_start - 12 - d;
        if rd_be32(tail, cs) as usize == d && type_alpha(tail, cs + 4) {
            let stored = rd_be32(tail, iend_start - 4);
            let computed = crc32(&tail[cs + 4..iend_start - 4]);
            return computed == stored;
        }
        d += 1;
    }
    true
}

/// PNG check behind [`super::validate_extracted`].
pub(crate) fn png_check(head: &[u8], tail: &[u8], file_size: u64) -> (r: CarveQuality)
    ensures r == png_quality(head@, tail@, file_size as int),
{
    if tail.len() < 12 || !matches_at(tail, tail.len() - 12, &[0x00, 0x00, 0x00, 0x00, 0x49, 0x45, 0x4E, 0x44, 0xAE, 0x42, 0x60, 0x82]) {
        return CarveQuality::Corrupt;
    }
    let walk = if head.len() > 8 { walk_head(head, file_size) } else { Some(None) };
    match walk {
        None => CarveQuality::Corrupt,
        Some(idat) => {
            if let Some(e) = idat {
                proof {
                    lemma_walk_end_bound(head@, file_size as int, 8);
                }
                if !after_idat_check(tail, file_size, e) {
                    return CarveQuality::Corrupt;
                }
            }
            if tail.len() <= 24 || pred_check(tail) { CarveQuality::Complete } else { CarveQuality::Corrupt }
        },
    }
}

proof fn lemma_walk_end_bound(head: Seq<u8>, file_size: int, pos: int)
    ensures head_walk(head, file_size, pos) matches Some(Some(e)) ==> e + 12 <= file_size,
    decreases head.len() - pos,
{
    if !(pos < 0 || pos + 12 > head.len()) && alpha4(head, pos + 4) {
        let end = pos + 12 + be32(head, pos);
        if end <= head.len() {
            lemma_walk_end_bound(head, file_size, end);
        }
    }
}

} // verus!
