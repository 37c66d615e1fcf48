//! Byte-level reading primitives shared by all format checks.
use vstd::prelude::*;

verus! {

/// Little-endian 16-bit value of `s[i..i+2]`.
pub open spec fn le16(s: Seq<u8>, i: int) -> int {
    s[i] + s[i + 1] * 256
}

/// Big-endian 16-bit value of `s[i..i+2]`.
pub open spec fn be16(s: Seq<u8>, i: int) -> int {
    s[i] * 256 + s[i + 1]
}

/// Little-endian 32-bit value of `s[i..i+4]`.
pub open spec fn le32(s: Seq<u8>, i: int) -> int {
    le16(s, i) + le16(s, i + 2) * 65536
}

/// Big-endian 32-bit value of `s[i..i+4]`.
pub open spec fn be32(s: Seq<u8>, i: int) -> int {
    be16(s, i) * 65536 + be16(s, i + 2)
}

/// Little-endian 64-bit value of `s[i..i+8]`.
pub open spec fn le64(s: Seq<u8>, i: int) -> int {
    le32(s, i) + le32(s, i + 4) * 0x1_0000_0000
}

/// Big-endian 64-bit value of `s[i..i+8]`.
pub open spec fn be64(s: Seq<u8>, i: int) -> int {
    be32(s, i) * 0x1_0000_0000 + be32(s, i + 4)
}

/// ASCII decimal digit.
pub open spec fn is_digit(b: u8) -> bool { 0x30 <= b <= 0x39 }

/// ASCII upper-case letter.
pub open spec fn is_upper(b: u8) -> bool { 0x41 <= b <= 0x5A }

/// ASCII letter.
pub open spec fn is_alpha(b: u8) -> bool { 0x41 <= b <= 0x5A || 0x61 <= b <= 0x7A }

/// ASCII letter or digit.
pub open spec fn is_alnum(b: u8) -> bool { is_alpha(b) || is_digit(b) }

/// Printable ASCII (space through tilde).
pub open spec fn is_print(b: u8) -> bool { 0x20 <= b <= 0x7E }

pub fn digit(b: u8) -> (r: bool) ensures r == is_digit(b), { 0x30 <= b && b <= 0x39 }

pub fn upper(b: u8) -> (r: bool) ensures r == is_upper(b), { 0x41 <= b && b <= 0x5A }

pub fn alpha(b: u8) -> (r: bool) ensures r == is_alpha(b), {
    (0x41 <= b && b <= 0x5A) || (0x61 <= b && b <= 0x7A)
}

pub fn alnum(b: u8) -> (r: bool) ensures r == is_alnum(b), { alpha(b) || digit(b) }

pub fn print(b: u8) -> (r: bool) ensures r == is_print(b), { 0x20 <= b && b <= 0x7E }

/// ASCII lower-case mapping of a byte (other bytes unchanged).
pub open spec fn ascii_lower(b: u8) -> u8 { if is_upper(b) { (b + 32) as u8 } else { b } }

pub fn to_lower(b: u8) -> (r: u8) ensures r == ascii_lower(b), {
    if upper(b) { b + 32 } else { b }
}

/// The smaller of two integers.
pub open spec fn min(a: int, b: int) -> int { if a <= b { a } else { b } }

/// `true` when fewer than `n` bytes are available at `pos`.
pub open spec fn short(s: Seq<u8>, pos: int, n: int) -> bool {
    pos + n > s.len()
}

/// Does `pat` occur at `s[i..]`?
pub open spec fn occurs_at(s: Seq<u8>, i: int, pat: Seq<u8>) -> bool {
    0 <= i && i + pat.len() <= s.len() && s.subrange(i, i + pat.len()) == pat
}

/// Does `pat` occur entirely within `s[lo..hi]`?
pub open spec fn occurs_within(s: Seq<u8>, lo: int, hi: int, pat: Seq<u8>) -> bool {
    exists|i: int| lo <= i && i + pat.len() <= hi && #[trigger] occurs_at(s, i, pat)
}

pub fn short_at(data: &[u8], pos: usize, n: usize) -> (r: bool)
    ensures
        r == short(data@, pos as int, n as int),
        data@.len() <= usize::MAX,
{
    pos > data.len() || n > data.len() - pos
}

pub fn rd_le16(data: &[u8], i: usize) -> (r: u16)
    requires i + 2 <= data.len(),
    ensures r == le16(data@, i as int),
{
    data[i] as u16 + data[i + 1] as u16 * 256
}

pub fn rd_be16(data: &[u8], i: usize) -> (r: u16)
    requires i + 2 <= data.len(),
    ensures r == be16(data@, i as int),
{
    data[i] as u16 * 256 + data[i + 1] as u16
}

pub fn rd_le32(data: &[u8], i: usize) -> (r: u32)
    requires i + 4 <= data.len(),
    ensures r == le32(data@, i as int),
{
    rd_le16(data, i) as u32 + rd_le16(data, i + 2) as u32 * 65536
}

pub fn rd_be32(data: &[u8], i: usize) -> (r: u32)
    requires i + 4 <= data.len(),
    ensures r == be32(data@, i as int),
{
    rd_be16(data, i) as u32 * 65536 + rd_be16(data, i + 2) as u32
}

pub fn rd_le64(data: &[u8], i: usize) -> (r: u64)
    requires i + 8 <= data.len(),
    ensures r == le64(data@, i as int),
{
    rd_le32(data, i) as u64 + rd_le32(data, i + 4) as u64 * 0x1_0000_0000
}

pub fn rd_be64(data: &[u8], i: usize) -> (r: u64)
    requires i + 8 <= data.len(),
    ensures r == be64(data@, i as int),
{
    rd_be32(data, i) as u64 * 0x1_0000_0000 + rd_be32(data, i + 4) as u64
}

/// 16-bit value of `s[i..i+2]` in the given byte order.
pub open spec fn u16_at(s: Seq<u8>, i: int, le: bool) -> int {
    if le { le16(s, i) } else { be16(s, i) }
}

/// 32-bit value of `s[i..i+4]` in the given byte order.
pub open spec fn u32_at(s: Seq<u8>, i: int, le: bool) -> int {
    if le { le32(s, i) } else { be32(s, i) }
}

/// 64-bit value of `s[i..i+8]` in the given byte order.
pub open spec fn u64_at(s: Seq<u8>, i: int, le: bool) -> int {
    if le { le64(s, i) } else { be64(s, i) }
}

pub fn rd_u16(data: &[u8], i: usize, le: bool) -> (r: u16)
    requires i + 2 <= data.len(),
    ensures r == u16_at(data@, i as int, le),
{
    if le { rd_le16(data, i) } else { rd_be16(data, i) }
}

pub fn rd_u32(data: &[u8], i: usize, le: bool) -> (r: u32)
    requires i + 4 <= data.len(),
    ensures r == u32_at(data@, i as int, le),
{
    if le { rd_le32(data, i) } else { rd_be32(data, i) }
}

pub fn rd_u64(data: &[u8], i: usize, le: bool) -> (r: u64)
    requires i + 8 <= data.len(),
    ensures r == u64_at(data@, i as int, le),
{
    if le { rd_le64(data, i) } else { rd_be64(data, i) }
}

/// `a + b` saturated at the largest 64-bit value.
pub open spec fn sat_add(a: int, b: int) -> int {
    if a + b > u64::MAX { u64::MAX as int } else { a + b }
}

/// `a × b` saturated at the largest 64-bit value.
pub open spec fn sat_mul(a: int, b: int) -> int {
    if a * b > u64::MAX { u64::MAX as int } else { a * b }
}

/// Is `pat` present at `data[i..]`?
pub fn matches_at(data: &[u8], i: usize, pat: &[u8]) -> (r: bool)
    ensures r == occurs_at(data@, i as int, pat@),
{
    if i > data.len() || pat.len() > data.len() - i {
        return false;
    }
    let mut k: usize = 0;
    while k < pat.len()
        invariant
            k <= pat.len(),
            i + pat.len() <= data.len(),
            forall|j: int| 0 <= j < k ==> data@[i + j] == pat@[j],
        decreases pat.len() - k,
    {
        if data[i + k] != pat[k] {
            assert(data@.subrange(i as int, i + pat@.len())[k as int] != pat@[k as int]);
            return false;
        }
        k += 1;
    }
    assert(data@.subrange(i as int, i + pat@.len()) =~= pat@);
    true
}

/// Does `pat` occur within `data[lo..hi]`?  (`hi` is clamped to the data.)
pub fn find_within(data: &[u8], lo: usize, hi: usize, pat: &[u8]) -> (r: bool)
    requires hi <= data.len(),
    ensures r == occurs_within(data@, lo as int, hi as int, pat@),
{
    if lo > hi || pat.len() > hi - lo {
        assert forall|i: int| lo <= i && i + pat@.len() <= hi implies !#[trigger] occurs_at(data@, i, pat@) by {}
        return false;
    }
    if pat.len() == 0 {
        assert(occurs_at(data@, lo as int, pat@)) by {
            assert(data@.subrange(lo as int, lo as int) =~= pat@);
        }
        return true;
    }
    let mut i: usize = lo;
    while pat.len() <= hi - i
        invariant
            lo <= i <= hi,
            pat.len() > 0,
            hi <= data.len(),
            forall|j: int| lo <= j < i ==> !#[trigger] occurs_at(data@, j, pat@),
        decreases hi - i,
    {
        if matches_at(data, i, pat) {
            return true;
        }
        i += 1;
    }
    false
}

/// Is there an occurrence of `open` lying wholly in `s[..pos]` that is not
/// followed (still within `s[..pos]`) by an occurrence of `close`?
pub open spec fn unclosed_before(s: Seq<u8>, pos: int, open: Seq<u8>, close: Seq<u8>) -> bool {
    exists|q: int|
        q + open.len() <= pos && #[trigger] occurs_at(s, q, open)
            && !occurs_within(s, q + open.len(), pos, close)
}

/// Rightmost occurrence of `pat` lying wholly within `data[lo..hi]`.
pub fn rfind_within(data: &[u8], lo: usize, hi: usize, pat: &[u8]) -> (r: Option<usize>)
    requires hi <= data.len(),
    ensures
        match r {
            Some(i) => lo <= i && i + pat@.len() <= hi && occurs_at(data@, i as int, pat@)
                && forall|j: int| i < j && j + pat@.len() <= hi ==> !#[trigger] occurs_at(data@, j, pat@),
            None => !occurs_within(data@, lo as int, hi as int, pat@),
        },
{
    if lo > hi || pat.len() > hi - lo {
        return None;
    }
    let mut i: usize = hi - pat.len();
    loop
        invariant
            lo <= i,
            i + pat.len() <= hi,
            hi <= data.len(),
            forall|j: int| i < j && j + pat@.len() <= hi ==> !#[trigger] occurs_at(data@, j, pat@),
        decreases i,
    {
        if matches_at(data, i, pat) {
            return Some(i);
        }
        if i == lo {
            return None;
        }
        i -= 1;
    }
}

/// Decides [`unclosed_before`] by locating the last `open` before `pos`.
pub fn has_unclosed_before(data: &[u8], pos: usize, open: &[u8], close: &[u8]) -> (r: bool)
    requires pos <= data.len(),
    ensures r == unclosed_before(data@, pos as int, open@, close@),
{
    match rfind_within(data, 0, pos, open) {
        None => {
            assert forall|q: int| q + open@.len() <= pos && #[trigger] occurs_at(data@, q, open@)
                implies occurs_within(data@, q + open@.len(), pos as int, close@) by {
                assert(occurs_within(data@, 0, pos as int, open@));
            }
            false
        },
        Some(q) => {
            let tail_closed = find_within(data, q + open.len(), pos, close);
            if !tail_closed {
                assert(occurs_at(data@, q as int, open@));
                true
            } else {
                assert forall|q2: int| q2 + open@.len() <= pos && #[trigger] occurs_at(data@, q2, open@)
                    implies occurs_within(data@, q2 + open@.len(), pos as int, close@) by {
                    let w = choose|w: int| q + open@.len() <= w && w + close@.len() <= pos
                        && #[trigger] occurs_at(data@, w, close@);
                    assert(q2 <= q);
                }
                false
            }
        },
    }
}

} // verus!
