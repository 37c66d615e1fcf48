//! Extraction reads: the bytes of a window of the device, whole or cut just
//! after a footer.  The device is read in extraction-sized pieces.
use vstd::prelude::*;
use memchr::memmem;
use crate::bytes::occurs_at;
use crate::device::{clamped, read_bytes_clamped, BlockDevice};
use crate::error::CarveError;

verus! {

/// Bytes read per device request while extracting (256 KiB).
pub const EXTRACT_CHUNK: usize = 0x4_0000;

/// `pat` occurs at `i` in `s` and nowhere before.
pub open spec fn is_first_occurrence(s: Seq<u8>, pat: Seq<u8>, i: int) -> bool {
    occurs_at(s, i, pat) && forall|j: int| 0 <= j < i ==> !#[trigger] occurs_at(s, j, pat)
}

/// `pat` occurs at `i` in `s` and nowhere after.
pub open spec fn is_last_occurrence(s: Seq<u8>, pat: Seq<u8>, i: int) -> bool {
    occurs_at(s, i, pat) && forall|j: int| i < j ==> !#[trigger] occurs_at(s, j, pat)
}

/// `pat` occurs nowhere in `s`.
pub open spec fn no_occurrence(s: Seq<u8>, pat: Seq<u8>) -> bool {
    forall|j: int| !#[trigger] occurs_at(s, j, pat)
}

/// `s` cut to its first `end` bytes (all of it when shorter).
pub open spec fn cut_after(s: Seq<u8>, end: int) -> Seq<u8> {
    if end < s.len() { s.take(end) } else { s }
}

/// `w` up to and including its first `footer` plus `extra` bytes; all of
/// `w` when the footer does not occur.
pub open spec fn through_first_footer(w: Seq<u8>, footer: Seq<u8>, extra: int) -> Seq<u8> {
    if no_occurrence(w, footer) {
        w
    } else {
        cut_after(w, (choose|i: int| is_first_occurrence(w, footer, i)) + footer.len() + extra)
    }
}

/// `w` up to and including its last `footer` plus `extra` bytes; all of
/// `w` when the footer does not occur.
pub open spec fn through_last_footer(w: Seq<u8>, footer: Seq<u8>, extra: int) -> Seq<u8> {
    if no_occurrence(w, footer) {
        w
    } else {
        cut_after(w, (choose|i: int| is_last_occurrence(w, footer, i)) + footer.len() + extra)
    }
}

/// The bytes `[start, end)` of the device, cut at its end.
pub open spec fn window(dev: Seq<u8>, start: int, end: int) -> Seq<u8> {
    clamped(dev, start, end - start)
}

/// `memchr::memmem::find`: the position of the first occurrence of a
/// non-empty `needle` in `haystack`, none when it does not occur.
#[verifier::external_body]
fn memmem_find(haystack: &[u8], needle: &[u8]) -> (r: Option<usize>)
    requires needle@.len() > 0,
    ensures
        match r {
            Some(i) => is_first_occurrence(haystack@, needle@, i as int),
            None => no_occurrence(haystack@, needle@),
        },
{
    memmem::find(haystack, needle)
}

/// `memchr::memmem::rfind`: the position of the last occurrence of a
/// non-empty `needle` in `haystack`, none when it does not occur.
#[verifier::external_body]
fn memmem_rfind(haystack: &[u8], needle: &[u8]) -> (r: Option<usize>)
    requires needle@.len() > 0,
    ensures
        match r {
            Some(i) => is_last_occurrence(haystack@, needle@, i as int),
            None => no_occurrence(haystack@, needle@),
        },
{
    memmem::rfind(haystack, needle)
}

proof fn lemma_clamped_concat(d: Seq<u8>, s: int, p: int, n: int)
    requires 0 <= s <= p, 0 <= n,
    ensures clamped(d, s, p - s) + clamped(d, p, n) == clamped(d, s, p + n - s),
{
    assert(clamped(d, s, p - s) + clamped(d, p, n) =~= clamped(d, s, p + n - s));
}

proof fn lemma_first_unique(s: Seq<u8>, pat: Seq<u8>, i: int)
    requires is_first_occurrence(s, pat, i),
    ensures
        !no_occurrence(s, pat),
        (choose|k: int| is_first_occurrence(s, pat, k)) == i,
{
    assert(is_first_occurrence(s, pat, i));
    let k = choose|k: int| is_first_occurrence(s, pat, k);
    if k < i {
        assert(!occurs_at(s, k, pat));
    } else if k > i {
        assert(!occurs_at(s, i, pat));
    }
}

proof fn lemma_last_unique(s: Seq<u8>, pat: Seq<u8>, i: int)
    requires is_last_occurrence(s, pat, i),
    ensures
        !no_occurrence(s, pat),
        (choose|k: int| is_last_occurrence(s, pat, k)) == i,
{
    assert(is_last_occurrence(s, pat, i));
    let k = choose|k: int| is_last_occurrence(s, pat, k);
    if k < i {
        assert(!occurs_at(s, i, pat));
    } else if k > i {
        assert(!occurs_at(s, k, pat));
    }
}

/// An occurrence lying within a prefix is one of the whole.
proof fn lemma_occurs_prefix(s: Seq<u8>, n: int, pat: Seq<u8>, j: int)
    requires 0 <= n <= s.len(), j + pat.len() <= n,
    ensures occurs_at(s.take(n), j, pat) == occurs_at(s, j, pat),
{
    if 0 <= j {
        assert(s.take(n).subrange(j, j + pat.len()) =~= s.subrange(j, j + pat.len()));
    }
}

proof fn lemma_first_exists(s: Seq<u8>, pat: Seq<u8>, i: int)
    requires occurs_at(s, i, pat),
    ensures exists|j: int| is_first_occurrence(s, pat, j),
    decreases i,
{
    if exists|j: int| 0 <= j < i && #[trigger] occurs_at(s, j, pat) {
        let j = choose|j: int| 0 <= j < i && #[trigger] occurs_at(s, j, pat);
        lemma_first_exists(s, pat, j);
    } else {
        assert(is_first_occurrence(s, pat, i));
    }
}

proof fn lemma_last_exists(s: Seq<u8>, pat: Seq<u8>, i: int)
    requires occurs_at(s, i, pat),
    ensures exists|j: int| is_last_occurrence(s, pat, j),
    decreases s.len() - i,
{
    if exists|j: int| i < j && #[trigger] occurs_at(s, j, pat) {
        let j = choose|j: int| i < j && #[trigger] occurs_at(s, j, pat);
        lemma_last_exists(s, pat, j);
    } else {
        assert(is_last_occurrence(s, pat, i));
    }
}

/// Cutting at a footer never lengthens the window: both cuts are prefixes
/// of it.
pub proof fn lemma_footer_cuts_are_prefixes(w: Seq<u8>, footer: Seq<u8>, extra: int)
    requires extra >= 0,
    ensures
        through_first_footer(w, footer, extra).len() <= w.len(),
        through_first_footer(w, footer, extra) == w.take(through_first_footer(w, footer, extra).len() as int),
        through_last_footer(w, footer, extra).len() <= w.len(),
        through_last_footer(w, footer, extra) == w.take(through_last_footer(w, footer, extra).len() as int),
{
    if !no_occurrence(w, footer) {
        let i = choose|i: int| occurs_at(w, i, footer);
        lemma_first_exists(w, footer, i);
        lemma_last_exists(w, footer, i);
        let p = choose|k: int| is_first_occurrence(w, footer, k);
        let l = choose|k: int| is_last_occurrence(w, footer, k);
        assert(p >= 0 && l >= 0);
        let e1 = p + footer.len() + extra;
        let e2 = l + footer.len() + extra;
        if e1 < w.len() {
            assert(w.take(e1).len() == e1);
            assert(w.take(e1) =~= w.take(w.take(e1).len() as int));
        }
        if e2 < w.len() {
            assert(w.take(e2) =~= w.take(w.take(e2).len() as int));
        }
    }
    assert(w =~= w.take(w.len() as int));
}

/// Reads the window `[start, end)` of the device in extraction-sized
/// pieces, stopping early at the device end.
pub fn stream_bytes<D: BlockDevice>(device: &D, start: u64, end: u64) -> (r: Result<Vec<u8>, CarveError>)
    ensures
        r matches Ok(v) ==> v@ == window(device.contents(), start as int, end as int),
        device.healthy() ==> r is Ok,
        r matches Err(e) ==> e is BlockDevice,
{
    let mut pos = start;
    let mut out: Vec<u8> = Vec::new();
    while pos < end
        invariant
            start <= pos,
            pos <= end || pos == start,
            out@ == window(device.contents(), start as int, pos as int),
        decreases end - pos,
    {
        let want: u64 = end - pos;
        let to_read: usize = if want < EXTRACT_CHUNK as u64 { want as usize } else { EXTRACT_CHUNK };
        let mut data = read_bytes_clamped(device, pos, to_read)?;
        if data.len() == 0 {
            proof {
                assert(window(device.contents(), start as int, pos as int) =~= window(device.contents(), start as int, end as int));
            }
            return Ok(out);
        }
        proof {
            lemma_clamped_concat(device.contents(), start as int, pos as int, to_read as int);
        }
        let n = data.len() as u64;
        out.append(&mut data);
        pos = pos + n;
    }
    proof {
        assert(window(device.contents(), start as int, pos as int) =~= window(device.contents(), start as int, end as int));
    }
    Ok(out)
}

/// Reads the window `[start, max_end)` up to and including the first
/// `footer` and `footer_extra` bytes after it, or the whole window when the
/// footer does not occur.  Reading stops as soon as those bytes are in;
/// footers straddling two reads are found.
pub fn stream_until_footer<D: BlockDevice>(
    device: &D,
    start: u64,
    max_end: u64,
    footer: &[u8],
    footer_extra: usize,
) -> (r: Result<Vec<u8>, CarveError>)
    requires footer@.len() > 0,
    ensures
        r matches Ok(v) ==> v@ == through_first_footer(
            window(device.contents(), start as int, max_end as int),
            footer@,
            footer_extra as int,
        ),
        device.healthy() ==> r is Ok,
        r matches Err(e) ==> e is BlockDevice,
{
    let ghost dev = device.contents();
    let ghost w = window(dev, start as int, max_end as int);
    let flen = footer.len();
    let mut pos = start;
    let mut acc: Vec<u8> = Vec::new();
    let mut found: Option<usize> = None;
    loop
        invariant
            start <= pos,
            pos <= max_end || pos == start,
            flen == footer@.len() > 0,
            dev == device.contents(),
            w == window(dev, start as int, max_end as int),
            acc@ == window(dev, start as int, pos as int),
            acc@ == w.take(acc@.len() as int),
            acc@.len() <= w.len(),
            pos >= max_end ==> acc@ == w,
            match found {
                Some(p) => is_first_occurrence(acc@, footer@, p as int),
                None => no_occurrence(acc@, footer@),
            },
        ensures
            acc@ == w.take(acc@.len() as int),
            acc@.len() <= w.len(),
            match found {
                Some(p) => is_first_occurrence(acc@, footer@, p as int)
                    && (acc@.len() - p - flen >= footer_extra || acc@ == w),
                None => no_occurrence(acc@, footer@) && acc@ == w,
            },
        decreases max_end - pos,
    {
        if pos >= max_end {
            break;
        }
        if let Some(p) = found {
            if acc.len() - p - flen >= footer_extra {
                break;
            }
        }
        let want: u64 = max_end - pos;
        let to_read: usize = if want < EXTRACT_CHUNK as u64 { want as usize } else { EXTRACT_CHUNK };
        let mut data = read_bytes_clamped(device, pos, to_read)?;
        if data.len() == 0 {
            proof {
                assert(window(dev, start as int, pos as int) =~= w);
            }
            break;
        }
        let ghost old_acc = acc@;
        let old_len = acc.len();
        proof {
            lemma_clamped_concat(dev, start as int, pos as int, to_read as int);
        }
        let n = data.len() as u64;
        acc.append(&mut data);
        pos = pos + n;
        proof {
            lemma_clamped_concat(dev, start as int, pos as int, (max_end - pos) as int);
            assert(acc@ =~= w.take(acc@.len() as int));
            if pos >= max_end {
                assert(acc@ =~= w);
            }
            assert(old_acc =~= acc@.take(old_len as int));
        }
        match found {
            Some(p) => {
                proof {
                    assert forall|j: int| 0 <= j < p implies !#[trigger] occurs_at(acc@, j, footer@) by {
                        lemma_occurs_prefix(acc@, old_len as int, footer@, j);
                        assert(!occurs_at(old_acc, j, footer@));
                    }
                    lemma_occurs_prefix(acc@, old_len as int, footer@, p as int);
                }
            }
            None => {
                let from: usize = if old_len >= flen - 1 { old_len - (flen - 1) } else { 0 };
                let mut combined: Vec<u8> = Vec::new();
                let mut k = from;
                while k < acc.len()
                    invariant
                        from <= k <= acc.len(),
                        combined@ == acc@.subrange(from as int, k as int),
                    decreases acc.len() - k,
                {
                    combined.push(acc[k]);
                    k += 1;
                    assert(combined@ =~= acc@.subrange(from as int, k as int));
                }
                let ghost cmb = combined@;
                proof {
                    // Occurrences in `acc` at or after `from` are those of `combined`.
                    assert forall|j: int| 0 <= j implies #[trigger] occurs_at(cmb, j, footer@) == occurs_at(acc@, from + j, footer@) by {
                        if j + flen <= cmb.len() {
                            assert(cmb.subrange(j, j + flen) =~= acc@.subrange(from + j, from + j + flen));
                        }
                    }
                    // Those before `from` lie wholly in the old bytes, where none occurs.
                    assert forall|j: int| 0 <= j < from implies !#[trigger] occurs_at(acc@, j, footer@) by {
                        lemma_occurs_prefix(acc@, old_len as int, footer@, j);
                        assert(!occurs_at(old_acc, j, footer@));
                    }
                }
                match memmem_find(&combined, footer) {
                    Some(q) => {
                        proof {
                            assert(occurs_at(acc@, from + q, footer@));
                            assert forall|j: int| 0 <= j < from + q implies !#[trigger] occurs_at(acc@, j, footer@) by {
                                if j >= from {
                                    assert(!occurs_at(cmb, j - from, footer@));
                                }
                            }
                        }
                        found = Some(from + q);
                    }
                    None => {
                        proof {
                            assert forall|j: int| !#[trigger] occurs_at(acc@, j, footer@) by {
                                if j >= from {
                                    assert(!occurs_at(cmb, j - from, footer@));
                                }
                            }
                        }
                    }
                }
            }
        }
    }
    match found {
        Some(p) => {
            assert(occurs_at(acc@, p as int, footer@));
            let alen = acc.len();
            assert(p + flen <= alen);
            let end = p + flen;
            let keep: usize = if acc.len() - end >= footer_extra { end + footer_extra } else { acc.len() };
            proof {
                // The first footer of what was read is the first of the window.
                assert forall|j: int| 0 <= j < p implies !#[trigger] occurs_at(w, j, footer@) by {
                    lemma_occurs_prefix(w, acc@.len() as int, footer@, j);
                }
                lemma_occurs_prefix(w, acc@.len() as int, footer@, p as int);
                lemma_first_unique(w, footer@, p as int);
            }
            acc.truncate(keep);
            proof {
                if keep < w.len() {
                    assert(acc@ =~= w.take(keep as int));
                } else {
                    assert(acc@ =~= w);
                }
            }
            Ok(acc)
        }
        None => Ok(acc),
    }
}

/// Reads the whole window `[start, max_end)` and keeps it up to and
/// including the last `footer` and `footer_extra` bytes after it, or all of
/// it when the footer does not occur.
pub fn stream_until_last_footer<D: BlockDevice>(
    device: &D,
    start: u64,
    max_end: u64,
    footer: &[u8],
    footer_extra: usize,
) -> (r: Result<Vec<u8>, CarveError>)
    requires footer@.len() > 0,
    ensures
        r matches Ok(v) ==> v@ == through_last_footer(
            window(device.contents(), start as int, max_end as int),
            footer@,
            footer_extra as int,
        ),
        device.healthy() ==> r is Ok,
        r matches Err(e) ==> e is BlockDevice,
{
    let mut buf = stream_bytes(device, start, max_end)?;
    let ghost w = buf@;
    match memmem_rfind(&buf, footer) {
        Some(p) => {
            assert(occurs_at(buf@, p as int, footer@));
            let blen = buf.len();
            assert(p + footer@.len() <= blen);
            let end = p + footer.len();
            let keep: usize = if buf.len() - end >= footer_extra { end + footer_extra } else { buf.len() };
            proof {
                lemma_last_unique(w, footer@, p as int);
            }
            buf.truncate(keep);
            proof {
                if keep < w.len() {
                    assert(buf@ =~= w.take(keep as int));
                } else {
                    assert(buf@ =~= w);
                }
            }
            Ok(buf)
        }
        None => Ok(buf),
    }
}

} // verus!
