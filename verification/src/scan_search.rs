//! Signature matching within one chunk of device data.
use vstd::prelude::*;
use crate::bytes::short;
use crate::pre_validate::{accepts, is_valid, PreValidate};
use crate::pre_validate::archive::{zip_header_is_plausible, zip_header_plausible};
use crate::scanner::CarveHit;
use crate::signature::{same_signature, Signature};

verus! {

/// `header` matches `d` at `pos`: every fixed byte of the pattern lies in
/// the data and equals the byte there; wildcards match anything.
pub open spec fn header_fits(header: Seq<Option<u8>>, d: Seq<u8>, pos: int) -> bool {
    forall|i: int| 0 <= i < header.len() ==> (#[trigger] header[i] matches Some(b) ==> 0 <= pos + i < d.len() && d[pos + i] == b)
}

/// Check whether `header` matches `data` starting at `pos`.  `None` entries
/// are wildcards and match any byte.
pub fn header_matches(header: &[Option<u8>], data: &[u8], pos: usize) -> (r: bool)
    ensures r == header_fits(header@, data@, pos as int),
{
    let mut i: usize = 0;
    while i < header.len()
        invariant
            i <= header.len(),
            forall|k: int| 0 <= k < i ==> (#[trigger] header@[k] matches Some(b) ==> 0 <= pos + k < data@.len() && data@[pos + k] == b),
        decreases header.len() - i,
    {
        if let Some(b) = header[i] {
            if pos > data.len() || i >= data.len() - pos || data[pos + i] != b {
                assert(header@[i as int] matches Some(b));
                return false;
            }
        }
        i += 1;
    }
    true
}

/// The scan-time structural filter of a signature accepts position `pos`.
pub open spec fn pre_ok(pv: Option<PreValidate>, d: Seq<u8>, pos: int) -> bool {
    match pv {
        Some(k) => accepts(k, d, pos),
        None => true,
    }
}

/// `pos` is a hit of `sig` in `d` reported before `end`: the whole header
/// fits in the data and matches there, and the signature's pre-validator
/// (if any) accepts it.
pub open spec fn is_hit(sig: Signature, d: Seq<u8>, end: int, pos: int) -> bool {
    &&& 0 <= pos < end
    &&& pos + sig.header@.len() <= d.len()
    &&& header_fits(sig.header@, d, pos)
    &&& pre_ok(sig.pre_validate, d, pos)
}

/// The hits of `sig` at positions `i..end`, in increasing order.
pub open spec fn hits_from(sig: Signature, d: Seq<u8>, end: int, i: int) -> Seq<int>
    decreases end - i,
{
    if i >= end {
        Seq::empty()
    } else if is_hit(sig, d, end, i) {
        seq![i] + hits_from(sig, d, end, i + 1)
    } else {
        hits_from(sig, d, end, i + 1)
    }
}

/// The pattern has a fixed (non-wildcard) byte.
pub open spec fn has_fixed_byte(header: Seq<Option<u8>>) -> bool {
    exists|i: int| 0 <= i < header.len() && #[trigger] header[i] is Some
}

/// Positions where [`find_all`] reports `sig` in `d`: none for an empty
/// pattern, empty data or an all-wildcard pattern; otherwise the hits before
/// `report_end` (clamped to the data).
pub open spec fn hit_positions(sig: Signature, d: Seq<u8>, report_end: int) -> Seq<int> {
    if sig.header@.len() == 0 || d.len() == 0 || !has_fixed_byte(sig.header@) {
        Seq::empty()
    } else {
        hits_from(sig, d, if report_end < d.len() { report_end } else { d.len() as int }, 0)
    }
}

/// Device offset reported for a header found at absolute offset `abs`: moved
/// back by the signature's header offset, so that it names the file start
/// (never below 0).
pub open spec fn reported_offset(sig: Signature, abs: int) -> int {
    if abs >= sig.header_offset { abs - sig.header_offset } else { 0 }
}

/// `hits` reports exactly `positions` (relative to a chunk at `base`) for
/// `sig`, in order.
pub open spec fn reports(hits: Seq<CarveHit>, sig: Signature, base: int, positions: Seq<int>) -> bool {
    &&& hits.len() == positions.len()
    &&& forall|k: int| 0 <= k < hits.len() ==> {
        &&& (#[trigger] hits[k]).byte_offset == reported_offset(sig, base + positions[k])
        &&& same_signature(hits[k].signature, sig)
    }
}

/// `memchr::memchr`: index of the first occurrence of `needle`.
#[verifier::external_body]
fn first_byte(needle: u8, haystack: &[u8]) -> (r: Option<usize>)
    ensures
        match r {
            Some(i) => i < haystack@.len() && haystack@[i as int] == needle
                && forall|j: int| 0 <= j < i ==> haystack@[j] != needle,
            None => forall|j: int| 0 <= j < haystack@.len() ==> haystack@[j] != needle,
        },
{
    memchr::memchr(needle, haystack)
}

proof fn lemma_skip_misses(sig: Signature, d: Seq<u8>, end: int, i: int, j: int)
    requires
        i <= j,
        forall|p: int| i <= p < j ==> !#[trigger] is_hit(sig, d, end, p),
    ensures hits_from(sig, d, end, i) == hits_from(sig, d, end, j),
    decreases j - i,
{
    if i < j {
        lemma_skip_misses(sig, d, end, i + 1, j);
        assert(!is_hit(sig, d, end, i));
    }
}

proof fn lemma_hits_from_empty(sig: Signature, d: Seq<u8>, end: int, i: int)
    requires i >= end,
    ensures hits_from(sig, d, end, i) == Seq::<int>::empty(),
{
}

/// Return all positions within `data[..report_end]` where `sig.header`
/// begins, as hits at `chunk_abs_offset + position` (moved back by the
/// signature's header offset).  The first fixed byte of the pattern is
/// located with `memchr`, then the full pattern (with wildcards) and the
/// signature's pre-validator are checked.
pub fn find_all(sig: &Signature, data: &[u8], chunk_abs_offset: u64, report_end: usize) -> (r: Vec<CarveHit>)
    requires chunk_abs_offset + data@.len() <= u64::MAX,
    ensures reports(r@, *sig, chunk_abs_offset as int, hit_positions(*sig, data@, report_end as int)),
{
    let header = &sig.header;
    let mut hits: Vec<CarveHit> = Vec::new();
    if header.len() == 0 || data.len() == 0 {
        return hits;
    }
    let mut anchor_idx: usize = 0;
    while anchor_idx < header.len() && header[anchor_idx].is_none()
        invariant
            anchor_idx <= header.len(),
            forall|k: int| 0 <= k < anchor_idx ==> (#[trigger] header@[k]) is None,
        decreases header.len() - anchor_idx,
    {
        anchor_idx += 1;
    }
    if anchor_idx == header.len() {
        assert(!has_fixed_byte(header@));
        return hits;
    }
    let anchor_byte = match header[anchor_idx] {
        Some(b) => b,
        None => {
            return hits;
        },
    };
    assert(has_fixed_byte(header@)) by {
        assert(header@[anchor_idx as int] is Some);
    }
    let end: usize = if report_end < data.len() { report_end } else { data.len() };
    let ghost all = hits_from(*sig, data@, end as int, 0);
    if anchor_idx >= data.len() {
        proof {
            assert forall|p: int| 0 <= p < end implies !#[trigger] is_hit(*sig, data@, end as int, p) by {}
            lemma_skip_misses(*sig, data@, end as int, 0, end as int);
            lemma_hits_from_empty(*sig, data@, end as int, end as int);
        }
        return hits;
    }
    let mut search_start: usize = anchor_idx;
    proof {
        assert(reports(hits@, *sig, chunk_abs_offset as int, Seq::<int>::empty()));
        assert(Seq::<int>::empty() + all =~= all);
    }
    loop
        invariant
            anchor_idx < header.len(),
            header@[anchor_idx as int] == Some(anchor_byte),
            end <= data.len(),
            anchor_idx <= search_start <= data.len(),
            all == hits_from(*sig, data@, end as int, 0),
            header@ == sig.header@,
            anchor_idx < data.len(),
            chunk_abs_offset + data@.len() <= u64::MAX,
            exists|done: Seq<int>| {
                &&& reports(hits@, *sig, chunk_abs_offset as int, done)
                &&& done + hits_from(*sig, data@, end as int, search_start - anchor_idx) == all
            },
        ensures
            reports(hits@, *sig, chunk_abs_offset as int, all),
        decreases data.len() - search_start,
    {
        let ghost cur = search_start - anchor_idx;
        if search_start - anchor_idx >= end {
            proof {
                lemma_hits_from_empty(*sig, data@, end as int, cur);
                let done = choose|done: Seq<int>| {
                    &&& reports(hits@, *sig, chunk_abs_offset as int, done)
                    &&& done + hits_from(*sig, data@, end as int, cur) == all
                };
                assert(done + Seq::<int>::empty() =~= done);
                assert(done == all);
            }
            break;
        }
        let scan_end: usize = if end < data.len() - anchor_idx { end + anchor_idx } else { data.len() };
        let window = &data[search_start..scan_end];
        match first_byte(anchor_byte, window) {
            None => {
                proof {
                    assert forall|p: int| cur <= p < end implies !#[trigger] is_hit(*sig, data@, end as int, p) by {
                        if is_hit(*sig, data@, end as int, p) {
                            assert(header@[anchor_idx as int] == Some(anchor_byte));
                            assert(data@[p + anchor_idx] == anchor_byte);
                            assert(window@[p + anchor_idx - search_start] == data@[p + anchor_idx]);
                        }
                    }
                    lemma_skip_misses(*sig, data@, end as int, cur, end as int);
                    lemma_hits_from_empty(*sig, data@, end as int, end as int);
                    let done = choose|done: Seq<int>| {
                        &&& reports(hits@, *sig, chunk_abs_offset as int, done)
                        &&& done + hits_from(*sig, data@, end as int, cur) == all
                    };
                    assert(done + Seq::<int>::empty() =~= done);
                    assert(done == all);
                }
                break;
            },
            Some(rel) => {
                let anchor_pos = search_start + rel;
                let pos = anchor_pos - anchor_idx;
                proof {
                    assert forall|p: int| cur <= p < pos implies !#[trigger] is_hit(*sig, data@, end as int, p) by {
                        if is_hit(*sig, data@, end as int, p) {
                            assert(header@[anchor_idx as int] == Some(anchor_byte));
                            assert(data@[p + anchor_idx] == anchor_byte);
                            assert(window@[p + anchor_idx - search_start] == data@[p + anchor_idx]);
                        }
                    }
                    lemma_skip_misses(*sig, data@, end as int, cur, pos as int);
                }
                let ghost done0 = choose|done: Seq<int>| {
                    &&& reports(hits@, *sig, chunk_abs_offset as int, done)
                    &&& done + hits_from(*sig, data@, end as int, cur) == all
                };
                let fits = pos < end && header.len() <= data.len() - pos && header_matches(header.as_slice(), data, pos);
                let accepted = fits && match &sig.pre_validate {
                    Some(k) => is_valid(k, data, pos),
                    None => true,
                };
                assert(accepted == is_hit(*sig, data@, end as int, pos as int));
                if accepted {
                    let abs = chunk_abs_offset + pos as u64;
                    let off = if abs >= sig.header_offset { abs - sig.header_offset } else { 0 };
                    let h = CarveHit { byte_offset: off, signature: sig.clone() };
                    let ghost prev = hits@;
                    hits.push(h);
                    proof {
                        let done1 = done0.push(pos as int);
                        assert(reports(hits@, *sig, chunk_abs_offset as int, done1)) by {
                            assert forall|k: int| 0 <= k < hits@.len() implies {
                                &&& (#[trigger] hits@[k]).byte_offset == reported_offset(*sig, chunk_abs_offset + done1[k])
                                &&& same_signature(hits@[k].signature, *sig)
                            } by {
                                if k < hits@.len() - 1 {
                                    assert(hits@[k] == prev[k]);
                                }
                            }
                        }
                        assert(done1 + hits_from(*sig, data@, end as int, pos + 1) =~= all) by {
                            assert(hits_from(*sig, data@, end as int, pos as int)
                                == seq![pos as int] + hits_from(*sig, data@, end as int, pos + 1));
                            assert(done0 + (seq![pos as int] + hits_from(*sig, data@, end as int, pos + 1))
                                =~= done0.push(pos as int) + hits_from(*sig, data@, end as int, pos + 1));
                        }
                    }
                } else {
                    proof {
                        if pos < end {
                            assert(hits_from(*sig, data@, end as int, pos as int) == hits_from(*sig, data@, end as int, pos + 1));
                        } else {
                            lemma_hits_from_empty(*sig, data@, end as int, pos as int);
                            lemma_hits_from_empty(*sig, data@, end as int, pos + 1);
                        }
                    }
                }
                search_start = anchor_pos + 1;
            },
        }
    }
    hits
}

/// A ZIP local file header at `pos` looks like a real file entry (or too
/// few bytes remain to tell).
pub open spec fn zip_entry_is_file(d: Seq<u8>, pos: int) -> bool {
    short(d, pos, 30) || zip_header_plausible(d, pos)
}

/// Returns `true` when the ZIP local file header at `data[pos..]` looks like
/// a real file entry: a known version (≤ 6.3) and compression method, a
/// file name of 1–512 bytes, and no trailing `/` (a directory).  With fewer
/// than 30 bytes available the entry gets the benefit of the doubt.
pub fn zip_local_header_is_file(data: &[u8], pos: usize) -> (r: bool)
    ensures r == zip_entry_is_file(data@, pos as int),
{
    if pos > data.len() || data.len() - pos < 30 {
        return true;
    }
    zip_header_is_plausible(data, pos)
}

} // verus!
