//! Chunked scanning: the hit type, how a scan is cut into chunks, and the
//! pipeline that turns one chunk of device data into ordered, de-duplicated
//! hits.
use vstd::prelude::*;
use rayon::iter::{IntoParallelRefIterator, ParallelIterator};
use crate::bytes::{min, sat_add};
use crate::carver_io::{
    stream_bytes, stream_until_footer, stream_until_last_footer, through_first_footer, through_last_footer, window,
};
use crate::device::{clamped, read_bytes_clamped, BlockDevice};
use crate::error::CarveError;
use crate::scan_search::{find_all, has_fixed_byte, header_fits, hit_positions, hits_from, is_hit, reported_offset, reports};
use crate::signature::{same_signature, skips_on_failure, CarvingConfig, Signature};
use crate::size_hint::{addressable, read_size_hint, size_hint_spec};

verus! {

/// A single file-carving hit.
#[derive(Debug, Clone)]
pub struct CarveHit {
    /// Absolute byte offset of the file start on the device.
    pub byte_offset: u64,
    /// The signature that matched.
    pub signature: Signature,
}

// ── Chunk plan ───────────────────────────────────────────────────────────────

/// How a scan walks the device: the window `[start, end)`, the chunk
/// stride, and how many extra bytes each read takes so that a header
/// starting just before a chunk boundary is still seen whole.
#[derive(Debug, Clone, Copy, PartialEq, Eq, Structural)]
pub struct ScanPlan {
    pub start: u64,
    pub end: u64,
    pub chunk_size: u64,
    pub overlap: u64,
}

/// Longest header length minus one (0 without signatures).
pub open spec fn max_overlap(sigs: Seq<Signature>, n: int) -> int
    decreases n,
{
    if n <= 0 {
        0
    } else {
        let o = if sigs[n - 1].header@.len() > 0 { sigs[n - 1].header@.len() - 1 } else { 0 };
        let rest = max_overlap(sigs, n - 1);
        if o > rest { o } else { rest }
    }
}

/// The plan of a scan of a device of `device_size` bytes: none when the
/// device is empty, there are no signatures, or the configured window is
/// empty once clamped to the device.
pub open spec fn scan_plan(config: CarvingConfig, device_size: int) -> Option<ScanPlan> {
    let start = if config.start_byte < device_size { config.start_byte as int } else { device_size };
    let end0 = match config.end_byte { Some(e) => e as int, None => device_size };
    let end = if end0 < device_size { end0 } else { device_size };
    if device_size == 0 || config.signatures@.len() == 0 || start >= end {
        None
    } else {
        Some(ScanPlan {
            start: start as u64,
            end: end as u64,
            chunk_size: config.scan_chunk_size as u64,
            overlap: max_overlap(config.signatures@, config.signatures@.len() as int) as u64,
        })
    }
}

/// Computes the plan of a scan.
pub fn plan_scan(config: &CarvingConfig, device_size: u64) -> (r: Option<ScanPlan>)
    ensures
        r == scan_plan(*config, device_size as int),
        r matches Some(p) ==> p.overlap == max_overlap(config.signatures@, config.signatures@.len() as int),
{
    let sigs = &config.signatures;
    if device_size == 0 || sigs.len() == 0 {
        return None;
    }
    let start = if config.start_byte < device_size { config.start_byte } else { device_size };
    let end0 = match config.end_byte { Some(e) => e, None => device_size };
    let end = if end0 < device_size { end0 } else { device_size };
    if start >= end {
        return None;
    }
    let mut overlap: usize = 0;
    let mut i: usize = 0;
    while i < sigs.len()
        invariant
            i <= sigs.len(),
            overlap == max_overlap(sigs@, i as int),
            overlap <= usize::MAX,
        decreases sigs.len() - i,
    {
        let len = sigs[i].header.len();
        let o = if len > 0 { len - 1 } else { 0 };
        if o > overlap {
            overlap = o;
        }
        i += 1;
    }
    Some(ScanPlan { start, end, chunk_size: config.scan_chunk_size as u64, overlap: overlap as u64 })
}

/// The chunk read at `offset`: (bytes to read, hits reported only at
/// positions below this bound).  A chunk reads its stride plus the overlap,
/// clamped to the window end; all but the last chunk report only their
/// stride, so that no hit is reported twice.
pub open spec fn chunk_window(p: ScanPlan, offset: int) -> (int, int) {
    let want = p.chunk_size + p.overlap;
    let read = if want < p.end - offset { want } else { p.end - offset };
    let last = offset + p.chunk_size >= p.end;
    (read, if last { read } else if p.chunk_size < read { p.chunk_size as int } else { read })
}

impl ScanPlan {
    /// The read size and report bound of the chunk at `offset`.
    pub fn window(&self, offset: u64) -> (r: (u64, u64))
        requires offset < self.end,
        ensures r.0 == chunk_window(*self, offset as int).0, r.1 == chunk_window(*self, offset as int).1,
    {
        let want = self.chunk_size.saturating_add(self.overlap);
        let rest = self.end - offset;
        let read = if want < rest { want } else { rest };
        let last = offset.saturating_add(self.chunk_size) >= self.end;
        let report = if last { read } else if self.chunk_size < read { self.chunk_size } else { read };
        (read, report)
    }
}

/// Offset of the `k`-th chunk of a plan.
pub open spec fn chunk_offset(p: ScanPlan, k: int) -> int {
    p.start + k * p.chunk_size
}

/// Position `q` is reported by the `k`-th chunk: that chunk starts inside
/// the window and `q` lies below its report bound.
pub open spec fn reported_by(p: ScanPlan, k: int, q: int) -> bool {
    let o = chunk_offset(p, k);
    &&& k >= 0
    &&& o < p.end
    &&& o <= q < o + chunk_window(p, o).1
}

/// The chunks of a scan share out its window: every position of the window
/// is reported by exactly one chunk, and a header of at most `overlap + 1`
/// bytes that starts there and ends within the window lies wholly in what
/// that chunk reads.  So a header straddling a chunk boundary is still
/// seen, and seen once.
pub proof fn lemma_chunks_cover_once(p: ScanPlan, q: int, hlen: int)
    requires
        p.chunk_size > 0,
        p.start <= q < p.end,
        1 <= hlen <= p.overlap + 1,
        q + hlen <= p.end,
    ensures
        exists|k: int| #[trigger] reported_by(p, k, q) && q + hlen <= chunk_offset(p, k) + chunk_window(p, chunk_offset(p, k)).0,
        forall|k1: int, k2: int| #[trigger] reported_by(p, k1, q) && #[trigger] reported_by(p, k2, q) ==> k1 == k2,
{
    let cs = p.chunk_size as int;
    let d = q - p.start;
    let k = d / cs;
    assert(k * cs <= d < k * cs + cs && k >= 0) by (nonlinear_arith)
        requires cs > 0, d >= 0, k == d / cs;
    let o = chunk_offset(p, k);
    assert(o == p.start + k * cs);
    assert(reported_by(p, k, q));
    assert(forall|j: int| j >= 0 && #[trigger] reported_by(p, j, q) ==> chunk_window(p, chunk_offset(p, j)).1 <= cs);
    assert forall|k1: int, k2: int| #[trigger] reported_by(p, k1, q) && #[trigger] reported_by(p, k2, q) implies k1 == k2 by {
        let o1 = chunk_offset(p, k1);
        let o2 = chunk_offset(p, k2);
        assert(chunk_window(p, o1).1 <= cs);
        assert(chunk_window(p, o2).1 <= cs);
        if k1 < k2 {
            assert(k2 * cs >= k1 * cs + cs) by (nonlinear_arith)
                requires k1 < k2, cs > 0;
        } else if k2 < k1 {
            assert(k1 * cs >= k2 * cs + cs) by (nonlinear_arith)
                requires k2 < k1, cs > 0;
        }
    }
}

// ── Suppression state ────────────────────────────────────────────────────────

/// The key under which a signature's hits share a gap window: its
/// suppression group, or else its name.
pub open spec fn gap_key(sig: Signature) -> Seq<char> {
    match sig.suppress_group {
        Some(g) => g@,
        None => sig.name@,
    }
}

/// Map from keys to values recorded in `s`, later entries winning.
pub open spec fn entries_map(s: Seq<(String, u64)>) -> Map<Seq<char>, u64>
    decreases s.len(),
{
    if s.len() == 0 {
        Map::empty()
    } else {
        entries_map(s.drop_last()).insert(s.last().0@, s.last().1)
    }
}

/// No key occurs twice.
pub open spec fn keys_distinct(s: Seq<(String, u64)>) -> bool {
    forall|i: int, j: int| 0 <= i < j < s.len() ==> (#[trigger] s[i]).0@ != (#[trigger] s[j]).0@
}

proof fn lemma_entries_map(s: Seq<(String, u64)>, k: Seq<char>)
    requires keys_distinct(s),
    ensures
        entries_map(s).contains_key(k) <==> exists|i: int| 0 <= i < s.len() && (#[trigger] s[i]).0@ == k,
        forall|i: int| 0 <= i < s.len() && (#[trigger] s[i]).0@ == k ==> entries_map(s)[k] == s[i].1,
    decreases s.len(),
{
    if s.len() > 0 {
        let t = s.drop_last();
        let n = s.len() - 1;
        assert(keys_distinct(t)) by {
            assert forall|a: int, b: int| 0 <= a < b < t.len() implies (#[trigger] t[a]).0@ != (#[trigger] t[b]).0@ by {
                assert(t[a] == s[a]);
                assert(t[b] == s[b]);
            }
        }
        lemma_entries_map(t, k);
        if entries_map(s).contains_key(k) {
            if k == s[n].0@ {
                assert(s[n].0@ == k);
            } else {
                let i = choose|i: int| 0 <= i < t.len() && (#[trigger] t[i]).0@ == k;
                assert(s[i] == t[i]);
            }
        }
        if exists|i: int| 0 <= i < s.len() && (#[trigger] s[i]).0@ == k {
            let i = choose|i: int| 0 <= i < s.len() && (#[trigger] s[i]).0@ == k;
            if i < n {
                assert(t[i] == s[i]);
            }
        }
        assert forall|i: int| 0 <= i < s.len() && (#[trigger] s[i]).0@ == k implies entries_map(s)[k] == s[i].1 by {
            if i < n {
                assert(s[i] == t[i]);
                assert(s[i].0@ != s[n].0@);
            }
        }
    }
}

proof fn lemma_entries_update(s: Seq<(String, u64)>, i: int, e: (String, u64))
    requires keys_distinct(s), 0 <= i < s.len(), e.0@ == s[i].0@,
    ensures
        keys_distinct(s.update(i, e)),
        entries_map(s.update(i, e)) == entries_map(s).insert(s[i].0@, e.1),
    decreases s.len(),
{
    let u = s.update(i, e);
    assert(keys_distinct(u)) by {
        assert forall|a: int, b: int| 0 <= a < b < u.len() implies (#[trigger] u[a]).0@ != (#[trigger] u[b]).0@ by {
            assert(s[a].0@ != s[b].0@);
        }
    }
    let n = s.len() - 1;
    let t = s.drop_last();
    assert(keys_distinct(t)) by {
        assert forall|a: int, b: int| 0 <= a < b < t.len() implies (#[trigger] t[a]).0@ != (#[trigger] t[b]).0@ by {
            assert(t[a] == s[a]);
            assert(t[b] == s[b]);
        }
    }
    if i == n {
        assert(u.drop_last() =~= t);
        assert(entries_map(u) =~= entries_map(s).insert(s[i].0@, e.1));
    } else {
        assert(u.drop_last() =~= t.update(i, e));
        lemma_entries_update(t, i, e);
        assert(s[i].0@ != s[n].0@);
        assert(u.last() == s.last());
        assert(entries_map(u) =~= entries_map(s).insert(s[i].0@, e.1));
    }
}

/// Last reported offset per suppression key.
pub struct GapTracker {
    entries: Vec<(String, u64)>,
}

impl View for GapTracker {
    type V = Map<Seq<char>, u64>;

    closed spec fn view(&self) -> Map<Seq<char>, u64> {
        entries_map(self.entries@)
    }
}

impl GapTracker {
    /// Well-formedness: no key is recorded twice.
    pub closed spec fn wf(&self) -> bool {
        keys_distinct(self.entries@)
    }

    /// A tracker with nothing recorded.
    pub fn new() -> (r: Self)
        ensures r.wf(), r@ == Map::<Seq<char>, u64>::empty(),
    {
        GapTracker { entries: Vec::new() }
    }

    /// The offset last recorded under `key`.
    pub fn last(&self, key: &String) -> (r: Option<u64>)
        requires self.wf(),
        ensures
            r == (if self@.contains_key(key@) { Some(self@[key@]) } else { None::<u64> }),
    {
        let mut i: usize = 0;
        while i < self.entries.len()
            invariant
                i <= self.entries.len(),
                keys_distinct(self.entries@),
                forall|j: int| 0 <= j < i ==> (#[trigger] self.entries@[j]).0@ != key@,
            decreases self.entries.len() - i,
        {
            if self.entries[i].0 == *key {
                proof {
                    lemma_entries_map(self.entries@, key@);
                    assert(self.entries@[i as int].0@ == key@);
                }
                return Some(self.entries[i].1);
            }
            i += 1;
        }
        proof { lemma_entries_map(self.entries@, key@); }
        None
    }

    /// Record `offset` under `key`.
    pub fn record(&mut self, key: &String, offset: u64)
        requires old(self).wf(),
        ensures final(self).wf(), final(self)@ == old(self)@.insert(key@, offset),
    {
        let ghost before = self.entries@;
        let mut i: usize = 0;
        while i < self.entries.len()
            invariant
                i <= self.entries.len(),
                self.entries@ == before,
                before == old(self).entries@,
                keys_distinct(before),
                forall|j: int| 0 <= j < i ==> (#[trigger] self.entries@[j]).0@ != key@,
            decreases self.entries.len() - i,
        {
            if self.entries[i].0 == *key {
                let k = key.clone();
                let ghost e = (k, offset);
                proof {
                    lemma_entries_update(before, i as int, e);
                }
                self.entries.set(i, (k, offset));
                assert(self.entries@ == before.update(i as int, e));
                assert(before[i as int].0@ == key@);
                assert(entries_map(self.entries@) == entries_map(before).insert(key@, offset));
                return;
            }
            i += 1;
        }
        let k = key.clone();
        self.entries.push((k, offset));
        proof {
            let after = self.entries@;
            assert(after.last() == (k, offset));
            assert(after.drop_last() =~= before);
            assert(keys_distinct(after)) by {
                assert forall|a: int, b: int| 0 <= a < b < after.len() implies (#[trigger] after[a]).0@ != (#[trigger] after[b]).0@ by {
                    if b < after.len() - 1 {
                        assert(before[a].0@ != before[b].0@);
                    } else {
                        assert(after[a] == before[a]);
                    }
                }
            }
        }
    }
}

// ── Per-chunk pipeline ───────────────────────────────────────────────────────

/// The pair reported for a header of `s` (signature index `idx`) at
/// position `q` of a chunk at `base`.
pub open spec fn as_pair(s: Signature, base: int, idx: int) -> spec_fn(int) -> (u64, usize) {
    |q: int| (reported_offset(s, base + q) as u64, idx as usize)
}

/// The reported (offset, signature index) pairs of signatures `0..n` for a
/// chunk at `base`: each signature's hits in position order, signature
/// after signature.
pub open spec fn raw_pairs(sigs: Seq<Signature>, d: Seq<u8>, base: int, report_end: int, n: int) -> Seq<(u64, usize)>
    decreases n,
{
    if n <= 0 {
        Seq::empty()
    } else {
        let s = sigs[n - 1];
        raw_pairs(sigs, d, base, report_end, n - 1)
            + hit_positions(s, d, report_end).map_values(as_pair(s, base, n - 1))
    }
}

/// A hit passes the minimum-size filter: no minimum, or the device still
/// holds `min_size` bytes from the hit.
pub open spec fn room_for(sigs: Seq<Signature>, device_size: int, h: (u64, usize)) -> bool {
    sigs[h.1 as int].min_size == 0 || sat_add(h.0 as int, sigs[h.1 as int].min_size as int) <= device_size
}

/// The minimum-size filter as a predicate.
pub open spec fn fits_device(sigs: Seq<Signature>, device_size: int) -> spec_fn((u64, usize)) -> bool {
    |h: (u64, usize)| room_for(sigs, device_size, h)
}

/// Does a hit carry offset `k`?
pub open spec fn has_offset(k: u64) -> spec_fn((u64, usize)) -> bool {
    |h: (u64, usize)| h.0 == k
}

/// The hits of `s` carrying offset `k`, in order.
pub open spec fn with_offset(s: Seq<(u64, usize)>, k: u64) -> Seq<(u64, usize)> {
    s.filter(has_offset(k))
}

/// `t` is `s` stably sorted by offset: ordered by offset, and for every
/// offset the hits carrying it keep their order in `s`.
pub open spec fn stably_sorted(s: Seq<(u64, usize)>, t: Seq<(u64, usize)>) -> bool {
    &&& offsets_ordered(t)
    &&& forall|k: u64| #[trigger] with_offset(t, k) == with_offset(s, k)
}

/// Offsets never decrease along `t`.
pub open spec fn offsets_ordered(t: Seq<(u64, usize)>) -> bool {
    forall|i: int, j: int| 0 <= i < j < t.len() ==> (#[trigger] t[i]).0 <= (#[trigger] t[j]).0
}

/// `s` stably sorted by offset (the one such sequence, by
/// [`lemma_stable_sort_unique`]).
pub open spec fn sorted_by_offset(s: Seq<(u64, usize)>) -> Seq<(u64, usize)> {
    choose|t: Seq<(u64, usize)>| stably_sorted(s, t)
}

proof fn lemma_with_offset_last(t: Seq<(u64, usize)>, k: u64)
    requires t.len() > 0,
    ensures
        with_offset(t, k) == (if t.last().0 == k { with_offset(t.drop_last(), k).push(t.last()) } else { with_offset(t.drop_last(), k) }),
{
    reveal(Seq::filter);
}

proof fn lemma_has_key(t: Seq<(u64, usize)>, k: u64)
    requires with_offset(t, k).len() > 0,
    ensures exists|i: int| 0 <= i < t.len() && (#[trigger] t[i]).0 == k,
{
    let f = with_offset(t, k);
    t.lemma_filter_pred(has_offset(k), 0);
    t.lemma_filter_contains_rev(has_offset(k), f[0]);
}

proof fn lemma_same_groups(a: Seq<(u64, usize)>, b: Seq<(u64, usize)>)
    requires
        offsets_ordered(a),
        offsets_ordered(b),
        forall|k: u64| #[trigger] with_offset(a, k) == with_offset(b, k),
    ensures a == b,
    decreases a.len() + b.len(),
{
    if a.len() == 0 && b.len() == 0 {
        assert(a =~= b);
    } else if a.len() == 0 {
        let k = b.last().0;
        lemma_with_offset_last(b, k);
        assert(with_offset(a, k) == with_offset(b, k));
        reveal(Seq::filter);
        assert(with_offset(a, k).len() == 0);
    } else if b.len() == 0 {
        let k = a.last().0;
        lemma_with_offset_last(a, k);
        assert(with_offset(a, k) == with_offset(b, k));
        reveal(Seq::filter);
        assert(with_offset(b, k).len() == 0);
    } else {
        let ka = a.last().0;
        let kb = b.last().0;
        lemma_with_offset_last(a, ka);
        lemma_with_offset_last(b, kb);
        assert(with_offset(a, ka) == with_offset(b, ka));
        assert(with_offset(a, kb) == with_offset(b, kb));
        lemma_has_key(b, ka);
        lemma_has_key(a, kb);
        let ib = choose|i: int| 0 <= i < b.len() && (#[trigger] b[i]).0 == ka;
        let ia = choose|i: int| 0 <= i < a.len() && (#[trigger] a[i]).0 == kb;
        if ib < b.len() - 1 {
            assert(b[ib].0 <= b[b.len() - 1].0);
        }
        if ia < a.len() - 1 {
            assert(a[ia].0 <= a[a.len() - 1].0);
        }
        assert(ka == kb);
        assert(with_offset(a, ka).last() == a.last());
        assert(with_offset(b, ka).last() == b.last());
        assert(a.last() == b.last());
        let a1 = a.drop_last();
        let b1 = b.drop_last();
        assert forall|k: u64| #[trigger] with_offset(a1, k) == with_offset(b1, k) by {
            lemma_with_offset_last(a, k);
            lemma_with_offset_last(b, k);
            assert(with_offset(a, k) == with_offset(b, k));
            if k == ka {
                assert(with_offset(a1, k) =~= with_offset(a, k).drop_last());
                assert(with_offset(b1, k) =~= with_offset(b, k).drop_last());
            }
        }
        assert(offsets_ordered(a1)) by {
            assert forall|i: int, j: int| 0 <= i < j < a1.len() implies (#[trigger] a1[i]).0 <= (#[trigger] a1[j]).0 by {
                assert(a1[i] == a[i] && a1[j] == a[j]);
            }
        }
        assert(offsets_ordered(b1)) by {
            assert forall|i: int, j: int| 0 <= i < j < b1.len() implies (#[trigger] b1[i]).0 <= (#[trigger] b1[j]).0 by {
                assert(b1[i] == b[i] && b1[j] == b[j]);
            }
        }
        lemma_same_groups(a1, b1);
        assert(a =~= a1.push(a.last()));
        assert(b =~= b1.push(b.last()));
    }
}

/// A stable sort by offset has one outcome: two sequences that are both
/// `s` stably sorted by offset are equal.
pub proof fn lemma_stable_sort_unique(s: Seq<(u64, usize)>, t1: Seq<(u64, usize)>, t2: Seq<(u64, usize)>)
    requires stably_sorted(s, t1), stably_sorted(s, t2),
    ensures t1 == t2,
{
    assert forall|k: u64| #[trigger] with_offset(t1, k) == with_offset(t2, k) by {
        assert(with_offset(t1, k) == with_offset(s, k));
        assert(with_offset(t2, k) == with_offset(s, k));
    }
    lemma_same_groups(t1, t2);
}

/// Any stable sort of `s` by offset is [`sorted_by_offset`] of `s`.
pub proof fn lemma_sorted_by_offset(s: Seq<(u64, usize)>, t: Seq<(u64, usize)>)
    requires stably_sorted(s, t),
    ensures sorted_by_offset(s) == t,
{
    lemma_stable_sort_unique(s, sorted_by_offset(s), t);
}

/// `t` with `x` placed after every hit whose offset is at most `x`'s.
pub open spec fn insert_by_offset(t: Seq<(u64, usize)>, x: (u64, usize)) -> Seq<(u64, usize)>
    decreases t.len(),
{
    if t.len() == 0 {
        seq![x]
    } else if t.last().0 <= x.0 {
        t.push(x)
    } else {
        insert_by_offset(t.drop_last(), x).push(t.last())
    }
}

/// Insertion sort by offset.
pub open spec fn insertion_sorted(s: Seq<(u64, usize)>) -> Seq<(u64, usize)>
    decreases s.len(),
{
    if s.len() == 0 { s } else { insert_by_offset(insertion_sorted(s.drop_last()), s.last()) }
}

proof fn lemma_insert_by_offset(t: Seq<(u64, usize)>, x: (u64, usize))
    requires offsets_ordered(t),
    ensures
        offsets_ordered(insert_by_offset(t, x)),
        forall|q: int| 0 <= q < insert_by_offset(t, x).len()
            ==> (#[trigger] insert_by_offset(t, x)[q]) == x || t.contains(insert_by_offset(t, x)[q]),
        forall|k: u64| #[trigger] with_offset(insert_by_offset(t, x), k)
            == (if x.0 == k { with_offset(t, k).push(x) } else { with_offset(t, k) }),
    decreases t.len(),
{
    let u = insert_by_offset(t, x);
    if t.len() == 0 {
        assert forall|k: u64| #[trigger] with_offset(u, k)
            == (if x.0 == k { with_offset(t, k).push(x) } else { with_offset(t, k) }) by {
            lemma_with_offset_last(u, k);
            assert(u.drop_last() =~= t);
            reveal(Seq::filter);
        }
    } else if t.last().0 <= x.0 {
        assert(u.drop_last() =~= t);
        assert forall|k: u64| #[trigger] with_offset(u, k)
            == (if x.0 == k { with_offset(t, k).push(x) } else { with_offset(t, k) }) by {
            lemma_with_offset_last(u, k);
        }
        assert forall|i: int, j: int| 0 <= i < j < u.len() implies (#[trigger] u[i]).0 <= (#[trigger] u[j]).0 by {
            if j < t.len() {
                assert(u[i] == t[i] && u[j] == t[j]);
            } else if i < t.len() - 1 {
                assert(t[i].0 <= t[t.len() - 1].0);
            }
        }
        assert forall|q: int| 0 <= q < u.len() implies (#[trigger] u[q]) == x || t.contains(u[q]) by {
            if q < t.len() {
                assert(u[q] == t[q]);
            }
        }
    } else {
        let t1 = t.drop_last();
        let l = t.last();
        let v = insert_by_offset(t1, x);
        assert(offsets_ordered(t1)) by {
            assert forall|i: int, j: int| 0 <= i < j < t1.len() implies (#[trigger] t1[i]).0 <= (#[trigger] t1[j]).0 by {
                assert(t1[i] == t[i] && t1[j] == t[j]);
            }
        }
        lemma_insert_by_offset(t1, x);
        assert(u == v.push(l));
        assert(u.drop_last() =~= v);
        assert forall|q: int| 0 <= q < u.len() implies (#[trigger] u[q]) == x || t.contains(u[q]) by {
            if q < v.len() {
                assert(u[q] == v[q]);
                if u[q] != x {
                    let w = choose|w: int| 0 <= w < t1.len() && t1[w] == v[q];
                    assert(t[w] == v[q]);
                }
            } else {
                assert(t[t.len() - 1] == l);
            }
        }
        assert forall|i: int, j: int| 0 <= i < j < u.len() implies (#[trigger] u[i]).0 <= (#[trigger] u[j]).0 by {
            if j < v.len() {
                assert(u[i] == v[i] && u[j] == v[j]);
            } else {
                assert(u[j] == l);
                assert(u[i] == v[i]);
                if v[i] != x {
                    let w = choose|w: int| 0 <= w < t1.len() && t1[w] == v[i];
                    assert(t[w] == v[i]);
                    assert(t[w].0 <= t[t.len() - 1].0);
                }
            }
        }
        assert forall|k: u64| #[trigger] with_offset(u, k)
            == (if x.0 == k { with_offset(t, k).push(x) } else { with_offset(t, k) }) by {
            lemma_with_offset_last(u, k);
            lemma_with_offset_last(t, k);
            assert(with_offset(v, k) == (if x.0 == k { with_offset(t1, k).push(x) } else { with_offset(t1, k) }));
        }
    }
}

proof fn lemma_insertion_sorted(s: Seq<(u64, usize)>)
    ensures stably_sorted(s, insertion_sorted(s)),
    decreases s.len(),
{
    if s.len() == 0 {
        assert forall|k: u64| #[trigger] with_offset(insertion_sorted(s), k) == with_offset(s, k) by {}
    } else {
        let s1 = s.drop_last();
        lemma_insertion_sorted(s1);
        lemma_insert_by_offset(insertion_sorted(s1), s.last());
        assert forall|k: u64| #[trigger] with_offset(insertion_sorted(s), k) == with_offset(s, k) by {
            lemma_with_offset_last(s, k);
            assert(with_offset(insertion_sorted(s1), k) == with_offset(s1, k));
        }
    }
}

/// [`sorted_by_offset`] is a stable sort by offset: every sequence has one.
pub proof fn lemma_sorted_by_offset_sorts(s: Seq<(u64, usize)>)
    ensures stably_sorted(s, sorted_by_offset(s)),
{
    lemma_insertion_sorted(s);
    lemma_sorted_by_offset(s, insertion_sorted(s));
}

/// One hit through the gap filter with state `m`: (kept?, next state).  A
/// signature with a minimum gap keeps a hit only if nothing was recorded
/// under its key yet or the hit lies at least the gap past the last one;
/// kept hits are recorded.
pub open spec fn gap_step(m: Map<Seq<char>, u64>, sigs: Seq<Signature>, h: (u64, usize)) -> (bool, Map<Seq<char>, u64>) {
    let sig = sigs[h.1 as int];
    let key = gap_key(sig);
    if sig.min_hit_gap == 0 {
        (true, m)
    } else if !m.contains_key(key) || h.0 >= sat_add(m[key] as int, sig.min_hit_gap as int) {
        (true, m.insert(key, h.0))
    } else {
        (false, m)
    }
}

/// The gap filter over a whole sequence: (kept hits, final state).
pub open spec fn gap_filter(m: Map<Seq<char>, u64>, sigs: Seq<Signature>, t: Seq<(u64, usize)>) -> (Seq<(u64, usize)>, Map<Seq<char>, u64>)
    decreases t.len(),
{
    if t.len() == 0 {
        (t, m)
    } else {
        let (keep, m1) = gap_step(m, sigs, t[0]);
        let (rest, m2) = gap_filter(m1, sigs, t.drop_first());
        (if keep { seq![t[0]] + rest } else { rest }, m2)
    }
}

proof fn lemma_gap_state_bound(m: Map<Seq<char>, u64>, sigs: Seq<Signature>, t: Seq<(u64, usize)>, k: Seq<char>, q: int)
    requires
        m.contains_key(k),
        0 <= q < gap_filter(m, sigs, t).0.len(),
        gap_key(sigs[gap_filter(m, sigs, t).0[q].1 as int]) == k,
        sigs[gap_filter(m, sigs, t).0[q].1 as int].min_hit_gap > 0,
    ensures
        gap_filter(m, sigs, t).0[q].0 >= sat_add(m[k] as int, sigs[gap_filter(m, sigs, t).0[q].1 as int].min_hit_gap as int),
    decreases t.len(),
{
    if t.len() > 0 {
        let st = gap_step(m, sigs, t[0]);
        let m1 = st.1;
        let rest = gap_filter(m1, sigs, t.drop_first()).0;
        // The state of `k` only grows, and stays recorded.
        assert(m1.contains_key(k) && m1[k] >= m[k]);
        if st.0 && q == 0 {
        } else {
            let q1 = if st.0 { q - 1 } else { q };
            assert(gap_filter(m, sigs, t).0[q] == rest[q1]);
            lemma_gap_state_bound(m1, sigs, t.drop_first(), k, q1);
        }
    }
}

/// The gap filter keeps hits of one suppression key apart: of two hits it
/// keeps whose signatures share a key and have a minimum gap, the later
/// lies at least its signature's gap (saturating) past the earlier.  This
/// holds across chunks too, the state `m` carrying the last kept offsets.
pub proof fn lemma_gap_filter_spacing(m: Map<Seq<char>, u64>, sigs: Seq<Signature>, t: Seq<(u64, usize)>, i: int, j: int)
    requires
        0 <= i < j < gap_filter(m, sigs, t).0.len(),
        gap_key(sigs[gap_filter(m, sigs, t).0[i].1 as int]) == gap_key(sigs[gap_filter(m, sigs, t).0[j].1 as int]),
        sigs[gap_filter(m, sigs, t).0[i].1 as int].min_hit_gap > 0,
        sigs[gap_filter(m, sigs, t).0[j].1 as int].min_hit_gap > 0,
    ensures
        gap_filter(m, sigs, t).0[j].0 >= sat_add(
            gap_filter(m, sigs, t).0[i].0 as int,
            sigs[gap_filter(m, sigs, t).0[j].1 as int].min_hit_gap as int,
        ),
    decreases t.len(),
{
    let out = gap_filter(m, sigs, t).0;
    let st = gap_step(m, sigs, t[0]);
    let m1 = st.1;
    let rest = gap_filter(m1, sigs, t.drop_first()).0;
    if st.0 && i == 0 {
        // The first hit is kept and recorded under its key.
        let k = gap_key(sigs[t[0].1 as int]);
        assert(out[0] == t[0]);
        assert(m1.contains_key(k) && m1[k] == t[0].0);
        assert(out[j] == rest[j - 1]);
        lemma_gap_state_bound(m1, sigs, t.drop_first(), k, j - 1);
    } else {
        let d = if st.0 { 1int } else { 0int };
        assert(out[i] == rest[i - d] && out[j] == rest[j - d]);
        lemma_gap_filter_spacing(m1, sigs, t.drop_first(), i - d, j - d);
    }
}

/// `hits` carry exactly the (offset, signature index) pairs `pairs`.
pub open spec fn hits_match(hits: Seq<CarveHit>, sigs: Seq<Signature>, pairs: Seq<(u64, usize)>) -> bool {
    &&& hits.len() == pairs.len()
    &&& forall|k: int| 0 <= k < hits.len() ==> {
        &&& (#[trigger] hits[k]).byte_offset == pairs[k].0
        &&& same_signature(hits[k].signature, sigs[pairs[k].1 as int])
    }
}

/// `rayon`: [`find_all`] run for every signature in parallel; the results
/// come back in signature order.
#[verifier::external_body]
fn find_all_parallel(sigs: &Vec<Signature>, data: &[u8], chunk_abs_offset: u64, report_end: usize) -> (r: Vec<Vec<CarveHit>>)
    requires chunk_abs_offset + data@.len() <= u64::MAX,
    ensures
        r@.len() == sigs@.len(),
        forall|i: int| 0 <= i < sigs@.len() ==> reports(
            #[trigger] r@[i]@,
            sigs@[i],
            chunk_abs_offset as int,
            hit_positions(sigs@[i], data@, report_end as int),
        ),
{
    sigs.par_iter().map(|sig| find_all(sig, data, chunk_abs_offset, report_end)).collect()
}

/// `slice::sort_by_key` on the offset: a stable sort.
#[verifier::external_body]
fn sort_by_offset(v: &mut Vec<(u64, usize)>)
    ensures stably_sorted(old(v)@, final(v)@),
{
    v.sort_by_key(|h| h.0);
}

proof fn lemma_raw_pairs_index(sigs: Seq<Signature>, d: Seq<u8>, base: int, report_end: int, n: int)
    requires 0 <= n <= sigs.len(),
    ensures forall|k: int| 0 <= k < raw_pairs(sigs, d, base, report_end, n).len()
        ==> (#[trigger] raw_pairs(sigs, d, base, report_end, n)[k]).1 < n,
    decreases n,
{
    if n > 0 {
        lemma_raw_pairs_index(sigs, d, base, report_end, n - 1);
        let prev = raw_pairs(sigs, d, base, report_end, n - 1);
        let s = sigs[n - 1];
        let add = hit_positions(s, d, report_end).map_values(as_pair(s, base, n - 1));
        assert forall|k: int| 0 <= k < (prev + add).len() implies (#[trigger] (prev + add)[k]).1 < n by {
            if k >= prev.len() {
                assert((prev + add)[k] == add[k - prev.len()]);
            }
        }
    }
}

/// What one chunk yields, with the gap state after it: the chunk's raw
/// (offset, signature index) pairs that leave room for their minimum size,
/// stably sorted by offset, through the gap filter.
pub open spec fn chunk_result(
    sigs: Seq<Signature>,
    d: Seq<u8>,
    base: int,
    report_end: int,
    device_size: int,
    m: Map<Seq<char>, u64>,
) -> (Seq<(u64, usize)>, Map<Seq<char>, u64>) {
    gap_filter(m, sigs, sorted_by_offset(raw_pairs(sigs, d, base, report_end, sigs.len() as int).filter(fits_device(sigs, device_size))))
}

/// Every pair names one of the signatures.
pub open spec fn indices_in(pairs: Seq<(u64, usize)>, n: int) -> bool {
    forall|q: int| 0 <= q < pairs.len() ==> (#[trigger] pairs[q]).1 < n
}

/// Turns a chunk of device data at `chunk_abs_offset` into its hits, as
/// (offset, signature index) pairs: every signature is searched (in
/// parallel), hits leaving less than the signature's minimum size on the
/// device are dropped, the rest are stably ordered by offset, and the gap
/// filter (sharing state across chunks through `gaps`) suppresses hits too
/// close to the previous one of their key.
pub fn chunk_pairs(
    sigs: &Vec<Signature>,
    data: &[u8],
    chunk_abs_offset: u64,
    report_end: usize,
    device_size: u64,
    gaps: &mut GapTracker,
) -> (r: Vec<(u64, usize)>)
    requires
        chunk_abs_offset + data@.len() <= u64::MAX,
        old(gaps).wf(),
    ensures
        final(gaps).wf(),
        (r@, final(gaps)@) == chunk_result(sigs@, data@, chunk_abs_offset as int, report_end as int, device_size as int, old(gaps)@),
        indices_in(r@, sigs@.len() as int),
        offsets_ordered(r@),
{
    let per_sig = find_all_parallel(sigs, data, chunk_abs_offset, report_end);
    let ghost all = raw_pairs(sigs@, data@, chunk_abs_offset as int, report_end as int, sigs@.len() as int);
    let ghost pred = fits_device(sigs@, device_size as int);
    // Flatten, keeping hits that leave room for the minimum size.
    let mut pairs: Vec<(u64, usize)> = Vec::new();
    let mut i: usize = 0;
    while i < per_sig.len()
        invariant
            i <= per_sig.len(),
            per_sig@.len() == sigs@.len(),
            forall|j: int| 0 <= j < sigs@.len() ==> reports(
                #[trigger] per_sig@[j]@,
                sigs@[j],
                chunk_abs_offset as int,
                hit_positions(sigs@[j], data@, report_end as int),
            ),
            pairs@ == raw_pairs(sigs@, data@, chunk_abs_offset as int, report_end as int, i as int).filter(pred),
            pred == fits_device(sigs@, device_size as int),
        decreases per_sig.len() - i,
    {
        let hs = &per_sig[i];
        let ghost s = sigs@[i as int];
        let ghost add = hit_positions(s, data@, report_end as int).map_values(as_pair(s, chunk_abs_offset as int, i as int));
        let ghost before = raw_pairs(sigs@, data@, chunk_abs_offset as int, report_end as int, i as int);
        let mut k: usize = 0;
        while k < hs.len()
            invariant
                k <= hs.len(),
                i < sigs@.len(),
                per_sig@.len() == sigs@.len(),
                s == sigs@[i as int],
                hs@ == per_sig@[i as int]@,
                reports(hs@, s, chunk_abs_offset as int, hit_positions(s, data@, report_end as int)),
                add == hit_positions(s, data@, report_end as int).map_values(as_pair(s, chunk_abs_offset as int, i as int)),
                pairs@ == (before + add.take(k as int)).filter(pred),
                pred == fits_device(sigs@, device_size as int),
            decreases hs.len() - k,
        {
            let off = hs[k].byte_offset;
            let min_size = sigs[i].min_size;
            let keep = min_size == 0 || off.saturating_add(min_size) <= device_size;
            proof {
                assert(add[k as int] == (off, i));
                assert((before + add.take(k + 1)).drop_last() =~= before + add.take(k as int));
                assert((before + add.take(k + 1)).last() == (off, i));
                reveal(Seq::filter);
            }
            if keep {
                pairs.push((off, i));
            }
            k += 1;
        }
        proof {
            assert(add.take(hs@.len() as int) =~= add);
        }
        i += 1;
    }
    let ghost filtered = pairs@;
    proof {
        lemma_raw_pairs_index(sigs@, data@, chunk_abs_offset as int, report_end as int, sigs@.len() as int);
    }
    sort_by_offset(&mut pairs);
    let ghost t = pairs@;
    proof {
        assert(filtered == all.filter(pred));
        lemma_sorted_by_offset(filtered, t);
        assert forall|q: int| 0 <= q < t.len() implies (#[trigger] t[q]).1 < sigs@.len() by {
            let k = t[q].0;
            t.lemma_filter_contains(has_offset(k), q);
            assert(with_offset(t, k) == with_offset(filtered, k));
            assert(with_offset(filtered, k).contains(t[q]));
            filtered.lemma_filter_contains_rev(has_offset(k), t[q]);
            all.lemma_filter_contains_rev(pred, t[q]);
            let w = choose|w: int| 0 <= w < all.len() && all[w] == t[q];
            assert(all[w].1 < sigs@.len());
        }
    }
    // Gap filter, in offset order.
    let ghost m0 = gaps@;
    let mut kept: Vec<(u64, usize)> = Vec::new();
    let mut j: usize = 0;
    proof {
        assert(t.skip(0) =~= t);
        assert(kept@ + gap_filter(gaps@, sigs@, t.skip(0)).0 =~= gap_filter(m0, sigs@, t).0);
    }
    while j < pairs.len()
        invariant
            j <= pairs.len(),
            pairs@ == t,
            gaps.wf(),
            indices_in(t, sigs@.len() as int),
            indices_in(kept@, sigs@.len() as int),
            offsets_ordered(t),
            offsets_ordered(kept@),
            forall|q: int, w: int| 0 <= q < kept@.len() && j <= w < t.len() ==> (#[trigger] kept@[q]).0 <= (#[trigger] t[w]).0,
            kept@ + gap_filter(gaps@, sigs@, t.skip(j as int)).0 == gap_filter(m0, sigs@, t).0,
            gap_filter(gaps@, sigs@, t.skip(j as int)).1 == gap_filter(m0, sigs@, t).1,
        decreases pairs.len() - j,
    {
        let (off, si) = pairs[j];
        let sig = &sigs[si];
        let ghost m = gaps@;
        let ghost prev = kept@;
        proof {
            assert(t.skip(j as int)[0] == t[j as int]);
            assert(t.skip(j as int).drop_first() =~= t.skip(j + 1));
        }
        let keep = if sig.min_hit_gap == 0 {
            true
        } else {
            let key = match &sig.suppress_group {
                Some(g) => g,
                None => &sig.name,
            };
            let accept = match gaps.last(key) {
                None => true,
                Some(last) => off >= last.saturating_add(sig.min_hit_gap),
            };
            if accept {
                gaps.record(key, off);
            }
            accept
        };
        if keep {
            kept.push((off, si));
            proof {
                assert forall|q: int, w: int| 0 <= q < kept@.len() && j + 1 <= w < t.len() implies (#[trigger] kept@[q]).0 <= (#[trigger] t[w]).0 by {
                    if q < prev.len() {
                        assert(kept@[q] == prev[q]);
                    }
                    assert(t[j as int].0 <= t[w].0);
                }
                assert forall|a: int, b: int| 0 <= a < b < kept@.len() implies (#[trigger] kept@[a]).0 <= (#[trigger] kept@[b]).0 by {
                    if b < prev.len() {
                        assert(kept@[a] == prev[a] && kept@[b] == prev[b]);
                    } else {
                        assert(kept@[a] == prev[a]);
                        assert(prev[a].0 <= t[j as int].0);
                    }
                }
                let rest = gap_filter(gaps@, sigs@, t.skip(j + 1)).0;
                assert(prev + (seq![(off, si)] + rest) =~= kept@ + rest);
            }
        }
        j += 1;
    }
    proof {
        assert(t.skip(t.len() as int) =~= Seq::<(u64, usize)>::empty());
        assert(kept@ + Seq::<(u64, usize)>::empty() =~= kept@);
    }
    kept
}

/// The hits named by `pairs`, each with its own copy of the signature.
pub fn hits_of(sigs: &Vec<Signature>, pairs: &Vec<(u64, usize)>) -> (r: Vec<CarveHit>)
    requires indices_in(pairs@, sigs@.len() as int),
    ensures hits_match(r@, sigs@, pairs@),
{
    let mut out: Vec<CarveHit> = Vec::new();
    let mut i: usize = 0;
    while i < pairs.len()
        invariant
            i <= pairs.len(),
            indices_in(pairs@, sigs@.len() as int),
            hits_match(out@, sigs@, pairs@.take(i as int)),
        decreases pairs.len() - i,
    {
        let (off, si) = pairs[i];
        let ghost prev = out@;
        out.push(CarveHit { byte_offset: off, signature: sigs[si].clone() });
        proof {
            assert forall|q: int| 0 <= q < out@.len() implies {
                &&& (#[trigger] out@[q]).byte_offset == pairs@.take(i + 1)[q].0
                &&& same_signature(out@[q].signature, sigs@[pairs@.take(i + 1)[q].1 as int])
            } by {
                if q < i {
                    assert(out@[q] == prev[q]);
                }
            }
        }
        i += 1;
    }
    assert(pairs@.take(pairs@.len() as int) =~= pairs@);
    out
}

/// `a + b`, saturating at the largest `usize`.
pub open spec fn sat_count(a: usize, b: nat) -> usize {
    if a + b > usize::MAX { usize::MAX } else { (a + b) as usize }
}

// ── Whole scans ──────────────────────────────────────────────────────────────

/// A chunk read (the stride plus the overlap) fits in memory.
pub open spec fn scan_fits(config: CarvingConfig) -> bool {
    config.scan_chunk_size + max_overlap(config.signatures@, config.signatures@.len() as int) <= usize::MAX
}

/// The pairs a scan reports from the chunk at `offset` on, with gap state
/// `m`: each chunk's result, then the rest.
pub open spec fn scan_from(sigs: Seq<Signature>, dev: Seq<u8>, p: ScanPlan, offset: int, m: Map<Seq<char>, u64>) -> Seq<(u64, usize)>
    decreases (if offset < p.end { p.end - offset } else { 0 }),
{
    if p.chunk_size == 0 || offset >= p.end {
        Seq::empty()
    } else {
        let w = chunk_window(p, offset);
        let c = chunk_result(sigs, clamped(dev, offset, w.0), offset, w.1, dev.len() as int, m);
        c.0 + scan_from(sigs, dev, p, offset + p.chunk_size, c.1)
    }
}

/// Every pair a scan of `dev` reports, chunk after chunk.
pub open spec fn scan_all(config: CarvingConfig, dev: Seq<u8>) -> Seq<(u64, usize)> {
    match scan_plan(config, dev.len() as int) {
        None => Seq::empty(),
        Some(p) => scan_from(config.signatures@, dev, p, p.start as int, Map::empty()),
    }
}

/// The pairs a scan reports from the chunk at `offset` on, with gap state
/// `m`, when the chunks at the offsets in `skipped` are passed over unread:
/// every other chunk's result, then the rest.
pub open spec fn scan_from_skipping(
    sigs: Seq<Signature>,
    dev: Seq<u8>,
    p: ScanPlan,
    offset: int,
    m: Map<Seq<char>, u64>,
    skipped: Set<int>,
) -> Seq<(u64, usize)>
    decreases (if offset < p.end { p.end - offset } else { 0 }),
{
    if p.chunk_size == 0 || offset >= p.end {
        Seq::empty()
    } else if skipped.contains(offset) {
        scan_from_skipping(sigs, dev, p, offset + p.chunk_size, m, skipped)
    } else {
        let w = chunk_window(p, offset);
        let c = chunk_result(sigs, clamped(dev, offset, w.0), offset, w.1, dev.len() as int, m);
        c.0 + scan_from_skipping(sigs, dev, p, offset + p.chunk_size, c.1, skipped)
    }
}

/// Every pair a scan of `dev` reports when the chunks at the offsets in
/// `skipped` are passed over unread.
pub open spec fn scan_skipping(config: CarvingConfig, dev: Seq<u8>, skipped: Set<int>) -> Seq<(u64, usize)> {
    match scan_plan(config, dev.len() as int) {
        None => Seq::empty(),
        Some(p) => scan_from_skipping(config.signatures@, dev, p, p.start as int, Map::empty(), skipped),
    }
}

/// Only the skipped offsets from `offset` on matter.
proof fn lemma_skipping_from(
    sigs: Seq<Signature>,
    dev: Seq<u8>,
    p: ScanPlan,
    offset: int,
    m: Map<Seq<char>, u64>,
    s1: Set<int>,
    s2: Set<int>,
)
    requires forall|x: int| x >= offset ==> (s1.contains(x) == s2.contains(x)),
    ensures scan_from_skipping(sigs, dev, p, offset, m, s1) == scan_from_skipping(sigs, dev, p, offset, m, s2),
    decreases (if offset < p.end { p.end - offset } else { 0 }),
{
    if !(p.chunk_size == 0 || offset >= p.end) {
        let w = chunk_window(p, offset);
        let c = chunk_result(sigs, clamped(dev, offset, w.0), offset, w.1, dev.len() as int, m);
        lemma_skipping_from(sigs, dev, p, offset + p.chunk_size, m, s1, s2);
        lemma_skipping_from(sigs, dev, p, offset + p.chunk_size, c.1, s1, s2);
    }
}

proof fn lemma_skipping_none_from(sigs: Seq<Signature>, dev: Seq<u8>, p: ScanPlan, offset: int, m: Map<Seq<char>, u64>)
    ensures scan_from_skipping(sigs, dev, p, offset, m, Set::empty()) == scan_from(sigs, dev, p, offset, m),
    decreases (if offset < p.end { p.end - offset } else { 0 }),
{
    if !(p.chunk_size == 0 || offset >= p.end) {
        let w = chunk_window(p, offset);
        let c = chunk_result(sigs, clamped(dev, offset, w.0), offset, w.1, dev.len() as int, m);
        lemma_skipping_none_from(sigs, dev, p, offset + p.chunk_size, c.1);
    }
}

/// Skipping the chunk at `offset` continues with the next chunk (or none,
/// past the window end) and the same gap state.
proof fn lemma_skip_chunk(sigs: Seq<Signature>, dev: Seq<u8>, p: ScanPlan, offset: int, next: int, m: Map<Seq<char>, u64>, f: Set<int>)
    requires
        p.chunk_size > 0,
        offset < p.end,
        next == offset + p.chunk_size || (next >= p.end && offset + p.chunk_size >= p.end),
    ensures scan_from_skipping(sigs, dev, p, next, m, f) == scan_from_skipping(sigs, dev, p, offset, m, f.insert(offset)),
{
    let cs = p.chunk_size as int;
    assert(f.insert(offset).contains(offset));
    lemma_skipping_from(sigs, dev, p, offset + cs, m, f, f.insert(offset));
    if next != offset + cs {
        assert(scan_from_skipping(sigs, dev, p, next, m, f) =~= Seq::<(u64, usize)>::empty());
        assert(scan_from_skipping(sigs, dev, p, offset + cs, m, f) =~= Seq::<(u64, usize)>::empty());
    }
}

/// A scan that skips no chunk reports every pair of the scan.
pub proof fn lemma_scan_skipping_none(config: CarvingConfig, dev: Seq<u8>)
    ensures scan_skipping(config, dev, Set::empty()) == scan_all(config, dev),
{
    match scan_plan(config, dev.len() as int) {
        None => {},
        Some(p) => lemma_skipping_none_from(config.signatures@, dev, p, p.start as int, Map::empty()),
    }
}

/// The pairs the chunk at `offset` yields before the gap filter: its raw
/// pairs that leave room for their minimum size, stably sorted by offset.
pub open spec fn chunk_candidates(sigs: Seq<Signature>, dev: Seq<u8>, p: ScanPlan, offset: int) -> Seq<(u64, usize)> {
    let w = chunk_window(p, offset);
    sorted_by_offset(
        raw_pairs(sigs, clamped(dev, offset, w.0), offset, w.1, sigs.len() as int).filter(fits_device(sigs, dev.len() as int)),
    )
}

/// The candidates of the chunks from `offset` on, chunk after chunk.
pub open spec fn candidates_from(sigs: Seq<Signature>, dev: Seq<u8>, p: ScanPlan, offset: int) -> Seq<(u64, usize)>
    decreases (if offset < p.end { p.end - offset } else { 0 }),
{
    if p.chunk_size == 0 || offset >= p.end {
        Seq::empty()
    } else {
        chunk_candidates(sigs, dev, p, offset) + candidates_from(sigs, dev, p, offset + p.chunk_size)
    }
}

proof fn lemma_gap_filter_concat(m: Map<Seq<char>, u64>, sigs: Seq<Signature>, a: Seq<(u64, usize)>, b: Seq<(u64, usize)>)
    ensures
        gap_filter(m, sigs, a + b) == (
            gap_filter(m, sigs, a).0 + gap_filter(gap_filter(m, sigs, a).1, sigs, b).0,
            gap_filter(gap_filter(m, sigs, a).1, sigs, b).1,
        ),
    decreases a.len(),
{
    if a.len() == 0 {
        assert(a + b =~= b);
        assert(gap_filter(m, sigs, a).0 + gap_filter(m, sigs, b).0 =~= gap_filter(m, sigs, b).0);
    } else {
        let st = gap_step(m, sigs, a[0]);
        assert((a + b)[0] == a[0]);
        assert((a + b).drop_first() =~= a.drop_first() + b);
        lemma_gap_filter_concat(st.1, sigs, a.drop_first(), b);
        let ra = gap_filter(st.1, sigs, a.drop_first());
        let rb = gap_filter(ra.1, sigs, b);
        if st.0 {
            assert(seq![a[0]] + (ra.0 + rb.0) =~= (seq![a[0]] + ra.0) + rb.0);
        }
    }
}

/// A whole scan is the gap filter run once over every chunk's candidates
/// in turn, its state carried from chunk to chunk.
pub proof fn lemma_scan_is_one_gap_filter(sigs: Seq<Signature>, dev: Seq<u8>, p: ScanPlan, offset: int, m: Map<Seq<char>, u64>)
    ensures scan_from(sigs, dev, p, offset, m) == gap_filter(m, sigs, candidates_from(sigs, dev, p, offset)).0,
    decreases (if offset < p.end { p.end - offset } else { 0 }),
{
    if p.chunk_size == 0 || offset >= p.end {
    } else {
        let c = chunk_candidates(sigs, dev, p, offset);
        let rest = candidates_from(sigs, dev, p, offset + p.chunk_size);
        lemma_gap_filter_concat(m, sigs, c, rest);
        lemma_scan_is_one_gap_filter(sigs, dev, p, offset + p.chunk_size, gap_filter(m, sigs, c).1);
    }
}

/// Over a whole scan, in the order its chunks deliver them, hits of one
/// suppression key whose signatures have a minimum gap lie at least the
/// later one's gap (saturating) apart, across chunk boundaries too.
pub proof fn lemma_scan_gap_spacing(config: CarvingConfig, dev: Seq<u8>, i: int, j: int)
    requires
        0 <= i < j < scan_all(config, dev).len(),
        gap_key(config.signatures@[scan_all(config, dev)[i].1 as int])
            == gap_key(config.signatures@[scan_all(config, dev)[j].1 as int]),
        config.signatures@[scan_all(config, dev)[i].1 as int].min_hit_gap > 0,
        config.signatures@[scan_all(config, dev)[j].1 as int].min_hit_gap > 0,
    ensures
        scan_all(config, dev)[j].0 >= sat_add(
            scan_all(config, dev)[i].0 as int,
            config.signatures@[scan_all(config, dev)[j].1 as int].min_hit_gap as int,
        ),
{
    let sigs = config.signatures@;
    match scan_plan(config, dev.len() as int) {
        None => {},
        Some(p) => {
            lemma_scan_is_one_gap_filter(sigs, dev, p, p.start as int, Map::empty());
            lemma_gap_filter_spacing(Map::empty(), sigs, candidates_from(sigs, dev, p, p.start as int), i, j);
        },
    }
}

/// Every signature reports the header's own position (no header offset).
pub open spec fn no_header_offsets(sigs: Seq<Signature>) -> bool {
    forall|i: int| 0 <= i < sigs.len() ==> (#[trigger] sigs[i]).header_offset == 0
}

proof fn lemma_hits_from_range(sig: Signature, d: Seq<u8>, end: int, i: int)
    ensures
        forall|q: int| 0 <= q < hits_from(sig, d, end, i).len()
            ==> i <= #[trigger] hits_from(sig, d, end, i)[q] < end,
    decreases end - i,
{
    if i < end {
        lemma_hits_from_range(sig, d, end, i + 1);
        let r = hits_from(sig, d, end, i + 1);
        if crate::scan_search::is_hit(sig, d, end, i) {
            assert forall|q: int| 0 <= q < hits_from(sig, d, end, i).len()
                implies i <= #[trigger] hits_from(sig, d, end, i)[q] < end by {
                if q > 0 {
                    assert(hits_from(sig, d, end, i)[q] == r[q - 1]);
                }
            }
        }
    }
}

proof fn lemma_raw_pairs_range(sigs: Seq<Signature>, d: Seq<u8>, base: int, report_end: int, n: int)
    requires
        0 <= n <= sigs.len(),
        no_header_offsets(sigs),
        0 <= base,
        base + d.len() <= u64::MAX,
    ensures
        forall|q: int| 0 <= q < raw_pairs(sigs, d, base, report_end, n).len() ==> {
            &&& base <= (#[trigger] raw_pairs(sigs, d, base, report_end, n)[q]).0
            &&& raw_pairs(sigs, d, base, report_end, n)[q].0 < base + report_end
        },
    decreases n,
{
    if n > 0 {
        lemma_raw_pairs_range(sigs, d, base, report_end, n - 1);
        let prev = raw_pairs(sigs, d, base, report_end, n - 1);
        let sg = sigs[n - 1];
        let hp = hit_positions(sg, d, report_end);
        let add = hp.map_values(as_pair(sg, base, n - 1));
        let end = if report_end < d.len() { report_end } else { d.len() as int };
        if !(sg.header@.len() == 0 || d.len() == 0 || !crate::scan_search::has_fixed_byte(sg.header@)) {
            lemma_hits_from_range(sg, d, end, 0);
        }
        assert forall|q: int| 0 <= q < (prev + add).len() implies {
            &&& base <= (#[trigger] (prev + add)[q]).0
            &&& (prev + add)[q].0 < base + report_end
        } by {
            if q >= prev.len() {
                let k = q - prev.len();
                assert(0 <= hp[k] < end);
                assert((prev + add)[q] == add[k]);
            }
        }
    }
}

proof fn lemma_sorted_contains(s: Seq<(u64, usize)>, x: (u64, usize))
    ensures sorted_by_offset(s).contains(x) <==> s.contains(x),
{
    let t = sorted_by_offset(s);
    lemma_sorted_by_offset_sorts(s);
    assert(with_offset(t, x.0) == with_offset(s, x.0));
    if t.contains(x) {
        let i = choose|i: int| 0 <= i < t.len() && t[i] == x;
        t.lemma_filter_contains(has_offset(x.0), i);
        s.lemma_filter_contains_rev(has_offset(x.0), x);
    }
    if s.contains(x) {
        let i = choose|i: int| 0 <= i < s.len() && s[i] == x;
        s.lemma_filter_contains(has_offset(x.0), i);
        t.lemma_filter_contains_rev(has_offset(x.0), x);
    }
}

proof fn lemma_gap_filter_sub(m: Map<Seq<char>, u64>, sigs: Seq<Signature>, t: Seq<(u64, usize)>)
    requires offsets_ordered(t),
    ensures
        offsets_ordered(gap_filter(m, sigs, t).0),
        forall|q: int| 0 <= q < gap_filter(m, sigs, t).0.len() ==> t.contains(#[trigger] gap_filter(m, sigs, t).0[q]),
    decreases t.len(),
{
    if t.len() > 0 {
        let st = gap_step(m, sigs, t[0]);
        let t1 = t.drop_first();
        assert(offsets_ordered(t1)) by {
            assert forall|i: int, j: int| 0 <= i < j < t1.len() implies (#[trigger] t1[i]).0 <= (#[trigger] t1[j]).0 by {
                assert(t1[i] == t[i + 1] && t1[j] == t[j + 1]);
            }
        }
        lemma_gap_filter_sub(st.1, sigs, t1);
        let rest = gap_filter(st.1, sigs, t1).0;
        let out = gap_filter(m, sigs, t).0;
        assert forall|q: int| 0 <= q < rest.len() implies t.contains(#[trigger] rest[q]) && t[0].0 <= rest[q].0 by {
            let w = choose|w: int| 0 <= w < t1.len() && t1[w] == rest[q];
            assert(t[w + 1] == rest[q]);
        }
        if st.0 {
            assert forall|q: int| 0 <= q < out.len() implies t.contains(#[trigger] out[q]) by {
                if q == 0 {
                    assert(out[0] == t[0]);
                } else {
                    assert(out[q] == rest[q - 1]);
                }
            }
            assert forall|i: int, j: int| 0 <= i < j < out.len() implies (#[trigger] out[i]).0 <= (#[trigger] out[j]).0 by {
                assert(out[j] == rest[j - 1]);
                if i > 0 {
                    assert(out[i] == rest[i - 1]);
                }
            }
        }
    }
}

proof fn lemma_candidates_ordered(sigs: Seq<Signature>, dev: Seq<u8>, p: ScanPlan, offset: int)
    requires
        no_header_offsets(sigs),
        dev.len() <= u64::MAX,
        0 <= offset,
    ensures
        offsets_ordered(candidates_from(sigs, dev, p, offset)),
        forall|q: int| 0 <= q < candidates_from(sigs, dev, p, offset).len()
            ==> offset <= (#[trigger] candidates_from(sigs, dev, p, offset)[q]).0,
    decreases (if offset < p.end { p.end - offset } else { 0 }),
{
    if !(p.chunk_size == 0 || offset >= p.end) {
        let cs = p.chunk_size as int;
        let w = chunk_window(p, offset);
        let d = clamped(dev, offset, w.0);
        let raw = raw_pairs(sigs, d, offset, w.1, sigs.len() as int);
        let f = raw.filter(fits_device(sigs, dev.len() as int));
        let c = chunk_candidates(sigs, dev, p, offset);
        let rest = candidates_from(sigs, dev, p, offset + cs);
        lemma_candidates_ordered(sigs, dev, p, offset + cs);
        lemma_raw_pairs_range(sigs, d, offset, w.1, sigs.len() as int);
        lemma_sorted_by_offset_sorts(f);
        assert(w.1 <= cs);
        assert forall|q: int| 0 <= q < c.len() implies offset <= (#[trigger] c[q]).0 < offset + cs by {
            lemma_sorted_contains(f, c[q]);
            assert(c.contains(c[q]));
            raw.lemma_filter_contains_rev(fits_device(sigs, dev.len() as int), c[q]);
        }
        let all = c + rest;
        assert forall|i: int, j: int| 0 <= i < j < all.len() implies (#[trigger] all[i]).0 <= (#[trigger] all[j]).0 by {
            if j < c.len() {
                assert(all[i] == c[i] && all[j] == c[j]);
            } else if i >= c.len() {
                assert(all[i] == rest[i - c.len()] && all[j] == rest[j - c.len()]);
            } else {
                assert(all[i] == c[i] && all[j] == rest[j - c.len()]);
            }
        }
        assert forall|q: int| 0 <= q < all.len() implies offset <= (#[trigger] all[q]).0 by {
            if q < c.len() {
                assert(all[q] == c[q]);
            } else {
                assert(all[q] == rest[q - c.len()]);
            }
        }
    }
}

/// When no signature shifts its hits back by a header offset, a whole scan
/// already delivers its hits in offset order, chunk after chunk: the batches
/// joined are sorted, so the final sort of [`Carver::scan`] changes nothing.
pub proof fn lemma_scan_batches_sorted(config: CarvingConfig, dev: Seq<u8>)
    requires
        no_header_offsets(config.signatures@),
        dev.len() <= u64::MAX,
    ensures
        offsets_ordered(scan_all(config, dev)),
        scan_pairs(config, dev) == scan_all(config, dev),
{
    let sigs = config.signatures@;
    match scan_plan(config, dev.len() as int) {
        None => {},
        Some(p) => {
            let cand = candidates_from(sigs, dev, p, p.start as int);
            lemma_scan_is_one_gap_filter(sigs, dev, p, p.start as int, Map::empty());
            lemma_candidates_ordered(sigs, dev, p, p.start as int);
            lemma_gap_filter_sub(Map::empty(), sigs, cand);
        },
    }
    let a = scan_all(config, dev);
    assert(stably_sorted(a, a));
    lemma_sorted_by_offset(a, a);
}

// ── Every match, once ────────────────────────────────────────────────────────

/// Signatures searched for their headers alone: no minimum size, no
/// minimum gap, no header offset and no pre-validator.
pub open spec fn plain_signatures(sigs: Seq<Signature>) -> bool {
    forall|i: int| 0 <= i < sigs.len() ==> {
        &&& (#[trigger] sigs[i]).min_size == 0
        &&& sigs[i].min_hit_gap == 0
        &&& sigs[i].header_offset == 0
        &&& sigs[i].pre_validate is None
    }
}

/// Signature `s` matches the device at `p`: its header is non-empty, has a
/// fixed byte, lies wholly on the device from `p` and matches there.
pub open spec fn device_match(s: Signature, dev: Seq<u8>, p: int) -> bool {
    &&& s.header@.len() > 0
    &&& has_fixed_byte(s.header@)
    &&& 0 <= p
    &&& p + s.header@.len() <= dev.len()
    &&& header_fits(s.header@, dev, p)
}

/// The pairs `(p, i)` of the signatures `i < n` that match the device at
/// `p`, in signature order.
pub open spec fn device_matches(sigs: Seq<Signature>, dev: Seq<u8>, p: int, n: int) -> Seq<(u64, usize)>
    decreases n,
{
    if n <= 0 {
        Seq::empty()
    } else {
        device_matches(sigs, dev, p, n - 1) + if device_match(sigs[n - 1], dev, p) {
            seq![(p as u64, (n - 1) as usize)]
        } else {
            Seq::empty()
        }
    }
}

/// Signature `s` is reported at position `q` of chunk data `d` whose
/// reports stop at `report_end`.
pub open spec fn chunk_match(s: Signature, d: Seq<u8>, report_end: int, q: int) -> bool {
    &&& s.header@.len() > 0
    &&& d.len() > 0
    &&& has_fixed_byte(s.header@)
    &&& is_hit(s, d, if report_end < d.len() { report_end } else { d.len() as int }, q)
}

/// The pairs `(k, i)` of the signatures `i < n` reported at `k` by a chunk
/// at `base`, in signature order.
pub open spec fn chunk_matches(sigs: Seq<Signature>, d: Seq<u8>, base: int, report_end: int, k: u64, n: int) -> Seq<(u64, usize)>
    decreases n,
{
    if n <= 0 {
        Seq::empty()
    } else {
        chunk_matches(sigs, d, base, report_end, k, n - 1) + if chunk_match(sigs[n - 1], d, report_end, k - base) {
            seq![(k, (n - 1) as usize)]
        } else {
            Seq::empty()
        }
    }
}

proof fn lemma_with_offset_single(x: (u64, usize), k: u64)
    ensures with_offset(seq![x], k) == (if x.0 == k { seq![x] } else { Seq::<(u64, usize)>::empty() }),
{
    reveal(Seq::filter);
    assert(seq![x].drop_last() =~= Seq::<(u64, usize)>::empty());
    lemma_with_offset_last(seq![x], k);
    assert(with_offset(Seq::<(u64, usize)>::empty(), k) =~= Seq::<(u64, usize)>::empty());
    assert(Seq::<(u64, usize)>::empty().push(x) =~= seq![x]);
}

proof fn lemma_hits_with_offset(sg: Signature, d: Seq<u8>, end: int, i: int, base: int, idx: int, k: u64)
    requires
        sg.header_offset == 0,
        0 <= base,
        0 <= i,
        base + end <= u64::MAX,
        0 <= idx <= usize::MAX,
    ensures
        with_offset(hits_from(sg, d, end, i).map_values(as_pair(sg, base, idx)), k)
            == (if i <= k - base < end && is_hit(sg, d, end, k - base) { seq![(k, idx as usize)] } else { Seq::<(u64, usize)>::empty() }),
    decreases end - i,
{
    let h = hits_from(sg, d, end, i);
    let f = as_pair(sg, base, idx);
    if i >= end {
        assert(h.map_values(f) =~= Seq::<(u64, usize)>::empty());
        reveal(Seq::filter);
    } else {
        lemma_hits_with_offset(sg, d, end, i + 1, base, idx, k);
        let r = hits_from(sg, d, end, i + 1);
        if is_hit(sg, d, end, i) {
            assert(h == seq![i] + r);
            assert(h.map_values(f) =~= seq![f(i)] + r.map_values(f));
            Seq::filter_distributes_over_add(seq![f(i)], r.map_values(f), has_offset(k));
            lemma_with_offset_single(f(i), k);
            assert(f(i) == ((base + i) as u64, idx as usize));
            if k - base == i {
                assert(seq![f(i)] + Seq::<(u64, usize)>::empty() =~= seq![(k, idx as usize)]);
            } else {
                assert(Seq::<(u64, usize)>::empty() + with_offset(r.map_values(f), k) =~= with_offset(r.map_values(f), k));
            }
        } else {
            assert(h == r);
        }
    }
}

proof fn lemma_raw_with_offset(sigs: Seq<Signature>, d: Seq<u8>, base: int, report_end: int, n: int, k: u64)
    requires
        0 <= n <= sigs.len(),
        sigs.len() <= usize::MAX,
        plain_signatures(sigs),
        0 <= base,
        base + d.len() <= u64::MAX,
    ensures with_offset(raw_pairs(sigs, d, base, report_end, n), k) == chunk_matches(sigs, d, base, report_end, k, n),
    decreases n,
{
    if n <= 0 {
        reveal(Seq::filter);
        assert(with_offset(raw_pairs(sigs, d, base, report_end, n), k) =~= Seq::<(u64, usize)>::empty());
    } else {
        lemma_raw_with_offset(sigs, d, base, report_end, n - 1, k);
        let sg = sigs[n - 1];
        let prev = raw_pairs(sigs, d, base, report_end, n - 1);
        let add = hit_positions(sg, d, report_end).map_values(as_pair(sg, base, n - 1));
        Seq::filter_distributes_over_add(prev, add, has_offset(k));
        let end = if report_end < d.len() { report_end } else { d.len() as int };
        if sg.header@.len() == 0 || d.len() == 0 || !has_fixed_byte(sg.header@) {
            assert(add =~= Seq::<(u64, usize)>::empty());
            reveal(Seq::filter);
            assert(with_offset(add, k) =~= Seq::<(u64, usize)>::empty());
            assert(!chunk_match(sg, d, report_end, k - base));
        } else {
            lemma_hits_with_offset(sg, d, end, 0, base, n - 1, k);
            assert(is_hit(sg, d, end, k - base) ==> 0 <= k - base < end);
        }
        assert(with_offset(prev, k) + with_offset(add, k) =~= chunk_matches(sigs, d, base, report_end, k, n));
    }
}

proof fn lemma_filter_keeps_all(s: Seq<(u64, usize)>, f: spec_fn((u64, usize)) -> bool)
    requires forall|i: int| 0 <= i < s.len() ==> f(#[trigger] s[i]),
    ensures s.filter(f) == s,
    decreases s.len(),
{
    reveal(Seq::filter);
    if s.len() > 0 {
        lemma_filter_keeps_all(s.drop_last(), f);
        assert(s.drop_last().push(s.last()) =~= s);
    }
}

proof fn lemma_overlap_bound(sigs: Seq<Signature>, n: int, i: int)
    requires 0 <= i < n <= sigs.len(),
    ensures
        sigs[i].header@.len() <= max_overlap(sigs, n) + 1,
        0 <= max_overlap(sigs, n) <= usize::MAX,
    decreases n,
{
    assert(sigs[n - 1].header.len() == sigs[n - 1].header@.len());
    if i < n - 1 {
        lemma_overlap_bound(sigs, n - 1, i);
    } else if n > 1 {
        lemma_overlap_bound(sigs, n - 1, 0);
    }
}

proof fn lemma_device_matches_outside(sigs: Seq<Signature>, dev: Seq<u8>, p: int, n: int)
    requires p < 0 || p >= dev.len(),
    ensures device_matches(sigs, dev, p, n) == Seq::<(u64, usize)>::empty(),
    decreases n,
{
    if n > 0 {
        lemma_device_matches_outside(sigs, dev, p, n - 1);
        assert(!device_match(sigs[n - 1], dev, p));
        assert(device_matches(sigs, dev, p, n) =~= Seq::<(u64, usize)>::empty());
    }
}

/// Within its report range, a chunk of a whole-device scan reports exactly
/// the device's matches; outside it, nothing.
proof fn lemma_chunk_matches_device(sigs: Seq<Signature>, dev: Seq<u8>, p: ScanPlan, o: int, k: u64, n: int)
    requires
        0 <= n <= sigs.len(),
        plain_signatures(sigs),
        p.chunk_size > 0,
        p.end == dev.len(),
        p.overlap == max_overlap(sigs, sigs.len() as int),
        0 <= o < p.end,
    ensures
        chunk_matches(sigs, clamped(dev, o, chunk_window(p, o).0), o, chunk_window(p, o).1, k, n)
            == (if o <= k < o + chunk_window(p, o).1 { device_matches(sigs, dev, k as int, n) } else { Seq::<(u64, usize)>::empty() }),
    decreases n,
{
    let w = chunk_window(p, o);
    let d = clamped(dev, o, w.0);
    let inside = o <= k < o + w.1;
    if n > 0 {
        lemma_chunk_matches_device(sigs, dev, p, o, k, n - 1);
        let s = sigs[n - 1];
        let hlen = s.header@.len() as int;
        let q = k - o;
        lemma_overlap_bound(sigs, sigs.len() as int, n - 1);
        assert(0 < w.0 && o + w.0 <= p.end && w.1 <= w.0);
        assert(d =~= dev.subrange(o, o + w.0));
        assert(d.len() == w.0);
        if inside && hlen > 0 {
            assert(q + hlen <= d.len() <==> k + hlen <= dev.len());
            if q + hlen <= d.len() {
                assert forall|i: int| 0 <= i < hlen implies #[trigger] d[q + i] == dev[k + i] by {}
                assert(header_fits(s.header@, d, q) == header_fits(s.header@, dev, k as int));
            }
            assert(chunk_match(s, d, w.1, q) == device_match(s, dev, k as int));
        } else {
            assert(!chunk_match(s, d, w.1, q));
        }
        if inside {
            assert(chunk_matches(sigs, d, o, w.1, k, n) =~= device_matches(sigs, dev, k as int, n));
        } else {
            assert(chunk_matches(sigs, d, o, w.1, k, n) =~= Seq::<(u64, usize)>::empty());
        }
    }
}

proof fn lemma_candidates_indices(sigs: Seq<Signature>, dev: Seq<u8>, p: ScanPlan, offset: int)
    ensures indices_in(candidates_from(sigs, dev, p, offset), sigs.len() as int),
    decreases (if offset < p.end { p.end - offset } else { 0 }),
{
    if !(p.chunk_size == 0 || offset >= p.end) {
        let w = chunk_window(p, offset);
        let d = clamped(dev, offset, w.0);
        let raw = raw_pairs(sigs, d, offset, w.1, sigs.len() as int);
        let f = raw.filter(fits_device(sigs, dev.len() as int));
        let c = chunk_candidates(sigs, dev, p, offset);
        let rest = candidates_from(sigs, dev, p, offset + p.chunk_size);
        lemma_candidates_indices(sigs, dev, p, offset + p.chunk_size);
        lemma_raw_pairs_index(sigs, d, offset, w.1, sigs.len() as int);
        assert forall|q: int| 0 <= q < c.len() implies (#[trigger] c[q]).1 < sigs.len() by {
            lemma_sorted_contains(f, c[q]);
            assert(c.contains(c[q]));
            raw.lemma_filter_contains_rev(fits_device(sigs, dev.len() as int), c[q]);
        }
        let all = c + rest;
        assert forall|q: int| 0 <= q < all.len() implies (#[trigger] all[q]).1 < sigs.len() by {
            if q < c.len() {
                assert(all[q] == c[q]);
            } else {
                assert(all[q] == rest[q - c.len()]);
            }
        }
    }
}

proof fn lemma_gap_filter_keeps_all(m: Map<Seq<char>, u64>, sigs: Seq<Signature>, t: Seq<(u64, usize)>)
    requires
        plain_signatures(sigs),
        indices_in(t, sigs.len() as int),
    ensures gap_filter(m, sigs, t).0 == t,
    decreases t.len(),
{
    if t.len() > 0 {
        assert(t[0].1 < sigs.len());
        assert(sigs[t[0].1 as int].min_hit_gap == 0);
        let t1 = t.drop_first();
        assert forall|q: int| 0 <= q < t1.len() implies (#[trigger] t1[q]).1 < sigs.len() by {
            assert(t1[q] == t[q + 1]);
        }
        lemma_gap_filter_keeps_all(m, sigs, t1);
        assert(seq![t[0]] + t1 =~= t);
    }
}

proof fn lemma_candidates_with_offset(sigs: Seq<Signature>, dev: Seq<u8>, p: ScanPlan, o: int, k: u64)
    requires
        plain_signatures(sigs),
        sigs.len() <= usize::MAX,
        p.chunk_size > 0,
        p.end == dev.len(),
        dev.len() <= u64::MAX,
        p.overlap == max_overlap(sigs, sigs.len() as int),
        0 <= o,
    ensures
        with_offset(candidates_from(sigs, dev, p, o), k)
            == (if o <= k { device_matches(sigs, dev, k as int, sigs.len() as int) } else { Seq::<(u64, usize)>::empty() }),
    decreases (if o < p.end { p.end - o } else { 0 }),
{
    let n = sigs.len() as int;
    if o >= p.end {
        reveal(Seq::filter);
        assert(with_offset(Seq::<(u64, usize)>::empty(), k) =~= Seq::<(u64, usize)>::empty());
        if o <= k {
            lemma_device_matches_outside(sigs, dev, k as int, n);
        }
    } else {
        let cs = p.chunk_size as int;
        let w = chunk_window(p, o);
        let d = clamped(dev, o, w.0);
        let raw = raw_pairs(sigs, d, o, w.1, n);
        let fits = fits_device(sigs, dev.len() as int);
        let c = chunk_candidates(sigs, dev, p, o);
        let rest = candidates_from(sigs, dev, p, o + cs);
        lemma_raw_pairs_index(sigs, d, o, w.1, n);
        assert forall|i: int| 0 <= i < raw.len() implies fits(#[trigger] raw[i]) by {
            assert(sigs[raw[i].1 as int].min_size == 0);
        }
        lemma_filter_keeps_all(raw, fits);
        lemma_sorted_by_offset_sorts(raw);
        assert(0 < w.0 && o + w.0 <= p.end);
        lemma_raw_with_offset(sigs, d, o, w.1, n, k);
        lemma_chunk_matches_device(sigs, dev, p, o, k, n);
        assert(with_offset(c, k) == (if o <= k < o + w.1 { device_matches(sigs, dev, k as int, n) } else { Seq::<(u64, usize)>::empty() }));
        Seq::filter_distributes_over_add(c, rest, has_offset(k));
        lemma_candidates_with_offset(sigs, dev, p, o + cs, k);
        if o + cs >= p.end {
            assert(w.1 == p.end - o);
            if k >= o + w.1 {
                lemma_device_matches_outside(sigs, dev, k as int, n);
            }
        } else {
            assert(w.1 == cs);
        }
        if o <= k < o + w.1 {
            assert(device_matches(sigs, dev, k as int, n) + Seq::<(u64, usize)>::empty() =~= device_matches(sigs, dev, k as int, n));
        } else {
            assert(Seq::<(u64, usize)>::empty() + with_offset(rest, k) =~= with_offset(rest, k));
        }
    }
}

/// A scan of the whole device, with signatures searched for their headers
/// alone, reports at every offset exactly the signatures whose headers match
/// there, each once and in signature order, and the hits come out ordered by
/// offset: no match is missed at a chunk boundary and none is reported twice
/// by overlapping chunks.
pub proof fn lemma_scan_finds_every_match_once(config: CarvingConfig, dev: Seq<u8>, k: u64)
    requires
        plain_signatures(config.signatures@),
        config.start_byte == 0,
        config.end_byte is None,
        config.scan_chunk_size > 0,
        dev.len() <= u64::MAX,
    ensures
        offsets_ordered(scan_pairs(config, dev)),
        with_offset(scan_pairs(config, dev), k)
            == device_matches(config.signatures@, dev, k as int, config.signatures@.len() as int),
{
    let sigs = config.signatures@;
    let n = sigs.len() as int;
    assert(config.signatures.len() == sigs.len());
    let a = scan_all(config, dev);
    lemma_sorted_by_offset_sorts(a);
    match scan_plan(config, dev.len() as int) {
        None => {
            reveal(Seq::filter);
            assert(with_offset(a, k) =~= Seq::<(u64, usize)>::empty());
            if dev.len() == 0 {
                lemma_device_matches_outside(sigs, dev, k as int, n);
            } else {
                assert(n == 0);
            }
        },
        Some(p) => {
            if n > 0 {
                lemma_overlap_bound(sigs, n, 0);
            }
            assert(p.start == 0 && p.end == dev.len());
            let cands = candidates_from(sigs, dev, p, 0);
            lemma_scan_is_one_gap_filter(sigs, dev, p, 0, Map::empty());
            lemma_candidates_indices(sigs, dev, p, 0);
            lemma_gap_filter_keeps_all(Map::empty(), sigs, cands);
            lemma_candidates_with_offset(sigs, dev, p, 0, k);
        },
    }
}

/// The hits of a whole scan, as pairs: all of them, stably sorted by
/// offset.
pub open spec fn scan_pairs(config: CarvingConfig, dev: Seq<u8>) -> Seq<(u64, usize)> {
    sorted_by_offset(scan_all(config, dev))
}

/// Progress of a scan after a chunk.
#[derive(Debug, Clone, Copy)]
pub struct ScanProgress {
    /// Bytes scanned so far (the next chunk's offset, at most the window end).
    pub bytes_scanned: u64,
    /// Total device size in bytes.
    pub device_size: u64,
    /// Number of hits reported so far.
    pub hits_found: usize,
    /// Scan window start byte.
    pub scan_start: u64,
    /// Scan window end byte.
    pub scan_end: u64,
}

/// What one step of a scan did.
pub enum ScanStep {
    /// The window is done; nothing was read.
    Finished,
    /// The chunk could not be read and was skipped.
    ReadFailed,
    /// The chunk's hits, in offset order.
    Hits(Vec<CarveHit>),
}

enum PairStep {
    Finished,
    ReadFailed,
    Pairs(Vec<(u64, usize)>),
}

/// Where a scan stands: its plan, the next chunk's offset, the gap state
/// and the number of hits reported.
pub struct ScanCursor {
    plan: Option<ScanPlan>,
    offset: u64,
    gaps: GapTracker,
    hits_found: usize,
    device_size: u64,
    last_read: u64,
}

impl ScanCursor {
    /// The cursor belongs to a scan of `config` over `dev`.
    pub closed spec fn wf(&self, config: CarvingConfig, dev: Seq<u8>) -> bool {
        &&& self.gaps.wf()
        &&& self.plan == scan_plan(config, dev.len() as int)
        &&& self.device_size == dev.len()
        &&& (self.plan matches Some(p) ==> {
            &&& p.start <= self.offset
            &&& p.chunk_size == config.scan_chunk_size
            &&& p.overlap == max_overlap(config.signatures@, config.signatures@.len() as int)
        })
    }

    /// No chunk is left.
    pub closed spec fn finished(&self) -> bool {
        match self.plan {
            None => true,
            Some(p) => self.offset >= p.end,
        }
    }

    /// Bytes of the window still to scan.
    pub closed spec fn remaining(&self) -> int {
        match self.plan {
            None => 0,
            Some(p) => if self.offset < p.end { p.end - self.offset } else { 0 },
        }
    }

    /// The pairs the scan still has to report.
    pub closed spec fn pending(&self, sigs: Seq<Signature>, dev: Seq<u8>) -> Seq<(u64, usize)> {
        match self.plan {
            None => Seq::empty(),
            Some(p) => scan_from(sigs, dev, p, self.offset as int, self@),
        }
    }

    /// Bytes the next chunk reads.
    pub closed spec fn window_read(&self) -> u64 {
        match self.plan {
            None => 0,
            Some(p) => chunk_window(p, self.offset as int).0 as u64,
        }
    }

    /// The pairs the scan still has to report when the chunks at the
    /// offsets in `skipped` are passed over unread.
    pub closed spec fn pending_skipping(&self, sigs: Seq<Signature>, dev: Seq<u8>, skipped: Set<int>) -> Seq<(u64, usize)> {
        match self.plan {
            None => Seq::empty(),
            Some(p) => scan_from_skipping(sigs, dev, p, self.offset as int, self@, skipped),
        }
    }

    /// The pairs the scan still has to report once the next chunk is
    /// skipped unread: the chunks after it, with the gap state unchanged.
    pub closed spec fn pending_past_next(&self, sigs: Seq<Signature>, dev: Seq<u8>) -> Seq<(u64, usize)> {
        match self.plan {
            None => Seq::empty(),
            Some(p) => scan_from(sigs, dev, p, self.offset + p.chunk_size, self@),
        }
    }

    /// The pairs the next chunk reports.
    pub closed spec fn next_chunk(&self, sigs: Seq<Signature>, dev: Seq<u8>) -> Seq<(u64, usize)> {
        match self.plan {
            None => Seq::empty(),
            Some(p) => if self.offset >= p.end {
                Seq::empty()
            } else {
                let w = chunk_window(p, self.offset as int);
                chunk_result(sigs, clamped(dev, self.offset as int, w.0), self.offset as int, w.1, dev.len() as int, self@).0
            },
        }
    }

    /// Hits reported so far (saturating).
    pub closed spec fn reported(&self) -> usize {
        self.hits_found
    }

    /// Bytes read for the last chunk that was read.
    pub closed spec fn read_len(&self) -> u64 {
        self.last_read
    }

    /// Bytes read for the last chunk that was read (0 before the first).
    pub fn last_read(&self) -> (r: u64)
        ensures r == self.read_len(),
    {
        self.last_read
    }

    /// The progress record after the chunks done so far: the next offset
    /// (at most the window end), the device size, the hits reported and
    /// the window.
    pub closed spec fn progress_spec(&self) -> ScanProgress {
        match self.plan {
            None => ScanProgress { bytes_scanned: 0, device_size: self.device_size, hits_found: self.hits_found, scan_start: 0, scan_end: 0 },
            Some(p) => ScanProgress {
                bytes_scanned: if self.offset < p.end { self.offset } else { p.end },
                device_size: self.device_size,
                hits_found: self.hits_found,
                scan_start: p.start,
                scan_end: p.end,
            },
        }
    }

    /// Progress of the scan so far.
    pub fn progress(&self) -> (r: ScanProgress)
        ensures r == self.progress_spec(),
    {
        match self.plan {
            None => ScanProgress { bytes_scanned: 0, device_size: self.device_size, hits_found: self.hits_found, scan_start: 0, scan_end: 0 },
            Some(p) => ScanProgress {
                bytes_scanned: if self.offset < p.end { self.offset } else { p.end },
                device_size: self.device_size,
                hits_found: self.hits_found,
                scan_start: p.start,
                scan_end: p.end,
            },
        }
    }
}

/// The batches of a step-wise scan joined in order: the next chunk's pairs
/// of every cursor but the last.
pub open spec fn joined_batches(cs: Seq<ScanCursor>, sigs: Seq<Signature>, dev: Seq<u8>) -> Seq<(u64, usize)>
    decreases cs.len(),
{
    if cs.len() <= 1 {
        Seq::empty()
    } else {
        cs[0].next_chunk(sigs, dev) + joined_batches(cs.drop_first(), sigs, dev)
    }
}

proof fn lemma_joined_batches_pending(cs: Seq<ScanCursor>, sigs: Seq<Signature>, dev: Seq<u8>)
    requires
        cs.len() >= 1,
        forall|i: int| 0 <= i < cs.len() - 1 ==> (#[trigger] cs[i]).pending(sigs, dev)
            == cs[i].next_chunk(sigs, dev) + cs[i + 1].pending(sigs, dev),
        cs.last().finished(),
    ensures joined_batches(cs, sigs, dev) == cs[0].pending(sigs, dev),
    decreases cs.len(),
{
    if cs.len() == 1 {
        let c = cs[0];
        match c.plan {
            None => {},
            Some(p) => {
                assert(c.offset >= p.end);
            },
        }
    } else {
        let rest = cs.drop_first();
        assert forall|i: int| 0 <= i < rest.len() - 1 implies (#[trigger] rest[i]).pending(sigs, dev)
            == rest[i].next_chunk(sigs, dev) + rest[i + 1].pending(sigs, dev) by {
            assert(rest[i] == cs[i + 1] && rest[i + 1] == cs[i + 2]);
        }
        assert(rest.last() == cs.last());
        lemma_joined_batches_pending(rest, sigs, dev);
        assert(cs[0].pending(sigs, dev) == cs[0].next_chunk(sigs, dev) + cs[1].pending(sigs, dev));
    }
}

/// A step-wise scan delivers the whole scan: given its cursors, the first
/// as [`Carver::start_scan`] made it, each next one as [`Carver::scan_next`]
/// left the one before when the device read well, and the last finished,
/// its batches joined are every pair of the scan.  So, when no signature
/// shifts its hits back by a header offset, the joined batches come in
/// offset order, and hits of one key whose signatures have a minimum gap
/// lie that gap apart across batches too ([`lemma_scan_gap_spacing`]).
pub proof fn lemma_step_scan_batches(config: CarvingConfig, dev: Seq<u8>, cs: Seq<ScanCursor>)
    requires
        cs.len() >= 1,
        cs[0].pending(config.signatures@, dev) == scan_all(config, dev),
        forall|i: int| 0 <= i < cs.len() - 1 ==> (#[trigger] cs[i]).pending(config.signatures@, dev)
            == cs[i].next_chunk(config.signatures@, dev) + cs[i + 1].pending(config.signatures@, dev),
        cs.last().finished(),
    ensures
        joined_batches(cs, config.signatures@, dev) == scan_all(config, dev),
        no_header_offsets(config.signatures@) && dev.len() <= u64::MAX
            ==> offsets_ordered(joined_batches(cs, config.signatures@, dev)),
{
    lemma_joined_batches_pending(cs, config.signatures@, dev);
    if no_header_offsets(config.signatures@) && dev.len() <= u64::MAX {
        lemma_scan_batches_sorted(config, dev);
    }
}

impl View for ScanCursor {
    type V = Map<Seq<char>, u64>;

    /// The gap state.
    closed spec fn view(&self) -> Map<Seq<char>, u64> {
        self.gaps@
    }
}

// ── Extraction ───────────────────────────────────────────────────────────────

/// Index of the first signature from `i` on named `name`.
pub open spec fn named_from(sigs: Seq<Signature>, name: Seq<char>, i: int) -> Option<int>
    decreases sigs.len() - i,
{
    if i < 0 || i >= sigs.len() {
        None
    } else if sigs[i].name@ == name {
        Some(i)
    } else {
        named_from(sigs, name, i + 1)
    }
}

/// The configured signature named like `sig`, or `sig` itself.
pub open spec fn configured(sigs: Seq<Signature>, sig: Signature) -> Signature {
    match named_from(sigs, sig.name@, 0) {
        Some(i) => sigs[i],
        None => sig,
    }
}

/// The signature an extraction follows: a hit whose signature carries no
/// size hint takes the configured signature of the same name, so that
/// hints added since the hit was recorded apply.
pub open spec fn live_signature(sigs: Seq<Signature>, sig: Signature) -> Signature {
    if sig.size_hint is None { configured(sigs, sig) } else { sig }
}

/// How many bytes to extract for a file at `off` and whether a size hint
/// gave that number; none when the hit is skipped (a frame-walking hint
/// found no structure, or the size falls short of `min_size`).  The size
/// is capped by `max_size` and by what the device holds from `off`.
pub open spec fn extraction_size(dev: Seq<u8>, off: int, sig: Signature) -> Option<(int, bool)> {
    let cap = min(sig.max_size as int, dev.len() - off);
    let sized: (int, bool, bool) = match sig.size_hint {
        Some(h) => match size_hint_spec(dev, off, h, sig.max_size as int) {
            Some(s) => (min(s as int, cap), true, false),
            None => (cap, false, skips_on_failure(h)),
        },
        None => (cap, false, false),
    };
    if sized.2 || (sig.min_size > 0 && sized.0 < sig.min_size) {
        None
    } else {
        Some((sized.0, sized.1))
    }
}

/// The bytes extracted for a hit at `off` with signature `hit_sig`: none
/// past the device end or for a skipped hit; else the sized window from
/// `off`, whole when a size hint gave the size or the signature has no
/// footer, otherwise cut after its first (or, with `footer_last`, its last)
/// footer plus `footer_extra` bytes.
pub open spec fn extract_bytes(sigs: Seq<Signature>, dev: Seq<u8>, off: int, hit_sig: Signature) -> Seq<u8> {
    let sig = live_signature(sigs, hit_sig);
    if off >= dev.len() {
        Seq::empty()
    } else {
        match extraction_size(dev, off, sig) {
            None => Seq::empty(),
            Some(sz) => {
                let w = window(dev, off, off + sz.0);
                if sz.1 || sig.footer@.len() == 0 {
                    w
                } else if sig.footer_last {
                    through_last_footer(w, sig.footer@, sig.footer_extra as int)
                } else {
                    through_first_footer(w, sig.footer@, sig.footer_extra as int)
                }
            },
        }
    }
}

/// An extraction never yields more than the signature's `max_size`, nor
/// more than the device holds from the hit on, and what it yields is the
/// device's bytes from the hit on.
pub proof fn lemma_extract_within_limits(sigs: Seq<Signature>, dev: Seq<u8>, off: int, hit_sig: Signature)
    requires 0 <= off,
    ensures
        off >= dev.len() ==> extract_bytes(sigs, dev, off, hit_sig).len() == 0,
        off < dev.len() ==> {
            let e = extract_bytes(sigs, dev, off, hit_sig);
            &&& e.len() <= live_signature(sigs, hit_sig).max_size
            &&& off + e.len() <= dev.len()
            &&& e == dev.subrange(off, off + e.len())
        },
{
    let sig = live_signature(sigs, hit_sig);
    if off < dev.len() {
        match extraction_size(dev, off, sig) {
            None => {},
            Some(sz) => {
                let w = window(dev, off, off + sz.0);
                assert(0 <= sz.0 <= sig.max_size && off + sz.0 <= dev.len());
                assert(w =~= dev.subrange(off, off + sz.0));
                crate::carver_io::lemma_footer_cuts_are_prefixes(w, sig.footer@, sig.footer_extra as int);
                let e = extract_bytes(sigs, dev, off, hit_sig);
                assert(e == w.take(e.len() as int));
                assert(e =~= dev.subrange(off, off + e.len()));
            },
        }
    }
}

/// The window `[off, max_end)` of the device, and both of its cuts at a
/// footer, are the device's bytes from `off` on.
proof fn lemma_cut_windows_from(dev: Seq<u8>, off: int, max_end: int, footer: Seq<u8>, extra: int)
    requires 0 <= off <= max_end <= dev.len(), extra >= 0,
    ensures
        window(dev, off, max_end) == clamped(dev, off, window(dev, off, max_end).len() as int),
        through_first_footer(window(dev, off, max_end), footer, extra)
            == clamped(dev, off, through_first_footer(window(dev, off, max_end), footer, extra).len() as int),
        through_last_footer(window(dev, off, max_end), footer, extra)
            == clamped(dev, off, through_last_footer(window(dev, off, max_end), footer, extra).len() as int),
        through_first_footer(window(dev, off, max_end), footer, extra).len() <= max_end - off,
        through_last_footer(window(dev, off, max_end), footer, extra).len() <= max_end - off,
{
    let w = window(dev, off, max_end);
    assert(w =~= dev.subrange(off, max_end));
    crate::carver_io::lemma_footer_cuts_are_prefixes(w, footer, extra);
    let a = through_first_footer(w, footer, extra);
    let b = through_last_footer(w, footer, extra);
    assert(a =~= clamped(dev, off, a.len() as int));
    assert(b =~= clamped(dev, off, b.len() as int));
    assert(w =~= clamped(dev, off, w.len() as int));
}

/// Is a hit worth extracting?  Only a frame-walking hint of the configured
/// signature can say no: when its walk finds no structure.
pub open spec fn viable(sigs: Seq<Signature>, dev: Seq<u8>, off: int, hit_sig: Signature) -> bool {
    let sig = configured(sigs, hit_sig);
    match sig.size_hint {
        Some(h) => !skips_on_failure(h) || size_hint_spec(dev, off, h, sig.max_size as int) is Some,
        None => true,
    }
}

/// Index of the first signature named `name`.
fn find_named(sigs: &Vec<Signature>, name: &String) -> (r: Option<usize>)
    ensures
        r matches Some(i) ==> i < sigs@.len() && named_from(sigs@, name@, 0) == Some(i as int),
        r is None ==> named_from(sigs@, name@, 0) is None,
{
    let mut i: usize = 0;
    while i < sigs.len()
        invariant
            i <= sigs.len(),
            named_from(sigs@, name@, 0) == named_from(sigs@, name@, i as int),
        decreases sigs.len() - i,
    {
        if sigs[i].name == *name {
            return Some(i);
        }
        i += 1;
    }
    None
}

// ── The carver ───────────────────────────────────────────────────────────────

/// Signature-based file carving engine over a read-only device.
pub struct Carver<D> {
    device: D,
    config: CarvingConfig,
}

impl<D: BlockDevice> Carver<D> {
    /// The device.
    pub closed spec fn dev(&self) -> D {
        self.device
    }

    /// The configuration.
    pub closed spec fn cfg(&self) -> CarvingConfig {
        self.config
    }

    pub fn new(device: D, config: CarvingConfig) -> (r: Self)
        ensures r.dev() == device, r.cfg() == config,
    {
        Carver { device, config }
    }

    /// Size of the device in bytes.
    pub fn device_size(&self) -> (r: u64)
        ensures r == self.dev().contents().len(),
    {
        self.device.size()
    }

    /// Returns a reference to the config.
    pub fn config(&self) -> (r: &CarvingConfig)
        ensures *r == self.cfg(),
    {
        &self.config
    }

    /// A cursor at the start of a scan.
    pub fn start_scan(&self) -> (r: ScanCursor)
        ensures
            r.wf(self.cfg(), self.dev().contents()),
            r.pending(self.cfg().signatures@, self.dev().contents()) == scan_all(self.cfg(), self.dev().contents()),
            forall|f: Set<int>| #[trigger] r.pending_skipping(self.cfg().signatures@, self.dev().contents(), f)
                == scan_skipping(self.cfg(), self.dev().contents(), f),
            r.reported() == 0,
    {
        let device_size = self.device.size();
        let plan = plan_scan(&self.config, device_size);
        let offset = match plan {
            Some(p) => p.start,
            None => 0,
        };
        let gaps = GapTracker::new();
        ScanCursor { plan, offset, gaps, hits_found: 0, device_size, last_read: 0 }
    }

    fn next_pairs(&self, cur: &mut ScanCursor) -> (r: PairStep)
        requires
            old(cur).wf(self.cfg(), self.dev().contents()),
            self.cfg().scan_chunk_size > 0,
        ensures
            final(cur).wf(self.cfg(), self.dev().contents()),
            (r is Finished) == old(cur).finished(),
            r is Finished ==> *final(cur) == *old(cur),
            !(r is Finished) ==> final(cur).remaining() < old(cur).remaining(),
            r matches PairStep::Pairs(v) ==> indices_in(v@, self.cfg().signatures@.len() as int) && offsets_ordered(v@),
            r matches PairStep::Pairs(_) ==> final(cur).read_len() == old(cur).window_read(),
            final(cur).reported() == match r {
                PairStep::Pairs(v) => sat_count(old(cur).reported(), v@.len()),
                _ => old(cur).reported(),
            },
            r matches PairStep::Pairs(v) ==> {
                &&& v@ == old(cur).next_chunk(self.cfg().signatures@, self.dev().contents())
                &&& old(cur).pending(self.cfg().signatures@, self.dev().contents())
                    == old(cur).next_chunk(self.cfg().signatures@, self.dev().contents())
                        + final(cur).pending(self.cfg().signatures@, self.dev().contents())
            },
            r is ReadFailed ==> final(cur).pending(self.cfg().signatures@, self.dev().contents())
                == old(cur).pending_past_next(self.cfg().signatures@, self.dev().contents()),
            self.dev().healthy() && scan_fits(self.cfg()) ==> !(r is ReadFailed),
            !(r is Finished) ==> old(cur).offset < final(cur).offset,
            r is ReadFailed ==> forall|f: Set<int>|
                #[trigger] final(cur).pending_skipping(self.cfg().signatures@, self.dev().contents(), f)
                    == old(cur).pending_skipping(self.cfg().signatures@, self.dev().contents(), f.insert(old(cur).offset as int)),
            r matches PairStep::Pairs(v) ==> forall|f: Set<int>| !f.contains(old(cur).offset as int) ==>
                #[trigger] old(cur).pending_skipping(self.cfg().signatures@, self.dev().contents(), f)
                    == v@ + final(cur).pending_skipping(self.cfg().signatures@, self.dev().contents(), f),
            r is Finished ==> forall|f: Set<int>|
                #[trigger] old(cur).pending_skipping(self.cfg().signatures@, self.dev().contents(), f) == Seq::<(u64, usize)>::empty(),
    {
        let ghost sigs = self.cfg().signatures@;
        let ghost dev = self.dev().contents();
        let ghost old_cur = *cur;
        let p = match cur.plan {
            None => return PairStep::Finished,
            Some(p) => p,
        };
        if cur.offset >= p.end {
            proof {
                assert(old_cur.pending(sigs, dev) =~= Seq::<(u64, usize)>::empty());
                assert(old_cur.next_chunk(sigs, dev) + old_cur.pending(sigs, dev) =~= Seq::<(u64, usize)>::empty());
            }
            return PairStep::Finished;
        }
        let offset = cur.offset;
        let (read, report) = p.window(offset);
        let next = offset.saturating_add(p.chunk_size);
        proof {
            assert(p.chunk_size > 0);
            assert(read <= p.chunk_size + p.overlap);
            assert(p.overlap == max_overlap(sigs, sigs.len() as int));
        }
        if read > usize::MAX as u64 {
            cur.offset = next;
            proof {
                assert forall|f: Set<int>| #[trigger] cur.pending_skipping(sigs, dev, f)
                    == old_cur.pending_skipping(sigs, dev, f.insert(old_cur.offset as int)) by {
                    lemma_skip_chunk(sigs, dev, p, offset as int, next as int, cur@, f);
                }
            }
            return PairStep::ReadFailed;
        }
        let data = match read_bytes_clamped(&self.device, offset, read as usize) {
            Ok(d) => d,
            Err(_) => {
                cur.offset = next;
                proof {
                    assert forall|f: Set<int>| #[trigger] cur.pending_skipping(sigs, dev, f)
                        == old_cur.pending_skipping(sigs, dev, f.insert(old_cur.offset as int)) by {
                        lemma_skip_chunk(sigs, dev, p, offset as int, next as int, cur@, f);
                    }
                }
                return PairStep::ReadFailed;
            },
        };
        proof {
            assert(data@.len() <= dev.len() - offset);
        }
        let pairs = chunk_pairs(&self.config.signatures, &data, offset, report as usize, cur.device_size, &mut cur.gaps);
        cur.offset = next;
        cur.hits_found = cur.hits_found.saturating_add(pairs.len());
        cur.last_read = read;
        proof {
            let w = chunk_window(p, offset as int);
            let c = chunk_result(sigs, clamped(dev, offset as int, w.0), offset as int, w.1, dev.len() as int, old_cur@);
            assert(old_cur.pending(sigs, dev) == c.0 + scan_from(sigs, dev, p, offset + p.chunk_size, c.1));
            assert(cur@ == c.1);
            if next as int != offset + p.chunk_size {
                assert(scan_from(sigs, dev, p, offset + p.chunk_size, c.1) =~= Seq::<(u64, usize)>::empty());
                assert(scan_from(sigs, dev, p, next as int, c.1) =~= Seq::<(u64, usize)>::empty());
            }
            assert(old_cur.next_chunk(sigs, dev) == c.0);
            assert forall|f: Set<int>| !f.contains(old_cur.offset as int) implies
                #[trigger] old_cur.pending_skipping(sigs, dev, f) == pairs@ + cur.pending_skipping(sigs, dev, f) by {
                assert(old_cur.pending_skipping(sigs, dev, f)
                    == c.0 + scan_from_skipping(sigs, dev, p, offset + p.chunk_size, c.1, f));
                if next as int != offset + p.chunk_size {
                    assert(scan_from_skipping(sigs, dev, p, offset + p.chunk_size, c.1, f) =~= Seq::<(u64, usize)>::empty());
                    assert(scan_from_skipping(sigs, dev, p, next as int, c.1, f) =~= Seq::<(u64, usize)>::empty());
                }
            }
        }
        PairStep::Pairs(pairs)
    }

    /// Scans the next chunk: its hits in offset order, or that it could not
    /// be read, or that the scan is finished.  The hits of all steps, in
    /// turn, are every hit the scan reports ([`scan_all`]).
    pub fn scan_next(&self, cur: &mut ScanCursor) -> (r: ScanStep)
        requires
            old(cur).wf(self.cfg(), self.dev().contents()),
            self.cfg().scan_chunk_size > 0,
        ensures
            final(cur).wf(self.cfg(), self.dev().contents()),
            (r is Finished) == old(cur).finished(),
            r is Finished ==> *final(cur) == *old(cur),
            !(r is Finished) ==> final(cur).remaining() < old(cur).remaining(),
            r matches ScanStep::Hits(h) ==> forall|i: int, j: int|
                0 <= i < j < h@.len() ==> (#[trigger] h@[i]).byte_offset <= (#[trigger] h@[j]).byte_offset,
            r matches ScanStep::Hits(_) ==> final(cur).read_len() == old(cur).window_read(),
            final(cur).reported() == match r {
                ScanStep::Hits(h) => sat_count(old(cur).reported(), h@.len()),
                _ => old(cur).reported(),
            },
            r matches ScanStep::Hits(h) ==> {
                &&& hits_match(h@, self.cfg().signatures@, old(cur).next_chunk(self.cfg().signatures@, self.dev().contents()))
                &&& old(cur).pending(self.cfg().signatures@, self.dev().contents())
                    == old(cur).next_chunk(self.cfg().signatures@, self.dev().contents())
                        + final(cur).pending(self.cfg().signatures@, self.dev().contents())
            },
            r is ReadFailed ==> final(cur).pending(self.cfg().signatures@, self.dev().contents())
                == old(cur).pending_past_next(self.cfg().signatures@, self.dev().contents()),
            self.dev().healthy() && scan_fits(self.cfg()) ==> !(r is ReadFailed),
    {
        match self.next_pairs(cur) {
            PairStep::Finished => ScanStep::Finished,
            PairStep::ReadFailed => ScanStep::ReadFailed,
            PairStep::Pairs(v) => {
                let h = hits_of(&self.config.signatures, &v);
                proof {
                    assert forall|i: int, j: int| 0 <= i < j < h@.len() implies (#[trigger] h@[i]).byte_offset <= (#[trigger] h@[j]).byte_offset by {
                        assert(h@[i].byte_offset == v@[i].0 && h@[j].byte_offset == v@[j].0);
                    }
                }
                ScanStep::Hits(h)
            },
        }
    }

    /// Scan the whole window and return every hit, sorted by offset.
    /// Chunks that cannot be read are skipped: the hits are then those of
    /// the scan with those chunks passed over ([`scan_skipping`]), and with
    /// none skipped they are every hit of the scan
    /// ([`lemma_scan_skipping_none`]).
    pub fn scan(&self) -> (r: Result<Vec<CarveHit>, CarveError>)
        requires self.cfg().scan_chunk_size > 0,
        ensures
            r is Ok,
            r matches Ok(hits) ==> forall|i: int, j: int|
                0 <= i < j < hits@.len() ==> (#[trigger] hits@[i]).byte_offset <= (#[trigger] hits@[j]).byte_offset,
            self.dev().healthy() && scan_fits(self.cfg()) ==> (r matches Ok(hits) && hits_match(
                hits@,
                self.cfg().signatures@,
                scan_pairs(self.cfg(), self.dev().contents()),
            )),
            r matches Ok(hits) ==> exists|skipped: Set<int>| hits_match(
                hits@,
                self.cfg().signatures@,
                #[trigger] sorted_by_offset(scan_skipping(self.cfg(), self.dev().contents(), skipped)),
            ),
    {
        let ghost sigs = self.cfg().signatures@;
        let ghost dev = self.dev().contents();
        let ghost good = self.dev().healthy() && scan_fits(self.cfg());
        let mut cur = self.start_scan();
        let mut all: Vec<(u64, usize)> = Vec::new();
        let ghost mut skipped: Set<int> = Set::empty();
        proof {
            assert forall|f: Set<int>| (forall|x: int| f.contains(x) ==> x >= cur.offset) implies
                all@ + #[trigger] cur.pending_skipping(sigs, dev, f) == scan_skipping(self.cfg(), dev, skipped.union(f)) by {
                assert(skipped.union(f) =~= f);
                assert(all@ + cur.pending_skipping(sigs, dev, f) =~= cur.pending_skipping(sigs, dev, f));
            }
        }
        loop
            invariant
                self.cfg().scan_chunk_size > 0,
                sigs == self.cfg().signatures@,
                dev == self.dev().contents(),
                good == (self.dev().healthy() && scan_fits(self.cfg())),
                cur.wf(self.cfg(), dev),
                indices_in(all@, sigs.len() as int),
                good ==> all@ + cur.pending(sigs, dev) == scan_all(self.cfg(), dev),
                forall|f: Set<int>| (forall|x: int| f.contains(x) ==> x >= cur.offset) ==>
                    all@ + #[trigger] cur.pending_skipping(sigs, dev, f) == scan_skipping(self.cfg(), dev, skipped.union(f)),
            ensures
                indices_in(all@, sigs.len() as int),
                good ==> all@ == scan_all(self.cfg(), dev),
                all@ == scan_skipping(self.cfg(), dev, skipped),
            decreases cur.remaining(),
        {
            let ghost before = cur;
            let ghost before_all = all@;
            match self.next_pairs(&mut cur) {
                PairStep::Finished => {
                    proof {
                        let e = Set::<int>::empty();
                        assert(skipped.union(e) =~= skipped);
                        assert(before.pending_skipping(sigs, dev, e) == Seq::<(u64, usize)>::empty());
                        assert(all@ + Seq::<(u64, usize)>::empty() =~= all@);
                    }
                    proof {
                        if good {
                            assert(before.pending(sigs, dev) =~= Seq::<(u64, usize)>::empty()) by {
                                reveal_with_fuel(scan_from, 2);
                            }
                            assert(all@ + Seq::<(u64, usize)>::empty() =~= all@);
                        }
                    }
                    break;
                },
                PairStep::ReadFailed => {
                    proof {
                        let o = before.offset as int;
                        let s0 = skipped;
                        skipped = skipped.insert(o);
                        assert forall|f: Set<int>| (forall|x: int| f.contains(x) ==> x >= cur.offset) implies
                            all@ + #[trigger] cur.pending_skipping(sigs, dev, f) == scan_skipping(self.cfg(), dev, skipped.union(f)) by {
                            let g = f.insert(o);
                            assert forall|x: int| g.contains(x) implies x >= before.offset by {}
                            assert(all@ + before.pending_skipping(sigs, dev, g) == scan_skipping(self.cfg(), dev, s0.union(g)));
                            assert(s0.union(g) =~= skipped.union(f));
                        }
                    }
                },
                PairStep::Pairs(mut v) => {
                    let ghost prev = all@;
                    let ghost vv = v@;
                    all.append(&mut v);
                    proof {
                        if good {
                            assert(prev + (before.next_chunk(sigs, dev) + cur.pending(sigs, dev))
                                =~= all@ + cur.pending(sigs, dev));
                        }
                        assert forall|f: Set<int>| (forall|x: int| f.contains(x) ==> x >= cur.offset) implies
                            all@ + #[trigger] cur.pending_skipping(sigs, dev, f) == scan_skipping(self.cfg(), dev, skipped.union(f)) by {
                            assert forall|x: int| f.contains(x) implies x >= before.offset by {}
                            assert(!f.contains(before.offset as int));
                            assert(before.pending_skipping(sigs, dev, f) == vv + cur.pending_skipping(sigs, dev, f));
                            assert(prev + before.pending_skipping(sigs, dev, f) == scan_skipping(self.cfg(), dev, skipped.union(f)));
                            assert(prev + (vv + cur.pending_skipping(sigs, dev, f)) =~= all@ + cur.pending_skipping(sigs, dev, f));
                        }
                    }
                },
            }
        }
        let ghost unsorted = all@;
        sort_by_offset(&mut all);
        proof {
            lemma_sorted_by_offset(unsorted, all@);
            assert forall|q: int| 0 <= q < all@.len() implies (#[trigger] all@[q]).1 < sigs.len() by {
                let k = all@[q].0;
                all@.lemma_filter_contains(has_offset(k), q);
                assert(with_offset(all@, k) == with_offset(unsorted, k));
                unsorted.lemma_filter_contains_rev(has_offset(k), all@[q]);
            }
        }
        let hits = hits_of(&self.config.signatures, &all);
        proof {
            assert forall|i: int, j: int| 0 <= i < j < hits@.len() implies (#[trigger] hits@[i]).byte_offset <= (#[trigger] hits@[j]).byte_offset by {
                assert(hits@[i].byte_offset == all@[i].0 && hits@[j].byte_offset == all@[j].0);
            }
            assert(sorted_by_offset(scan_skipping(self.cfg(), dev, skipped)) == all@);
        }
        Ok(hits)
    }

    /// Is the hit worth extracting?  A hit whose configured signature walks
    /// frames to find its size is viable only if the walk succeeds; every
    /// other hit is.
    pub fn is_viable_hit(&self, hit: &CarveHit) -> (r: bool)
        requires addressable(self.dev().contents()),
        ensures
            self.dev().healthy() ==> r == viable(self.cfg().signatures@, self.dev().contents(), hit.byte_offset as int, hit.signature),
            r ==> viable(self.cfg().signatures@, self.dev().contents(), hit.byte_offset as int, hit.signature),
    {
        let sig = match find_named(&self.config.signatures, &hit.signature.name) {
            Some(i) => &self.config.signatures[i],
            None => &hit.signature,
        };
        match &sig.size_hint {
            Some(h) => {
                if h.skip_on_failure() {
                    if hit.byte_offset > 0x7FFF_FFFF_FFFF_FFFF {
                        false
                    } else {
                        read_size_hint(&self.device, hit.byte_offset, h, sig.max_size).is_some()
                    }
                } else {
                    true
                }
            },
            None => true,
        }
    }

    /// Extract the file for `hit`: the bytes of [`extract_bytes`], read
    /// from the device.  Empty when the hit lies past the device end or is
    /// skipped.
    pub fn extract_to_vec(&self, hit: &CarveHit) -> (r: Result<Vec<u8>, CarveError>)
        requires addressable(self.dev().contents()),
        ensures
            self.dev().healthy() ==> (r matches Ok(v) && v@ == extract_bytes(
                self.cfg().signatures@,
                self.dev().contents(),
                hit.byte_offset as int,
                hit.signature,
            )),
            r matches Ok(v) ==> {
                &&& v@ == clamped(self.dev().contents(), hit.byte_offset as int, v@.len() as int)
                &&& v@.len() <= live_signature(self.cfg().signatures@, hit.signature).max_size
            },
            r matches Err(e) ==> e is BlockDevice,
    {
        let sig: &Signature = if hit.signature.size_hint.is_none() {
            match find_named(&self.config.signatures, &hit.signature.name) {
                Some(i) => &self.config.signatures[i],
                None => &hit.signature,
            }
        } else {
            &hit.signature
        };
        let device_size = self.device.size();
        let off = hit.byte_offset;
        if off >= device_size {
            return Ok(Vec::new());
        }
        let remaining = device_size - off;
        let cap = if sig.max_size < remaining { sig.max_size } else { remaining };
        let (size, resolved) = match &sig.size_hint {
            Some(h) => match read_size_hint(&self.device, off, h, sig.max_size) {
                Some(s) => (if s < cap { s } else { cap }, true),
                None => {
                    if h.skip_on_failure() {
                        return Ok(Vec::new());
                    }
                    (cap, false)
                },
            },
            None => (cap, false),
        };
        if sig.min_size > 0 && size < sig.min_size {
            return Ok(Vec::new());
        }
        let max_end = off + size;
        proof {
            lemma_cut_windows_from(self.device.contents(), off as int, max_end as int, sig.footer@, sig.footer_extra as int);
        }
        let r = if resolved || sig.footer.len() == 0 {
            stream_bytes(&self.device, off, max_end)
        } else if sig.footer_last {
            stream_until_last_footer(&self.device, off, max_end, sig.footer.as_slice(), sig.footer_extra)
        } else {
            stream_until_footer(&self.device, off, max_end, sig.footer.as_slice(), sig.footer_extra)
        };
        r
    }
}

} // verus!
