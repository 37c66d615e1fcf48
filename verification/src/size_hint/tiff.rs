//! TIFF size hint: the largest byte extent referenced from the IFD graph.
use vstd::prelude::*;
use crate::bytes::{u16_at, u32_at, rd_u16, rd_u32};
use crate::device::{clamped, BlockDevice};
use crate::post_validate::structural::tiff_type_size;
use super::{addressable, read_dev};

verus! {

/// Larger of two integers.
pub open spec fn imax(a: int, b: int) -> int {
    if a >= b { a } else { b }
}

/// Accumulated state of one IFD's entry scan: (largest extent, IFD offsets
/// to visit, strip offsets, strip lengths, tile offsets, tile lengths, JPEG
/// offset, JPEG length).
pub type IfdState = (int, Seq<u64>, Seq<u64>, Seq<u64>, Seq<u64>, Seq<u64>, Option<u64>, Option<u64>);

/// Non-zero 32-bit values at `4j` of `arr` for `j` in `j0..k`, up to the
/// first one not wholly in `arr`.
pub open spec fn sub_ifds(arr: Seq<u8>, le: bool, j0: int, k: int) -> Seq<u64>
    decreases k - j0,
{
    if j0 < 0 || j0 >= k || 4 * j0 + 4 > arr.len() {
        Seq::empty()
    } else {
        let v = u32_at(arr, 4 * j0, le);
        (if v > 0 { seq![v as u64] } else { Seq::empty() }) + sub_ifds(arr, le, j0 + 1, k)
    }
}

/// Strip/tile/JPEG pointer values held by the entry at `ep` (type SHORT or
/// LONG): read from outside the entry when they do not fit in it (at most
/// 512 KiB, as many whole values as were read and counted), otherwise one
/// LONG, one SHORT or two SHORTs held inline.
pub open spec fn pointer_values(dev: Seq<u8>, fo: int, le: bool, ep: int) -> Seq<u64> {
    let ty = u16_at(dev, ep + 2, le);
    let count = u32_at(dev, ep + 4, le);
    let es = if ty == 3 { 2int } else { 4 };
    if count * tiff_type_size(ty) > 4 {
        let want = if count * es < 524288 { count * es } else { 524288 };
        let arr = clamped(dev, fo + u32_at(dev, ep + 8, le), want);
        let n = if (arr.len() as int) / es < count { (arr.len() as int) / es } else { count };
        Seq::new(n as nat, |j: int| (if ty == 3 { u16_at(arr, 2 * j, le) } else { u32_at(arr, 4 * j, le) }) as u64)
    } else if ty == 4 && count == 1 {
        seq![u32_at(dev, ep + 8, le) as u64]
    } else if ty == 3 && count == 1 {
        seq![u16_at(dev, ep + 8, le) as u64]
    } else if ty == 3 && count == 2 {
        seq![u16_at(dev, ep + 8, le) as u64, u16_at(dev, ep + 10, le) as u64]
    } else {
        Seq::empty()
    }
}

/// One IFD entry at device position `ep` applied to the scan state.
pub open spec fn entry_step(dev: Seq<u8>, fo: int, le: bool, ep: int, st: IfdState) -> IfdState {
    let tag = u16_at(dev, ep, le);
    let ty = u16_at(dev, ep + 2, le);
    let count = u32_at(dev, ep + 4, le);
    let ext = u32_at(dev, ep + 8, le);
    let tz = tiff_type_size(ty);
    if tz == 0 {
        st
    } else {
        let db = count * tz;
        let m = if db > 4 { imax(st.0, ext + db) } else { st.0 };
        if tag == 0x014A {
            let found = if db > 4 {
                let want = if count * 4 < 256 { count * 4 } else { 256 };
                sub_ifds(clamped(dev, fo + ext, want), le, 0, if count < 64 { count } else { 64 })
            } else if ext > 0 {
                seq![ext as u64]
            } else {
                Seq::empty()
            };
            (m, st.1 + found, st.2, st.3, st.4, st.5, st.6, st.7)
        } else if tag == 0x0111 || tag == 0x0117 || tag == 0x0144 || tag == 0x0145 || tag == 0x0201 || tag == 0x0202 {
            if ty != 3 && ty != 4 {
                (m, st.1, st.2, st.3, st.4, st.5, st.6, st.7)
            } else {
                let vals = pointer_values(dev, fo, le, ep);
                let first = if vals.len() > 0 { Some(vals[0]) } else { None };
                if tag == 0x0111 {
                    (m, st.1, vals, st.3, st.4, st.5, st.6, st.7)
                } else if tag == 0x0117 {
                    (m, st.1, st.2, vals, st.4, st.5, st.6, st.7)
                } else if tag == 0x0144 {
                    (m, st.1, st.2, st.3, vals, st.5, st.6, st.7)
                } else if tag == 0x0145 {
                    (m, st.1, st.2, st.3, st.4, vals, st.6, st.7)
                } else if tag == 0x0201 {
                    (m, st.1, st.2, st.3, st.4, st.5, first, st.7)
                } else {
                    (m, st.1, st.2, st.3, st.4, st.5, st.6, first)
                }
            }
        } else {
            (m, st.1, st.2, st.3, st.4, st.5, st.6, st.7)
        }
    }
}

/// Entries `i..n` of the IFD at device position `abs`, up to the first one
/// not wholly on the device.
pub open spec fn ifd_entries(dev: Seq<u8>, fo: int, le: bool, abs: int, i: int, n: int, st: IfdState) -> IfdState
    decreases n - i,
{
    if i < 0 || i >= n || abs + 2 + 12 * i + 12 > dev.len() {
        st
    } else {
        ifd_entries(dev, fo, le, abs, i + 1, n, entry_step(dev, fo, le, abs + 2 + 12 * i, st))
    }
}

/// `m` raised to cover every `a[j] + b[j]` for `j` in `j0..` of the shorter.
pub open spec fn pair_extent(a: Seq<u64>, b: Seq<u64>, j0: int, m: int) -> int
    decreases a.len() - j0,
{
    if j0 < 0 || j0 >= a.len() || j0 >= b.len() { m } else { pair_extent(a, b, j0 + 1, imax(m, a[j0] + b[j0])) }
}

/// Largest extent once an IFD's strips, tiles and JPEG data are paired up.
pub open spec fn ifd_extent(st: IfdState) -> int {
    let m = pair_extent(st.4, st.5, 0, pair_extent(st.2, st.3, 0, st.0));
    match (st.6, st.7) {
        (Some(o), Some(l)) => imax(m, o + l),
        _ => m,
    }
}

/// The next-IFD link after `count` entries of the IFD at `abs`, when it
/// lies on the device and is non-zero.
pub open spec fn next_ifd(dev: Seq<u8>, le: bool, abs: int, count: int) -> Seq<u64> {
    let np = abs + 2 + count * 12;
    if np + 4 <= dev.len() && u32_at(dev, np, le) > 0 { seq![u32_at(dev, np, le) as u64] } else { Seq::empty() }
}

/// Depth-first walk of the IFD graph (IFD offsets relative to the file
/// start `fo`, the last queued taken first, at most 64 visited), raising
/// `m` to the largest extent referenced: IFD tables, out-of-entry data,
/// strip/tile/JPEG data.  SubIFDs and next links are queued.
pub open spec fn tiff_walk(dev: Seq<u8>, fo: int, le: bool, queue: Seq<u64>, visited: Seq<u64>, m: int) -> int
    decreases 64 - visited.len(), queue.len(),
{
    if visited.len() > 64 || queue.len() == 0 {
        m
    } else {
        let off = queue.last();
        let q = queue.drop_last();
        let abs = fo + off;
        if off == 0 || visited.contains(off) || visited.len() >= 64 {
            tiff_walk(dev, fo, le, q, visited, m)
        } else if abs + 2 > dev.len() || u16_at(dev, abs, le) == 0 || u16_at(dev, abs, le) > 1000 {
            tiff_walk(dev, fo, le, q, visited.push(off), m)
        } else {
            let count = u16_at(dev, abs, le);
            let st0: IfdState = (
                imax(m, off + 2 + count * 12 + 4),
                Seq::empty(),
                Seq::empty(),
                Seq::empty(),
                Seq::empty(),
                Seq::empty(),
                None,
                None,
            );
            let st = ifd_entries(dev, fo, le, abs, 0, count, st0);
            tiff_walk(dev, fo, le, q + st.1 + next_ifd(dev, le, abs, count), visited.push(off), ifd_extent(st))
        }
    }
}

/// TIFF size hint: byte order `II`/`MM`, a non-zero first IFD offset, and
/// the largest extent the IFD walk finds when it exceeds the 8-byte header.
pub open spec fn tiff_hint_spec(dev: Seq<u8>, fo: int) -> Option<u64> {
    let h = clamped(dev, fo, 8);
    if h.len() < 8 || !((h[0] == 0x49 && h[1] == 0x49) || (h[0] == 0x4D && h[1] == 0x4D)) {
        None
    } else {
        let le = h[0] == 0x49;
        let ifd0 = u32_at(h, 4, le);
        if ifd0 == 0 {
            None
        } else {
            let m = tiff_walk(dev, fo, le, seq![ifd0 as u64], Seq::empty(), 8);
            if m > 8 { Some(m as u64) } else { None }
        }
    }
}

/// Extents stay far below 2^64.
pub open spec fn small(m: int) -> bool {
    0 <= m < 0x10_0000_0000
}

/// Every offset in `q` is a 32-bit value.
pub open spec fn offsets_32(q: Seq<u64>) -> bool {
    forall|j: int| 0 <= j < q.len() ==> (#[trigger] q[j]) < 0x1_0000_0000
}

proof fn lemma_sub_ifds_32(arr: Seq<u8>, le: bool, j0: int, k: int)
    ensures offsets_32(sub_ifds(arr, le, j0, k)),
    decreases k - j0,
{
    if !(j0 < 0 || j0 >= k || 4 * j0 + 4 > arr.len()) {
        lemma_sub_ifds_32(arr, le, j0 + 1, k);
        let v = u32_at(arr, 4 * j0, le);
        let head: Seq<u64> = if v > 0 { seq![v as u64] } else { Seq::empty() };
        let rest = sub_ifds(arr, le, j0 + 1, k);
        assert forall|j: int| 0 <= j < (head + rest).len() implies (#[trigger] (head + rest)[j]) < 0x1_0000_0000 by {
            if j >= head.len() {
                assert((head + rest)[j] == rest[j - head.len()]);
            }
        }
    }
}

fn imax_u64(a: u64, b: u64) -> (r: u64)
    ensures r == imax(a as int, b as int),
{
    if a >= b { a } else { b }
}

fn tiff_type_bytes(t: u16) -> (r: u64)
    ensures r == tiff_type_size(t as int),
{
    if t == 1 || t == 2 || t == 6 || t == 7 {
        1
    } else if t == 3 || t == 8 {
        2
    } else if t == 4 || t == 9 || t == 11 {
        4
    } else if t == 5 || t == 10 || t == 12 {
        8
    } else {
        0
    }
}

/// Reads the SubIFD offsets of an out-of-entry SubIFD array.
fn read_sub_ifds<D: BlockDevice>(device: &D, at: u64, count: u64, le: bool, queue: &mut Vec<u64>)
    requires count < 0x1_0000_0000,
    ensures
        device.healthy() ==> {
            let want = if count * 4 < 256 { count * 4 } else { 256 };
            final(queue)@ == old(queue)@ + sub_ifds(clamped(device.contents(), at as int, want), le, 0, if count < 64 { count as int } else { 64 })
        },
        offsets_32(old(queue)@) ==> offsets_32(final(queue)@),
{
    let want: u64 = if count * 4 < 256 { count * 4 } else { 256 };
    let k: u64 = if count < 64 { count } else { 64 };
    let data = match read_dev(device, at, want as usize) {
        Some(d) => d,
        None => return,
    };
    let ghost arr = data@;
    let ghost q0 = queue@;
    let mut j: u64 = 0;
    proof { lemma_sub_ifds_32(arr, le, 0, k as int); }
    while j < k
        invariant
            j <= k <= 64,
            arr == data@,
            queue@ + sub_ifds(arr, le, j as int, k as int) == q0 + sub_ifds(arr, le, 0, k as int),
            offsets_32(q0) ==> offsets_32(queue@),
        ensures
            queue@ == q0 + sub_ifds(arr, le, 0, k as int),
        decreases k - j,
    {
        if 4 * j + 4 > data.len() as u64 {
            assert(queue@ + Seq::<u64>::empty() =~= queue@);
            break;
        }
        let v = rd_u32(&data, (4 * j) as usize, le) as u64;
        let ghost rest = sub_ifds(arr, le, j + 1, k as int);
        if v > 0 {
            assert(queue@.push(v) + rest =~= queue@ + (seq![v] + rest));
            queue.push(v);
        } else {
            assert(Seq::<u64>::empty() + rest =~= rest);
        }
        j += 1;
    }
    proof {
        if j == k {
            assert(queue@ + Seq::<u64>::empty() =~= queue@);
        }
    }
}

/// Reads the pointer values of a strip/tile/JPEG entry.
fn read_pointer_values<D: BlockDevice>(device: &D, fo: u64, le: bool, entry: &Vec<u8>, ep: Ghost<int>) -> (r: Vec<u64>)
    requires
        entry@.len() == 12,
        entry@ == clamped(device.contents(), ep@, 12),
        0 <= ep@,
        ep@ + 12 <= device.contents().len(),
        fo <= 0x7FFF_FFFF_FFFF_FFFF,
        u16_at(entry@, 2, le) == 3 || u16_at(entry@, 2, le) == 4,
    ensures
        device.healthy() ==> r@ == pointer_values(device.contents(), fo as int, le, ep@),
        forall|j: int| 0 <= j < r@.len() ==> (#[trigger] r@[j]) < 0x1_0000_0000,
{
    let ghost dev = device.contents();
    proof {
        assert forall|k: int| 0 <= k < 12 implies entry@[k] == dev[ep@ + k] by {}
        assert(u16_at(entry@, 2, le) == u16_at(dev, ep@ + 2, le));
        assert(u32_at(entry@, 4, le) == u32_at(dev, ep@ + 4, le));
        assert(u32_at(entry@, 8, le) == u32_at(dev, ep@ + 8, le));
        assert(u16_at(entry@, 8, le) == u16_at(dev, ep@ + 8, le));
        assert(u16_at(entry@, 10, le) == u16_at(dev, ep@ + 10, le));
    }
    let ty = rd_u16(entry, 2, le);
    let count = rd_u32(entry, 4, le) as u64;
    let ext = rd_u32(entry, 8, le) as u64;
    let es: u64 = if ty == 3 { 2 } else { 4 };
    let mut out: Vec<u64> = Vec::new();
    if count * tiff_type_bytes(ty) > 4 {
        let want: u64 = if count * es < 524288 { count * es } else { 524288 };
        let data = match read_dev(device, fo + ext, want as usize) {
            Some(d) => d,
            None => return out,
        };
        let n: u64 = if (data.len() as u64) / es < count { (data.len() as u64) / es } else { count };
        assert(n * es <= data@.len()) by (nonlinear_arith)
            requires n <= (data@.len() as int) / (es as int), es > 0;
        let mut j: u64 = 0;
        while j < n
            invariant
                j <= n,
                n <= count,
                count < 0x1_0000_0000,
                n * es <= data@.len(),
                es == 2 || es == 4,
                ty == 3 <==> es == 2,
                out@.len() == j,
                forall|q: int| 0 <= q < j ==> out@[q] == (if ty == 3 { u16_at(data@, 2 * q, le) } else { u32_at(data@, 4 * q, le) }) as u64,
                forall|q: int| 0 <= q < j ==> (#[trigger] out@[q]) < 0x1_0000_0000,
            decreases n - j,
        {
            assert(j * es + es <= n * es) by (nonlinear_arith) requires j < n, es > 0;
            let v: u64 = if ty == 3 { rd_u16(&data, (2 * j) as usize, le) as u64 } else { rd_u32(&data, (4 * j) as usize, le) as u64 };
            out.push(v);
            j += 1;
        }
        assert(device.healthy() ==> out@ =~= pointer_values(dev, fo as int, le, ep@));
        return out;
    }
    if ty == 4 && count == 1 {
        out.push(ext);
    } else if ty == 3 && count == 1 {
        out.push(rd_u16(entry, 8, le) as u64);
    } else if ty == 3 && count == 2 {
        out.push(rd_u16(entry, 8, le) as u64);
        out.push(rd_u16(entry, 10, le) as u64);
    }
    assert(out@ =~= pointer_values(dev, fo as int, le, ep@));
    out
}

/// Exec state of one IFD's entry scan.
struct IfdScan {
    m: u64,
    found: Vec<u64>,
    so: Vec<u64>,
    sl: Vec<u64>,
    to: Vec<u64>,
    tl: Vec<u64>,
    jo: Option<u64>,
    jl: Option<u64>,
}

impl IfdScan {
    spec fn state(&self) -> IfdState {
        (self.m as int, self.found@, self.so@, self.sl@, self.to@, self.tl@, self.jo, self.jl)
    }

    spec fn bounded(&self) -> bool {
        &&& small(self.m as int)
        &&& offsets_32(self.found@)
        &&& offsets_32(self.so@)
        &&& offsets_32(self.sl@)
        &&& offsets_32(self.to@)
        &&& offsets_32(self.tl@)
        &&& (self.jo matches Some(o) ==> o < 0x1_0000_0000)
        &&& (self.jl matches Some(l) ==> l < 0x1_0000_0000)
    }
}

/// Applies the 12-byte entry read at device position `ep`.
fn apply_entry<D: BlockDevice>(device: &D, fo: u64, le: bool, entry: &Vec<u8>, ep: Ghost<int>, st: &mut IfdScan)
    requires
        entry@.len() == 12,
        entry@ == clamped(device.contents(), ep@, 12),
        0 <= ep@,
        ep@ + 12 <= device.contents().len(),
        fo <= 0x7FFF_FFFF_FFFF_FFFF,
        old(st).bounded(),
    ensures
        final(st).bounded(),
        device.healthy() ==> final(st).state() == entry_step(device.contents(), fo as int, le, ep@, old(st).state()),
{
    let ghost dev = device.contents();
    proof {
        assert forall|k: int| 0 <= k < 12 implies entry@[k] == dev[ep@ + k] by {}
        assert(u16_at(entry@, 0, le) == u16_at(dev, ep@, le));
        assert(u16_at(entry@, 2, le) == u16_at(dev, ep@ + 2, le));
        assert(u32_at(entry@, 4, le) == u32_at(dev, ep@ + 4, le));
        assert(u32_at(entry@, 8, le) == u32_at(dev, ep@ + 8, le));
    }
    let tag = rd_u16(entry, 0, le);
    let ty = rd_u16(entry, 2, le);
    let count = rd_u32(entry, 4, le) as u64;
    let ext = rd_u32(entry, 8, le) as u64;
    let tz = tiff_type_bytes(ty);
    if tz == 0 {
        return;
    }
    assert(count * tz <= 0xFFFF_FFFFu64 * 8) by (nonlinear_arith) requires count <= 0xFFFF_FFFFu64, tz <= 8;
    let db = count * tz;
    if db > 4 {
        st.m = imax_u64(st.m, ext + db);
    }
    if tag == 0x014A {
        if db > 4 {
            read_sub_ifds(device, fo + ext, count, le, &mut st.found);
        } else if ext > 0 {
            st.found.push(ext);
            proof {
                assert forall|j: int| 0 <= j < st.found@.len() implies (#[trigger] st.found@[j]) < 0x1_0000_0000 by {
                    if j < st.found@.len() - 1 { assert(st.found@[j] == old(st).found@[j]); }
                }
            }
        }
    } else if tag == 0x0111 || tag == 0x0117 || tag == 0x0144 || tag == 0x0145 || tag == 0x0201 || tag == 0x0202 {
        if ty != 3 && ty != 4 {
            return;
        }
        let vals = read_pointer_values(device, fo, le, entry, ep);
        if tag == 0x0111 {
            st.so = vals;
        } else if tag == 0x0117 {
            st.sl = vals;
        } else if tag == 0x0144 {
            st.to = vals;
        } else if tag == 0x0145 {
            st.tl = vals;
        } else {
            let first = if vals.len() > 0 { Some(vals[0]) } else { None };
            if tag == 0x0201 {
                st.jo = first;
            } else {
                st.jl = first;
            }
        }
    }
}

fn pair_extent_of(a: &Vec<u64>, b: &Vec<u64>, m: u64) -> (r: u64)
    requires offsets_32(a@), offsets_32(b@), small(m as int),
    ensures r == pair_extent(a@, b@, 0, m as int), small(r as int),
{
    let mut j: usize = 0;
    let mut cur = m;
    while j < a.len() && j < b.len()
        invariant
            j <= a.len(),
            offsets_32(a@),
            offsets_32(b@),
            small(cur as int),
            pair_extent(a@, b@, j as int, cur as int) == pair_extent(a@, b@, 0, m as int),
        decreases a.len() - j,
    {
        cur = imax_u64(cur, a[j] + b[j]);
        j += 1;
    }
    cur
}

/// Walk the TIFF IFD chain from `file_offset` and return the largest byte
/// extent referenced by any out-of-entry data block, strip/tile/JPEG data
/// or IFD table; SubIFDs (tag `0x014A`) are followed so that raw sensor
/// IFDs are visited.
pub fn tiff_size_hint<D: BlockDevice>(device: &D, file_offset: u64) -> (r: Option<u64>)
    requires addressable(device.contents()), file_offset <= 0x7FFF_FFFF_FFFF_FFFF,
    ensures device.healthy() ==> r == tiff_hint_spec(device.contents(), file_offset as int),
{
    let ghost dev = device.contents();
    let h = read_dev(device, file_offset, 8)?;
    if h.len() < 8 || !((h[0] == 0x49 && h[1] == 0x49) || (h[0] == 0x4D && h[1] == 0x4D)) {
        return None;
    }
    let le = h[0] == 0x49;
    let ifd0 = rd_u32(&h, 4, le) as u64;
    if ifd0 == 0 {
        return None;
    }
    let device_size = device.size();
    let mut max_extent: u64 = 8;
    let mut queue: Vec<u64> = Vec::new();
    queue.push(ifd0);
    let mut visited: Vec<u64> = Vec::new();
    let ghost target = tiff_walk(dev, file_offset as int, le, queue@, visited@, 8);
    while queue.len() > 0
        invariant
            dev == device.contents(),
            device_size == dev.len(),
            addressable(dev),
            file_offset <= 0x7FFF_FFFF_FFFF_FFFF,
            visited@.len() <= 64,
            offsets_32(queue@),
            small(max_extent as int),
            device.healthy() ==> tiff_walk(dev, file_offset as int, le, queue@, visited@, max_extent as int) == target,
        decreases 64 - visited@.len(), queue@.len(),
    {
        let ghost q_before = queue@;
        let off = queue.pop().unwrap();
        assert(off == q_before.last());
        assert(queue@ == q_before.drop_last());
        proof {
            assert(offsets_32(queue@)) by {
                assert forall|j: int| 0 <= j < queue@.len() implies (#[trigger] queue@[j]) < 0x1_0000_0000 by {
                    assert(queue@[j] == q_before[j]);
                }
            }
            assert(off < 0x1_0000_0000) by { assert(q_before[q_before.len() - 1] == off); }
        }
        if off == 0 || crate::post_validate::structural::u64_in(&visited, off) || visited.len() >= 64 {
            continue;
        }
        visited.push(off);
        let abs = file_offset + off;
        if abs + 2 > device_size {
            continue;
        }
        let cb = match read_dev(device, abs, 2) {
            Some(b) => b,
            None => continue,
        };
        if cb.len() < 2 {
            continue;
        }
        proof {
            assert(cb@[0] == dev[abs as int]);
            assert(cb@[1] == dev[abs + 1]);
        }
        let count = rd_u16(&cb, 0, le) as u64;
        assert(count == u16_at(dev, abs as int, le));
        if count == 0 || count > 1000 {
            continue;
        }
        let mut st = IfdScan {
            m: imax_u64(max_extent, off + 2 + count * 12 + 4),
            found: Vec::new(),
            so: Vec::new(),
            sl: Vec::new(),
            to: Vec::new(),
            tl: Vec::new(),
            jo: None,
            jl: None,
        };
        let ghost st0 = st.state();
        let mut i: u64 = 0;
        while i < count
            invariant
                dev == device.contents(),
                device_size == dev.len(),
                addressable(dev),
                file_offset <= 0x7FFF_FFFF_FFFF_FFFF,
                abs == file_offset + off,
                off < 0x1_0000_0000,
                i <= count <= 1000,
                st.bounded(),
                device.healthy() ==> ifd_entries(dev, file_offset as int, le, abs as int, i as int, count as int, st.state())
                    == ifd_entries(dev, file_offset as int, le, abs as int, 0, count as int, st0),
            ensures
                st.bounded(),
                device.healthy() ==> st.state() == ifd_entries(dev, file_offset as int, le, abs as int, 0, count as int, st0),
            decreases count - i,
        {
            let ep = abs + 2 + i * 12;
            if ep + 12 > device_size {
                break;
            }
            let entry = match read_dev(device, ep, 12) {
                Some(e) => e,
                None => break,
            };
            if entry.len() != 12 {
                break;
            }
            apply_entry(device, file_offset, le, &entry, Ghost(ep as int), &mut st);
            i += 1;
        }
        let m1 = pair_extent_of(&st.so, &st.sl, st.m);
        let m2 = pair_extent_of(&st.to, &st.tl, m1);
        let m3 = match (st.jo, st.jl) {
            (Some(o), Some(l)) => imax_u64(m2, o + l),
            _ => m2,
        };
        let ghost found = st.found@;
        let mut k: usize = 0;
        let ghost q1 = queue@;
        while k < st.found.len()
            invariant
                k <= st.found@.len(),
                st.found@ == found,
                queue@ == q1 + found.take(k as int),
                offsets_32(q1),
                offsets_32(found),
            decreases st.found@.len() - k,
        {
            queue.push(st.found[k]);
            k += 1;
            assert(queue@ =~= q1 + found.take(k as int));
        }
        assert(found.take(found.len() as int) =~= found);
        let np = abs + 2 + count * 12;
        if np + 4 <= device_size {
            match read_dev(device, np, 4) {
                Some(nb) => {
                    if nb.len() >= 4 {
                        let next = rd_u32(&nb, 0, le) as u64;
                        if next > 0 {
                            queue.push(next);
                        }
                    }
                },
                None => {},
            }
        }
        proof {
            if device.healthy() {
                let stf = st.state();
                assert(stf.1 == found);
                assert(m3 == ifd_extent(stf));
                assert(queue@ =~= q_before.drop_last() + stf.1 + next_ifd(dev, le, abs as int, count as int));
            }
            assert(offsets_32(queue@)) by {
                assert forall|j: int| 0 <= j < queue@.len() implies (#[trigger] queue@[j]) < 0x1_0000_0000 by {
                    if j < q1.len() {
                        assert(queue@[j] == q1[j]);
                    } else if j < q1.len() + found.len() {
                        assert(queue@[j] == found[j - q1.len()]);
                    }
                }
            }
        }
        max_extent = m3;
    }
    if max_extent > 8 { Some(max_extent) } else { None }
}

} // verus!
