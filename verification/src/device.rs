//! The device a carver reads: sector-addressed, read-only storage, and the
//! clamped byte reads built on it.
use vstd::prelude::*;
use crate::error::CarveError;

verus! {

/// Bytes `[offset, offset + len)` of `dev`, clamped at its end (empty when
/// `offset` lies at or past the end).
pub open spec fn clamped(dev: Seq<u8>, offset: int, len: int) -> Seq<u8> {
    if len <= 0 || offset < 0 || offset >= dev.len() {
        Seq::empty()
    } else {
        dev.subrange(offset, if offset + len <= dev.len() { offset + len } else { dev.len() as int })
    }
}

/// A readable block device.  Implementations read whole sectors; a read
/// may come back short at the end of the device.
pub trait BlockDevice {
    /// The bytes stored on the device.
    spec fn contents(&self) -> Seq<u8>;

    /// Every read of the device succeeds.
    spec fn healthy(&self) -> bool;

    /// The sector size.
    spec fn sector(&self) -> u32;

    /// Device size in bytes.
    fn size(&self) -> (r: u64)
        ensures r == self.contents().len();

    /// Sector size in bytes, never zero.
    fn sector_size(&self) -> (r: u32)
        ensures r == self.sector(), 0 < r;

    /// Reads `len` bytes at the sector-aligned `offset`; fewer come back at
    /// the end of the device.
    fn read_at(&self, offset: u64, len: usize) -> (r: Result<Vec<u8>, String>)
        ensures
            r matches Ok(v) ==> v@ == clamped(self.contents(), offset as int, len as int),
            self.healthy() ==> r is Ok;
}

/// A device image held in memory.
pub struct MemImage {
    data: Vec<u8>,
    sector: u32,
}

impl MemImage {
    /// An image of `data` read in sectors of `sector_size` bytes.
    pub fn new(data: Vec<u8>, sector_size: u32) -> (r: MemImage)
        requires sector_size > 0,
        ensures
            r.contents() == data@,
            r.healthy(),
            r.sector() == sector_size,
    {
        MemImage { data, sector: sector_size }
    }
}

impl BlockDevice for MemImage {
    closed spec fn contents(&self) -> Seq<u8> {
        self.data@
    }

    open spec fn healthy(&self) -> bool {
        true
    }

    closed spec fn sector(&self) -> u32 {
        if self.sector == 0 { 1 } else { self.sector }
    }

    fn size(&self) -> (r: u64) {
        self.data.len() as u64
    }

    fn sector_size(&self) -> (r: u32) {
        if self.sector == 0 { 1 } else { self.sector }
    }

    fn read_at(&self, offset: u64, len: usize) -> (r: Result<Vec<u8>, String>) {
        let mut out: Vec<u8> = Vec::new();
        if len == 0 || offset >= self.data.len() as u64 {
            return Ok(out);
        }
        let start = offset as usize;
        let end: usize = if len <= self.data.len() - start { start + len } else { self.data.len() };
        let mut i = start;
        while i < end
            invariant
                start <= i <= end <= self.data.len(),
                out@ == self.data@.subrange(start as int, i as int),
            decreases end - i,
        {
            out.push(self.data[i]);
            i += 1;
            assert(out@ =~= self.data@.subrange(start as int, i as int));
        }
        Ok(out)
    }
}

/// The `len` bytes at `offset`, which lie on the device, read as they are.
fn read_range<D: BlockDevice>(device: &D, offset: u64, len: usize) -> (r: Result<Vec<u8>, CarveError>)
    requires offset + len <= device.contents().len(),
    ensures
        r matches Ok(v) ==> v@ == clamped(device.contents(), offset as int, len as int),
        device.healthy() ==> r is Ok,
        r matches Err(e) ==> e is BlockDevice,
{
    match device.read_at(offset, len) {
        Ok(v) => Ok(v),
        Err(e) => Err(CarveError::BlockDevice(e)),
    }
}

/// Read up to `len` bytes at `offset`, clamped at the device end: the
/// sectors covering the range are read and the range cut out of them.
/// Reads at or past the end, or of nothing, give no bytes.  Where the
/// covering sectors would not fit in memory, the range alone is read.  On a
/// device whose reads succeed the read succeeds.
pub fn read_bytes_clamped<D: BlockDevice>(device: &D, offset: u64, len: usize) -> (r: Result<Vec<u8>, CarveError>)
    ensures
        r matches Ok(v) ==> v@ == clamped(device.contents(), offset as int, len as int),
        device.healthy() ==> r is Ok,
        r matches Err(e) ==> e is BlockDevice,
{
    let size = device.size();
    if len == 0 || offset >= size {
        return Ok(Vec::new());
    }
    let available = size - offset;
    let len: u64 = if (len as u64) < available { len as u64 } else { available };
    let sector = device.sector_size() as u64;
    let start_sector = offset / sector;
    let end = offset + len;
    let end_sector = if end % sector == 0 {
        end / sector
    } else {
        assert(end / sector < u64::MAX) by (nonlinear_arith)
            requires end % sector != 0, sector > 0;
        end / sector + 1
    };
    proof {
        assert(start_sector * sector <= offset) by (nonlinear_arith)
            requires start_sector == offset / sector, sector > 0;
        assert(offset - start_sector * sector < sector) by (nonlinear_arith)
            requires start_sector == offset / sector, sector > 0;
        assert(end_sector * sector >= end) by (nonlinear_arith)
            requires
                end_sector == (if end % sector == 0 { (end / sector) as int } else { end / sector + 1 }),
                sector > 0;
        assert(end_sector * sector < end + sector) by (nonlinear_arith)
            requires
                end_sector == (if end % sector == 0 { (end / sector) as int } else { end / sector + 1 }),
                sector > 0;
        assert(start_sector <= end_sector) by (nonlinear_arith)
            requires start_sector == offset / sector, end >= offset, sector > 0,
                end_sector == (if end % sector == 0 { (end / sector) as int } else { end / sector + 1 });
        assert((end_sector - start_sector) * sector == end_sector * sector - start_sector * sector) by (nonlinear_arith);
    }
    let start = start_sector * sector;
    let sectors = end_sector - start_sector;
    let span = match sectors.checked_mul(sector) {
        Some(x) => x,
        None => return read_range(device, offset, len as usize),
    };
    if span > usize::MAX as u64 {
        return read_range(device, offset, len as usize);
    }
    let buf = match device.read_at(start, span as usize) {
        Ok(b) => b,
        Err(e) => return Err(CarveError::BlockDevice(e)),
    };
    let start_in_buf = (offset - start) as usize;
    let want_end: u64 = (offset - start) + len;
    let end_in_buf: usize = if want_end < buf.len() as u64 { want_end as usize } else { buf.len() };
    if end_in_buf <= start_in_buf {
        return Ok(Vec::new());
    }
    let mut out: Vec<u8> = Vec::new();
    let mut i = start_in_buf;
    while i < end_in_buf
        invariant
            start_in_buf <= i <= end_in_buf <= buf.len(),
            out@ == buf@.subrange(start_in_buf as int, i as int),
        decreases end_in_buf - i,
    {
        out.push(buf[i]);
        i += 1;
        assert(out@ =~= buf@.subrange(start_in_buf as int, i as int));
    }
    Ok(out)
}

} // verus!
