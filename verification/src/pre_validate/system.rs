//! Executables, disk images, databases, logs and other system artefacts.
use vstd::prelude::*;
use crate::bytes::{
    be16, be32, is_digit, le16, le32, min, occurs_at, occurs_within, short, digit, find_within,
    matches_at, rd_be16, rd_be32, rd_le16, rd_le32, short_at,
};

verus! {

/// Windows PE: `e_lfanew` (u32 LE @60) in [64, 16384] and, when it lies
/// inside the data, `PE\0\0` there.
pub open spec fn accepts_exe(d: Seq<u8>, pos: int) -> bool {
    let e = le32(d, pos + 60);
    short(d, pos, 64) || (64 <= e <= 16384
        && (pos + e + 4 > d.len() || occurs_at(d, pos + e, seq![0x50u8, 0x45, 0x00, 0x00])))
}

pub fn validate_exe(data: &[u8], pos: usize) -> (r: bool)
    ensures r == accepts_exe(data@, pos as int),
{
    if short_at(data, pos, 64) {
        return true;
    }
    let e_lfanew = rd_le32(data, pos + 60) as usize;
    if !(64 <= e_lfanew && e_lfanew <= 16384) {
        return false;
    }
    if e_lfanew + 4 <= data.len() - pos {
        return matches_at(data, pos + e_lfanew, &[0x50, 0x45, 0x00, 0x00]);
    }
    true
}

/// ELF: class and data encoding in {1, 2}, version 1.
pub open spec fn accepts_elf(d: Seq<u8>, pos: int) -> bool {
    short(d, pos, 16) || ((d[pos + 4] == 1 || d[pos + 4] == 2) && (d[pos + 5] == 1 || d[pos + 5] == 2)
        && d[pos + 6] == 1)
}

pub fn validate_elf(data: &[u8], pos: usize) -> (r: bool)
    ensures r == accepts_elf(data@, pos as int),
{
    if short_at(data, pos, 16) {
        return true;
    }
    let c = data[pos + 4];
    let e = data[pos + 5];
    (c == 1 || c == 2) && (e == 1 || e == 2) && data[pos + 6] == 1
}

/// Mach-O 64-bit: filetype in [1, 12], ncmds in [1, 512].
pub open spec fn accepts_macho(d: Seq<u8>, pos: int) -> bool {
    short(d, pos, 20) || (1 <= le32(d, pos + 12) <= 12 && 1 <= le32(d, pos + 16) <= 512)
}

pub fn validate_macho(data: &[u8], pos: usize) -> (r: bool)
    ensures r == accepts_macho(data@, pos as int),
{
    if short_at(data, pos, 20) {
        return true;
    }
    let filetype = rd_le32(data, pos + 12);
    if !(1 <= filetype && filetype <= 12) {
        return false;
    }
    let ncmds = rd_le32(data, pos + 16);
    1 <= ncmds && ncmds <= 512
}

/// VMDK: version in [1, 3].
pub open spec fn accepts_vmdk(d: Seq<u8>, pos: int) -> bool {
    short(d, pos, 8) || 1 <= le32(d, pos + 4) <= 3
}

pub fn validate_vmdk(data: &[u8], pos: usize) -> (r: bool)
    ensures r == accepts_vmdk(data@, pos as int),
{
    if short_at(data, pos, 8) {
        return true;
    }
    let v = rd_le32(data, pos + 4);
    1 <= v && v <= 3
}

/// VHD: disk type (u32 BE @60) in [2, 4].
pub open spec fn accepts_vhd(d: Seq<u8>, pos: int) -> bool {
    short(d, pos, 68) || 2 <= be32(d, pos + 60) <= 4
}

pub fn validate_vhd(data: &[u8], pos: usize) -> (r: bool)
    ensures r == accepts_vhd(data@, pos as int),
{
    if short_at(data, pos, 68) {
        return true;
    }
    let t = rd_be32(data, pos + 60);
    2 <= t && t <= 4
}

/// VHDX: the 8-byte magic is unique; every hit is accepted.
pub open spec fn accepts_vhdx(d: Seq<u8>, pos: int) -> bool {
    true
}

pub fn validate_vhdx(data: &[u8], pos: usize) -> (r: bool)
    ensures r == accepts_vhdx(data@, pos as int),
{
    true
}

/// QCOW2: version 2 or 3, cluster bits in [9, 21].
pub open spec fn accepts_qcow2(d: Seq<u8>, pos: int) -> bool {
    let v = be32(d, pos + 4);
    short(d, pos, 24) || ((v == 2 || v == 3) && 9 <= be32(d, pos + 20) <= 21)
}

pub fn validate_qcow2(data: &[u8], pos: usize) -> (r: bool)
    ensures r == accepts_qcow2(data@, pos as int),
{
    if short_at(data, pos, 24) {
        return true;
    }
    let v = rd_be32(data, pos + 4);
    if !(v == 2 || v == 3) {
        return false;
    }
    let cb = rd_be32(data, pos + 20);
    9 <= cb && cb <= 21
}

/// VirtualBox VDI: image type (u32 LE @8) in [1, 4].
pub open spec fn accepts_vdi(d: Seq<u8>, pos: int) -> bool {
    short(d, pos, 12) || 1 <= le32(d, pos + 8) <= 4
}

pub fn validate_vdi(data: &[u8], pos: usize) -> (r: bool)
    ensures r == accepts_vdi(data@, pos as int),
{
    if short_at(data, pos, 12) {
        return true;
    }
    let t = rd_le32(data, pos + 8);
    1 <= t && t <= 4
}

/// EVTX: header size 128 and major version 3.
pub open spec fn accepts_evtx(d: Seq<u8>, pos: int) -> bool {
    short(d, pos, 42) || (le32(d, pos + 32) == 128 && le16(d, pos + 38) == 3)
}

pub fn validate_evtx(data: &[u8], pos: usize) -> (r: bool)
    ensures r == accepts_evtx(data@, pos as int),
{
    if short_at(data, pos, 42) {
        return true;
    }
    if rd_le32(data, pos + 32) != 128 {
        return false;
    }
    rd_le16(data, pos + 38) == 3
}

/// Legacy EVT: major and minor version both 1.
pub open spec fn accepts_evt(d: Seq<u8>, pos: int) -> bool {
    short(d, pos, 16) || (le32(d, pos + 8) == 1 && le32(d, pos + 12) == 1)
}

pub fn validate_evt(data: &[u8], pos: usize) -> (r: bool)
    ensures r == accepts_evt(data@, pos as int),
{
    if short_at(data, pos, 16) {
        return true;
    }
    rd_le32(data, pos + 8) == 1 && rd_le32(data, pos + 12) == 1
}

/// Registry hive: major version 1, minor version in [2, 6].
pub open spec fn accepts_regf(d: Seq<u8>, pos: int) -> bool {
    short(d, pos, 28) || (le32(d, pos + 20) == 1 && 2 <= le32(d, pos + 24) <= 6)
}

pub fn validate_regf(data: &[u8], pos: usize) -> (r: bool)
    ensures r == accepts_regf(data@, pos as int),
{
    if short_at(data, pos, 28) {
        return true;
    }
    let major = rd_le32(data, pos + 20);
    let minor = rd_le32(data, pos + 24);
    major == 1 && 2 <= minor && minor <= 6
}

/// PST/OST: client magic `4D 53` at offset 8.
pub open spec fn accepts_pst(d: Seq<u8>, pos: int) -> bool {
    short(d, pos, 10) || (d[pos + 8] == 0x4D && d[pos + 9] == 0x53)
}

pub fn validate_pst(data: &[u8], pos: usize) -> (r: bool)
    ensures r == accepts_pst(data@, pos as int),
{
    if short_at(data, pos, 10) {
        return true;
    }
    data[pos + 8] == 0x4D && data[pos + 9] == 0x53
}

/// OLE2: byte-order mark `FE FF` at offset 28.
pub open spec fn accepts_ole2(d: Seq<u8>, pos: int) -> bool {
    short(d, pos, 30) || (d[pos + 28] == 0xFE && d[pos + 29] == 0xFF)
}

pub fn validate_ole2(data: &[u8], pos: usize) -> (r: bool)
    ensures r == accepts_ole2(data@, pos as int),
{
    if short_at(data, pos, 30) {
        return true;
    }
    data[pos + 28] == 0xFE && data[pos + 29] == 0xFF
}

/// Outlook MSG: OLE2 byte order and `__substg1.0_` within the first 4 KiB.
pub open spec fn accepts_msg(d: Seq<u8>, pos: int) -> bool {
    short(d, pos, 30) || (le16(d, pos + 28) == 0xFFFE && occurs_within(d, pos, min(d.len() as int, pos + 4096),
        seq![0x5Fu8, 0x5F, 0x73, 0x75, 0x62, 0x73, 0x74, 0x67, 0x31, 0x2E, 0x30, 0x5F]))
}

pub fn validate_msg(data: &[u8], pos: usize) -> (r: bool)
    ensures r == accepts_msg(data@, pos as int),
{
    if short_at(data, pos, 30) {
        return true;
    }
    if rd_le16(data, pos + 28) != 0xFFFE {
        return false;
    }
    let scan_end = if data.len() - pos < 4096 { data.len() } else { pos + 4096 };
    find_within(data, pos, scan_end, &[0x5F, 0x5F, 0x73, 0x75, 0x62, 0x73, 0x74, 0x67, 0x31, 0x2E, 0x30, 0x5F])
}

/// Shell link: FileAttributes non-zero with the reserved high 16 bits clear.
pub open spec fn accepts_lnk(d: Seq<u8>, pos: int) -> bool {
    short(d, pos, 28) || (le32(d, pos + 24) != 0 && le32(d, pos + 24) < 0x1_0000)
}

pub fn validate_lnk(data: &[u8], pos: usize) -> (r: bool)
    ensures r == accepts_lnk(data@, pos as int),
{
    if short_at(data, pos, 28) {
        return true;
    }
    let attrs = rd_le32(data, pos + 24);
    attrs != 0 && attrs < 0x1_0000
}

/// Prefetch: `SCCA` at offset 4.
pub open spec fn accepts_prefetch(d: Seq<u8>, pos: int) -> bool {
    short(d, pos, 8) || occurs_at(d, pos + 4, seq![0x53u8, 0x43, 0x43, 0x41])
}

pub fn validate_prefetch(data: &[u8], pos: usize) -> (r: bool)
    ensures r == accepts_prefetch(data@, pos as int),
{
    if short_at(data, pos, 8) {
        return true;
    }
    matches_at(data, pos + 4, &[0x53, 0x43, 0x43, 0x41])
}

/// Dalvik DEX: three digits and a NUL at offset 4.
pub open spec fn accepts_dex(d: Seq<u8>, pos: int) -> bool {
    short(d, pos, 8) || (is_digit(d[pos + 4]) && is_digit(d[pos + 5]) && is_digit(d[pos + 6]) && d[pos + 7] == 0)
}

pub fn validate_dex(data: &[u8], pos: usize) -> (r: bool)
    ensures r == accepts_dex(data@, pos as int),
{
    if short_at(data, pos, 8) {
        return true;
    }
    digit(data[pos + 4]) && digit(data[pos + 5]) && digit(data[pos + 6]) && data[pos + 7] == 0x00
}

/// Java class: major version (u16 BE @6) in [45, 80].
pub open spec fn accepts_java_class(d: Seq<u8>, pos: int) -> bool {
    short(d, pos, 8) || 45 <= be16(d, pos + 6) <= 80
}

pub fn validate_java_class(data: &[u8], pos: usize) -> (r: bool)
    ensures r == accepts_java_class(data@, pos as int),
{
    if short_at(data, pos, 8) {
        return true;
    }
    let major = rd_be16(data, pos + 6);
    45 <= major && major <= 80
}

/// Python bytecode: flags (u32 LE @4) ≤ 3.
pub open spec fn accepts_pyc(d: Seq<u8>, pos: int) -> bool {
    short(d, pos, 8) || le32(d, pos + 4) <= 3
}

pub fn validate_pyc(data: &[u8], pos: usize) -> (r: bool)
    ensures r == accepts_pyc(data@, pos as int),
{
    if short_at(data, pos, 8) {
        return true;
    }
    rd_le32(data, pos + 4) <= 3
}

/// LUKS: version (u16 BE @6) 1 or 2.
pub open spec fn accepts_luks(d: Seq<u8>, pos: int) -> bool {
    short(d, pos, 8) || be16(d, pos + 6) == 1 || be16(d, pos + 6) == 2
}

pub fn validate_luks(data: &[u8], pos: usize) -> (r: bool)
    ensures r == accepts_luks(data@, pos as int),
{
    if short_at(data, pos, 8) {
        return true;
    }
    let v = rd_be16(data, pos + 6);
    v == 1 || v == 2
}

/// KeePass 2.x: major version 3 or 4.
pub open spec fn accepts_kdbx(d: Seq<u8>, pos: int) -> bool {
    short(d, pos, 12) || le16(d, pos + 10) == 3 || le16(d, pos + 10) == 4
}

pub fn validate_kdbx(data: &[u8], pos: usize) -> (r: bool)
    ensures r == accepts_kdbx(data@, pos as int),
{
    if short_at(data, pos, 12) {
        return true;
    }
    let major = rd_le16(data, pos + 10);
    major == 3 || major == 4
}

/// KeePass 1.x: major version 1 or 2.
pub open spec fn accepts_kdb(d: Seq<u8>, pos: int) -> bool {
    short(d, pos, 12) || le16(d, pos + 10) == 1 || le16(d, pos + 10) == 2
}

pub fn validate_kdb(data: &[u8], pos: usize) -> (r: bool)
    ensures r == accepts_kdb(data@, pos as int),
{
    if short_at(data, pos, 12) {
        return true;
    }
    let major = rd_le16(data, pos + 10);
    major == 1 || major == 2
}

/// EnCase E01: first segment only.
pub open spec fn accepts_e01(d: Seq<u8>, pos: int) -> bool {
    short(d, pos, 10) || le16(d, pos + 8) == 1
}

pub fn validate_e01(data: &[u8], pos: usize) -> (r: bool)
    ensures r == accepts_e01(data@, pos as int),
{
    if short_at(data, pos, 10) {
        return true;
    }
    rd_le16(data, pos + 8) == 1
}

/// PCAP: version 2.4 read in the byte order given by the magic
/// (`D4 C3 B2 A1` little-endian, anything else big-endian).
pub open spec fn accepts_pcap(d: Seq<u8>, pos: int) -> bool {
    short(d, pos, 8) || (if occurs_at(d, pos, seq![0xD4u8, 0xC3, 0xB2, 0xA1]) {
        le16(d, pos + 4) == 2 && le16(d, pos + 6) == 4
    } else {
        be16(d, pos + 4) == 2 && be16(d, pos + 6) == 4
    })
}

pub fn validate_pcap(data: &[u8], pos: usize) -> (r: bool)
    ensures r == accepts_pcap(data@, pos as int),
{
    if short_at(data, pos, 8) {
        return true;
    }
    if matches_at(data, pos, &[0xD4, 0xC3, 0xB2, 0xA1]) {
        rd_le16(data, pos + 4) == 2 && rd_le16(data, pos + 6) == 4
    } else {
        rd_be16(data, pos + 4) == 2 && rd_be16(data, pos + 6) == 4
    }
}

/// Minidump: stream count (u32 LE @8) > 0.
pub open spec fn accepts_dmp(d: Seq<u8>, pos: int) -> bool {
    short(d, pos, 12) || le32(d, pos + 8) > 0
}

pub fn validate_dmp(data: &[u8], pos: usize) -> (r: bool)
    ensures r == accepts_dmp(data@, pos as int),
{
    if short_at(data, pos, 12) {
        return true;
    }
    rd_le32(data, pos + 8) > 0
}

/// ISO 9660 primary volume descriptor: version 1; descriptor type 1 in the
/// byte before the hit (when present); and, when present, a non-zero volume
/// space size whose little- and big-endian copies agree.
pub open spec fn accepts_iso(d: Seq<u8>, pos: int) -> bool {
    short(d, pos, 6) || {
        &&& d[pos + 5] == 1
        &&& (pos >= 1 ==> d[pos - 1] == 1)
        &&& (short(d, pos, 87) || (le32(d, pos + 79) == be32(d, pos + 83) && le32(d, pos + 79) != 0))
    }
}

pub fn validate_iso(data: &[u8], pos: usize) -> (r: bool)
    ensures r == accepts_iso(data@, pos as int),
{
    if short_at(data, pos, 6) {
        return true;
    }
    if data[pos + 5] != 0x01 {
        return false;
    }
    if pos >= 1 && data[pos - 1] != 0x01 {
        return false;
    }
    if !short_at(data, pos, 87) {
        let le = rd_le32(data, pos + 79);
        let be = rd_be32(data, pos + 83);
        if le != be || le == 0 {
            return false;
        }
    }
    true
}

/// HDF5: superblock version ≤ 3.
pub open spec fn accepts_hdf5(d: Seq<u8>, pos: int) -> bool {
    short(d, pos, 9) || d[pos + 8] <= 3
}

pub fn validate_hdf5(data: &[u8], pos: usize) -> (r: bool)
    ensures r == accepts_hdf5(data@, pos as int),
{
    if short_at(data, pos, 9) {
        return true;
    }
    data[pos + 8] <= 3
}

/// SQLite: page size (u16 BE @16) a power of two in [512, 32768], or 1
/// (meaning 65536).
pub open spec fn accepts_sqlite(d: Seq<u8>, pos: int) -> bool {
    let p = be16(d, pos + 16);
    short(d, pos, 18) || p == 1 || p == 512 || p == 1024 || p == 2048 || p == 4096 || p == 8192
        || p == 16384 || p == 32768
}

pub fn validate_sqlite(data: &[u8], pos: usize) -> (r: bool)
    ensures r == accepts_sqlite(data@, pos as int),
{
    if short_at(data, pos, 18) {
        return true;
    }
    let p = rd_be16(data, pos + 16);
    p == 1 || p == 512 || p == 1024 || p == 2048 || p == 4096 || p == 8192 || p == 16384 || p == 32768
}

} // verus!
