//! Audio and video formats.
use vstd::prelude::*;
use crate::bytes::{
    be16, be32, is_alnum, is_print, le16, le32, le64, min, occurs_at, short, alnum, print,
    matches_at, rd_be16, rd_be32, rd_le16, rd_le32, rd_le64, short_at,
};

verus! {

/// ID3v2: version @3 in {2,3,4}; flag low nibble clear; syncsafe size bytes.
pub open spec fn accepts_mp3(d: Seq<u8>, pos: int) -> bool {
    short(d, pos, 10) || (2 <= d[pos + 3] <= 4 && d[pos + 5] & 0x0F == 0
        && (d[pos + 6] | d[pos + 7] | d[pos + 8] | d[pos + 9]) & 0x80 == 0)
}

pub fn validate_mp3(data: &[u8], pos: usize) -> (r: bool)
    ensures r == accepts_mp3(data@, pos as int),
{
    if short_at(data, pos, 10) {
        return true;
    }
    let version = data[pos + 3];
    if !(2 <= version && version <= 4) {
        return false;
    }
    if data[pos + 5] & 0x0F != 0 {
        return false;
    }
    (data[pos + 6] | data[pos + 7] | data[pos + 8] | data[pos + 9]) & 0x80 == 0
}

/// Major brands that have their own signature (or are not video) and are
/// therefore refused by the generic MP4 check.
pub open spec fn mp4_brand_excluded(d: Seq<u8>, b: int) -> bool {
    ||| occurs_at(d, b, seq![0x71u8, 0x74, 0x20, 0x20])
    ||| occurs_at(d, b, seq![0x4Du8, 0x34, 0x56, 0x20])
    ||| occurs_at(d, b, seq![0x4Du8, 0x34, 0x41, 0x20])
    ||| occurs_at(d, b, seq![0x33u8, 0x67, 0x70])
    ||| occurs_at(d, b, seq![0x33u8, 0x67, 0x32])
    ||| occurs_at(d, b, seq![0x6Au8, 0x70])
    ||| occurs_at(d, b, seq![0x68u8, 0x65, 0x69, 0x63])
    ||| occurs_at(d, b, seq![0x68u8, 0x65, 0x69, 0x78])
    ||| occurs_at(d, b, seq![0x6Du8, 0x69, 0x66, 0x31])
    ||| occurs_at(d, b, seq![0x61u8, 0x76, 0x69, 0x66])
    ||| occurs_at(d, b, seq![0x63u8, 0x72, 0x78, 0x20])
}

fn mp4_brand_is_excluded(data: &[u8], b: usize) -> (r: bool)
    requires b + 4 <= data.len(),
    ensures r == mp4_brand_excluded(data@, b as int),
{
    matches_at(data, b, &[0x71, 0x74, 0x20, 0x20])
        || matches_at(data, b, &[0x4D, 0x34, 0x56, 0x20])
        || matches_at(data, b, &[0x4D, 0x34, 0x41, 0x20])
        || matches_at(data, b, &[0x33, 0x67, 0x70])
        || matches_at(data, b, &[0x33, 0x67, 0x32])
        || matches_at(data, b, &[0x6A, 0x70])
        || matches_at(data, b, &[0x68, 0x65, 0x69, 0x63])
        || matches_at(data, b, &[0x68, 0x65, 0x69, 0x78])
        || matches_at(data, b, &[0x6D, 0x69, 0x66, 0x31])
        || matches_at(data, b, &[0x61, 0x76, 0x69, 0x66])
        || matches_at(data, b, &[0x63, 0x72, 0x78, 0x20])
}

/// Generic MP4: `ftyp` size in [12, 512], printable major brand that is not
/// one of the excluded brands, and — when the following box header is
/// present — a following box of size ≥ 8 whose type is letters, digits or
/// spaces.
pub open spec fn accepts_mp4(d: Seq<u8>, pos: int) -> bool {
    let bs = be32(d, pos);
    let next = pos + bs;
    short(d, pos, 12) || {
        &&& 12 <= bs <= 512
        &&& is_print(d[pos + 8]) && is_print(d[pos + 9]) && is_print(d[pos + 10]) && is_print(d[pos + 11])
        &&& !mp4_brand_excluded(d, pos + 8)
        &&& (next + 8 <= d.len() ==> (be32(d, next) >= 8
            && (is_alnum(d[next + 4]) || d[next + 4] == 0x20)
            && (is_alnum(d[next + 5]) || d[next + 5] == 0x20)
            && (is_alnum(d[next + 6]) || d[next + 6] == 0x20)
            && (is_alnum(d[next + 7]) || d[next + 7] == 0x20)))
    }
}

pub fn validate_mp4(data: &[u8], pos: usize) -> (r: bool)
    ensures r == accepts_mp4(data@, pos as int),
{
    if short_at(data, pos, 12) {
        return true;
    }
    let box_size = rd_be32(data, pos);
    if !(12 <= box_size && box_size <= 512) {
        return false;
    }
    if !(print(data[pos + 8]) && print(data[pos + 9]) && print(data[pos + 10]) && print(data[pos + 11])) {
        return false;
    }
    if mp4_brand_is_excluded(data, pos + 8) {
        return false;
    }
    let bs = box_size as usize;
    if bs <= data.len() - pos && 8 <= data.len() - pos - bs {
        let next = pos + bs;
        if rd_be32(data, next) < 8 {
            return false;
        }
        let b4 = data[next + 4];
        let b5 = data[next + 5];
        let b6 = data[next + 6];
        let b7 = data[next + 7];
        if !((alnum(b4) || b4 == 0x20) && (alnum(b5) || b5 == 0x20) && (alnum(b6) || b6 == 0x20)
            && (alnum(b7) || b7 == 0x20)) {
            return false;
        }
    }
    true
}

/// EBML DocType element ID `42 82` at `i`.
pub open spec fn doctype_id_at(d: Seq<u8>, i: int) -> bool {
    d[i] == 0x42 && d[i + 1] == 0x82
}

/// First DocType element ID at or after `i` whose two bytes lie before `we`.
pub open spec fn first_doctype(d: Seq<u8>, i: int, we: int) -> Option<int>
    decreases we - i,
{
    if i + 1 >= we {
        None
    } else if doctype_id_at(d, i) {
        Some(i)
    } else {
        first_doctype(d, i + 1, we)
    }
}

/// The DocType element at `i` (within the window ending at `we`) is
/// consistent with `name`: its value is `name` when a one-byte length and
/// the whole value are visible, otherwise undecided (accepted).
pub open spec fn doctype_matches(d: Seq<u8>, i: int, we: int, name: Seq<u8>) -> bool {
    let v = d[i + 2];
    let n = (v & 0x7F) as int;
    i + 2 >= we || v & 0x80 == 0 || i + 3 + n > we || (n == name.len() && occurs_at(d, i + 3, name))
}

/// EBML header (MKV / WebM): VINT byte @4 non-zero; within the first 80
/// bytes, the first DocType element must name `name`; a full 80-byte window
/// without a DocType is refused.
pub open spec fn accepts_ebml_doctype(d: Seq<u8>, pos: int, name: Seq<u8>) -> bool {
    let we = min(d.len() as int, pos + 80);
    short(d, pos, 5) || (d[pos + 4] != 0 && match first_doctype(d, pos + 5, we) {
        Some(i) => doctype_matches(d, i, we, name),
        None => we != pos + 80,
    })
}

fn ebml_doctype_check(data: &[u8], pos: usize, name: &[u8]) -> (r: bool)
    requires name@.len() <= 16,
    ensures r == accepts_ebml_doctype(data@, pos as int, name@),
{
    if short_at(data, pos, 5) {
        return true;
    }
    if data[pos + 4] == 0x00 {
        return false;
    }
    let we = if data.len() - pos < 80 { data.len() } else { pos + 80 };
    let mut i: usize = pos + 5;
    while we - i > 1
        invariant
            pos + 5 <= i <= we,
            we <= data.len(),
            pos + 5 <= data.len(),
            data@[pos + 4] != 0,
            we == min(data@.len() as int, pos + 80),
            first_doctype(data@, pos + 5, we as int) == first_doctype(data@, i as int, we as int),
        decreases we - i,
    {
        if data[i] == 0x42 && data[i + 1] == 0x82 {
            if i + 2 >= we {
                return true;
            }
            let vint = data[i + 2];
            if vint & 0x80 != 0 {
                let doc_len = (vint & 0x7F) as usize;
                if doc_len <= we - i - 3 {
                    return doc_len == name.len() && matches_at(data, i + 3, name);
                }
            }
            return true;
        }
        i += 1;
    }
    data.len() - pos < 80
}

/// Matroska: DocType `matroska`.
pub open spec fn accepts_mkv(d: Seq<u8>, pos: int) -> bool {
    accepts_ebml_doctype(d, pos, seq![0x6Du8, 0x61, 0x74, 0x72, 0x6F, 0x73, 0x6B, 0x61])
}

pub fn validate_mkv(data: &[u8], pos: usize) -> (r: bool)
    ensures r == accepts_mkv(data@, pos as int),
{
    ebml_doctype_check(data, pos, &[0x6D, 0x61, 0x74, 0x72, 0x6F, 0x73, 0x6B, 0x61])
}

/// WebM: DocType `webm`.
pub open spec fn accepts_webm(d: Seq<u8>, pos: int) -> bool {
    accepts_ebml_doctype(d, pos, seq![0x77u8, 0x65, 0x62, 0x6D])
}

pub fn validate_webm(data: &[u8], pos: usize) -> (r: bool)
    ensures r == accepts_webm(data@, pos as int),
{
    ebml_doctype_check(data, pos, &[0x77, 0x65, 0x62, 0x6D])
}

/// FLAC: first metadata block is STREAMINFO (type 0).
pub open spec fn accepts_flac(d: Seq<u8>, pos: int) -> bool {
    short(d, pos, 5) || d[pos + 4] & 0x7F == 0
}

pub fn validate_flac(data: &[u8], pos: usize) -> (r: bool)
    ensures r == accepts_flac(data@, pos as int),
{
    if short_at(data, pos, 5) {
        return true;
    }
    data[pos + 4] & 0x7F == 0x00
}

/// Ogg: stream version 0 and beginning-of-stream flag set.
pub open spec fn accepts_ogg(d: Seq<u8>, pos: int) -> bool {
    short(d, pos, 6) || (d[pos + 4] == 0 && d[pos + 5] & 0x02 != 0)
}

pub fn validate_ogg(data: &[u8], pos: usize) -> (r: bool)
    ensures r == accepts_ogg(data@, pos as int),
{
    if short_at(data, pos, 6) {
        return true;
    }
    data[pos + 4] == 0x00 && (data[pos + 5] & 0x02) != 0
}

/// WAV: RIFF chunk size ≥ 36.
pub open spec fn accepts_wav(d: Seq<u8>, pos: int) -> bool {
    short(d, pos, 8) || le32(d, pos + 4) >= 36
}

pub fn validate_wav(data: &[u8], pos: usize) -> (r: bool)
    ensures r == accepts_wav(data@, pos as int),
{
    if short_at(data, pos, 8) {
        return true;
    }
    rd_le32(data, pos + 4) >= 36
}

/// AVI: RIFF chunk size ≥ 12.
pub open spec fn accepts_avi(d: Seq<u8>, pos: int) -> bool {
    short(d, pos, 8) || le32(d, pos + 4) >= 12
}

pub fn validate_avi(data: &[u8], pos: usize) -> (r: bool)
    ensures r == accepts_avi(data@, pos as int),
{
    if short_at(data, pos, 8) {
        return true;
    }
    rd_le32(data, pos + 4) >= 12
}

/// ADTS 13-bit frame length field of the header at `pos`.
pub open spec fn adts_frame_len(d: Seq<u8>, pos: int) -> int {
    (d[pos + 3] % 4) * 2048 + d[pos + 4] * 8 + d[pos + 5] / 32
}

/// ADTS: layer bits zero, sampling-frequency index ≤ 12, and (when six
/// bytes are present) frame length in [7, 8191].
pub open spec fn accepts_aac(d: Seq<u8>, pos: int) -> bool {
    short(d, pos, 3) || (d[pos + 1] & 0x06 == 0 && (d[pos + 2] / 4) % 16 <= 12
        && (short(d, pos, 6) || 7 <= adts_frame_len(d, pos) <= 8191))
}

pub fn validate_aac(data: &[u8], pos: usize) -> (r: bool)
    ensures r == accepts_aac(data@, pos as int),
{
    if short_at(data, pos, 3) {
        return true;
    }
    let b1 = data[pos + 1];
    let b2 = data[pos + 2];
    if b1 & 0x06 != 0x00 {
        return false;
    }
    let sfi = (b2 / 4) % 16;
    if sfi > 12 {
        return false;
    }
    if !short_at(data, pos, 6) {
        let frame_len = (data[pos + 3] % 4) as u32 * 2048 + data[pos + 4] as u32 * 8
            + (data[pos + 5] / 32) as u32;
        if frame_len < 7 || frame_len > 8191 {
            return false;
        }
    }
    true
}

/// AIFF / AIFC: subtype byte @11 is `F` or `C`; FORM size > 4.
pub open spec fn accepts_aiff(d: Seq<u8>, pos: int) -> bool {
    short(d, pos, 12) || ((d[pos + 11] == 0x46 || d[pos + 11] == 0x43) && be32(d, pos + 4) > 4)
}

pub fn validate_aiff(data: &[u8], pos: usize) -> (r: bool)
    ensures r == accepts_aiff(data@, pos as int),
{
    if short_at(data, pos, 12) {
        return true;
    }
    let subtype = data[pos + 11];
    if subtype != 0x46 && subtype != 0x43 {
        return false;
    }
    rd_be32(data, pos + 4) > 4
}

/// Standard MIDI file: header length 6 and format ≤ 2.
pub open spec fn accepts_midi(d: Seq<u8>, pos: int) -> bool {
    short(d, pos, 10) || (be32(d, pos + 4) == 6 && be16(d, pos + 8) <= 2)
}

pub fn validate_midi(data: &[u8], pos: usize) -> (r: bool)
    ensures r == accepts_midi(data@, pos as int),
{
    if short_at(data, pos, 10) {
        return true;
    }
    if rd_be32(data, pos + 4) != 6 {
        return false;
    }
    rd_be16(data, pos + 8) <= 2
}

/// ASF / WMV: header object size (u64 LE @16) ≥ 30.
pub open spec fn accepts_wmv(d: Seq<u8>, pos: int) -> bool {
    short(d, pos, 24) || le64(d, pos + 16) >= 30
}

pub fn validate_wmv(data: &[u8], pos: usize) -> (r: bool)
    ensures r == accepts_wmv(data@, pos as int),
{
    if short_at(data, pos, 24) {
        return true;
    }
    rd_le64(data, pos + 16) >= 30
}

/// FLV: reserved type-flag bits clear and data offset 9.
pub open spec fn accepts_flv(d: Seq<u8>, pos: int) -> bool {
    short(d, pos, 9) || (d[pos + 4] & 0xFA == 0 && be32(d, pos + 5) == 9)
}

pub fn validate_flv(data: &[u8], pos: usize) -> (r: bool)
    ensures r == accepts_flv(data@, pos as int),
{
    if short_at(data, pos, 9) {
        return true;
    }
    if data[pos + 4] & 0xFA != 0 {
        return false;
    }
    rd_be32(data, pos + 5) == 9
}

/// MPEG program stream pack header: MPEG-2 (`01` top bits) requires all
/// marker bits of the 14-byte pack header; MPEG-1 (`0010` top bits) requires
/// the SCR marker bit; anything else is refused.
pub open spec fn accepts_mpeg(d: Seq<u8>, pos: int) -> bool {
    let b4 = d[pos + 4];
    short(d, pos, 5) || (if b4 & 0xC0 == 0x40 {
        short(d, pos, 14) || (b4 & 0x04 != 0 && d[pos + 6] & 0x04 != 0 && d[pos + 8] & 0x04 != 0
            && d[pos + 9] & 0x01 != 0 && d[pos + 12] & 0x03 == 0x03 && d[pos + 13] & 0xF8 == 0xF8)
    } else if b4 & 0xF0 == 0x20 {
        b4 & 0x01 != 0
    } else {
        false
    })
}

pub fn validate_mpeg(data: &[u8], pos: usize) -> (r: bool)
    ensures r == accepts_mpeg(data@, pos as int),
{
    if short_at(data, pos, 5) {
        return true;
    }
    let b4 = data[pos + 4];
    if (b4 & 0xC0) == 0x40 {
        if short_at(data, pos, 14) {
            return true;
        }
        (b4 & 0x04 != 0) && (data[pos + 6] & 0x04 != 0) && (data[pos + 8] & 0x04 != 0)
            && (data[pos + 9] & 0x01 != 0) && (data[pos + 12] & 0x03 == 0x03)
            && (data[pos + 13] & 0xF8 == 0xF8)
    } else if (b4 & 0xF0) == 0x20 {
        b4 & 0x01 != 0
    } else {
        false
    }
}

/// MPEG-TS: sync bytes at 0, 188, 376 and, when present, at 564 and 752.
pub open spec fn accepts_ts(d: Seq<u8>, pos: int) -> bool {
    short(d, pos, 377) || (d[pos] == 0x47 && d[pos + 188] == 0x47 && d[pos + 376] == 0x47
        && (pos + 753 > d.len() || (d[pos + 564] == 0x47 && d[pos + 752] == 0x47)))
}

pub fn validate_ts(data: &[u8], pos: usize) -> (r: bool)
    ensures r == accepts_ts(data@, pos as int),
{
    if short_at(data, pos, 377) {
        return true;
    }
    if data[pos] != 0x47 || data[pos + 188] != 0x47 || data[pos + 376] != 0x47 {
        return false;
    }
    if !short_at(data, pos, 753) && (data[pos + 564] != 0x47 || data[pos + 752] != 0x47) {
        return false;
    }
    true
}

/// M2TS: sync bytes at 4, 196, 388 and, when present, at 580 and 772.
pub open spec fn accepts_m2ts(d: Seq<u8>, pos: int) -> bool {
    short(d, pos, 389) || (d[pos + 4] == 0x47 && d[pos + 196] == 0x47 && d[pos + 388] == 0x47
        && (pos + 773 > d.len() || (d[pos + 580] == 0x47 && d[pos + 772] == 0x47)))
}

pub fn validate_m2ts(data: &[u8], pos: usize) -> (r: bool)
    ensures r == accepts_m2ts(data@, pos as int),
{
    if short_at(data, pos, 389) {
        return true;
    }
    if data[pos + 4] != 0x47 || data[pos + 196] != 0x47 || data[pos + 388] != 0x47 {
        return false;
    }
    if !short_at(data, pos, 773) && (data[pos + 580] != 0x47 || data[pos + 772] != 0x47) {
        return false;
    }
    true
}

/// RealMedia: object version ≤ 1 and header size ≥ 18.
pub open spec fn accepts_realmedia(d: Seq<u8>, pos: int) -> bool {
    short(d, pos, 10) || (be16(d, pos + 4) <= 1 && be32(d, pos + 6) >= 18)
}

pub fn validate_realmedia(data: &[u8], pos: usize) -> (r: bool)
    ensures r == accepts_realmedia(data@, pos as int),
{
    if short_at(data, pos, 10) {
        return true;
    }
    if rd_be16(data, pos + 4) > 1 {
        return false;
    }
    rd_be32(data, pos + 6) >= 18
}

/// WavPack: non-zero block size and version in [0x0402, 0x0410].
pub open spec fn accepts_wavpack(d: Seq<u8>, pos: int) -> bool {
    short(d, pos, 10) || (le32(d, pos + 4) != 0 && 0x0402 <= le16(d, pos + 8) <= 0x0410)
}

pub fn validate_wavpack(data: &[u8], pos: usize) -> (r: bool)
    ensures r == accepts_wavpack(data@, pos as int),
{
    if short_at(data, pos, 10) {
        return true;
    }
    if rd_le32(data, pos + 4) == 0 {
        return false;
    }
    let version = rd_le16(data, pos + 8);
    0x0402 <= version && version <= 0x0410
}

/// Monkey's Audio: version (u16 LE @6) in [3930, 4100].
pub open spec fn accepts_ape(d: Seq<u8>, pos: int) -> bool {
    short(d, pos, 8) || 3930 <= le16(d, pos + 6) <= 4100
}

pub fn validate_ape(data: &[u8], pos: usize) -> (r: bool)
    ensures r == accepts_ape(data@, pos as int),
{
    if short_at(data, pos, 8) {
        return true;
    }
    let version = rd_le16(data, pos + 6);
    3930 <= version && version <= 4100
}

/// Sun AU: data offset ≥ 24 and a known encoding (1–7 or 23–27).
pub open spec fn accepts_au(d: Seq<u8>, pos: int) -> bool {
    let enc = be32(d, pos + 12);
    short(d, pos, 16) || (be32(d, pos + 4) >= 24 && (1 <= enc <= 7 || 23 <= enc <= 27))
}

pub fn validate_au(data: &[u8], pos: usize) -> (r: bool)
    ensures r == accepts_au(data@, pos as int),
{
    if short_at(data, pos, 16) {
        return true;
    }
    if rd_be32(data, pos + 4) < 24 {
        return false;
    }
    let enc = rd_be32(data, pos + 12);
    (1 <= enc && enc <= 7) || (23 <= enc && enc <= 27)
}

/// Shockwave Flash: version in [3, 45]; file length in [21, 100 MiB];
/// uncompressed files need an RECT bit width in [1, 25]; zlib files need a
/// deflate CMF byte with window ≤ 7.
pub open spec fn accepts_swf(d: Seq<u8>, pos: int) -> bool {
    let fl = le32(d, pos + 4);
    let b8 = d[pos + 8];
    short(d, pos, 9) || {
        &&& 3 <= d[pos + 3] <= 45
        &&& 21 <= fl <= 104_857_600
        &&& (d[pos] == 0x46 ==> (b8 >> 3u8 != 0 && b8 >> 3u8 <= 25))
        &&& (d[pos] == 0x43 ==> (b8 & 0x0F == 8 && b8 >> 4u8 <= 7))
    }
}

pub fn validate_swf(data: &[u8], pos: usize) -> (r: bool)
    ensures r == accepts_swf(data@, pos as int),
{
    if short_at(data, pos, 9) {
        return true;
    }
    let version = data[pos + 3];
    if !(3 <= version && version <= 45) {
        return false;
    }
    let file_len = rd_le32(data, pos + 4);
    if !(21 <= file_len && file_len <= 104_857_600) {
        return false;
    }
    if data[pos] == 0x46 {
        let nbits = data[pos + 8] >> 3u8;
        if nbits == 0 || nbits > 25 {
            return false;
        }
    }
    if data[pos] == 0x43 {
        let cmf = data[pos + 8];
        if cmf & 0x0F != 8 || cmf >> 4u8 > 7 {
            return false;
        }
    }
    true
}

} // verus!
