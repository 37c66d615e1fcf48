//! Pre-extraction format validators.
//!
//! Each [`PreValidate`] variant applies a cheap structural check to the raw
//! bytes at a hit position during scanning.  Hits that fail are discarded
//! before being reported, reducing false positives and avoiding wasted
//! extraction work.
//!
//! All validators follow the same contract: when the chunk does not hold
//! enough bytes to validate, the hit is accepted (the scan has already
//! matched the magic); a hit is refused only when its header bytes are
//! definitively wrong.  The four validators whose whole check is the
//! presence of their (unique) magic — CHM, InDesign, WTV and binary plist —
//! instead refuse a hit whose magic is cut off.

pub mod archive;
pub mod document;
pub mod image;
pub mod media;
pub mod raw;
pub mod system;

use vstd::prelude::*;
use crate::bytes::short;
use crate::text::{ascii_lower_chars, chars_of, lower_ascii, same_chars};

use self::archive::{
    accepts_bzip2, accepts_cab, accepts_epub, accepts_gz, accepts_jar, accepts_lzh, accepts_odt, accepts_par2, accepts_rar, accepts_seven_zip, accepts_tar, accepts_xz, accepts_zip, validate_bzip2, validate_cab, validate_epub, validate_gz, validate_jar, validate_lzh, validate_odt, validate_par2, validate_rar, validate_seven_zip, validate_tar, validate_xz, validate_zip,
};
use self::document::{
    accepts_blend, accepts_cdr, accepts_chm, accepts_dicom, accepts_eml, accepts_fits, accepts_html, accepts_ical, accepts_indd, accepts_otf, accepts_pdf, accepts_pem, accepts_php, accepts_plist, accepts_rtf, accepts_shebang, accepts_ttf, accepts_vcard, accepts_woff, accepts_woff2, accepts_wtv, accepts_xml, validate_blend, validate_cdr, validate_chm, validate_dicom, validate_eml, validate_fits, validate_html, validate_ical, validate_indd, validate_otf, validate_pdf, validate_pem, validate_php, validate_plist, validate_rtf, validate_shebang, validate_ttf, validate_vcard, validate_woff, validate_woff2, validate_wtv, validate_xml,
};
use self::image::{
    accepts_3gp, accepts_bmp, accepts_cr3, accepts_djvu, accepts_dpx, accepts_exr, accepts_gif, accepts_heic, accepts_ico, accepts_jpeg_com, accepts_jpeg_dqt, accepts_jpeg_exif, accepts_jpeg_jfif, accepts_m4a, accepts_m4v, accepts_mov, accepts_pcx, accepts_png, accepts_psd, accepts_webp, accepts_xcf, validate_3gp, validate_bmp, validate_cr3, validate_djvu, validate_dpx, validate_exr, validate_gif, validate_heic, validate_ico, validate_jpeg_com, validate_jpeg_dqt, validate_jpeg_exif, validate_jpeg_jfif, validate_m4a, validate_m4v, validate_mov, validate_pcx, validate_png, validate_psd, validate_webp, validate_xcf,
};
use self::media::{
    accepts_aac, accepts_aiff, accepts_ape, accepts_au, accepts_avi, accepts_flac, accepts_flv, accepts_m2ts, accepts_midi, accepts_mkv, accepts_mp3, accepts_mp4, accepts_mpeg, accepts_ogg, accepts_realmedia, accepts_swf, accepts_ts, accepts_wav, accepts_wavpack, accepts_webm, accepts_wmv, validate_aac, validate_aiff, validate_ape, validate_au, validate_avi, validate_flac, validate_flv, validate_m2ts, validate_midi, validate_mkv, validate_mp3, validate_mp4, validate_mpeg, validate_ogg, validate_realmedia, validate_swf, validate_ts, validate_wav, validate_wavpack, validate_webm, validate_wmv,
};
use self::raw::{
    accepts_arw, accepts_cr2, accepts_crw, accepts_dcr, accepts_mrw, accepts_nef, accepts_orf, accepts_pef, accepts_raf, accepts_rw2, accepts_sr2, accepts_tiff_be, accepts_tiff_le, accepts_x3f, validate_arw, validate_cr2, validate_crw, validate_dcr, validate_mrw, validate_nef, validate_orf, validate_pef, validate_raf, validate_rw2, validate_sr2, validate_tiff_be, validate_tiff_le, validate_x3f,
};
use self::system::{
    accepts_dex, accepts_dmp, accepts_e01, accepts_elf, accepts_evt, accepts_evtx, accepts_exe, accepts_hdf5, accepts_iso, accepts_java_class, accepts_kdb, accepts_kdbx, accepts_lnk, accepts_luks, accepts_macho, accepts_msg, accepts_ole2, accepts_pcap, accepts_prefetch, accepts_pst, accepts_pyc, accepts_qcow2, accepts_regf, accepts_sqlite, accepts_vdi, accepts_vhd, accepts_vhdx, accepts_vmdk, validate_dex, validate_dmp, validate_e01, validate_elf, validate_evt, validate_evtx, validate_exe, validate_hdf5, validate_iso, validate_java_class, validate_kdb, validate_kdbx, validate_lnk, validate_luks, validate_macho, validate_msg, validate_ole2, validate_pcap, validate_prefetch, validate_pst, validate_pyc, validate_qcow2, validate_regf, validate_sqlite, validate_vdi, validate_vhd, validate_vhdx, validate_vmdk,
};

verus! {

/// Selects the format-specific validator applied at scan time.
#[derive(Debug, Clone, Copy, PartialEq, Eq, Structural)]
pub enum PreValidate {
    /// ZIP local file header: version, compression method, filename plausibility.
    Zip,
    /// JPEG/JFIF: `JFIF\0` identifier at offset 6.
    JpegJfif,
    /// JPEG/Exif: `Exif` identifier at offset 6.
    JpegExif,
    /// JPEG starting with DQT (Define Quantization Table) directly after SOI —
    /// no APP0/APP1 header.  DQT segment length (u16 BE @4) must be in [67, 518].
    JpegDqt,
    /// PNG: first chunk length == 13 and type == `IHDR`.
    Png,
    /// PDF: version string `-1.x` or `-2.x` at offset 4.
    Pdf,
    /// GIF: byte 4 is `7` or `9`; byte 5 is `a` (GIF87a / GIF89a).
    Gif,
    /// BMP: DIB header size (u32 LE @14) is a known valid value.
    Bmp,
    /// MP3/ID3v2: version in {2,3,4}; flags low nibble zero; syncsafe size.
    Mp3,
    /// MP4/ISOBMFF: ftyp box size in [12, 512]; brand bytes are printable ASCII.
    Mp4,
    /// RAR: type byte (offset 6) is 0x00 (v4) or 0x01 (v5).
    Rar,
    /// 7-Zip: major version (offset 6) is 0x00.
    SevenZip,
    /// SQLite: page size (u16 BE @16) is a power-of-2 in [512, 65536].
    Sqlite,
    /// Matroska/MKV: EBML VINT leading byte (offset 4) is non-zero.
    Mkv,
    /// FLAC: first metadata block type (lower 7 bits @4) is 0 (STREAMINFO).
    Flac,
    /// Windows PE: `e_lfanew` (u32 LE @60) is in [64, 16384].
    Exe,
    /// VMDK: version field (u32 LE @4) is in {1, 2, 3}.
    Vmdk,
    /// Ogg: stream-structure version (offset 4) == 0 and BOS flag (bit 1 @5) set.
    Ogg,
    /// EVTX: MajorVersion (u16 LE @38) == 3.
    Evtx,
    /// PST/OST: `wMagicClient` bytes @8-9 == [0x4D, 0x53].
    Pst,
    /// XML: byte 5 (after `<?xml`) is a space.
    Xml,
    /// HTML: `<!DOCTYPE` is followed by a space then `html` / `HTML`.
    Html,
    /// RTF: byte 6 (after `{\rtf1`) is `\`, space, CR, or LF.
    Rtf,
    /// vCard: `BEGIN:VCARD` is immediately followed by CR or LF.
    Vcard,
    /// iCalendar: `BEGIN:VCALENDAR` is immediately followed by CR or LF.
    Ical,
    /// OLE2: ByteOrder field (u16 LE @28) == 0xFFFE.
    Ole2,
    /// Sony ARW: TIFF LE + IFD at offset 8, "SONY" string within first 512 bytes.
    Arw,
    /// Canon CR2: TIFF LE + `CR\x02\x00` at offset 8, plausible IFD offset.
    Cr2,
    /// Panasonic RW2: `II\x55\x00` TIFF variant, plausible IFD offset + entry count.
    Rw2,
    /// Fujifilm RAF: `FUJIFILMCCD-RAW ` + 4-digit version string at offset 16.
    Raf,
    /// Generic TIFF (little-endian `II\x2A\x00`): plausible IFD offset and entry
    /// count.  Explicitly rejects Sony ARW ("SONY" marker), Canon CR2 (`CR\x02\x00`
    /// at offset 8), and Nikon NEF ("NIKON" marker) since those have dedicated
    /// signatures that produce correctly-named output files.
    TiffLe,
    /// Generic TIFF (big-endian `MM\x00\x2A`): plausible IFD offset and entry count.
    TiffBe,
    /// Nikon NEF: TIFF LE file that contains the "NIKON" manufacturer string within
    /// the first 512 bytes of the header.
    Nef,
    /// Apple HEIC / HEIF: ISO Base Media File Format with an `heic` or `heix` major
    /// brand in the `ftyp` box.  Box size must be in [12, 512].
    Heic,
    /// QuickTime MOV: ISOBMFF ftyp box with `qt  ` major brand.
    Mov,
    /// iTunes M4V video: ISOBMFF ftyp box with `M4V ` major brand.
    M4v,
    /// 3GPP / 3GPP2 mobile video: ISOBMFF ftyp box whose major brand starts
    /// with `3gp` or `3g2`.
    ThreeGp,
    /// WebM video: EBML file whose DocType element equals `"webm"` (not
    /// `"matroska"`).
    Webm,
    /// Windows Media Video / ASF: ASF Header Object GUID at offset 0; object
    /// size (u64 LE @16) must be ≥ 30.
    Wmv,
    /// Flash Video: `FLV\x01` header; type-flags reserved bits must be zero;
    /// DataOffset (u32 BE @5) must equal 9.
    Flv,
    /// MPEG-2 / MPEG-1 Program Stream: pack header `00 00 01 BA`; top 2 bits
    /// of byte 4 must be `01` (MPEG-2) or top 4 bits must be `0010` (MPEG-1).
    Mpeg,
    /// WebP image: RIFF container with "WEBP" subtype at bytes 8–11; RIFF size
    /// field (u32 LE @4) must be ≥ 4.
    Webp,
    /// AAC / M4A audio: ISOBMFF ftyp box with `M4A ` major brand; box size in
    /// [12, 512].
    M4a,
    /// GZip compressed file: compression method (byte @2) must be 8 (DEFLATE);
    /// reserved flag bit 5 of byte @3 must be 0 per RFC 1952.
    Gz,
    /// Email message (EML): `From ` header followed by a printable ASCII character.
    Eml,
    /// ELF executable or shared library: EI_CLASS in {1,2}; EI_DATA in {1,2};
    /// EI_VERSION == 1.
    Elf,
    /// Windows Registry Hive (REGF): major version (u32 LE @20) == 1; minor
    /// version (u32 LE @24) in [2, 6].
    Regf,
    /// Adobe Photoshop Document (PSD/PSB): version (u16 BE @4) in {1,2};
    /// number of channels (u16 BE @6) in [1, 56].
    Psd,
    /// VHD Virtual Hard Disk: disk type (u32 BE @60) in {2, 3, 4}.
    Vhd,
    /// VHDX Virtual Hard Disk: 8-byte "vhdxfile" magic is globally unique.
    Vhdx,
    /// QCOW2 virtual disk: version (u32 BE @4) in {2, 3}; cluster_bits
    /// (u32 BE @20) in [9, 21].
    Qcow2,
    /// Standard MIDI File: chunk length (u32 BE @4) == 6; format (u16 BE @8) in {0,1,2}.
    Midi,
    /// AIFF / AIFC: byte @11 is 'F' (AIFF) or 'C' (AIFC); FORM chunk size > 4.
    Aiff,
    /// XZ compressed stream: reserved byte @6 == 0x00; check type byte @7
    /// in {0x00, 0x01, 0x04, 0x0A}.
    Xz,
    /// BZip2: level byte @3 in '1'-'9'; block magic bytes @4-9 equal the BWT pi constant.
    Bzip2,
    /// RealMedia File Format: object version (u16 BE @4) in {0,1}; header size
    /// (u32 BE @6) >= 18.
    RealMedia,
    /// Windows ICO: image count (u16 LE @4) in [1, 200].
    Ico,
    /// Olympus ORF: TIFF LE with RO magic; IFD offset (u32 LE @4) in [8, 4096].
    Orf,
    /// Pentax PEF: TIFF LE file with "PENTAX " string in first 512 bytes.
    Pef,
    /// Mach-O 64-bit: filetype (u32 LE @12) in [1, 12]; ncmds (u32 LE @16) in [1, 512].
    MachO,
    /// Canon CR3: ISOBMFF `ftyp` box with `crx ` brand; box size (u32 BE @0) in [12, 512].
    Cr3,
    /// Sony SR2: TIFF LE with IFD at offset 8; "SONY" string in first 512 bytes; IFD entry
    /// for private tag 0x7200 (SR2Private) present in IFD0 entries.
    Sr2,
    /// EPUB e-book: ZIP container whose first local file entry is named `mimetype` (8 bytes,
    /// uncompressed) and whose content contains `epub+zip`.
    Epub,
    /// OpenDocument (ODT/ODS/ODP/…): ZIP container whose first local file entry is named
    /// `mimetype` and whose content contains `opendocument`.
    Odt,
    /// Outlook MSG: OLE2 compound document; ByteOrder @28 == 0xFFFE and first 4 KiB contains
    /// the MAPI stream name `__substg1.0_`.
    Msg,
    /// WavPack audio: `wvpk` block; ck_size (u32 LE @4) > 0; version (u16 LE @8) in
    /// [0x0402, 0x0410].
    WavPack,
    /// CorelDRAW CDR: RIFF container with `CDR` at bytes 8–10 and a valid version suffix
    /// at byte 11 (e.g. `4`–`9`, `A`–`Z`, space).
    Cdr,
    /// Shockwave Flash (FWS/CWS/ZWS): first byte identifies compression; version byte @3
    /// in [1, 50]; file length (u32 LE @4) >= 8.
    Swf,
    /// Kodak DCR: TIFF LE with `Kodak` or `KODAK` string in first 512 bytes; rejects other
    /// TIFF-based RAW formats.
    Dcr,
    /// Canon CRW: legacy CIFF-based RAW; `HEAPCCDR` string at offset 6 in the first 14 bytes.
    Crw,
    /// Minolta MRW: `\x00MRM` header; first data block tag at offset 8 is `PRD` or `TTW`.
    Mrw,
    /// KeePass 2.x (KDBX): sig1 `03 D9 A2 9A` + sig2 `67 FB 4B B5`; major version @10
    /// (u16 LE) in {3, 4}.
    Kdbx,
    /// KeePass 1.x (KDB): sig1 `03 D9 A2 9A` + sig2 `65 FB 4B B5`; major version @10
    /// (u16 LE) in {1, 2}.
    Kdb,
    /// EnCase EWF/E01 evidence file: `EVF\x09\x0D\x0A\xFF\x00` header; segment number
    /// (u16 LE @8) == 1 (first segment only).
    E01,
    /// PCAP network capture (libpcap): magic `D4 C3 B2 A1` (LE) or `A1 B2 C3 D4` (BE);
    /// major version == 2, minor version == 4.
    Pcap,
    /// Windows Minidump: `MDMP\x93\xA7` header; stream count (u32 LE @8) > 0.
    Dmp,
    /// Apple binary property list: `bplist00` magic; data length ≥ 34 bytes.
    Plist,
    /// MPEG-TS (Transport Stream): sync byte `0x47` at stride 188; at least 3 consecutive
    /// sync bytes at offsets 0, 188, and 376.
    Ts,
    /// Blu-ray M2TS: `0x47` at offset 4 (stride 192); sync bytes at offsets 4, 196, 388.
    M2ts,
    /// LUKS encrypted disk image: `LUKS\xBA\xBE` magic; version (u16 BE @6) in {1, 2}.
    Luks,
    /// Sigma X3F RAW photo: `FOVb` magic; version (u32 LE @4) major byte in {2, 3}.
    X3f,
    /// Monkey's Audio (APE): `MAC ` magic; version (u16 LE @6) in [3930, 4100].
    Ape,
    /// Sun AU audio: `.snd` magic; data_offset (u32 BE @4) ≥ 24; encoding (u32 BE @12) in known
    /// set.
    Au,
    /// TrueType Font (TTF): sfVersion `00 01 00 00`; numTables (u16 BE @4) in [4, 50].
    Ttf,
    /// WOFF web font: `wOFF` magic; flavor in {0x00010000, 0x4F54544F}; length ≥ 44;
    /// numTables in [1, 50].
    Woff,
    /// Microsoft CHM help: `ITSF\x03\x00\x00\x00\x60\x00\x00\x00` 12-byte magic — fully
    /// deterministic, no further validation required.
    Chm,
    /// Blender 3D file: `BLENDER` magic; pointer-size byte @7 in {`-`, `_`}; endian byte @8
    /// in {`v`, `V`}.
    Blend,
    /// Adobe InDesign document: 16-byte GUID magic — globally unique, no further validation.
    Indd,
    /// Windows WTV television recording: 16-byte GUID magic — globally unique, same pattern
    /// as WMV/ASF GUID headers.
    Wtv,
    /// ISO 9660 disc image: `CD001` identifier at the start of the Primary Volume Descriptor
    /// (magic at offset 32769 within the file); version byte @5 must be 1.
    Iso,
    /// DICOM medical image: `DICM` magic at offset 128; data after the magic must be >= 8
    /// bytes to confirm a valid DICOM dataset element tag follows.
    Dicom,
    /// POSIX TAR archive (ustar): `ustar\0` magic at offset 257 (within a 512-byte header
    /// block); version string at offset 263 must be `"00"` or `"  "`.
    Tar,
    /// PHP script: `<?php` opener; byte @5 must be whitespace (space, tab, CR, or LF).
    Php,
    /// Unix shebang script (`#!`): byte @2 must be `/` (interpreter path start).
    /// Extension is fixed as `.sh`; content-based classification is not performed
    /// at scan time.
    Shebang,
    /// JPEG starting with a COM (Comment) marker directly after SOI.
    /// COM segment length (u16 BE @4) must be ≥ 2.
    JpegCom,
    /// Java bytecode class file: major version (u16 BE @6) in [45, 80]
    /// (Java 1 through Java 36, future-proofed).
    JavaClass,
    /// Microsoft Cabinet: reserved1 field (u32 LE @4) must be 0;
    /// cabinet file size (u32 LE @8) must be > 0.
    Cab,
    /// OpenType font with PostScript outlines (`OTTO` magic); numTables
    /// (u16 BE @4) in [1, 50].
    Otf,
    /// WOFF2 web font: flavor in {0x00010000, 0x4F54544F}; numTables
    /// (u16 BE @12) in [1, 50].
    Woff2,
    /// Android Dalvik Executable: version string at bytes 4–7 must be three
    /// ASCII digits followed by a null byte.
    Dex,
    /// Raw AAC/ADTS audio: ADTS layer bits (bits 1–2 of byte 1) must be 0x00;
    /// sampling_freq_index ((byte2 >> 2) & 0x0F) must be in [0, 12].
    Aac,
    /// DjVu document: `AT&TFORM` container; form type at bytes 12–15 must be
    /// one of `DJVU`, `DJVM`, `DJVI`, or `THUM`.
    Djvu,
    /// GIMP XCF image: version string at bytes 10–14 must be `file\0` (very
    /// old) or three ASCII decimal digits followed by `\0`.
    Xcf,
    /// ZSoft PCX image: version @1 in {0,2,3,4,5}; encoding @2 in {0,1};
    /// bitsPerPlane @3 in {1,2,4,8}; xMax >= xMin; yMax >= yMin;
    /// reserved @64 == 0; colorPlanes @65 in {1,3,4}.
    Pcx,
    /// Java Archive (JAR): ZIP container whose first local file entry filename
    /// (bytes 30 to 30+fname_len) starts with `META-INF`.
    Jar,
    /// LZH/LHA archive: method character at offset 3 of the `-lh?-` magic
    /// must be one of `0`–`7`, `d`, or `s`.
    Lzh,
    /// HDF5 scientific data file: superblock version byte @8 must be ≤ 3
    /// (versions 0–3 are the only defined superblock formats).
    Hdf5,
    /// FITS astronomy image: value indicator byte @9 must be space; logical
    /// value byte @29 must be `T` (FITS boolean True).
    Fits,
    /// VirtualBox VDI disk image: image type u32 LE at bytes 8–11 (relative to
    /// the magic at file offset 64) must be 1–4 (normal/fixed/undo/diff).
    Vdi,
    /// Windows Shell Link (LNK): FileAttributes u32 LE @24 must be non-zero
    /// and have no reserved high bits set (bits 16–31 must be 0).
    Lnk,
    /// Windows Prefetch file: bytes 4–7 must equal `SCCA` (the Prefetch
    /// signature that follows the version field in all known versions).
    Prefetch,
    /// Windows legacy Event Log (EVT): MajorVersion u32 LE @8 must be 1 and
    /// MinorVersion u32 LE @12 must be 1.
    Evt,
    /// PEM-encoded certificate / key: byte @10 must be a space (separator
    /// after `-----BEGIN`) and byte @11 must be an ASCII uppercase letter
    /// (start of the type label, e.g. `C` for CERTIFICATE).
    Pem,
    /// Parchive PAR2 recovery set: `packet_length` u64 LE @8 must be ≥ 20
    /// (minimum valid packet payload).
    Par2,
    /// WAV audio (RIFF container): chunk size (u32 LE @4) must be ≥ 36
    /// (minimum valid WAV: `WAVE` + `fmt ` chunk + `data` chunk header).
    Wav,
    /// AVI video (RIFF container): chunk size (u32 LE @4) must be ≥ 12
    /// (minimum: `AVI ` subtype + at least one LIST chunk header).
    Avi,
    /// Python bytecode (.pyc): flags field (u32 LE @4) must be 0–3
    /// (only bits 0–1 are defined; bit 0 = use-hash, bit 1 = checked-hash).
    Pyc,
    /// DPX film image (SDPX big-endian or XPDS little-endian): version ID
    /// string at bytes 8–11 must match `V[12].0` (DPX V1.0 or V2.0).
    Dpx,
    /// OpenEXR HDR image: version byte @4 must be 2; reserved flag bits
    /// @5 (upper nibble) and @6–@7 must all be zero.
    Exr,
}

/// The kind label of each validator, as written in signature definitions.
pub open spec fn label(k: PreValidate) -> Seq<char> {
    match k {
        PreValidate::Zip => "zip"@,
        PreValidate::JpegJfif => "jpeg_jfif"@,
        PreValidate::JpegExif => "jpeg_exif"@,
        PreValidate::JpegDqt => "jpeg_dqt"@,
        PreValidate::Png => "png"@,
        PreValidate::Pdf => "pdf"@,
        PreValidate::Gif => "gif"@,
        PreValidate::Bmp => "bmp"@,
        PreValidate::Mp3 => "mp3"@,
        PreValidate::Mp4 => "mp4"@,
        PreValidate::Rar => "rar"@,
        PreValidate::SevenZip => "seven_zip"@,
        PreValidate::Sqlite => "sqlite"@,
        PreValidate::Mkv => "mkv"@,
        PreValidate::Flac => "flac"@,
        PreValidate::Exe => "exe"@,
        PreValidate::Vmdk => "vmdk"@,
        PreValidate::Ogg => "ogg"@,
        PreValidate::Evtx => "evtx"@,
        PreValidate::Pst => "pst"@,
        PreValidate::Xml => "xml"@,
        PreValidate::Html => "html"@,
        PreValidate::Rtf => "rtf"@,
        PreValidate::Vcard => "vcard"@,
        PreValidate::Ical => "ical"@,
        PreValidate::Ole2 => "ole2"@,
        PreValidate::Arw => "arw"@,
        PreValidate::Cr2 => "cr2"@,
        PreValidate::Rw2 => "rw2"@,
        PreValidate::Raf => "raf"@,
        PreValidate::TiffLe => "tiff_le"@,
        PreValidate::TiffBe => "tiff_be"@,
        PreValidate::Nef => "nef"@,
        PreValidate::Heic => "heic"@,
        PreValidate::Mov => "mov"@,
        PreValidate::M4v => "m4v"@,
        PreValidate::ThreeGp => "3gp"@,
        PreValidate::Webm => "webm"@,
        PreValidate::Wmv => "wmv"@,
        PreValidate::Flv => "flv"@,
        PreValidate::Mpeg => "mpeg"@,
        PreValidate::Webp => "webp"@,
        PreValidate::M4a => "m4a"@,
        PreValidate::Gz => "gz"@,
        PreValidate::Eml => "eml"@,
        PreValidate::Elf => "elf"@,
        PreValidate::Regf => "regf"@,
        PreValidate::Psd => "psd"@,
        PreValidate::Vhd => "vhd"@,
        PreValidate::Vhdx => "vhdx"@,
        PreValidate::Qcow2 => "qcow2"@,
        PreValidate::Midi => "midi"@,
        PreValidate::Aiff => "aiff"@,
        PreValidate::Xz => "xz"@,
        PreValidate::Bzip2 => "bzip2"@,
        PreValidate::RealMedia => "realmedia"@,
        PreValidate::Ico => "ico"@,
        PreValidate::Orf => "orf"@,
        PreValidate::Pef => "pef"@,
        PreValidate::MachO => "macho"@,
        PreValidate::Cr3 => "cr3"@,
        PreValidate::Sr2 => "sr2"@,
        PreValidate::Epub => "epub"@,
        PreValidate::Odt => "odt"@,
        PreValidate::Msg => "msg"@,
        PreValidate::WavPack => "wavpack"@,
        PreValidate::Cdr => "cdr"@,
        PreValidate::Swf => "swf"@,
        PreValidate::Dcr => "dcr"@,
        PreValidate::Crw => "crw"@,
        PreValidate::Mrw => "mrw"@,
        PreValidate::Kdbx => "kdbx"@,
        PreValidate::Kdb => "kdb"@,
        PreValidate::E01 => "e01"@,
        PreValidate::Pcap => "pcap"@,
        PreValidate::Dmp => "dmp"@,
        PreValidate::Plist => "plist"@,
        PreValidate::Ts => "ts"@,
        PreValidate::M2ts => "m2ts"@,
        PreValidate::Luks => "luks"@,
        PreValidate::X3f => "x3f"@,
        PreValidate::Ape => "ape"@,
        PreValidate::Au => "au"@,
        PreValidate::Ttf => "ttf"@,
        PreValidate::Woff => "woff"@,
        PreValidate::Chm => "chm"@,
        PreValidate::Blend => "blend"@,
        PreValidate::Indd => "indd"@,
        PreValidate::Wtv => "wtv"@,
        PreValidate::Iso => "iso"@,
        PreValidate::Dicom => "dicom"@,
        PreValidate::Tar => "tar"@,
        PreValidate::Php => "php"@,
        PreValidate::Shebang => "shebang"@,
        PreValidate::JpegCom => "jpeg_com"@,
        PreValidate::JavaClass => "java_class"@,
        PreValidate::Cab => "cab"@,
        PreValidate::Otf => "otf"@,
        PreValidate::Woff2 => "woff2"@,
        PreValidate::Dex => "dex"@,
        PreValidate::Aac => "aac"@,
        PreValidate::Djvu => "djvu"@,
        PreValidate::Xcf => "xcf"@,
        PreValidate::Pcx => "pcx"@,
        PreValidate::Jar => "jar"@,
        PreValidate::Lzh => "lzh"@,
        PreValidate::Hdf5 => "hdf5"@,
        PreValidate::Fits => "fits"@,
        PreValidate::Vdi => "vdi"@,
        PreValidate::Lnk => "lnk"@,
        PreValidate::Prefetch => "prefetch"@,
        PreValidate::Evt => "evt"@,
        PreValidate::Pem => "pem"@,
        PreValidate::Par2 => "par2"@,
        PreValidate::Wav => "wav"@,
        PreValidate::Avi => "avi"@,
        PreValidate::Pyc => "pyc"@,
        PreValidate::Dpx => "dpx"@,
        PreValidate::Exr => "exr"@,
    }
}

/// The validator whose label is exactly `t`, if any.
pub open spec fn kind_from_label(t: Seq<char>) -> Option<PreValidate> {
    if t == "zip"@ {
        Some(PreValidate::Zip)
    }
    else if t == "jpeg_jfif"@ {
        Some(PreValidate::JpegJfif)
    }
    else if t == "jpeg_exif"@ {
        Some(PreValidate::JpegExif)
    }
    else if t == "jpeg_dqt"@ {
        Some(PreValidate::JpegDqt)
    }
    else if t == "png"@ {
        Some(PreValidate::Png)
    }
    else if t == "pdf"@ {
        Some(PreValidate::Pdf)
    }
    else if t == "gif"@ {
        Some(PreValidate::Gif)
    }
    else if t == "bmp"@ {
        Some(PreValidate::Bmp)
    }
    else if t == "mp3"@ {
        Some(PreValidate::Mp3)
    }
    else if t == "mp4"@ {
        Some(PreValidate::Mp4)
    }
    else if t == "rar"@ {
        Some(PreValidate::Rar)
    }
    else if t == "seven_zip"@ {
        Some(PreValidate::SevenZip)
    }
    else if t == "sqlite"@ {
        Some(PreValidate::Sqlite)
    }
    else if t == "mkv"@ {
        Some(PreValidate::Mkv)
    }
    else if t == "flac"@ {
        Some(PreValidate::Flac)
    }
    else if t == "exe"@ {
        Some(PreValidate::Exe)
    }
    else if t == "vmdk"@ {
        Some(PreValidate::Vmdk)
    }
    else if t == "ogg"@ {
        Some(PreValidate::Ogg)
    }
    else if t == "evtx"@ {
        Some(PreValidate::Evtx)
    }
    else if t == "pst"@ {
        Some(PreValidate::Pst)
    }
    else if t == "xml"@ {
        Some(PreValidate::Xml)
    }
    else if t == "html"@ {
        Some(PreValidate::Html)
    }
    else if t == "rtf"@ {
        Some(PreValidate::Rtf)
    }
    else if t == "vcard"@ {
        Some(PreValidate::Vcard)
    }
    else if t == "ical"@ {
        Some(PreValidate::Ical)
    }
    else if t == "ole2"@ {
        Some(PreValidate::Ole2)
    }
    else if t == "arw"@ {
        Some(PreValidate::Arw)
    }
    else if t == "cr2"@ {
        Some(PreValidate::Cr2)
    }
    else if t == "rw2"@ {
        Some(PreValidate::Rw2)
    }
    else if t == "raf"@ {
        Some(PreValidate::Raf)
    }
    else if t == "tiff_le"@ {
        Some(PreValidate::TiffLe)
    }
    else if t == "tiff_be"@ {
        Some(PreValidate::TiffBe)
    }
    else if t == "nef"@ {
        Some(PreValidate::Nef)
    }
    else if t == "heic"@ {
        Some(PreValidate::Heic)
    }
    else if t == "mov"@ {
        Some(PreValidate::Mov)
    }
    else if t == "m4v"@ {
        Some(PreValidate::M4v)
    }
    else if t == "3gp"@ {
        Some(PreValidate::ThreeGp)
    }
    else if t == "webm"@ {
        Some(PreValidate::Webm)
    }
    else if t == "wmv"@ {
        Some(PreValidate::Wmv)
    }
    else if t == "flv"@ {
        Some(PreValidate::Flv)
    }
    else if t == "mpeg"@ {
        Some(PreValidate::Mpeg)
    }
    else if t == "webp"@ {
        Some(PreValidate::Webp)
    }
    else if t == "m4a"@ {
        Some(PreValidate::M4a)
    }
    else if t == "gz"@ {
        Some(PreValidate::Gz)
    }
    else if t == "eml"@ {
        Some(PreValidate::Eml)
    }
    else if t == "elf"@ {
        Some(PreValidate::Elf)
    }
    else if t == "regf"@ {
        Some(PreValidate::Regf)
    }
    else if t == "psd"@ {
        Some(PreValidate::Psd)
    }
    else if t == "vhd"@ {
        Some(PreValidate::Vhd)
    }
    else if t == "vhdx"@ {
        Some(PreValidate::Vhdx)
    }
    else if t == "qcow2"@ {
        Some(PreValidate::Qcow2)
    }
    else if t == "midi"@ {
        Some(PreValidate::Midi)
    }
    else if t == "aiff"@ {
        Some(PreValidate::Aiff)
    }
    else if t == "xz"@ {
        Some(PreValidate::Xz)
    }
    else if t == "bzip2"@ {
        Some(PreValidate::Bzip2)
    }
    else if t == "realmedia"@ {
        Some(PreValidate::RealMedia)
    }
    else if t == "ico"@ {
        Some(PreValidate::Ico)
    }
    else if t == "orf"@ {
        Some(PreValidate::Orf)
    }
    else if t == "pef"@ {
        Some(PreValidate::Pef)
    }
    else if t == "macho"@ {
        Some(PreValidate::MachO)
    }
    else if t == "cr3"@ {
        Some(PreValidate::Cr3)
    }
    else if t == "sr2"@ {
        Some(PreValidate::Sr2)
    }
    else if t == "epub"@ {
        Some(PreValidate::Epub)
    }
    else if t == "odt"@ {
        Some(PreValidate::Odt)
    }
    else if t == "msg"@ {
        Some(PreValidate::Msg)
    }
    else if t == "wavpack"@ {
        Some(PreValidate::WavPack)
    }
    else if t == "cdr"@ {
        Some(PreValidate::Cdr)
    }
    else if t == "swf"@ {
        Some(PreValidate::Swf)
    }
    else if t == "dcr"@ {
        Some(PreValidate::Dcr)
    }
    else if t == "crw"@ {
        Some(PreValidate::Crw)
    }
    else if t == "mrw"@ {
        Some(PreValidate::Mrw)
    }
    else if t == "kdbx"@ {
        Some(PreValidate::Kdbx)
    }
    else if t == "kdb"@ {
        Some(PreValidate::Kdb)
    }
    else if t == "e01"@ {
        Some(PreValidate::E01)
    }
    else if t == "pcap"@ {
        Some(PreValidate::Pcap)
    }
    else if t == "dmp"@ {
        Some(PreValidate::Dmp)
    }
    else if t == "plist"@ {
        Some(PreValidate::Plist)
    }
    else if t == "ts"@ {
        Some(PreValidate::Ts)
    }
    else if t == "m2ts"@ {
        Some(PreValidate::M2ts)
    }
    else if t == "luks"@ {
        Some(PreValidate::Luks)
    }
    else if t == "x3f"@ {
        Some(PreValidate::X3f)
    }
    else if t == "ape"@ {
        Some(PreValidate::Ape)
    }
    else if t == "au"@ {
        Some(PreValidate::Au)
    }
    else if t == "ttf"@ {
        Some(PreValidate::Ttf)
    }
    else if t == "woff"@ {
        Some(PreValidate::Woff)
    }
    else if t == "chm"@ {
        Some(PreValidate::Chm)
    }
    else if t == "blend"@ {
        Some(PreValidate::Blend)
    }
    else if t == "indd"@ {
        Some(PreValidate::Indd)
    }
    else if t == "wtv"@ {
        Some(PreValidate::Wtv)
    }
    else if t == "iso"@ {
        Some(PreValidate::Iso)
    }
    else if t == "dicom"@ {
        Some(PreValidate::Dicom)
    }
    else if t == "tar"@ {
        Some(PreValidate::Tar)
    }
    else if t == "php"@ {
        Some(PreValidate::Php)
    }
    else if t == "shebang"@ {
        Some(PreValidate::Shebang)
    }
    else if t == "jpeg_com"@ {
        Some(PreValidate::JpegCom)
    }
    else if t == "java_class"@ {
        Some(PreValidate::JavaClass)
    }
    else if t == "cab"@ {
        Some(PreValidate::Cab)
    }
    else if t == "otf"@ {
        Some(PreValidate::Otf)
    }
    else if t == "woff2"@ {
        Some(PreValidate::Woff2)
    }
    else if t == "dex"@ {
        Some(PreValidate::Dex)
    }
    else if t == "aac"@ {
        Some(PreValidate::Aac)
    }
    else if t == "djvu"@ {
        Some(PreValidate::Djvu)
    }
    else if t == "xcf"@ {
        Some(PreValidate::Xcf)
    }
    else if t == "pcx"@ {
        Some(PreValidate::Pcx)
    }
    else if t == "jar"@ {
        Some(PreValidate::Jar)
    }
    else if t == "lzh"@ {
        Some(PreValidate::Lzh)
    }
    else if t == "hdf5"@ {
        Some(PreValidate::Hdf5)
    }
    else if t == "fits"@ {
        Some(PreValidate::Fits)
    }
    else if t == "vdi"@ {
        Some(PreValidate::Vdi)
    }
    else if t == "lnk"@ {
        Some(PreValidate::Lnk)
    }
    else if t == "prefetch"@ {
        Some(PreValidate::Prefetch)
    }
    else if t == "evt"@ {
        Some(PreValidate::Evt)
    }
    else if t == "pem"@ {
        Some(PreValidate::Pem)
    }
    else if t == "par2"@ {
        Some(PreValidate::Par2)
    }
    else if t == "wav"@ {
        Some(PreValidate::Wav)
    }
    else if t == "avi"@ {
        Some(PreValidate::Avi)
    }
    else if t == "pyc"@ {
        Some(PreValidate::Pyc)
    }
    else if t == "dpx"@ {
        Some(PreValidate::Dpx)
    }
    else if t == "exr"@ {
        Some(PreValidate::Exr)
    }
    else {
        None
    }
}

/// The check applied by `kind` to the hit at `pos` in `d`.
pub open spec fn accepts(kind: PreValidate, d: Seq<u8>, pos: int) -> bool {
    match kind {
        PreValidate::Zip => accepts_zip(d, pos),
        PreValidate::JpegJfif => accepts_jpeg_jfif(d, pos),
        PreValidate::JpegExif => accepts_jpeg_exif(d, pos),
        PreValidate::JpegDqt => accepts_jpeg_dqt(d, pos),
        PreValidate::Png => accepts_png(d, pos),
        PreValidate::Pdf => accepts_pdf(d, pos),
        PreValidate::Gif => accepts_gif(d, pos),
        PreValidate::Bmp => accepts_bmp(d, pos),
        PreValidate::Mp3 => accepts_mp3(d, pos),
        PreValidate::Mp4 => accepts_mp4(d, pos),
        PreValidate::Rar => accepts_rar(d, pos),
        PreValidate::SevenZip => accepts_seven_zip(d, pos),
        PreValidate::Sqlite => accepts_sqlite(d, pos),
        PreValidate::Mkv => accepts_mkv(d, pos),
        PreValidate::Flac => accepts_flac(d, pos),
        PreValidate::Exe => accepts_exe(d, pos),
        PreValidate::Vmdk => accepts_vmdk(d, pos),
        PreValidate::Ogg => accepts_ogg(d, pos),
        PreValidate::Evtx => accepts_evtx(d, pos),
        PreValidate::Pst => accepts_pst(d, pos),
        PreValidate::Xml => accepts_xml(d, pos),
        PreValidate::Html => accepts_html(d, pos),
        PreValidate::Rtf => accepts_rtf(d, pos),
        PreValidate::Vcard => accepts_vcard(d, pos),
        PreValidate::Ical => accepts_ical(d, pos),
        PreValidate::Ole2 => accepts_ole2(d, pos),
        PreValidate::Arw => accepts_arw(d, pos),
        PreValidate::Cr2 => accepts_cr2(d, pos),
        PreValidate::Rw2 => accepts_rw2(d, pos),
        PreValidate::Raf => accepts_raf(d, pos),
        PreValidate::TiffLe => accepts_tiff_le(d, pos),
        PreValidate::TiffBe => accepts_tiff_be(d, pos),
        PreValidate::Nef => accepts_nef(d, pos),
        PreValidate::Heic => accepts_heic(d, pos),
        PreValidate::Mov => accepts_mov(d, pos),
        PreValidate::M4v => accepts_m4v(d, pos),
        PreValidate::ThreeGp => accepts_3gp(d, pos),
        PreValidate::Webm => accepts_webm(d, pos),
        PreValidate::Wmv => accepts_wmv(d, pos),
        PreValidate::Flv => accepts_flv(d, pos),
        PreValidate::Mpeg => accepts_mpeg(d, pos),
        PreValidate::Webp => accepts_webp(d, pos),
        PreValidate::M4a => accepts_m4a(d, pos),
        PreValidate::Gz => accepts_gz(d, pos),
        PreValidate::Eml => accepts_eml(d, pos),
        PreValidate::Elf => accepts_elf(d, pos),
        PreValidate::Regf => accepts_regf(d, pos),
        PreValidate::Psd => accepts_psd(d, pos),
        PreValidate::Vhd => accepts_vhd(d, pos),
        PreValidate::Vhdx => accepts_vhdx(d, pos),
        PreValidate::Qcow2 => accepts_qcow2(d, pos),
        PreValidate::Midi => accepts_midi(d, pos),
        PreValidate::Aiff => accepts_aiff(d, pos),
        PreValidate::Xz => accepts_xz(d, pos),
        PreValidate::Bzip2 => accepts_bzip2(d, pos),
        PreValidate::RealMedia => accepts_realmedia(d, pos),
        PreValidate::Ico => accepts_ico(d, pos),
        PreValidate::Orf => accepts_orf(d, pos),
        PreValidate::Pef => accepts_pef(d, pos),
        PreValidate::MachO => accepts_macho(d, pos),
        PreValidate::Cr3 => accepts_cr3(d, pos),
        PreValidate::Sr2 => accepts_sr2(d, pos),
        PreValidate::Epub => accepts_epub(d, pos),
        PreValidate::Odt => accepts_odt(d, pos),
        PreValidate::Msg => accepts_msg(d, pos),
        PreValidate::WavPack => accepts_wavpack(d, pos),
        PreValidate::Cdr => accepts_cdr(d, pos),
        PreValidate::Swf => accepts_swf(d, pos),
        PreValidate::Dcr => accepts_dcr(d, pos),
        PreValidate::Crw => accepts_crw(d, pos),
        PreValidate::Mrw => accepts_mrw(d, pos),
        PreValidate::Kdbx => accepts_kdbx(d, pos),
        PreValidate::Kdb => accepts_kdb(d, pos),
        PreValidate::E01 => accepts_e01(d, pos),
        PreValidate::Pcap => accepts_pcap(d, pos),
        PreValidate::Dmp => accepts_dmp(d, pos),
        PreValidate::Plist => accepts_plist(d, pos),
        PreValidate::Ts => accepts_ts(d, pos),
        PreValidate::M2ts => accepts_m2ts(d, pos),
        PreValidate::Luks => accepts_luks(d, pos),
        PreValidate::X3f => accepts_x3f(d, pos),
        PreValidate::Ape => accepts_ape(d, pos),
        PreValidate::Au => accepts_au(d, pos),
        PreValidate::Ttf => accepts_ttf(d, pos),
        PreValidate::Woff => accepts_woff(d, pos),
        PreValidate::Chm => accepts_chm(d, pos),
        PreValidate::Blend => accepts_blend(d, pos),
        PreValidate::Indd => accepts_indd(d, pos),
        PreValidate::Wtv => accepts_wtv(d, pos),
        PreValidate::Iso => accepts_iso(d, pos),
        PreValidate::Dicom => accepts_dicom(d, pos),
        PreValidate::Tar => accepts_tar(d, pos),
        PreValidate::Php => accepts_php(d, pos),
        PreValidate::Shebang => accepts_shebang(d, pos),
        PreValidate::JpegCom => accepts_jpeg_com(d, pos),
        PreValidate::JavaClass => accepts_java_class(d, pos),
        PreValidate::Cab => accepts_cab(d, pos),
        PreValidate::Otf => accepts_otf(d, pos),
        PreValidate::Woff2 => accepts_woff2(d, pos),
        PreValidate::Dex => accepts_dex(d, pos),
        PreValidate::Aac => accepts_aac(d, pos),
        PreValidate::Djvu => accepts_djvu(d, pos),
        PreValidate::Xcf => accepts_xcf(d, pos),
        PreValidate::Pcx => accepts_pcx(d, pos),
        PreValidate::Jar => accepts_jar(d, pos),
        PreValidate::Lzh => accepts_lzh(d, pos),
        PreValidate::Hdf5 => accepts_hdf5(d, pos),
        PreValidate::Fits => accepts_fits(d, pos),
        PreValidate::Vdi => accepts_vdi(d, pos),
        PreValidate::Lnk => accepts_lnk(d, pos),
        PreValidate::Prefetch => accepts_prefetch(d, pos),
        PreValidate::Evt => accepts_evt(d, pos),
        PreValidate::Pem => accepts_pem(d, pos),
        PreValidate::Par2 => accepts_par2(d, pos),
        PreValidate::Wav => accepts_wav(d, pos),
        PreValidate::Avi => accepts_avi(d, pos),
        PreValidate::Pyc => accepts_pyc(d, pos),
        PreValidate::Dpx => accepts_dpx(d, pos),
        PreValidate::Exr => accepts_exr(d, pos),
    }
}

/// Number of bytes from the hit that `kind` needs before it can refuse it.
pub open spec fn bytes_needed(kind: PreValidate) -> int {
    match kind {
        PreValidate::Zip => 30,
        PreValidate::JpegJfif => 11,
        PreValidate::JpegExif => 10,
        PreValidate::JpegDqt => 6,
        PreValidate::Png => 20,
        PreValidate::Pdf => 8,
        PreValidate::Gif => 6,
        PreValidate::Bmp => 18,
        PreValidate::Mp3 => 10,
        PreValidate::Mp4 => 12,
        PreValidate::Rar => 7,
        PreValidate::SevenZip => 7,
        PreValidate::Sqlite => 18,
        PreValidate::Mkv => 0,
        PreValidate::Flac => 5,
        PreValidate::Exe => 64,
        PreValidate::Vmdk => 8,
        PreValidate::Ogg => 6,
        PreValidate::Evtx => 42,
        PreValidate::Pst => 10,
        PreValidate::Xml => 13,
        PreValidate::Html => 14,
        PreValidate::Rtf => 7,
        PreValidate::Vcard => 12,
        PreValidate::Ical => 16,
        PreValidate::Ole2 => 30,
        PreValidate::Arw => 10,
        PreValidate::Cr2 => 8,
        PreValidate::Rw2 => 10,
        PreValidate::Raf => 20,
        PreValidate::TiffLe => 8,
        PreValidate::TiffBe => 8,
        PreValidate::Nef => 8,
        PreValidate::Heic => 8,
        PreValidate::Mov => 12,
        PreValidate::M4v => 12,
        PreValidate::ThreeGp => 12,
        PreValidate::Webm => 0,
        PreValidate::Wmv => 24,
        PreValidate::Flv => 9,
        PreValidate::Mpeg => 5,
        PreValidate::Webp => 12,
        PreValidate::M4a => 12,
        PreValidate::Gz => 10,
        PreValidate::Eml => 6,
        PreValidate::Elf => 16,
        PreValidate::Regf => 28,
        PreValidate::Psd => 26,
        PreValidate::Vhd => 68,
        PreValidate::Vhdx => 0,
        PreValidate::Qcow2 => 24,
        PreValidate::Midi => 10,
        PreValidate::Aiff => 12,
        PreValidate::Xz => 8,
        PreValidate::Bzip2 => 10,
        PreValidate::RealMedia => 10,
        PreValidate::Ico => 6,
        PreValidate::Orf => 8,
        PreValidate::Pef => 8,
        PreValidate::MachO => 20,
        PreValidate::Cr3 => 8,
        PreValidate::Sr2 => 10,
        PreValidate::Epub => 38,
        PreValidate::Odt => 38,
        PreValidate::Msg => 30,
        PreValidate::WavPack => 10,
        PreValidate::Cdr => 12,
        PreValidate::Swf => 9,
        PreValidate::Dcr => 8,
        PreValidate::Crw => 14,
        PreValidate::Mrw => 12,
        PreValidate::Kdbx => 12,
        PreValidate::Kdb => 12,
        PreValidate::E01 => 10,
        PreValidate::Pcap => 8,
        PreValidate::Dmp => 12,
        PreValidate::Plist => 34,
        PreValidate::Ts => 377,
        PreValidate::M2ts => 389,
        PreValidate::Luks => 8,
        PreValidate::X3f => 8,
        PreValidate::Ape => 8,
        PreValidate::Au => 16,
        PreValidate::Ttf => 12,
        PreValidate::Woff => 14,
        PreValidate::Chm => 12,
        PreValidate::Blend => 9,
        PreValidate::Indd => 16,
        PreValidate::Wtv => 16,
        PreValidate::Iso => 6,
        PreValidate::Dicom => 10,
        PreValidate::Tar => 8,
        PreValidate::Php => 6,
        PreValidate::Shebang => 7,
        PreValidate::JpegCom => 6,
        PreValidate::JavaClass => 8,
        PreValidate::Cab => 12,
        PreValidate::Otf => 6,
        PreValidate::Woff2 => 14,
        PreValidate::Dex => 8,
        PreValidate::Aac => 3,
        PreValidate::Djvu => 16,
        PreValidate::Xcf => 15,
        PreValidate::Pcx => 68,
        PreValidate::Jar => 30,
        PreValidate::Lzh => 5,
        PreValidate::Hdf5 => 9,
        PreValidate::Fits => 30,
        PreValidate::Vdi => 12,
        PreValidate::Lnk => 28,
        PreValidate::Prefetch => 8,
        PreValidate::Evt => 16,
        PreValidate::Pem => 12,
        PreValidate::Par2 => 16,
        PreValidate::Wav => 8,
        PreValidate::Avi => 8,
        PreValidate::Pyc => 8,
        PreValidate::Dpx => 12,
        PreValidate::Exr => 8,
    }
}

/// Validators whose whole check is that their magic is wholly present.
pub open spec fn presence_only(kind: PreValidate) -> bool {
    kind == PreValidate::Chm || kind == PreValidate::Indd || kind == PreValidate::Wtv || kind == PreValidate::Plist
}

impl PreValidate {
    /// Short label used in display and in signature definitions.
    pub fn kind_name(&self) -> (r: &'static str)
        ensures r@ == label(*self),
    {
        match self {
            PreValidate::Zip => "zip",
            PreValidate::JpegJfif => "jpeg_jfif",
            PreValidate::JpegExif => "jpeg_exif",
            PreValidate::JpegDqt => "jpeg_dqt",
            PreValidate::Png => "png",
            PreValidate::Pdf => "pdf",
            PreValidate::Gif => "gif",
            PreValidate::Bmp => "bmp",
            PreValidate::Mp3 => "mp3",
            PreValidate::Mp4 => "mp4",
            PreValidate::Rar => "rar",
            PreValidate::SevenZip => "seven_zip",
            PreValidate::Sqlite => "sqlite",
            PreValidate::Mkv => "mkv",
            PreValidate::Flac => "flac",
            PreValidate::Exe => "exe",
            PreValidate::Vmdk => "vmdk",
            PreValidate::Ogg => "ogg",
            PreValidate::Evtx => "evtx",
            PreValidate::Pst => "pst",
            PreValidate::Xml => "xml",
            PreValidate::Html => "html",
            PreValidate::Rtf => "rtf",
            PreValidate::Vcard => "vcard",
            PreValidate::Ical => "ical",
            PreValidate::Ole2 => "ole2",
            PreValidate::Arw => "arw",
            PreValidate::Cr2 => "cr2",
            PreValidate::Rw2 => "rw2",
            PreValidate::Raf => "raf",
            PreValidate::TiffLe => "tiff_le",
            PreValidate::TiffBe => "tiff_be",
            PreValidate::Nef => "nef",
            PreValidate::Heic => "heic",
            PreValidate::Mov => "mov",
            PreValidate::M4v => "m4v",
            PreValidate::ThreeGp => "3gp",
            PreValidate::Webm => "webm",
            PreValidate::Wmv => "wmv",
            PreValidate::Flv => "flv",
            PreValidate::Mpeg => "mpeg",
            PreValidate::Webp => "webp",
            PreValidate::M4a => "m4a",
            PreValidate::Gz => "gz",
            PreValidate::Eml => "eml",
            PreValidate::Elf => "elf",
            PreValidate::Regf => "regf",
            PreValidate::Psd => "psd",
            PreValidate::Vhd => "vhd",
            PreValidate::Vhdx => "vhdx",
            PreValidate::Qcow2 => "qcow2",
            PreValidate::Midi => "midi",
            PreValidate::Aiff => "aiff",
            PreValidate::Xz => "xz",
            PreValidate::Bzip2 => "bzip2",
            PreValidate::RealMedia => "realmedia",
            PreValidate::Ico => "ico",
            PreValidate::Orf => "orf",
            PreValidate::Pef => "pef",
            PreValidate::MachO => "macho",
            PreValidate::Cr3 => "cr3",
            PreValidate::Sr2 => "sr2",
            PreValidate::Epub => "epub",
            PreValidate::Odt => "odt",
            PreValidate::Msg => "msg",
            PreValidate::WavPack => "wavpack",
            PreValidate::Cdr => "cdr",
            PreValidate::Swf => "swf",
            PreValidate::Dcr => "dcr",
            PreValidate::Crw => "crw",
            PreValidate::Mrw => "mrw",
            PreValidate::Kdbx => "kdbx",
            PreValidate::Kdb => "kdb",
            PreValidate::E01 => "e01",
            PreValidate::Pcap => "pcap",
            PreValidate::Dmp => "dmp",
            PreValidate::Plist => "plist",
            PreValidate::Ts => "ts",
            PreValidate::M2ts => "m2ts",
            PreValidate::Luks => "luks",
            PreValidate::X3f => "x3f",
            PreValidate::Ape => "ape",
            PreValidate::Au => "au",
            PreValidate::Ttf => "ttf",
            PreValidate::Woff => "woff",
            PreValidate::Chm => "chm",
            PreValidate::Blend => "blend",
            PreValidate::Indd => "indd",
            PreValidate::Wtv => "wtv",
            PreValidate::Iso => "iso",
            PreValidate::Dicom => "dicom",
            PreValidate::Tar => "tar",
            PreValidate::Php => "php",
            PreValidate::Shebang => "shebang",
            PreValidate::JpegCom => "jpeg_com",
            PreValidate::JavaClass => "java_class",
            PreValidate::Cab => "cab",
            PreValidate::Otf => "otf",
            PreValidate::Woff2 => "woff2",
            PreValidate::Dex => "dex",
            PreValidate::Aac => "aac",
            PreValidate::Djvu => "djvu",
            PreValidate::Xcf => "xcf",
            PreValidate::Pcx => "pcx",
            PreValidate::Jar => "jar",
            PreValidate::Lzh => "lzh",
            PreValidate::Hdf5 => "hdf5",
            PreValidate::Fits => "fits",
            PreValidate::Vdi => "vdi",
            PreValidate::Lnk => "lnk",
            PreValidate::Prefetch => "prefetch",
            PreValidate::Evt => "evt",
            PreValidate::Pem => "pem",
            PreValidate::Par2 => "par2",
            PreValidate::Wav => "wav",
            PreValidate::Avi => "avi",
            PreValidate::Pyc => "pyc",
            PreValidate::Dpx => "dpx",
            PreValidate::Exr => "exr",
        }
    }

    /// Parse a kind label (ASCII case-insensitive) into a validator.
    pub fn from_kind(s: &str) -> (r: Option<Self>)
        ensures r == kind_from_label(ascii_lower_chars(s@)),
    {
        let l = lower_ascii(&chars_of(s));
        if same_chars(&l, "zip") {
            return Some(PreValidate::Zip);
        }
        if same_chars(&l, "jpeg_jfif") {
            return Some(PreValidate::JpegJfif);
        }
        if same_chars(&l, "jpeg_exif") {
            return Some(PreValidate::JpegExif);
        }
        if same_chars(&l, "jpeg_dqt") {
            return Some(PreValidate::JpegDqt);
        }
        if same_chars(&l, "png") {
            return Some(PreValidate::Png);
        }
        if same_chars(&l, "pdf") {
            return Some(PreValidate::Pdf);
        }
        if same_chars(&l, "gif") {
            return Some(PreValidate::Gif);
        }
        if same_chars(&l, "bmp") {
            return Some(PreValidate::Bmp);
        }
        if same_chars(&l, "mp3") {
            return Some(PreValidate::Mp3);
        }
        if same_chars(&l, "mp4") {
            return Some(PreValidate::Mp4);
        }
        if same_chars(&l, "rar") {
            return Some(PreValidate::Rar);
        }
        if same_chars(&l, "seven_zip") {
            return Some(PreValidate::SevenZip);
        }
        if same_chars(&l, "sqlite") {
            return Some(PreValidate::Sqlite);
        }
        if same_chars(&l, "mkv") {
            return Some(PreValidate::Mkv);
        }
        if same_chars(&l, "flac") {
            return Some(PreValidate::Flac);
        }
        if same_chars(&l, "exe") {
            return Some(PreValidate::Exe);
        }
        if same_chars(&l, "vmdk") {
            return Some(PreValidate::Vmdk);
        }
        if same_chars(&l, "ogg") {
            return Some(PreValidate::Ogg);
        }
        if same_chars(&l, "evtx") {
            return Some(PreValidate::Evtx);
        }
        if same_chars(&l, "pst") {
            return Some(PreValidate::Pst);
        }
        if same_chars(&l, "xml") {
            return Some(PreValidate::Xml);
        }
        if same_chars(&l, "html") {
            return Some(PreValidate::Html);
        }
        if same_chars(&l, "rtf") {
            return Some(PreValidate::Rtf);
        }
        if same_chars(&l, "vcard") {
            return Some(PreValidate::Vcard);
        }
        if same_chars(&l, "ical") {
            return Some(PreValidate::Ical);
        }
        if same_chars(&l, "ole2") {
            return Some(PreValidate::Ole2);
        }
        if same_chars(&l, "arw") {
            return Some(PreValidate::Arw);
        }
        if same_chars(&l, "cr2") {
            return Some(PreValidate::Cr2);
        }
        if same_chars(&l, "rw2") {
            return Some(PreValidate::Rw2);
        }
        if same_chars(&l, "raf") {
            return Some(PreValidate::Raf);
        }
        if same_chars(&l, "tiff_le") {
            return Some(PreValidate::TiffLe);
        }
        if same_chars(&l, "tiff_be") {
            return Some(PreValidate::TiffBe);
        }
        if same_chars(&l, "nef") {
            return Some(PreValidate::Nef);
        }
        if same_chars(&l, "heic") {
            return Some(PreValidate::Heic);
        }
        if same_chars(&l, "mov") {
            return Some(PreValidate::Mov);
        }
        if same_chars(&l, "m4v") {
            return Some(PreValidate::M4v);
        }
        if same_chars(&l, "3gp") {
            return Some(PreValidate::ThreeGp);
        }
        if same_chars(&l, "webm") {
            return Some(PreValidate::Webm);
        }
        if same_chars(&l, "wmv") {
            return Some(PreValidate::Wmv);
        }
        if same_chars(&l, "flv") {
            return Some(PreValidate::Flv);
        }
        if same_chars(&l, "mpeg") {
            return Some(PreValidate::Mpeg);
        }
        if same_chars(&l, "webp") {
            return Some(PreValidate::Webp);
        }
        if same_chars(&l, "m4a") {
            return Some(PreValidate::M4a);
        }
        if same_chars(&l, "gz") {
            return Some(PreValidate::Gz);
        }
        if same_chars(&l, "eml") {
            return Some(PreValidate::Eml);
        }
        if same_chars(&l, "elf") {
            return Some(PreValidate::Elf);
        }
        if same_chars(&l, "regf") {
            return Some(PreValidate::Regf);
        }
        if same_chars(&l, "psd") {
            return Some(PreValidate::Psd);
        }
        if same_chars(&l, "vhd") {
            return Some(PreValidate::Vhd);
        }
        if same_chars(&l, "vhdx") {
            return Some(PreValidate::Vhdx);
        }
        if same_chars(&l, "qcow2") {
            return Some(PreValidate::Qcow2);
        }
        if same_chars(&l, "midi") {
            return Some(PreValidate::Midi);
        }
        if same_chars(&l, "aiff") {
            return Some(PreValidate::Aiff);
        }
        if same_chars(&l, "xz") {
            return Some(PreValidate::Xz);
        }
        if same_chars(&l, "bzip2") {
            return Some(PreValidate::Bzip2);
        }
        if same_chars(&l, "realmedia") {
            return Some(PreValidate::RealMedia);
        }
        if same_chars(&l, "ico") {
            return Some(PreValidate::Ico);
        }
        if same_chars(&l, "orf") {
            return Some(PreValidate::Orf);
        }
        if same_chars(&l, "pef") {
            return Some(PreValidate::Pef);
        }
        if same_chars(&l, "macho") {
            return Some(PreValidate::MachO);
        }
        if same_chars(&l, "cr3") {
            return Some(PreValidate::Cr3);
        }
        if same_chars(&l, "sr2") {
            return Some(PreValidate::Sr2);
        }
        if same_chars(&l, "epub") {
            return Some(PreValidate::Epub);
        }
        if same_chars(&l, "odt") {
            return Some(PreValidate::Odt);
        }
        if same_chars(&l, "msg") {
            return Some(PreValidate::Msg);
        }
        if same_chars(&l, "wavpack") {
            return Some(PreValidate::WavPack);
        }
        if same_chars(&l, "cdr") {
            return Some(PreValidate::Cdr);
        }
        if same_chars(&l, "swf") {
            return Some(PreValidate::Swf);
        }
        if same_chars(&l, "dcr") {
            return Some(PreValidate::Dcr);
        }
        if same_chars(&l, "crw") {
            return Some(PreValidate::Crw);
        }
        if same_chars(&l, "mrw") {
            return Some(PreValidate::Mrw);
        }
        if same_chars(&l, "kdbx") {
            return Some(PreValidate::Kdbx);
        }
        if same_chars(&l, "kdb") {
            return Some(PreValidate::Kdb);
        }
        if same_chars(&l, "e01") {
            return Some(PreValidate::E01);
        }
        if same_chars(&l, "pcap") {
            return Some(PreValidate::Pcap);
        }
        if same_chars(&l, "dmp") {
            return Some(PreValidate::Dmp);
        }
        if same_chars(&l, "plist") {
            return Some(PreValidate::Plist);
        }
        if same_chars(&l, "ts") {
            return Some(PreValidate::Ts);
        }
        if same_chars(&l, "m2ts") {
            return Some(PreValidate::M2ts);
        }
        if same_chars(&l, "luks") {
            return Some(PreValidate::Luks);
        }
        if same_chars(&l, "x3f") {
            return Some(PreValidate::X3f);
        }
        if same_chars(&l, "ape") {
            return Some(PreValidate::Ape);
        }
        if same_chars(&l, "au") {
            return Some(PreValidate::Au);
        }
        if same_chars(&l, "ttf") {
            return Some(PreValidate::Ttf);
        }
        if same_chars(&l, "woff") {
            return Some(PreValidate::Woff);
        }
        if same_chars(&l, "chm") {
            return Some(PreValidate::Chm);
        }
        if same_chars(&l, "blend") {
            return Some(PreValidate::Blend);
        }
        if same_chars(&l, "indd") {
            return Some(PreValidate::Indd);
        }
        if same_chars(&l, "wtv") {
            return Some(PreValidate::Wtv);
        }
        if same_chars(&l, "iso") {
            return Some(PreValidate::Iso);
        }
        if same_chars(&l, "dicom") {
            return Some(PreValidate::Dicom);
        }
        if same_chars(&l, "tar") {
            return Some(PreValidate::Tar);
        }
        if same_chars(&l, "php") {
            return Some(PreValidate::Php);
        }
        if same_chars(&l, "shebang") {
            return Some(PreValidate::Shebang);
        }
        if same_chars(&l, "jpeg_com") {
            return Some(PreValidate::JpegCom);
        }
        if same_chars(&l, "java_class") {
            return Some(PreValidate::JavaClass);
        }
        if same_chars(&l, "cab") {
            return Some(PreValidate::Cab);
        }
        if same_chars(&l, "otf") {
            return Some(PreValidate::Otf);
        }
        if same_chars(&l, "woff2") {
            return Some(PreValidate::Woff2);
        }
        if same_chars(&l, "dex") {
            return Some(PreValidate::Dex);
        }
        if same_chars(&l, "aac") {
            return Some(PreValidate::Aac);
        }
        if same_chars(&l, "djvu") {
            return Some(PreValidate::Djvu);
        }
        if same_chars(&l, "xcf") {
            return Some(PreValidate::Xcf);
        }
        if same_chars(&l, "pcx") {
            return Some(PreValidate::Pcx);
        }
        if same_chars(&l, "jar") {
            return Some(PreValidate::Jar);
        }
        if same_chars(&l, "lzh") {
            return Some(PreValidate::Lzh);
        }
        if same_chars(&l, "hdf5") {
            return Some(PreValidate::Hdf5);
        }
        if same_chars(&l, "fits") {
            return Some(PreValidate::Fits);
        }
        if same_chars(&l, "vdi") {
            return Some(PreValidate::Vdi);
        }
        if same_chars(&l, "lnk") {
            return Some(PreValidate::Lnk);
        }
        if same_chars(&l, "prefetch") {
            return Some(PreValidate::Prefetch);
        }
        if same_chars(&l, "evt") {
            return Some(PreValidate::Evt);
        }
        if same_chars(&l, "pem") {
            return Some(PreValidate::Pem);
        }
        if same_chars(&l, "par2") {
            return Some(PreValidate::Par2);
        }
        if same_chars(&l, "wav") {
            return Some(PreValidate::Wav);
        }
        if same_chars(&l, "avi") {
            return Some(PreValidate::Avi);
        }
        if same_chars(&l, "pyc") {
            return Some(PreValidate::Pyc);
        }
        if same_chars(&l, "dpx") {
            return Some(PreValidate::Dpx);
        }
        if same_chars(&l, "exr") {
            return Some(PreValidate::Exr);
        }
        None
    }
}

/// Returns `true` if the bytes at `data[pos..]` pass the format-specific
/// structural check for `kind`.
pub fn is_valid(kind: &PreValidate, data: &[u8], pos: usize) -> (r: bool)
    ensures r == accepts(*kind, data@, pos as int),
{
    match kind {
        PreValidate::Zip => validate_zip(data, pos),
        PreValidate::JpegJfif => validate_jpeg_jfif(data, pos),
        PreValidate::JpegExif => validate_jpeg_exif(data, pos),
        PreValidate::JpegDqt => validate_jpeg_dqt(data, pos),
        PreValidate::Png => validate_png(data, pos),
        PreValidate::Pdf => validate_pdf(data, pos),
        PreValidate::Gif => validate_gif(data, pos),
        PreValidate::Bmp => validate_bmp(data, pos),
        PreValidate::Mp3 => validate_mp3(data, pos),
        PreValidate::Mp4 => validate_mp4(data, pos),
        PreValidate::Rar => validate_rar(data, pos),
        PreValidate::SevenZip => validate_seven_zip(data, pos),
        PreValidate::Sqlite => validate_sqlite(data, pos),
        PreValidate::Mkv => validate_mkv(data, pos),
        PreValidate::Flac => validate_flac(data, pos),
        PreValidate::Exe => validate_exe(data, pos),
        PreValidate::Vmdk => validate_vmdk(data, pos),
        PreValidate::Ogg => validate_ogg(data, pos),
        PreValidate::Evtx => validate_evtx(data, pos),
        PreValidate::Pst => validate_pst(data, pos),
        PreValidate::Xml => validate_xml(data, pos),
        PreValidate::Html => validate_html(data, pos),
        PreValidate::Rtf => validate_rtf(data, pos),
        PreValidate::Vcard => validate_vcard(data, pos),
        PreValidate::Ical => validate_ical(data, pos),
        PreValidate::Ole2 => validate_ole2(data, pos),
        PreValidate::Arw => validate_arw(data, pos),
        PreValidate::Cr2 => validate_cr2(data, pos),
        PreValidate::Rw2 => validate_rw2(data, pos),
        PreValidate::Raf => validate_raf(data, pos),
        PreValidate::TiffLe => validate_tiff_le(data, pos),
        PreValidate::TiffBe => validate_tiff_be(data, pos),
        PreValidate::Nef => validate_nef(data, pos),
        PreValidate::Heic => validate_heic(data, pos),
        PreValidate::Mov => validate_mov(data, pos),
        PreValidate::M4v => validate_m4v(data, pos),
        PreValidate::ThreeGp => validate_3gp(data, pos),
        PreValidate::Webm => validate_webm(data, pos),
        PreValidate::Wmv => validate_wmv(data, pos),
        PreValidate::Flv => validate_flv(data, pos),
        PreValidate::Mpeg => validate_mpeg(data, pos),
        PreValidate::Webp => validate_webp(data, pos),
        PreValidate::M4a => validate_m4a(data, pos),
        PreValidate::Gz => validate_gz(data, pos),
        PreValidate::Eml => validate_eml(data, pos),
        PreValidate::Elf => validate_elf(data, pos),
        PreValidate::Regf => validate_regf(data, pos),
        PreValidate::Psd => validate_psd(data, pos),
        PreValidate::Vhd => validate_vhd(data, pos),
        PreValidate::Vhdx => validate_vhdx(data, pos),
        PreValidate::Qcow2 => validate_qcow2(data, pos),
        PreValidate::Midi => validate_midi(data, pos),
        PreValidate::Aiff => validate_aiff(data, pos),
        PreValidate::Xz => validate_xz(data, pos),
        PreValidate::Bzip2 => validate_bzip2(data, pos),
        PreValidate::RealMedia => validate_realmedia(data, pos),
        PreValidate::Ico => validate_ico(data, pos),
        PreValidate::Orf => validate_orf(data, pos),
        PreValidate::Pef => validate_pef(data, pos),
        PreValidate::MachO => validate_macho(data, pos),
        PreValidate::Cr3 => validate_cr3(data, pos),
        PreValidate::Sr2 => validate_sr2(data, pos),
        PreValidate::Epub => validate_epub(data, pos),
        PreValidate::Odt => validate_odt(data, pos),
        PreValidate::Msg => validate_msg(data, pos),
        PreValidate::WavPack => validate_wavpack(data, pos),
        PreValidate::Cdr => validate_cdr(data, pos),
        PreValidate::Swf => validate_swf(data, pos),
        PreValidate::Dcr => validate_dcr(data, pos),
        PreValidate::Crw => validate_crw(data, pos),
        PreValidate::Mrw => validate_mrw(data, pos),
        PreValidate::Kdbx => validate_kdbx(data, pos),
        PreValidate::Kdb => validate_kdb(data, pos),
        PreValidate::E01 => validate_e01(data, pos),
        PreValidate::Pcap => validate_pcap(data, pos),
        PreValidate::Dmp => validate_dmp(data, pos),
        PreValidate::Plist => validate_plist(data, pos),
        PreValidate::Ts => validate_ts(data, pos),
        PreValidate::M2ts => validate_m2ts(data, pos),
        PreValidate::Luks => validate_luks(data, pos),
        PreValidate::X3f => validate_x3f(data, pos),
        PreValidate::Ape => validate_ape(data, pos),
        PreValidate::Au => validate_au(data, pos),
        PreValidate::Ttf => validate_ttf(data, pos),
        PreValidate::Woff => validate_woff(data, pos),
        PreValidate::Chm => validate_chm(data, pos),
        PreValidate::Blend => validate_blend(data, pos),
        PreValidate::Indd => validate_indd(data, pos),
        PreValidate::Wtv => validate_wtv(data, pos),
        PreValidate::Iso => validate_iso(data, pos),
        PreValidate::Dicom => validate_dicom(data, pos),
        PreValidate::Tar => validate_tar(data, pos),
        PreValidate::Php => validate_php(data, pos),
        PreValidate::Shebang => validate_shebang(data, pos),
        PreValidate::JpegCom => validate_jpeg_com(data, pos),
        PreValidate::JavaClass => validate_java_class(data, pos),
        PreValidate::Cab => validate_cab(data, pos),
        PreValidate::Otf => validate_otf(data, pos),
        PreValidate::Woff2 => validate_woff2(data, pos),
        PreValidate::Dex => validate_dex(data, pos),
        PreValidate::Aac => validate_aac(data, pos),
        PreValidate::Djvu => validate_djvu(data, pos),
        PreValidate::Xcf => validate_xcf(data, pos),
        PreValidate::Pcx => validate_pcx(data, pos),
        PreValidate::Jar => validate_jar(data, pos),
        PreValidate::Lzh => validate_lzh(data, pos),
        PreValidate::Hdf5 => validate_hdf5(data, pos),
        PreValidate::Fits => validate_fits(data, pos),
        PreValidate::Vdi => validate_vdi(data, pos),
        PreValidate::Lnk => validate_lnk(data, pos),
        PreValidate::Prefetch => validate_prefetch(data, pos),
        PreValidate::Evt => validate_evt(data, pos),
        PreValidate::Pem => validate_pem(data, pos),
        PreValidate::Par2 => validate_par2(data, pos),
        PreValidate::Wav => validate_wav(data, pos),
        PreValidate::Avi => validate_avi(data, pos),
        PreValidate::Pyc => validate_pyc(data, pos),
        PreValidate::Dpx => validate_dpx(data, pos),
        PreValidate::Exr => validate_exr(data, pos),
    }
}

/// The GIF validator accepts both versions of the format: a hit whose six
/// header bytes read `GIF87a` or `GIF89a` is accepted, and a hit with six
/// bytes available is accepted only when its version is `87a` or `89a`.
/// So switching a header between the two versions never changes the answer.
pub proof fn lemma_gif_accepts_both_versions(d: Seq<u8>, pos: int, v: u8)
    requires
        0 <= pos,
        pos + 6 <= d.len(),
        v == 0x37 || v == 0x39,
    ensures
        d.subrange(pos, pos + 4) == seq![0x47u8, 0x49, 0x46, 0x38] && d[pos + 4] == v && d[pos + 5] == 0x61
            ==> accepts(PreValidate::Gif, d, pos),
        accepts(PreValidate::Gif, d, pos) ==> (d[pos + 4] == 0x37 || d[pos + 4] == 0x39) && d[pos + 5] == 0x61,
        (d[pos + 4] == 0x37 || d[pos + 4] == 0x39)
            ==> accepts(PreValidate::Gif, d.update(pos + 4, v), pos) == accepts(PreValidate::Gif, d, pos),
{
}

/// A hit with fewer bytes available than its validator inspects is given
/// the benefit of the doubt, except by the presence-only validators, which
/// refuse it.
pub proof fn lemma_short_hit_benefit_of_doubt(kind: PreValidate, d: Seq<u8>, pos: int)
    requires short(d, pos, bytes_needed(kind)),
    ensures accepts(kind, d, pos) == !presence_only(kind),
{
}


/// Kind names read back: parsing the name of a validator kind (in any case)
/// gives that kind.
#[verifier::rlimit(100)]
#[verifier::spinoff_prover]
pub proof fn lemma_kind_name_round_trip(k: PreValidate)
    ensures kind_from_label(ascii_lower_chars(label(k))) == Some(k),
{
    reveal_strlit("zip");
    reveal_strlit("jpeg_jfif");
    reveal_strlit("jpeg_exif");
    reveal_strlit("jpeg_dqt");
    reveal_strlit("png");
    reveal_strlit("pdf");
    reveal_strlit("gif");
    reveal_strlit("bmp");
    reveal_strlit("mp3");
    reveal_strlit("mp4");
    reveal_strlit("rar");
    reveal_strlit("seven_zip");
    reveal_strlit("sqlite");
    reveal_strlit("mkv");
    reveal_strlit("flac");
    reveal_strlit("exe");
    reveal_strlit("vmdk");
    reveal_strlit("ogg");
    reveal_strlit("evtx");
    reveal_strlit("pst");
    reveal_strlit("xml");
    reveal_strlit("html");
    reveal_strlit("rtf");
    reveal_strlit("vcard");
    reveal_strlit("ical");
    reveal_strlit("ole2");
    reveal_strlit("arw");
    reveal_strlit("cr2");
    reveal_strlit("rw2");
    reveal_strlit("raf");
    reveal_strlit("tiff_le");
    reveal_strlit("tiff_be");
    reveal_strlit("nef");
    reveal_strlit("heic");
    reveal_strlit("mov");
    reveal_strlit("m4v");
    reveal_strlit("3gp");
    reveal_strlit("webm");
    reveal_strlit("wmv");
    reveal_strlit("flv");
    reveal_strlit("mpeg");
    reveal_strlit("webp");
    reveal_strlit("m4a");
    reveal_strlit("gz");
    reveal_strlit("eml");
    reveal_strlit("elf");
    reveal_strlit("regf");
    reveal_strlit("psd");
    reveal_strlit("vhd");
    reveal_strlit("vhdx");
    reveal_strlit("qcow2");
    reveal_strlit("midi");
    reveal_strlit("aiff");
    reveal_strlit("xz");
    reveal_strlit("bzip2");
    reveal_strlit("realmedia");
    reveal_strlit("ico");
    reveal_strlit("orf");
    reveal_strlit("pef");
    reveal_strlit("macho");
    reveal_strlit("cr3");
    reveal_strlit("sr2");
    reveal_strlit("epub");
    reveal_strlit("odt");
    reveal_strlit("msg");
    reveal_strlit("wavpack");
    reveal_strlit("cdr");
    reveal_strlit("swf");
    reveal_strlit("dcr");
    reveal_strlit("crw");
    reveal_strlit("mrw");
    reveal_strlit("kdbx");
    reveal_strlit("kdb");
    reveal_strlit("e01");
    reveal_strlit("pcap");
    reveal_strlit("dmp");
    reveal_strlit("plist");
    reveal_strlit("ts");
    reveal_strlit("m2ts");
    reveal_strlit("luks");
    reveal_strlit("x3f");
    reveal_strlit("ape");
    reveal_strlit("au");
    reveal_strlit("ttf");
    reveal_strlit("woff");
    reveal_strlit("chm");
    reveal_strlit("blend");
    reveal_strlit("indd");
    reveal_strlit("wtv");
    reveal_strlit("iso");
    reveal_strlit("dicom");
    reveal_strlit("tar");
    reveal_strlit("php");
    reveal_strlit("shebang");
    reveal_strlit("jpeg_com");
    reveal_strlit("java_class");
    reveal_strlit("cab");
    reveal_strlit("otf");
    reveal_strlit("woff2");
    reveal_strlit("dex");
    reveal_strlit("aac");
    reveal_strlit("djvu");
    reveal_strlit("xcf");
    reveal_strlit("pcx");
    reveal_strlit("jar");
    reveal_strlit("lzh");
    reveal_strlit("hdf5");
    reveal_strlit("fits");
    reveal_strlit("vdi");
    reveal_strlit("lnk");
    reveal_strlit("prefetch");
    reveal_strlit("evt");
    reveal_strlit("pem");
    reveal_strlit("par2");
    reveal_strlit("wav");
    reveal_strlit("avi");
    reveal_strlit("pyc");
    reveal_strlit("dpx");
    reveal_strlit("exr");
    assert(ascii_lower_chars(label(k)) =~= label(k));
    match k {
        PreValidate::Zip => {
            assert(label(k) =~= seq!['z', 'i', 'p']);
        },
        PreValidate::JpegJfif => {
            assert(label(k) =~= seq!['j', 'p', 'e', 'g', '_', 'j', 'f', 'i', 'f']);
        },
        PreValidate::JpegExif => {
            assert(label(k) =~= seq!['j', 'p', 'e', 'g', '_', 'e', 'x', 'i', 'f']);
        },
        PreValidate::JpegDqt => {
            assert(label(k) =~= seq!['j', 'p', 'e', 'g', '_', 'd', 'q', 't']);
        },
        PreValidate::Png => {
            assert(label(k) =~= seq!['p', 'n', 'g']);
        },
        PreValidate::Pdf => {
            assert(label(k) =~= seq!['p', 'd', 'f']);
        },
        PreValidate::Gif => {
            assert(label(k) =~= seq!['g', 'i', 'f']);
        },
        PreValidate::Bmp => {
            assert(label(k) =~= seq!['b', 'm', 'p']);
        },
        PreValidate::Mp3 => {
            assert(label(k) =~= seq!['m', 'p', '3']);
        },
        PreValidate::Mp4 => {
            assert(label(k) =~= seq!['m', 'p', '4']);
        },
        PreValidate::Rar => {
            assert(label(k) =~= seq!['r', 'a', 'r']);
        },
        PreValidate::SevenZip => {
            assert(label(k) =~= seq!['s', 'e', 'v', 'e', 'n', '_', 'z', 'i', 'p']);
        },
        PreValidate::Sqlite => {
            assert(label(k) =~= seq!['s', 'q', 'l', 'i', 't', 'e']);
        },
        PreValidate::Mkv => {
            assert(label(k) =~= seq!['m', 'k', 'v']);
        },
        PreValidate::Flac => {
            assert(label(k) =~= seq!['f', 'l', 'a', 'c']);
        },
        PreValidate::Exe => {
            assert(label(k) =~= seq!['e', 'x', 'e']);
        },
        PreValidate::Vmdk => {
            assert(label(k) =~= seq!['v', 'm', 'd', 'k']);
        },
        PreValidate::Ogg => {
            assert(label(k) =~= seq!['o', 'g', 'g']);
        },
        PreValidate::Evtx => {
            assert(label(k) =~= seq!['e', 'v', 't', 'x']);
        },
        PreValidate::Pst => {
            assert(label(k) =~= seq!['p', 's', 't']);
        },
        PreValidate::Xml => {
            assert(label(k) =~= seq!['x', 'm', 'l']);
        },
        PreValidate::Html => {
            assert(label(k) =~= seq!['h', 't', 'm', 'l']);
        },
        PreValidate::Rtf => {
            assert(label(k) =~= seq!['r', 't', 'f']);
        },
        PreValidate::Vcard => {
            assert(label(k) =~= seq!['v', 'c', 'a', 'r', 'd']);
        },
        PreValidate::Ical => {
            assert(label(k) =~= seq!['i', 'c', 'a', 'l']);
        },
        PreValidate::Ole2 => {
            assert(label(k) =~= seq!['o', 'l', 'e', '2']);
        },
        PreValidate::Arw => {
            assert(label(k) =~= seq!['a', 'r', 'w']);
        },
        PreValidate::Cr2 => {
            assert(label(k) =~= seq!['c', 'r', '2']);
        },
        PreValidate::Rw2 => {
            assert(label(k) =~= seq!['r', 'w', '2']);
        },
        PreValidate::Raf => {
            assert(label(k) =~= seq!['r', 'a', 'f']);
        },
        PreValidate::TiffLe => {
            assert(label(k) =~= seq!['t', 'i', 'f', 'f', '_', 'l', 'e']);
        },
        PreValidate::TiffBe => {
            assert(label(k) =~= seq!['t', 'i', 'f', 'f', '_', 'b', 'e']);
        },
        PreValidate::Nef => {
            assert(label(k) =~= seq!['n', 'e', 'f']);
        },
        PreValidate::Heic => {
            assert(label(k) =~= seq!['h', 'e', 'i', 'c']);
        },
        PreValidate::Mov => {
            assert(label(k) =~= seq!['m', 'o', 'v']);
        },
        PreValidate::M4v => {
            assert(label(k) =~= seq!['m', '4', 'v']);
        },
        PreValidate::ThreeGp => {
            assert(label(k) =~= seq!['3', 'g', 'p']);
        },
        PreValidate::Webm => {
            assert(label(k) =~= seq!['w', 'e', 'b', 'm']);
        },
        PreValidate::Wmv => {
            assert(label(k) =~= seq!['w', 'm', 'v']);
        },
        PreValidate::Flv => {
            assert(label(k) =~= seq!['f', 'l', 'v']);
        },
        PreValidate::Mpeg => {
            assert(label(k) =~= seq!['m', 'p', 'e', 'g']);
        },
        PreValidate::Webp => {
            assert(label(k) =~= seq!['w', 'e', 'b', 'p']);
        },
        PreValidate::M4a => {
            assert(label(k) =~= seq!['m', '4', 'a']);
        },
        PreValidate::Gz => {
            assert(label(k) =~= seq!['g', 'z']);
        },
        PreValidate::Eml => {
            assert(label(k) =~= seq!['e', 'm', 'l']);
        },
        PreValidate::Elf => {
            assert(label(k) =~= seq!['e', 'l', 'f']);
        },
        PreValidate::Regf => {
            assert(label(k) =~= seq!['r', 'e', 'g', 'f']);
        },
        PreValidate::Psd => {
            assert(label(k) =~= seq!['p', 's', 'd']);
        },
        PreValidate::Vhd => {
            assert(label(k) =~= seq!['v', 'h', 'd']);
        },
        PreValidate::Vhdx => {
            assert(label(k) =~= seq!['v', 'h', 'd', 'x']);
        },
        PreValidate::Qcow2 => {
            assert(label(k) =~= seq!['q', 'c', 'o', 'w', '2']);
        },
        PreValidate::Midi => {
            assert(label(k) =~= seq!['m', 'i', 'd', 'i']);
        },
        PreValidate::Aiff => {
            assert(label(k) =~= seq!['a', 'i', 'f', 'f']);
        },
        PreValidate::Xz => {
            assert(label(k) =~= seq!['x', 'z']);
        },
        PreValidate::Bzip2 => {
            assert(label(k) =~= seq!['b', 'z', 'i', 'p', '2']);
        },
        PreValidate::RealMedia => {
            assert(label(k) =~= seq!['r', 'e', 'a', 'l', 'm', 'e', 'd', 'i', 'a']);
        },
        PreValidate::Ico => {
            assert(label(k) =~= seq!['i', 'c', 'o']);
        },
        PreValidate::Orf => {
            assert(label(k) =~= seq!['o', 'r', 'f']);
        },
        PreValidate::Pef => {
            assert(label(k) =~= seq!['p', 'e', 'f']);
        },
        PreValidate::MachO => {
            assert(label(k) =~= seq!['m', 'a', 'c', 'h', 'o']);
        },
        PreValidate::Cr3 => {
            assert(label(k) =~= seq!['c', 'r', '3']);
        },
        PreValidate::Sr2 => {
            assert(label(k) =~= seq!['s', 'r', '2']);
        },
        PreValidate::Epub => {
            assert(label(k) =~= seq!['e', 'p', 'u', 'b']);
        },
        PreValidate::Odt => {
            assert(label(k) =~= seq!['o', 'd', 't']);
        },
        PreValidate::Msg => {
            assert(label(k) =~= seq!['m', 's', 'g']);
        },
        PreValidate::WavPack => {
            assert(label(k) =~= seq!['w', 'a', 'v', 'p', 'a', 'c', 'k']);
        },
        PreValidate::Cdr => {
            assert(label(k) =~= seq!['c', 'd', 'r']);
        },
        PreValidate::Swf => {
            assert(label(k) =~= seq!['s', 'w', 'f']);
        },
        PreValidate::Dcr => {
            assert(label(k) =~= seq!['d', 'c', 'r']);
        },
        PreValidate::Crw => {
            assert(label(k) =~= seq!['c', 'r', 'w']);
        },
        PreValidate::Mrw => {
            assert(label(k) =~= seq!['m', 'r', 'w']);
        },
        PreValidate::Kdbx => {
            assert(label(k) =~= seq!['k', 'd', 'b', 'x']);
        },
        PreValidate::Kdb => {
            assert(label(k) =~= seq!['k', 'd', 'b']);
        },
        PreValidate::E01 => {
            assert(label(k) =~= seq!['e', '0', '1']);
        },
        PreValidate::Pcap => {
            assert(label(k) =~= seq!['p', 'c', 'a', 'p']);
        },
        PreValidate::Dmp => {
            assert(label(k) =~= seq!['d', 'm', 'p']);
        },
        PreValidate::Plist => {
            assert(label(k) =~= seq!['p', 'l', 'i', 's', 't']);
        },
        PreValidate::Ts => {
            assert(label(k) =~= seq!['t', 's']);
        },
        PreValidate::M2ts => {
            assert(label(k) =~= seq!['m', '2', 't', 's']);
        },
        PreValidate::Luks => {
            assert(label(k) =~= seq!['l', 'u', 'k', 's']);
        },
        PreValidate::X3f => {
            assert(label(k) =~= seq!['x', '3', 'f']);
        },
        PreValidate::Ape => {
            assert(label(k) =~= seq!['a', 'p', 'e']);
        },
        PreValidate::Au => {
            assert(label(k) =~= seq!['a', 'u']);
        },
        PreValidate::Ttf => {
            assert(label(k) =~= seq!['t', 't', 'f']);
        },
        PreValidate::Woff => {
            assert(label(k) =~= seq!['w', 'o', 'f', 'f']);
        },
        PreValidate::Chm => {
            assert(label(k) =~= seq!['c', 'h', 'm']);
        },
        PreValidate::Blend => {
            assert(label(k) =~= seq!['b', 'l', 'e', 'n', 'd']);
        },
        PreValidate::Indd => {
            assert(label(k) =~= seq!['i', 'n', 'd', 'd']);
        },
        PreValidate::Wtv => {
            assert(label(k) =~= seq!['w', 't', 'v']);
        },
        PreValidate::Iso => {
            assert(label(k) =~= seq!['i', 's', 'o']);
        },
        PreValidate::Dicom => {
            assert(label(k) =~= seq!['d', 'i', 'c', 'o', 'm']);
        },
        PreValidate::Tar => {
            assert(label(k) =~= seq!['t', 'a', 'r']);
        },
        PreValidate::Php => {
            assert(label(k) =~= seq!['p', 'h', 'p']);
        },
        PreValidate::Shebang => {
            assert(label(k) =~= seq!['s', 'h', 'e', 'b', 'a', 'n', 'g']);
        },
        PreValidate::JpegCom => {
            assert(label(k) =~= seq!['j', 'p', 'e', 'g', '_', 'c', 'o', 'm']);
        },
        PreValidate::JavaClass => {
            assert(label(k) =~= seq!['j', 'a', 'v', 'a', '_', 'c', 'l', 'a', 's', 's']);
        },
        PreValidate::Cab => {
            assert(label(k) =~= seq!['c', 'a', 'b']);
        },
        PreValidate::Otf => {
            assert(label(k) =~= seq!['o', 't', 'f']);
        },
        PreValidate::Woff2 => {
            assert(label(k) =~= seq!['w', 'o', 'f', 'f', '2']);
        },
        PreValidate::Dex => {
            assert(label(k) =~= seq!['d', 'e', 'x']);
        },
        PreValidate::Aac => {
            assert(label(k) =~= seq!['a', 'a', 'c']);
        },
        PreValidate::Djvu => {
            assert(label(k) =~= seq!['d', 'j', 'v', 'u']);
        },
        PreValidate::Xcf => {
            assert(label(k) =~= seq!['x', 'c', 'f']);
        },
        PreValidate::Pcx => {
            assert(label(k) =~= seq!['p', 'c', 'x']);
        },
        PreValidate::Jar => {
            assert(label(k) =~= seq!['j', 'a', 'r']);
        },
        PreValidate::Lzh => {
            assert(label(k) =~= seq!['l', 'z', 'h']);
        },
        PreValidate::Hdf5 => {
            assert(label(k) =~= seq!['h', 'd', 'f', '5']);
        },
        PreValidate::Fits => {
            assert(label(k) =~= seq!['f', 'i', 't', 's']);
        },
        PreValidate::Vdi => {
            assert(label(k) =~= seq!['v', 'd', 'i']);
        },
        PreValidate::Lnk => {
            assert(label(k) =~= seq!['l', 'n', 'k']);
        },
        PreValidate::Prefetch => {
            assert(label(k) =~= seq!['p', 'r', 'e', 'f', 'e', 't', 'c', 'h']);
        },
        PreValidate::Evt => {
            assert(label(k) =~= seq!['e', 'v', 't']);
        },
        PreValidate::Pem => {
            assert(label(k) =~= seq!['p', 'e', 'm']);
        },
        PreValidate::Par2 => {
            assert(label(k) =~= seq!['p', 'a', 'r', '2']);
        },
        PreValidate::Wav => {
            assert(label(k) =~= seq!['w', 'a', 'v']);
        },
        PreValidate::Avi => {
            assert(label(k) =~= seq!['a', 'v', 'i']);
        },
        PreValidate::Pyc => {
            assert(label(k) =~= seq!['p', 'y', 'c']);
        },
        PreValidate::Dpx => {
            assert(label(k) =~= seq!['d', 'p', 'x']);
        },
        PreValidate::Exr => {
            assert(label(k) =~= seq!['e', 'x', 'r']);
        },
    }
}

} // verus!
