//! Signature definitions and their construction from signature-file records.
use vstd::prelude::*;
use vstd::string::StringExecFns;
use crate::error::CarveError;
use crate::pre_validate::{kind_from_label, PreValidate};
use crate::text::{
    ascii_lower_char, ascii_lower_chars, chars_of, flush, hex_byte, hex_digit, hex_digits_value, is_ws, lower_ascii, parse_hex_byte,
    same_chars, split_from, split_whitespace, split_ws, views,
};

verus! {

/// Hints the extractor on how to derive the actual file size from the file
/// header, rather than always writing `max_size` bytes.
#[derive(Debug, Clone, Copy, PartialEq, Eq, Structural)]
pub enum SizeHint {
    /// `total_size = parse(data[offset..offset+len]) + add` for a 2-, 4- or
    /// 8-byte field in the given byte order (RIFF, BMP, …).
    Linear {
        /// Byte offset within the file where the size field starts.
        offset: usize,
        /// Width of the size field in bytes (2, 4, or 8).
        len: u8,
        /// `true` = little-endian, `false` = big-endian.
        little_endian: bool,
        /// Constant added to the parsed value to obtain the total file size.
        add: u64,
    },
    /// OLE2 compound file: `(csectFat × (sector_size / 4) + 1) × sector_size`.
    Ole2,
    /// `total_size = parse(data[offset..offset+len]) × scale + add` (EVTX).
    LinearScaled { offset: usize, len: u8, little_endian: bool, scale: u64, add: u64 },
    /// SQLite: `page_size × db_pages`.
    Sqlite,
    /// 7-Zip: `32 + NextHeaderOffset + NextHeaderSize`.
    SevenZip,
    /// Ogg page walk up to the end-of-stream page.
    OggStream,
    /// ISO Base Media File Format top-level box walk.
    Isobmff,
    /// TIFF IFD chain walk (maximum referenced extent).
    Tiff,
    /// Fujifilm RAF: maximum of the JPEG and CFA extents.
    Raf,
    /// MPEG-TS / M2TS packet walk.
    MpegTs {
        /// Byte position of the `0x47` sync byte within each packet.
        ts_offset: u8,
        /// Total packet size in bytes (188 for TS, 192 for M2TS).
        stride: u16,
    },
    /// PE section table: `max(PointerToRawData + SizeOfRawData)`.
    Pe,
    /// ELF section / program header extents.
    Elf,
    /// RAR block walk to the end-of-archive marker.
    Rar,
    /// EBML Segment element size (MKV / WebM).
    Ebml,
    /// Text-boundary scanner for text formats.
    TextBound,
    /// TrueType / OpenType table directory walk.
    Ttf,
    /// Linearized-PDF declared length.
    Pdf,
}

/// The short label of each size-hint kind.
pub open spec fn hint_label(h: SizeHint) -> Seq<char> {
    match h {
        SizeHint::Linear { .. } => "linear"@,
        SizeHint::Ole2 => "ole2"@,
        SizeHint::LinearScaled { .. } => "linear_scaled"@,
        SizeHint::Sqlite => "sqlite"@,
        SizeHint::SevenZip => "seven_zip"@,
        SizeHint::OggStream => "ogg_stream"@,
        SizeHint::Isobmff => "mp4"@,
        SizeHint::Tiff => "tiff"@,
        SizeHint::Raf => "raf"@,
        SizeHint::MpegTs { .. } => "mpeg_ts"@,
        SizeHint::Pe => "pe"@,
        SizeHint::Elf => "elf"@,
        SizeHint::Rar => "rar"@,
        SizeHint::Ebml => "ebml"@,
        SizeHint::TextBound => "text_bound"@,
        SizeHint::Ttf => "ttf"@,
        SizeHint::Pdf => "pdf"@,
    }
}

/// Hints that walk frames from the file start: when such a walk finds no
/// valid structure the hit is a false positive and nothing is extracted,
/// rather than falling back to `max_size`.
pub open spec fn skips_on_failure(h: SizeHint) -> bool {
    h is OggStream
}

impl SizeHint {
    /// Does a failed read of this hint mean the hit is not a file?
    pub fn skip_on_failure(&self) -> (r: bool)
        ensures r == skips_on_failure(*self),
    {
        match self {
            SizeHint::OggStream => true,
            _ => false,
        }
    }

    /// Returns a short label used in display/debug contexts.
    pub fn kind_name(&self) -> (r: &'static str)
        ensures r@ == hint_label(*self),
    {
        match self {
            SizeHint::Linear { .. } => "linear",
            SizeHint::Ole2 => "ole2",
            SizeHint::LinearScaled { .. } => "linear_scaled",
            SizeHint::Sqlite => "sqlite",
            SizeHint::SevenZip => "seven_zip",
            SizeHint::OggStream => "ogg_stream",
            SizeHint::Isobmff => "mp4",
            SizeHint::Tiff => "tiff",
            SizeHint::Raf => "raf",
            SizeHint::MpegTs { .. } => "mpeg_ts",
            SizeHint::Pe => "pe",
            SizeHint::Elf => "elf",
            SizeHint::Rar => "rar",
            SizeHint::Ebml => "ebml",
            SizeHint::TextBound => "text_bound",
            SizeHint::Ttf => "ttf",
            SizeHint::Pdf => "pdf",
        }
    }
}

/// A single file-type signature: header magic bytes (with optional wildcard
/// bytes), optional footer, a maximum extraction window, and an optional hint
/// for reading the true file size from an embedded field.
#[derive(Debug, PartialEq, Eq)]
pub struct Signature {
    /// Human-readable label (e.g. `"JPEG Image"`).
    pub name: String,
    /// File extension without leading dot (e.g. `"jpg"`).
    pub extension: String,
    /// Header pattern: `Some(b)` requires an exact byte; `None` matches any byte.
    pub header: Vec<Option<u8>>,
    /// Footer magic bytes marking the end; empty = no footer.
    pub footer: Vec<u8>,
    /// Use the last footer occurrence within the window rather than the first.
    pub footer_last: bool,
    /// Maximum number of bytes to extract.
    pub max_size: u64,
    /// How to read the true file size from the header, if known.
    pub size_hint: Option<SizeHint>,
    /// Minimum extraction size in bytes (0 = disabled).
    pub min_size: u64,
    /// Structural validator applied to each candidate hit at scan time.
    pub pre_validate: Option<PreValidate>,
    /// Byte offset within the file where `header` appears.
    pub header_offset: u64,
    /// Minimum byte distance between consecutive hits (0 = disabled).
    pub min_hit_gap: u64,
    /// Cross-signature suppression group; `None` = the signature's own name.
    pub suppress_group: Option<String>,
    /// Extra bytes to include after the footer match.
    pub footer_extra: usize,
}

/// `a` and `b` define the same signature (field by field, vectors by their
/// contents).
pub open spec fn same_signature(a: Signature, b: Signature) -> bool {
    &&& a.name == b.name
    &&& a.extension == b.extension
    &&& a.header@ == b.header@
    &&& a.footer@ == b.footer@
    &&& a.footer_last == b.footer_last
    &&& a.max_size == b.max_size
    &&& a.size_hint == b.size_hint
    &&& a.min_size == b.min_size
    &&& a.pre_validate == b.pre_validate
    &&& a.header_offset == b.header_offset
    &&& a.min_hit_gap == b.min_hit_gap
    &&& a.suppress_group == b.suppress_group
    &&& a.footer_extra == b.footer_extra
}

impl Clone for Signature {
    fn clone(&self) -> (r: Self)
        ensures same_signature(r, *self),
    {
        let mut header: Vec<Option<u8>> = Vec::new();
        let mut i: usize = 0;
        while i < self.header.len()
            invariant
                i <= self.header.len(),
                header@ == self.header@.take(i as int),
            decreases self.header.len() - i,
        {
            header.push(self.header[i]);
            i += 1;
            assert(header@ =~= self.header@.take(i as int));
        }
        assert(self.header@.take(i as int) =~= self.header@);
        let mut footer: Vec<u8> = Vec::new();
        let mut j: usize = 0;
        while j < self.footer.len()
            invariant
                j <= self.footer.len(),
                footer@ == self.footer@.take(j as int),
            decreases self.footer.len() - j,
        {
            footer.push(self.footer[j]);
            j += 1;
            assert(footer@ =~= self.footer@.take(j as int));
        }
        assert(self.footer@.take(j as int) =~= self.footer@);
        let r = Signature {
            name: clone_text(&self.name),
            extension: clone_text(&self.extension),
            header,
            footer,
            footer_last: self.footer_last,
            max_size: self.max_size,
            size_hint: self.size_hint,
            min_size: self.min_size,
            pre_validate: self.pre_validate,
            header_offset: self.header_offset,
            min_hit_gap: self.min_hit_gap,
            suppress_group: clone_opt_text(&self.suppress_group),
            footer_extra: self.footer_extra,
        };
        r
    }
}

/// Configuration of a carving run.
#[derive(Debug, Clone)]
pub struct CarvingConfig {
    pub signatures: Vec<Signature>,
    /// How many bytes to read per scan chunk (default: 4 MiB).
    pub scan_chunk_size: usize,
    /// First byte to scan from (0 = beginning of device).
    pub start_byte: u64,
    /// Last byte to scan up to, exclusive (`None` = end of device).
    pub end_byte: Option<u64>,
}

impl Default for CarvingConfig {
    fn default() -> (r: Self)
        ensures
            r.signatures@.len() == 0,
            r.scan_chunk_size == 4 * 1024 * 1024,
            r.start_byte == 0,
            r.end_byte is None,
    {
        CarvingConfig { signatures: Vec::new(), scan_chunk_size: 4 * 1024 * 1024, start_byte: 0, end_byte: None }
    }
}

// ── Hex parsing ──────────────────────────────────────────────────────────────

/// Bytes written by the hex tokens `toks`, or the first token that is not a
/// byte.
pub open spec fn hex_bytes(toks: Seq<Seq<char>>) -> Result<Seq<u8>, Seq<char>>
    decreases toks.len(),
{
    if toks.len() == 0 {
        Ok(Seq::empty())
    } else {
        match hex_bytes(toks.drop_last()) {
            Err(t) => Err(t),
            Ok(bs) => match hex_byte(toks.last()) {
                Some(b) => Ok(bs.push(b)),
                None => Err(toks.last()),
            },
        }
    }
}

/// A header-pattern token: `??` is a wildcard, anything else a hex byte.
pub open spec fn pattern_entry(t: Seq<char>) -> Option<Option<u8>> {
    if t == seq!['?', '?'] {
        Some(None)
    } else {
        match hex_byte(t) {
            Some(b) => Some(Some(b)),
            None => None,
        }
    }
}

/// Pattern entries written by `toks`, or the first token that is neither a
/// wildcard nor a byte.
pub open spec fn pattern_entries(toks: Seq<Seq<char>>) -> Result<Seq<Option<u8>>, Seq<char>>
    decreases toks.len(),
{
    if toks.len() == 0 {
        Ok(Seq::empty())
    } else {
        match pattern_entries(toks.drop_last()) {
            Err(t) => Err(t),
            Ok(es) => match pattern_entry(toks.last()) {
                Some(e) => Ok(es.push(e)),
                None => Err(toks.last()),
            },
        }
    }
}

/// The message of the error reported for a bad hex token.
pub open spec fn bad_hex_message(t: Seq<char>) -> Seq<char> {
    "invalid hex byte: "@ + t
}

proof fn lemma_hex_bytes_err_sticky(toks: Seq<Seq<char>>, i: int, j: int, t: Seq<char>)
    requires
        0 <= i <= j <= toks.len(),
        hex_bytes(toks.take(i)) == Err::<Seq<u8>, Seq<char>>(t),
    ensures hex_bytes(toks.take(j)) == Err::<Seq<u8>, Seq<char>>(t),
    decreases j - i,
{
    if j > i {
        lemma_hex_bytes_err_sticky(toks, i, j - 1, t);
        assert(toks.take(j).drop_last() =~= toks.take(j - 1));
    }
}

proof fn lemma_pattern_err_sticky(toks: Seq<Seq<char>>, i: int, j: int, t: Seq<char>)
    requires
        0 <= i <= j <= toks.len(),
        pattern_entries(toks.take(i)) == Err::<Seq<Option<u8>>, Seq<char>>(t),
    ensures pattern_entries(toks.take(j)) == Err::<Seq<Option<u8>>, Seq<char>>(t),
    decreases j - i,
{
    if j > i {
        lemma_pattern_err_sticky(toks, i, j - 1, t);
        assert(toks.take(j).drop_last() =~= toks.take(j - 1));
    }
}

/// The string holding the characters of `v`.
#[verifier::external_body]
fn string_from_chars(v: &Vec<char>) -> (s: String)
    ensures s@ == v@,
{
    v.iter().collect()
}

fn bad_hex_error(tok: &Vec<char>) -> (e: CarveError)
    ensures e matches CarveError::InvalidSignature(m) && m@ == bad_hex_message(tok@),
{
    let mut m = String::from_str("invalid hex byte: ");
    let t = string_from_chars(tok);
    m.append(t.as_str());
    CarveError::InvalidSignature(m)
}

/// Parse a whitespace-separated hex string into exact bytes.  Wildcards are
/// not accepted.
pub fn parse_hex(s: &str) -> (r: Result<Vec<u8>, CarveError>)
    ensures
        match (r, hex_bytes(split_ws(s@))) {
            (Ok(v), Ok(bs)) => v@ == bs,
            (Err(CarveError::InvalidSignature(m)), Err(t)) => m@ == bad_hex_message(t),
            _ => false,
        },
{
    let toks = split_whitespace(s);
    let ghost ts = views(toks@);
    let mut out: Vec<u8> = Vec::new();
    let mut i: usize = 0;
    assert(ts.take(0) =~= Seq::<Seq<char>>::empty());
    while i < toks.len()
        invariant
            i <= toks.len(),
            ts == views(toks@),
            ts == split_ws(s@),
            hex_bytes(ts.take(i as int)) == Ok::<Seq<u8>, Seq<char>>(out@),
        decreases toks.len() - i,
    {
        assert(ts.take(i + 1).drop_last() =~= ts.take(i as int));
        assert(ts.take(i + 1).last() == toks@[i as int]@);
        match parse_hex_byte(&toks[i]) {
            Some(b) => {
                out.push(b);
            },
            None => {
                proof {
                    lemma_hex_bytes_err_sticky(ts, i + 1, ts.len() as int, toks@[i as int]@);
                    assert(ts.take(ts.len() as int) =~= ts);
                }
                return Err(bad_hex_error(&toks[i]));
            },
        }
        i += 1;
    }
    assert(ts.take(ts.len() as int) =~= ts);
    Ok(out)
}

fn parse_pattern_entry(tok: &Vec<char>) -> (r: Option<Option<u8>>)
    ensures r == pattern_entry(tok@),
{
    proof {
        reveal_strlit("??");
        assert("??"@ =~= seq!['?', '?']);
    }
    if same_chars(tok, "??") {
        return Some(None);
    }
    match parse_hex_byte(tok) {
        Some(b) => Some(Some(b)),
        None => None,
    }
}

/// Parse a header pattern string where `??` denotes a wildcard byte.
pub fn parse_hex_pattern(s: &str) -> (r: Result<Vec<Option<u8>>, CarveError>)
    ensures
        match (r, pattern_entries(split_ws(s@))) {
            (Ok(v), Ok(es)) => v@ == es,
            (Err(CarveError::InvalidSignature(m)), Err(t)) => m@ == bad_hex_message(t),
            _ => false,
        },
{
    let toks = split_whitespace(s);
    let ghost ts = views(toks@);
    let mut out: Vec<Option<u8>> = Vec::new();
    let mut i: usize = 0;
    assert(ts.take(0) =~= Seq::<Seq<char>>::empty());
    while i < toks.len()
        invariant
            i <= toks.len(),
            ts == views(toks@),
            ts == split_ws(s@),
            pattern_entries(ts.take(i as int)) == Ok::<Seq<Option<u8>>, Seq<char>>(out@),
        decreases toks.len() - i,
    {
        assert(ts.take(i + 1).drop_last() =~= ts.take(i as int));
        assert(ts.take(i + 1).last() == toks@[i as int]@);
        match parse_pattern_entry(&toks[i]) {
            Some(e) => {
                out.push(e);
            },
            None => {
                proof {
                    lemma_pattern_err_sticky(ts, i + 1, ts.len() as int, toks@[i as int]@);
                    assert(ts.take(ts.len() as int) =~= ts);
                }
                return Err(bad_hex_error(&toks[i]));
            },
        }
        i += 1;
    }
    assert(ts.take(ts.len() as int) =~= ts);
    Ok(out)
}

// ── Hex round trip ───────────────────────────────────────────────────────────

/// The digit `d` (below 16) in upper-case hexadecimal.
pub open spec fn upper_hex_digit(d: int) -> char {
    if d < 10 { ((48 + d) as u8) as char } else { ((55 + d) as u8) as char }
}

/// `b` as two upper-case hexadecimal digits.
pub open spec fn upper_hex_token(b: u8) -> Seq<char> {
    seq![upper_hex_digit(b as int / 16), upper_hex_digit(b as int % 16)]
}

/// Each byte of `v` as its two-digit upper-case token.
pub open spec fn upper_hex_tokens(v: Seq<u8>) -> Seq<Seq<char>> {
    v.map_values(|b: u8| upper_hex_token(b))
}

/// The bytes `v` written as two-digit upper-case hexadecimal tokens joined
/// by single spaces.
pub open spec fn upper_hex_text(v: Seq<u8>) -> Seq<char>
    decreases v.len(),
{
    if v.len() == 0 {
        Seq::empty()
    } else if v.len() == 1 {
        upper_hex_token(v[0])
    } else {
        upper_hex_token(v[0]) + seq![' '] + upper_hex_text(v.drop_first())
    }
}

/// Every entry of a pattern a fixed byte.
pub open spec fn fixed_entries(bs: Seq<u8>) -> Seq<Option<u8>> {
    bs.map_values(|b: u8| Some(b))
}

proof fn lemma_upper_hex_digit(d: int)
    requires 0 <= d < 16,
    ensures
        hex_digit(upper_hex_digit(d)) == Some(d),
        !is_ws(upper_hex_digit(d)),
        upper_hex_digit(d) != '+',
{
}

proof fn lemma_upper_hex_token(b: u8)
    ensures hex_byte(upper_hex_token(b)) == Some(b),
{
    let t = upper_hex_token(b);
    let hi = b as int / 16;
    let lo = b as int % 16;
    lemma_upper_hex_digit(hi);
    lemma_upper_hex_digit(lo);
    assert(t.drop_last().drop_last() =~= Seq::<char>::empty());
    assert(t.drop_last().last() == t[0]);
    assert(hex_digits_value(t.drop_last().drop_last()) == Some(0int));
    assert(hex_digits_value(t.drop_last()) == Some(hi));
    assert(hex_digits_value(t) == Some(hi * 16 + lo));
    assert(hi * 16 + lo == b);
}

proof fn lemma_split_shift(a: Seq<char>, b: Seq<char>, i: int, cur: Seq<char>, acc: Seq<Seq<char>>)
    requires 0 <= i,
    ensures split_from(a + b, a.len() + i, cur, acc) == split_from(b, i, cur, acc),
    decreases b.len() - i,
{
    if i < b.len() {
        assert((a + b)[a.len() + i] == b[i]);
        if is_ws(b[i]) {
            lemma_split_shift(a, b, i + 1, Seq::empty(), flush(cur, acc));
        } else {
            lemma_split_shift(a, b, i + 1, cur.push(b[i]), acc);
        }
        assert(a.len() + i + 1 == a.len() + (i + 1));
    }
}

proof fn lemma_split_upper_hex(v: Seq<u8>, acc: Seq<Seq<char>>)
    ensures split_from(upper_hex_text(v), 0, Seq::empty(), acc) == acc + upper_hex_tokens(v),
    decreases v.len(),
{
    let s = upper_hex_text(v);
    if v.len() == 0 {
        assert(acc + upper_hex_tokens(v) =~= acc);
    } else {
        let tok = upper_hex_token(v[0]);
        lemma_upper_hex_digit(v[0] as int / 16);
        lemma_upper_hex_digit(v[0] as int % 16);
        let e = Seq::<char>::empty();
        assert(e.push(tok[0]).push(tok[1]) =~= tok);
        if v.len() == 1 {
            assert(s == tok);
            assert(split_from(s, 2, e.push(tok[0]).push(tok[1]), acc) == acc.push(tok));
            assert(split_from(s, 1, e.push(tok[0]), acc) == acc.push(tok));
            assert(split_from(s, 0, e, acc) == acc.push(tok));
            assert(acc + upper_hex_tokens(v) =~= acc.push(tok));
        } else {
            let rest = v.drop_first();
            let a = tok + seq![' '];
            assert(s == a + upper_hex_text(rest));
            assert(s[0] == tok[0] && s[1] == tok[1] && s[2] == ' ');
            assert(is_ws(' '));
            lemma_split_shift(a, upper_hex_text(rest), 0, e, acc.push(tok));
            lemma_split_upper_hex(rest, acc.push(tok));
            assert(split_from(s, 3, e, acc.push(tok)) == acc.push(tok) + upper_hex_tokens(rest));
            assert(split_from(s, 2, e.push(tok[0]).push(tok[1]), acc) == acc.push(tok) + upper_hex_tokens(rest));
            assert(split_from(s, 1, e.push(tok[0]), acc) == acc.push(tok) + upper_hex_tokens(rest));
            assert(split_from(s, 0, e, acc) == acc.push(tok) + upper_hex_tokens(rest));
            assert(acc.push(tok) + upper_hex_tokens(rest) =~= acc + upper_hex_tokens(v));
        }
    }
}

proof fn lemma_hex_bytes_tokens(v: Seq<u8>)
    ensures hex_bytes(upper_hex_tokens(v)) == Ok::<Seq<u8>, Seq<char>>(v),
    decreases v.len(),
{
    if v.len() > 0 {
        lemma_hex_bytes_tokens(v.drop_last());
        assert(upper_hex_tokens(v).drop_last() =~= upper_hex_tokens(v.drop_last()));
        lemma_upper_hex_token(v.last());
        assert(upper_hex_tokens(v).last() == upper_hex_token(v.last()));
        assert(v.drop_last().push(v.last()) =~= v);
    } else {
        assert(v =~= Seq::<u8>::empty());
    }
}

/// Bytes written as two-digit upper-case hexadecimal tokens joined by
/// single spaces parse back, by [`parse_hex`], to the same bytes.
pub proof fn lemma_parse_hex_round_trip(v: Seq<u8>)
    ensures hex_bytes(split_ws(upper_hex_text(v))) == Ok::<Seq<u8>, Seq<char>>(v),
{
    lemma_split_upper_hex(v, Seq::empty());
    assert(Seq::<Seq<char>>::empty() + upper_hex_tokens(v) =~= upper_hex_tokens(v));
    lemma_hex_bytes_tokens(v);
}

proof fn lemma_hex_tokens_are_pattern(toks: Seq<Seq<char>>)
    ensures
        hex_bytes(toks) is Ok ==> pattern_entries(toks) == Ok::<Seq<Option<u8>>, Seq<char>>(fixed_entries(hex_bytes(toks)->Ok_0)),
    decreases toks.len(),
{
    if toks.len() > 0 && hex_bytes(toks) is Ok {
        let prev = toks.drop_last();
        lemma_hex_tokens_are_pattern(prev);
        let bs = hex_bytes(prev)->Ok_0;
        let b = hex_byte(toks.last())->Some_0;
        assert(hex_byte(seq!['?', '?']) is None) by {
            let q = seq!['?', '?'];
            assert(q.drop_last().drop_last() =~= Seq::<char>::empty());
            assert(hex_digit(q.last()) is None);
        }
        assert(hex_bytes(prev) is Ok);
        assert(hex_bytes(toks) == Ok::<Seq<u8>, Seq<char>>(bs.push(b)));
        assert(pattern_entry(toks.last()) == Some(Some(b)));
        assert(pattern_entries(prev) == Ok::<Seq<Option<u8>>, Seq<char>>(fixed_entries(bs)));
        assert(fixed_entries(bs).push(Some(b)) =~= fixed_entries(bs.push(b)));
        assert(pattern_entries(toks) == Ok::<Seq<Option<u8>>, Seq<char>>(fixed_entries(bs).push(Some(b))));
    } else if toks.len() == 0 {
        assert(fixed_entries(Seq::<u8>::empty()) =~= Seq::<Option<u8>>::empty());
    }
}

/// Text that [`parse_hex`] accepts, [`parse_hex_pattern`] accepts too, with
/// the same bytes as fixed entries.
pub proof fn lemma_hex_is_pattern(s: Seq<char>)
    ensures
        hex_bytes(split_ws(s)) is Ok ==> pattern_entries(split_ws(s))
            == Ok::<Seq<Option<u8>>, Seq<char>>(fixed_entries(hex_bytes(split_ws(s))->Ok_0)),
{
    lemma_hex_tokens_are_pattern(split_ws(s));
}

// ── Signature records ────────────────────────────────────────────────────────

/// One signature record as written in a signature file, before its hex
/// patterns and size-hint fields are interpreted.
#[derive(Debug, Clone)]
pub struct RawSignature {
    pub name: String,
    pub extension: String,
    /// Header pattern: hex bytes separated by whitespace, `??` for any byte.
    pub header: String,
    /// Footer: hex bytes separated by whitespace; empty for none.
    pub footer: String,
    pub footer_last: bool,
    pub max_size: u64,
    pub min_size: u64,
    pub size_hint_offset: Option<usize>,
    pub size_hint_len: Option<u8>,
    /// `"le"` (any case) for little-endian; anything else big-endian.
    pub size_hint_endian: Option<String>,
    pub size_hint_add: Option<u64>,
    pub size_hint_scale: Option<u64>,
    /// Named size-hint kind (e.g. `"ole2"`), matched ignoring ASCII case.
    pub size_hint_kind: Option<String>,
    /// Named pre-validator (e.g. `"zip"`), matched ignoring ASCII case.
    pub pre_validate: Option<String>,
    pub header_offset: u64,
    pub min_hit_gap: u64,
    pub suppress_group: Option<String>,
    pub size_hint_ts_offset: Option<u8>,
    pub size_hint_stride: Option<u16>,
    pub footer_extra: usize,
}

/// The optional text `k`, ASCII lower-cased.
pub open spec fn lowered(k: Option<String>) -> Option<Seq<char>> {
    match k {
        Some(s) => Some(ascii_lower_chars(s@)),
        None => None,
    }
}

/// Byte order of a size field: little-endian unless an endian other than
/// `le` (any case) is given.
pub open spec fn raw_little_endian(r: RawSignature) -> bool {
    match r.size_hint_endian {
        Some(e) => ascii_lower_chars(e@) == "le"@,
        None => true,
    }
}

/// A record's size field is read little-endian exactly when it names no
/// byte order or names `le` in any case (`le`, `LE`, `Le`, `lE`); any other
/// endian text, `be` among them, gives big-endian.  A record with no size
/// kind and both an offset and a width selects a linear hint in that order.
pub proof fn lemma_record_endian(r: RawSignature)
    ensures
        raw_little_endian(r) == match r.size_hint_endian {
            None => true,
            Some(e) => e@.len() == 2 && (e@[0] == 'l' || e@[0] == 'L') && (e@[1] == 'e' || e@[1] == 'E'),
        },
        r.size_hint_kind is None ==> match (r.size_hint_offset, r.size_hint_len) {
            (Some(offset), Some(len)) => raw_size_hint(r) == Some(SizeHint::Linear {
                offset,
                len,
                little_endian: raw_little_endian(r),
                add: match r.size_hint_add { Some(a) => a, None => 0 },
            }),
            _ => raw_size_hint(r) is None,
        },
{
    reveal_strlit("le");
    match r.size_hint_endian {
        None => {},
        Some(e) => {
            let s = e@;
            let l = ascii_lower_chars(s);
            assert(l.len() == s.len());
            if s.len() == 2 {
                assert(l[0] == ascii_lower_char(s[0]) && l[1] == ascii_lower_char(s[1]));
                assert(ascii_lower_char(s[0]) == 'l' <==> (s[0] == 'l' || s[0] == 'L'));
                assert(ascii_lower_char(s[1]) == 'e' <==> (s[1] == 'e' || s[1] == 'E'));
                if l == "le"@ {
                    assert(l[0] == 'l' && l[1] == 'e');
                } else if (s[0] == 'l' || s[0] == 'L') && (s[1] == 'e' || s[1] == 'E') {
                    assert(l =~= "le"@);
                }
            } else {
                assert(l.len() != "le"@.len());
            }
        },
    }
}

/// The size hint a record selects.  A named kind picks its variant (`mp4`
/// and `isobmff` both name the box walker); `mpeg_ts` needs the sync offset
/// and stride, `linear_scaled` the offset, width and scale.  Any other kind,
/// or none, gives a linear hint when an offset and width are present.
pub open spec fn raw_size_hint(r: RawSignature) -> Option<SizeHint> {
    let k = lowered(r.size_hint_kind);
    let le = raw_little_endian(r);
    let add = match r.size_hint_add { Some(a) => a, None => 0 };
    if k == Some("ole2"@) {
        Some(SizeHint::Ole2)
    } else if k == Some("sqlite"@) {
        Some(SizeHint::Sqlite)
    } else if k == Some("seven_zip"@) {
        Some(SizeHint::SevenZip)
    } else if k == Some("ogg_stream"@) {
        Some(SizeHint::OggStream)
    } else if k == Some("mp4"@) || k == Some("isobmff"@) {
        Some(SizeHint::Isobmff)
    } else if k == Some("tiff"@) {
        Some(SizeHint::Tiff)
    } else if k == Some("raf"@) {
        Some(SizeHint::Raf)
    } else if k == Some("pe"@) {
        Some(SizeHint::Pe)
    } else if k == Some("elf"@) {
        Some(SizeHint::Elf)
    } else if k == Some("rar"@) {
        Some(SizeHint::Rar)
    } else if k == Some("ebml"@) {
        Some(SizeHint::Ebml)
    } else if k == Some("text_bound"@) {
        Some(SizeHint::TextBound)
    } else if k == Some("ttf"@) {
        Some(SizeHint::Ttf)
    } else if k == Some("pdf"@) {
        Some(SizeHint::Pdf)
    } else if k == Some("mpeg_ts"@) {
        match (r.size_hint_ts_offset, r.size_hint_stride) {
            (Some(ts_offset), Some(stride)) => Some(SizeHint::MpegTs { ts_offset, stride }),
            _ => None,
        }
    } else if k == Some("linear_scaled"@) {
        match (r.size_hint_offset, r.size_hint_len, r.size_hint_scale) {
            (Some(offset), Some(len), Some(scale)) => Some(
                SizeHint::LinearScaled { offset, len, little_endian: le, scale, add },
            ),
            _ => None,
        }
    } else {
        match (r.size_hint_offset, r.size_hint_len) {
            (Some(offset), Some(len)) => Some(SizeHint::Linear { offset, len, little_endian: le, add }),
            _ => None,
        }
    }
}

/// The footer bytes a record's footer text gives, or the first bad token.
pub open spec fn raw_footer(r: RawSignature) -> Result<Seq<u8>, Seq<char>> {
    if r.footer@.len() == 0 { Ok(Seq::empty()) } else { hex_bytes(split_ws(r.footer@)) }
}

/// The message of the error a record gives, if any: the footer is read
/// before the header, so a bad footer token is the one reported.
pub open spec fn raw_error(r: RawSignature) -> Option<Seq<char>> {
    match raw_footer(r) {
        Err(t) => Some(bad_hex_message(t)),
        Ok(_) => match pattern_entries(split_ws(r.header@)) {
            Err(t) => Some(bad_hex_message(t)),
            Ok(_) => None,
        },
    }
}

/// `sig` is the signature a well-formed record `r` defines.
pub open spec fn signature_of(r: RawSignature, sig: Signature) -> bool {
    &&& sig.name == r.name
    &&& sig.extension == r.extension
    &&& pattern_entries(split_ws(r.header@)) == Ok::<Seq<Option<u8>>, Seq<char>>(sig.header@)
    &&& raw_footer(r) == Ok::<Seq<u8>, Seq<char>>(sig.footer@)
    &&& sig.footer_last == r.footer_last
    &&& sig.max_size == r.max_size
    &&& sig.size_hint == raw_size_hint(r)
    &&& sig.min_size == r.min_size
    &&& sig.pre_validate == match lowered(r.pre_validate) {
        Some(k) => kind_from_label(k),
        None => None,
    }
    &&& sig.header_offset == r.header_offset
    &&& sig.min_hit_gap == r.min_hit_gap
    &&& sig.suppress_group == r.suppress_group
    &&& sig.footer_extra == r.footer_extra
}

/// The characters held by an optional character vector.
pub open spec fn chars_view(k: Option<Vec<char>>) -> Option<Seq<char>> {
    match k {
        Some(v) => Some(v@),
        None => None,
    }
}

fn kind_is(k: &Option<Vec<char>>, label: &str) -> (r: bool)
    ensures r == (chars_view(*k) == Some(label@)),
{
    match k {
        Some(v) => same_chars(v, label),
        None => false,
    }
}

fn clone_text(s: &String) -> (r: String)
    ensures r == *s,
{
    s.clone()
}

fn clone_opt_text(s: &Option<String>) -> (r: Option<String>)
    ensures r == *s,
{
    match s {
        Some(t) => Some(t.clone()),
        None => None,
    }
}

/// Selects the size hint of a record.
fn size_hint_of(r: &RawSignature) -> (h: Option<SizeHint>)
    ensures h == raw_size_hint(*r),
{
    let le = match &r.size_hint_endian {
        Some(e) => {
            let l = lower_ascii(&chars_of(e.as_str()));
            same_chars(&l, "le")
        },
        None => true,
    };
    let k: Option<Vec<char>> = match &r.size_hint_kind {
        Some(s) => Some(lower_ascii(&chars_of(s.as_str()))),
        None => None,
    };
    assert(chars_view(k) == lowered(r.size_hint_kind));
    let add = match r.size_hint_add { Some(a) => a, None => 0 };
    if kind_is(&k, "ole2") {
        Some(SizeHint::Ole2)
    } else if kind_is(&k, "sqlite") {
        Some(SizeHint::Sqlite)
    } else if kind_is(&k, "seven_zip") {
        Some(SizeHint::SevenZip)
    } else if kind_is(&k, "ogg_stream") {
        Some(SizeHint::OggStream)
    } else if kind_is(&k, "mp4") || kind_is(&k, "isobmff") {
        Some(SizeHint::Isobmff)
    } else if kind_is(&k, "tiff") {
        Some(SizeHint::Tiff)
    } else if kind_is(&k, "raf") {
        Some(SizeHint::Raf)
    } else if kind_is(&k, "pe") {
        Some(SizeHint::Pe)
    } else if kind_is(&k, "elf") {
        Some(SizeHint::Elf)
    } else if kind_is(&k, "rar") {
        Some(SizeHint::Rar)
    } else if kind_is(&k, "ebml") {
        Some(SizeHint::Ebml)
    } else if kind_is(&k, "text_bound") {
        Some(SizeHint::TextBound)
    } else if kind_is(&k, "ttf") {
        Some(SizeHint::Ttf)
    } else if kind_is(&k, "pdf") {
        Some(SizeHint::Pdf)
    } else if kind_is(&k, "mpeg_ts") {
        match (r.size_hint_ts_offset, r.size_hint_stride) {
            (Some(ts_offset), Some(stride)) => Some(SizeHint::MpegTs { ts_offset, stride }),
            _ => None,
        }
    } else if kind_is(&k, "linear_scaled") {
        match (r.size_hint_offset, r.size_hint_len, r.size_hint_scale) {
            (Some(offset), Some(len), Some(scale)) => Some(
                SizeHint::LinearScaled { offset, len, little_endian: le, scale, add },
            ),
            _ => None,
        }
    } else {
        match (r.size_hint_offset, r.size_hint_len) {
            (Some(offset), Some(len)) => Some(SizeHint::Linear { offset, len, little_endian: le, add }),
            _ => None,
        }
    }
}

/// Interpret one signature record: parse its footer and header patterns,
/// select its size hint and pre-validator, and copy the plain fields.
pub fn signature_from_raw(r: &RawSignature) -> (res: Result<Signature, CarveError>)
    ensures
        match res {
            Ok(sig) => raw_error(*r) is None && signature_of(*r, sig),
            Err(CarveError::InvalidSignature(m)) => raw_error(*r) == Some(m@),
            Err(_) => false,
        },
{
    let footer = if r.footer.as_str().is_empty() {
        Vec::new()
    } else {
        match parse_hex(r.footer.as_str()) {
            Ok(v) => v,
            Err(e) => return Err(e),
        }
    };
    let size_hint = size_hint_of(r);
    let pre_validate = match &r.pre_validate {
        Some(p) => PreValidate::from_kind(p.as_str()),
        None => None,
    };
    let header = match parse_hex_pattern(r.header.as_str()) {
        Ok(h) => h,
        Err(e) => return Err(e),
    };
    Ok(Signature {
        name: clone_text(&r.name),
        extension: clone_text(&r.extension),
        header,
        footer,
        footer_last: r.footer_last,
        max_size: r.max_size,
        size_hint,
        min_size: r.min_size,
        pre_validate,
        header_offset: r.header_offset,
        min_hit_gap: r.min_hit_gap,
        suppress_group: clone_opt_text(&r.suppress_group),
        footer_extra: r.footer_extra,
    })
}

/// Index of the first record that gives an error, if any.
pub open spec fn first_bad_record(rs: Seq<RawSignature>, i: int) -> Option<int>
    decreases rs.len() - i,
{
    if i < 0 || i >= rs.len() {
        None
    } else if raw_error(rs[i]) is Some {
        Some(i)
    } else {
        first_bad_record(rs, i + 1)
    }
}

impl CarvingConfig {
    /// A configuration holding the signatures the records define, in order,
    /// with the default chunk size and scan window; or the error of the
    /// first record that is not well formed.
    pub fn from_raw_signatures(records: &Vec<RawSignature>) -> (res: Result<CarvingConfig, CarveError>)
        ensures
            match res {
                Ok(cfg) => {
                    &&& first_bad_record(records@, 0) is None
                    &&& cfg.signatures@.len() == records@.len()
                    &&& forall|i: int| 0 <= i < records@.len() ==> signature_of(records@[i], #[trigger] cfg.signatures@[i])
                    &&& cfg.scan_chunk_size == 4 * 1024 * 1024
                    &&& cfg.start_byte == 0
                    &&& cfg.end_byte is None
                },
                Err(CarveError::InvalidSignature(m)) => match first_bad_record(records@, 0) {
                    Some(i) => raw_error(records@[i]) == Some(m@),
                    None => false,
                },
                Err(_) => false,
            },
    {
        let mut sigs: Vec<Signature> = Vec::new();
        let mut i: usize = 0;
        while i < records.len()
            invariant
                i <= records.len(),
                sigs@.len() == i,
                first_bad_record(records@, i as int) == first_bad_record(records@, 0),
                forall|j: int| 0 <= j < i ==> signature_of(records@[j], #[trigger] sigs@[j]),
            decreases records.len() - i,
        {
            match signature_from_raw(&records[i]) {
                Ok(sig) => {
                    sigs.push(sig);
                },
                Err(e) => {
                    return Err(e);
                },
            }
            i += 1;
        }
        Ok(CarvingConfig { signatures: sigs, scan_chunk_size: 4 * 1024 * 1024, start_byte: 0, end_byte: None })
    }
}

} // verus!
