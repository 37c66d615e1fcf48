//! Character-level helpers for the textual parts of signature definitions.
use vstd::prelude::*;

verus! {

/// ASCII lower-case mapping of a character; other characters are unchanged.
pub open spec fn ascii_lower_char(c: char) -> char {
    if 'A' <= c && c <= 'Z' { ((c as u32 + 32) as u8) as char } else { c }
}

/// ASCII lower-case mapping of every character of `s`.
pub open spec fn ascii_lower_chars(s: Seq<char>) -> Seq<char> {
    s.map_values(|c: char| ascii_lower_char(c))
}

pub fn lower_char(c: char) -> (r: char)
    ensures r == ascii_lower_char(c),
{
    if 'A' <= c && c <= 'Z' {
        let u = c as u32;
        ((u + 32) as u8) as char
    } else {
        c
    }
}

/// The characters of `s`.
pub fn chars_of(s: &str) -> (r: Vec<char>)
    ensures r@ == s@,
{
    let mut v: Vec<char> = Vec::new();
    broadcast use vstd::string::axiom_spec_iter;
    for c in iter: s.chars()
        invariant
            v@ == iter.seq().take(iter.index() as int),
    {
        v.push(c);
    }
    assert(v@ =~= s@);
    v
}

/// ASCII lower-case copy of `v`.
pub fn lower_ascii(v: &Vec<char>) -> (r: Vec<char>)
    ensures r@ == ascii_lower_chars(v@),
{
    let mut out: Vec<char> = Vec::new();
    let mut i: usize = 0;
    while i < v.len()
        invariant
            i <= v.len(),
            out@ == ascii_lower_chars(v@.take(i as int)),
        decreases v.len() - i,
    {
        out.push(lower_char(v[i]));
        proof {
            assert(v@.take(i + 1) == v@.take(i as int).push(v@[i as int]));
        }
        i += 1;
        assert(out@ =~= ascii_lower_chars(v@.take(i as int)));
    }
    assert(v@.take(v.len() as int) == v@);
    out
}

/// Does `v` hold exactly the characters of `t`?
pub fn same_chars(v: &Vec<char>, t: &str) -> (r: bool)
    ensures r == (v@ == t@),
{
    let w = chars_of(t);
    if v.len() != w.len() {
        return false;
    }
    let mut i: usize = 0;
    while i < v.len()
        invariant
            i <= v.len(),
            v.len() == w.len(),
            w@ == t@,
            forall|j: int| 0 <= j < i ==> v@[j] == w@[j],
        decreases v.len() - i,
    {
        if v[i] != w[i] {
            assert(v@[i as int] != t@[i as int]);
            return false;
        }
        i += 1;
    }
    assert(v@ =~= w@);
    true
}

/// Unicode `White_Space` characters (the set Rust's `char::is_whitespace`
/// recognises).
pub open spec fn is_ws(c: char) -> bool {
    let u = c as u32;
    (9 <= u <= 13) || u == 32 || u == 0x85 || u == 0xA0 || u == 0x1680 || (0x2000 <= u <= 0x200A)
        || u == 0x2028 || u == 0x2029 || u == 0x202F || u == 0x205F || u == 0x3000
}

pub fn ws(c: char) -> (r: bool)
    ensures r == is_ws(c),
{
    let u = c as u32;
    (9 <= u && u <= 13) || u == 32 || u == 0x85 || u == 0xA0 || u == 0x1680 || (0x2000 <= u && u <= 0x200A)
        || u == 0x2028 || u == 0x2029 || u == 0x202F || u == 0x205F || u == 0x3000
}

/// Close the token being built (if any) onto the list of tokens.
pub open spec fn flush(cur: Seq<char>, acc: Seq<Seq<char>>) -> Seq<Seq<char>> {
    if cur.len() > 0 { acc.push(cur) } else { acc }
}

/// Splitting `s[i..]` on whitespace, given the token `cur` under
/// construction and the tokens `acc` already complete.
pub open spec fn split_from(s: Seq<char>, i: int, cur: Seq<char>, acc: Seq<Seq<char>>) -> Seq<Seq<char>>
    decreases s.len() - i,
{
    if i >= s.len() {
        flush(cur, acc)
    } else if is_ws(s[i]) {
        split_from(s, i + 1, Seq::empty(), flush(cur, acc))
    } else {
        split_from(s, i + 1, cur.push(s[i]), acc)
    }
}

/// The maximal runs of non-whitespace characters of `s`, in order.
pub open spec fn split_ws(s: Seq<char>) -> Seq<Seq<char>> {
    split_from(s, 0, Seq::empty(), Seq::empty())
}

pub open spec fn views(v: Seq<Vec<char>>) -> Seq<Seq<char>> {
    v.map_values(|t: Vec<char>| t@)
}

/// The whitespace-separated tokens of `s`.
pub fn split_whitespace(s: &str) -> (r: Vec<Vec<char>>)
    ensures views(r@) == split_ws(s@),
{
    let cs = chars_of(s);
    let mut acc: Vec<Vec<char>> = Vec::new();
    let mut cur: Vec<char> = Vec::new();
    let mut i: usize = 0;
    assert(views(acc@) =~= Seq::<Seq<char>>::empty());
    assert(cur@ =~= Seq::<char>::empty());
    while i < cs.len()
        invariant
            i <= cs.len(),
            cs@ == s@,
            split_ws(s@) == split_from(s@, i as int, cur@, views(acc@)),
        decreases cs.len() - i,
    {
        let c = cs[i];
        if ws(c) {
            if cur.len() > 0 {
                let ghost old_acc = acc@;
                acc.push(cur);
                assert(views(acc@) =~= views(old_acc).push(cur@));
            }
            cur = Vec::new();
            assert(cur@ =~= Seq::<char>::empty());
        } else {
            cur.push(c);
        }
        i += 1;
    }
    if cur.len() > 0 {
        let ghost old_acc = acc@;
        acc.push(cur);
        assert(views(acc@) =~= views(old_acc).push(cur@));
    }
    acc
}

/// Value of a hexadecimal digit character, if it is one.
pub open spec fn hex_digit(c: char) -> Option<int> {
    if '0' <= c && c <= '9' {
        Some(c as int - '0' as int)
    } else if 'a' <= c && c <= 'f' {
        Some(c as int - 'a' as int + 10)
    } else if 'A' <= c && c <= 'F' {
        Some(c as int - 'A' as int + 10)
    } else {
        None
    }
}

/// Value of the hexadecimal digits `ds` read big-endian, if all are digits.
pub open spec fn hex_digits_value(ds: Seq<char>) -> Option<int>
    decreases ds.len(),
{
    if ds.len() == 0 {
        Some(0)
    } else {
        match (hex_digits_value(ds.drop_last()), hex_digit(ds.last())) {
            (Some(v), Some(d)) => Some(v * 16 + d),
            _ => None,
        }
    }
}

/// The byte written by `tok` in base 16, as `u8::from_str_radix(tok, 16)`
/// reads it: an optional leading `+`, then at least one hexadecimal digit,
/// with a value of at most 255.
pub open spec fn hex_byte(tok: Seq<char>) -> Option<u8> {
    let ds = if tok.len() > 0 && tok[0] == '+' { tok.drop_first() } else { tok };
    if ds.len() == 0 {
        None
    } else {
        match hex_digits_value(ds) {
            Some(v) => if v <= 255 { Some(v as u8) } else { None },
            None => None,
        }
    }
}

pub fn hex_digit_exec(c: char) -> (r: Option<u8>)
    ensures
        match hex_digit(c) {
            Some(v) => r == Some(v as u8) && v < 16,
            None => r is None,
        },
{
    if '0' <= c && c <= '9' {
        Some((c as u32 - 48) as u8)
    } else if 'a' <= c && c <= 'f' {
        Some((c as u32 - 87) as u8)
    } else if 'A' <= c && c <= 'F' {
        Some((c as u32 - 55) as u8)
    } else {
        None
    }
}

proof fn lemma_hex_value_grows(ds: Seq<char>, k: int)
    requires
        0 <= k <= ds.len(),
        hex_digits_value(ds) is Some,
    ensures
        hex_digits_value(ds.take(k)) is Some,
        0 <= hex_digits_value(ds.take(k))->0 <= hex_digits_value(ds)->0,
    decreases ds.len(),
{
    if ds.len() > 0 {
        if k == ds.len() {
            assert(ds.take(k) =~= ds);
            lemma_hex_value_grows(ds.drop_last(), k - 1);
            assert(ds.drop_last().take(k - 1) =~= ds.drop_last());
        } else {
            assert(ds.drop_last().take(k) =~= ds.take(k));
            lemma_hex_value_grows(ds.drop_last(), k);
        }
    } else {
        assert(ds.take(k) =~= ds);
    }
}

/// `u8::from_str_radix(tok, 16)`, over the characters of the token.
pub fn parse_hex_byte(tok: &Vec<char>) -> (r: Option<u8>)
    ensures r == hex_byte(tok@),
{
    let start: usize = if tok.len() > 0 && tok[0] == '+' { 1 } else { 0 };
    let ghost ds = if tok@.len() > 0 && tok@[0] == '+' { tok@.drop_first() } else { tok@ };
    if start >= tok.len() {
        return None;
    }
    let mut acc: u32 = 0;
    let mut i: usize = start;
    assert(ds =~= tok@.skip(start as int));
    assert(ds.take(0) =~= Seq::<char>::empty());
    while i < tok.len()
        invariant
            start <= i <= tok.len(),
            start < tok.len(),
            ds == tok@.skip(start as int),
            ds == (if tok@.len() > 0 && tok@[0] == '+' { tok@.drop_first() } else { tok@ }),
            hex_digits_value(ds.take(i - start)) == Some(acc as int),
            acc <= 255,
        decreases tok.len() - i,
    {
        assert(ds.take(i - start + 1).drop_last() == ds.take(i - start));
        assert(ds.take(i - start + 1).last() == tok@[i as int]);
        match hex_digit_exec(tok[i]) {
            None => {
                proof {
                    assert(hex_digits_value(ds.take(i - start + 1)) is None);
                    if hex_digits_value(ds) is Some {
                        lemma_hex_value_grows(ds, i - start + 1);
                    }
                }
                return None;
            },
            Some(d) => {
                let next = acc * 16 + d as u32;
                if next > 255 {
                    proof {
                        if hex_digits_value(ds) is Some {
                            lemma_hex_value_grows(ds, i - start + 1);
                        }
                    }
                    return None;
                }
                acc = next;
            },
        }
        i += 1;
    }
    assert(ds.take(i - start) == ds);
    Some(acc as u8)
}

} // verus!
