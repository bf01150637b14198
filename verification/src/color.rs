//! Hex colour notation `#rrggbb`.

use vstd::prelude::*;
use vstd::utf8::{encode_utf8, is_ascii_chars, is_ascii_chars_encode_utf8};

verus! {

/// A colour given by its red, green and blue components.
#[derive(Clone, Copy, Debug, PartialEq, Eq, Structural)]
pub struct Rgb {
    pub r: u8,
    pub g: u8,
    pub b: u8,
}

/// The value of a hexadecimal digit byte, either case.
pub open spec fn hex_digit_value(c: u8) -> Option<u8> {
    if 0x30 <= c <= 0x39 {
        Some((c - 0x30) as u8)
    } else if 0x61 <= c <= 0x66 {
        Some((c - 0x61 + 10) as u8)
    } else if 0x41 <= c <= 0x46 {
        Some((c - 0x41 + 10) as u8)
    } else {
        None
    }
}

/// The value of the two bytes `[c0, c1]` as a pair of hex digits (`rr`, `gg`
/// or `bb` of `#rrggbb`); `None` unless both are hex digits.
pub open spec fn hex_pair_value(c0: u8, c1: u8) -> Option<u8> {
    match (hex_digit_value(c0), hex_digit_value(c1)) {
        (Some(hi), Some(lo)) => Some((hi * 16 + lo) as u8),
        _ => None,
    }
}

/// `b` without its leading `#` bytes (`str::trim_start_matches('#')`).
pub open spec fn strip_hashes(b: Seq<u8>) -> Seq<u8>
    decreases b.len(),
{
    if b.len() > 0 && b[0] == 0x23 {
        strip_hashes(b.drop_first())
    } else {
        b
    }
}

/// The colour that the UTF-8 text `b` names: after any leading `#`s, exactly
/// six hex digits, read as the pairs `rr`, `gg`, `bb`.
pub open spec fn hex_color(b: Seq<u8>) -> Option<Rgb> {
    let h = strip_hashes(b);
    if h.len() != 6 {
        None
    } else {
        match hex_pair_value(h[0], h[1]) {
            None => None,
            Some(r) => match hex_pair_value(h[2], h[3]) {
                None => None,
                Some(g) => match hex_pair_value(h[4], h[5]) {
                    None => None,
                    Some(bl) => Some(Rgb { r, g, b: bl }),
                },
            },
        }
    }
}

/// The hex digit that stands for `n` (below sixteen), in lower or upper case.
pub open spec fn hex_digit_char(n: u8, upper: bool) -> char {
    if n < 10 {
        (n + 0x30) as char
    } else if upper {
        (n - 10 + 0x41) as char
    } else {
        (n - 10 + 0x61) as char
    }
}

/// The colour `c` written as `#rrggbb`: `#`, then two hex digits for each of
/// red, green and blue, in lower or upper case.
pub open spec fn hex_notation(c: Rgb, upper: bool) -> Seq<char> {
    seq![
        '#',
        hex_digit_char(c.r / 16, upper),
        hex_digit_char(c.r % 16, upper),
        hex_digit_char(c.g / 16, upper),
        hex_digit_char(c.g % 16, upper),
        hex_digit_char(c.b / 16, upper),
        hex_digit_char(c.b % 16, upper),
    ]
}

proof fn lemma_hex_digit_char(n: u8, upper: bool)
    requires
        n < 16,
    ensures
        '\0' <= hex_digit_char(n, upper) <= '\u{7f}',
        hex_digit_char(n, upper) as u8 != 0x23,
        hex_digit_value(hex_digit_char(n, upper) as u8) == Some(n),
{
}

proof fn lemma_pair(v: u8, upper: bool)
    ensures
        hex_pair_value(hex_digit_char(v / 16, upper) as u8, hex_digit_char(v % 16, upper) as u8) == Some(v),
{
    lemma_hex_digit_char(v / 16, upper);
    lemma_hex_digit_char(v % 16, upper);
    assert((v / 16) * 16 + v % 16 == v);
}

/// A colour written as `#rrggbb`, in lower or upper case, reads back as that colour.
pub proof fn lemma_hex_notation_reads_back(c: Rgb, upper: bool)
    ensures
        hex_color(encode_utf8(hex_notation(c, upper))) == Some(c),
        encode_utf8(hex_notation(c, upper)).len() == 7,
        hex_notation(c, upper).len() == 7,
        hex_notation(c, upper)[0] == '#',
{
    let s = hex_notation(c, upper);
    lemma_hex_digit_char(c.r / 16, upper);
    lemma_hex_digit_char(c.r % 16, upper);
    lemma_hex_digit_char(c.g / 16, upper);
    lemma_hex_digit_char(c.g % 16, upper);
    lemma_hex_digit_char(c.b / 16, upper);
    lemma_hex_digit_char(c.b % 16, upper);
    lemma_pair(c.r, upper);
    lemma_pair(c.g, upper);
    lemma_pair(c.b, upper);
    assert(is_ascii_chars(s));
    is_ascii_chars_encode_utf8(s);
    let b = encode_utf8(s);
    let h = b.drop_first();
    assert(b.len() == 7);
    assert(b[0] == s[0] as u8);
    assert(b[0] == 0x23);
    assert(h[0] == s[1] as u8);
    assert(strip_hashes(h) == h);
    assert(strip_hashes(b) == h);
    assert(h[1] == s[2] as u8 && h[2] == s[3] as u8 && h[3] == s[4] as u8);
    assert(h[4] == s[5] as u8 && h[5] == s[6] as u8);
}

fn hex_digit(c: u8) -> (r: Option<u8>)
    ensures
        r == hex_digit_value(c),
{
    if 0x30 <= c && c <= 0x39 {
        Some(c - 0x30)
    } else if 0x61 <= c && c <= 0x66 {
        Some(c - 0x61 + 10)
    } else if 0x41 <= c && c <= 0x46 {
        Some(c - 0x41 + 10)
    } else {
        None
    }
}

/// The value of the two bytes `c0 c1` as a pair of hex digits.
pub fn hex_pair(c0: u8, c1: u8) -> (r: Option<u8>)
    ensures
        r == hex_pair_value(c0, c1),
{
    match (hex_digit(c0), hex_digit(c1)) {
        (Some(hi), Some(lo)) => Some(hi * 16 + lo),
        _ => None,
    }
}

/// The offset of the first byte of `b` that is not a `#`.
fn hashes_end(b: &[u8]) -> (k: usize)
    ensures
        k <= b@.len(),
        strip_hashes(b@) == b@.subrange(k as int, b@.len() as int),
{
    let n = b.len();
    let mut k: usize = 0;
    assert(b@.subrange(0, n as int) =~= b@);
    while k < n && b[k] == 0x23
        invariant
            k <= n == b@.len(),
            strip_hashes(b@) == strip_hashes(b@.subrange(k as int, n as int)),
        decreases n - k,
    {
        assert(b@.subrange(k as int, n as int).drop_first() =~= b@.subrange(k + 1, n as int));
        k = k + 1;
    }
    k
}

/// The colour that `hex` names in the notation `#rrggbb` (any number of leading
/// `#`s, then six hex digits); `None` when it names none.
pub fn parse_hex_color(hex: &str) -> (r: Option<Rgb>)
    ensures
        r == hex_color(encode_utf8(hex@)),
{
    let b = hex.as_bytes();
    let k = hashes_end(b);
    let n = b.len();
    let ghost h = b@.subrange(k as int, n as int);
    if n - k != 6 {
        return None;
    }
    assert(h[0] == b@[k as int] && h[1] == b@[k + 1] && h[2] == b@[k + 2] && h[3] == b@[k + 3]
        && h[4] == b@[k + 4] && h[5] == b@[k + 5]);
    let r = match hex_pair(b[k], b[k + 1]) {
        Some(v) => v,
        None => return None,
    };
    let g = match hex_pair(b[k + 2], b[k + 3]) {
        Some(v) => v,
        None => return None,
    };
    let bl = match hex_pair(b[k + 4], b[k + 5]) {
        Some(v) => v,
        None => return None,
    };
    Some(Rgb { r, g, b: bl })
}

} // verus!
