//! What the interactive editors share: the keys they react to, the notices they
//! show, and the checks on a typed colour.

use vstd::prelude::*;
use vstd::utf8::encode_utf8;
use crate::color::{hex_color, hex_notation, lemma_hex_notation_reads_back, parse_hex_color, Rgb};

verus! {

/// A key press, as the editors tell keys apart.
#[derive(Clone, Copy, Debug, PartialEq, Eq, Structural)]
pub enum Key {
    Esc,
    Enter,
    Up,
    Down,
    Tab,
    BackTab,
    Backspace,
    Char(char),
    Other,
}

/// A notice that an editor shows under its input.
#[derive(Clone, Debug, PartialEq, Eq)]
pub enum Notice {
    /// The solid colour is not `#` followed by six bytes.
    InvalidFormat,
    /// The solid colour has the right shape but is not hex.
    InvalidHex,
    /// The solid colour was written.
    ColorApplied,
    /// The gradient colour with this number (counted from one) is not valid.
    InvalidColor(usize),
    /// The gradient was written.
    GradientApplied,
    /// Writing the configuration failed with this message.
    WriteFailed(String),
}

/// What the terminal loop around an editor does after a key.
#[derive(Debug, PartialEq, Eq)]
pub enum Action {
    /// Draw the editor again and wait for the next key.
    Stay,
    /// Leave the editor.
    Exit,
    /// Write this solid colour to the configuration, then report the outcome.
    ApplySolid(String),
    /// Write these gradient colours to the configuration, then report the outcome.
    ApplyGradient(Vec<String>),
}

/// The mathematical content of an [`Action`].
pub enum Outcome {
    Stay,
    Exit,
    ApplySolid(Seq<char>),
    ApplyGradient(Seq<Seq<char>>),
}

pub open spec fn outcome(a: Action) -> Outcome {
    match a {
        Action::Stay => Outcome::Stay,
        Action::Exit => Outcome::Exit,
        Action::ApplySolid(s) => Outcome::ApplySolid(s@),
        Action::ApplyGradient(v) => Outcome::ApplyGradient(v@.map_values(|s: String| s@)),
    }
}

/// Whether a notice reports a failure (shown in red) rather than a success.
pub open spec fn notice_is_error(n: Notice) -> bool {
    !(n is ColorApplied || n is GradientApplied)
}

impl Notice {
    /// Whether the notice reports a failure.
    pub fn is_error(&self) -> (b: bool)
        ensures
            b == notice_is_error(*self),
    {
        match self {
            Notice::ColorApplied => false,
            Notice::GradientApplied => false,
            _ => true,
        }
    }
}

/// The length in bytes of the UTF-8 text `s` (`str::len`).
pub open spec fn byte_len(s: Seq<char>) -> nat {
    encode_utf8(s).len()
}

/// Whether a typed colour has the shape `#` followed by six more bytes.
pub open spec fn hex_shape(s: Seq<char>) -> bool {
    &&& s.len() > 0
    &&& s[0] == '#'
    &&& byte_len(s) == 7
}

/// Whether a typed colour is a valid hex colour `#rrggbb`.
pub open spec fn valid_hex_input(s: Seq<char>) -> bool {
    hex_shape(s) && hex_color(encode_utf8(s)) is Some
}

/// Every colour written as `#rrggbb`, in lower or upper case, is a valid typed colour.
pub proof fn lemma_hex_notation_valid(c: Rgb, upper: bool)
    ensures
        valid_hex_input(hex_notation(c, upper)),
        hex_color(encode_utf8(hex_notation(c, upper))) == Some(c),
{
    lemma_hex_notation_reads_back(c, upper);
}

/// A UTF-8 text has at least as many bytes as characters.
pub proof fn lemma_byte_len_at_least_chars(s: Seq<char>)
    ensures
        byte_len(s) >= s.len(),
    decreases s.len(),
{
    if s.len() > 0 {
        lemma_byte_len_at_least_chars(s.drop_first());
    }
}

/// Calls `String::pop`, which std documents as removing the last character and
/// returning it, or returning `None` when the string is empty; the contract
/// states exactly that over the string's characters.
#[verifier::external_body]
pub(crate) fn pop_char_from(s: &mut String) -> (r: Option<char>)
    ensures
        old(s)@.len() == 0 ==> r is None && final(s)@ == old(s)@,
        old(s)@.len() > 0 ==> r == Some(old(s)@.last()) && final(s)@ == old(s)@.drop_last(),
{
    s.pop()
}

/// The length in bytes of `s`.
pub fn text_byte_len(s: &String) -> (n: usize)
    ensures
        n == byte_len(s@),
{
    s.as_str().as_bytes().len()
}

/// Whether `s` has the shape `#` followed by six more bytes.
pub fn has_hex_shape(s: &String) -> (b: bool)
    ensures
        b == hex_shape(s@),
{
    let t = s.as_str();
    !t.is_empty() && t.get_char(0) == '#' && t.as_bytes().len() == 7
}

/// The colour that a typed text names, when it has the shape `#` and six more bytes.
pub fn input_color(s: &String) -> (r: Option<Rgb>)
    ensures
        r is Some <==> valid_hex_input(s@),
        r matches Some(c) ==> hex_color(encode_utf8(s@)) == Some(c),
{
    if has_hex_shape(s) {
        parse_hex_color(s.as_str())
    } else {
        None
    }
}

} // verus!
