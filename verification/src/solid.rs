//! The solid colour editor: one typed hex colour, applied on Enter.

use vstd::prelude::*;
use vstd::utf8::encode_utf8;
use crate::color::{hex_color, hex_notation, Rgb};
use crate::text::push_char;
use crate::editor::{
    byte_len, has_hex_shape, hex_shape, input_color, lemma_byte_len_at_least_chars,
    lemma_hex_notation_valid, notice_is_error, valid_hex_input,
    outcome, pop_char_from, text_byte_len, Action, Key, Notice, Outcome,
};

verus! {

/// The state of the solid colour editor.
pub struct SolidEditor {
    input: String,
    cursor_pos: usize,
    notice: Option<Notice>,
}

/// The mathematical content of a [`SolidEditor`].
pub struct SolidView {
    pub input: Seq<char>,
    pub cursor_pos: int,
    pub notice: Option<Notice>,
}

impl View for SolidEditor {
    type V = SolidView;

    closed spec fn view(&self) -> SolidView {
        SolidView { input: self.input@, cursor_pos: self.cursor_pos as int, notice: self.notice }
    }
}

/// The editor's invariant: the cursor stands after the last typed character,
/// and at most seven characters are typed.
pub open spec fn solid_wf(s: SolidView) -> bool {
    s.cursor_pos == s.input.len() && s.input.len() <= 7
}

/// What a key does to the solid colour editor, and what the loop around it then does.
pub open spec fn solid_step(s: SolidView, key: Key) -> (SolidView, Outcome) {
    match key {
        Key::Esc => (s, Outcome::Exit),
        Key::Enter => if !hex_shape(s.input) {
            (SolidView { notice: Some(Notice::InvalidFormat), ..s }, Outcome::Stay)
        } else if hex_color(encode_utf8(s.input)) is None {
            (SolidView { notice: Some(Notice::InvalidHex), ..s }, Outcome::Stay)
        } else {
            (s, Outcome::ApplySolid(s.input))
        },
        Key::Backspace => if s.cursor_pos > 0 {
            (
                SolidView { input: s.input.drop_last(), cursor_pos: s.cursor_pos - 1, notice: None },
                Outcome::Stay,
            )
        } else {
            (s, Outcome::Stay)
        },
        Key::Char(c) => if byte_len(s.input) < 7 {
            (
                SolidView { input: s.input.push(c), cursor_pos: s.cursor_pos + 1, notice: None },
                Outcome::Stay,
            )
        } else {
            (s, Outcome::Stay)
        },
        _ => (s, Outcome::Stay),
    }
}

impl SolidEditor {
    /// Every editor is well formed.
    #[verifier::type_invariant]
    spec fn well_formed(self) -> bool {
        solid_wf(self@)
    }

    /// The colour typed so far.
    pub fn input(&self) -> (r: &String)
        ensures
            r@ == self@.input,
    {
        &self.input
    }

    /// Where the cursor stands in the typed colour, in characters.
    pub fn cursor_pos(&self) -> (r: usize)
        ensures
            r == self@.cursor_pos,
    {
        self.cursor_pos
    }

    /// The notice shown under the input, if any.
    pub fn notice(&self) -> (r: &Option<Notice>)
        ensures
            *r == self@.notice,
    {
        &self.notice
    }

    /// An editor with nothing typed.
    pub fn new() -> (e: Self)
        ensures
            e@ == (SolidView { input: seq![], cursor_pos: 0, notice: None }),
            solid_wf(e@),
    {
        SolidEditor { input: String::new(), cursor_pos: 0, notice: None }
    }

    /// Reacts to `key`: Esc leaves, Enter checks the colour and asks for it to
    /// be written, Backspace removes the last character, a character is added
    /// while the input is shorter than seven bytes.
    pub fn handle_key(&mut self, key: Key) -> (a: Action)
        ensures
            solid_wf(old(self)@),
            solid_wf(final(self)@),
            (final(self)@, outcome(a)) == solid_step(old(self)@, key),
    {
        proof {
            use_type_invariant(&*self);
        }
        match key {
            Key::Esc => Action::Exit,
            Key::Enter => {
                if !has_hex_shape(&self.input) {
                    self.notice = Some(Notice::InvalidFormat);
                    Action::Stay
                } else if input_color(&self.input).is_none() {
                    self.notice = Some(Notice::InvalidHex);
                    Action::Stay
                } else {
                    Action::ApplySolid(self.input.clone())
                }
            },
            Key::Backspace => {
                if self.cursor_pos > 0 {
                    let mut input = self.input.clone();
                    pop_char_from(&mut input);
                    *self = SolidEditor { input, cursor_pos: self.cursor_pos - 1, notice: None };
                }
                Action::Stay
            },
            Key::Char(c) => {
                if text_byte_len(&self.input) < 7 {
                    proof {
                        lemma_byte_len_at_least_chars(self.input@);
                    }
                    let mut input = self.input.clone();
                    push_char(&mut input, c);
                    *self = SolidEditor { input, cursor_pos: self.cursor_pos + 1, notice: None };
                }
                Action::Stay
            },
            _ => Action::Stay,
        }
    }

    /// Records how writing the colour went: success, or the failure's message.
    pub fn finish_write(&mut self, result: Result<(), String>)
        ensures
            final(self)@.input == old(self)@.input,
            final(self)@.cursor_pos == old(self)@.cursor_pos,
            final(self)@.notice == (match result {
                Ok(()) => Some(Notice::ColorApplied),
                Err(e) => Some(Notice::WriteFailed(e)),
            }),
    {
        proof {
            use_type_invariant(&*self);
        }
        self.notice = match result {
            Ok(()) => Some(Notice::ColorApplied),
            Err(e) => Some(Notice::WriteFailed(e)),
        };
    }
}

/// Typing a character and then erasing it leaves the typed colour as it was
/// (with the notice cleared), while it is shorter than seven bytes.
pub proof fn lemma_type_then_erase(s: SolidView, c: char)
    requires
        solid_wf(s),
        byte_len(s.input) < 7,
    ensures
        solid_step(solid_step(s, Key::Char(c)).0, Key::Backspace).0 == (SolidView { notice: None, ..s }),
{
    assert(s.input.push(c).drop_last() =~= s.input);
}


/// Enter asks for the typed colour to be written exactly when it is a valid
/// `#rrggbb`, and then for that colour as typed, with the editor unchanged;
/// otherwise it writes nothing, keeps the typed colour and shows an error.
pub proof fn lemma_enter_applies_valid_color(s: SolidView)
    ensures
        valid_hex_input(s.input) ==> solid_step(s, Key::Enter) == (s, Outcome::ApplySolid(s.input)),
        !valid_hex_input(s.input) ==> {
            &&& solid_step(s, Key::Enter).1 == Outcome::Stay
            &&& solid_step(s, Key::Enter).0.input == s.input
            &&& solid_step(s, Key::Enter).0.notice matches Some(n) && notice_is_error(n)
        },
{
}

/// Whatever colour is typed as `#rrggbb`, in lower or upper case, Enter asks
/// for exactly it to be written.
pub proof fn lemma_enter_applies_any_color(s: SolidView, c: Rgb, upper: bool)
    requires
        s.input == hex_notation(c, upper),
    ensures
        solid_step(s, Key::Enter).1 == Outcome::ApplySolid(hex_notation(c, upper)),
{
    lemma_hex_notation_valid(c, upper);
}

} // verus!
