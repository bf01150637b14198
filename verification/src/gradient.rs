//! The gradient editor: two to five typed hex colours, applied together on Enter.

use vstd::prelude::*;
use vstd::utf8::encode_utf8;
use crate::color::{hex_color, hex_notation, Rgb};
use crate::text::push_char;
use crate::editor::{
    byte_len, input_color,
    lemma_byte_len_at_least_chars, lemma_hex_notation_valid, outcome, pop_char_from, text_byte_len, valid_hex_input, Action,
    Key, Notice, Outcome,
};

verus! {

/// One colour of the gradient as typed so far.
#[derive(Debug, Clone, PartialEq, Eq)]
pub struct ColorSlot {
    /// The colour typed so far.
    pub value: String,
    /// Where the cursor stands in `value`, in characters.
    pub cursor_pos: usize,
}

/// The mathematical content of a [`ColorSlot`].
pub struct SlotView {
    pub value: Seq<char>,
    pub cursor_pos: int,
}

impl View for ColorSlot {
    type V = SlotView;

    open spec fn view(&self) -> SlotView {
        SlotView { value: self.value@, cursor_pos: self.cursor_pos as int }
    }
}

impl ColorSlot {
    /// An empty slot.
    pub fn new() -> (s: Self)
        ensures
            s@ == (SlotView { value: seq![], cursor_pos: 0 }),
    {
        ColorSlot { value: String::new(), cursor_pos: 0 }
    }
}

/// A slot's invariant: the cursor stands after the last typed character, and
/// at most seven characters are typed.
pub open spec fn slot_wf(s: SlotView) -> bool {
    s.cursor_pos == s.value.len() && s.value.len() <= 7
}

/// The largest number of gradient colours.
pub open spec fn max_colors() -> int {
    5
}

/// The state of the gradient editor.
pub struct GradientEditor {
    selected_count: usize,
    colors: Vec<ColorSlot>,
    active_color: usize,
    notice: Option<Notice>,
}

/// The mathematical content of a [`GradientEditor`].
pub struct GradientView {
    pub selected_count: int,
    pub slots: Seq<SlotView>,
    pub active_color: int,
    pub notice: Option<Notice>,
}

impl View for GradientEditor {
    type V = GradientView;

    closed spec fn view(&self) -> GradientView {
        GradientView {
            selected_count: self.selected_count as int,
            slots: self.colors@.map_values(|s: ColorSlot| s@),
            active_color: self.active_color as int,
            notice: self.notice,
        }
    }
}

/// The editor's invariant: five slots, two to five of them in use, the active
/// one among them, and every slot well formed.
pub open spec fn gradient_wf(g: GradientView) -> bool {
    &&& g.slots.len() == max_colors()
    &&& 2 <= g.selected_count <= max_colors()
    &&& 0 <= g.active_color < g.selected_count
    &&& forall|i: int| 0 <= i < g.slots.len() ==> slot_wf(#[trigger] g.slots[i])
}

/// Whether, of the first `n` slots, those before `i` all hold valid colours and
/// slot `i` does not.
pub open spec fn first_invalid_at(n: int, slots: Seq<SlotView>, i: int) -> bool {
    &&& 0 <= i < n
    &&& !valid_hex_input(slots[i].value)
    &&& forall|j: int| 0 <= j < i ==> valid_hex_input(#[trigger] slots[j].value)
}

/// The colours of the slots in use.
pub open spec fn gradient_values(g: GradientView) -> Seq<Seq<char>> {
    g.slots.take(g.selected_count).map_values(|s: SlotView| s.value)
}

/// The gradient with the active slot replaced by `s`.
pub open spec fn with_active_slot(g: GradientView, s: SlotView) -> GradientView {
    GradientView {
        selected_count: g.selected_count,
        slots: g.slots.update(g.active_color, s),
        active_color: g.active_color,
        notice: None,
    }
}

/// What a key does to the gradient editor, and what the loop around it then does.
pub open spec fn gradient_step(g: GradientView, key: Key) -> (GradientView, Outcome) {
    let n = g.selected_count;
    let a = g.active_color;
    let slot = g.slots[a];
    match key {
        Key::Esc => (g, Outcome::Exit),
        Key::Tab => (GradientView { active_color: (a + 1) % n, notice: None, ..g }, Outcome::Stay),
        Key::BackTab => (
            GradientView { active_color: if a == 0 { n - 1 } else { a - 1 }, notice: None, ..g },
            Outcome::Stay,
        ),
        Key::Up => if n < max_colors() {
            (GradientView { selected_count: n + 1, notice: None, ..g }, Outcome::Stay)
        } else {
            (g, Outcome::Stay)
        },
        Key::Down => if n > 2 {
            (
                GradientView {
                    selected_count: n - 1,
                    active_color: if a >= n - 1 { n - 2 } else { a },
                    notice: None,
                    ..g
                },
                Outcome::Stay,
            )
        } else {
            (g, Outcome::Stay)
        },
        Key::Enter => if exists|i: int| first_invalid_at(g.selected_count, g.slots, i) {
            let i = choose|i: int| first_invalid_at(g.selected_count, g.slots, i);
            (
                GradientView { active_color: i, notice: Some(Notice::InvalidColor((i + 1) as usize)), ..g },
                Outcome::Stay,
            )
        } else {
            (g, Outcome::ApplyGradient(gradient_values(g)))
        },
        Key::Backspace => if slot.cursor_pos > 0 {
            (
                with_active_slot(g, SlotView { value: slot.value.drop_last(), cursor_pos: slot.cursor_pos - 1 }),
                Outcome::Stay,
            )
        } else {
            (g, Outcome::Stay)
        },
        Key::Char(c) => if byte_len(slot.value) < 7 {
            (
                with_active_slot(g, SlotView { value: slot.value.push(c), cursor_pos: slot.cursor_pos + 1 }),
                Outcome::Stay,
            )
        } else {
            (g, Outcome::Stay)
        },
        Key::Other => (g, Outcome::Stay),
    }
}

/// The colours of the slots `slots` that hold a valid colour, in order: what
/// the preview is drawn from.
pub open spec fn valid_colors(slots: Seq<SlotView>) -> Seq<Rgb>
    decreases slots.len(),
{
    if slots.len() == 0 {
        seq![]
    } else {
        let rest = valid_colors(slots.drop_last());
        let v = slots.last().value;
        if valid_hex_input(v) {
            rest.push(hex_color(encode_utf8(v))->0)
        } else {
            rest
        }
    }
}

/// The slots `colors` with slot `a` replaced by `slot`.
fn with_slot(colors: &Vec<ColorSlot>, a: usize, slot: ColorSlot) -> (r: Vec<ColorSlot>)
    requires
        a < colors@.len(),
    ensures
        r@.map_values(|s: ColorSlot| s@) == colors@.map_values(|s: ColorSlot| s@).update(a as int, slot@),
{
    let mut r: Vec<ColorSlot> = Vec::new();
    let mut i: usize = 0;
    while i < colors.len()
        invariant
            a < colors@.len(),
            i <= colors@.len(),
            r@.len() == i,
            forall|j: int| 0 <= j < i ==> (#[trigger] r@[j])@ == (if j == a { slot@ } else { colors@[j]@ }),
        decreases colors.len() - i,
    {
        let source = if i == a { &slot } else { &colors[i] };
        r.push(ColorSlot { value: source.value.clone(), cursor_pos: source.cursor_pos });
        i = i + 1;
    }
    assert(r@.map_values(|s: ColorSlot| s@) =~= colors@.map_values(|s: ColorSlot| s@).update(a as int, slot@));
    r
}

impl GradientEditor {
    /// Every editor is well formed.
    #[verifier::type_invariant]
    spec fn well_formed(self) -> bool {
        gradient_wf(self@)
    }

    /// How many colours the gradient has (two to five).
    pub fn selected_count(&self) -> (r: usize)
        ensures
            r == self@.selected_count,
    {
        self.selected_count
    }

    /// The five slots, of which the first `selected_count` are in use.
    pub fn colors(&self) -> (r: &Vec<ColorSlot>)
        ensures
            r@.map_values(|s: ColorSlot| s@) == self@.slots,
    {
        &self.colors
    }

    /// The slot that takes the typed characters.
    pub fn active_color(&self) -> (r: usize)
        ensures
            r == self@.active_color,
    {
        self.active_color
    }

    /// The notice shown under the preview, if any.
    pub fn notice(&self) -> (r: &Option<Notice>)
        ensures
            *r == self@.notice,
    {
        &self.notice
    }

    /// An editor for two colours, both empty, the first one active.
    pub fn new() -> (e: Self)
        ensures
            gradient_wf(e@),
            e@.selected_count == 2,
            e@.active_color == 0,
            e@.notice is None,
            forall|i: int| 0 <= i < max_colors() ==> (#[trigger] e@.slots[i]) == (SlotView { value: seq![], cursor_pos: 0 }),
    {
        let mut colors: Vec<ColorSlot> = Vec::new();
        let mut k: usize = 0;
        while k < 5
            invariant
                k <= 5,
                colors@.len() == k,
                forall|i: int| 0 <= i < k ==> (#[trigger] colors@[i])@ == (SlotView { value: seq![], cursor_pos: 0 }),
            decreases 5 - k,
        {
            colors.push(ColorSlot::new());
            k = k + 1;
        }
        GradientEditor { selected_count: 2, colors, active_color: 0, notice: None }
    }

    /// Reacts to `key`: Esc leaves; Tab and Shift-Tab move to the next and previous
    /// colour; Up and Down add and remove a colour (two to five); Enter checks the
    /// colours and asks for them to be written, or points at the first invalid
    /// one; Backspace and characters edit the active colour (at most seven bytes).
    pub fn handle_key(&mut self, key: Key) -> (a: Action)
        ensures
            gradient_wf(old(self)@),
            gradient_wf(final(self)@),
            (final(self)@, outcome(a)) == gradient_step(old(self)@, key),
    {
        proof {
            use_type_invariant(&*self);
        }
        let ghost g = self@;
        let n = self.selected_count;
        let a = self.active_color;
        match key {
            Key::Esc => Action::Exit,
            Key::Tab => {
                self.active_color = (a + 1) % n;
                self.notice = None;
                Action::Stay
            },
            Key::BackTab => {
                self.active_color = if a == 0 { n - 1 } else { a - 1 };
                self.notice = None;
                Action::Stay
            },
            Key::Up => {
                if n < 5 {
                    self.selected_count = n + 1;
                    self.notice = None;
                }
                Action::Stay
            },
            Key::Down => {
                if n > 2 {
                    if a >= n - 1 {
                        self.active_color = n - 2;
                    }
                    self.selected_count = n - 1;
                    self.notice = None;
                }
                Action::Stay
            },
            Key::Enter => self.enter(),
            Key::Backspace => {
                assert(slot_wf(g.slots[a as int]));
                assert(g.slots[a as int] == self.colors@[a as int]@);
                let slot = &self.colors[a];
                if slot.cursor_pos > 0 {
                    let mut value = slot.value.clone();
                    let pos = slot.cursor_pos;
                    pop_char_from(&mut value);
                    self.colors = with_slot(&self.colors, a, ColorSlot { value, cursor_pos: pos - 1 });
                    self.notice = None;
                    assert(self@.slots =~= g.slots.update(a as int, SlotView { value: g.slots[a as int].value.drop_last(), cursor_pos: g.slots[a as int].cursor_pos - 1 }));
                }
                Action::Stay
            },
            Key::Char(c) => {
                assert(slot_wf(g.slots[a as int]));
                assert(g.slots[a as int] == self.colors@[a as int]@);
                let slot = &self.colors[a];
                if text_byte_len(&slot.value) < 7 {
                    proof {
                        lemma_byte_len_at_least_chars(slot.value@);
                    }
                    let mut value = slot.value.clone();
                    let pos = slot.cursor_pos;
                    push_char(&mut value, c);
                    self.colors = with_slot(&self.colors, a, ColorSlot { value, cursor_pos: pos + 1 });
                    self.notice = None;
                    assert(self@.slots =~= g.slots.update(a as int, SlotView { value: g.slots[a as int].value.push(c), cursor_pos: g.slots[a as int].cursor_pos + 1 }));
                }
                Action::Stay
            },
            Key::Other => Action::Stay,
        }
    }

    fn enter(&mut self) -> (a: Action)
        ensures
            gradient_wf(final(self)@),
            (final(self)@, outcome(a)) == gradient_step(old(self)@, Key::Enter),
    {
        proof {
            use_type_invariant(&*self);
        }
        let ghost g = self@;
        let n = self.selected_count;
        let mut i: usize = 0;
        while i < n
            invariant
                self@ == g,
                g == old(self)@,
                gradient_wf(g),
                n == g.selected_count,
                i <= n,
                forall|j: int| 0 <= j < i ==> valid_hex_input(#[trigger] g.slots[j].value),
            decreases n - i,
        {
            assert(g.slots[i as int] == self.colors@[i as int]@);
            let ok = input_color(&self.colors[i].value).is_some();
            if !ok {
                assert(first_invalid_at(g.selected_count, g.slots, i as int));
                let ghost w = choose|w: int| first_invalid_at(g.selected_count, g.slots, w);
                assert(w == i) by {
                    if w < i {
                        assert(valid_hex_input(g.slots[w].value));
                    }
                    if i < w {
                        assert(valid_hex_input(g.slots[i as int].value));
                    }
                }
                self.active_color = i;
                self.notice = Some(Notice::InvalidColor(i + 1));
                assert(self@.slots =~= g.slots);
                assert(self@ == (GradientView {
                    active_color: i as int,
                    notice: Some(Notice::InvalidColor((i + 1) as usize)),
                    ..g
                }));
                assert(exists|k: int| first_invalid_at(g.selected_count, g.slots, k));
                return Action::Stay;
            }
            i = i + 1;
        }
        assert(!exists|k: int| first_invalid_at(g.selected_count, g.slots, k));
        let mut values: Vec<String> = Vec::new();
        let mut k: usize = 0;
        while k < n
            invariant
                self@ == g,
                g == old(self)@,
                gradient_wf(g),
                n == g.selected_count,
                k <= n,
                values@.len() == k,
                values@.map_values(|s: String| s@) == gradient_values(g).take(k as int),
            decreases n - k,
        {
            assert(g.slots[k as int] == self.colors@[k as int]@);
            let ghost before = values@;
            values.push(self.colors[k].value.clone());
            assert(values@ == before.push(values@[k as int]));
            assert(values@[k as int]@ == g.slots[k as int].value);
            assert(gradient_values(g).take(k + 1) =~= gradient_values(g).take(k as int).push(g.slots[k as int].value));
            assert(values@.map_values(|s: String| s@) =~= gradient_values(g).take(k + 1));
            k = k + 1;
        }
        assert(gradient_values(g).take(n as int) =~= gradient_values(g));
        Action::ApplyGradient(values)
    }

    /// The colours of the slots in use that hold a valid colour, in order; the
    /// preview is drawn when there is one for every slot in use.
    pub fn preview_colors(&self) -> (r: Vec<Rgb>)
        ensures
            r@ == valid_colors(self@.slots.take(self@.selected_count)),
    {
        proof {
            use_type_invariant(self);
        }
        let ghost g = self@;
        let n = self.selected_count;
        let mut r: Vec<Rgb> = Vec::new();
        let mut i: usize = 0;
        while i < n
            invariant
                self@ == g,
                gradient_wf(g),
                n == g.selected_count,
                i <= n,
                r@ == valid_colors(g.slots.take(i as int)),
            decreases n - i,
        {
            assert(g.slots[i as int] == self.colors@[i as int]@);
            assert(g.slots.take(i + 1).drop_last() =~= g.slots.take(i as int));
            if let Some(c) = input_color(&self.colors[i].value) {
                r.push(c);
            }
            i = i + 1;
        }
        r
    }

    /// Records how writing the gradient went: success, or the failure's message.
    pub fn finish_write(&mut self, result: Result<(), String>)
        ensures
            gradient_wf(final(self)@),
            final(self)@.selected_count == old(self)@.selected_count,
            final(self)@.slots == old(self)@.slots,
            final(self)@.active_color == old(self)@.active_color,
            final(self)@.notice == (match result {
                Ok(()) => Some(Notice::GradientApplied),
                Err(e) => Some(Notice::WriteFailed(e)),
            }),
    {
        proof {
            use_type_invariant(&*self);
        }
        self.notice = match result {
            Ok(()) => Some(Notice::GradientApplied),
            Err(e) => Some(Notice::WriteFailed(e)),
        };
    }
}

/// Tab and then Shift-Tab, or Shift-Tab and then Tab, return to the colour
/// that was active (and clear the notice).
pub proof fn lemma_tab_back_tab(g: GradientView)
    requires
        gradient_wf(g),
    ensures
        gradient_step(gradient_step(g, Key::Tab).0, Key::BackTab).0 == (GradientView { notice: None, ..g }),
        gradient_step(gradient_step(g, Key::BackTab).0, Key::Tab).0 == (GradientView { notice: None, ..g }),
{
    let n = g.selected_count;
    let a = g.active_color;
    assert((a + 1) % n == if a + 1 == n { 0 } else { a + 1 }) by (nonlinear_arith)
        requires
            0 <= a < n,
    ;
    let b = if a == 0 { n - 1 } else { a - 1 };
    assert((b + 1) % n == a) by (nonlinear_arith)
        requires
            0 <= a < n,
            b == if a == 0 { n - 1 } else { a - 1 },
    ;
}

/// Adding a colour and then removing one returns to the gradient it started from
/// (with the notice cleared), while there is room for another colour.
pub proof fn lemma_add_remove_color(g: GradientView)
    requires
        gradient_wf(g),
        g.selected_count < max_colors(),
    ensures
        gradient_step(gradient_step(g, Key::Up).0, Key::Down).0 == (GradientView { notice: None, ..g }),
{
}

/// Typing a character and then erasing it leaves the active colour as it was
/// (with the notice cleared), while the colour is shorter than seven bytes.
pub proof fn lemma_type_then_erase(g: GradientView, c: char)
    requires
        gradient_wf(g),
        byte_len(g.slots[g.active_color].value) < 7,
    ensures
        gradient_step(gradient_step(g, Key::Char(c)).0, Key::Backspace).0 == (GradientView { notice: None, ..g }),
{
    let a = g.active_color;
    let s = g.slots[a];
    assert(slot_wf(s));
    let g1 = gradient_step(g, Key::Char(c)).0;
    assert(g1.slots[a] == (SlotView { value: s.value.push(c), cursor_pos: s.cursor_pos + 1 }));
    assert(s.value.push(c).drop_last() =~= s.value);
    assert(g1.slots.update(a, SlotView { value: s.value, cursor_pos: s.cursor_pos }) =~= g.slots);
}

/// Whether two gradient editor states differ at most in their notice.
pub open spec fn same_but_notice(g: GradientView, h: GradientView) -> bool {
    g.selected_count == h.selected_count && g.slots == h.slots && g.active_color == h.active_color
}

/// Every key keeps the gradient editor's invariant.
pub proof fn lemma_step_keeps_wf(g: GradientView, key: Key)
    requires
        gradient_wf(g),
    ensures
        gradient_wf(gradient_step(g, key).0),
{
    let n = g.selected_count;
    let a = g.active_color;
    let slot = g.slots[a];
    assert(slot_wf(slot));
    match key {
        Key::Tab => {
            assert(0 <= (a + 1) % n < n) by (nonlinear_arith)
                requires
                    0 <= a < n,
            ;
        },
        Key::Enter => {
            if exists|i: int| first_invalid_at(n, g.slots, i) {
                let i = choose|i: int| first_invalid_at(n, g.slots, i);
                assert(0 <= i < n);
            }
        },
        Key::Backspace => {
            if slot.cursor_pos > 0 {
                let g2 = gradient_step(g, key).0;
                assert forall|i: int| 0 <= i < g2.slots.len() implies slot_wf(#[trigger] g2.slots[i]) by {
                    if i != a {
                        assert(g2.slots[i] == g.slots[i]);
                    }
                }
            }
        },
        Key::Char(c) => {
            if byte_len(slot.value) < 7 {
                lemma_byte_len_at_least_chars(slot.value);
                let g2 = gradient_step(g, key).0;
                assert forall|i: int| 0 <= i < g2.slots.len() implies slot_wf(#[trigger] g2.slots[i]) by {
                    if i != a {
                        assert(g2.slots[i] == g.slots[i]);
                    }
                }
            }
        },
        _ => {},
    }
}

/// What a key does does not depend on the notice shown.
pub proof fn lemma_step_ignores_notice(g: GradientView, h: GradientView, key: Key)
    requires
        same_but_notice(g, h),
    ensures
        same_but_notice(gradient_step(g, key).0, gradient_step(h, key).0),
        gradient_step(g, key).1 == gradient_step(h, key).1,
{
    assert(gradient_values(g) == gradient_values(h));
}

/// The gradients that a run of keys asks to be written, from the state `g`, in
/// order, up to the first Esc. (Recording the outcome of a write changes only
/// the notice, which no key reads.)
pub open spec fn run_writes(g: GradientView, keys: Seq<Key>) -> Seq<Seq<Seq<char>>>
    decreases keys.len(),
{
    if keys.len() == 0 {
        seq![]
    } else {
        let (g2, o) = gradient_step(g, keys[0]);
        match o {
            Outcome::Exit => seq![],
            Outcome::ApplyGradient(v) => seq![v] + run_writes(g2, keys.drop_first()),
            _ => run_writes(g2, keys.drop_first()),
        }
    }
}

proof fn lemma_run_ignores_notice(g: GradientView, h: GradientView, keys: Seq<Key>)
    requires
        same_but_notice(g, h),
    ensures
        run_writes(g, keys) == run_writes(h, keys),
    decreases keys.len(),
{
    if keys.len() > 0 {
        lemma_step_ignores_notice(g, h, keys[0]);
        lemma_run_ignores_notice(gradient_step(g, keys[0]).0, gradient_step(h, keys[0]).0, keys.drop_first());
    }
}

/// Every gradient that a run of keys asks to be written has two to five
/// colours: those of the slots in use, in order.
pub proof fn lemma_run_writes_two_to_five(g: GradientView, keys: Seq<Key>)
    requires
        gradient_wf(g),
    ensures
        forall|k: int| 0 <= k < run_writes(g, keys).len() ==> 2 <= (#[trigger] run_writes(g, keys)[k]).len() <= 5,
    decreases keys.len(),
{
    if keys.len() > 0 {
        let (g2, o) = gradient_step(g, keys[0]);
        lemma_step_keeps_wf(g, keys[0]);
        lemma_run_writes_two_to_five(g2, keys.drop_first());
        if o is ApplyGradient {
            assert(gradient_values(g).len() == g.selected_count);
            let rest = run_writes(g2, keys.drop_first());
            assert forall|k: int| 0 <= k < run_writes(g, keys).len() implies 2 <= (#[trigger] run_writes(g, keys)[k]).len() <= 5 by {
                if k > 0 {
                    assert(run_writes(g, keys)[k] == rest[k - 1]);
                }
            }
        }
    }
}

/// Tab followed by Shift-Tab, put anywhere in a run of keys, changes none of
/// the gradients that the run asks to be written.
pub proof fn lemma_tab_back_tab_in_run(g: GradientView, keys: Seq<Key>, k: int)
    requires
        gradient_wf(g),
        0 <= k <= keys.len(),
    ensures
        run_writes(g, keys.take(k) + seq![Key::Tab, Key::BackTab] + keys.skip(k)) == run_writes(g, keys),
    decreases k,
{
    let with = keys.take(k) + seq![Key::Tab, Key::BackTab] + keys.skip(k);
    if k == 0 {
        assert(keys.take(0) + seq![Key::Tab, Key::BackTab] + keys.skip(0) =~= seq![Key::Tab, Key::BackTab] + keys);
        let g1 = gradient_step(g, Key::Tab).0;
        let g2 = gradient_step(g1, Key::BackTab).0;
        lemma_tab_back_tab(g);
        assert(with[0] == Key::Tab);
        assert(with.drop_first()[0] == Key::BackTab);
        assert(with.drop_first().drop_first() =~= keys);
        lemma_run_ignores_notice(g2, g, keys);
        assert(gradient_step(g, Key::Tab).1 == Outcome::Stay);
        assert(gradient_step(g1, Key::BackTab).1 == Outcome::Stay);
        assert(run_writes(g1, with.drop_first()) == run_writes(g2, with.drop_first().drop_first()));
        assert(run_writes(g, with) == run_writes(g1, with.drop_first()));
    } else {
        let (g1, o) = gradient_step(g, keys[0]);
        lemma_step_keeps_wf(g, keys[0]);
        assert(with[0] == keys[0]);
        let rest = keys.drop_first();
        assert(with.drop_first() =~= rest.take(k - 1) + seq![Key::Tab, Key::BackTab] + rest.skip(k - 1));
        lemma_tab_back_tab_in_run(g1, rest, k - 1);
        assert(run_writes(g1, with.drop_first()) == run_writes(g1, rest));
    }
}


/// When some colour in use is invalid, a first one is.
proof fn lemma_first_invalid_exists(n: int, slots: Seq<SlotView>, j: int)
    requires
        0 <= j < n,
        !valid_hex_input(slots[j].value),
    ensures
        exists|i: int| first_invalid_at(n, slots, i),
    decreases j,
{
    if forall|k: int| 0 <= k < j ==> valid_hex_input(#[trigger] slots[k].value) {
        assert(first_invalid_at(n, slots, j));
    } else {
        let k = choose|k: int| 0 <= k < j && !valid_hex_input(#[trigger] slots[k].value);
        lemma_first_invalid_exists(n, slots, k);
    }
}

/// Enter asks for a gradient to be written exactly when every colour in use is
/// a valid `#rrggbb`, and then for those colours, in order, with the editor
/// unchanged. Otherwise it writes nothing, keeps every colour, and makes the
/// first invalid colour the active one, naming it (counted from one) in the
/// notice.
pub proof fn lemma_enter_writes_only_valid_colors(g: GradientView)
    requires
        gradient_wf(g),
    ensures
        (gradient_step(g, Key::Enter).1 is ApplyGradient) <==> (forall|k: int|
            0 <= k < g.selected_count ==> valid_hex_input(#[trigger] g.slots[k].value)),
        gradient_step(g, Key::Enter).1 matches Outcome::ApplyGradient(v) ==> {
            &&& gradient_step(g, Key::Enter).0 == g
            &&& v.len() == g.selected_count
            &&& forall|k: int| 0 <= k < v.len() ==> #[trigger] v[k] == g.slots[k].value && valid_hex_input(v[k])
        },
        !(gradient_step(g, Key::Enter).1 is ApplyGradient) ==> {
            let h = gradient_step(g, Key::Enter).0;
            &&& gradient_step(g, Key::Enter).1 == Outcome::Stay
            &&& h.slots == g.slots
            &&& h.selected_count == g.selected_count
            &&& 0 <= h.active_color < g.selected_count
            &&& !valid_hex_input(g.slots[h.active_color].value)
            &&& forall|k: int| 0 <= k < h.active_color ==> valid_hex_input(#[trigger] g.slots[k].value)
            &&& h.notice == Some(Notice::InvalidColor((h.active_color + 1) as usize))
        },
{
    if exists|j: int| 0 <= j < g.selected_count && !valid_hex_input(#[trigger] g.slots[j].value) {
        let j = choose|j: int| 0 <= j < g.selected_count && !valid_hex_input(#[trigger] g.slots[j].value);
        lemma_first_invalid_exists(g.selected_count, g.slots, j);
    } else {
        assert(!exists|i: int| first_invalid_at(g.selected_count, g.slots, i));
        assert forall|k: int| 0 <= k < g.selected_count implies valid_hex_input(#[trigger] g.slots[k].value) by {
            if !valid_hex_input(g.slots[k].value) {
                assert(0 <= k < g.selected_count && !valid_hex_input(g.slots[k].value));
            }
        }
    }
}

/// When every colour in use is typed as `#rrggbb` (in lower or upper case),
/// Enter asks for exactly those colours to be written, in order.
pub proof fn lemma_enter_writes_typed_colors(g: GradientView, cs: Seq<Rgb>, upper: bool)
    requires
        gradient_wf(g),
        cs.len() == g.selected_count,
        forall|k: int| 0 <= k < cs.len() ==> (#[trigger] g.slots[k]).value == hex_notation(cs[k], upper),
    ensures
        gradient_step(g, Key::Enter).1 == Outcome::ApplyGradient(
            Seq::new(cs.len(), |k: int| hex_notation(cs[k], upper)),
        ),
{
    assert forall|k: int| 0 <= k < g.selected_count implies valid_hex_input(#[trigger] g.slots[k].value) by {
        lemma_hex_notation_valid(cs[k], upper);
    }
    lemma_enter_writes_only_valid_colors(g);
    assert(gradient_values(g) =~= Seq::new(cs.len(), |k: int| hex_notation(cs[k], upper)));
}

} // verus!
