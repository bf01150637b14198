//! The main menu: choose the solid or the gradient editor, and the language.

use vstd::prelude::*;
use crate::editor::Key;

verus! {

/// The language of the interface.
#[derive(Clone, Copy, Debug, PartialEq, Eq, Structural)]
pub enum Lang {
    Es,
    En,
}

/// What the loop around the main menu does after a key.
#[derive(Clone, Copy, Debug, PartialEq, Eq, Structural)]
pub enum MenuAction {
    /// Draw the menu again and wait for the next key.
    Stay,
    /// Leave the program.
    Exit,
    /// Open the solid colour editor.
    OpenSolid,
    /// Open the gradient editor.
    OpenGradient,
}

/// The state of the main menu.
#[derive(Clone, Copy, Debug, PartialEq, Eq, Structural)]
pub struct MainMenu {
    selected: usize,
    lang: Lang,
}

/// The mathematical content of a [`MainMenu`].
pub struct MenuView {
    /// The highlighted entry: 0 for solid, 1 for gradient.
    pub selected: int,
    /// The language of the interface.
    pub lang: Lang,
}

impl View for MainMenu {
    type V = MenuView;

    closed spec fn view(&self) -> MenuView {
        MenuView { selected: self.selected as int, lang: self.lang }
    }
}

/// The number of menu entries.
pub open spec fn menu_len() -> int {
    2
}

/// The menu's invariant: an entry is highlighted.
pub open spec fn menu_wf(m: MenuView) -> bool {
    0 <= m.selected < menu_len()
}

/// What a key does to the main menu, and what the loop around it then does.
pub open spec fn menu_step(m: MenuView, key: Key) -> (MenuView, MenuAction) {
    match key {
        Key::Esc => (m, MenuAction::Exit),
        Key::Up => (
            MenuView { selected: if m.selected == 0 { menu_len() - 1 } else { m.selected - 1 }, ..m },
            MenuAction::Stay,
        ),
        Key::Down => (MenuView { selected: (m.selected + 1) % menu_len(), ..m }, MenuAction::Stay),
        Key::Char(c) => if c == '1' {
            (MenuView { selected: 0, lang: Lang::Es }, MenuAction::Stay)
        } else if c == '2' {
            (MenuView { selected: 0, lang: Lang::En }, MenuAction::Stay)
        } else {
            (m, MenuAction::Stay)
        },
        Key::Enter => (m, if m.selected == 0 { MenuAction::OpenSolid } else { MenuAction::OpenGradient }),
        _ => (m, MenuAction::Stay),
    }
}

impl MainMenu {
    /// Every menu is well formed.
    #[verifier::type_invariant]
    spec fn well_formed(self) -> bool {
        menu_wf(self@)
    }

    /// The highlighted entry: 0 for solid, 1 for gradient.
    pub fn selected(&self) -> (r: usize)
        ensures
            r == self@.selected,
    {
        self.selected
    }

    /// The language of the interface.
    pub fn lang(&self) -> (r: Lang)
        ensures
            r == self@.lang,
    {
        self.lang
    }

    /// The menu as it starts: the solid entry highlighted, in Spanish.
    pub fn new() -> (m: Self)
        ensures
            m@ == (MenuView { selected: 0, lang: Lang::Es }),
            menu_wf(m@),
    {
        MainMenu { selected: 0, lang: Lang::Es }
    }

    /// Reacts to `key`: Esc leaves, Up and Down move the highlight round the
    /// entries, `1` and `2` pick Spanish and English, Enter opens the
    /// highlighted editor.
    pub fn handle_key(&mut self, key: Key) -> (a: MenuAction)
        ensures
            menu_wf(old(self)@),
            menu_wf(final(self)@),
            (final(self)@, a) == menu_step(old(self)@, key),
    {
        proof {
            use_type_invariant(&*self);
        }
        let len: usize = 2;
        match key {
            Key::Esc => MenuAction::Exit,
            Key::Up => {
                self.selected = if self.selected == 0 { len - 1 } else { self.selected - 1 };
                MenuAction::Stay
            },
            Key::Down => {
                self.selected = (self.selected + 1) % len;
                MenuAction::Stay
            },
            Key::Char(c) => {
                if c == '1' {
                    *self = MainMenu { selected: 0, lang: Lang::Es };
                } else if c == '2' {
                    *self = MainMenu { selected: 0, lang: Lang::En };
                }
                MenuAction::Stay
            },
            Key::Enter => {
                if self.selected == 0 {
                    MenuAction::OpenSolid
                } else {
                    MenuAction::OpenGradient
                }
            },
            _ => MenuAction::Stay,
        }
    }
}

/// Moving the highlight up and then down, or down and then up, returns to the
/// entry it started from.
pub proof fn lemma_menu_up_down(m: MenuView)
    requires
        menu_wf(m),
    ensures
        menu_step(menu_step(m, Key::Up).0, Key::Down).0 == m,
        menu_step(menu_step(m, Key::Down).0, Key::Up).0 == m,
{
}

} // verus!
