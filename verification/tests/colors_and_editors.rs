use bloocava::color::{parse_hex_color, Rgb};
use bloocava::editor::{has_hex_shape, input_color, Action, Key, Notice};
use bloocava::gradient::{ColorSlot, GradientEditor};
use bloocava::menu::{Lang, MainMenu, MenuAction};
use bloocava::solid::SolidEditor;

#[test]
fn parses_hex_colors() {
    assert_eq!(parse_hex_color("#ff0000"), Some(Rgb { r: 255, g: 0, b: 0 }));
    assert_eq!(parse_hex_color("#1A2b3C"), Some(Rgb { r: 0x1a, g: 0x2b, b: 0x3c }));
    assert_eq!(parse_hex_color("00ff7f"), Some(Rgb { r: 0, g: 255, b: 127 }));
    assert_eq!(parse_hex_color("###0000ff"), Some(Rgb { r: 0, g: 0, b: 255 }));
}

#[test]
fn rejects_bad_hex_colors() {
    assert_eq!(parse_hex_color("#gg0000"), None);
    assert_eq!(parse_hex_color("#ff00"), None);
    assert_eq!(parse_hex_color("#ff00000"), None);
    assert_eq!(parse_hex_color("#-10000"), None);
    assert_eq!(parse_hex_color("#+f+f+f"), None);
    assert_eq!(parse_hex_color("#+fffff"), None);
    assert_eq!(parse_hex_color("#éabcd"), None);
    assert_eq!(parse_hex_color("#aébcd"), None);
    assert_eq!(parse_hex_color("#00aéc"), None);
    assert_eq!(parse_hex_color(""), None);
}

#[test]
fn hex_shape_counts_bytes() {
    assert!(has_hex_shape(&"#ff0000".to_string()));
    assert!(has_hex_shape(&"#éabcd".to_string()));
    assert!(!has_hex_shape(&"ff00000".to_string()));
    assert!(!has_hex_shape(&"#ff000".to_string()));
    assert_eq!(input_color(&"#aébcd".to_string()), None);
    assert_eq!(input_color(&"#+f+f+f".to_string()), None);
    assert_eq!(input_color(&"ff0000".to_string()), None);
    assert_eq!(input_color(&"#0000ff".to_string()), Some(Rgb { r: 0, g: 0, b: 255 }));
}

fn type_text(e: &mut SolidEditor, s: &str) {
    for c in s.chars() {
        assert_eq!(e.handle_key(Key::Char(c)), Action::Stay);
    }
}

#[test]
fn solid_editor_applies_a_valid_color() {
    let mut e = SolidEditor::new();
    type_text(&mut e, "#ff0000xyz");
    assert_eq!(e.input(), "#ff0000");
    assert_eq!(e.cursor_pos(), 7);
    assert_eq!(e.handle_key(Key::Enter), Action::ApplySolid("#ff0000".to_string()));
    e.finish_write(Ok(()));
    assert_eq!(*e.notice(), Some(Notice::ColorApplied));
    e.finish_write(Err("disk full".to_string()));
    assert_eq!(*e.notice(), Some(Notice::WriteFailed("disk full".to_string())));
    assert!(e.notice().as_ref().unwrap().is_error());
    assert_eq!(e.handle_key(Key::Esc), Action::Exit);
}

#[test]
fn solid_editor_reports_bad_input() {
    let mut e = SolidEditor::new();
    type_text(&mut e, "#+f+f+f");
    assert_eq!(e.handle_key(Key::Enter), Action::Stay);
    assert_eq!(*e.notice(), Some(Notice::InvalidHex));
    e = SolidEditor::new();
    assert_eq!(e.handle_key(Key::Enter), Action::Stay);
    assert_eq!(*e.notice(), Some(Notice::InvalidFormat));
    type_text(&mut e, "#gg0000");
    assert_eq!(*e.notice(), None);
    assert_eq!(e.handle_key(Key::Enter), Action::Stay);
    assert_eq!(*e.notice(), Some(Notice::InvalidHex));
    assert_eq!(e.handle_key(Key::Backspace), Action::Stay);
    assert_eq!(e.input(), "#gg000");
    assert_eq!(e.cursor_pos(), 6);
    assert_eq!(*e.notice(), None);
}

#[test]
fn solid_editor_counts_bytes_but_moves_by_characters() {
    let mut e = SolidEditor::new();
    type_text(&mut e, "ééé");
    assert_eq!(e.input(), "ééé");
    assert_eq!(e.cursor_pos(), 3);
    type_text(&mut e, "éé");
    assert_eq!(e.input(), "éééé");
    assert_eq!(e.cursor_pos(), 4);
    e.handle_key(Key::Backspace);
    assert_eq!(e.input(), "ééé");
    e.handle_key(Key::Tab);
    e.handle_key(Key::Up);
    assert_eq!(e.input(), "ééé");
}

#[test]
fn type_then_erase_restores_the_input() {
    let mut e = SolidEditor::new();
    type_text(&mut e, "#12");
    e.handle_key(Key::Char('z'));
    e.handle_key(Key::Backspace);
    assert_eq!(e.input(), "#12");
    assert_eq!(e.cursor_pos(), 3);
}

#[test]
fn color_slot_starts_empty() {
    let s = ColorSlot::new();
    assert_eq!(s.value, "");
    assert_eq!(s.cursor_pos, 0);
}

fn type_slot(e: &mut GradientEditor, s: &str) {
    for c in s.chars() {
        e.handle_key(Key::Char(c));
    }
}

#[test]
fn gradient_editor_applies_valid_colors() {
    let mut e = GradientEditor::new();
    assert_eq!(e.selected_count(), 2);
    assert_eq!(e.colors().len(), 5);
    type_slot(&mut e, "#000000");
    e.handle_key(Key::Tab);
    assert_eq!(e.active_color(), 1);
    type_slot(&mut e, "#FFFFFF");
    assert_eq!(
        e.preview_colors(),
        vec![Rgb { r: 0, g: 0, b: 0 }, Rgb { r: 255, g: 255, b: 255 }]
    );
    assert_eq!(
        e.handle_key(Key::Enter),
        Action::ApplyGradient(vec!["#000000".to_string(), "#FFFFFF".to_string()])
    );
    e.finish_write(Ok(()));
    assert_eq!(*e.notice(), Some(Notice::GradientApplied));
    assert!(!e.notice().as_ref().unwrap().is_error());
}

#[test]
fn gradient_editor_points_at_the_first_invalid_color() {
    let mut e = GradientEditor::new();
    type_slot(&mut e, "#000000");
    e.handle_key(Key::Up);
    e.handle_key(Key::Up);
    assert_eq!(e.selected_count(), 4);
    e.handle_key(Key::Tab);
    e.handle_key(Key::Tab);
    type_slot(&mut e, "#123456");
    assert_eq!(e.active_color(), 2);
    assert_eq!(e.handle_key(Key::Enter), Action::Stay);
    assert_eq!(*e.notice(), Some(Notice::InvalidColor(2)));
    assert_eq!(e.active_color(), 1);
    assert_eq!(e.preview_colors().len(), 2);
}

#[test]
fn gradient_editor_keeps_two_to_five_colors() {
    let mut e = GradientEditor::new();
    e.handle_key(Key::Down);
    assert_eq!(e.selected_count(), 2);
    for _ in 0..5 {
        e.handle_key(Key::Up);
    }
    assert_eq!(e.selected_count(), 5);
    e.handle_key(Key::BackTab);
    assert_eq!(e.active_color(), 4);
    e.handle_key(Key::Down);
    assert_eq!(e.selected_count(), 4);
    assert_eq!(e.active_color(), 3);
    e.handle_key(Key::Tab);
    assert_eq!(e.active_color(), 0);
}

#[test]
fn gradient_editor_refuses_signed_pairs() {
    let mut e = GradientEditor::new();
    type_slot(&mut e, "#000000");
    e.handle_key(Key::Tab);
    type_slot(&mut e, "#+f+f+f");
    assert_eq!(e.handle_key(Key::Enter), Action::Stay);
    assert_eq!(*e.notice(), Some(Notice::InvalidColor(2)));
    assert_eq!(e.preview_colors().len(), 1);
}

#[test]
fn gradient_tab_then_back_tab() {
    let mut e = GradientEditor::new();
    e.handle_key(Key::Up);
    e.handle_key(Key::Tab);
    e.handle_key(Key::Tab);
    e.handle_key(Key::BackTab);
    assert_eq!(e.active_color(), 1);
}

#[test]
fn main_menu_moves_round_and_switches_language() {
    let mut m = MainMenu::new();
    assert_eq!(m.lang(), Lang::Es);
    assert_eq!(m.handle_key(Key::Up), MenuAction::Stay);
    assert_eq!(m.selected(), 1);
    m.handle_key(Key::Down);
    assert_eq!(m.selected(), 0);
    m.handle_key(Key::Down);
    assert_eq!(m.handle_key(Key::Enter), MenuAction::OpenGradient);
    m.handle_key(Key::Char('2'));
    assert_eq!((m.selected(), m.lang()), (0, Lang::En));
    assert_eq!(m.handle_key(Key::Enter), MenuAction::OpenSolid);
    m.handle_key(Key::Char('x'));
    assert_eq!(m.lang(), Lang::En);
    m.handle_key(Key::Char('1'));
    assert_eq!(m.lang(), Lang::Es);
    assert_eq!(m.handle_key(Key::Esc), MenuAction::Exit);
}

#[test]
fn tab_then_back_tab_changes_no_write() {
    let mut e = GradientEditor::new();
    type_slot(&mut e, "#000000");
    e.handle_key(Key::Tab);
    type_slot(&mut e, "#ffffff");
    e.handle_key(Key::Tab);
    e.handle_key(Key::BackTab);
    assert_eq!(e.active_color(), 1);
    match e.handle_key(Key::Enter) {
        Action::ApplyGradient(v) => assert_eq!(v, vec!["#000000".to_string(), "#ffffff".to_string()]),
        other => panic!("unexpected {:?}", other),
    }
}

#[test]
fn written_hex_colors_read_back() {
    for r in 0..=255u8 {
        let g = r.wrapping_mul(7).wrapping_add(3);
        let b = 255 - r;
        let want = Some(Rgb { r, g, b });
        assert_eq!(parse_hex_color(&format!("#{:02x}{:02x}{:02x}", r, g, b)), want);
        assert_eq!(parse_hex_color(&format!("#{:02X}{:02X}{:02X}", r, g, b)), want);
    }
}
