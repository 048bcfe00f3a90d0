use rode::tui::commands::{available_commands, CommandPopup};
use rode::tui::scroll::Scroll;
use rode::tui::{footer_text, input_height, input_title, KeyCode, KeyInput, TUICommand, TermEvent, Tui};

fn key(code: KeyCode) -> KeyInput {
    KeyInput { code, press: true, shift: false, alt: false, control: false }
}

#[test]
fn scroll_follows_end() {
    let mut s = Scroll::new();
    assert_eq!(s.update_scroll(50, 20), 30);
    assert_eq!(s.update_scroll(10, 20), 0);
    s.scroll_down();
    assert_eq!(s.update_scroll(50, 20), 30);
}

#[test]
fn scroll_up_stops_following() {
    let mut s = Scroll::new();
    assert_eq!(s.update_scroll(50, 20), 30);
    s.scroll_up();
    assert_eq!(s.update_scroll(60, 20), 29);
    s.scroll_down();
    s.scroll_down();
    assert_eq!(s.update_scroll(60, 20), 31);
    s.scroll_to_end();
    assert_eq!(s.update_scroll(60, 20), 40);
    s.set_auto(false);
    s.reset();
    assert_eq!(s.update_scroll(60, 20), 40);
}

#[test]
fn scroll_counts_lines_modulo_u16() {
    let mut s = Scroll::new();
    assert_eq!(s.update_scroll(65536 + 30, 20), 10);
}

#[test]
fn commands_listed_in_order() {
    let names: Vec<&str> = available_commands().iter().map(|c| c.name).collect();
    assert_eq!(names, vec!["clear", "save", "load", "sessions"]);
    assert_eq!(available_commands()[1].description, "save session: /save <name>");
}

#[test]
fn popup_filters_by_prefix() {
    let p = CommandPopup::new();
    let names = |input: &str| -> Vec<&'static str> { p.filtered(input).iter().map(|c| c.name).collect() };
    assert_eq!(names("/s"), vec!["save", "sessions"]);
    assert_eq!(names("/"), vec!["clear", "save", "load", "sessions"]);
    assert_eq!(names("/lo\nmore"), vec!["load"]);
    assert_eq!(names("/x"), Vec::<&str>::new());
    assert_eq!(names("save"), vec!["clear", "save", "load", "sessions"]);
}

#[test]
fn popup_selection_moves() {
    let mut p = CommandPopup::new();
    p.move_down(2);
    p.move_down(2);
    assert_eq!(p.selected_index(), 1);
    p.move_up();
    p.move_up();
    assert_eq!(p.selected_index(), 0);
    p.move_down(3);
    p.move_down(3);
    p.clamp(1);
    assert_eq!(p.selected_index(), 0);
    p.move_down(3);
    p.clamp(0);
    assert_eq!(p.selected_index(), 0);
    p.move_down(3);
    p.reset();
    assert_eq!(p.selected_index(), 0);
}

#[test]
fn enter_submits_trimmed_text() {
    let mut t = Tui::new();
    for c in "  hi there ".chars() {
        assert!(t.handle_key(key(KeyCode::Char(c)), false).is_none());
    }
    match t.handle_key(key(KeyCode::Enter), false) {
        Some(TUICommand::Submit(s)) => assert_eq!(s, "hi there"),
        _ => panic!("expected a submission"),
    }
    assert!(t.input().is_empty());
}

#[test]
fn enter_while_streaming_does_nothing() {
    let mut t = Tui::new();
    t.handle_key(key(KeyCode::Char('a')), false);
    assert!(t.handle_key(key(KeyCode::Enter), true).is_none());
    assert_eq!(t.input().wrapped(80), vec!["a"]);
}

#[test]
fn shift_enter_inserts_newline() {
    let mut t = Tui::new();
    t.handle_key(key(KeyCode::Char('a')), false);
    let k = KeyInput { code: KeyCode::Enter, press: true, shift: true, alt: false, control: false };
    assert!(t.handle_key(k, false).is_none());
    t.handle_key(key(KeyCode::Char('b')), false);
    assert_eq!(t.input().wrapped(80), vec!["a", "b"]);
}

#[test]
fn control_keys() {
    let mut t = Tui::new();
    let ctrl = |c| KeyInput { code: KeyCode::Char(c), press: true, shift: false, alt: false, control: true };
    assert!(matches!(t.handle_key(ctrl('c'), false), Some(TUICommand::Cancel)));
    assert!(matches!(t.handle_key(key(KeyCode::Esc), false), Some(TUICommand::Exit)));
    for c in "one two".chars() {
        t.handle_key(key(KeyCode::Char(c)), false);
    }
    t.handle_key(ctrl('a'), false);
    assert_eq!(t.input().cursor_xy(80), (0, 0));
    t.handle_key(ctrl('e'), false);
    assert_eq!(t.input().cursor_xy(80), (7, 0));
    let alt_bs = KeyInput { code: KeyCode::Backspace, press: true, shift: false, alt: true, control: false };
    t.handle_key(alt_bs, false);
    assert_eq!(t.input().wrapped(80), vec!["one "]);
    t.handle_key(ctrl('u'), false);
    assert!(t.input().is_empty());
}

#[test]
fn paste_inserts_text() {
    let mut t = Tui::new();
    t.handle_key(key(KeyCode::Char('x')), false);
    t.handle_key(key(KeyCode::Left), false);
    assert!(t.on_event(TermEvent::Paste("a\nb".to_string()), false).is_none());
    assert_eq!(t.input().wrapped(80), vec!["a", "bx"]);
}

#[test]
fn up_at_top_scrolls() {
    let mut t = Tui::new();
    assert_eq!(t.update_scroll(100, 10), 90);
    t.handle_key(key(KeyCode::Up), false);
    assert_eq!(t.update_scroll(100, 10), 89);
    t.handle_key(key(KeyCode::End), false);
    assert_eq!(t.update_scroll(100, 10), 90);
    assert!(t.can_move_down());
    t.handle_key(key(KeyCode::Down), false);
    t.reset();
    assert_eq!(t.update_scroll(100, 10), 90);
}

#[test]
fn released_keys_are_ignored() {
    let mut t = Tui::new();
    let k = KeyInput { code: KeyCode::Char('z'), press: false, shift: false, alt: false, control: false };
    assert!(t.on_event(TermEvent::Key(k), false).is_none());
    assert!(t.input().is_empty());
}

#[test]
fn input_box_title() {
    assert_eq!(input_title(true, "Saved"), "working...");
    assert_eq!(input_title(false, ""), "");
    assert_eq!(input_title(false, "first\nsecond"), "first");
    assert_eq!(input_title(false, "\nsecond"), "");
    assert_eq!(input_title(false, "crlf\r\nx"), "crlf");
}

#[test]
fn input_box_height() {
    assert_eq!(input_height(0), 3);
    assert_eq!(input_height(1), 3);
    assert_eq!(input_height(2), 4);
    assert_eq!(input_height(5), 7);
    assert_eq!(input_height(65536), 3);
}

#[test]
fn footer_shows_context_size() {
    assert_eq!(footer_text(Some(1234)), Some(" context: 1234 tokens ".to_string()));
    assert_eq!(footer_text(Some(0)), Some(" context: 0 tokens ".to_string()));
    assert_eq!(footer_text(None), None);
}
