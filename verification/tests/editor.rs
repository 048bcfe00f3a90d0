use rode::tui::input::InputBuffer;
use rode::tui::utils::wrap_hard;

fn typed(s: &str) -> InputBuffer {
    let mut b = InputBuffer::new();
    for c in s.chars() {
        if c == '\n' {
            b.insert_newline();
        } else {
            b.insert(c);
        }
    }
    b
}

#[test]
fn insert_and_take() {
    let mut b = typed("héllo");
    assert!(!b.is_empty());
    assert_eq!(b.take(), "héllo");
    assert!(b.is_empty());
    assert_eq!(b.cursor_xy(80), (0, 0));
}

#[test]
fn blank_text_is_empty() {
    let b = typed(" \n\t ");
    assert!(b.is_empty());
}

#[test]
fn backspace_removes_previous_char() {
    let mut b = typed("abç");
    b.backspace();
    assert_eq!(b.take(), "ab");
    let mut e = InputBuffer::new();
    e.backspace();
    assert_eq!(e.take(), "");
}

#[test]
fn backspace_undoes_insert_in_middle() {
    let mut b = typed("abcd");
    b.move_left();
    b.move_left();
    b.insert('X');
    b.backspace();
    assert_eq!(b.cursor_xy(80), (2, 0));
    assert_eq!(b.take(), "abcd");
}

#[test]
fn delete_word_before_cursor_removes_word_and_spaces() {
    let mut b = typed("hello big  world  ");
    b.delete_word_before_cursor();
    assert_eq!(b.take(), "hello big  ");
    let mut c = typed("one two");
    c.move_left();
    c.move_left();
    c.delete_word_before_cursor();
    assert_eq!(c.take(), "one wo");
}

#[test]
fn delete_to_start_of_line() {
    let mut b = typed("first\nsecond");
    b.delete_to_start_of_line();
    assert_eq!(b.cursor_xy(80), (0, 1));
    assert_eq!(b.take(), "first\n");
}

#[test]
fn move_up_and_down() {
    let mut b = typed("ab\ncd");
    assert!(b.move_up());
    assert_eq!(b.cursor_xy(80), (2, 0));
    assert!(b.move_up());
    assert_eq!(b.cursor_xy(80), (0, 0));
    assert!(!b.move_up());
    assert!(b.move_down());
    assert_eq!(b.cursor_xy(80), (2, 0));
    assert!(b.move_down());
    assert_eq!(b.cursor_xy(80), (2, 1));
    assert!(!b.move_down());
}

#[test]
fn word_and_line_moves() {
    let mut b = typed("alpha beta\ngamma delta");
    b.move_word_left();
    assert_eq!(b.cursor_xy(80), (6, 1));
    b.move_to_start_of_line();
    assert_eq!(b.cursor_xy(80), (0, 1));
    b.move_word_right();
    assert_eq!(b.cursor_xy(80), (5, 1));
    b.move_to_end_of_line();
    assert_eq!(b.cursor_xy(80), (11, 1));
}

#[test]
fn cursor_position_wraps() {
    let b = typed("abcdefgh");
    assert_eq!(b.cursor_xy(80), (8, 0));
    assert_eq!(b.cursor_xy(5), (3, 1));
    let w = typed("日本語");
    assert_eq!(w.cursor_xy(80), (6, 0));
    assert_eq!(w.cursor_xy(4), (2, 1));
}

#[test]
fn cursor_position_after_trailing_newline() {
    let b = typed("ab\n");
    assert_eq!(b.cursor_xy(80), (0, 1));
}

#[test]
fn wrapped_input() {
    let b = typed("abcdef\ngh");
    assert_eq!(b.wrapped(4), vec!["abcd", "ef", "gh"]);
}

#[test]
fn wrap_hard_at_width() {
    assert_eq!(wrap_hard("hello world", 5), vec!["hello", " worl", "d"]);
    assert_eq!(wrap_hard("a\n\nb", 10), vec!["a", "", "b"]);
    assert_eq!(wrap_hard("", 10), vec![""]);
    assert_eq!(wrap_hard("abc", 0), vec!["abc"]);
    assert_eq!(rode::utils::wrap_hard("ab\n", 3), vec!["ab", ""]);
}

#[test]
fn wrap_hard_wide_characters() {
    assert_eq!(wrap_hard("日本語", 4), vec!["日本", "語"]);
    assert_eq!(wrap_hard("日", 1), vec!["", "日"]);
}

#[test]
fn wrap_keeps_characters() {
    let text = "the quick\nbrown fox jumps";
    let joined: String = wrap_hard(text, 4).concat();
    assert_eq!(joined, text.replace('\n', ""));
}

#[test]
fn right_undoes_left() {
    let mut b = typed("añb\nc");
    let before = b.cursor_xy(80);
    b.move_left();
    b.move_right();
    assert_eq!(b.cursor_xy(80), before);
    b.move_left();
    b.move_left();
    let mid = b.cursor_xy(80);
    b.move_left();
    b.move_right();
    assert_eq!(b.cursor_xy(80), mid);
    assert_eq!(b.take(), "añb\nc");
}
