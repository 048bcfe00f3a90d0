//! The terminal interface's decisions: key handling for the input editor and
//! the scroll position.

use vstd::prelude::*;

pub mod commands;
pub mod input;
pub mod line;
pub mod scroll;
pub mod utils;

verus! {

/// What the interface asks of the application.
pub enum TUICommand {
    Submit(String),
    Cancel,
    Exit,
}

} // verus!

verus! {

use crate::text::{all_white_space, trim, trim_str, str_chars};
use crate::tui::input::{
    cut, line_end, line_start, word_end_after, word_start_before, InputBuffer,
};
use crate::tui::scroll::Scroll;
use crate::agent::session::Message;
use crate::tui::line::{
    cached_lines, line_views, message_ids, response_lines, CacheView, LayoutLine, MessageLinesBuilder,
};

/// The keys the interface tells apart.
#[derive(Clone, Copy, PartialEq, Eq, Structural)]
pub enum KeyCode {
    Esc,
    Enter,
    Char(char),
    Backspace,
    Left,
    Right,
    Up,
    Down,
    End,
    Other,
}

/// A key event: the key, whether it is a press, and the modifiers held.
#[derive(Clone, Copy)]
pub struct KeyInput {
    pub code: KeyCode,
    pub press: bool,
    pub shift: bool,
    pub alt: bool,
    pub control: bool,
}

/// A terminal event.
pub enum TermEvent {
    Key(KeyInput),
    /// Text pasted at once (bracketed paste).
    Paste(String),
    Other,
}

/// An edit of the input text that a key asks for.
pub enum EditOp {
    Insert(char),
    Backspace,
    DeleteWord,
    DeleteLine,
    Left,
    Right,
    WordLeft,
    WordRight,
    LineStart,
    LineEnd,
}

/// Text and cursor after edit `op` on text `t` with the cursor at `p`.
pub open spec fn apply_edit(op: EditOp, t: Seq<char>, p: nat) -> (Seq<char>, nat) {
    match op {
        EditOp::Insert(c) => (t.insert(p as int, c), p + 1),
        EditOp::Backspace => if p > 0 {
            (t.remove(p - 1), (p - 1) as nat)
        } else {
            (t, p)
        },
        EditOp::DeleteWord => (
            cut(t, word_start_before(t, p as int), p as int),
            word_start_before(t, p as int) as nat,
        ),
        EditOp::DeleteLine => (cut(t, line_start(t, p as int), p as int), line_start(t, p as int) as nat),
        EditOp::Left => (t, if p > 0 { (p - 1) as nat } else { 0 }),
        EditOp::Right => (t, if p < t.len() { p + 1 } else { p }),
        EditOp::WordLeft => (t, word_start_before(t, p as int) as nat),
        EditOp::WordRight => (t, word_end_after(t, p as int) as nat),
        EditOp::LineStart => (t, line_start(t, p as int) as nat),
        EditOp::LineEnd => (t, line_end(t, p as int) as nat),
    }
}

/// The edit that a pressed key asks for, if it is an edit.
pub open spec fn key_edit(k: KeyInput) -> Option<EditOp> {
    match k.code {
        KeyCode::Enter => if k.shift || k.alt {
            Some(EditOp::Insert('\n'))
        } else {
            None
        },
        KeyCode::Char(c) => if c == 'c' && k.control {
            None
        } else if c == 'a' && k.control {
            Some(EditOp::LineStart)
        } else if c == 'e' && k.control {
            Some(EditOp::LineEnd)
        } else if c == 'u' && k.control {
            Some(EditOp::DeleteLine)
        } else if c == 'b' && k.alt {
            Some(EditOp::WordLeft)
        } else if c == 'f' && k.alt {
            Some(EditOp::WordRight)
        } else {
            Some(EditOp::Insert(c))
        },
        KeyCode::Backspace => if k.alt {
            Some(EditOp::DeleteWord)
        } else {
            Some(EditOp::Backspace)
        },
        KeyCode::Left => if k.alt {
            Some(EditOp::WordLeft)
        } else {
            Some(EditOp::Left)
        },
        KeyCode::Right => if k.alt {
            Some(EditOp::WordRight)
        } else {
            Some(EditOp::Right)
        },
        _ => None,
    }
}

/// The input editor and the scroll state of the interface.
pub struct Tui {
    input: InputBuffer,
    scroll: Scroll,
    lines: MessageLinesBuilder,
}

impl Tui {
    pub closed spec fn text(&self) -> Seq<char> {
        self.input.text()
    }

    pub closed spec fn pos(&self) -> nat {
        self.input.pos()
    }

    pub closed spec fn offset(&self) -> u16 {
        self.scroll.offset()
    }

    pub closed spec fn follows_end(&self) -> bool {
        self.scroll.follows_end()
    }

    /// The lines kept for each message id.
    pub closed spec fn line_cache(&self) -> CacheView {
        self.lines.cached()
    }

    /// Whether the Down key may be handled: the character under the cursor, if
    /// any, is a single UTF-8 byte.
    pub open spec fn down_ok(&self) -> bool {
        self.pos() < self.text().len() ==> (self.text()[self.pos() as int] as u32) < 0x80
    }

    pub fn new() -> (t: Self)
        ensures
            t.text() == Seq::<char>::empty(),
            t.pos() == 0,
            t.offset() == 0,
            t.follows_end(),
            t.line_cache() == CacheView::empty(),
    {
        Tui { input: InputBuffer::new(), scroll: Scroll::new(), lines: MessageLinesBuilder::new() }
    }

    /// The input editor (for drawing).
    pub fn input(&self) -> (i: &InputBuffer)
        ensures
            i.text() == self.text(),
            i.pos() == self.pos(),
    {
        &self.input
    }

    /// Fixes the scroll offset for `line_count` lines in `visible_height` rows
    /// (see `Scroll::update_scroll`).
    pub fn update_scroll(&mut self, line_count: usize, visible_height: u16) -> (r: u16)
        ensures
            final(self).text() == old(self).text(),
            final(self).pos() == old(self).pos(),
            r == final(self).offset(),
            final(self).follows_end() == old(self).follows_end(),
            final(self).line_cache() == old(self).line_cache(),
            r == crate::tui::scroll::updated_offset(
                old(self).follows_end(),
                old(self).offset(),
                line_count,
                visible_height,
            ),
    {
        self.scroll.update_scroll(line_count, visible_height)
    }

    /// Whether the Down key may be handled now.
    pub fn can_move_down(&self) -> (b: bool)
        ensures
            b == self.down_ok(),
    {
        self.input.lemma_pos_in_text();
        self.input.char_at_cursor_is_single_byte()
    }

    /// The lines of the chat area (see `MessageLinesBuilder::build`).
    pub fn build_lines(&mut self, messages: &[Message], width: usize, current_response: &str, streaming: bool) -> (ls:
        Vec<LayoutLine>)
        ensures
            final(self).text() == old(self).text(),
            final(self).pos() == old(self).pos(),
            final(self).offset() == old(self).offset(),
            final(self).follows_end() == old(self).follows_end(),
            line_views(ls@) == cached_lines(old(self).line_cache(), messages@, width).0 + response_lines(
                current_response@,
                streaming,
            ),
            final(self).line_cache() == cached_lines(old(self).line_cache(), messages@, width).1.restrict(
                message_ids(messages@),
            ),
    {
        self.lines.build(messages, width, current_response, streaming)
    }

    /// Scroll back to the top, follow the end again, and drop the cached lines.
    pub fn reset(&mut self)
        ensures
            final(self).text() == old(self).text(),
            final(self).pos() == old(self).pos(),
            final(self).offset() == 0,
            final(self).follows_end(),
            final(self).line_cache() == CacheView::empty(),
    {
        self.scroll.reset();
        self.lines.clear_cache();
    }

    fn edit(&mut self, op: EditOp)
        ensures
            (final(self).text(), final(self).pos()) == apply_edit(op, old(self).text(), old(self).pos()),
            final(self).line_cache() == old(self).line_cache(),
            final(self).offset() == old(self).offset(),
            final(self).follows_end() == old(self).follows_end(),
    {
        match op {
            EditOp::Insert(c) => self.input.insert(c),
            EditOp::Backspace => self.input.backspace(),
            EditOp::DeleteWord => self.input.delete_word_before_cursor(),
            EditOp::DeleteLine => self.input.delete_to_start_of_line(),
            EditOp::Left => self.input.move_left(),
            EditOp::Right => self.input.move_right(),
            EditOp::WordLeft => self.input.move_word_left(),
            EditOp::WordRight => self.input.move_word_right(),
            EditOp::LineStart => self.input.move_to_start_of_line(),
            EditOp::LineEnd => self.input.move_to_end_of_line(),
        }
    }

    /// A terminal event: a pasted text is inserted at the cursor; a key press is
    /// handled by `handle_key`; other events do nothing.
    pub fn on_event(&mut self, event: TermEvent, streaming: bool) -> (r: Option<TUICommand>)
        requires
            event matches TermEvent::Key(k) && k.press && k.code == KeyCode::Down ==> old(self).down_ok(),
        ensures
            final(self).line_cache() == old(self).line_cache(),
            match event {
                TermEvent::Paste(p) => r is None && final(self).text() == old(self).text().take(
                    old(self).pos() as int,
                ) + p@ + old(self).text().skip(old(self).pos() as int) && final(self).pos()
                    == old(self).pos() + p@.len() && final(self).offset() == old(self).offset()
                    && final(self).follows_end() == old(self).follows_end(),
                TermEvent::Key(k) => if k.press {
                    key_ok(k, streaming, *old(self), *final(self), r)
                } else {
                    r is None && *final(self) == *old(self)
                },
                TermEvent::Other => r is None && *final(self) == *old(self),
            },
    {
        match event {
            TermEvent::Key(k) => {
                if k.press {
                    self.handle_key(k, streaming)
                } else {
                    None
                }
            },
            TermEvent::Paste(text) => {
                let chars = str_chars(text.as_str());
                let ghost t0 = self.text();
                let ghost p0 = self.pos();
                self.input.lemma_pos_in_text();
                let mut i: usize = 0;
                while i < chars.len()
                    invariant
                        i <= chars@.len(),
                        p0 <= t0.len(),
                        self.text() == t0.take(p0 as int) + chars@.take(i as int) + t0.skip(p0 as int),
                        self.pos() == p0 + i,
                        self.offset() == old(self).offset(),
                        self.follows_end() == old(self).follows_end(),
                        self.line_cache() == old(self).line_cache(),
                        t0 == old(self).text(),
                        p0 == old(self).pos(),
                        chars@ == text@,
                    decreases chars@.len() - i,
                {
                    let ghost before = self.text();
                    if chars[i] == '\n' {
                        self.input.insert_newline();
                    } else {
                        self.input.insert(chars[i]);
                    }
                    proof {
                        assert(before.insert((p0 + i) as int, chars@[i as int]) =~= t0.take(p0 as int)
                            + chars@.take(i + 1) + t0.skip(p0 as int));
                    }
                    i = i + 1;
                }
                proof {
                    assert(chars@.take(chars@.len() as int) =~= chars@);
                }
                None
            },
            TermEvent::Other => None,
        }
    }

    /// A key press.
    pub fn handle_key(&mut self, key: KeyInput, streaming: bool) -> (r: Option<TUICommand>)
        requires
            key.code == KeyCode::Down ==> old(self).down_ok(),
        ensures
            final(self).line_cache() == old(self).line_cache(),
            key_ok(key, streaming, *old(self), *final(self), r),
    {
        match key.code {
            KeyCode::Esc => {
                return Some(TUICommand::Exit);
            },
            KeyCode::Enter => {
                if key.shift || key.alt {
                    self.edit(EditOp::Insert('\n'));
                } else if !streaming && !self.input.is_empty() {
                    let raw = self.input.take();
                    let content = trim_str(raw.as_str());
                    self.scroll.set_auto(true);
                    return Some(TUICommand::Submit(content));
                }
            },
            KeyCode::Char(c) => {
                if c == 'c' && key.control {
                    return Some(TUICommand::Cancel);
                } else if c == 'a' && key.control {
                    self.edit(EditOp::LineStart);
                } else if c == 'e' && key.control {
                    self.edit(EditOp::LineEnd);
                } else if c == 'u' && key.control {
                    self.edit(EditOp::DeleteLine);
                } else if c == 'b' && key.alt {
                    self.edit(EditOp::WordLeft);
                } else if c == 'f' && key.alt {
                    self.edit(EditOp::WordRight);
                } else {
                    self.edit(EditOp::Insert(c));
                }
            },
            KeyCode::Backspace => {
                if key.alt {
                    self.edit(EditOp::DeleteWord);
                } else {
                    self.edit(EditOp::Backspace);
                }
            },
            KeyCode::Left => {
                if key.alt {
                    self.edit(EditOp::WordLeft);
                } else {
                    self.edit(EditOp::Left);
                }
            },
            KeyCode::Right => {
                if key.alt {
                    self.edit(EditOp::WordRight);
                } else {
                    self.edit(EditOp::Right);
                }
            },
            KeyCode::Up => {
                if !self.input.move_up() {
                    self.scroll.scroll_up();
                }
            },
            KeyCode::Down => {
                if !self.input.move_down() {
                    self.scroll.scroll_down();
                }
            },
            KeyCode::End => {
                self.scroll.set_auto(true);
            },
            KeyCode::Other => {},
        }
        None
    }
}

/// What a key press does: from interface state `a` (with a turn running when
/// `streaming`) to state `b`, answering `r`.
pub open spec fn key_ok(k: KeyInput, streaming: bool, a: Tui, b: Tui, r: Option<TUICommand>) -> bool {
    match k.code {
        KeyCode::Esc => r matches Some(TUICommand::Exit) && b == a,
        KeyCode::Enter => if k.shift || k.alt {
            r is None && (b.text(), b.pos()) == apply_edit(EditOp::Insert('\n'), a.text(), a.pos())
                && b.offset() == a.offset() && b.follows_end() == a.follows_end()
        } else if !streaming && !all_white_space(a.text()) {
            (r matches Some(TUICommand::Submit(c)) && c@ == trim(a.text())) && b.text() == Seq::<
                char,
            >::empty() && b.pos() == 0 && b.follows_end() && b.offset() == a.offset()
        } else {
            r is None && b == a
        },
        KeyCode::Char(c) if c == 'c' && k.control => r matches Some(TUICommand::Cancel) && b == a,
        KeyCode::Up => r is None && b.text() == a.text() && if a.pos() > 0 || crate::text::rfind_char_before(
            a.text(),
            '\n',
            a.pos() as int,
        ) is Some {
            b.pos() == match crate::text::rfind_char_before(a.text(), '\n', a.pos() as int) {
                Some(i) => i as nat,
                None => 0,
            } && b.offset() == a.offset() && b.follows_end() == a.follows_end()
        } else {
            b.pos() == a.pos() && !b.follows_end() && b.offset() == (if a.offset() > 0 {
                (a.offset() - 1) as u16
            } else {
                0
            })
        },
        KeyCode::Down => r is None && b.text() == a.text() && if a.pos() < a.text().len() {
            b.pos() == line_end(a.text(), (a.pos() + 1) as int) as nat && b.offset() == a.offset()
                && b.follows_end() == a.follows_end()
        } else {
            b.pos() == a.pos() && b.follows_end() == a.follows_end() && b.offset() == (if a.offset()
                < u16::MAX {
                (a.offset() + 1) as u16
            } else {
                u16::MAX
            })
        },
        KeyCode::End => r is None && b.text() == a.text() && b.pos() == a.pos() && b.follows_end()
            && b.offset() == a.offset(),
        KeyCode::Other => r is None && b == a,
        _ => r is None && (key_edit(k) matches Some(op) && (b.text(), b.pos()) == apply_edit(
            op,
            a.text(),
            a.pos(),
        )) && b.offset() == a.offset() && b.follows_end() == a.follows_end(),
    }
}

} // verus!

verus! {

/// A backspace right after typing a character undoes it: text and cursor are
/// back as they were.
pub proof fn lemma_backspace_undoes_insert(t: Seq<char>, p: nat, c: char)
    requires
        p <= t.len(),
    ensures
        apply_edit(
            EditOp::Backspace,
            apply_edit(EditOp::Insert(c), t, p).0,
            apply_edit(EditOp::Insert(c), t, p).1,
        ) == (t, p),
{
    assert(t.insert(p as int, c).remove(p as int) =~= t);
}

/// Moving left then right brings the cursor back when it was not at the start.
pub proof fn lemma_right_undoes_left(t: Seq<char>, p: nat)
    requires
        0 < p <= t.len(),
    ensures
        apply_edit(EditOp::Right, t, apply_edit(EditOp::Left, t, p).1) == (t, p),
{
}

/// Every edit keeps the cursor within the text.
pub proof fn lemma_edit_keeps_cursor_in_text(op: EditOp, t: Seq<char>, p: nat)
    requires
        p <= t.len(),
    ensures
        apply_edit(op, t, p).1 <= apply_edit(op, t, p).0.len(),
{
    crate::tui::input::lemma_positions_in_text(t, p as int);
}

} // verus!

verus! {

use crate::text::{concat3, decimal, lines_of, str_lines, u64_to_decimal};

/// The first line of `s` as `str::lines` yields it, empty when it has none.
pub open spec fn first_line_of(s: Seq<char>) -> Seq<char> {
    let ls = str_lines(s);
    if ls.len() > 0 {
        ls[0]
    } else {
        Seq::empty()
    }
}

/// The title of the input box: `working...` while a turn runs, otherwise the
/// first line of the status message.
pub fn input_title(streaming: bool, status_message: &str) -> (t: String)
    ensures
        t@ == if streaming {
            "working..."@
        } else {
            first_line_of(status_message@)
        },
{
    if streaming {
        return String::from_str("working...");
    }
    let lines = lines_of(&str_chars(status_message));
    if lines.len() > 0 {
        lines[0].clone()
    } else {
        String::new()
    }
}

/// `max(n, 1)` rows cut to 16 bits, as `as u16` cuts them.
pub open spec fn rows_u16(n: usize) -> int {
    (if n > 1 {
        n as int
    } else {
        1
    }) % 0x10000
}

/// The height of the input box for `line_count` wrapped input lines: at least
/// one line, plus its two borders, and at least three rows.
pub fn input_height(line_count: usize) -> (h: u16)
    requires
        rows_u16(line_count) + 2 <= u16::MAX,
    ensures
        h == if rows_u16(line_count) + 2 > 3 {
            rows_u16(line_count) + 2
        } else {
            3
        },
{
    let lines: usize = if line_count > 1 {
        line_count
    } else {
        1
    };
    let rows: u16 = (lines % 0x10000) as u16;
    let h: u16 = rows + 2;
    if h > 3 {
        h
    } else {
        3
    }
}

/// The footer: the context size in tokens, when it is known.
pub fn footer_text(context_tokens: Option<u32>) -> (s: Option<String>)
    ensures
        match context_tokens {
            None => s is None,
            Some(t) => s matches Some(f) && f@ == " context: "@ + decimal(t as nat) + " tokens "@,
        },
{
    match context_tokens {
        None => None,
        Some(t) => {
            let d = u64_to_decimal(t as u64);
            Some(concat3(" context: ", d.as_str(), " tokens "))
        },
    }
}

} // verus!

verus! {

use crate::text::unicode_white_space;
use crate::tui::input::{
    lemma_skip_white_back_stops, lemma_skip_white_fwd_stops, lemma_skip_word_back_stops,
    lemma_skip_word_fwd_stops, skip_white_back, skip_white_fwd,
};

/// `[q, p)` of `t` is a word followed by the whitespace before `p`, split at
/// `m`: the whitespace run `[m, p)` cannot grow left and the word `[q, m)`
/// cannot grow left either.
pub open spec fn word_back_split(t: Seq<char>, q: int, m: int, p: int) -> bool {
    &&& q <= m <= p
    &&& forall|i: int| m <= i < p ==> unicode_white_space(#[trigger] t[i])
    &&& m == 0 || !unicode_white_space(t[m - 1])
    &&& forall|i: int| q <= i < m ==> !unicode_white_space(#[trigger] t[i])
    &&& q == 0 || unicode_white_space(t[q - 1])
}

/// `[p, q)` of `t` is the whitespace at `p` followed by a word, split at `m`:
/// the whitespace run `[p, m)` cannot grow right and the word `[m, q)` cannot
/// grow right either.
pub open spec fn word_fwd_split(t: Seq<char>, p: int, m: int, q: int) -> bool {
    &&& p <= m <= q
    &&& forall|i: int| p <= i < m ==> unicode_white_space(#[trigger] t[i])
    &&& m == t.len() || !unicode_white_space(t[m])
    &&& forall|i: int| m <= i < q ==> !unicode_white_space(#[trigger] t[i])
    &&& q == t.len() || unicode_white_space(t[q])
}

/// The word moves (Alt+Left or Alt+B, Alt+Right or Alt+F) change only the
/// cursor. Moving a word left from `p` goes back over the whitespace just
/// before `p`, then over the word before it, and stops at that word's first
/// character: it never moves right. Moving a word right goes forward over the
/// whitespace at `p`, then over the next word, and stops just after it: it
/// never moves left.
pub proof fn lemma_word_moves(k: KeyInput, streaming: bool, a: Tui, b: Tui, r: Option<TUICommand>)
    requires
        key_ok(k, streaming, a, b, r),
        a.pos() <= a.text().len(),
    ensures
        (k.code == KeyCode::Left && k.alt) || (k.code == KeyCode::Char('b') && k.alt) ==> {
            let t = a.text();
            let p = a.pos() as int;
            let q = b.pos() as int;
            &&& r is None
            &&& b.text() == t
            &&& 0 <= q <= p
            &&& exists|m: int| #[trigger] word_back_split(t, q, m, p)
        },
        (k.code == KeyCode::Right && k.alt) || (k.code == KeyCode::Char('f') && k.alt) ==> {
            let t = a.text();
            let p = a.pos() as int;
            let q = b.pos() as int;
            &&& r is None
            &&& b.text() == t
            &&& p <= q <= t.len()
            &&& exists|m: int| #[trigger] word_fwd_split(t, p, m, q)
        },
{
    let t = a.text();
    let p = a.pos() as int;
    if (k.code == KeyCode::Left && k.alt) || (k.code == KeyCode::Char('b') && k.alt) {
        assert(key_edit(k) == Some(EditOp::WordLeft));
        lemma_skip_white_back_stops(t, p);
        let m = skip_white_back(t, p);
        lemma_skip_word_back_stops(t, m);
        assert(b.pos() == word_start_before(t, p));
        assert(word_back_split(t, b.pos() as int, m, p));
    }
    if (k.code == KeyCode::Right && k.alt) || (k.code == KeyCode::Char('f') && k.alt) {
        assert(key_edit(k) == Some(EditOp::WordRight));
        lemma_skip_white_fwd_stops(t, p);
        let m = skip_white_fwd(t, p);
        lemma_skip_word_fwd_stops(t, m);
        assert(b.pos() == word_end_after(t, p));
        assert(word_fwd_split(t, p, m, b.pos() as int));
    }
}

} // verus!
