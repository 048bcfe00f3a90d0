//! The multi-line input line editor.

use vstd::prelude::*;
use crate::text::{
    all_white_space, char_columns, char_utf8_len, find_char, find_char_from, is_whitespace,
    lemma_find_char_from_bounds, lemma_rfind_char_before_bounds, rfind_char, rfind_char_before,
    string_from_chars, unicode_white_space, utf8_len, utf8_total, width_of,
};
use crate::tui::utils::{string_views, wrap_chars, wrap_hard_spec};

verus! {

/// Position at which the whitespace run ending at `end` starts.
pub open spec fn skip_white_back(s: Seq<char>, end: int) -> int
    decreases end,
{
    if end <= 0 || end > s.len() {
        end
    } else if unicode_white_space(s[end - 1]) {
        skip_white_back(s, end - 1)
    } else {
        end
    }
}

/// Position at which the non-whitespace run ending at `end` starts.
pub open spec fn skip_word_back(s: Seq<char>, end: int) -> int
    decreases end,
{
    if end <= 0 || end > s.len() {
        end
    } else if !unicode_white_space(s[end - 1]) {
        skip_word_back(s, end - 1)
    } else {
        end
    }
}

/// Start of the word before `pos`: skip whitespace backwards, then the word.
pub open spec fn word_start_before(s: Seq<char>, pos: int) -> int {
    skip_word_back(s, skip_white_back(s, pos))
}

/// Position at which the whitespace run starting at `start` ends.
pub open spec fn skip_white_fwd(s: Seq<char>, start: int) -> int
    decreases s.len() - start,
{
    if start < 0 || start >= s.len() {
        start
    } else if unicode_white_space(s[start]) {
        skip_white_fwd(s, start + 1)
    } else {
        start
    }
}

/// Position at which the non-whitespace run starting at `start` ends.
pub open spec fn skip_word_fwd(s: Seq<char>, start: int) -> int
    decreases s.len() - start,
{
    if start < 0 || start >= s.len() {
        start
    } else if !unicode_white_space(s[start]) {
        skip_word_fwd(s, start + 1)
    } else {
        start
    }
}

/// End of the word after `pos`: skip whitespace forwards, then the word.
pub open spec fn word_end_after(s: Seq<char>, pos: int) -> int {
    skip_word_fwd(s, skip_white_fwd(s, pos))
}

/// Start of the line that holds position `pos`.
pub open spec fn line_start(s: Seq<char>, pos: int) -> int {
    match rfind_char_before(s, '\n', pos) {
        Some(i) => i + 1,
        None => 0,
    }
}

/// End of the line that holds position `pos` (the next newline, or the end).
pub open spec fn line_end(s: Seq<char>, pos: int) -> int {
    match find_char_from(s, '\n', pos) {
        Some(i) => i,
        None => s.len() as int,
    }
}

/// `s` without the characters in `[start, end)`.
pub open spec fn cut(s: Seq<char>, start: int, end: int) -> Seq<char> {
    s.subrange(0, start) + s.subrange(end, s.len() as int)
}

/// The cursor-locating automaton. It walks the text line by line as `str::lines`
/// splits it (a `"\r\n"` ends a line like `"\n"`, and its `'\r'` belongs to no
/// line), counting in `seen` the UTF-8 bytes of the line characters plus one per
/// line break passed before the cursor, the row `y` and the column `col`, and
/// wrapping a line whose width would exceed `width`. It answers the column and
/// row at which `seen` meets the cursor's byte offset `target`, or `(0, y)` at
/// the end.
pub open spec fn xy_from(
    s: Seq<char>,
    k: int,
    width: nat,
    target: nat,
    seen: nat,
    y: nat,
    col: nat,
) -> (nat, nat)
    decreases s.len() - k,
{
    if k < 0 || k >= s.len() {
        if s.len() > 0 && s.last() != '\n' {
            if seen == target {
                (col, y)
            } else if seen < target {
                (0, y + 1)
            } else {
                (0, y)
            }
        } else {
            (0, y)
        }
    } else if s[k] == '\n' {
        if seen == target {
            (col, y)
        } else if seen < target {
            xy_from(s, k + 1, width, target, seen + 1, y + 1, 0)
        } else {
            xy_from(s, k + 1, width, target, seen, y, 0)
        }
    } else if s[k] == '\r' && k + 1 < s.len() && s[k + 1] == '\n' {
        xy_from(s, k + 1, width, target, seen, y, col)
    } else if seen == target {
        (col, y)
    } else if col + width_of(s[k]) > width {
        xy_from(s, k + 1, width, target, seen + utf8_len(s[k]), y + 1, width_of(s[k]))
    } else {
        xy_from(s, k + 1, width, target, seen + utf8_len(s[k]), y, col + width_of(s[k]))
    }
}

/// Column and row of the cursor at character position `cursor` of `s`, in a box
/// `width` columns wide, before the narrowing to `u16`.
pub open spec fn cursor_xy_spec(s: Seq<char>, cursor: nat, width: nat) -> (nat, nat) {
    xy_from(s, 0, width, utf8_total(s.take(cursor as int)), 0, 0, 0)
}

/// An editable text with a cursor. The cursor is a character position in
/// `0..=len`.
pub struct InputBuffer {
    content: Vec<char>,
    cursor: usize,
}

impl InputBuffer {
    #[verifier::type_invariant]
    spec fn inv(&self) -> bool {
        self.cursor <= self.content.len()
    }

    /// The text being edited.
    pub closed spec fn text(&self) -> Seq<char> {
        self.content@
    }

    /// The cursor's character position.
    pub closed spec fn pos(&self) -> nat {
        self.cursor as nat
    }

    /// The cursor never leaves the text.
    pub fn lemma_pos_in_text(&self)
        ensures
            self.pos() <= self.text().len(),
    {
        proof {
            use_type_invariant(self);
        }
    }

    /// Whether the character under the cursor, if any, is a single UTF-8 byte.
    pub fn char_at_cursor_is_single_byte(&self) -> (b: bool)
        ensures
            b == (self.pos() < self.text().len() ==> (self.text()[self.pos() as int] as u32) < 0x80),
    {
        if self.cursor < self.content.len() {
            (self.content[self.cursor] as u32) < 0x80
        } else {
            true
        }
    }

    pub fn new() -> (b: Self)
        ensures
            b.text() == Seq::<char>::empty(),
            b.pos() == 0,
    {
        InputBuffer { content: Vec::new(), cursor: 0 }
    }

    /// Whether the text is blank (only whitespace).
    pub fn is_empty(&self) -> (r: bool)
        ensures
            r == all_white_space(self.text()),
    {
        let mut i: usize = 0;
        while i < self.content.len()
            invariant
                i <= self.content.len(),
                forall|j: int| 0 <= j < i ==> unicode_white_space(#[trigger] self.content@[j]),
            decreases self.content.len() - i,
        {
            if !is_whitespace(self.content[i]) {
                return false;
            }
            i = i + 1;
        }
        true
    }

    /// Hands out the text and empties the buffer.
    pub fn take(&mut self) -> (s: String)
        ensures
            s@ == old(self).text(),
            final(self).text() == Seq::<char>::empty(),
            final(self).pos() == 0,
    {
        let s = string_from_chars(self.content.as_slice());
        self.cursor = 0;
        self.content = Vec::new();
        s
    }

    /// Inserts `c` at the cursor and moves the cursor past it.
    pub fn insert(&mut self, c: char)
        ensures
            final(self).text() == old(self).text().insert(old(self).pos() as int, c),
            final(self).pos() == old(self).pos() + 1,
    {
        proof {
            use_type_invariant(&*self);
        }
        let mut v: Vec<char> = Vec::new();
        let mut i: usize = 0;
        while i < self.cursor
            invariant
                i <= self.cursor <= self.content.len(),
                v@ == self.content@.subrange(0, i as int),
            decreases self.cursor - i,
        {
            v.push(self.content[i]);
            i = i + 1;
        }
        v.push(c);
        while i < self.content.len()
            invariant
                self.cursor <= i <= self.content.len(),
                v@ == self.content@.subrange(0, self.cursor as int).push(c) + self.content@.subrange(
                    self.cursor as int,
                    i as int,
                ),
            decreases self.content.len() - i,
        {
            proof {
                assert(self.content@.subrange(self.cursor as int, i + 1) =~= self.content@.subrange(
                    self.cursor as int,
                    i as int,
                ).push(self.content@[i as int]));
            }
            v.push(self.content[i]);
            i = i + 1;
        }
        proof {
            assert(v@ =~= self.content@.insert(self.cursor as int, c));
        }
        self.content = v;
        self.cursor = self.cursor + 1;
    }

    /// Inserts a line break at the cursor.
    pub fn insert_newline(&mut self)
        ensures
            final(self).text() == old(self).text().insert(old(self).pos() as int, '\n'),
            final(self).pos() == old(self).pos() + 1,
    {
        self.insert('\n');
    }

    /// Deletes the character before the cursor, if any.
    pub fn backspace(&mut self)
        ensures
            old(self).pos() == 0 ==> final(self).text() == old(self).text() && final(self).pos() == 0,
            old(self).pos() > 0 ==> final(self).text() == old(self).text().remove(
                old(self).pos() - 1,
            ) && final(self).pos() == old(self).pos() - 1,
    {
        proof {
            use_type_invariant(&*self);
        }
        if self.cursor > 0 {
            let c = self.cursor;
            self.cut_to(c - 1, c);
            proof {
                assert(cut(old(self).text(), c - 1, c as int) =~= old(self).text().remove(c - 1));
            }
        }
    }

    /// Replaces the characters in `[start, end)` by nothing and puts the cursor at `start`.
    fn cut_to(&mut self, start: usize, end: usize)
        requires
            start <= end,
            end == old(self).pos(),
        ensures
            final(self).text() == cut(old(self).text(), start as int, end as int),
            final(self).pos() == start,
    {
        proof {
            use_type_invariant(&*self);
        }
        let mut kept: Vec<char> = Vec::new();
        let mut i: usize = 0;
        while i < start
            invariant
                i <= start <= end <= self.content.len(),
                kept@ == self.content@.subrange(0, i as int),
            decreases start - i,
        {
            kept.push(self.content[i]);
            i = i + 1;
        }
        let mut j: usize = end;
        while j < self.content.len()
            invariant
                start <= end <= j <= self.content.len(),
                kept@ == self.content@.subrange(0, start as int) + self.content@.subrange(
                    end as int,
                    j as int,
                ),
            decreases self.content.len() - j,
        {
            proof {
                assert(self.content@.subrange(end as int, j + 1) =~= self.content@.subrange(
                    end as int,
                    j as int,
                ).push(self.content@[j as int]));
            }
            kept.push(self.content[j]);
            j = j + 1;
        }
        self.cursor = start;
        self.content = kept;
    }

    /// Deletes the word before the cursor together with the whitespace between
    /// it and the cursor.
    pub fn delete_word_before_cursor(&mut self)
        ensures
            final(self).text() == cut(
                old(self).text(),
                word_start_before(old(self).text(), old(self).pos() as int),
                old(self).pos() as int,
            ),
            final(self).pos() == word_start_before(old(self).text(), old(self).pos() as int),
    {
        proof {
            use_type_invariant(&*self);
        }
        if self.cursor == 0 {
            proof {
                assert(cut(self.content@, 0, 0) =~= self.content@);
            }
            return;
        }
        let mut end = self.cursor;
        while end > 0 && is_whitespace(self.content[end - 1])
            invariant
                end <= self.cursor <= self.content.len(),
                skip_white_back(self.content@, end as int) == skip_white_back(
                    self.content@,
                    self.cursor as int,
                ),
            decreases end,
        {
            end = end - 1;
        }
        let mid = end;
        while end > 0 && !is_whitespace(self.content[end - 1])
            invariant
                end <= mid <= self.cursor <= self.content.len(),
                mid == skip_white_back(self.content@, self.cursor as int),
                skip_word_back(self.content@, end as int) == skip_word_back(
                    self.content@,
                    mid as int,
                ),
            decreases end,
        {
            end = end - 1;
        }
        let c = self.cursor;
        self.cut_to(end, c);
    }

    /// Deletes from the start of the cursor's line to the cursor.
    pub fn delete_to_start_of_line(&mut self)
        ensures
            final(self).text() == cut(
                old(self).text(),
                line_start(old(self).text(), old(self).pos() as int),
                old(self).pos() as int,
            ),
            final(self).pos() == line_start(old(self).text(), old(self).pos() as int),
    {
        proof {
            use_type_invariant(&*self);
        }
        if self.cursor == 0 {
            self.backspace();
            proof {
                assert(cut(old(self).text(), 0, 0) =~= old(self).text());
            }
            return;
        }
        proof {
            lemma_rfind_char_before_bounds(self.content@, '\n', self.cursor as int);
        }
        let start = match rfind_char(&self.content, '\n', self.cursor) {
            Some(i) => i + 1,
            None => 0,
        };
        let c = self.cursor;
        self.cut_to(start, c);
    }

    /// Moves the cursor one character left.
    pub fn move_left(&mut self)
        ensures
            final(self).text() == old(self).text(),
            final(self).pos() == if old(self).pos() > 0 {
                old(self).pos() - 1
            } else {
                0
            },
    {
        proof {
            use_type_invariant(&*self);
        }
        if self.cursor > 0 {
            self.cursor = self.cursor - 1;
        }
    }

    /// Moves the cursor one character right.
    pub fn move_right(&mut self)
        ensures
            final(self).text() == old(self).text(),
            final(self).pos() == if old(self).pos() < old(self).text().len() {
                old(self).pos() + 1
            } else {
                old(self).pos()
            },
    {
        proof {
            use_type_invariant(&*self);
        }
        if self.cursor < self.content.len() {
            self.cursor = self.cursor + 1;
        }
    }

    /// Moves the cursor onto the line break before it, or to the start of the
    /// text. Answers whether the cursor moved.
    pub fn move_up(&mut self) -> (moved: bool)
        ensures
            final(self).text() == old(self).text(),
            moved == (rfind_char_before(old(self).text(), '\n', old(self).pos() as int) is Some
                || old(self).pos() > 0),
            final(self).pos() == match rfind_char_before(
                old(self).text(),
                '\n',
                old(self).pos() as int,
            ) {
                Some(i) => i,
                None => 0,
            },
    {
        proof {
            use_type_invariant(&*self);
            lemma_rfind_char_before_bounds(self.content@, '\n', self.cursor as int);
        }
        match rfind_char(&self.content, '\n', self.cursor) {
            Some(p) => {
                self.cursor = p;
                true
            },
            None => {
                if self.cursor > 0 {
                    self.cursor = 0;
                    true
                } else {
                    false
                }
            },
        }
    }

    /// Moves the cursor to the next line break after the character under it, or
    /// to the end of the text. Answers whether the cursor moved. The character
    /// under the cursor must be a single UTF-8 byte.
    pub fn move_down(&mut self) -> (moved: bool)
        requires
            old(self).pos() < old(self).text().len() ==> (old(self).text()[old(
                self,
            ).pos() as int] as u32) < 0x80,
        ensures
            final(self).text() == old(self).text(),
            moved == (old(self).pos() < old(self).text().len()),
            final(self).pos() == if old(self).pos() < old(self).text().len() {
                line_end(old(self).text(), (old(self).pos() + 1) as int) as nat
            } else {
                old(self).pos()
            },
    {
        proof {
            use_type_invariant(&*self);
        }
        if self.cursor < self.content.len() {
            proof {
                lemma_find_char_from_bounds(self.content@, '\n', self.cursor + 1);
            }
            match find_char(&self.content, '\n', self.cursor + 1) {
                Some(p) => {
                    self.cursor = p;
                },
                None => {
                    self.cursor = self.content.len();
                },
            }
            true
        } else {
            false
        }
    }

    /// Moves the cursor to the start of its line.
    pub fn move_to_start_of_line(&mut self)
        ensures
            final(self).text() == old(self).text(),
            final(self).pos() == line_start(old(self).text(), old(self).pos() as int),
    {
        proof {
            use_type_invariant(&*self);
            lemma_rfind_char_before_bounds(self.content@, '\n', self.cursor as int);
        }
        match rfind_char(&self.content, '\n', self.cursor) {
            Some(i) => {
                self.cursor = i + 1;
            },
            None => {
                self.cursor = 0;
            },
        }
    }

    /// Moves the cursor to the end of its line.
    pub fn move_to_end_of_line(&mut self)
        ensures
            final(self).text() == old(self).text(),
            final(self).pos() == line_end(old(self).text(), old(self).pos() as int),
    {
        proof {
            use_type_invariant(&*self);
            lemma_find_char_from_bounds(self.content@, '\n', self.cursor as int);
        }
        match find_char(&self.content, '\n', self.cursor) {
            Some(i) => {
                self.cursor = i;
            },
            None => {
                self.cursor = self.content.len();
            },
        }
    }

    /// Moves the cursor to the start of the word before it.
    pub fn move_word_left(&mut self)
        ensures
            final(self).text() == old(self).text(),
            final(self).pos() == word_start_before(old(self).text(), old(self).pos() as int),
    {
        proof {
            use_type_invariant(&*self);
        }
        let mut end = self.cursor;
        while end > 0 && is_whitespace(self.content[end - 1])
            invariant
                end <= self.cursor <= self.content.len(),
                skip_white_back(self.content@, end as int) == skip_white_back(
                    self.content@,
                    self.cursor as int,
                ),
            decreases end,
        {
            end = end - 1;
        }
        let mid = end;
        while end > 0 && !is_whitespace(self.content[end - 1])
            invariant
                end <= mid <= self.cursor <= self.content.len(),
                mid == skip_white_back(self.content@, self.cursor as int),
                skip_word_back(self.content@, end as int) == skip_word_back(
                    self.content@,
                    mid as int,
                ),
            decreases end,
        {
            end = end - 1;
        }
        self.cursor = end;
    }

    /// Moves the cursor to the end of the word after it.
    pub fn move_word_right(&mut self)
        ensures
            final(self).text() == old(self).text(),
            final(self).pos() == word_end_after(old(self).text(), old(self).pos() as int),
    {
        proof {
            use_type_invariant(&*self);
        }
        let mut p = self.cursor;
        while p < self.content.len() && is_whitespace(self.content[p])
            invariant
                self.cursor <= p <= self.content.len(),
                skip_white_fwd(self.content@, p as int) == skip_white_fwd(
                    self.content@,
                    self.cursor as int,
                ),
            decreases self.content.len() - p,
        {
            p = p + 1;
        }
        let mid = p;
        while p < self.content.len() && !is_whitespace(self.content[p])
            invariant
                self.cursor <= mid <= p <= self.content.len(),
                mid == skip_white_fwd(self.content@, self.cursor as int),
                skip_word_fwd(self.content@, p as int) == skip_word_fwd(self.content@, mid as int),
            decreases self.content.len() - p,
        {
            p = p + 1;
        }
        self.cursor = p;
    }

    /// The text hard-wrapped at `width` columns.
    pub fn wrapped(&self, width: usize) -> (lines: Vec<String>)
        ensures
            string_views(lines@) == wrap_hard_spec(self.text(), width as nat),
    {
        wrap_chars(&self.content, width)
    }

    /// Column and row of the cursor when the text is shown wrapped in a box
    /// `width` columns wide, each narrowed to `u16`.
    pub fn cursor_xy(&self, width: usize) -> (xy: (u16, u16))
        ensures
            xy.0 == cursor_xy_spec(self.text(), self.pos(), width as nat).0 % 0x10000,
            xy.1 == cursor_xy_spec(self.text(), self.pos(), width as nat).1 % 0x10000,
    {
        proof {
            use_type_invariant(self);
        }
        let s = &self.content;
        let ghost sv = s@;
        // byte offset of the cursor
        let mut target: u128 = 0;
        let mut i: usize = 0;
        while i < self.cursor
            invariant
                i <= self.cursor <= s.len(),
                sv == s@,
                target == utf8_total(sv.take(i as int)),
                target <= 4 * i,
            decreases self.cursor - i,
        {
            proof {
                assert(sv.take(i + 1).drop_last() =~= sv.take(i as int));
            }
            target = target + char_utf8_len(s[i]) as u128;
            i = i + 1;
        }
        let mut seen: u128 = 0;
        let mut y: u128 = 0;
        let mut col: u128 = 0;
        let mut k: usize = 0;
        let ghost full = cursor_xy_spec(sv, self.cursor as nat, width as nat);
        while k < s.len()
            invariant
                k <= s.len(),
                sv == s@,
                full == cursor_xy_spec(self.text(), self.pos(), width as nat),
                seen <= 4 * k,
                y <= k,
                col <= 3 * k,
                full == xy_from(
                    sv,
                    k as int,
                    width as nat,
                    target as nat,
                    seen as nat,
                    y as nat,
                    col as nat,
                ),
            decreases s.len() - k,
        {
            let c = s[k];
            if c == '\n' {
                if seen == target {
                    proof {
                        assert(sv[k as int] == '\n');
                        assert(full == (col as nat, y as nat));
                    }
                    return (((col % 0x10000) as u16), ((y % 0x10000) as u16));
                } else if seen < target {
                    seen = seen + 1;
                    y = y + 1;
                }
                col = 0;
            } else if c == '\r' && k + 1 < s.len() && s[k + 1] == '\n' {
            } else if seen == target {
                return (((col % 0x10000) as u16), ((y % 0x10000) as u16));
            } else {
                let w = char_columns(c) as u128;
                if col + w > width as u128 {
                    y = y + 1;
                    col = w;
                } else {
                    col = col + w;
                }
                seen = seen + char_utf8_len(c) as u128;
            }
            k = k + 1;
        }
        if s.len() > 0 && s[s.len() - 1] != '\n' {
            if seen == target {
                return (((col % 0x10000) as u16), ((y % 0x10000) as u16));
            } else if seen < target {
                return (0, (((y + 1) % 0x10000) as u16));
            }
        }
        (0, ((y % 0x10000) as u16))
    }
}

} // verus!

verus! {

proof fn lemma_skip_white_back(s: Seq<char>, end: int)
    requires
        0 <= end <= s.len(),
    ensures
        0 <= skip_white_back(s, end) <= end,
    decreases end,
{
    if end > 0 && unicode_white_space(s[end - 1]) {
        lemma_skip_white_back(s, end - 1);
    }
}

proof fn lemma_skip_word_back(s: Seq<char>, end: int)
    requires
        0 <= end <= s.len(),
    ensures
        0 <= skip_word_back(s, end) <= end,
    decreases end,
{
    if end > 0 && !unicode_white_space(s[end - 1]) {
        lemma_skip_word_back(s, end - 1);
    }
}

proof fn lemma_skip_white_fwd(s: Seq<char>, start: int)
    requires
        0 <= start <= s.len(),
    ensures
        start <= skip_white_fwd(s, start) <= s.len(),
    decreases s.len() - start,
{
    if start < s.len() && unicode_white_space(s[start]) {
        lemma_skip_white_fwd(s, start + 1);
    }
}

proof fn lemma_skip_word_fwd(s: Seq<char>, start: int)
    requires
        0 <= start <= s.len(),
    ensures
        start <= skip_word_fwd(s, start) <= s.len(),
    decreases s.len() - start,
{
    if start < s.len() && !unicode_white_space(s[start]) {
        lemma_skip_word_fwd(s, start + 1);
    }
}

/// The positions the editor moves to stay within the text and, for the
/// backward ones, at or before `p`.
pub proof fn lemma_positions_in_text(s: Seq<char>, p: int)
    requires
        0 <= p <= s.len(),
    ensures
        0 <= word_start_before(s, p) <= p,
        p <= word_end_after(s, p) <= s.len(),
        0 <= line_start(s, p) <= p,
        p <= line_end(s, p) <= s.len(),
{
    lemma_skip_white_back(s, p);
    lemma_skip_word_back(s, skip_white_back(s, p));
    lemma_skip_white_fwd(s, p);
    lemma_skip_word_fwd(s, skip_white_fwd(s, p));
    lemma_rfind_char_before_bounds(s, '\n', p);
    lemma_find_char_from_bounds(s, '\n', p);
}

} // verus!

verus! {

/// Going back from `end` over whitespace stops at `q`: everything in
/// `[q, end)` is whitespace and the character before `q`, if any, is not.
pub proof fn lemma_skip_white_back_stops(s: Seq<char>, end: int)
    requires
        0 <= end <= s.len(),
    ensures
        0 <= skip_white_back(s, end) <= end,
        forall|i: int| skip_white_back(s, end) <= i < end ==> unicode_white_space(#[trigger] s[i]),
        skip_white_back(s, end) == 0 || !unicode_white_space(s[skip_white_back(s, end) - 1]),
    decreases end,
{
    if end > 0 && unicode_white_space(s[end - 1]) {
        lemma_skip_white_back_stops(s, end - 1);
    }
}

/// Going back from `end` over non-whitespace stops at `q`: nothing in
/// `[q, end)` is whitespace and the character before `q`, if any, is.
pub proof fn lemma_skip_word_back_stops(s: Seq<char>, end: int)
    requires
        0 <= end <= s.len(),
    ensures
        0 <= skip_word_back(s, end) <= end,
        forall|i: int| skip_word_back(s, end) <= i < end ==> !unicode_white_space(#[trigger] s[i]),
        skip_word_back(s, end) == 0 || unicode_white_space(s[skip_word_back(s, end) - 1]),
    decreases end,
{
    if end > 0 && !unicode_white_space(s[end - 1]) {
        lemma_skip_word_back_stops(s, end - 1);
    }
}

/// Going forward from `start` over whitespace stops at `q`: everything in
/// `[start, q)` is whitespace and the character at `q`, if any, is not.
pub proof fn lemma_skip_white_fwd_stops(s: Seq<char>, start: int)
    requires
        0 <= start <= s.len(),
    ensures
        start <= skip_white_fwd(s, start) <= s.len(),
        forall|i: int| start <= i < skip_white_fwd(s, start) ==> unicode_white_space(#[trigger] s[i]),
        skip_white_fwd(s, start) == s.len() || !unicode_white_space(s[skip_white_fwd(s, start)]),
    decreases s.len() - start,
{
    if start < s.len() && unicode_white_space(s[start]) {
        lemma_skip_white_fwd_stops(s, start + 1);
    }
}

/// Going forward from `start` over non-whitespace stops at `q`: nothing in
/// `[start, q)` is whitespace and the character at `q`, if any, is.
pub proof fn lemma_skip_word_fwd_stops(s: Seq<char>, start: int)
    requires
        0 <= start <= s.len(),
    ensures
        start <= skip_word_fwd(s, start) <= s.len(),
        forall|i: int| start <= i < skip_word_fwd(s, start) ==> !unicode_white_space(#[trigger] s[i]),
        skip_word_fwd(s, start) == s.len() || unicode_white_space(s[skip_word_fwd(s, start)]),
    decreases s.len() - start,
{
    if start < s.len() && !unicode_white_space(s[start]) {
        lemma_skip_word_fwd_stops(s, start + 1);
    }
}

} // verus!

verus! {

use crate::tui::utils::{columns, wrap_from};

proof fn lemma_utf8_total_step(t: Seq<char>, k: int)
    requires
        0 <= k < t.len(),
    ensures
        utf8_total(t.take(k + 1)) == utf8_total(t.take(k)) + utf8_len(t[k]),
{
    assert(t.take(k + 1).drop_last() =~= t.take(k));
    assert(t.take(k + 1).last() == t[k]);
}

proof fn lemma_utf8_total_grows(t: Seq<char>, a: int, b: int)
    requires
        0 <= a <= b <= t.len(),
    ensures
        utf8_total(t.take(a)) + (b - a) <= utf8_total(t.take(b)),
    decreases b - a,
{
    if a < b {
        lemma_utf8_total_grows(t, a, b - 1);
        lemma_utf8_total_step(t, b - 1);
    }
}

proof fn lemma_cursor_wrap_from(
    t: Seq<char>,
    p: int,
    width: nat,
    k: int,
    y: nat,
    lines: Seq<Seq<char>>,
    current: Seq<char>,
)
    requires
        width > 0,
        0 <= k <= p <= t.len(),
        forall|i: int| 0 <= i < t.len() ==> #[trigger] t[i] != '\r',
        y == lines.len(),
        (k == 0 || t[k - 1] == '\n') ==> current.len() == 0,
    ensures
        ({
            let w = wrap_from(t.take(p), k, width, lines, current, columns(current));
            xy_from(t, k, width, utf8_total(t.take(p)), utf8_total(t.take(k)), y, columns(current)) == (
            columns(w.last()), (w.len() - 1) as nat)
        }),
    decreases p - k,
{
    let q = t.take(p);
    let target = utf8_total(q);
    let seen = utf8_total(t.take(k));
    let col = columns(current);
    if k == p {
        assert(wrap_from(q, k, width, lines, current, col) == lines.push(current));
        if k < t.len() {
            assert(t[k] != '\r');
        } else if t.len() > 0 && t.last() == '\n' {
            assert(t[k - 1] == '\n');
            assert(current.len() == 0);
        } else if t.len() == 0 {
            assert(current.len() == 0);
        }
    } else {
        assert(q[k] == t[k]);
        lemma_utf8_total_step(t, k);
        lemma_utf8_total_grows(t, k + 1, p);
        assert(seen < target);
        let c = t[k];
        if c == '\n' {
            assert(utf8_len(c) == 1);
            assert(columns(Seq::<char>::empty()) == 0);
            lemma_cursor_wrap_from(t, p, width, k + 1, y + 1, lines.push(current), Seq::empty());
        } else if col + width_of(c) > width {
            assert(seq![c].drop_last() =~= Seq::<char>::empty());
            assert(columns(seq![c]) == width_of(c));
            lemma_cursor_wrap_from(t, p, width, k + 1, y + 1, lines.push(current), seq![c]);
        } else {
            assert(current.push(c).drop_last() =~= current);
            assert(columns(current.push(c)) == col + width_of(c));
            lemma_cursor_wrap_from(t, p, width, k + 1, y, lines, current.push(c));
        }
    }
}

/// The cursor is drawn where the wrapped text before it ends: in a box at
/// least one column wide, for a text without carriage returns, the cursor's
/// row is the last of the lines that hard-wrapping the text before the cursor
/// gives (so every wrapped row and every line break before it counts), and
/// its column is that last line's width.
pub proof fn lemma_cursor_follows_wrapping(t: Seq<char>, p: nat, width: nat)
    requires
        width > 0,
        p <= t.len(),
        forall|i: int| 0 <= i < t.len() ==> #[trigger] t[i] != '\r',
    ensures
        wrap_hard_spec(t.take(p as int), width).len() >= 1,
        cursor_xy_spec(t, p, width) == (
            columns(wrap_hard_spec(t.take(p as int), width).last()),
            (wrap_hard_spec(t.take(p as int), width).len() - 1) as nat,
        ),
{
    assert(t.take(0) =~= Seq::<char>::empty());
    assert(columns(Seq::<char>::empty()) == 0);
    lemma_cursor_wrap_from(t, p as int, width, 0, 0, Seq::empty(), Seq::empty());
    crate::tui::utils::lemma_wrap_lines_fit(t.take(p as int), width);
}

} // verus!
