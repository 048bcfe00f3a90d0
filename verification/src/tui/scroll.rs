//! Scroll position of the chat area.

use vstd::prelude::*;

verus! {

/// The largest offset at which `line_count` lines (narrowed to `u16`) still fill
/// `visible_height` rows.
pub open spec fn max_scroll(line_count: usize, visible_height: u16) -> u16 {
    let total = (line_count as nat % 0x10000) as int;
    if total > visible_height {
        (total - visible_height) as u16
    } else {
        0
    }
}

/// The offset after fixing it for `line_count` lines in `visible_height` rows:
/// the last page when following the end, otherwise `offset` kept within it.
pub open spec fn updated_offset(follows: bool, offset: u16, line_count: usize, visible_height: u16) -> u16 {
    if follows {
        max_scroll(line_count, visible_height)
    } else if offset < max_scroll(line_count, visible_height) {
        offset
    } else {
        max_scroll(line_count, visible_height)
    }
}

/// The view never scrolls past the last page, and a view that follows the end
/// shows exactly the last page.
pub proof fn lemma_offset_within_last_page(
    follows: bool,
    offset: u16,
    line_count: usize,
    visible_height: u16,
)
    ensures
        updated_offset(follows, offset, line_count, visible_height) <= max_scroll(
            line_count,
            visible_height,
        ),
        follows ==> updated_offset(follows, offset, line_count, visible_height) == max_scroll(
            line_count,
            visible_height,
        ),
{
}

pub struct Scroll {
    current: u16,
    auto: bool,
}

impl Scroll {
    /// The scroll offset, in rows from the top.
    pub closed spec fn offset(&self) -> u16 {
        self.current
    }

    /// Whether the view follows the end of the chat.
    pub closed spec fn follows_end(&self) -> bool {
        self.auto
    }

    pub fn new() -> (s: Self)
        ensures
            s.offset() == 0,
            s.follows_end(),
    {
        Scroll { current: 0, auto: true }
    }

    /// Fixes the offset for a chat of `line_count` lines shown in
    /// `visible_height` rows: the last page when following the end, otherwise
    /// the current offset kept within the last page. Returns the new offset.
    pub fn update_scroll(&mut self, line_count: usize, visible_height: u16) -> (r: u16)
        ensures
            r == final(self).offset(),
            final(self).follows_end() == old(self).follows_end(),
            r == updated_offset(old(self).follows_end(), old(self).offset(), line_count, visible_height),
    {
        let total_lines: u16 = (line_count % 0x10000) as u16;
        let max_scroll: u16 = total_lines.saturating_sub(visible_height);
        self.current = if self.auto {
            max_scroll
        } else if self.current < max_scroll {
            self.current
        } else {
            max_scroll
        };
        self.current
    }

    /// Scrolls one row up and stops following the end.
    pub fn scroll_up(&mut self)
        ensures
            !final(self).follows_end(),
            final(self).offset() == if old(self).offset() > 0 {
                (old(self).offset() - 1) as u16
            } else {
                0
            },
    {
        self.auto = false;
        self.current = self.current.saturating_sub(1);
    }

    /// Scrolls one row down.
    pub fn scroll_down(&mut self)
        ensures
            final(self).follows_end() == old(self).follows_end(),
            final(self).offset() == if old(self).offset() < u16::MAX {
                (old(self).offset() + 1) as u16
            } else {
                u16::MAX
            },
    {
        self.current = self.current.saturating_add(1);
    }

    /// Follows the end again.
    pub fn scroll_to_end(&mut self)
        ensures
            final(self).follows_end(),
            final(self).offset() == old(self).offset(),
    {
        self.auto = true;
    }

    pub fn set_auto(&mut self, auto: bool)
        ensures
            final(self).follows_end() == auto,
            final(self).offset() == old(self).offset(),
    {
        self.auto = auto;
    }

    /// Back to the top, following the end.
    pub fn reset(&mut self)
        ensures
            final(self).follows_end(),
            final(self).offset() == 0,
    {
        self.current = 0;
        self.auto = true;
    }
}

} // verus!
