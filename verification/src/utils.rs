//! Text helpers of the chat view.

use vstd::prelude::*;
use crate::tui::utils::{string_views, wrap_hard_spec};

verus! {

/// Hard-wrap a string at character width boundaries.
pub fn wrap_hard(text: &str, width: usize) -> (lines: Vec<String>)
    ensures
        string_views(lines@) == wrap_hard_spec(text@, width as nat),
{
    crate::tui::utils::wrap_hard(text, width)
}

} // verus!
