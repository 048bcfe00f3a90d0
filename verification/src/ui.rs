//! A simple chat view: its lines and its scroll offset.

use vstd::prelude::*;
use crate::agent::session::{Message, Role};
use crate::text::{concat2, str_chars, string_push, trim_start, trim_start_str};
use crate::tools::ToolCall;
use crate::tui::line::{line_views, message_layout, message_lines, LayoutLine, LineView};
use crate::tui::scroll::max_scroll;

verus! {

/// The line shown for a tool call: its name, a colon, and the first 40
/// characters of its arguments.
pub open spec fn short_call_text(c: ToolCall) -> Seq<char> {
    c.name@ + ": "@ + c.arguments@.take(if c.arguments@.len() < 40 { c.arguments@.len() as int } else { 40 })
}

/// The lines of one message in this view.
pub open spec fn view_lines(m: Message, width: nat) -> Seq<LineView> {
    match m.role {
        Role::Assistant => seq![LineView::Markdown(trim_start(m.content@))] + m.tool_calls@.map_values(
            |c: ToolCall| LineView::ToolCall(short_call_text(c)),
        ) + seq![LineView::Blank],
        _ => message_lines(m, width),
    }
}

/// The lines of all messages, one after the other.
pub open spec fn view_messages_lines(ms: Seq<Message>, width: nat) -> Seq<LineView>
    decreases ms.len(),
{
    if ms.len() == 0 {
        Seq::empty()
    } else {
        view_messages_lines(ms.drop_last(), width) + view_lines(ms.last(), width)
    }
}

fn short_call(c: &ToolCall) -> (s: String)
    ensures
        s@ == short_call_text(*c),
{
    let mut s = concat2(c.name.as_str(), ": ");
    let args = str_chars(c.arguments.as_str());
    let n: usize = if args.len() < 40 {
        args.len()
    } else {
        40
    };
    let ghost prefix = s@;
    let mut i: usize = 0;
    while i < n
        invariant
            i <= n <= args@.len(),
            s@ == prefix + args@.take(i as int),
        decreases n - i,
    {
        proof {
            assert(args@.take(i + 1) =~= args@.take(i as int).push(args@[i as int]));
        }
        string_push(&mut s, args[i]);
        i = i + 1;
    }
    s
}

fn view_layout(m: &Message, width: usize) -> (ls: Vec<LayoutLine>)
    ensures
        line_views(ls@) == view_lines(*m, width as nat),
{
    match m.role {
        Role::Assistant => {
            let mut ls: Vec<LayoutLine> = Vec::new();
            ls.push(LayoutLine::Markdown(trim_start_str(m.content.as_str())));
            let ghost calls = m.tool_calls@;
            let mut i: usize = 0;
            while i < m.tool_calls.len()
                invariant
                    i <= m.tool_calls@.len(),
                    calls == m.tool_calls@,
                    line_views(ls@) == seq![LineView::Markdown(trim_start(m.content@))] + calls.take(
                        i as int,
                    ).map_values(|c: ToolCall| LineView::ToolCall(short_call_text(c))),
                decreases m.tool_calls@.len() - i,
            {
                let t = short_call(&m.tool_calls[i]);
                let ghost before = ls@;
                ls.push(LayoutLine::ToolCall(t));
                proof {
                    assert(line_views(ls@) =~= line_views(before).push(LineView::ToolCall(t@)));
                    assert(calls.take(i + 1).map_values(|c: ToolCall| LineView::ToolCall(short_call_text(c)))
                        =~= calls.take(i as int).map_values(
                        |c: ToolCall| LineView::ToolCall(short_call_text(c)),
                    ).push(LineView::ToolCall(short_call_text(calls[i as int]))));
                }
                i = i + 1;
            }
            ls.push(LayoutLine::Blank);
            proof {
                assert(calls.take(i as int) =~= calls);
                assert(line_views(ls@) =~= view_lines(*m, width as nat));
            }
            ls
        },
        _ => message_layout(m, width),
    }
}

/// The lines of the chat: every message's lines, then the answer being streamed
/// when a turn is running and it is not empty.
pub fn build_chat_lines(
    messages: &[Message],
    available_width: usize,
    current_response: &str,
    streaming: bool,
) -> (ls: Vec<LayoutLine>)
    ensures
        line_views(ls@) == view_messages_lines(messages@, available_width as nat) + if streaming
            && current_response@.len() > 0 {
            seq![LineView::Markdown(trim_start(current_response@))]
        } else {
            Seq::<LineView>::empty()
        },
{
    let mut ls: Vec<LayoutLine> = Vec::new();
    let mut i: usize = 0;
    proof {
        assert(line_views(ls@) =~= view_messages_lines(messages@.take(0), available_width as nat));
    }
    while i < messages.len()
        invariant
            i <= messages@.len(),
            line_views(ls@) == view_messages_lines(messages@.take(i as int), available_width as nat),
        decreases messages@.len() - i,
    {
        let mut more = view_layout(&messages[i], available_width);
        let ghost before = ls@;
        ls.append(&mut more);
        proof {
            assert(messages@.take(i + 1).drop_last() =~= messages@.take(i as int));
            assert(line_views(ls@) =~= line_views(before) + view_lines(messages@[i as int], available_width as nat));
        }
        i = i + 1;
    }
    proof {
        assert(messages@.take(i as int) =~= messages@);
    }
    let resp = str_chars(current_response);
    if streaming && resp.len() > 0 {
        let ghost before = ls@;
        ls.push(LayoutLine::Markdown(trim_start_str(current_response)));
        proof {
            assert(line_views(ls@) =~= line_views(before).push(LineView::Markdown(trim_start(current_response@))));
        }
    } else {
        proof {
            assert(line_views(ls@) =~= line_views(ls@) + Seq::<LineView>::empty());
        }
    }
    ls
}

/// The scroll offset for `line_count` lines in `visible_height` rows: the last
/// page when following the end, otherwise `current` kept within it.
pub fn compute_scroll(line_count: usize, visible_height: u16, auto_scroll: bool, current: u16) -> (r:
    u16)
    ensures
        r == if auto_scroll {
            max_scroll(line_count, visible_height)
        } else if current < max_scroll(line_count, visible_height) {
            current
        } else {
            max_scroll(line_count, visible_height)
        },
{
    let total_lines: u16 = (line_count % 0x10000) as u16;
    let max: u16 = total_lines.saturating_sub(visible_height);
    if auto_scroll {
        max
    } else if current < max {
        current
    } else {
        max
    }
}

} // verus!
