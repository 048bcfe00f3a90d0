//! The lines that the chat area shows for each message, before styling and
//! markdown rendering.

use vstd::prelude::*;
use crate::agent::session::{Message, Role};
use crate::text::{
    char_columns, concat2, str_chars, str_width, string_from_chars, string_push, trim,
    trim_start, trim_start_str, trim_str, unicode_str_width, width_of,
};
use crate::tools::ToolCall;
use crate::tui::utils::{string_views, wrap_hard, wrap_hard_spec};
use std::collections::HashMap;

verus! {

/// One line of the chat area.
pub enum LayoutLine {
    /// A line of `width` spaces on the user background.
    UserPadding(usize),
    /// Two spaces, `text`, then `right_pad` spaces, on the user background.
    UserText { text: String, right_pad: usize },
    /// Markdown text of the assistant, to be rendered, each rendered line
    /// indented by two spaces.
    Markdown(String),
    /// Two spaces then `text` in the tool-call color.
    ToolCall(String),
    /// An empty line.
    Blank,
}

/// A layout line as plain values.
pub enum LineView {
    UserPadding(nat),
    UserText(Seq<char>, nat),
    Markdown(Seq<char>),
    ToolCall(Seq<char>),
    Blank,
}

pub open spec fn line_view(l: LayoutLine) -> LineView {
    match l {
        LayoutLine::UserPadding(w) => LineView::UserPadding(w as nat),
        LayoutLine::UserText { text, right_pad } => LineView::UserText(text@, right_pad as nat),
        LayoutLine::Markdown(t) => LineView::Markdown(t@),
        LayoutLine::ToolCall(t) => LineView::ToolCall(t@),
        LayoutLine::Blank => LineView::Blank,
    }
}

pub open spec fn line_views(ls: Seq<LayoutLine>) -> Seq<LineView> {
    ls.map_values(|l: LayoutLine| line_view(l))
}

/// `a - b`, or 0 when `b >= a` (`usize::saturating_sub`).
pub open spec fn sat_sub(a: int, b: int) -> nat {
    if a > b {
        (a - b) as nat
    } else {
        0
    }
}

/// The text lines of a user message of `content` in a chat `width` columns wide.
pub open spec fn user_text_lines(content: Seq<char>, width: nat) -> Seq<LineView> {
    wrap_hard_spec(trim(content), sat_sub(width as int, 4)).map_values(
        |l: Seq<char>| LineView::UserText(l, sat_sub(width as int, unicode_str_width(l) + 2)),
    )
}

/// The characters of `args` that fit in `target` columns, taken from the start.
pub open spec fn fit_prefix(args: Seq<char>, target: nat, used: nat) -> Seq<char>
    decreases args.len(),
{
    if args.len() == 0 || used + width_of(args[0]) > target {
        Seq::empty()
    } else {
        seq![args[0]] + fit_prefix(args.drop_first(), target, used + width_of(args[0]))
    }
}

/// The line shown for a tool call in a chat `width` columns wide: its name, a
/// colon, and its arguments, cut with `...` when they do not fit.
pub open spec fn tool_call_text(c: ToolCall, width: nat) -> Seq<char> {
    let prefix = c.name@ + ": "@;
    let max_args = sat_sub(width as int, 2 + unicode_str_width(prefix));
    if unicode_str_width(c.arguments@) <= max_args {
        prefix + c.arguments@
    } else {
        prefix + fit_prefix(c.arguments@, sat_sub(max_args as int, 3), 0) + "..."@
    }
}

/// The lines of one message in a chat `width` columns wide.
pub open spec fn message_lines(m: Message, width: nat) -> Seq<LineView> {
    match m.role {
        Role::System => Seq::empty(),
        Role::Tool => Seq::empty(),
        Role::User => seq![LineView::UserPadding(width)] + user_text_lines(m.content@, width) + seq![
            LineView::UserPadding(width),
            LineView::Blank,
        ],
        Role::Assistant => seq![LineView::Markdown(trim_start(m.content@))] + m.tool_calls@.map_values(
            |c: ToolCall| LineView::ToolCall(tool_call_text(c, width)),
        ) + seq![LineView::Blank],
    }
}

/// The lines of all messages, one after the other.
pub open spec fn messages_lines(ms: Seq<Message>, width: nat) -> Seq<LineView>
    decreases ms.len(),
{
    if ms.len() == 0 {
        Seq::empty()
    } else {
        messages_lines(ms.drop_last(), width) + message_lines(ms.last(), width)
    }
}

/// The chat area: the lines of the messages, then the answer being streamed.
pub open spec fn chat_lines(ms: Seq<Message>, width: nat, response: Seq<char>, streaming: bool) -> Seq<
    LineView,
> {
    messages_lines(ms, width) + if streaming && response.len() > 0 {
        seq![LineView::Markdown(trim_start(response))]
    } else {
        Seq::empty()
    }
}

fn tool_call_line(c: &ToolCall, width: usize) -> (s: String)
    ensures
        s@ == tool_call_text(*c, width as nat),
{
    let mut line_text = concat2(c.name.as_str(), ": ");
    let prefix_width = str_width(line_text.as_str()) as u128;
    let max_args: u128 = if (width as u128) > 2 + prefix_width {
        (width as u128) - 2 - prefix_width
    } else {
        0
    };
    let args_width = str_width(c.arguments.as_str()) as u128;
    if args_width <= max_args {
        line_text.append(c.arguments.as_str());
        return line_text;
    }
    let target: u128 = if max_args > 3 {
        max_args - 3
    } else {
        0
    };
    let args = str_chars(c.arguments.as_str());
    let ghost prefix = line_text@;
    let mut used: u128 = 0;
    let mut i: usize = 0;
    proof {
        assert(args@.skip(0) =~= args@);
    }
    while i < args.len() && used + (char_columns(args[i]) as u128) <= target
        invariant
            i <= args.len(),
            used <= target,
            target <= usize::MAX,
            args@ == c.arguments@,
            fit_prefix(args@, target as nat, 0) == args@.take(i as int) + fit_prefix(
                args@.skip(i as int),
                target as nat,
                used as nat,
            ),
            line_text@ == prefix + args@.take(i as int),
        decreases args.len() - i,
    {
        let w = char_columns(args[i]) as u128;
        proof {
            assert(args@.skip(i as int)[0] == args@[i as int]);
            assert(args@.skip(i as int).drop_first() =~= args@.skip(i + 1));
        }
        used = used + w;
        string_push(&mut line_text, args[i]);
        proof {
            assert(args@.take(i + 1) =~= args@.take(i as int).push(args@[i as int]));
            assert(args@.take(i as int) + (seq![args@[i as int]] + fit_prefix(args@.skip(i + 1), target as nat, used as nat))
                =~= args@.take(i + 1) + fit_prefix(args@.skip(i + 1), target as nat, used as nat));
        }
        i = i + 1;
    }
    proof {
        if i == args.len() {
            assert(args@.skip(i as int) =~= Seq::<char>::empty());
        } else {
            assert(args@.skip(i as int)[0] == args@[i as int]);
        }
        assert(fit_prefix(args@.skip(i as int), target as nat, used as nat) =~= Seq::<char>::empty());
        assert(fit_prefix(args@, target as nat, 0) =~= args@.take(i as int));
    }
    line_text.append("...");
    line_text
}

/// The lines of one message in a chat `width` columns wide.
pub fn message_layout(m: &Message, width: usize) -> (ls: Vec<LayoutLine>)
    ensures
        line_views(ls@) == message_lines(*m, width as nat),
{
    let mut ls: Vec<LayoutLine> = Vec::new();
    match m.role {
        Role::System => {
            proof {
                assert(line_views(ls@) =~= Seq::<LineView>::empty());
            }
        },
        Role::Tool => {
            proof {
                assert(line_views(ls@) =~= Seq::<LineView>::empty());
            }
        },
        Role::User => {
            let user_width: usize = if width > 4 {
                width - 4
            } else {
                0
            };
            ls.push(LayoutLine::UserPadding(width));
            let trimmed = trim_str(m.content.as_str());
            let lines = wrap_hard(trimmed.as_str(), user_width);
            let ghost wl = string_views(lines@);
            let mut i: usize = 0;
            while i < lines.len()
                invariant
                    i <= lines@.len(),
                    wl == string_views(lines@),
                    wl == wrap_hard_spec(trim(m.content@), sat_sub(width as int, 4)),
                    line_views(ls@) == seq![LineView::UserPadding(width as nat)] + user_text_lines(
                        m.content@,
                        width as nat,
                    ).take(i as int),
                decreases lines@.len() - i,
            {
                let line_width = str_width(lines[i].as_str()) as u128;
                let right_pad: usize = if (width as u128) > line_width + 2 {
                    ((width as u128) - line_width - 2) as usize
                } else {
                    0
                };
                let ghost before = ls@;
                ls.push(LayoutLine::UserText { text: lines[i].clone(), right_pad });
                proof {
                    assert(line_views(ls@) =~= line_views(before).push(LineView::UserText(
                        lines@[i as int]@,
                        right_pad as nat,
                    )));
                    assert(wl[i as int] == lines@[i as int]@);
                    assert(user_text_lines(m.content@, width as nat)[i as int] == LineView::UserText(
                        wl[i as int],
                        sat_sub(width as int, unicode_str_width(wl[i as int]) + 2),
                    ));
                    assert(user_text_lines(m.content@, width as nat).take(i + 1) =~= user_text_lines(
                        m.content@,
                        width as nat,
                    ).take(i as int).push(user_text_lines(m.content@, width as nat)[i as int]));
                    assert(line_views(ls@) =~= seq![LineView::UserPadding(width as nat)]
                        + user_text_lines(m.content@, width as nat).take(i + 1));
                }
                i = i + 1;
            }
            ls.push(LayoutLine::UserPadding(width));
            ls.push(LayoutLine::Blank);
            proof {
                assert(user_text_lines(m.content@, width as nat).take(i as int) =~= user_text_lines(
                    m.content@,
                    width as nat,
                ));
                assert(line_views(ls@) =~= message_lines(*m, width as nat));
            }
        },
        Role::Assistant => {
            ls.push(LayoutLine::Markdown(trim_start_str(m.content.as_str())));
            let ghost calls = m.tool_calls@;
            let mut i: usize = 0;
            while i < m.tool_calls.len()
                invariant
                    i <= m.tool_calls@.len(),
                    calls == m.tool_calls@,
                    line_views(ls@) == seq![LineView::Markdown(trim_start(m.content@))] + calls.take(
                        i as int,
                    ).map_values(|c: ToolCall| LineView::ToolCall(tool_call_text(c, width as nat))),
                decreases m.tool_calls@.len() - i,
            {
                let t = tool_call_line(&m.tool_calls[i], width);
                let ghost before = ls@;
                ls.push(LayoutLine::ToolCall(t));
                proof {
                    assert(line_views(ls@) =~= line_views(before).push(LineView::ToolCall(t@)));
                    assert(calls.take(i + 1).map_values(
                        |c: ToolCall| LineView::ToolCall(tool_call_text(c, width as nat)),
                    ) =~= calls.take(i as int).map_values(
                        |c: ToolCall| LineView::ToolCall(tool_call_text(c, width as nat)),
                    ).push(LineView::ToolCall(tool_call_text(calls[i as int], width as nat))));
                    assert(calls.take(i + 1) =~= calls.take(i as int).push(calls[i as int]));
                    assert(line_views(ls@) =~= seq![LineView::Markdown(trim_start(m.content@))]
                        + calls.take(i + 1).map_values(
                        |c: ToolCall| LineView::ToolCall(tool_call_text(c, width as nat)),
                    ));
                }
                i = i + 1;
            }
            ls.push(LayoutLine::Blank);
            proof {
                assert(calls.take(i as int) =~= calls);
                assert(line_views(ls@) =~= message_lines(*m, width as nat));
            }
        },
    }
    ls
}

/// The lines of the chat area: every message's lines, then the streamed answer
/// when a turn is running and it is not empty.
pub fn chat_layout(messages: &[Message], width: usize, current_response: &str, streaming: bool) -> (ls:
    Vec<LayoutLine>)
    ensures
        line_views(ls@) == chat_lines(messages@, width as nat, current_response@, streaming),
{
    let mut ls: Vec<LayoutLine> = Vec::new();
    let mut i: usize = 0;
    proof {
        assert(line_views(ls@) =~= messages_lines(messages@.take(0), width as nat));
    }
    while i < messages.len()
        invariant
            i <= messages@.len(),
            line_views(ls@) == messages_lines(messages@.take(i as int), width as nat),
        decreases messages@.len() - i,
    {
        let mut more = message_layout(&messages[i], width);
        let ghost before = ls@;
        ls.append(&mut more);
        proof {
            assert(messages@.take(i + 1).drop_last() =~= messages@.take(i as int));
            assert(line_views(ls@) =~= line_views(before) + message_lines(messages@[i as int], width as nat));
        }
        i = i + 1;
    }
    proof {
        assert(messages@.take(i as int) =~= messages@);
    }
    let resp = str_chars(current_response);
    if streaming && resp.len() > 0 {
        let ghost before = ls@;
        ls.push(LayoutLine::Markdown(trim_start_str(current_response)));
        proof {
            assert(line_views(ls@) =~= line_views(before).push(LineView::Markdown(trim_start(current_response@))));
        }
    } else {
        proof {
            assert(line_views(ls@) =~= chat_lines(messages@, width as nat, current_response@, streaming));
        }
    }
    ls
}

} // verus!

verus! {

/// The chat's lines are each message's own lines, one message after the other:
/// laying out two runs of messages gives the lines of the first run followed by
/// those of the second, and a single message gives its own lines.
pub proof fn lemma_layout_per_message(a: Seq<Message>, b: Seq<Message>, m: Message, width: nat)
    ensures
        messages_lines(a + b, width) == messages_lines(a, width) + messages_lines(b, width),
        messages_lines(seq![m], width) == message_lines(m, width),
    decreases b.len(),
{
    if b.len() == 0 {
        assert(a + b =~= a);
        assert(messages_lines(a, width) + Seq::<LineView>::empty() =~= messages_lines(a, width));
    } else {
        lemma_layout_per_message(a, b.drop_last(), m, width);
        assert((a + b).drop_last() =~= a + b.drop_last());
        assert((a + b).last() == b.last());
        assert(messages_lines(a, width) + messages_lines(b.drop_last(), width) + message_lines(b.last(), width)
            =~= messages_lines(a, width) + (messages_lines(b.drop_last(), width) + message_lines(b.last(), width)));
    }
    let one = seq![m];
    assert(one.drop_last() =~= Seq::<Message>::empty());
    assert(one.last() == m);
    assert(messages_lines(one.drop_last(), width) =~= Seq::<LineView>::empty());
    assert(Seq::<LineView>::empty() + message_lines(m, width) =~= message_lines(m, width));
}

} // verus!

verus! {

broadcast use vstd::std_specs::hash::group_hash_axioms;

/// The line cache as plain values: for each message id, the width its lines
/// were laid out for and those lines.
pub type CacheView = Map<u128, (usize, Seq<LineView>)>;

pub open spec fn cache_view(c: Map<u128, (usize, Vec<LayoutLine>)>) -> CacheView {
    c.map_values(|e: (usize, Vec<LayoutLine>)| (e.0, line_views(e.1@)))
}

/// Whether the cache holds lines of message `m` laid out for `width`.
pub open spec fn cache_hit(c: CacheView, m: Message, width: usize) -> bool {
    c.contains_key(m.id) && c[m.id].0 == width
}

/// The lines shown for `m`: those cached under its id for this width, or its
/// own lines.
pub open spec fn lines_of_message(c: CacheView, m: Message, width: usize) -> Seq<LineView> {
    if cache_hit(c, m, width) {
        c[m.id].1
    } else {
        message_lines(m, width as nat)
    }
}

/// The cache after showing `m`: on a miss, the lines of every message but a
/// system message are stored under its id.
pub open spec fn cache_after(c: CacheView, m: Message, width: usize) -> CacheView {
    if cache_hit(c, m, width) || m.role == Role::System {
        c
    } else {
        c.insert(m.id, (width, message_lines(m, width as nat)))
    }
}

/// The lines of `ms` shown from cache `c`, one message after the other, and the
/// cache afterwards.
pub open spec fn cached_lines(c: CacheView, ms: Seq<Message>, width: usize) -> (Seq<LineView>, CacheView)
    decreases ms.len(),
{
    if ms.len() == 0 {
        (Seq::empty(), c)
    } else {
        let p = cached_lines(c, ms.drop_last(), width);
        (p.0 + lines_of_message(p.1, ms.last(), width), cache_after(p.1, ms.last(), width))
    }
}

/// The ids of the messages of `ms`.
pub open spec fn message_ids(ms: Seq<Message>) -> Set<u128> {
    Set::new(|k: u128| exists|i: int| 0 <= i < ms.len() && ms[i].id == k)
}

/// The streamed answer's line, when a turn runs and it is not empty.
pub open spec fn response_lines(response: Seq<char>, streaming: bool) -> Seq<LineView> {
    if streaming && response.len() > 0 {
        seq![LineView::Markdown(trim_start(response))]
    } else {
        Seq::empty()
    }
}

fn copy_line(l: &LayoutLine) -> (r: LayoutLine)
    ensures
        line_view(r) == line_view(*l),
{
    match l {
        LayoutLine::UserPadding(w) => LayoutLine::UserPadding(*w),
        LayoutLine::UserText { text, right_pad } => LayoutLine::UserText {
            text: text.clone(),
            right_pad: *right_pad,
        },
        LayoutLine::Markdown(t) => LayoutLine::Markdown(t.clone()),
        LayoutLine::ToolCall(t) => LayoutLine::ToolCall(t.clone()),
        LayoutLine::Blank => LayoutLine::Blank,
    }
}

fn copy_lines(ls: &Vec<LayoutLine>) -> (r: Vec<LayoutLine>)
    ensures
        line_views(r@) == line_views(ls@),
{
    let mut r: Vec<LayoutLine> = Vec::new();
    let mut i: usize = 0;
    while i < ls.len()
        invariant
            i <= ls@.len(),
            line_views(r@) == line_views(ls@.take(i as int)),
        decreases ls@.len() - i,
    {
        let l = copy_line(&ls[i]);
        proof {
            assert(ls@.take(i + 1) =~= ls@.take(i as int).push(ls@[i as int]));
            assert(line_views(r@.push(l)) =~= line_views(r@).push(line_view(l)));
            assert(line_views(ls@.take(i as int).push(ls@[i as int])) =~= line_views(ls@.take(i as int)).push(
                line_view(ls@[i as int]),
            ));
        }
        r.push(l);
        i = i + 1;
    }
    proof {
        assert(ls@.take(ls@.len() as int) =~= ls@);
    }
    r
}

/// The lines of the chat area, with the lines of each message kept under its
/// id for the width they were laid out for.
pub struct MessageLinesBuilder {
    cache: HashMap<u128, (usize, Vec<LayoutLine>)>,
}

impl MessageLinesBuilder {
    /// The cached lines.
    pub closed spec fn cached(&self) -> CacheView {
        cache_view(self.cache@)
    }

    pub fn new() -> (b: Self)
        ensures
            b.cached() == CacheView::empty(),
    {
        let b = MessageLinesBuilder { cache: HashMap::new() };
        proof {
            assert(b.cached() =~= CacheView::empty());
        }
        b
    }

    /// Drops every cached line.
    pub fn clear_cache(&mut self)
        ensures
            final(self).cached() == CacheView::empty(),
    {
        self.cache.clear();
        proof {
            assert(self.cached() =~= CacheView::empty());
        }
    }

    /// The lines of the chat area in a box `width` columns wide: each message's
    /// lines, taken from the cache when it holds lines for that message's id at
    /// this width and laid out (and cached) otherwise, then the streamed answer.
    /// Afterwards the cache keeps only the ids of `messages`.
    pub fn build(&mut self, messages: &[Message], width: usize, current_response: &str, streaming: bool) -> (ls:
        Vec<LayoutLine>)
        ensures
            line_views(ls@) == cached_lines(old(self).cached(), messages@, width).0 + response_lines(
                current_response@,
                streaming,
            ),
            final(self).cached() == cached_lines(old(self).cached(), messages@, width).1.restrict(
                message_ids(messages@),
            ),
    {
        let ghost c0 = self.cached();
        let mut ls: Vec<LayoutLine> = Vec::new();
        let mut i: usize = 0;
        proof {
            assert(messages@.take(0) =~= Seq::<Message>::empty());
            assert(line_views(ls@) =~= Seq::<LineView>::empty());
        }
        while i < messages.len()
            invariant
                i <= messages@.len(),
                line_views(ls@) == cached_lines(c0, messages@.take(i as int), width).0,
                self.cached() == cached_lines(c0, messages@.take(i as int), width).1,
            decreases messages@.len() - i,
        {
            let m = &messages[i];
            let ghost c = self.cached();
            proof {
                assert(messages@.take(i + 1).drop_last() =~= messages@.take(i as int));
                assert(messages@.take(i + 1).last() == messages@[i as int]);
            }
            let hit = match self.cache.get(&m.id) {
                Some(entry) => {
                    if entry.0 == width {
                        Some(copy_lines(&entry.1))
                    } else {
                        None
                    }
                },
                None => None,
            };
            let ghost before = ls@;
            match hit {
                Some(mut cached) => {
                    proof {
                        assert(cache_hit(c, *m, width));
                    }
                    ls.append(&mut cached);
                    proof {
                        assert(line_views(ls@) =~= line_views(before) + c[m.id].1);
                    }
                },
                None => {
                    proof {
                        assert(!cache_hit(c, *m, width));
                    }
                    if m.role != Role::System {
                        let mut fresh = message_layout(m, width);
                        let stored = copy_lines(&fresh);
                        self.cache.insert(m.id, (width, stored));
                        proof {
                            assert(self.cached() =~= c.insert(m.id, (width, message_lines(*m, width as nat))));
                        }
                        ls.append(&mut fresh);
                        proof {
                            assert(line_views(ls@) =~= line_views(before) + message_lines(*m, width as nat));
                        }
                    } else {
                        proof {
                            assert(message_lines(*m, width as nat) =~= Seq::<LineView>::empty());
                            assert(line_views(ls@) =~= line_views(before) + message_lines(*m, width as nat));
                        }
                    }
                },
            }
            i = i + 1;
        }
        proof {
            assert(messages@.take(i as int) =~= messages@);
        }
        let ghost cf = self.cached();
        // keep only the entries of the messages shown
        let mut kept: HashMap<u128, (usize, Vec<LayoutLine>)> = HashMap::new();
        let mut j: usize = 0;
        proof {
            assert(cache_view(kept@) =~= cf.restrict(message_ids(messages@.take(0))));
        }
        while j < messages.len()
            invariant
                j <= messages@.len(),
                self.cached() == cf,
                cache_view(kept@) == cf.restrict(message_ids(messages@.take(j as int))),
            decreases messages@.len() - j,
        {
            let id = messages[j].id;
            let ghost before = cache_view(kept@);
            proof {
                let a = messages@.take(j as int);
                let b = messages@.take(j + 1);
                assert forall|k: u128| #[trigger] message_ids(b).contains(k) implies message_ids(a).insert(
                    id,
                ).contains(k) by {
                    let t = choose|t: int| 0 <= t < b.len() && #[trigger] b[t].id == k;
                    if t < j {
                        assert(a[t] == b[t]);
                        assert(0 <= t < a.len() && a[t].id == k);
                    }
                }
                assert forall|k: u128| #[trigger] message_ids(a).insert(id).contains(k) implies message_ids(
                    b,
                ).contains(k) by {
                    if k == id {
                        assert(b[j as int].id == k);
                    } else {
                        let t = choose|t: int| 0 <= t < a.len() && #[trigger] a[t].id == k;
                        assert(b[t] == a[t]);
                    }
                }
                assert(message_ids(b) =~= message_ids(a).insert(id));
            }
            match self.cache.get(&id) {
                Some(entry) => {
                    let copy = (entry.0, copy_lines(&entry.1));
                    let ghost kept0 = kept@;
                    proof {
                        assert(self.cache@.contains_key(id) && self.cache@[id] == *entry);
                        assert(cf.contains_key(id) && cf[id] == (entry.0, line_views(entry.1@)));
                    }
                    kept.insert(id, copy);
                    proof {
                        assert(kept@ == kept0.insert(id, copy));
                        assert(cache_view(kept@) =~= cache_view(kept0).insert(id, cf[id]));
                        let ka = message_ids(messages@.take(j as int));
                        let kb = message_ids(messages@.take(j + 1));
                        assert(kb == ka.insert(id));
                        assert(cf.restrict(kb) =~= cf.restrict(ka).insert(id, cf[id]));
                        assert(cache_view(kept@) =~= cf.restrict(message_ids(messages@.take(j + 1))));
                    }
                },
                None => {
                    proof {
                        assert(!self.cache@.contains_key(id));
                        assert(!cf.contains_key(id));
                        let ka = message_ids(messages@.take(j as int));
                        let kb = message_ids(messages@.take(j + 1));
                        assert(kb == ka.insert(id));
                        assert forall|k: u128| cf.restrict(kb).contains_key(k) <==> #[trigger] cf.restrict(
                            ka,
                        ).contains_key(k) by {
                            if k == id {
                                assert(!cf.dom().contains(k));
                            }
                        }
                        assert(cf.restrict(kb) =~= cf.restrict(ka));
                        assert(cache_view(kept@) =~= cf.restrict(message_ids(messages@.take(j + 1))));
                    }
                },
            }
            j = j + 1;
        }
        proof {
            assert(messages@.take(j as int) =~= messages@);
        }
        self.cache = kept;
        let resp = str_chars(current_response);
        if streaming && resp.len() > 0 {
            let ghost before = ls@;
            ls.push(LayoutLine::Markdown(trim_start_str(current_response)));
            proof {
                assert(line_views(ls@) =~= line_views(before) + response_lines(current_response@, streaming));
            }
        } else {
            proof {
                assert(line_views(ls@) =~= line_views(ls@) + response_lines(current_response@, streaming));
            }
        }
        ls
    }
}

} // verus!

verus! {

/// Whether every line that `c` holds for `width` under the id of a message of
/// `all` is that message's own layout.
pub open spec fn cache_agrees(c: CacheView, all: Seq<Message>, width: usize) -> bool {
    forall|i: int|
        0 <= i < all.len() && #[trigger] cache_hit(c, all[i], width) ==> c[all[i].id].1 == message_lines(
            all[i],
            width as nat,
        )
}

/// Whether messages of `all` that share an id are laid out alike.
pub open spec fn ids_agree(all: Seq<Message>, width: usize) -> bool {
    forall|i: int, j: int|
        0 <= i < all.len() && 0 <= j < all.len() && #[trigger] all[i].id == #[trigger] all[j].id
            ==> message_lines(all[i], width as nat) == message_lines(all[j], width as nat)
}

proof fn lemma_cached_prefix(c: CacheView, ms: Seq<Message>, all: Seq<Message>, width: usize)
    requires
        cache_agrees(c, all, width),
        ids_agree(all, width),
        ms.len() <= all.len(),
        forall|i: int| 0 <= i < ms.len() ==> ms[i] == all[i],
    ensures
        cached_lines(c, ms, width).0 == messages_lines(ms, width as nat),
        cache_agrees(cached_lines(c, ms, width).1, all, width),
    decreases ms.len(),
{
    if ms.len() > 0 {
        let d = ms.drop_last();
        lemma_cached_prefix(c, d, all, width);
        let p = cached_lines(c, d, width);
        let m = ms.last();
        let n = ms.len() - 1;
        assert(m == all[n]);
        if cache_hit(p.1, m, width) {
            assert(cache_hit(p.1, all[n], width));
        } else if m.role != Role::System {
            let c2 = p.1.insert(m.id, (width, message_lines(m, width as nat)));
            assert forall|i: int| 0 <= i < all.len() && #[trigger] cache_hit(c2, all[i], width) implies c2[all[i].id].1
                == message_lines(all[i], width as nat) by {
                if all[i].id == m.id {
                    assert(all[i].id == all[n].id);
                } else {
                    assert(cache_hit(p.1, all[i], width));
                }
            }
        }
    }
}

/// The cache changes nothing that is shown: when the lines it holds for this
/// width are the layouts of the messages with those ids, and messages that
/// share an id are laid out alike, the lines shown from the cache are each
/// message's own lines, one after the other. An empty cache agrees with any
/// messages.
pub proof fn lemma_cache_shows_fresh_lines(c: CacheView, ms: Seq<Message>, width: usize)
    requires
        cache_agrees(c, ms, width),
        ids_agree(ms, width),
    ensures
        cached_lines(c, ms, width).0 == messages_lines(ms, width as nat),
        cache_agrees(CacheView::empty(), ms, width),
{
    lemma_cached_prefix(c, ms, ms, width);
}

} // verus!

verus! {

/// The layout of a message in a chat `width` columns wide:
/// - an assistant message shows its text, then one line per tool call, the
///   `i`-th showing call `i`, then a blank line;
/// - a user message shows a padding line, one line per wrapped line of its
///   trimmed text, another padding line and a blank line;
/// - system and tool messages show nothing.
pub proof fn lemma_message_layout_shape(m: Message, width: nat)
    ensures
        m.role == Role::Assistant ==> {
            let ls = message_lines(m, width);
            &&& ls.len() == m.tool_calls@.len() + 2
            &&& ls[0] == LineView::Markdown(trim_start(m.content@))
            &&& forall|i: int|
                0 <= i < m.tool_calls@.len() ==> #[trigger] ls[i + 1] == LineView::ToolCall(
                    tool_call_text(m.tool_calls@[i], width),
                )
            &&& ls.last() == LineView::Blank
        },
        m.role == Role::User ==> {
            let ls = message_lines(m, width);
            let rows = wrap_hard_spec(trim(m.content@), sat_sub(width as int, 4));
            &&& ls.len() == rows.len() + 3
            &&& ls[0] == LineView::UserPadding(width)
            &&& forall|i: int|
                0 <= i < rows.len() ==> #[trigger] ls[i + 1] == LineView::UserText(
                    rows[i],
                    sat_sub(width as int, unicode_str_width(rows[i]) + 2),
                )
            &&& ls[rows.len() + 1int] == LineView::UserPadding(width)
            &&& ls.last() == LineView::Blank
        },
        m.role == Role::System || m.role == Role::Tool ==> message_lines(m, width).len() == 0,
{
}

/// The line of a tool call starts with its name and `": "`; it shows all its
/// arguments when they fit in what the width leaves, and otherwise a leading
/// part of them followed by `...`.
pub proof fn lemma_tool_call_text_shape(c: ToolCall, width: nat)
    ensures
        ({
            let prefix = c.name@ + ": "@;
            let t = tool_call_text(c, width);
            &&& t.len() >= prefix.len()
            &&& t.take(prefix.len() as int) == prefix
            &&& (unicode_str_width(c.arguments@) <= sat_sub(width as int, 2 + unicode_str_width(prefix))
                ==> t == prefix + c.arguments@)
            &&& (unicode_str_width(c.arguments@) > sat_sub(width as int, 2 + unicode_str_width(prefix))
                ==> exists|n: int|
                0 <= n <= c.arguments@.len() && t == prefix + c.arguments@.take(n) + "..."@)
        }),
{
    let prefix = c.name@ + ": "@;
    let t = tool_call_text(c, width);
    let max_args = sat_sub(width as int, 2 + unicode_str_width(prefix));
    if unicode_str_width(c.arguments@) <= max_args {
        assert(t.take(prefix.len() as int) =~= prefix);
    } else {
        let f = fit_prefix(c.arguments@, sat_sub(max_args as int, 3), 0);
        lemma_fit_prefix_is_prefix(c.arguments@, sat_sub(max_args as int, 3), 0);
        assert(t == prefix + f + "..."@);
        assert(t.take(prefix.len() as int) =~= prefix);
        assert(f == c.arguments@.take(f.len() as int));
    }
}

proof fn lemma_fit_prefix_is_prefix(args: Seq<char>, target: nat, used: nat)
    ensures
        fit_prefix(args, target, used).len() <= args.len(),
        fit_prefix(args, target, used) == args.take(fit_prefix(args, target, used).len() as int),
    decreases args.len(),
{
    if args.len() == 0 || used + width_of(args[0]) > target {
        assert(args.take(0) =~= Seq::<char>::empty());
    } else {
        lemma_fit_prefix_is_prefix(args.drop_first(), target, used + width_of(args[0]));
        let rest = fit_prefix(args.drop_first(), target, used + width_of(args[0]));
        assert(seq![args[0]] + rest =~= args.take(rest.len() + 1int));
    }
}

} // verus!
