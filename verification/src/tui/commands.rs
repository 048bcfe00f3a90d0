//! The slash commands and the popup that offers them.

use vstd::prelude::*;
use crate::text::{lemma_filter_push, str_chars};

verus! {

#[derive(Clone, Copy)]
pub struct SlashCommand {
    pub name: &'static str,
    pub description: &'static str,
}

/// Names of the slash commands, in the order they are offered.
pub open spec fn command_names() -> Seq<Seq<char>> {
    seq!["clear"@, "save"@, "load"@, "sessions"@]
}

/// Descriptions of the slash commands, in the same order.
pub open spec fn command_descriptions() -> Seq<Seq<char>> {
    seq![
        "clear messages"@,
        "save session: /save <name>"@,
        "load session: /load <name>"@,
        "list saved sessions"@,
    ]
}

/// The slash commands.
pub fn available_commands() -> (cmds: Vec<SlashCommand>)
    ensures
        cmds@.len() == 4,
        forall|i: int|
            0 <= i < 4 ==> (#[trigger] cmds@[i]).name@ == command_names()[i]
                && cmds@[i].description@ == command_descriptions()[i],
{
    let mut v: Vec<SlashCommand> = Vec::new();
    v.push(SlashCommand { name: "clear", description: "clear messages" });
    v.push(SlashCommand { name: "save", description: "save session: /save <name>" });
    v.push(SlashCommand { name: "load", description: "load session: /load <name>" });
    v.push(SlashCommand { name: "sessions", description: "list saved sessions" });
    v
}

/// The first line of `s` as `str::lines` yields it: up to the first `'\n'`, with
/// a `'\r'` just before that `'\n'` dropped; empty when `s` is empty.
pub open spec fn first_line(s: Seq<char>) -> Seq<char> {
    if exists|i: int| 0 <= i < s.len() && s[i] == '\n' {
        let i = choose|i: int|
            0 <= i < s.len() && s[i] == '\n' && forall|j: int| 0 <= j < i ==> s[j] != '\n';
        if i > 0 && s[i - 1] == '\r' {
            s.take(i - 1)
        } else {
            s.take(i)
        }
    } else {
        s
    }
}

/// The text typed after a leading `/` on the first line, or nothing when the
/// first line does not start with `/`.
pub open spec fn command_query(input: Seq<char>) -> Seq<char> {
    let line = first_line(input);
    if line.len() > 0 && line[0] == '/' {
        line.drop_first()
    } else {
        Seq::empty()
    }
}

/// The names among `names` that start with `query`, in order.
pub open spec fn matching(names: Seq<Seq<char>>, query: Seq<char>) -> Seq<Seq<char>> {
    names.filter(|n: Seq<char>| query.is_prefix_of(n))
}

/// Whether `p` is a prefix of `s`.
fn is_prefix(p: &Vec<char>, s: &Vec<char>) -> (r: bool)
    ensures
        r == p@.is_prefix_of(s@),
{
    if p.len() > s.len() {
        return false;
    }
    let mut i: usize = 0;
    while i < p.len()
        invariant
            i <= p.len() <= s.len(),
            forall|j: int| 0 <= j < i ==> p@[j] == s@[j],
        decreases p.len() - i,
    {
        if p[i] != s[i] {
            return false;
        }
        i = i + 1;
    }
    true
}

/// The characters of the query typed after `/` on the first line of `input`.
fn query_of(input: &str) -> (q: Vec<char>)
    ensures
        q@ == command_query(input@),
{
    let s = str_chars(input);
    let mut e: usize = 0;
    while e < s.len() && s[e] != '\n'
        invariant
            e <= s.len(),
            forall|j: int| 0 <= j < e ==> s@[j] != '\n',
        decreases s.len() - e,
    {
        e = e + 1;
    }
    let ghost sv = s@;
    let mut end = e;
    if e < s.len() {
        proof {
            let i = choose|i: int|
                0 <= i < sv.len() && sv[i] == '\n' && forall|j: int| 0 <= j < i ==> sv[j] != '\n';
            assert(i == e as int) by {
                if i < e {
                } else if i > e {
                    assert(sv[e as int] != '\n');
                }
            }
        }
        if e > 0 && s[e - 1] == '\r' {
            end = e - 1;
        }
    } else {
        proof {
            assert(sv.take(e as int) =~= sv);
        }
    }
    let ghost line = sv.take(end as int);
    proof {
        assert(first_line(sv) =~= line);
    }
    let mut q: Vec<char> = Vec::new();
    if end > 0 && s[0] == '/' {
        let mut i: usize = 1;
        while i < end
            invariant
                1 <= i <= end <= s.len(),
                sv == s@,
                q@ == sv.subrange(1, i as int),
            decreases end - i,
        {
            q.push(s[i]);
            i = i + 1;
        }
        proof {
            assert(q@ =~= line.drop_first());
        }
    } else {
        proof {
            assert(q@ =~= Seq::<char>::empty());
        }
    }
    q
}

/// The selection after moving down among `len` entries.
pub open spec fn moved_down(sel: usize, len: usize) -> usize {
    if sel + 1 < len {
        (sel + 1) as usize
    } else {
        sel
    }
}

/// The selection kept among `len` entries.
pub open spec fn clamped(sel: usize, len: usize) -> usize {
    if len == 0 {
        0
    } else if sel >= len {
        (len - 1) as usize
    } else {
        sel
    }
}

/// Clamping puts any selection on an entry, and moving down keeps a selection
/// that is on an entry on one.
pub proof fn lemma_selection_stays_on_entries(sel: usize, len: usize)
    ensures
        len > 0 ==> clamped(sel, len) < len,
        sel < len ==> moved_down(sel, len) < len,
{
}

pub struct CommandPopup {
    selected: usize,
}

impl CommandPopup {
    /// The highlighted entry.
    pub closed spec fn selection(&self) -> usize {
        self.selected
    }

    pub fn new() -> (p: Self)
        ensures
            p.selection() == 0,
    {
        CommandPopup { selected: 0 }
    }

    /// The commands whose name starts with the text typed after `/` on the
    /// first line of `input`, in their order.
    pub fn filtered(&self, input: &str) -> (cmds: Vec<SlashCommand>)
        ensures
            cmds@.map_values(|c: SlashCommand| c.name@) == matching(
                command_names(),
                command_query(input@),
            ),
            forall|i: int|
                0 <= i < cmds@.len() ==> exists|j: int|
                    0 <= j < 4 && (#[trigger] cmds@[i]).name@ == command_names()[j]
                        && cmds@[i].description@ == command_descriptions()[j],
    {
        let q = query_of(input);
        let all = available_commands();
        let ghost names = command_names();
        let ghost query = command_query(input@);
        let ghost pred = |n: Seq<char>| query.is_prefix_of(n);
        let mut out: Vec<SlashCommand> = Vec::new();
        let mut i: usize = 0;
        proof {
            assert(out@.map_values(|c: SlashCommand| c.name@) =~= names.take(0).filter(pred));
        }
        while i < all.len()
            invariant
                i <= all.len() == 4,
                q@ == query,
                names == command_names(),
                pred == (|n: Seq<char>| query.is_prefix_of(n)),
                forall|k: int|
                    0 <= k < 4 ==> (#[trigger] all@[k]).name@ == names[k]
                        && all@[k].description@ == command_descriptions()[k],
                out@.map_values(|c: SlashCommand| c.name@) == names.take(i as int).filter(pred),
                forall|k: int|
                    0 <= k < out@.len() ==> exists|j: int|
                        0 <= j < 4 && (#[trigger] out@[k]).name@ == names[j]
                            && out@[k].description@ == command_descriptions()[j],
            decreases all.len() - i,
        {
            let c = all[i];
            let n = str_chars(c.name);
            proof {
                assert(names.take(i + 1).drop_last() =~= names.take(i as int));
                assert(names.take(i + 1) =~= names.take(i as int).push(names[i as int]));
                lemma_filter_push(names.take(i as int), pred, names[i as int]);
            }
            if is_prefix(&q, &n) {
                out.push(c);
                proof {
                    assert(out@.map_values(|c: SlashCommand| c.name@) =~= names.take(
                        i as int,
                    ).filter(pred).push(names[i as int]));
                    assert(out@[out@.len() - 1] == all@[i as int]);
                }
            }
            i = i + 1;
        }
        proof {
            assert(names.take(4) =~= names);
        }
        out
    }

    pub fn selected_index(&self) -> (i: usize)
        ensures
            i == self.selection(),
    {
        self.selected
    }

    /// Moves the highlight one entry up, stopping at the first.
    pub fn move_up(&mut self)
        ensures
            final(self).selection() == if old(self).selection() > 0 {
                (old(self).selection() - 1) as usize
            } else {
                0
            },
    {
        if self.selected > 0 {
            self.selected = self.selected - 1;
        }
    }

    /// Moves the highlight one entry down, stopping at the last of `len`.
    pub fn move_down(&mut self, len: usize)
        ensures
            final(self).selection() == moved_down(old(self).selection(), len),
    {
        if self.selected < usize::MAX && self.selected + 1 < len {
            self.selected = self.selected + 1;
        }
    }

    /// Keeps the highlight among `len` entries.
    pub fn clamp(&mut self, len: usize)
        ensures
            final(self).selection() == clamped(old(self).selection(), len),
    {
        if len == 0 {
            self.selected = 0;
        } else if self.selected >= len {
            self.selected = len - 1;
        }
    }

    pub fn reset(&mut self)
        ensures
            final(self).selection() == 0,
    {
        self.selected = 0;
    }
}

} // verus!
