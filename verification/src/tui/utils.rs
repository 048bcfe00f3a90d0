//! Hard wrapping of text at display-width boundaries.

use vstd::prelude::*;
use crate::text::{char_columns, str_chars, string_from_chars, width_of};

verus! {

/// The wrapping automaton: scans `text` from position `k` with the finished
/// `lines`, the line being built (`current`) and its display width `cw`.
/// A newline ends the current line; a character that would push the line past
/// `width` (when `width > 0`) starts a new one.
pub open spec fn wrap_from(
    text: Seq<char>,
    k: int,
    width: nat,
    lines: Seq<Seq<char>>,
    current: Seq<char>,
    cw: nat,
) -> Seq<Seq<char>>
    decreases text.len() - k,
{
    if k < 0 || k >= text.len() {
        lines.push(current)
    } else if text[k] == '\n' {
        wrap_from(text, k + 1, width, lines.push(current), Seq::empty(), 0)
    } else if cw + width_of(text[k]) > width && width > 0 {
        wrap_from(text, k + 1, width, lines.push(current), seq![text[k]], width_of(text[k]))
    } else {
        wrap_from(text, k + 1, width, lines, current.push(text[k]), cw + width_of(text[k]))
    }
}

/// The lines that hard-wrapping `text` at `width` columns produces.
pub open spec fn wrap_hard_spec(text: Seq<char>, width: nat) -> Seq<Seq<char>> {
    wrap_from(text, 0, width, Seq::empty(), Seq::empty(), 0)
}

/// The views of a vector of strings.
pub open spec fn string_views(v: Seq<String>) -> Seq<Seq<char>> {
    v.map_values(|s: String| s@)
}

/// Hard-wrap a character sequence at character width boundaries.
pub fn wrap_chars(text: &Vec<char>, width: usize) -> (lines: Vec<String>)
    ensures
        string_views(lines@) == wrap_hard_spec(text@, width as nat),
{
    let mut lines: Vec<String> = Vec::new();
    let mut current: Vec<char> = Vec::new();
    let mut cw: u128 = 0;
    let mut k: usize = 0;
    proof {
        assert(string_views(lines@) =~= Seq::<Seq<char>>::empty());
        assert(current@ =~= Seq::<char>::empty());
    }
    while k < text.len()
        invariant
            k <= text.len(),
            cw <= 3 * k,
            wrap_hard_spec(text@, width as nat) == wrap_from(
                text@,
                k as int,
                width as nat,
                string_views(lines@),
                current@,
                cw as nat,
            ),
        decreases text.len() - k,
    {
        let c = text[k];
        if c == '\n' {
            let s = string_from_chars(current.as_slice());
            proof {
                assert(string_views(lines@.push(s)) =~= string_views(lines@).push(current@));
            }
            lines.push(s);
            current = Vec::new();
            cw = 0;
        } else {
            let w = char_columns(c);
            if cw + (w as u128) > (width as u128) && width > 0 {
                let s = string_from_chars(current.as_slice());
                proof {
                    assert(string_views(lines@.push(s)) =~= string_views(lines@).push(current@));
                }
                lines.push(s);
                current = Vec::new();
                current.push(c);
                proof {
                    assert(current@ =~= seq![c]);
                }
                cw = w as u128;
            } else {
                current.push(c);
                cw = cw + (w as u128);
            }
        }
        k = k + 1;
    }
    let s = string_from_chars(current.as_slice());
    proof {
        assert(string_views(lines@.push(s)) =~= string_views(lines@).push(current@));
    }
    lines.push(s);
    lines
}

/// Hard-wrap a string at character width boundaries.
pub fn wrap_hard(text: &str, width: usize) -> (lines: Vec<String>)
    ensures
        string_views(lines@) == wrap_hard_spec(text@, width as nat),
{
    let chars = str_chars(text);
    wrap_chars(&chars, width)
}

} // verus!

verus! {

/// The display width of a line: the sum of its characters' widths.
pub open spec fn columns(l: Seq<char>) -> nat
    decreases l.len(),
{
    if l.len() == 0 {
        0
    } else {
        columns(l.drop_last()) + width_of(l.last())
    }
}

/// Whether a wrapped line fits in `width` columns, or is a single character
/// too wide to fit anywhere.
pub open spec fn fits(l: Seq<char>, width: nat) -> bool {
    columns(l) <= width || l.len() == 1
}

proof fn lemma_wrap_from_content(
    text: Seq<char>,
    k: int,
    width: nat,
    lines: Seq<Seq<char>>,
    current: Seq<char>,
    cw: nat,
)
    requires
        0 <= k <= text.len(),
    ensures
        wrap_from(text, k, width, lines, current, cw).flatten() == lines.flatten() + current
            + text.skip(k).filter(|c: char| c != '\n'),
    decreases text.len() - k,
{
    let nl = |c: char| c != '\n';
    if k >= text.len() {
        assert(text.skip(k) =~= Seq::<char>::empty());
        assert(text.skip(k).filter(nl) =~= Seq::<char>::empty()) by {
            reveal(Seq::filter);
        }
        lines.lemma_flatten_push(current);
        assert(lines.flatten() + current + text.skip(k).filter(nl) =~= lines.flatten() + current);
    } else {
        let c = text[k];
        assert(text.skip(k) =~= seq![c] + text.skip(k + 1));
        text.skip(k + 1).lemma_filter_prepend(c, nl);
        let rest = text.skip(k + 1).filter(nl);
        if c == '\n' {
            lemma_wrap_from_content(text, k + 1, width, lines.push(current), Seq::empty(), 0);
            lines.lemma_flatten_push(current);
            assert(text.skip(k).filter(nl) =~= rest);
            assert(lines.push(current).flatten() + Seq::<char>::empty() + rest =~= lines.flatten()
                + current + text.skip(k).filter(nl));
        } else if cw + width_of(c) > width && width > 0 {
            lemma_wrap_from_content(text, k + 1, width, lines.push(current), seq![c], width_of(c));
            lines.lemma_flatten_push(current);
            assert(text.skip(k).filter(nl) =~= seq![c] + rest);
            assert(lines.push(current).flatten() + seq![c] + rest =~= lines.flatten() + current
                + text.skip(k).filter(nl));
        } else {
            lemma_wrap_from_content(text, k + 1, width, lines, current.push(c), cw + width_of(c));
            assert(text.skip(k).filter(nl) =~= seq![c] + rest);
            assert(lines.flatten() + current.push(c) + rest =~= lines.flatten() + current
                + text.skip(k).filter(nl));
        }
    }
}

/// Hard wrapping loses and adds no character but the line breaks: the wrapped
/// lines, put end to end, are the text without its `'\n'`s.
pub proof fn lemma_wrap_keeps_text(text: Seq<char>, width: nat)
    ensures
        wrap_hard_spec(text, width).flatten() == text.filter(|c: char| c != '\n'),
{
    lemma_wrap_from_content(text, 0, width, Seq::empty(), Seq::empty(), 0);
    assert(text.skip(0) =~= text);
    assert(Seq::<Seq<char>>::empty().flatten() =~= Seq::<char>::empty());
    assert(Seq::<char>::empty() + Seq::<char>::empty() + text.filter(|c: char| c != '\n')
        =~= text.filter(|c: char| c != '\n'));
}

proof fn lemma_wrap_from_fits(
    text: Seq<char>,
    k: int,
    width: nat,
    lines: Seq<Seq<char>>,
    current: Seq<char>,
    cw: nat,
)
    requires
        0 <= k <= text.len(),
        width > 0,
        cw == columns(current),
        fits(current, width),
        forall|i: int| 0 <= i < lines.len() ==> fits(#[trigger] lines[i], width),
    ensures
        forall|i: int|
            0 <= i < wrap_from(text, k, width, lines, current, cw).len() ==> fits(
                #[trigger] wrap_from(text, k, width, lines, current, cw)[i],
                width,
            ),
        wrap_from(text, k, width, lines, current, cw).len() > lines.len(),
    decreases text.len() - k,
{
    if k >= text.len() {
        assert forall|i: int| 0 <= i < lines.push(current).len() implies fits(
            #[trigger] lines.push(current)[i],
            width,
        ) by {
            if i < lines.len() {
                assert(lines.push(current)[i] == lines[i]);
            }
        }
    } else {
        let c = text[k];
        let pushed = lines.push(current);
        assert forall|i: int| 0 <= i < pushed.len() implies fits(#[trigger] pushed[i], width) by {
            if i < lines.len() {
                assert(pushed[i] == lines[i]);
            }
        }
        if c == '\n' {
            assert(columns(Seq::<char>::empty()) == 0);
            lemma_wrap_from_fits(text, k + 1, width, pushed, Seq::empty(), 0);
        } else if cw + width_of(c) > width && width > 0 {
            assert(seq![c].drop_last() =~= Seq::<char>::empty());
            assert(columns(Seq::<char>::empty()) == 0);
            assert(seq![c].last() == c);
            assert(columns(seq![c]) == columns(seq![c].drop_last()) + width_of(c));
            lemma_wrap_from_fits(text, k + 1, width, pushed, seq![c], width_of(c));
        } else {
            assert(current.push(c).drop_last() =~= current);
            assert(columns(current.push(c)) == cw + width_of(c));
            lemma_wrap_from_fits(text, k + 1, width, lines, current.push(c), cw + width_of(c));
        }
    }
}

/// In a box at least one column wide, every wrapped line fits in the box,
/// except a line made of a single character wider than the box; and there is
/// always at least one line.
pub proof fn lemma_wrap_lines_fit(text: Seq<char>, width: nat)
    requires
        width > 0,
    ensures
        wrap_hard_spec(text, width).len() >= 1,
        forall|i: int|
            0 <= i < wrap_hard_spec(text, width).len() ==> fits(
                #[trigger] wrap_hard_spec(text, width)[i],
                width,
            ),
{
    assert(columns(Seq::<char>::empty()) == 0);
    lemma_wrap_from_fits(text, 0, width, Seq::empty(), Seq::empty(), 0);
}

} // verus!
