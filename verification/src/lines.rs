//! Source lines: on which line a position of the input lies, and tokens
//! grouped by the line on which they start.

use crate::token::{Token, TokenView};
use vstd::prelude::*;

verus! {

/// How many line feeds stand in `s[from..to]`.
pub open spec fn newlines(s: Seq<char>, from: int, to: int) -> nat
    decreases to - from,
{
    if to <= from {
        0
    } else {
        newlines(s, from, to - 1) + if s[to - 1] == '\n' {
            1nat
        } else {
            0nat
        }
    }
}

/// Line feeds are counted piece by piece.
pub proof fn lemma_newlines_split(s: Seq<char>, from: int, mid: int, to: int)
    requires
        from <= mid <= to,
    ensures
        newlines(s, from, to) == newlines(s, from, mid) + newlines(s, mid, to),
    decreases to - mid,
{
    if mid < to {
        lemma_newlines_split(s, from, mid, to - 1);
    }
}

/// A stretch holds at most as many line feeds as characters.
pub proof fn lemma_newlines_bound(s: Seq<char>, from: int, to: int)
    requires
        from <= to,
    ensures
        newlines(s, from, to) <= to - from,
    decreases to - from,
{
    if from < to {
        lemma_newlines_bound(s, from, to - 1);
    }
}

/// The line on which position `p` of the input lies, counted from zero: the
/// number of line feeds before it. A position past the end lies on the last
/// line.
pub open spec fn line_of(s: Seq<char>, p: int) -> nat {
    newlines(
        s,
        0,
        if p < s.len() {
            p
        } else {
            s.len() as int
        },
    )
}

/// The number of lines of the input: one more than it has line feeds.
pub open spec fn line_count(s: Seq<char>) -> nat {
    newlines(s, 0, s.len() as int) + 1
}

/// Whether a token starts on the given line of `s`.
pub open spec fn on_line(s: Seq<char>, line: int) -> spec_fn(TokenView) -> bool {
    |token: TokenView| line_of(s, token.start as int) == line
}

/// The tokens, line by line: entry `i` holds, in their order, the tokens
/// that start on line `i` of the input.
pub open spec fn lines_of(s: Seq<char>, tokens: Seq<TokenView>) -> Seq<Seq<TokenView>> {
    Seq::new(line_count(s), |i: int| tokens.filter(on_line(s, i)))
}

/// What the tokens are.
pub open spec fn token_views(tokens: Seq<Token>) -> Seq<TokenView> {
    tokens.map_values(|token: Token| token@)
}

/// What the tokens of each line are.
pub open spec fn line_views(lines: Seq<Vec<Token>>) -> Seq<Seq<TokenView>> {
    Seq::new(lines.len(), |i: int| token_views(lines[i]@))
}

/// Counts the line feeds in `source[from..to]`.
pub fn count_newlines(source: &[char], from: usize, to: usize) -> (n: usize)
    requires
        from <= to <= source@.len(),
    ensures
        n == newlines(source@, from as int, to as int),
{
    let mut n: usize = 0;
    let mut i: usize = from;
    while i < to
        invariant
            from <= i <= to <= source@.len(),
            n == newlines(source@, from as int, i as int),
            n <= i - from,
        decreases to - i,
    {
        if source[i] == '\n' {
            n += 1;
        }
        i += 1;
    }
    n
}

/// As many empty lines as the input has lines.
pub fn empty_lines(source: &[char]) -> (lines: Vec<Vec<Token>>)
    requires
        source@.len() < usize::MAX,
    ensures
        line_views(lines@) == lines_of(source@, Seq::empty()),
{
    proof {
        lemma_newlines_bound(source@, 0, source@.len() as int);
    }
    let count = count_newlines(source, 0, source.len()) + 1;
    let mut lines: Vec<Vec<Token>> = Vec::new();
    let mut i: usize = 0;
    while i < count
        invariant
            i <= count,
            lines@.len() == i,
            forall|j: int| 0 <= j < i ==> (#[trigger] lines@[j])@.len() == 0,
        decreases count - i,
    {
        lines.push(Vec::new());
        i += 1;
    }
    assert(line_views(lines@) =~= lines_of(source@, Seq::empty())) by {
        assert forall|j: int| 0 <= j < count implies line_views(lines@)[j] == lines_of(
            source@,
            Seq::empty(),
        )[j] by {
            assert(lines@[j]@.len() == 0);
            assert(token_views(lines@[j]@) =~= Seq::<TokenView>::empty());
        }
    }
    lines
}

/// Puts `token` at the end of the line on which it starts.
pub(crate) fn place(lines: &mut Vec<Vec<Token>>, line: usize, token: Token, Ghost(s): Ghost<Seq<char>>, Ghost(seen): Ghost<Seq<TokenView>>)
    requires
        line == line_of(s, token@.start as int),
        line_views(old(lines)@) == lines_of(s, seen),
    ensures
        line_views(final(lines)@) == lines_of(s, seen.push(token@)),
{
    let ghost before = lines@;
    let ghost view = token@;
    proof {
        let end = if view.start < s.len() {
            view.start as int
        } else {
            s.len() as int
        };
        lemma_newlines_split(s, 0, end, s.len() as int);
        assert(line_views(before).len() == line_count(s));
    }
    lines[line].push(token);
    assert(line_views(lines@) =~= lines_of(s, seen.push(view))) by {
        assert(seen.push(view).drop_last() =~= seen);
        assert forall|i: int| 0 <= i < lines@.len() implies line_views(lines@)[i] == lines_of(
            s,
            seen.push(view),
        )[i] by {
            assert(line_views(before)[i] == lines_of(s, seen)[i]);
            let grown = seen.push(view);
            reveal(Seq::filter);
            assert(grown.drop_last() =~= seen);
            assert(grown.last() == view);
            assert(on_line(s, i)(view) == (i == line));
            assert(grown.filter(on_line(s, i)) == if i == line {
                seen.filter(on_line(s, i)).push(view)
            } else {
                seen.filter(on_line(s, i))
            });
            if i == line {
                assert(token_views(lines@[i]@) =~= token_views(before[i]@).push(view));
            } else {
                assert(lines@[i] == before[i]);
            }
        }
    }
}

} // verus!
