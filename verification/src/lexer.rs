//! What the tokenizers of all languages share: white space, and the place
//! of a character by line and column.

use vstd::prelude::*;
use crate::lang::Position;
use crate::scan::{first_at, lemma_first_at};

verus! {

/// Blank, tab, line feed or carriage return.
pub open spec fn is_space(c: char) -> bool {
    c == ' ' || c == '\t' || c == '\n' || c == '\r'
}

/// The number of line feeds before the place `a`.
pub open spec fn line_of(s: Seq<char>, a: int) -> int
    decreases a,
{
    if a <= 0 {
        0
    } else {
        line_of(s, a - 1) + if s[a - 1] == '\n' {
            1int
        } else {
            0int
        }
    }
}

/// The place where the line of the place `a` starts.
pub open spec fn line_start(s: Seq<char>, a: int) -> int
    decreases a,
{
    if a <= 0 {
        0
    } else if s[a - 1] == '\n' {
        a
    } else {
        line_start(s, a - 1)
    }
}

/// The line of the place `a` and its column in that line.
pub open spec fn place_of(s: Seq<char>, a: int) -> Position {
    Position { line: line_of(s, a) as usize, col: (a - line_start(s, a)) as usize }
}

/// The first place at or after `at` that holds no white space.
pub open spec fn next_lexeme(s: Seq<char>, at: int) -> int {
    first_at(|i: int| !is_space(s[i]), at, s.len() as int)
}

/// The line feeds before a place are no more than the places before it,
/// and its line starts at or before it.
pub proof fn lemma_place_bounds(s: Seq<char>, a: int)
    requires
        0 <= a,
    ensures
        0 <= line_of(s, a) <= a,
        0 <= line_start(s, a) <= a,
    decreases a,
{
    if a > 0 {
        lemma_place_bounds(s, a - 1);
    }
}

/// The first place at or after `from` that holds no white space.
pub fn skip_space(s: &Vec<char>, from: usize) -> (at: usize)
    requires
        from <= s.len(),
    ensures
        at == next_lexeme(s@, from as int),
        from <= at <= s.len(),
        at < s.len() ==> !is_space(s[at as int]),
{
    let mut i: usize = from;
    while i < s.len() && (s[i] == ' ' || s[i] == '\t' || s[i] == '\n' || s[i] == '\r')
        invariant
            from <= i <= s.len(),
            forall|j: int| from <= j < i ==> is_space(s[j]),
        decreases s.len() - i,
    {
        i += 1;
    }
    proof {
        lemma_first_at(|i: int| !is_space(s@[i]), from as int, s.len() as int, i as int);
    }
    i
}

/// The line and the start of the line of the place `to`, from those of the
/// place `from`.
pub fn advance(s: &Vec<char>, from: usize, to: usize, line: usize, start: usize) -> (r: (usize, usize))
    requires
        from <= to <= s.len(),
        line == line_of(s@, from as int),
        start == line_start(s@, from as int),
    ensures
        r.0 == line_of(s@, to as int),
        r.1 == line_start(s@, to as int),
        r.1 <= to,
{
    let mut line = line;
    let mut start = start;
    let mut k: usize = from;
    proof {
        lemma_place_bounds(s@, from as int);
    }
    while k < to
        invariant
            from <= k <= to <= s.len(),
            line == line_of(s@, k as int),
            start == line_start(s@, k as int),
            line <= k,
            start <= k,
        decreases to - k,
    {
        if s[k] == '\n' {
            line = line + 1;
            start = k + 1;
        }
        k += 1;
    }
    (line, start)
}

} // verus!
