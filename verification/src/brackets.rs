//! Bracket matching: where the other end of a loop lies.
//!
//! A jump scans the program away from the bracket it starts at and keeps a
//! depth, which starts at one. Scanning forward, `[` raises the depth and `]`
//! lowers it; scanning backward it is the other way round. The scan stops at
//! the first position where the depth is zero. If it reaches the end of the
//! program first, the bracket has no partner.
use vstd::prelude::*;

verus! {

/// What one character adds to the nesting: one for `[`, minus one for `]`,
/// nothing for any other character.
pub open spec fn weight(c: char) -> int {
    if c == '[' {
        1
    } else if c == ']' {
        -1
    } else {
        0
    }
}

/// The net nesting of the characters of `program` from `from` up to, but not
/// including, `to`: how many `[` there are, less how many `]`.
pub open spec fn nesting(program: Seq<char>, from: int, to: int) -> int
    decreases to - from,
{
    if from >= to {
        0
    } else {
        nesting(program, from, to - 1) + weight(program[to - 1])
    }
}

/// The depth of a forward scan that started at `origin` and has just passed
/// the character at `at`.
pub open spec fn forward_depth(program: Seq<char>, origin: int, at: int) -> int {
    1 + nesting(program, origin + 1, at + 1)
}

/// The depth of a backward scan that started at `origin` and has just passed
/// the character at `at`.
pub open spec fn backward_depth(program: Seq<char>, origin: int, at: int) -> int {
    1 - nesting(program, at, origin)
}

/// `close` is where a forward scan from `open` stops: the first position
/// after `open` at which the depth is zero.
pub open spec fn closes(program: Seq<char>, open: int, close: int) -> bool {
    &&& 0 <= open < close < program.len()
    &&& forward_depth(program, open, close) == 0
    &&& forall|k: int| open < k < close ==> forward_depth(program, open, k) > 0
}

/// `open` is where a backward scan from `close` stops: the first position
/// before `close` at which the depth is zero.
pub open spec fn opens(program: Seq<char>, close: int, open: int) -> bool {
    &&& 0 <= open < close < program.len()
    &&& backward_depth(program, close, open) == 0
    &&& forall|k: int| open < k < close ==> backward_depth(program, close, k) > 0
}

/// A forward scan from `open` finds a partner.
pub open spec fn has_close(program: Seq<char>, open: int) -> bool {
    exists|close: int| closes(program, open, close)
}

/// The partner that a forward scan from `open` finds, where it finds one.
pub open spec fn close_of(program: Seq<char>, open: int) -> int {
    choose|close: int| closes(program, open, close)
}

/// A backward scan from `close` finds a partner.
pub open spec fn has_open(program: Seq<char>, close: int) -> bool {
    exists|open: int| opens(program, close, open)
}

/// The partner that a backward scan from `close` finds, where it finds one.
pub open spec fn open_of(program: Seq<char>, close: int) -> int {
    choose|open: int| opens(program, close, open)
}

/// The nesting of a stretch is the sum of the nestings of its two parts.
pub proof fn lemma_nesting_split(program: Seq<char>, from: int, mid: int, to: int)
    requires
        from <= mid <= to,
    ensures
        nesting(program, from, to) == nesting(program, from, mid) + nesting(program, mid, to),
    decreases to - mid,
{
    if mid < to {
        lemma_nesting_split(program, from, mid, to - 1);
    }
}

/// The nesting of a stretch that starts with the character at `from`.
pub proof fn lemma_nesting_first(program: Seq<char>, from: int, to: int)
    requires
        from < to,
    ensures
        nesting(program, from, to) == weight(program[from]) + nesting(program, from + 1, to),
{
    lemma_nesting_split(program, from, from + 1, to);
    assert(nesting(program, from, from + 1) == nesting(program, from, from) + weight(
        program[from],
    ));
}

/// A forward scan stops at one place only.
pub proof fn lemma_close_is_unique(program: Seq<char>, open: int, a: int, b: int)
    requires
        closes(program, open, a),
        closes(program, open, b),
    ensures
        a == b,
{
}

/// A backward scan stops at one place only.
pub proof fn lemma_open_is_unique(program: Seq<char>, close: int, a: int, b: int)
    requires
        opens(program, close, a),
        opens(program, close, b),
    ensures
        a == b,
{
}

/// The place where a forward scan stops holds a `]`.
pub proof fn lemma_close_is_bracket(program: Seq<char>, open: int, close: int)
    requires
        closes(program, open, close),
    ensures
        program[close] == ']',
{
    assert(nesting(program, open + 1, close + 1) == nesting(program, open + 1, close) + weight(
        program[close],
    ));
    if close > open + 1 {
        assert(forward_depth(program, open, close - 1) > 0);
    } else {
        assert(nesting(program, open + 1, close) == 0);
    }
}

/// The place where a backward scan stops holds a `[`.
pub proof fn lemma_open_is_bracket(program: Seq<char>, close: int, open: int)
    requires
        opens(program, close, open),
    ensures
        program[open] == '[',
{
    lemma_nesting_first(program, open, close);
    if open + 1 < close {
        assert(backward_depth(program, close, open + 1) > 0);
    }
}

/// The two scans agree on what a loop is: where a forward scan from a `[`
/// stops, a backward scan from there stops at that `[`.
pub proof fn lemma_close_leads_back(program: Seq<char>, open: int, close: int)
    requires
        closes(program, open, close),
        program[open] == '[',
    ensures
        opens(program, close, open),
{
    lemma_nesting_first(program, open, close);
    assert(nesting(program, open + 1, close + 1) == nesting(program, open + 1, close) + weight(
        program[close],
    ));
    lemma_close_is_bracket(program, open, close);
    assert forall|k: int| open < k < close implies backward_depth(program, close, k) > 0 by {
        lemma_nesting_split(program, open + 1, k, close);
        if k - 1 > open {
            assert(forward_depth(program, open, k - 1) > 0);
        }
    }
}

/// The two scans agree on what a loop is: where a backward scan from a `]`
/// stops, a forward scan from there stops at that `]`.
pub proof fn lemma_open_leads_forth(program: Seq<char>, close: int, open: int)
    requires
        opens(program, close, open),
        program[close] == ']',
    ensures
        closes(program, open, close),
{
    lemma_nesting_first(program, open, close);
    lemma_open_is_bracket(program, close, open);
    assert(nesting(program, open + 1, close + 1) == nesting(program, open + 1, close) + weight(
        program[close],
    ));
    assert forall|k: int| open < k < close implies forward_depth(program, open, k) > 0 by {
        lemma_nesting_split(program, open + 1, k + 1, close);
        assert(backward_depth(program, close, k + 1) > 0 || k + 1 == close);
    }
}

} // verus!
