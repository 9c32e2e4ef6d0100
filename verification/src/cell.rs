//! The wrapping byte that one position of the tape holds.
use vstd::prelude::*;

verus! {

/// The value that follows `v`, with 255 followed by 0.
pub open spec fn increment(v: u8) -> u8 {
    if v == 255 {
        0
    } else {
        (v + 1) as u8
    }
}

/// The value that precedes `v`, with 0 preceded by 255.
pub open spec fn decrement(v: u8) -> u8 {
    if v == 0 {
        255
    } else {
        (v - 1) as u8
    }
}

/// The character that a cell of value `v` prints: the one whose code point
/// is `v`.
pub open spec fn glyph(v: u8) -> char {
    v as char
}

/// Cell arithmetic is arithmetic modulo 256: stepping up from 255 gives 0,
/// stepping down from 0 gives 255, and everywhere the two steps add and
/// subtract one modulo 256 and undo each other.
pub proof fn lemma_cell_arithmetic_wraps(v: u8)
    ensures
        increment(255) == 0,
        decrement(0) == 255,
        increment(v) == (v + 1) % 256,
        decrement(v) == (v + 255) % 256,
        decrement(increment(v)) == v,
        increment(decrement(v)) == v,
{
}

/// One unit of memory: an unsigned byte whose arithmetic wraps.
#[derive(PartialEq, Eq, Structural, Clone, Copy)]
pub struct Cell {
    pub value: u8,
}

impl View for Cell {
    type V = u8;

    open spec fn view(&self) -> u8 {
        self.value
    }
}

impl From<u8> for Cell {
    fn from(value: u8) -> (cell: Self) {
        Self { value }
    }
}

impl vstd::std_specs::convert::FromSpecImpl<u8> for Cell {
    open spec fn obeys_from_spec() -> bool {
        true
    }

    open spec fn from_spec(value: u8) -> Self {
        Self { value }
    }
}

/// `String::from` on a `char`: the string that holds that one character.
pub assume_specification[ <String as From<char>>::from ](c: char) -> (text: String)
    ensures
        text@ == seq![c],
;

impl Cell {
    /// Steps the value up by one, wrapping from 255 to 0.
    pub fn add(&mut self)
        ensures
            final(self)@ == increment(old(self)@),
    {
        self.value = if self.value == 255 {
            0
        } else {
            self.value + 1
        }
    }

    /// Steps the value down by one, wrapping from 0 to 255.
    pub fn sub(&mut self)
        ensures
            final(self)@ == decrement(old(self)@),
    {
        self.value = if self.value == 0 {
            255
        } else {
            self.value - 1
        }
    }

    /// The cell as printed: a string of the one character whose code point
    /// is the cell's value.
    pub fn to_string(&self) -> (text: String)
        ensures
            text@ == seq![glyph(self@)],
    {
        String::from(self.value as char)
    }
}

} // verus!
