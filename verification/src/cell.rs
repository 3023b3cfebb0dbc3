//! Tape cells and the glyph that stands for an empty one.

use vstd::prelude::*;

verus! {

/// The glyph that rendered text shows for an empty tape position (Greek small lambda).
///
/// It is reserved: read back from text it always means `Cell::Blank`, so it cannot
/// serve as an alphabet symbol.
pub const BLANK_CHAR: char = '\u{03BB}';

/// What one tape position holds: nothing, or one character.
#[derive(Copy, Clone, Debug, PartialEq, Eq, Hash, Structural)]
pub enum Cell {
    Blank,
    Symbol(char),
}

impl Cell {
    /// The character that renders this cell.
    pub open spec fn glyph(self) -> char {
        match self {
            Cell::Blank => BLANK_CHAR,
            Cell::Symbol(ch) => ch,
        }
    }

    /// The cell that a character of rendered or typed text denotes.
    pub open spec fn of_glyph(ch: char) -> Cell {
        if ch == BLANK_CHAR {
            Cell::Blank
        } else {
            Cell::Symbol(ch)
        }
    }

    /// Executable form of [`Cell::glyph`].
    pub fn to_char(self) -> (ch: char)
        ensures
            ch == self.glyph(),
    {
        match self {
            Cell::Blank => BLANK_CHAR,
            Cell::Symbol(ch) => ch,
        }
    }

    /// Executable form of [`Cell::of_glyph`].
    pub fn from_char(ch: char) -> (cell: Cell)
        ensures
            cell == Cell::of_glyph(ch),
    {
        if ch == BLANK_CHAR {
            Cell::Blank
        } else {
            Cell::Symbol(ch)
        }
    }
}

impl From<Cell> for char {
    fn from(value: Cell) -> (ch: char) {
        value.to_char()
    }
}

impl vstd::std_specs::convert::FromSpecImpl<Cell> for char {
    open spec fn obeys_from_spec() -> bool {
        true
    }

    open spec fn from_spec(value: Cell) -> char {
        value.glyph()
    }
}

impl From<char> for Cell {
    fn from(value: char) -> (cell: Cell) {
        Cell::from_char(value)
    }
}

impl vstd::std_specs::convert::FromSpecImpl<char> for Cell {
    open spec fn obeys_from_spec() -> bool {
        true
    }

    open spec fn from_spec(value: char) -> Cell {
        Cell::of_glyph(value)
    }
}

/// Every character survives the trip into a cell and back.
pub proof fn lemma_glyph_of_glyph(ch: char)
    ensures
        Cell::of_glyph(ch).glyph() == ch,
{
}

/// A cell survives the trip into a character and back unless it is the symbol
/// that carries the reserved glyph, which comes back as `Blank`.
pub proof fn lemma_of_glyph_glyph(cell: Cell)
    ensures
        cell != Cell::Symbol(BLANK_CHAR) ==> Cell::of_glyph(cell.glyph()) == cell,
        cell == Cell::Symbol(BLANK_CHAR) ==> Cell::of_glyph(cell.glyph()) == Cell::Blank,
{
}

} // verus!
