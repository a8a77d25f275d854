//! The visible content of one (column, row) position.

use vstd::prelude::*;

verus! {

/// Colour tier of a painted glyph: the bright leading head of a run, the
/// normal trailing colour, or no colour at all (a blank cell).
#[derive(Clone, Copy, Debug, PartialEq, Eq, Structural)]
pub enum ColorTier {
    Bright,
    Normal,
    NoColor,
}

/// One cell of a column's row buffer: an optional glyph, a boldness flag and
/// a colour tier. A blank cell has no glyph, is not bold and has no colour.
#[derive(Clone, Copy, Debug, PartialEq, Eq)]
pub struct Cell {
    pub glyph: Option<char>,
    pub bold: bool,
    pub tier: ColorTier,
}

impl Cell {
    /// The empty cell: what every row buffer position starts as, and what an
    /// eraser paints.
    pub open spec fn blank_spec() -> Cell {
        Cell { glyph: None, bold: false, tier: ColorTier::NoColor }
    }

    /// Returns the empty cell.
    pub fn blank() -> (c: Cell)
        ensures
            c == Cell::blank_spec(),
    {
        Cell { glyph: None, bold: false, tier: ColorTier::NoColor }
    }

    /// A cell is blank when it holds no glyph and no colour.
    pub open spec fn is_blank(self) -> bool {
        self == Cell::blank_spec()
    }

    /// The same cell with a bright tier lowered to normal; any other tier is
    /// left as it is. Glyph and boldness are kept.
    pub open spec fn demoted_spec(self) -> Cell {
        if self.tier is Bright {
            Cell { tier: ColorTier::Normal, ..self }
        } else {
            self
        }
    }

    /// Lowers a bright cell to the normal tier, keeping glyph and boldness.
    pub fn demoted(self) -> (c: Cell)
        ensures
            c == self.demoted_spec(),
    {
        match self.tier {
            ColorTier::Bright => Cell { glyph: self.glyph, bold: self.bold, tier: ColorTier::Normal },
            _ => self,
        }
    }
}

} // verus!
