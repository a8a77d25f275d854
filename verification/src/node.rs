//! A node is one falling unit inside a column: a writer that paints a fresh
//! glyph on every step, or an eraser that blanks the trail behind a writer.

use vstd::prelude::*;

use crate::cell::{Cell, ColorTier};
use crate::glyph::GlyphPick;

verus! {

/// The two kinds of node. A writer chosen as bright paints its leading edge
/// in the bright tier; an eraser always paints blanks.
#[derive(Clone, Copy, Debug, PartialEq, Eq, Structural)]
pub enum NodeKind {
    Writer { bright: bool },
    Eraser,
}

impl NodeKind {
    /// Whether this kind paints glyphs rather than blanks.
    pub open spec fn is_writer(self) -> bool {
        self is Writer
    }

    /// Whether this kind is a writer whose leading edge is bright.
    pub open spec fn is_bright_writer(self) -> bool {
        self matches NodeKind::Writer { bright: true }
    }

    /// Tests whether this kind is a writer whose leading edge is bright.
    pub fn bright_writer(&self) -> (b: bool)
        ensures
            b == self.is_bright_writer(),
    {
        match self {
            NodeKind::Writer { bright } => *bright,
            NodeKind::Eraser => false,
        }
    }

    /// The cell this kind paints, given the glyph choice for the step: a
    /// writer paints the chosen glyph in its tier, an eraser paints a blank.
    pub open spec fn cell_spec(self, pick: GlyphPick) -> Cell {
        match self {
            NodeKind::Writer { bright } => Cell {
                glyph: Some(pick.ch),
                bold: pick.bold,
                tier: if bright {
                    ColorTier::Bright
                } else {
                    ColorTier::Normal
                },
            },
            NodeKind::Eraser => Cell::blank_spec(),
        }
    }

    /// Builds the cell this kind paints for the given glyph choice.
    pub fn cell(self, pick: GlyphPick) -> (c: Cell)
        ensures
            c == self.cell_spec(pick),
    {
        match self {
            NodeKind::Writer { bright } => Cell {
                glyph: Some(pick.ch),
                bold: pick.bold,
                tier: if bright {
                    ColorTier::Bright
                } else {
                    ColorTier::Normal
                },
            },
            NodeKind::Eraser => Cell::blank(),
        }
    }
}

/// One falling node: its kind, fixed at spawn, and its current row. Rows are
/// counted from 0 at the top; a node is spawned at row 0 and advances one
/// row per simulation step until it leaves the visible area.
#[derive(Clone, Copy, Debug, PartialEq, Eq)]
pub struct Node {
    pub kind: NodeKind,
    pub row: usize,
}

impl Node {
    /// Spawns a node of the given kind at the top row.
    pub fn new(kind: NodeKind) -> (n: Node)
        ensures
            n.kind == kind,
            n.row == 0,
    {
        Node { kind, row: 0 }
    }

    /// Moves the node down by exactly one row and returns the cell it paints
    /// at its new position. The kind never changes; the row never decreases.
    pub fn advance(&mut self, pick: GlyphPick) -> (c: Cell)
        requires
            old(self).row < usize::MAX,
        ensures
            final(self).kind == old(self).kind,
            final(self).row == old(self).row + 1,
            c == old(self).kind.cell_spec(pick),
    {
        self.row = self.row + 1;
        self.kind.cell(pick)
    }
}

} // verus!
