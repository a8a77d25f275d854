//! Core simulation of a terminal "digital rain" effect: columns of falling
//! writer and eraser nodes, advanced one step at a time by an external tick
//! source, producing a buffer of cells for a renderer to paint.

pub mod cell;
pub mod glyph;
pub mod node;
pub mod column;
pub mod event;
pub mod field;

use vstd::prelude::*;

verus! {

} // verus!
