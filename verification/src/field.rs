//! The whole animated surface: one column per two character cells of the
//! terminal width, advanced together once enough external ticks have
//! accumulated.

use vstd::prelude::*;

use crate::cell::Cell;
use crate::column::{updated_from, Column};

verus! {

/// The smallest usable field height: the spawn delay is drawn from
/// `[1, row_count - 3)`, which needs at least five rows to be non-empty.
/// Smaller requested heights are clamped up to this floor.
pub const MIN_ROW_COUNT: usize = 5;

/// The row count a requested height yields: the height itself, or the floor
/// when the request is below it.
pub open spec fn clamped_height(height: usize) -> usize {
    if height < MIN_ROW_COUNT {
        MIN_ROW_COUNT
    } else {
        height
    }
}

/// The full animated surface: all columns, the tick accumulator and the
/// speed divisor. The field advances one simulation step every `speed`-th
/// external tick.
#[derive(Clone, Debug)]
pub struct RainField {
    /// One vertical lane per two character cells of the terminal width.
    pub columns: Vec<Column>,
    /// Rows per column; fixed for the field's lifetime.
    pub row_count: usize,
    /// External ticks seen since the last simulation step.
    pub tick_count: usize,
    /// Number of external ticks per simulation step; at least 1.
    pub speed: usize,
}

impl RainField {
    /// Well-formedness: a positive speed, an accumulator still below it, and
    /// every column well formed with the field's row count.
    pub open spec fn wf(self) -> bool {
        &&& self.row_count >= MIN_ROW_COUNT
        &&& self.speed >= 1
        &&& self.tick_count < self.speed
        &&& forall|i: int|
            0 <= i < self.columns@.len() ==> (#[trigger] self.columns@[i]).wf()
                && self.columns@[i].row_count == self.row_count
    }

    /// Builds a field for a terminal of the given size: `width / 2` columns
    /// — columns sit two character cells apart — each `height` rows tall
    /// (clamped up to the minimum), each with its own random spawn stagger.
    pub fn new(width: usize, height: usize, speed: usize) -> (f: RainField)
        requires
            width >= 1,
            height >= 1,
            speed >= 1,
        ensures
            f.wf(),
            f.columns@.len() == width / 2,
            f.row_count == clamped_height(height),
            f.speed == speed,
            f.tick_count == 0,
            forall|i: int|
                0 <= i < f.columns@.len() ==> (#[trigger] f.columns@[i]).nodes@.len() == 0
                    && f.columns@[i].wait_time < f.row_count && !f.columns@[i].is_drawing,
            forall|i: int, y: int|
                0 <= i < f.columns@.len() && 0 <= y < f.row_count ==> (#[trigger] f.columns@[i].cells@[y]).is_blank(),
    {
        let row_count = if height < MIN_ROW_COUNT {
            MIN_ROW_COUNT
        } else {
            height
        };
        let column_count = width / 2;
        let mut columns: Vec<Column> = Vec::new();
        while columns.len() < column_count
            invariant
                row_count == clamped_height(height),
                columns@.len() <= column_count,
                forall|i: int|
                    0 <= i < columns@.len() ==> (#[trigger] columns@[i]).wf() && columns@[i].row_count
                        == row_count && columns@[i].nodes@.len() == 0 && columns@[i].wait_time
                        < row_count && !columns@[i].is_drawing,
                forall|i: int, y: int|
                    0 <= i < columns@.len() && 0 <= y < row_count ==> (#[trigger] columns@[i].cells@[y]).is_blank(),
            decreases column_count - columns@.len(),
        {
            columns.push(Column::new(row_count));
        }
        RainField { columns, row_count, tick_count: 0, speed }
    }

    /// Advances every column by one simulation step, oldest state to newest,
    /// each with its own random draws.
    pub fn update(&mut self)
        requires
            old(self).wf(),
        ensures
            final(self).wf(),
            final(self).row_count == old(self).row_count,
            final(self).speed == old(self).speed,
            final(self).tick_count == old(self).tick_count,
            final(self).columns@.len() == old(self).columns@.len(),
            forall|i: int|
                0 <= i < old(self).columns@.len() ==> updated_from(
                    #[trigger] final(self).columns@[i],
                    old(self).columns@[i],
                ),
    {
        let ghost pre = *old(self);
        let mut i: usize = 0;
        while i < self.columns.len()
            invariant
                pre.wf(),
                i <= self.columns@.len(),
                self.columns@.len() == pre.columns@.len(),
                self.row_count == pre.row_count,
                self.speed == pre.speed,
                self.tick_count == pre.tick_count,
                forall|j: int|
                    0 <= j < i ==> updated_from(#[trigger] self.columns@[j], pre.columns@[j])
                        && self.columns@[j].wf() && self.columns@[j].row_count == pre.row_count,
                forall|j: int|
                    i <= j < self.columns@.len() ==> (#[trigger] self.columns@[j])
                        == pre.columns@[j],
            decreases self.columns@.len() - i,
        {
            proof {
                assert(pre.columns@[i as int].wf());
            }
            let col = &mut self.columns[i];
            col.update();
            i = i + 1;
        }
    }

    /// One external tick: accumulates it, and on every `speed`-th tick
    /// resets the accumulator and advances every column by one step. Below
    /// the threshold the columns are left exactly as they are.
    pub fn on_tick(&mut self)
        requires
            old(self).wf(),
        ensures
            final(self).wf(),
            final(self).row_count == old(self).row_count,
            final(self).speed == old(self).speed,
            final(self).columns@.len() == old(self).columns@.len(),
            old(self).tick_count + 1 < old(self).speed ==> final(self).columns
                == old(self).columns && final(self).tick_count == old(self).tick_count + 1,
            old(self).tick_count + 1 == old(self).speed ==> final(self).tick_count == 0 && forall|
                i: int,
            |
                0 <= i < old(self).columns@.len() ==> updated_from(
                    #[trigger] final(self).columns@[i],
                    old(self).columns@[i],
                ),
    {
        let next = self.tick_count + 1;
        if next == self.speed {
            self.tick_count = 0;
            self.update();
        } else {
            self.tick_count = next;
        }
    }

    /// The field's size: how many columns, and how many rows each has.
    pub fn dimensions(&self) -> (d: (usize, usize))
        ensures
            d.0 == self.columns@.len(),
            d.1 == self.row_count,
    {
        (self.columns.len(), self.row_count)
    }

    /// The cell last painted at column `x`, row `y`. Out-of-range positions
    /// are a caller error, excluded by contract.
    pub fn cell_at(&self, x: usize, y: usize) -> (c: Cell)
        requires
            x < self.columns@.len(),
            self.wf(),
            y < self.row_count,
        ensures
            c == self.columns@[x as int].cells@[y as int],
    {
        self.columns[x].cells[y]
    }
}

} // verus!
