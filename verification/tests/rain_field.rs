//! Tests of the whole rain field: construction, the speed divisor, and the
//! renderer-facing accessors.

use digital_rain::cell::{Cell, ColorTier};
use digital_rain::field::RainField;

fn blank() -> Cell {
    Cell { glyph: None, bold: false, tier: ColorTier::NoColor }
}

#[test]
fn new_field_matches_requested_geometry() {
    let f = RainField::new(4, 10, 1);
    assert_eq!(f.dimensions(), (2, 10));
    let f = RainField::new(9, 30, 2);
    assert_eq!(f.dimensions(), (4, 30));
}

#[test]
fn new_field_starts_blank() {
    let f = RainField::new(8, 12, 1);
    let (cols, rows) = f.dimensions();
    for x in 0..cols {
        for y in 0..rows {
            assert_eq!(f.cell_at(x, y), blank());
        }
    }
}

#[test]
fn tiny_heights_are_clamped() {
    let f = RainField::new(4, 1, 1);
    assert_eq!(f.dimensions(), (2, 5));
    let f = RainField::new(4, 4, 1);
    assert_eq!(f.dimensions(), (2, 5));
    let f = RainField::new(4, 5, 1);
    assert_eq!(f.dimensions(), (2, 5));
}

#[test]
fn first_step_leaves_lower_rows_blank() {
    let mut f = RainField::new(4, 10, 1);
    f.on_tick();
    let (cols, rows) = f.dimensions();
    assert_eq!(cols, 2);
    for x in 0..cols {
        // at most the one node a single spawn can have produced
        assert!(f.columns[x].nodes.len() <= 1);
        for y in 1..rows {
            assert_eq!(f.cell_at(x, y), blank(), "column {x} row {y} painted too early");
        }
    }
}

#[test]
fn ticks_below_the_speed_threshold_change_nothing() {
    let mut f = RainField::new(6, 12, 3);
    let before = f.columns.clone();
    f.on_tick();
    assert_eq!(f.tick_count, 1);
    assert_eq!(f.columns, before);
    f.on_tick();
    assert_eq!(f.tick_count, 2);
    assert_eq!(f.columns, before);
    // the third tick reaches the divisor and advances every column
    f.on_tick();
    assert_eq!(f.tick_count, 0);
    assert_ne!(f.columns, before);
}

#[test]
fn columns_keep_their_wait_time_bound() {
    let mut f = RainField::new(10, 9, 1);
    for _ in 0..50 {
        f.on_tick();
        let (cols, _) = f.dimensions();
        for x in 0..cols {
            assert!(f.columns[x].wait_time < 9);
        }
    }
}
