//! Behavioural tests of the digital rain core: nodes, columns and the whole
//! field, driven deterministically where the library allows it.

use digital_rain::cell::{Cell, ColorTier};
use digital_rain::column::{Column, StepPicks};
use digital_rain::glyph::GlyphPick;
use digital_rain::node::{Node, NodeKind};

const ALPHABET: &str = "qwertyuiopasdfghjklzxcvbnmQWERTYUIOPASDFGHJKLZXCVBNMｦｧｨｩｪｫｬｭｮｯｰｱｲｳｴｵｶｷｸｹｺｻｼｽｾｿﾀﾁﾂﾃﾄﾅﾆﾇﾈﾉﾊﾋﾌﾍﾎﾏﾐﾑﾒﾓﾔﾕﾖﾗﾘﾙﾚﾛﾜﾝ1234567890-=*_+|:<>";

fn pick(ch: char, bold: bool) -> GlyphPick {
    GlyphPick { ch, bold }
}

fn blank() -> Cell {
    Cell { glyph: None, bold: false, tier: ColorTier::NoColor }
}

fn idle_picks(n: usize) -> StepPicks {
    StepPicks {
        glyphs: vec![pick('x', false); n],
        spawn_delay: 1,
        spawn_bright: false,
        spawn_glyph: pick('x', false),
    }
}

#[test]
fn next_glyph_stays_in_alphabet() {
    for _ in 0..200 {
        let c = digital_rain::glyph::next_glyph();
        assert!(ALPHABET.chars().any(|a| a == c), "glyph {c:?} not in alphabet");
    }
}

#[test]
fn next_bool_takes_both_values() {
    let mut seen_true = false;
    let mut seen_false = false;
    for _ in 0..10_000 {
        if digital_rain::glyph::next_bool() {
            seen_true = true;
        } else {
            seen_false = true;
        }
        if seen_true && seen_false {
            return;
        }
    }
    panic!("coin flip never changed");
}

#[test]
fn node_advance_increments_row_by_one() {
    let mut n = Node::new(NodeKind::Writer { bright: true });
    assert_eq!(n.row, 0);
    let mut previous = n.row;
    for _ in 0..5 {
        n.advance(pick('k', false));
        assert_eq!(n.row, previous + 1);
        previous = n.row;
    }
}

#[test]
fn writer_paints_its_glyph() {
    let mut n = Node::new(NodeKind::Writer { bright: false });
    let c = n.advance(pick('z', true));
    assert_eq!(c, Cell { glyph: Some('z'), bold: true, tier: ColorTier::Normal });

    let mut bright = Node::new(NodeKind::Writer { bright: true });
    let c = bright.advance(pick('q', false));
    assert_eq!(c, Cell { glyph: Some('q'), bold: false, tier: ColorTier::Bright });
}

#[test]
fn eraser_paints_blank() {
    let mut n = Node::new(NodeKind::Eraser);
    let c = n.advance(pick('z', true));
    assert_eq!(c, blank());
}

#[test]
fn seeded_column_spawns_on_first_update() {
    let mut c = Column::new_with_wait(10, 0);
    assert_eq!(c.nodes.len(), 0);
    assert!(!c.is_drawing);
    c.update();
    assert_eq!(c.nodes.len(), 1);
    assert_eq!(c.nodes[0].row, 0);
    assert!(matches!(c.nodes[0].kind, NodeKind::Writer { .. }));
    assert!(c.is_drawing);
    assert!(1 <= c.wait_time && c.wait_time < 7, "wait_time {} not in [1, 7)", c.wait_time);
}

#[test]
fn node_retired_exactly_when_it_leaves_the_screen() {
    let row_count = 10;
    let mut c = Column::new_with_wait(row_count, 3);
    // one writer at the top, and a countdown too large to spawn again
    c.spawn_node(1_000, true, pick('a', false));
    assert_eq!(c.nodes.len(), 1);
    assert_eq!(c.nodes[0].row, 0);
    let mut removals = 0;
    for step in 1..=row_count + 5 {
        let picks = idle_picks(c.nodes.len());
        let before = c.nodes.len();
        c.step_with(&picks);
        if c.nodes.len() < before {
            removals += 1;
            // the node leaves exactly when its row first exceeds row_count - 1
            assert_eq!(step, row_count);
        }
        if step < row_count {
            assert_eq!(c.nodes.len(), 1);
            assert_eq!(c.nodes[0].row, step);
        } else {
            assert_eq!(c.nodes.len(), 0);
        }
    }
    assert_eq!(removals, 1);
}

#[test]
fn bright_head_demoted_one_step_later() {
    let mut c = Column::new_with_wait(10, 0);
    // first step: spawn a bright writer, which paints its head at the top
    let spawn = StepPicks {
        glyphs: vec![],
        spawn_delay: 5,
        spawn_bright: true,
        spawn_glyph: pick('a', false),
    };
    c.step_with(&spawn);
    assert_eq!(c.cells[0], Cell { glyph: Some('a'), bold: false, tier: ColorTier::Bright });
    // second step: the head moves to row 1; row 0 drops to the normal tier
    let advance = StepPicks {
        glyphs: vec![pick('b', true)],
        spawn_delay: 1,
        spawn_bright: false,
        spawn_glyph: pick('c', false),
    };
    c.step_with(&advance);
    assert_eq!(c.cells[1], Cell { glyph: Some('b'), bold: true, tier: ColorTier::Bright });
    assert_eq!(c.cells[0], Cell { glyph: Some('a'), bold: false, tier: ColorTier::Normal });
}

#[test]
fn spawned_kinds_alternate() {
    let mut c = Column::new_with_wait(12, 0);
    // spawn as often as the rules allow: every other step
    for _ in 0..20 {
        let mut picks = idle_picks(c.nodes.len());
        picks.spawn_delay = 1;
        c.step_with(&picks);
        for i in 0..c.nodes.len().saturating_sub(1) {
            let first = matches!(c.nodes[i].kind, NodeKind::Writer { .. });
            let second = matches!(c.nodes[i + 1].kind, NodeKind::Writer { .. });
            assert_ne!(first, second, "two consecutive spawns of the same kind");
        }
        if let Some(last) = c.nodes.last() {
            assert_eq!(matches!(last.kind, NodeKind::Writer { .. }), c.is_drawing);
        }
    }
}

#[test]
fn eraser_clears_the_writers_trail() {
    let mut c = Column::new_with_wait(8, 0);
    // writer spawned at step 1 with delay 1, eraser at step 3; from then on
    // the eraser blanks exactly the rows the writer painted two steps before
    for step in 1..=6 {
        let mut picks = idle_picks(c.nodes.len());
        picks.spawn_delay = 1;
        picks.spawn_glyph = pick('w', false);
        c.step_with(&picks);
        if step == 3 {
            assert_eq!(c.nodes.len(), 2);
            assert!(matches!(c.nodes[0].kind, NodeKind::Writer { .. }));
            assert!(matches!(c.nodes[1].kind, NodeKind::Eraser));
            // the eraser's first paint blanks the top row
            assert_eq!(c.cells[0], blank());
        }
        if step == 4 {
            // nothing has repainted the cleared rows yet
            assert_eq!(c.cells[0], blank());
            assert_eq!(c.cells[1], blank());
        }
        if step >= 4 {
            // the eraser blanks the row it reaches, right behind the writer
            let eraser_row = step - 3;
            assert_eq!(c.cells[eraser_row], blank(), "row {eraser_row} not blanked at step {step}");
        }
    }
}

#[test]
fn column_wait_time_stays_below_row_count() {
    let mut c = Column::new(10);
    assert!(c.wait_time < 10);
    for _ in 0..100 {
        c.update();
        assert!(c.wait_time < 10, "wait_time {} reached row_count", c.wait_time);
    }
}
