//! One vertical lane of the field: an ordered queue of falling nodes (oldest
//! first), a row buffer of visible cells, and a spawn countdown. A column
//! alternates between spawning writers and erasers, so every painted trail is
//! eventually cleared by the eraser that follows the same path.

use vstd::prelude::*;

use crate::cell::Cell;
use crate::glyph::{alphabet, next_bool, next_pick, rand_below, GlyphPick};
use crate::node::{Node, NodeKind};

verus! {

/// The kind a spawn produces: a writer (with its bright flag) while the
/// column is in its drawing phase, an eraser while it is clearing.
pub open spec fn spawn_kind(drawing: bool, bright: bool) -> NodeKind {
    if drawing {
        NodeKind::Writer { bright }
    } else {
        NodeKind::Eraser
    }
}

/// Every node moved down one row; kinds are unchanged.
pub open spec fn advanced(ns: Seq<Node>) -> Seq<Node> {
    Seq::new(ns.len(), |i: int| Node { kind: ns[i].kind, row: (ns[i].row + 1) as usize })
}

/// The effect of one advanced node on the row buffer: its cell is written at
/// its new row (when still on screen), and a bright writer then lowers the
/// cell one row above — its previous head — to the normal tier.
pub open spec fn paint_one(cells: Seq<Cell>, n: Node, pick: GlyphPick) -> Seq<Cell> {
    let written = if n.row < cells.len() {
        cells.update(n.row as int, n.kind.cell_spec(pick))
    } else {
        cells
    };
    if n.kind.is_bright_writer() && 1 <= n.row <= written.len() {
        written.update(n.row - 1, written[n.row - 1].demoted_spec())
    } else {
        written
    }
}

/// The row buffer after every advanced node painted in turn, oldest first.
pub open spec fn paint_all(cells: Seq<Cell>, ns: Seq<Node>, picks: Seq<GlyphPick>) -> Seq<Cell>
    decreases ns.len(),
{
    if ns.len() == 0 {
        cells
    } else {
        paint_all(paint_one(cells, ns[0], picks[0]), ns.drop_first(), picks.drop_first())
    }
}

/// The queue after one simulation step: every node advanced one row, a new
/// node of the phase's kind pushed at the back when the countdown was zero,
/// and the oldest node removed once its row exceeds the last visible row.
pub open spec fn step_nodes(
    ns: Seq<Node>,
    wait: usize,
    drawing: bool,
    bright: bool,
    rc: usize,
) -> Seq<Node> {
    let adv = advanced(ns);
    let grown = if wait == 0 {
        adv.push(Node { kind: spawn_kind(!drawing, bright), row: 0 })
    } else {
        adv
    };
    if grown.len() > 0 && grown[0].row > rc - 1 {
        grown.drop_first()
    } else {
        grown
    }
}

/// The row buffer after one simulation step: the advanced nodes paint in
/// order, then a spawned node paints its first cell at the top row.
pub open spec fn step_cells(
    cells: Seq<Cell>,
    ns: Seq<Node>,
    glyphs: Seq<GlyphPick>,
    wait: usize,
    drawing: bool,
    bright: bool,
    sg: GlyphPick,
) -> Seq<Cell> {
    let painted = paint_all(cells, advanced(ns), glyphs);
    if wait == 0 && painted.len() > 0 {
        painted.update(0, spawn_kind(!drawing, bright).cell_spec(sg))
    } else {
        painted
    }
}

/// The shape a live queue always has. Oldest nodes stand in front with the
/// highest rows; successive spawns are at least two steps apart, so rows
/// differ by at least two; kinds strictly alternate, and the newest node's
/// kind records the current phase. When the countdown has reached zero the
/// newest node has already advanced at least once, so a fresh spawn at the
/// top row keeps the spacing.
pub open spec fn queue_ok(ns: Seq<Node>, rc: usize, drawing: bool, wait: usize) -> bool {
    &&& forall|i: int| 0 <= i < ns.len() ==> (#[trigger] ns[i].row) < rc
    &&& forall|i: int| 0 <= i < ns.len() - 1 ==> (#[trigger] ns[i].row) >= ns[i + 1].row + 2
    &&& forall|i: int|
        0 <= i < ns.len() - 1 ==> (#[trigger] ns[i].kind.is_writer()) != ns[i + 1].kind.is_writer()
    &&& (ns.len() > 0 ==> (ns[ns.len() - 1].kind.is_writer() <==> drawing))
    &&& (ns.len() > 0 && wait == 0 ==> ns[ns.len() - 1].row >= 1)
}

/// Painting one more node extends a sequential paint: the buffer after the
/// first `i + 1` nodes is the buffer after the first `i` with node `i`'s
/// effect applied.
proof fn lemma_paint_all_snoc(cells: Seq<Cell>, ns: Seq<Node>, picks: Seq<GlyphPick>, i: int)
    requires
        0 <= i < ns.len(),
        ns.len() == picks.len(),
    ensures
        paint_all(cells, ns.take(i + 1), picks.take(i + 1)) == paint_one(
            paint_all(cells, ns.take(i), picks.take(i)),
            ns[i],
            picks[i],
        ),
    decreases i,
{
    if i == 0 {
        assert(ns.take(1)[0] == ns[0]);
        assert(picks.take(1)[0] == picks[0]);
        assert(ns.take(1).drop_first() =~= ns.take(0));
        assert(picks.take(1).drop_first() =~= picks.take(0));
        assert(paint_all(cells, ns.take(0), picks.take(0)) == cells);
        assert(paint_all(cells, ns.take(1), picks.take(1)) == paint_all(
            paint_one(cells, ns[0], picks[0]),
            ns.take(0),
            picks.take(0),
        ));
    } else {
        let c1 = paint_one(cells, ns[0], picks[0]);
        lemma_paint_all_snoc(c1, ns.drop_first(), picks.drop_first(), i - 1);
        assert(ns.drop_first().take(i) =~= ns.take(i + 1).drop_first());
        assert(ns.drop_first().take(i - 1) =~= ns.take(i).drop_first());
        assert(picks.drop_first().take(i) =~= picks.take(i + 1).drop_first());
        assert(picks.drop_first().take(i - 1) =~= picks.take(i).drop_first());
        assert(ns.drop_first()[i - 1] == ns[i]);
        assert(picks.drop_first()[i - 1] == picks[i]);
        assert(ns.take(i + 1)[0] == ns[0]);
        assert(ns.take(i)[0] == ns[0]);
        assert(picks.take(i + 1)[0] == picks[0]);
        assert(picks.take(i)[0] == picks[0]);
        assert(paint_all(cells, ns.take(i + 1), picks.take(i + 1)) == paint_all(
            c1,
            ns.drop_first().take(i),
            picks.drop_first().take(i),
        ));
        assert(paint_all(cells, ns.take(i), picks.take(i)) == paint_all(
            c1,
            ns.drop_first().take(i - 1),
            picks.drop_first().take(i - 1),
        ));
    }
}

/// One step keeps the queue's shape: advancing, spawning when the countdown
/// is at zero, and retiring the oldest node past the bottom row all preserve
/// `queue_ok`.
#[verifier::rlimit(100)]
proof fn lemma_step_queue_ok(
    ns: Seq<Node>,
    rc: usize,
    drawing: bool,
    wait: usize,
    bright: bool,
    delay: usize,
)
    requires
        queue_ok(ns, rc, drawing, wait),
        rc >= 5,
        wait == 0 ==> delay >= 1,
    ensures
        queue_ok(
            step_nodes(ns, wait, drawing, bright, rc),
            rc,
            if wait == 0 {
                !drawing
            } else {
                drawing
            },
            if wait == 0 {
                delay
            } else {
                (wait - 1) as usize
            },
        ),
{
    let adv = advanced(ns);
    let k = spawn_kind(!drawing, bright);
    let grown = if wait == 0 {
        adv.push(Node { kind: k, row: 0 })
    } else {
        adv
    };
    let fin = step_nodes(ns, wait, drawing, bright, rc);
    let w2: usize = if wait == 0 {
        delay
    } else {
        (wait - 1) as usize
    };
    assert(adv.len() == ns.len());
    assert forall|i: int| 0 <= i < ns.len() implies (#[trigger] adv[i]) == (Node {
        kind: ns[i].kind,
        row: (ns[i].row + 1) as usize,
    }) by {}
    assert forall|i: int| 1 <= i < adv.len() implies (#[trigger] adv[i].row) < rc by {
        assert(ns[i - 1].row >= ns[i].row + 2);
        assert(ns[i - 1].row < rc);
    }
    assert forall|i: int| 0 <= i < grown.len() - 1 implies (#[trigger] grown[i].row) >= grown[i
        + 1].row + 2 by {
        if i + 1 < adv.len() {
            assert(ns[i].row >= ns[i + 1].row + 2);
        } else {
            // the seam before a freshly spawned node: the previous newest
            // node has advanced at least twice since its own spawn
            assert(ns[ns.len() - 1].row >= 1);
        }
    }
    assert forall|i: int| 0 <= i < grown.len() - 1 implies (#[trigger] grown[i].kind.is_writer())
        != grown[i + 1].kind.is_writer() by {
        if i + 1 < adv.len() {
            assert(ns[i].kind.is_writer() != ns[i + 1].kind.is_writer());
        } else {
            assert(ns[ns.len() - 1].kind.is_writer() <==> drawing);
        }
    }
    let d2 = if wait == 0 {
        !drawing
    } else {
        drawing
    };
    assert(grown.len() > 0 ==> (grown[grown.len() - 1].kind.is_writer() <==> d2));
    if grown.len() > 0 && grown[0].row > rc - 1 {
        assert(fin == grown.drop_first());
        assert forall|i: int| 0 <= i < fin.len() implies (#[trigger] fin[i]) == grown[i + 1] by {}
        assert forall|i: int| 0 <= i < fin.len() implies (#[trigger] fin[i].row) < rc by {
            assert(fin[i] == grown[i + 1]);
            if i + 1 < adv.len() {
                assert(adv[i + 1].row < rc);
            }
        }
        assert(fin.len() > 0 ==> fin[fin.len() - 1] == grown[grown.len() - 1]);
        assert forall|i: int| 0 <= i < fin.len() - 1 implies (#[trigger] fin[i].row) >= fin[i
            + 1].row + 2 by {
            assert(fin[i] == grown[i + 1]);
            assert(fin[i + 1] == grown[i + 2]);
            assert(grown[i + 1].row >= grown[i + 2].row + 2);
        }
        assert forall|i: int|
            0 <= i < fin.len() - 1 implies (#[trigger] fin[i].kind.is_writer()) != fin[i
            + 1].kind.is_writer() by {
            assert(fin[i] == grown[i + 1]);
            assert(fin[i + 1] == grown[i + 2]);
            assert(grown[i + 1].kind.is_writer() != grown[i + 2].kind.is_writer());
        }
    } else {
        assert(fin == grown);
        assert forall|i: int| 0 <= i < fin.len() implies (#[trigger] fin[i].row) < rc by {
            if i == 0 {
                assert(grown[0].row <= rc - 1);
            } else if i < adv.len() {
                assert(adv[i].row < rc);
            }
        }
    }
    // the newest node's kind still records the phase
    assert(fin.len() > 0 ==> (fin[fin.len() - 1].kind.is_writer() <==> d2));
    // and when the new countdown is already zero, the newest node has
    // advanced at least once
    if w2 == 0 && fin.len() > 0 {
        assert(wait > 0);
        assert(fin[fin.len() - 1] == adv[adv.len() - 1]);
        assert(fin[fin.len() - 1].row >= 1);
    }
}

/// A sequential paint can be split anywhere: painting all nodes equals
/// painting the first `i` and then the rest.
proof fn lemma_paint_all_split(cells: Seq<Cell>, ns: Seq<Node>, picks: Seq<GlyphPick>, i: int)
    requires
        0 <= i <= ns.len(),
        ns.len() == picks.len(),
    ensures
        paint_all(cells, ns, picks) == paint_all(
            paint_all(cells, ns.take(i), picks.take(i)),
            ns.skip(i),
            picks.skip(i),
        ),
    decreases i,
{
    if i == 0 {
        assert(ns.take(0).len() == 0);
        assert(ns.skip(0) =~= ns);
        assert(picks.skip(0) =~= picks);
    } else {
        let c1 = paint_one(cells, ns[0], picks[0]);
        lemma_paint_all_split(c1, ns.drop_first(), picks.drop_first(), i - 1);
        assert(ns.drop_first().take(i - 1) =~= ns.take(i).drop_first());
        assert(picks.drop_first().take(i - 1) =~= picks.take(i).drop_first());
        assert(ns.drop_first().skip(i - 1) =~= ns.skip(i));
        assert(picks.drop_first().skip(i - 1) =~= picks.skip(i));
        assert(ns.take(i)[0] == ns[0]);
        assert(picks.take(i)[0] == picks[0]);
        assert(paint_all(cells, ns.take(i), picks.take(i)) == paint_all(
            c1,
            ns.take(i).drop_first(),
            picks.take(i).drop_first(),
        ));
    }
}

/// A row that no painting node writes at or directly above keeps its cell.
proof fn lemma_paint_all_frame(cells: Seq<Cell>, ns: Seq<Node>, picks: Seq<GlyphPick>, t: int)
    requires
        forall|j: int| 0 <= j < ns.len() ==> (#[trigger] ns[j].row) != t && ns[j].row != t + 1,
    ensures
        paint_all(cells, ns, picks).len() == cells.len(),
        0 <= t < cells.len() ==> paint_all(cells, ns, picks)[t] == cells[t],
    decreases ns.len(),
{
    if ns.len() == 0 {
    } else {
        let c1 = paint_one(cells, ns[0], picks[0]);
        assert(c1.len() == cells.len());
        assert(0 <= t < cells.len() ==> c1[t] == cells[t]);
        assert forall|j: int|
            0 <= j < ns.drop_first().len() implies (#[trigger] ns.drop_first()[j].row) != t
            && ns.drop_first()[j].row != t + 1 by {
            assert(ns.drop_first()[j] == ns[j + 1]);
        }
        lemma_paint_all_frame(c1, ns.drop_first(), picks.drop_first(), t);
    }
}

/// What one randomly driven step of a column guarantees, whatever the
/// generator returned: the phase and countdown move as the step rule says —
/// a spawn redraws the countdown uniformly from `[1, row_count - 3)` — and
/// the queue and row buffer are one step of the machine for some choice of
/// glyph picks (all from the fixed alphabet) and bright flag.
pub open spec fn updated_from(post: Column, pre: Column) -> bool {
    &&& post.row_count == pre.row_count
    &&& post.is_drawing == (if pre.wait_time == 0 {
        !pre.is_drawing
    } else {
        pre.is_drawing
    })
    &&& (pre.wait_time > 0 ==> post.wait_time == pre.wait_time - 1)
    &&& (pre.wait_time == 0 ==> 1 <= post.wait_time < pre.row_count - 3)
    &&& exists|g: Seq<GlyphPick>, b: bool, sg: GlyphPick|
        {
            &&& g.len() == pre.nodes@.len()
            &&& (forall|j: int| 0 <= j < g.len() ==> alphabet().contains((#[trigger] g[j]).ch))
            &&& alphabet().contains(sg.ch)
            &&& post.nodes@ == step_nodes(
                pre.nodes@,
                pre.wait_time,
                pre.is_drawing,
                b,
                pre.row_count,
            )
            &&& post.cells@ == #[trigger] step_cells(
                pre.cells@,
                pre.nodes@,
                g,
                pre.wait_time,
                pre.is_drawing,
                b,
                sg,
            )
        }
}

/// The random values one simulation step of a column consumes: a glyph
/// choice for each live node (used by the writers among them), and the
/// spawn decision's draws, read only when the countdown has reached zero.
pub struct StepPicks {
    pub glyphs: Vec<GlyphPick>,
    pub spawn_delay: usize,
    pub spawn_bright: bool,
    pub spawn_glyph: GlyphPick,
}

/// One vertical lane of the field.
#[derive(Clone, Debug, PartialEq, Eq)]
pub struct Column {
    /// Number of visible rows; fixed for the column's lifetime.
    pub row_count: usize,
    /// Steps remaining before the next spawn; a spawn happens when it is 0.
    pub wait_time: usize,
    /// Phase toggle: the next spawn is a writer when it flips to true.
    pub is_drawing: bool,
    /// Live nodes, oldest first.
    pub nodes: Vec<Node>,
    /// The last-painted cell of each visible row.
    pub cells: Vec<Cell>,
}

impl Column {
    /// Well-formedness: enough rows for the spawn window, a buffer cell per
    /// row, and a queue of the shape `queue_ok` describes.
    pub open spec fn wf(self) -> bool {
        &&& self.row_count >= 5
        &&& self.cells@.len() == self.row_count
        &&& queue_ok(self.nodes@, self.row_count, self.is_drawing, self.wait_time)
    }

    /// Builds an idle column with the given spawn countdown: no nodes, a
    /// blank buffer, and the clearing phase, so the first spawn is a writer.
    pub fn new_with_wait(row_count: usize, wait_time: usize) -> (c: Column)
        requires
            row_count >= 5,
        ensures
            c.wf(),
            c.row_count == row_count,
            c.wait_time == wait_time,
            !c.is_drawing,
            c.nodes@.len() == 0,
            c.cells@.len() == row_count,
            forall|i: int| 0 <= i < row_count ==> (#[trigger] c.cells@[i]).is_blank(),
    {
        let mut cells: Vec<Cell> = Vec::new();
        while cells.len() < row_count
            invariant
                cells@.len() <= row_count,
                forall|i: int| 0 <= i < cells@.len() ==> (#[trigger] cells@[i]).is_blank(),
            decreases row_count - cells@.len(),
        {
            cells.push(Cell::blank());
        }
        Column { row_count, wait_time, is_drawing: false, nodes: Vec::new(), cells }
    }

    /// Builds an idle column whose spawn countdown is drawn uniformly from
    /// `[0, row_count)`, staggering the columns' start times.
    pub fn new(row_count: usize) -> (c: Column)
        requires
            row_count >= 5,
        ensures
            c.wf(),
            c.row_count == row_count,
            c.wait_time < row_count,
            !c.is_drawing,
            c.nodes@.len() == 0,
            c.cells@.len() == row_count,
            forall|i: int| 0 <= i < row_count ==> (#[trigger] c.cells@[i]).is_blank(),
    {
        let wait_time = rand_below(row_count);
        Column::new_with_wait(row_count, wait_time)
    }

    /// The spawn half of a step: flips the phase, restarts the countdown at
    /// `delay`, pushes a node of the new phase's kind at the back of the
    /// queue, and paints that node's first cell at the top row.
    pub fn spawn_node(&mut self, delay: usize, bright: bool, pick: GlyphPick)
        requires
            delay >= 1,
            old(self).cells@.len() > 0,
        ensures
            final(self).row_count == old(self).row_count,
            final(self).is_drawing == !old(self).is_drawing,
            final(self).wait_time == delay,
            final(self).nodes@ == old(self).nodes@.push(
                Node { kind: spawn_kind(!old(self).is_drawing, bright), row: 0 },
            ),
            final(self).cells@ == old(self).cells@.update(
                0,
                spawn_kind(!old(self).is_drawing, bright).cell_spec(pick),
            ),
    {
        self.is_drawing = !self.is_drawing;
        self.wait_time = delay;
        let kind = if self.is_drawing {
            NodeKind::Writer { bright }
        } else {
            NodeKind::Eraser
        };
        self.nodes.push(Node::new(kind));
        let c = kind.cell(pick);
        self.cells[0] = c;
    }

    /// One simulation step, driven by the given random values. In this
    /// order: every node advances one row and paints its cell into the row
    /// buffer (a bright writer also lowering its previous head to the normal
    /// tier); then, if the countdown is at zero, the phase flips and a node
    /// of the new kind is spawned at the top, else the countdown ticks down;
    /// finally the oldest node is retired once its row exceeds the last
    /// visible row — and only then.
    ///
    /// The countdown stays below the row count as long as a spawn's delay
    /// does, so a column driven by `update` keeps `wait_time < row_count`.
    pub fn step_with(&mut self, picks: &StepPicks)
        requires
            old(self).wf(),
            picks.glyphs@.len() == old(self).nodes@.len(),
            old(self).wait_time == 0 ==> picks.spawn_delay >= 1,
        ensures
            final(self).wf(),
            final(self).row_count == old(self).row_count,
            final(self).is_drawing == (if old(self).wait_time == 0 {
                !old(self).is_drawing
            } else {
                old(self).is_drawing
            }),
            final(self).wait_time == (if old(self).wait_time == 0 {
                picks.spawn_delay
            } else {
                (old(self).wait_time - 1) as usize
            }),
            final(self).nodes@ == step_nodes(
                old(self).nodes@,
                old(self).wait_time,
                old(self).is_drawing,
                picks.spawn_bright,
                old(self).row_count,
            ),
            final(self).cells@ == step_cells(
                old(self).cells@,
                old(self).nodes@,
                picks.glyphs@,
                old(self).wait_time,
                old(self).is_drawing,
                picks.spawn_bright,
                picks.spawn_glyph,
            ),
            (if old(self).wait_time == 0 {
                picks.spawn_delay < old(self).row_count
            } else {
                old(self).wait_time < old(self).row_count
            }) ==> final(self).wait_time < final(self).row_count,
    {
        let ghost pre = *old(self);
        let rc = self.row_count;
        let mut i: usize = 0;
        while i < self.nodes.len()
            invariant
                pre.wf(),
                rc == pre.row_count,
                self.row_count == pre.row_count,
                self.wait_time == pre.wait_time,
                self.is_drawing == pre.is_drawing,
                self.nodes@.len() == pre.nodes@.len(),
                picks.glyphs@.len() == pre.nodes@.len(),
                i <= self.nodes@.len(),
                forall|j: int| 0 <= j < i ==> (#[trigger] self.nodes@[j]) == advanced(pre.nodes@)[j],
                forall|j: int|
                    i <= j < self.nodes@.len() ==> (#[trigger] self.nodes@[j]) == pre.nodes@[j],
                self.cells@.len() == pre.row_count,
                self.cells@ == paint_all(
                    pre.cells@,
                    advanced(pre.nodes@).take(i as int),
                    picks.glyphs@.take(i as int),
                ),
            decreases self.nodes@.len() - i,
        {
            let pick = picks.glyphs[i];
            let mut n = self.nodes[i];
            proof {
                assert(pre.nodes@[i as int].row < rc);
            }
            let c = n.advance(pick);
            self.nodes[i] = n;
            proof {
                assert(n == advanced(pre.nodes@)[i as int]);
                lemma_paint_all_snoc(pre.cells@, advanced(pre.nodes@), picks.glyphs@, i as int);
            }
            let ghost before = self.cells@;
            if n.row < rc {
                self.cells[n.row] = c;
            }
            if n.kind.bright_writer() && n.row >= 1 && n.row <= self.cells.len() {
                let prev = self.cells[n.row - 1];
                self.cells[n.row - 1] = prev.demoted();
            }
            proof {
                assert(self.cells@ == paint_one(before, n, pick));
            }
            i = i + 1;
        }
        proof {
            assert(advanced(pre.nodes@).take(pre.nodes@.len() as int) =~= advanced(pre.nodes@));
            assert(picks.glyphs@.take(pre.nodes@.len() as int) =~= picks.glyphs@);
            assert(self.nodes@ =~= advanced(pre.nodes@));
        }
        let ghost painted = self.cells@;
        let ghost grown = if pre.wait_time == 0 {
            advanced(pre.nodes@).push(
                Node { kind: spawn_kind(!pre.is_drawing, picks.spawn_bright), row: 0 },
            )
        } else {
            advanced(pre.nodes@)
        };
        if self.wait_time == 0 {
            self.spawn_node(picks.spawn_delay, picks.spawn_bright, picks.spawn_glyph);
        } else {
            self.wait_time = self.wait_time - 1;
        }
        proof {
            assert(self.nodes@ == grown);
        }
        if self.nodes.len() > 0 {
            let front = self.nodes[0];
            if front.row > rc - 1 {
                self.nodes.remove(0);
                proof {
                    assert(self.nodes@ =~= grown.drop_first());
                }
            }
        }
        proof {
            assert(self.nodes@ == step_nodes(
                pre.nodes@,
                pre.wait_time,
                pre.is_drawing,
                picks.spawn_bright,
                rc,
            ));
            lemma_step_queue_ok(
                pre.nodes@,
                rc,
                pre.is_drawing,
                pre.wait_time,
                picks.spawn_bright,
                picks.spawn_delay,
            );
        }
    }

    /// One randomly driven simulation step: draws a glyph pick for every
    /// live node and, when the countdown is at zero, a spawn delay uniform
    /// in `[1, row_count - 3)`, a bright flag and a first glyph, then steps
    /// the machine with them. The countdown never reaches the row count.
    pub fn update(&mut self)
        requires
            old(self).wf(),
        ensures
            final(self).wf(),
            updated_from(*final(self), *old(self)),
            old(self).wait_time < old(self).row_count ==> final(self).wait_time < final(self).row_count,
    {
        let ghost pre = *old(self);
        let n = self.nodes.len();
        let mut glyphs: Vec<GlyphPick> = Vec::new();
        while glyphs.len() < n
            invariant
                glyphs@.len() <= n,
                forall|j: int|
                    0 <= j < glyphs@.len() ==> alphabet().contains((#[trigger] glyphs@[j]).ch),
            decreases n - glyphs@.len(),
        {
            glyphs.push(next_pick());
        }
        let spawn_delay: usize = if self.wait_time == 0 {
            1 + rand_below(self.row_count - 4)
        } else {
            1
        };
        let spawn_bright = next_bool();
        let spawn_glyph = next_pick();
        let picks = StepPicks { glyphs, spawn_delay, spawn_bright, spawn_glyph };
        self.step_with(&picks);
        proof {
            assert(self.cells@ == step_cells(
                pre.cells@,
                pre.nodes@,
                picks.glyphs@,
                pre.wait_time,
                pre.is_drawing,
                picks.spawn_bright,
                picks.spawn_glyph,
            ));
        }
    }
}

/// Alternation law: the queue records the column's spawns oldest first, and
/// their kinds strictly alternate — writer, eraser, writer, … — with the
/// newest matching the current phase, which every spawn flips. So
/// consecutive spawns of one column never produce the same kind twice.
pub proof fn lemma_alternation(c: Column)
    requires
        c.wf(),
    ensures
        forall|i: int|
            0 <= i < c.nodes@.len() - 1 ==> (#[trigger] c.nodes@[i].kind.is_writer())
                != c.nodes@[i + 1].kind.is_writer(),
        c.nodes@.len() > 0 ==> (c.nodes@[c.nodes@.len() - 1].kind.is_writer() <==> c.is_drawing),
{
}

/// Retirement law: in one step, an advanced node stays in the queue exactly
/// when its new row is still at most `row_count - 1`; a node whose row
/// exceeds that is removed, and no other node ever is.
pub proof fn lemma_retired_iff(c: Column, bright: bool, j: int)
    requires
        c.wf(),
        0 <= j < c.nodes@.len(),
    ensures
        ({
            let adv = advanced(c.nodes@);
            let fin = step_nodes(c.nodes@, c.wait_time, c.is_drawing, bright, c.row_count);
            fin.contains(adv[j]) <==> adv[j].row <= c.row_count - 1
        }),
{
    let ns = c.nodes@;
    let rc = c.row_count;
    let adv = advanced(ns);
    let k = spawn_kind(!c.is_drawing, bright);
    let grown = if c.wait_time == 0 {
        adv.push(Node { kind: k, row: 0 })
    } else {
        adv
    };
    let fin = step_nodes(ns, c.wait_time, c.is_drawing, bright, rc);
    assert forall|i: int| 1 <= i < adv.len() implies (#[trigger] adv[i].row) < rc by {
        assert(ns[i - 1].row >= ns[i].row + 2);
        assert(ns[i - 1].row < rc);
    }
    if grown.len() > 0 && grown[0].row > rc - 1 {
        assert(fin == grown.drop_first());
        assert(grown[0] == adv[0]);
        if j == 0 {
            // the front node is past the bottom: it is gone, and nothing
            // left in the queue has its row
            assert(adv[0].row > rc - 1);
            assert forall|i: int| 0 <= i < fin.len() implies (#[trigger] fin[i]) != adv[0] by {
                assert(fin[i] == grown[i + 1]);
                if i + 1 < adv.len() {
                    assert(adv[i + 1].row < rc);
                    assert(adv[i + 1].row <= rc - 1);
                } else {
                    assert(grown[i + 1].row == 0);
                    assert(adv[0].row >= rc);
                }
            }
            assert(!fin.contains(adv[0]));
        } else {
            assert(adv[j].row < rc);
            assert(fin[j - 1] == grown[j]);
            assert(fin.contains(adv[j])) by {
                assert(fin[j - 1] == adv[j]);
            }
        }
    } else {
        assert(fin == grown);
        assert(fin[j] == adv[j]);
        assert(fin.contains(adv[j]));
        if j == 0 {
            assert(adv[0].row <= rc - 1);
        }
    }
}

/// Head and tail law: when a bright writer advances to row `r`, the step
/// paints its bright head there and, in the same step, lowers the cell at
/// row `r - 1` — the head it painted one step earlier — to the normal tier.
/// No other node of the step touches either row: live nodes sit at least
/// two rows apart, and a node spawned this step paints only the top row,
/// which is below the writer's head only when the writer itself was spawned
/// last step — and then the countdown cannot have reached zero yet.
#[verifier::rlimit(100)]
pub proof fn lemma_head_tail(
    c: Column,
    glyphs: Seq<GlyphPick>,
    bright: bool,
    sg: GlyphPick,
    j: int,
)
    requires
        c.wf(),
        glyphs.len() == c.nodes@.len(),
        0 <= j < c.nodes@.len(),
        c.nodes@[j].kind.is_bright_writer(),
        c.nodes@[j].row + 1 < c.row_count,
    ensures
        ({
            let r = c.nodes@[j].row + 1;
            let fin = step_cells(
                c.cells@,
                c.nodes@,
                glyphs,
                c.wait_time,
                c.is_drawing,
                bright,
                sg,
            );
            &&& fin.len() == c.cells@.len()
            &&& fin[r] == c.nodes@[j].kind.cell_spec(glyphs[j])
            &&& fin[r] == (Cell {
                glyph: Some(glyphs[j].ch),
                bold: glyphs[j].bold,
                tier: crate::cell::ColorTier::Bright,
            })
            &&& fin[r - 1] == c.cells@[r - 1].demoted_spec()
            &&& (c.cells@[r - 1].tier is Bright ==> fin[r - 1].tier is Normal)
        }),
{
    let ns = c.nodes@;
    let rc = c.row_count;
    let adv = advanced(ns);
    let r = ns[j].row + 1;
    let painted = paint_all(c.cells@, adv, glyphs);
    let fin = step_cells(c.cells@, ns, glyphs, c.wait_time, c.is_drawing, bright, sg);
    lemma_painted_head_tail(c, glyphs, j);
    // a spawn this step paints only the top row; it can reach r - 1 only if
    // the head's writer was itself spawned last step, and then the countdown
    // has not run out yet
    if c.wait_time == 0 {
        if r == 1 {
            assert(ns[j].row == 0);
            if j < ns.len() - 1 {
                lemma_rows_decrease(ns, rc, c.is_drawing, c.wait_time, j, ns.len() - 1);
                assert(false);
            }
            assert(ns[ns.len() - 1].row >= 1);
            assert(false);
        }
        assert(fin == painted.update(0, spawn_kind(!c.is_drawing, bright).cell_spec(sg)));
        assert(fin[r] == painted[r]);
        assert(fin[r - 1] == painted[r - 1]);
    } else {
        assert(fin == painted);
    }
}

/// The paint phase of a step writes a bright writer's head cell at its new
/// row and lowers the cell one row above to the normal tier; no other node
/// touches either row.
#[verifier::rlimit(100)]
proof fn lemma_painted_head_tail(c: Column, glyphs: Seq<GlyphPick>, j: int)
    requires
        c.wf(),
        glyphs.len() == c.nodes@.len(),
        0 <= j < c.nodes@.len(),
        c.nodes@[j].kind.is_bright_writer(),
        c.nodes@[j].row + 1 < c.row_count,
    ensures
        ({
            let r = c.nodes@[j].row + 1;
            let painted = paint_all(c.cells@, advanced(c.nodes@), glyphs);
            &&& painted.len() == c.cells@.len()
            &&& painted[r] == c.nodes@[j].kind.cell_spec(glyphs[j])
            &&& painted[r - 1] == c.cells@[r - 1].demoted_spec()
        }),
{
    let ns = c.nodes@;
    let rc = c.row_count;
    let adv = advanced(ns);
    let r = ns[j].row + 1;
    assert(c.cells@.len() == rc);
    assert forall|i: int| 0 <= i < ns.len() implies (#[trigger] adv[i]) == (Node {
        kind: ns[i].kind,
        row: (ns[i].row + 1) as usize,
    }) by {}
    // older nodes paint at least two rows above the head
    assert forall|i: int| 0 <= i < j implies (#[trigger] adv[i].row) >= r + 2 by {
        lemma_rows_decrease(ns, rc, c.is_drawing, c.wait_time, i, j);
    }
    // newer nodes paint at least two rows below it
    assert forall|i: int| j < i < adv.len() implies (#[trigger] adv[i].row) + 2 <= r by {
        lemma_rows_decrease(ns, rc, c.is_drawing, c.wait_time, j, i);
    }
    lemma_paint_all_split(c.cells@, adv, glyphs, j);
    lemma_paint_all_snoc(c.cells@, adv, glyphs, j);
    let before = paint_all(c.cells@, adv.take(j), glyphs.take(j));
    // the rows at and above the head are untouched by the older nodes
    assert forall|i: int|
        0 <= i < adv.take(j).len() implies (#[trigger] adv.take(j)[i].row) != r - 1 && adv.take(
        j,
    )[i].row != r && adv.take(j)[i].row != r + 1 by {
        assert(adv.take(j)[i] == adv[i]);
        assert(adv[i].row >= r + 2);
    }
    lemma_paint_all_frame(c.cells@, adv.take(j), glyphs.take(j), r - 1);
    lemma_paint_all_frame(c.cells@, adv.take(j), glyphs.take(j), r);
    assert(before.len() == rc);
    assert(before[r - 1] == c.cells@[r - 1]);
    assert(before[r] == c.cells@[r]);
    // the head's own paint: its cell at r, the demotion at r - 1
    let mid = paint_one(before, adv[j], glyphs[j]);
    assert(adv[j].row == r);
    assert(mid == paint_all(c.cells@, adv.take(j + 1), glyphs.take(j + 1)));
    assert(mid[r] == ns[j].kind.cell_spec(glyphs[j]));
    assert(mid[r - 1] == c.cells@[r - 1].demoted_spec());
    // the newer nodes stay well below both rows
    lemma_paint_all_split(c.cells@, adv, glyphs, j + 1);
    assert(paint_all(c.cells@, adv, glyphs) == paint_all(mid, adv.skip(j + 1), glyphs.skip(j + 1)));
    assert forall|i: int|
        0 <= i < adv.skip(j + 1).len() implies (#[trigger] adv.skip(j + 1)[i].row) != r - 1
        && adv.skip(j + 1)[i].row != r && adv.skip(j + 1)[i].row != r + 1 by {
        assert(adv.skip(j + 1)[i] == adv[i + j + 1]);
        assert(adv[i + j + 1].row + 2 <= r);
    }
    lemma_paint_all_frame(mid, adv.skip(j + 1), glyphs.skip(j + 1), r - 1);
    lemma_paint_all_frame(mid, adv.skip(j + 1), glyphs.skip(j + 1), r);
    let painted = paint_all(c.cells@, adv, glyphs);
    assert(painted.len() == rc);
    assert(painted[r] == mid[r]);
    assert(painted[r - 1] == mid[r - 1]);
}

/// Rows strictly decrease along a well-shaped queue: between any two
/// positions they differ by at least two rows per step of separation.
proof fn lemma_rows_decrease(ns: Seq<Node>, rc: usize, drawing: bool, wait: usize, a: int, b: int)
    requires
        queue_ok(ns, rc, drawing, wait),
        0 <= a < b < ns.len(),
    ensures
        ns[a].row >= ns[b].row + 2 * (b - a),
    decreases b - a,
{
    if b == a + 1 {
        assert(ns[a].row >= ns[a + 1].row + 2);
    } else {
        lemma_rows_decrease(ns, rc, drawing, wait, a + 1, b);
        assert(ns[a].row >= ns[a + 1].row + 2);
    }
}

} // verus!
