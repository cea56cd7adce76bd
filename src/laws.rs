use crate::model::{lemma_get_set, lemma_grid_ext, lemma_next_get, Grid};
use vstd::prelude::*;

verus! {

/// 1 for a live cell, 0 for a dead one.
pub open spec fn indicator(b: bool) -> int {
    if b {
        1
    } else {
        0
    }
}

/// A neighbour count lies between 0 and 8, and the cell itself never takes
/// part in it: overwriting `(x, y)` leaves its own count unchanged.
pub proof fn lemma_neighbor_count_bounds(g: Grid, x: int, y: int, v: bool)
    requires
        g.wf(),
    ensures
        0 <= g.neighbor_count(x, y) <= 8,
        g.set(x, y, v).neighbor_count(x, y) == g.neighbor_count(x, y),
{
    lemma_get_set(g, x, y, v, x - 1, y - 1);
    lemma_get_set(g, x, y, v, x, y - 1);
    lemma_get_set(g, x, y, v, x + 1, y - 1);
    lemma_get_set(g, x, y, v, x - 1, y);
    lemma_get_set(g, x, y, v, x + 1, y);
    lemma_get_set(g, x, y, v, x - 1, y + 1);
    lemma_get_set(g, x, y, v, x, y + 1);
    lemma_get_set(g, x, y, v, x + 1, y + 1);
}

/// At the two opposite corners only the three in-bounds neighbours count.
pub proof fn lemma_corner_counts(g: Grid)
    requires
        g.wf(),
        g.width >= 1,
        g.height >= 1,
    ensures
        g.neighbor_count(0, 0) == indicator(g.alive(1, 0)) + indicator(g.alive(0, 1))
            + indicator(g.alive(1, 1)),
        ({
            let (r, b) = (g.width - 1, g.height - 1);
            g.neighbor_count(r, b) == indicator(g.alive(r - 1, b)) + indicator(g.alive(r, b - 1))
                + indicator(g.alive(r - 1, b - 1))
        }),
{
}

/// The next generation depends on the state of the cells alone: two grids
/// that agree on every cell step to the same grid.
pub proof fn lemma_step_deterministic(a: Grid, b: Grid)
    requires
        a.wf(),
        b.wf(),
        a.width == b.width,
        a.height == b.height,
        forall|x: int, y: int| a.in_bounds(x, y) ==> #[trigger] a.get(x, y) == b.get(x, y),
    ensures
        a.next() == b.next(),
{
    lemma_grid_ext(a, b);
}

/// What one application of the rule does to each cell of a well-formed grid.
pub proof fn lemma_enforce_get(g: Grid, prev: Grid, x: int, y: int, ox: int, oy: int)
    requires
        g.wf(),
    ensures
        g.enforce(prev, x, y).wf(),
        g.enforce(prev, x, y).width == g.width,
        g.enforce(prev, x, y).height == g.height,
        g.enforce(prev, x, y).get(ox, oy) == (if ox == x && oy == y && prev.in_bounds(x, y)
            && g.in_bounds(x, y) && (prev.alive(x, y) || prev.neighbor_count(x, y) == 3) {
            Some(prev.next_cell(x, y))
        } else {
            g.get(ox, oy)
        }),
{
    lemma_get_set(g, x, y, prev.next_cell(x, y), ox, oy);
}

/// Applying the rule at two cells from the same previous generation gives
/// the same grid in either order.
pub proof fn lemma_enforce_order_independent(
    g: Grid,
    prev: Grid,
    x1: int,
    y1: int,
    x2: int,
    y2: int,
)
    requires
        g.wf(),
    ensures
        g.enforce(prev, x1, y1).enforce(prev, x2, y2) == g.enforce(prev, x2, y2).enforce(
            prev,
            x1,
            y1,
        ),
{
    let g1 = g.enforce(prev, x1, y1);
    let g2 = g.enforce(prev, x2, y2);
    lemma_enforce_get(g, prev, x1, y1, 0, 0);
    lemma_enforce_get(g, prev, x2, y2, 0, 0);
    lemma_enforce_get(g1, prev, x2, y2, 0, 0);
    lemma_enforce_get(g2, prev, x1, y1, 0, 0);
    assert forall|ox: int, oy: int| g.in_bounds(ox, oy) implies #[trigger] g1.enforce(
        prev,
        x2,
        y2,
    ).get(ox, oy) == g2.enforce(prev, x1, y1).get(ox, oy) by {
        lemma_enforce_get(g, prev, x1, y1, ox, oy);
        lemma_enforce_get(g, prev, x2, y2, ox, oy);
        lemma_enforce_get(g1, prev, x2, y2, ox, oy);
        lemma_enforce_get(g2, prev, x1, y1, ox, oy);
    }
    lemma_grid_ext(g1.enforce(prev, x2, y2), g2.enforce(prev, x1, y1));
}

/// A live cell with fewer than two live neighbours is dead in the next generation.
pub proof fn lemma_underpopulation(g: Grid, x: int, y: int)
    requires
        g.wf(),
        g.alive(x, y),
        g.neighbor_count(x, y) < 2,
    ensures
        g.next().get(x, y) == Some(false),
{
    lemma_next_get(g, x, y);
}

/// A dead cell with exactly three live neighbours is live in the next generation.
pub proof fn lemma_birth(g: Grid, x: int, y: int)
    requires
        g.wf(),
        g.in_bounds(x, y),
        !g.alive(x, y),
        g.neighbor_count(x, y) == 3,
    ensures
        g.next().get(x, y) == Some(true),
{
    lemma_next_get(g, x, y);
}

} // verus!
