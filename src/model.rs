use vstd::arithmetic::div_mod::{lemma_fundamental_div_mod_converse, lemma_mod_pos_bound};
use vstd::prelude::*;

verus! {

/// The abstract state of a grid: its dimensions and its cells in row-major
/// order, cell `(x, y)` standing at index `y * width + x`.
pub struct Grid {
    pub width: nat,
    pub height: nat,
    pub cells: Seq<bool>,
}

/// The Game-of-Life rule: the next state of a cell that is `alive` now and
/// has `n` live neighbours.
pub open spec fn rule(alive: bool, n: int) -> bool {
    if alive {
        n == 2 || n == 3
    } else {
        n == 3
    }
}

impl Grid {
    /// The backing sequence holds exactly one cell per coordinate.
    pub open spec fn wf(self) -> bool {
        self.cells.len() == self.width * self.height
    }

    pub open spec fn in_bounds(self, x: int, y: int) -> bool {
        0 <= x < self.width && 0 <= y < self.height
    }

    pub open spec fn index(self, x: int, y: int) -> int {
        y * self.width + x
    }

    /// The state of cell `(x, y)`, absent outside the grid.
    pub open spec fn get(self, x: int, y: int) -> Option<bool> {
        if self.in_bounds(x, y) {
            Some(self.cells[self.index(x, y)])
        } else {
            None
        }
    }

    pub open spec fn alive(self, x: int, y: int) -> bool {
        self.get(x, y) == Some(true)
    }

    /// The grid with cell `(x, y)` overwritten by `v`; unchanged outside the grid.
    pub open spec fn set(self, x: int, y: int, v: bool) -> Grid {
        if self.in_bounds(x, y) {
            Grid { cells: self.cells.update(self.index(x, y), v), ..self }
        } else {
            self
        }
    }

    /// 1 when `(ox, oy)` is a live cell other than the centre `(x, y)`, else 0.
    pub open spec fn counted(self, x: int, y: int, ox: int, oy: int) -> int {
        if (ox != x || oy != y) && self.alive(ox, oy) {
            1
        } else {
            0
        }
    }

    /// Live cells other than `(x, y)` in row `oy` of the 3x3 window around `(x, y)`.
    pub open spec fn row_count(self, x: int, y: int, oy: int) -> int {
        self.counted(x, y, x - 1, oy) + self.counted(x, y, x, oy) + self.counted(x, y, x + 1, oy)
    }

    /// The number of live cells among the eight cells adjacent to `(x, y)`;
    /// positions outside the grid contribute nothing.
    pub open spec fn neighbor_count(self, x: int, y: int) -> int {
        self.row_count(x, y, y - 1) + self.row_count(x, y, y) + self.row_count(x, y, y + 1)
    }

    /// The state of cell `(x, y)` in the next generation.
    pub open spec fn next_cell(self, x: int, y: int) -> bool {
        rule(self.alive(x, y), self.neighbor_count(x, y))
    }

    /// The next generation, computed from this one alone.
    pub open spec fn next(self) -> Grid {
        Grid {
            width: self.width,
            height: self.height,
            cells: Seq::new(
                self.cells.len(),
                |i: int| self.next_cell(i % (self.width as int), i / (self.width as int)),
            ),
        }
    }

    /// What one application of the rule at `(x, y)` does to this grid, reading
    /// the previous generation from `prev`. A cell that is dead in `prev` and
    /// is not born is left as it stands.
    pub open spec fn enforce(self, prev: Grid, x: int, y: int) -> Grid {
        if prev.in_bounds(x, y) && self.in_bounds(x, y) {
            let a = prev.alive(x, y);
            let n = prev.neighbor_count(x, y);
            if a || n == 3 {
                self.set(x, y, rule(a, n))
            } else {
                self
            }
        } else {
            self
        }
    }
}

/// Two in-bounds coordinates share an index only when they are equal.
pub proof fn lemma_index_injective(g: Grid, x1: int, y1: int, x2: int, y2: int)
    requires
        g.in_bounds(x1, y1),
        g.in_bounds(x2, y2),
        g.index(x1, y1) == g.index(x2, y2),
    ensures
        x1 == x2,
        y1 == y2,
{
    let w = g.width as int;
    lemma_fundamental_div_mod_converse(g.index(x1, y1), w, y1, x1);
    lemma_fundamental_div_mod_converse(g.index(x2, y2), w, y2, x2);
}

/// Every in-bounds coordinate has an index inside the backing sequence.
pub proof fn lemma_index_in_range(g: Grid, x: int, y: int)
    requires
        g.wf(),
        g.in_bounds(x, y),
    ensures
        0 <= y * g.width <= g.index(x, y) < g.cells.len(),
{
    let w = g.width as int;
    let h = g.height as int;
    assert(0 <= y * w <= y * w + x < w * h) by (nonlinear_arith)
        requires
            0 <= x < w,
            0 <= y < h,
    ;
}

/// Writing one cell changes that cell alone, and keeps the grid well formed.
pub proof fn lemma_get_set(g: Grid, x: int, y: int, v: bool, ox: int, oy: int)
    requires
        g.wf(),
    ensures
        g.set(x, y, v).wf(),
        g.set(x, y, v).width == g.width,
        g.set(x, y, v).height == g.height,
        g.set(x, y, v).get(ox, oy) == (if ox == x && oy == y && g.in_bounds(x, y) {
            Some(v)
        } else {
            g.get(ox, oy)
        }),
{
    if g.in_bounds(x, y) {
        lemma_index_in_range(g, x, y);
    }
    if g.in_bounds(x, y) && g.in_bounds(ox, oy) {
        lemma_index_in_range(g, ox, oy);
        if g.index(x, y) == g.index(ox, oy) {
            lemma_index_injective(g, x, y, ox, oy);
        }
    }
}

/// Two well-formed grids of the same dimensions that agree on every cell are equal.
pub proof fn lemma_grid_ext(a: Grid, b: Grid)
    requires
        a.wf(),
        b.wf(),
        a.width == b.width,
        a.height == b.height,
        forall|x: int, y: int| a.in_bounds(x, y) ==> #[trigger] a.get(x, y) == b.get(x, y),
    ensures
        a == b,
{
    let w = a.width as int;
    assert forall|i: int| 0 <= i < a.cells.len() implies a.cells[i] == b.cells[i] by {
        let x = i % w;
        let y = i / w;
        assert(w > 0) by (nonlinear_arith)
            requires
                0 <= i < a.cells.len(),
                a.cells.len() == a.width * a.height,
                w == a.width,
        ;
        lemma_mod_pos_bound(i, w);
        vstd::arithmetic::div_mod::lemma_fundamental_div_mod(i, w);
        assert(i == y * w + x) by (nonlinear_arith)
            requires
                i == w * (i / w) + i % w,
                x == i % w,
                y == i / w,
        ;
        assert(0 <= y < a.height) by (nonlinear_arith)
            requires
                i == y * w + x,
                0 <= x < w,
                0 <= i < a.width * a.height,
                w == a.width,
        ;
        assert(a.get(x, y) == b.get(x, y));
    }
    assert(a.cells =~= b.cells);
}

/// The next generation is well formed, keeps the dimensions, and holds at
/// each cell the rule applied to that cell and its neighbours.
pub proof fn lemma_next_get(g: Grid, x: int, y: int)
    requires
        g.wf(),
    ensures
        g.next().wf(),
        g.next().width == g.width,
        g.next().height == g.height,
        g.in_bounds(x, y) ==> g.next().get(x, y) == Some(g.next_cell(x, y)),
{
    if g.in_bounds(x, y) {
        let w = g.width as int;
        lemma_index_in_range(g, x, y);
        lemma_fundamental_div_mod_converse(g.index(x, y), w, y, x);
    }
}

} // verus!
