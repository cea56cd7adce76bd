use crate::model::{lemma_get_set, lemma_grid_ext, lemma_index_in_range, lemma_next_get, Grid};
use vstd::prelude::*;

verus! {

/// Live cells other than `(x, y)` at columns `x - 1 ..= x + 1` of row `oy`
/// that lie in `[lo, hi)`: what a scan of row `oy` has counted so far.
spec fn row_prefix(g: Grid, x: int, y: int, oy: int, lo: int, hi: int) -> int {
    (if lo <= x - 1 < hi { g.counted(x, y, x - 1, oy) } else { 0 })
        + (if lo <= x < hi { g.counted(x, y, x, oy) } else { 0 })
        + (if lo <= x + 1 < hi { g.counted(x, y, x + 1, oy) } else { 0 })
}

/// The window rows `y - 1 ..= y + 1` that lie in `[lo, hi)`, counted as in
/// `Grid::neighbor_count`.
spec fn rows_prefix(g: Grid, x: int, y: int, lo: int, hi: int) -> int {
    (if lo <= y - 1 < hi { g.row_count(x, y, y - 1) } else { 0 })
        + (if lo <= y < hi { g.row_count(x, y, y) } else { 0 })
        + (if lo <= y + 1 < hi { g.row_count(x, y, y + 1) } else { 0 })
}

/// A Game-of-Life grid of fixed dimensions, stored row-major in one buffer.
#[derive(Debug, Clone)]
pub struct Simulation {
    width: usize,
    height: usize,
    field: Vec<bool>,
}

impl View for Simulation {
    type V = Grid;

    closed spec fn view(&self) -> Grid {
        Grid { width: self.width as nat, height: self.height as nat, cells: self.field@ }
    }
}

impl Simulation {
    /// A grid of `width` by `height` cells, all dead.
    pub fn new(width: usize, height: usize) -> (r: Simulation)
        requires
            width * height <= usize::MAX,
        ensures
            r@.wf(),
            r@.width == width,
            r@.height == height,
            forall|i: int| 0 <= i < r@.cells.len() ==> !#[trigger] r@.cells[i],
    {
        let n: usize = width * height;
        let mut field: Vec<bool> = Vec::new();
        let mut i: usize = 0;
        while i < n
            invariant
                i <= n,
                field@.len() == i,
                forall|j: int| 0 <= j < i ==> !#[trigger] field@[j],
            decreases n - i,
        {
            field.push(false);
            i = i + 1;
        }
        Simulation { width, height, field }
    }

    /// The index of in-bounds cell `(x, y)` in the buffer.
    fn index_of(&self, x: usize, y: usize) -> (r: usize)
        requires
            self@.wf(),
            self@.in_bounds(x as int, y as int),
        ensures
            r as int == self@.index(x as int, y as int),
            r < self.field@.len(),
    {
        proof {
            lemma_index_in_range(self@, x as int, y as int);
            assert(self.field@.len() == self.field.len());
        }
        y * self.width + x
    }

    /// The state of cell `(x, y)`, or `None` outside the grid.
    pub fn get_field(&self, x: usize, y: usize) -> (r: Option<bool>)
        requires
            self@.wf(),
        ensures
            r == self@.get(x as int, y as int),
            r.is_none() <==> (x >= self@.width || y >= self@.height),
    {
        if x < self.width && y < self.height {
            let i = self.index_of(x, y);
            Some(self.field[i])
        } else {
            None
        }
    }

    /// A mutable handle on cell `(x, y)`, or `None` outside the grid.
    pub fn get_field_mut(&mut self, x: usize, y: usize) -> (r: Option<&mut bool>)
        requires
            old(self)@.wf(),
        ensures
            old(self)@.in_bounds(x as int, y as int) ==> {
                &&& r.is_some()
                &&& *r.unwrap() == old(self)@.cells[old(self)@.index(x as int, y as int)]
                &&& final(self)@ == old(self)@.set(x as int, y as int, *final(r.unwrap()))
            },
            !old(self)@.in_bounds(x as int, y as int) ==> r.is_none() && final(self)@ == old(self)@,
            final(self)@.wf(),
    {
        proof {
            let g = self@;
            assert forall|v: bool| #[trigger] g.set(x as int, y as int, v).wf() by {
                lemma_get_set(g, x as int, y as int, v, 0, 0);
            }
        }
        if x < self.width && y < self.height {
            let i = self.index_of(x, y);
            Some(&mut self.field[i])
        } else {
            None
        }
    }

    /// Makes cell `(x, y)` live; does nothing outside the grid.
    pub fn activate(&mut self, x: usize, y: usize)
        requires
            old(self)@.wf(),
        ensures
            final(self)@.wf(),
            final(self)@ == old(self)@.set(x as int, y as int, true),
    {
        let field = self.get_field_mut(x, y);
        if let Some(field) = field {
            *field = true;
        }
    }

    /// Makes cell `(x, y)` dead; does nothing outside the grid.
    pub fn deactivate(&mut self, x: usize, y: usize)
        requires
            old(self)@.wf(),
        ensures
            final(self)@.wf(),
            final(self)@ == old(self)@.set(x as int, y as int, false),
    {
        let field = self.get_field_mut(x, y);
        if let Some(field) = field {
            *field = false;
        }
    }

    /// Applies the rule to cell `(x, y)` of this grid, reading the cell and
    /// its neighbours from the previous generation `old_field`. A cell that is
    /// dead there and is not born is not written.
    pub fn enforce_rules(&mut self, x: usize, y: usize, old_field: &Simulation)
        requires
            old(self)@.wf(),
            old_field@.wf(),
        ensures
            final(self)@.wf(),
            final(self)@ == old(self)@.enforce(old_field@, x as int, y as int),
    {
        proof {
            let g = self@;
            if g.in_bounds(x as int, y as int) {
                let i = g.index(x as int, y as int);
                lemma_index_in_range(g, x as int, y as int);
                assert(g.cells.update(i, g.cells[i]) =~= g.cells);
            }
        }
        let ncount = old_field.get_neighbor_count(x, y);
        let field = match old_field.get_field(x, y) {
            Some(field) => field,
            _ => return,
        };
        let new_field = match self.get_field_mut(x, y) {
            Some(field) => field,
            _ => return,
        };

        if field && ncount < 2 {
            *new_field = false;
        } else if field && (ncount == 2 || ncount == 3) {
            *new_field = true;
        } else if field && ncount > 3 {
            *new_field = false;
        } else if !field && ncount == 3 {
            *new_field = true;
        }
    }

    /// The number of live cells among the up to eight cells adjacent to
    /// `(x, y)`. The scan is clamped to the grid, so no coordinate outside it
    /// is ever looked up.
    pub fn get_neighbor_count(&self, x: usize, y: usize) -> (r: u8)
        requires
            self@.wf(),
        ensures
            r as int == self@.neighbor_count(x as int, y as int),
            r <= 8,
    {
        if self.width == 0 || self.height == 0 {
            return 0;
        }
        let x_lo = x.saturating_sub(1);
        let y_lo = y.saturating_sub(1);
        let x_hi = if x < self.width - 1 { x + 1 } else { self.width - 1 };
        let y_hi = if y < self.height - 1 { y + 1 } else { self.height - 1 };
        let ghost g = self@;
        let mut count: u8 = 0;
        let mut oy: usize = y_lo;
        while oy <= y_hi
            invariant
                self@ == g,
                g.wf(),
                y_lo <= oy,
                oy == y_lo || oy <= y_hi + 1,
                x_lo as int == (if x >= 1 { x - 1 } else { 0 }),
                y_lo as int == (if y >= 1 { y - 1 } else { 0 }),
                x_hi as int == (if x + 1 < self.width { x + 1 } else { self.width - 1 }),
                y_hi as int == (if y + 1 < self.height { y + 1 } else { self.height - 1 }),
                count as int == rows_prefix(g, x as int, y as int, y_lo as int, oy as int),
            decreases y_hi + 1 - oy,
        {
            let mut ox: usize = x_lo;
            while ox <= x_hi
                invariant
                    self@ == g,
                    g.wf(),
                    y_lo <= oy <= y_hi,
                    x_lo <= ox,
                    ox == x_lo || ox <= x_hi + 1,
                    x_lo as int == (if x >= 1 { x - 1 } else { 0 }),
                    y_lo as int == (if y >= 1 { y - 1 } else { 0 }),
                    x_hi as int == (if x + 1 < self.width { x + 1 } else { self.width - 1 }),
                    y_hi as int == (if y + 1 < self.height { y + 1 } else { self.height - 1 }),
                    count as int == rows_prefix(g, x as int, y as int, y_lo as int, oy as int)
                        + row_prefix(g, x as int, y as int, oy as int, x_lo as int, ox as int),
                decreases x_hi + 1 - ox,
            {
                if !(ox == x && oy == y) {
                    if let Some(true) = self.get_field(ox, oy) {
                        count = count + 1;
                    }
                }
                ox = ox + 1;
            }
            oy = oy + 1;
        }
        count
    }

    /// A copy of this grid, read as the previous generation while the grid
    /// itself is rewritten.
    fn snapshot(&self) -> (r: Simulation)
        ensures
            r@ == self@,
    {
        let mut field: Vec<bool> = Vec::new();
        let mut i: usize = 0;
        while i < self.field.len()
            invariant
                i <= self.field@.len(),
                field@ == self.field@.subrange(0, i as int),
            decreases self.field@.len() - i,
        {
            field.push(self.field[i]);
            i = i + 1;
        }
        assert(field@ =~= self.field@);
        Simulation { width: self.width, height: self.height, field }
    }

    /// Advances the grid by one generation: every cell takes the rule applied
    /// to the state of the grid before the call.
    pub fn step(&mut self)
        requires
            old(self)@.wf(),
        ensures
            final(self)@.wf(),
            final(self)@ == old(self)@.next(),
    {
        let old_field = self.snapshot();
        let ghost g0 = self@;
        let mut y: usize = 0;
        while y < self.height
            invariant
                old_field@ == g0,
                g0.wf(),
                self@.wf(),
                self@.width == g0.width,
                self@.height == g0.height,
                y <= self.height,
                forall|xx: int, yy: int|
                    g0.in_bounds(xx, yy) ==> #[trigger] self@.get(xx, yy) == (if yy < y {
                        Some(g0.next_cell(xx, yy))
                    } else {
                        g0.get(xx, yy)
                    }),
            decreases self.height - y,
        {
            let mut x: usize = 0;
            while x < self.width
                invariant
                    old_field@ == g0,
                    g0.wf(),
                    self@.wf(),
                    self@.width == g0.width,
                    self@.height == g0.height,
                    y < self.height,
                    x <= self.width,
                    forall|xx: int, yy: int|
                        g0.in_bounds(xx, yy) ==> #[trigger] self@.get(xx, yy) == (if yy < y || (
                        yy == y && xx < x) {
                            Some(g0.next_cell(xx, yy))
                        } else {
                            g0.get(xx, yy)
                        }),
                decreases self.width - x,
            {
                let ghost prev = self@;
                self.enforce_rules(x, y, &old_field);
                proof {
                    let v = g0.next_cell(x as int, y as int);
                    assert forall|xx: int, yy: int| g0.in_bounds(xx, yy) implies #[trigger] self@.get(
                        xx,
                        yy,
                    ) == (if yy < y || (yy == y && xx < x + 1) {
                        Some(g0.next_cell(xx, yy))
                    } else {
                        g0.get(xx, yy)
                    }) by {
                        lemma_get_set(prev, x as int, y as int, v, xx, yy);
                        assert(prev.get(x as int, y as int) == g0.get(x as int, y as int));
                    }
                }
                x = x + 1;
            }
            y = y + 1;
        }
        proof {
            assert forall|xx: int, yy: int| self@.in_bounds(xx, yy) implies #[trigger] self@.get(
                xx,
                yy,
            ) == g0.next().get(xx, yy) by {
                lemma_next_get(g0, xx, yy);
                assert(self@.get(xx, yy) == Some(g0.next_cell(xx, yy)));
            }
            lemma_next_get(g0, 0, 0);
            lemma_grid_ext(self@, g0.next());
        }
    }

    /// `alive` where cell `(x, y)` is live, `dead` where it is dead or
    /// outside the grid.
    pub fn get_symbol(&self, x: usize, y: usize, alive: &'static str, dead: &'static str) -> (r:
        &'static str)
        requires
            self@.wf(),
        ensures
            r == (if self@.alive(x as int, y as int) {
                alive
            } else {
                dead
            }),
    {
        match self.get_field(x, y) {
            Some(true) => alive,
            Some(false) => dead,
            _ => dead,
        }
    }
}

} // verus!
