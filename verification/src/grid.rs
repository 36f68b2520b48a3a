use vstd::prelude::*;
use vstd::string::StringExecFns;

use crate::cell::Cell;
use crate::cell::UpdatedCell;
use crate::model::GridView;
use crate::model::glyph;
use crate::model::grid_pairs;
use crate::model::lemma_apply_updates_dims;
use crate::model::lemma_apply_updates_push;
use crate::model::lemma_apply_updates_take_step;
use crate::model::lemma_count_step;
use crate::model::lemma_grid_pairs_finite_len;
use crate::model::lemma_grid_pairs_fresh;
use crate::model::lemma_idx_bounds;
use crate::model::lemma_step_alive;
use crate::model::lemma_stepped_prefix_extend;
use crate::model::lemma_stepped_prefix_full;
use crate::model::lemma_stepped_prefix_zero;
use crate::model::lemma_walk_covers;

verus! {

/// A fixed-size grid of cells for Conway's Game of Life.
///
/// The grid owns a row-major vector of `width * height` cells; the
/// dimensions are fixed at construction. Its model is a [`GridView`],
/// reached through `@`.
pub struct ConwayGameGrid {
    grid: Vec<Cell>,
    /// number of columns
    grid_width: usize,
    /// number of rows
    grid_height: usize,
}

impl View for ConwayGameGrid {
    type V = GridView;

    closed spec fn view(&self) -> GridView {
        GridView {
            width: self.grid_width as nat,
            height: self.grid_height as nat,
            cells: self.grid@.map_values(|c: Cell| c.state),
        }
    }
}

/// Row-major vector index of `(row, col)` in a grid of the given width.
fn compute_index(row: usize, col: usize, width: usize) -> (idx: usize)
    requires
        row * width + col <= usize::MAX,
    ensures
        idx == row * width + col,
{
    (row * width) + col
}

/// The distinct values among a centre coordinate and its two wrapped
/// neighbours, centre first.
fn distinct_candidates(centre: usize, before: usize, after: usize) -> (v: Vec<usize>)
    ensures
        v@.no_duplicates(),
        1 <= v@.len() <= 3,
        v@.contains(centre),
        v@.contains(before),
        v@.contains(after),
        forall|k: int|
            0 <= k < v@.len() ==> (#[trigger] v@[k]) == centre || v@[k] == before || v@[k]
                == after,
{
    let mut v: Vec<usize> = Vec::new();
    v.push(centre);
    if before != centre {
        v.push(before);
    }
    if after != centre && after != before {
        v.push(after);
    }
    proof {
        assert(v@[0] == centre);
        assert(v@.contains(centre));
        assert(v@.contains(before)) by {
            if before != centre {
                assert(v@[1] == before);
            }
        }
        assert(v@.contains(after)) by {
            if after != centre && after != before {
                assert(v@.last() == after);
            }
        }
    }
    v
}

impl ConwayGameGrid {
    /// Create a new grid of `width` columns and `height` rows with every
    /// cell dead. The cell count `width * height` must fit the index type.
    pub fn new(width: usize, height: usize) -> (r: ConwayGameGrid)
        requires
            width * height <= usize::MAX,
        ensures
            r@.wf(),
            r@.width == width,
            r@.height == height,
            r@.cells == Seq::new((width * height) as nat, |i: int| false),
    {
        let total = width * height;
        let mut grid: Vec<Cell> = Vec::new();
        while grid.len() < total
            invariant
                grid@.len() <= total,
                forall|i: int| 0 <= i < grid@.len() ==> grid@[i] == (Cell { state: false }),
            decreases total - grid@.len(),
        {
            grid.push(Cell::new(false));
        }
        let r = ConwayGameGrid { grid, grid_width: width, grid_height: height };
        proof {
            assert(r@.cells =~= Seq::new((width * height) as nat, |i: int| false));
        }
        r
    }

    /// Get the state of the cell at `(row, col)`.
    ///
    /// Returns `Some(true)` if the cell is alive, `Some(false)` if dead,
    /// and `None` if the coordinates are out of bounds.
    pub fn get(&self, row: usize, col: usize) -> (r: Option<bool>)
        requires
            self@.wf(),
        ensures
            r == self@.get(row as int, col as int),
    {
        if row < self.grid_height && col < self.grid_width {
            let n = self.grid.len();
            proof {
                lemma_idx_bounds(self@, row as int, col as int);
                assert(self@.cells.len() == n);
            }
            let idx = compute_index(row, col, self.grid_width);
            Some(self.grid[idx].state)
        } else {
            None
        }
    }

    /// Set the state of the cell at `(row, col)`.
    ///
    /// Returns `true` and writes the cell if the coordinates are in
    /// bounds; returns `false` and changes nothing otherwise.
    pub fn set(&mut self, row: usize, col: usize, state: bool) -> (r: bool)
        requires
            old(self)@.wf(),
        ensures
            r == old(self)@.in_bounds(row as int, col as int),
            final(self)@ == old(self)@.write(row as int, col as int, state),
    {
        if row < self.grid_height && col < self.grid_width {
            let n = self.grid.len();
            proof {
                lemma_idx_bounds(self@, row as int, col as int);
                assert(self@.cells.len() == n);
            }
            let idx = compute_index(row, col, self.grid_width);
            self.grid[idx] = Cell::new(state);
            proof {
                assert(self@.cells =~= old(self)@.write(row as int, col as int, state).cells);
            }
            true
        } else {
            false
        }
    }

    /// Count the live cells among the distinct toroidal neighbours of
    /// `(row, col)`.
    ///
    /// The rows above and below and the columns left and right wrap
    /// around the edges; on grids narrower than three cells in a
    /// direction the wrapped positions coincide and each distinct
    /// position counts once. The cell itself is never counted.
    pub fn alive_neighbours_at(&self, row: usize, col: usize) -> (n: u8)
        requires
            self@.wf(),
            self@.in_bounds(row as int, col as int),
        ensures
            n as nat == self@.alive_neighbours(row as int, col as int),
            n <= 8,
    {
        let ghost v = self@;
        let h = self.grid_height;
        let w = self.grid_width;
        let row_above = if row == 0 { h - 1 } else { row - 1 };
        let row_below = if row == h - 1 { 0 } else { row + 1 };
        let col_left = if col == 0 { w - 1 } else { col - 1 };
        let col_right = if col == w - 1 { 0 } else { col + 1 };
        proof {
            assert(row_above as int == v.row_above(row as int));
            assert(row_below as int == v.row_below(row as int));
            assert(col_left as int == v.col_left(col as int));
            assert(col_right as int == v.col_right(col as int));
        }
        let cand_rows = distinct_candidates(row, row_above, row_below);
        let cand_cols = distinct_candidates(col, col_left, col_right);
        let n = self.count_live_pairs(row, col, &cand_rows, &cand_cols);
        proof {
            lemma_walk_covers(
                v,
                row,
                col,
                row_above,
                row_below,
                col_left,
                col_right,
                cand_rows@,
                cand_cols@,
            );
        }
        n
    }

    /// Walk the candidate row/column pairs once each and count the live
    /// cells among those that are neighbours of `(row, col)`.
    #[verifier::loop_isolation(false)]
    fn count_live_pairs(
        &self,
        row: usize,
        col: usize,
        cand_rows: &Vec<usize>,
        cand_cols: &Vec<usize>,
    ) -> (n: u8)
        requires
            self@.wf(),
            self@.in_bounds(row as int, col as int),
            cand_rows@.no_duplicates(),
            cand_cols@.no_duplicates(),
            cand_rows@.len() <= 3,
            cand_cols@.len() <= 3,
            forall|k: int|
                0 <= k < cand_rows@.len() ==> (#[trigger] cand_rows@[k]) as int == row as int
                    || cand_rows@[k] as int == self@.row_above(row as int) || cand_rows@[k] as int
                    == self@.row_below(row as int),
            forall|k: int|
                0 <= k < cand_cols@.len() ==> (#[trigger] cand_cols@[k]) as int == col as int
                    || cand_cols@[k] as int == self@.col_left(col as int) || cand_cols@[k] as int
                    == self@.col_right(col as int),
        ensures
            n as int == self@.live_neighbours(row as int, col as int).intersect(
                grid_pairs(cand_rows@, cand_cols@, cand_rows@.len() as int, 0),
            ).len(),
    {
        let ghost v = self@;
        let ghost live = v.live_neighbours(row as int, col as int);
        let w = self.grid_width;
        let glen = self.grid.len();
        proof {
            assert(v.cells.len() == glen);
            assert(live.intersect(grid_pairs(cand_rows@, cand_cols@, 0, 0)) =~= Set::empty());
        }
        let mut n: u8 = 0;
        let mut i: usize = 0;
        while i < cand_rows.len()
            invariant
                i <= cand_rows@.len(),
                n as int <= 3 * i,
                n as int == live.intersect(grid_pairs(cand_rows@, cand_cols@, i as int, 0)).len(),
            decreases cand_rows@.len() - i,
        {
            let mut j: usize = 0;
            while j < cand_cols.len()
                invariant
                    i < cand_rows@.len(),
                    j <= cand_cols@.len(),
                    n as int <= 3 * i + j,
                    n as int == live.intersect(
                        grid_pairs(cand_rows@, cand_cols@, i as int, j as int),
                    ).len(),
                decreases cand_cols@.len() - j,
            {
                let r = cand_rows[i];
                let c = cand_cols[j];
                let ghost p = (r as int, c as int);
                let ghost seen = grid_pairs(cand_rows@, cand_cols@, i as int, j as int);
                proof {
                    lemma_grid_pairs_finite_len(cand_rows@, cand_cols@, i as int, j as int);
                    lemma_grid_pairs_fresh(cand_rows@, cand_cols@, i as int, j as int);
                    assert(grid_pairs(cand_rows@, cand_cols@, i as int, j as int + 1)
                        == seen.insert(p));
                    lemma_count_step(live, seen, p);
                }
                if !(r == row && c == col) {
                    proof {
                        lemma_idx_bounds(v, r as int, c as int);
                    }
                    let idx = compute_index(r, c, w);
                    proof {
                        assert(v.alive(r as int, c as int) == self.grid@[idx as int].state);
                        assert(v.is_neighbour(row as int, col as int, r as int, c as int));
                        assert(live.contains(p) == self.grid@[idx as int].state);
                    }
                    if self.grid[idx].state {
                        n = n + 1;
                    }
                } else {
                    proof {
                        assert(!live.contains(p));
                    }
                }
                j = j + 1;
            }
            i = i + 1;
        }
        n
    }

    /// Advance the grid by exactly one generation.
    ///
    /// Every cell's next state is computed from the current grid alone,
    /// then the cells whose state changes are applied as one batch, so
    /// no cell's new state influences another's within the same
    /// generation. Cells that keep their state are not written at all.
    #[verifier::loop_isolation(false)]
    pub fn iterate(&mut self)
        requires
            old(self)@.wf(),
        ensures
            final(self)@ == old(self)@.step(),
            final(self)@.wf(),
            final(self)@.width == old(self)@.width,
            final(self)@.height == old(self)@.height,
            forall|r: int, c: int|
                old(self)@.in_bounds(r, c) ==> final(self)@.alive(r, c) == old(self)@.next_alive(
                    r,
                    c,
                ),
    {
        let ghost v0 = self@;
        let h = self.grid_height;
        let w = self.grid_width;
        let glen = self.grid.len();
        proof {
            assert(v0.cells.len() == glen);
            lemma_stepped_prefix_zero(v0);
        }
        let mut updates: Vec<UpdatedCell> = Vec::new();
        let mut row: usize = 0;
        while row < h
            invariant
                self@ == v0,
                row <= h,
                v0.apply_updates(updates@) == v0.stepped_prefix(row as int * w as int),
            decreases h - row,
        {
            let mut col: usize = 0;
            while col < w
                invariant
                    self@ == v0,
                    col <= w,
                    v0.apply_updates(updates@) == v0.stepped_prefix(
                        row as int * w as int + col as int,
                    ),
                decreases w - col,
            {
                let count = self.alive_neighbours_at(row, col);
                proof {
                    lemma_idx_bounds(v0, row as int, col as int);
                }
                let idx = compute_index(row, col, w);
                let cur = self.grid[idx].state;
                let next = if cur {
                    count == 2 || count == 3
                } else {
                    count == 3
                };
                proof {
                    assert(cur == v0.alive(row as int, col as int));
                    assert(next == v0.next_alive(row as int, col as int));
                    lemma_stepped_prefix_extend(v0, row as int, col as int, next);
                }
                if next != cur {
                    let ghost ups0 = updates@;
                    updates.push(UpdatedCell::new(row, col, next));
                    proof {
                        lemma_apply_updates_push(v0, ups0, UpdatedCell { state: next, row, col });
                    }
                }
                col = col + 1;
            }
            proof {
                assert(row as int * w as int + w as int == (row as int + 1) * w as int)
                    by (nonlinear_arith);
            }
            row = row + 1;
        }
        proof {
            assert((h as int) * (w as int) == v0.cells.len() as int) by (nonlinear_arith)
                requires
                    v0.cells.len() == v0.width * v0.height,
                    v0.width == w as nat,
                    v0.height == h as nat,
            ;
            lemma_stepped_prefix_full(v0);
        }
        self.update_cells(updates);
        proof {
            assert forall|r: int, c: int| v0.in_bounds(r, c) implies self@.alive(r, c)
                == v0.next_alive(r, c) by {
                lemma_step_alive(v0, r, c);
            }
        }
    }

    /// Apply a batch of pending writes in sequence order.
    ///
    /// When two entries target the same cell, the later one in the
    /// sequence wins. Entries whose coordinates are out of bounds are
    /// silently skipped.
    pub fn update_cells(&mut self, cells: Vec<UpdatedCell>)
        requires
            old(self)@.wf(),
        ensures
            final(self)@ == old(self)@.apply_updates(cells@),
    {
        let ghost v0 = self@;
        let mut i: usize = 0;
        while i < cells.len()
            invariant
                v0.wf(),
                i <= cells@.len(),
                self@ == v0.apply_updates(cells@.take(i as int)),
            decreases cells@.len() - i,
        {
            proof {
                lemma_apply_updates_dims(v0, cells@.take(i as int));
            }
            let u = cells[i];
            if u.row < self.grid_height && u.col < self.grid_width {
                let n = self.grid.len();
                proof {
                    lemma_idx_bounds(self@, u.row as int, u.col as int);
                    assert(self@.cells.len() == n);
                }
                let idx = compute_index(u.row, u.col, self.grid_width);
                let ghost before = self@;
                self.grid[idx] = Cell::new(u.state);
                proof {
                    assert(self@.cells =~= before.apply_update(u).cells);
                }
            }
            proof {
                lemma_apply_updates_take_step(v0, cells@, i as int);
            }
            i = i + 1;
        }
        proof {
            assert(cells@.take(cells@.len() as int) =~= cells@);
        }
    }

    /// Render the grid as text.
    ///
    /// Each row becomes one line of two characters per cell, `[]` for a
    /// live cell and `oo` for a dead one, each line ends with a line
    /// break, and one more line break follows the last row.
    #[verifier::loop_isolation(false)]
    pub fn dump(&self) -> (r: String)
        requires
            self@.wf(),
        ensures
            r@ == self@.render(),
    {
        let ghost v = self@;
        let h = self.grid_height;
        let w = self.grid_width;
        let glen = self.grid.len();
        proof {
            assert(v.cells.len() == glen);
            reveal_strlit("[]");
            reveal_strlit("oo");
            reveal_strlit("\n");
            assert("[]"@ =~= glyph(true));
            assert("oo"@ =~= glyph(false));
            assert("\n"@ =~= seq!['\n']);
        }
        let mut out = String::new();
        proof {
            assert(out@ =~= v.render_rows_prefix(0));
        }
        let mut row: usize = 0;
        while row < h
            invariant
                row <= h,
                out@ == v.render_rows_prefix(row as int),
            decreases h - row,
        {
            let mut col: usize = 0;
            while col < w
                invariant
                    col <= w,
                    out@ == v.render_rows_prefix(row as int) + v.render_row_prefix(
                        row as int,
                        col as int,
                    ),
                decreases w - col,
            {
                proof {
                    lemma_idx_bounds(v, row as int, col as int);
                }
                let idx = compute_index(row, col, w);
                let ghost before = out@;
                if self.grid[idx].state {
                    out.append("[]");
                } else {
                    out.append("oo");
                }
                proof {
                    assert(out@ == before + glyph(v.alive(row as int, col as int)));
                    assert(out@ =~= v.render_rows_prefix(row as int) + v.render_row_prefix(
                        row as int,
                        col as int + 1,
                    ));
                }
                col = col + 1;
            }
            let ghost before = out@;
            out.append("\n");
            proof {
                assert(out@ == before + seq!['\n']);
                assert(out@ =~= v.render_rows_prefix(row as int + 1));
            }
            row = row + 1;
        }
        let ghost before = out@;
        out.append("\n");
        proof {
            assert(out@ == before + seq!['\n']);
            assert(out@ =~= v.render());
        }
        out
    }

    /// The number of columns.
    pub fn width(&self) -> (r: usize)
        ensures
            r == self@.width,
    {
        self.grid_width
    }

    /// The number of rows.
    pub fn height(&self) -> (r: usize)
        ensures
            r == self@.height,
    {
        self.grid_height
    }

    /// The grid's shape as a `(width, height)` pair.
    pub fn dimensions(&self) -> (r: (usize, usize))
        ensures
            r.0 == self@.width,
            r.1 == self@.height,
    {
        (self.grid_width, self.grid_height)
    }
}

} // verus!
