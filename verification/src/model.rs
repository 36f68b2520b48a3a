use vstd::prelude::*;

use crate::cell::UpdatedCell;

verus! {

/// Mathematical model of a grid: the dimensions and the row-major
/// sequence of cell states (`true` is alive).
#[verifier::ext_equal]
pub struct GridView {
    pub width: nat,
    pub height: nat,
    pub cells: Seq<bool>,
}

impl GridView {
    /// The storage holds exactly one cell per grid position.
    pub open spec fn wf(self) -> bool {
        self.cells.len() == self.width * self.height
    }

    /// `(row, col)` lies inside the grid.
    pub open spec fn in_bounds(self, row: int, col: int) -> bool {
        0 <= row < self.height && 0 <= col < self.width
    }

    /// Row-major index of `(row, col)`.
    pub open spec fn idx(self, row: int, col: int) -> int {
        row * self.width + col
    }

    /// State of the cell at `(row, col)`; meaningful only in bounds.
    pub open spec fn alive(self, row: int, col: int) -> bool {
        self.cells[self.idx(row, col)]
    }

    /// Point read: the cell's state in bounds, absent outside.
    pub open spec fn get(self, row: int, col: int) -> Option<bool> {
        if self.in_bounds(row, col) {
            Some(self.alive(row, col))
        } else {
            None
        }
    }

    /// Point write: updates the cell in bounds, leaves the grid
    /// unchanged outside.
    pub open spec fn write(self, row: int, col: int, state: bool) -> GridView {
        if self.in_bounds(row, col) {
            GridView { cells: self.cells.update(self.idx(row, col), state), ..self }
        } else {
            self
        }
    }

    /// Apply one pending write.
    pub open spec fn apply_update(self, u: UpdatedCell) -> GridView {
        self.write(u.row as int, u.col as int, u.state)
    }

    /// Apply a batch of writes in sequence order, so that of two writes
    /// to the same cell the later one wins.
    pub open spec fn apply_updates(self, ups: Seq<UpdatedCell>) -> GridView
        decreases ups.len(),
    {
        if ups.len() == 0 {
            self
        } else {
            self.apply_updates(ups.drop_last()).apply_update(ups.last())
        }
    }

    /// The state the last entry of `ups` targeting `(row, col)` carries,
    /// or `None` when no entry targets it.
    pub open spec fn last_target(ups: Seq<UpdatedCell>, row: int, col: int) -> Option<bool>
        decreases ups.len(),
    {
        if ups.len() == 0 {
            None
        } else if ups.last().row as int == row && ups.last().col as int == col {
            Some(ups.last().state)
        } else {
            Self::last_target(ups.drop_last(), row, col)
        }
    }

    /// The row above `row`, wrapping around the top edge.
    pub open spec fn row_above(self, row: int) -> int {
        if row == 0 {
            self.height - 1
        } else {
            row - 1
        }
    }

    /// The row below `row`, wrapping around the bottom edge.
    pub open spec fn row_below(self, row: int) -> int {
        if row == self.height - 1 {
            0
        } else {
            row + 1
        }
    }

    /// The column left of `col`, wrapping around the left edge.
    pub open spec fn col_left(self, col: int) -> int {
        if col == 0 {
            self.width - 1
        } else {
            col - 1
        }
    }

    /// The column right of `col`, wrapping around the right edge.
    pub open spec fn col_right(self, col: int) -> int {
        if col == self.width - 1 {
            0
        } else {
            col + 1
        }
    }

    /// `(r, c)` is a toroidal neighbour of `(row, col)`: its row is
    /// `row` or one of the rows adjacent by wrapping, its column is
    /// `col` or one of the columns adjacent by wrapping, and it is not
    /// the cell itself. On narrow grids the wrapped positions coincide,
    /// so a position is a neighbour once, however many offsets reach it.
    pub open spec fn is_neighbour(self, row: int, col: int, r: int, c: int) -> bool {
        &&& (r == self.row_above(row) || r == row || r == self.row_below(row))
        &&& (c == self.col_left(col) || c == col || c == self.col_right(col))
        &&& !(r == row && c == col)
    }

    /// The set of live neighbour positions of `(row, col)`.
    pub open spec fn live_neighbours(self, row: int, col: int) -> Set<(int, int)> {
        Set::new(
            |p: (int, int)|
                self.in_bounds(p.0, p.1) && self.is_neighbour(row, col, p.0, p.1) && self.alive(
                    p.0,
                    p.1,
                ),
        )
    }

    /// How many distinct live neighbours `(row, col)` has.
    pub open spec fn alive_neighbours(self, row: int, col: int) -> nat {
        self.live_neighbours(row, col).len()
    }

    /// The classic transition rule: a live cell survives with 2 or 3
    /// live neighbours; a dead cell becomes alive with exactly 3.
    pub open spec fn next_alive(self, row: int, col: int) -> bool {
        if self.alive(row, col) {
            self.alive_neighbours(row, col) == 2 || self.alive_neighbours(row, col) == 3
        } else {
            self.alive_neighbours(row, col) == 3
        }
    }

    /// The storage after one generation: every cell takes its next
    /// state, all computed from the current grid at once.
    pub open spec fn next_cells(self) -> Seq<bool> {
        Seq::new(
            self.cells.len(),
            |i: int| self.next_alive(i / self.width as int, i % self.width as int),
        )
    }

    /// The grid after one generation.
    pub open spec fn step(self) -> GridView {
        GridView { cells: self.next_cells(), ..self }
    }

    /// The text of one row's first `ncols` cells: two characters per
    /// cell, `[]` for alive and `oo` for dead.
    pub open spec fn render_row_prefix(self, row: int, ncols: int) -> Seq<char>
        decreases ncols,
    {
        if ncols <= 0 {
            Seq::empty()
        } else {
            self.render_row_prefix(row, ncols - 1) + glyph(self.alive(row, ncols - 1))
        }
    }

    /// The text of the first `nrows` rows, each followed by a line
    /// break.
    pub open spec fn render_rows_prefix(self, nrows: int) -> Seq<char>
        decreases nrows,
    {
        if nrows <= 0 {
            Seq::empty()
        } else {
            self.render_rows_prefix(nrows - 1) + self.render_row_prefix(nrows - 1, self.width as int)
                + seq!['\n']
        }
    }

    /// The grid's text rendering: every row's cells followed by a line
    /// break, and one more line break after the last row.
    pub open spec fn render(self) -> Seq<char> {
        self.render_rows_prefix(self.height as int) + seq!['\n']
    }

    /// The grid with the cells before index `k` advanced one generation
    /// and the rest still in their current state.
    pub(crate) open spec fn stepped_prefix(self, k: int) -> GridView {
        GridView {
            cells: Seq::new(
                self.cells.len(),
                |i: int|
                    if i < k {
                        self.next_cells()[i]
                    } else {
                        self.cells[i]
                    },
            ),
            ..self
        }
    }
}

/// After one generation, the cell at an in-bounds `(row, col)` holds
/// exactly the state the transition rule gives it.
pub proof fn lemma_step_alive(v: GridView, row: int, col: int)
    requires
        v.wf(),
        v.in_bounds(row, col),
    ensures
        v.step().alive(row, col) == v.next_alive(row, col),
        v.step().wf(),
        v.step().width == v.width,
        v.step().height == v.height,
{
    lemma_idx_bounds(v, row, col);
    vstd::arithmetic::div_mod::lemma_fundamental_div_mod_converse(
        v.idx(row, col),
        v.width as int,
        row,
        col,
    );
}

/// Before any cell is advanced, the prefix-stepped grid is the grid
/// itself.
pub(crate) proof fn lemma_stepped_prefix_zero(v: GridView)
    ensures
        v.stepped_prefix(0) == v,
{
    assert(v.stepped_prefix(0).cells =~= v.cells);
    assert(v.stepped_prefix(0) =~= v);
}

/// Once every cell is advanced, the prefix-stepped grid is the next
/// generation.
pub(crate) proof fn lemma_stepped_prefix_full(v: GridView)
    ensures
        v.stepped_prefix(v.cells.len() as int) == v.step(),
{
    assert(v.stepped_prefix(v.cells.len() as int).cells =~= v.step().cells);
    assert(v.stepped_prefix(v.cells.len() as int) =~= v.step());
}

/// Advancing the cell at `(row, col)` extends the advanced prefix by
/// one: writing the cell's next state when it changes, or leaving the
/// grid untouched when it does not.
pub(crate) proof fn lemma_stepped_prefix_extend(v: GridView, row: int, col: int, state: bool)
    requires
        v.wf(),
        v.in_bounds(row, col),
        state == v.next_alive(row, col),
    ensures
        state != v.cells[v.idx(row, col)] ==> v.stepped_prefix(v.idx(row, col)).write(
            row,
            col,
            state,
        ) == v.stepped_prefix(v.idx(row, col) + 1),
        state == v.cells[v.idx(row, col)] ==> v.stepped_prefix(v.idx(row, col))
            == v.stepped_prefix(v.idx(row, col) + 1),
{
    let k = v.idx(row, col);
    lemma_idx_bounds(v, row, col);
    vstd::arithmetic::div_mod::lemma_fundamental_div_mod_converse(k, v.width as int, row, col);
    assert(v.next_cells()[k] == state);
    if state != v.cells[k] {
        assert(v.stepped_prefix(k).write(row, col, state).cells =~= v.stepped_prefix(k + 1).cells);
        assert(v.stepped_prefix(k).write(row, col, state) =~= v.stepped_prefix(k + 1));
    } else {
        assert(v.stepped_prefix(k).cells =~= v.stepped_prefix(k + 1).cells);
        assert(v.stepped_prefix(k) =~= v.stepped_prefix(k + 1));
    }
}

/// A row-major index of an in-bounds position lies inside the storage.
pub proof fn lemma_idx_bounds(v: GridView, row: int, col: int)
    requires
        v.wf(),
        v.in_bounds(row, col),
    ensures
        0 <= v.idx(row, col) < v.cells.len(),
{
    assert(row * v.width + col < v.height * v.width) by (nonlinear_arith)
        requires
            0 <= row < v.height,
            0 <= col < v.width,
    ;
    assert(v.height * v.width == v.width * v.height) by (nonlinear_arith);
    assert(0 <= row * v.width) by (nonlinear_arith)
        requires
            0 <= row,
            0 <= v.width,
    ;
}

/// Row-major indexing is injective on in-bounds positions.
pub proof fn lemma_idx_injective(v: GridView, r1: int, c1: int, r2: int, c2: int)
    requires
        v.in_bounds(r1, c1),
        v.in_bounds(r2, c2),
        v.idx(r1, c1) == v.idx(r2, c2),
    ensures
        r1 == r2 && c1 == c2,
{
    assert(r1 == r2 && c1 == c2) by (nonlinear_arith)
        requires
            0 <= c1 < v.width,
            0 <= c2 < v.width,
            r1 * v.width + c1 == r2 * v.width + c2,
    ;
}

/// Appending one write to a batch applies it after the rest.
pub proof fn lemma_apply_updates_push(v: GridView, ups: Seq<UpdatedCell>, u: UpdatedCell)
    ensures
        v.apply_updates(ups.push(u)) == v.apply_updates(ups).apply_update(u),
{
    assert(ups.push(u).drop_last() =~= ups);
    assert(ups.push(u).last() == u);
}

/// One step of a batch: applying the first `i + 1` writes is applying
/// the first `i`, then the write at `i`.
pub proof fn lemma_apply_updates_take_step(v: GridView, ups: Seq<UpdatedCell>, i: int)
    requires
        0 <= i < ups.len(),
    ensures
        v.apply_updates(ups.take(i + 1)) == v.apply_updates(ups.take(i)).apply_update(ups[i]),
{
    assert(ups.take(i + 1).drop_last() =~= ups.take(i));
    assert(ups.take(i + 1).last() == ups[i]);
}

/// Applying a batch never changes the dimensions, and keeps the grid
/// well formed.
pub proof fn lemma_apply_updates_dims(v: GridView, ups: Seq<UpdatedCell>)
    requires
        v.wf(),
    ensures
        v.apply_updates(ups).width == v.width,
        v.apply_updates(ups).height == v.height,
        v.apply_updates(ups).wf(),
    decreases ups.len(),
{
    if ups.len() > 0 {
        lemma_apply_updates_dims(v, ups.drop_last());
        let w = v.apply_updates(ups.drop_last());
        let u = ups.last();
        if w.in_bounds(u.row as int, u.col as int) {
            lemma_idx_bounds(w, u.row as int, u.col as int);
        }
    }
}

/// The two-character glyph of one cell: `[]` when alive, `oo` when
/// dead.
pub open spec fn glyph(alive: bool) -> Seq<char> {
    if alive {
        seq!['[', ']']
    } else {
        seq!['o', 'o']
    }
}

/// The positions visited by a row-by-row walk over candidate rows `rs`
/// and candidate columns `cs`: every pair from the rows before `i`, and
/// the pairs of row `i` whose column comes before `j`.
pub(crate) open spec fn grid_pairs(rs: Seq<usize>, cs: Seq<usize>, i: int, j: int) -> Set<
    (int, int),
>
    decreases i, j,
{
    if j > 0 {
        grid_pairs(rs, cs, i, j - 1).insert((rs[i] as int, cs[j - 1] as int))
    } else if i > 0 {
        grid_pairs(rs, cs, i - 1, cs.len() as int)
    } else {
        Set::empty()
    }
}

/// A walk's position set is finite and no larger than the number of
/// steps taken.
pub(crate) proof fn lemma_grid_pairs_finite_len(rs: Seq<usize>, cs: Seq<usize>, i: int, j: int)
    requires
        0 <= i,
        0 <= j <= cs.len(),
    ensures
        grid_pairs(rs, cs, i, j).finite(),
        grid_pairs(rs, cs, i, j).len() <= i * cs.len() + j,
    decreases i, j,
{
    if j > 0 {
        lemma_grid_pairs_finite_len(rs, cs, i, j - 1);
    } else if i > 0 {
        lemma_grid_pairs_finite_len(rs, cs, i - 1, cs.len() as int);
        assert((i - 1) * cs.len() + cs.len() == i * cs.len()) by (nonlinear_arith);
    }
}

/// A position lies in the walk's set exactly when it is a candidate
/// pair taken at a step before `(i, j)`.
pub(crate) proof fn lemma_grid_pairs_contains(
    rs: Seq<usize>,
    cs: Seq<usize>,
    i: int,
    j: int,
    q: (int, int),
)
    requires
        0 <= i,
        0 <= j <= cs.len(),
    ensures
        grid_pairs(rs, cs, i, j).contains(q) <==> exists|k: int, l: int|
            0 <= k && 0 <= l < cs.len() && (k < i || (k == i && l < j)) && q == (
            #[trigger] rs[k] as int,
            #[trigger] cs[l] as int,
            ),
    decreases i, j,
{
    if j > 0 {
        lemma_grid_pairs_contains(rs, cs, i, j - 1, q);
        if grid_pairs(rs, cs, i, j).contains(q) {
            if q == (rs[i] as int, cs[j - 1] as int) {
                assert(0 <= i && 0 <= j - 1 < cs.len() && (i < i || (i == i && j - 1 < j)) && q
                    == (rs[i] as int, cs[j - 1] as int));
            }
        }
        if exists|k: int, l: int|
            0 <= k && 0 <= l < cs.len() && (k < i || (k == i && l < j)) && q == (
            #[trigger] rs[k] as int,
            #[trigger] cs[l] as int,
            ) {
            let (k, l) = choose|k: int, l: int|
                0 <= k && 0 <= l < cs.len() && (k < i || (k == i && l < j)) && q == (
                #[trigger] rs[k] as int,
                #[trigger] cs[l] as int,
                );
            if k == i && l == j - 1 {
                assert(grid_pairs(rs, cs, i, j).contains(q));
            } else {
                assert(0 <= k && 0 <= l < cs.len() && (k < i || (k == i && l < j - 1)) && q == (
                rs[k] as int,
                cs[l] as int,
                ));
            }
        }
    } else if i > 0 {
        lemma_grid_pairs_contains(rs, cs, i - 1, cs.len() as int, q);
        if grid_pairs(rs, cs, i, j).contains(q) {
            let (k, l) = choose|k: int, l: int|
                0 <= k && 0 <= l < cs.len() && (k < i - 1 || (k == i - 1 && l < cs.len())) && q
                    == (#[trigger] rs[k] as int, #[trigger] cs[l] as int);
            assert(0 <= k && 0 <= l < cs.len() && (k < i || (k == i && l < j)) && q == (
            rs[k] as int,
            cs[l] as int,
            ));
        }
        if exists|k: int, l: int|
            0 <= k && 0 <= l < cs.len() && (k < i || (k == i && l < j)) && q == (
            #[trigger] rs[k] as int,
            #[trigger] cs[l] as int,
            ) {
            let (k, l) = choose|k: int, l: int|
                0 <= k && 0 <= l < cs.len() && (k < i || (k == i && l < j)) && q == (
                #[trigger] rs[k] as int,
                #[trigger] cs[l] as int,
                );
            assert(k < i);
            assert(0 <= k && 0 <= l < cs.len() && (k < i - 1 || (k == i - 1 && l < cs.len()))
                && q == (rs[k] as int, cs[l] as int));
        }
    }
}

/// When the candidate rows and columns are duplicate-free, the walk
/// never revisits the pair it is about to take.
pub(crate) proof fn lemma_grid_pairs_fresh(rs: Seq<usize>, cs: Seq<usize>, i: int, j: int)
    requires
        rs.no_duplicates(),
        cs.no_duplicates(),
        0 <= i < rs.len(),
        0 <= j < cs.len(),
    ensures
        !grid_pairs(rs, cs, i, j).contains((rs[i] as int, cs[j] as int)),
{
    let p = (rs[i] as int, cs[j] as int);
    lemma_grid_pairs_contains(rs, cs, i, j, p);
    if grid_pairs(rs, cs, i, j).contains(p) {
        let (k, l) = choose|k: int, l: int|
            0 <= k && 0 <= l < cs.len() && (k < i || (k == i && l < j)) && p == (
            #[trigger] rs[k] as int,
            #[trigger] cs[l] as int,
            );
        assert(rs[k] == rs[i]);
        assert(k == i);
        assert(cs[l] == cs[j]);
        assert(l == j);
    }
}

/// One counting step: adding a fresh pair to the visited set raises the
/// count of live pairs by one exactly when the pair is live.
pub(crate) proof fn lemma_count_step(live: Set<(int, int)>, seen: Set<(int, int)>, p: (int, int))
    requires
        seen.finite(),
        !seen.contains(p),
    ensures
        live.contains(p) ==> live.intersect(seen.insert(p)).len() == live.intersect(seen).len()
            + 1,
        !live.contains(p) ==> live.intersect(seen.insert(p)) == live.intersect(seen),
{
    if live.contains(p) {
        assert(live.intersect(seen.insert(p)) =~= live.intersect(seen).insert(p));
    } else {
        assert(live.intersect(seen.insert(p)) =~= live.intersect(seen));
    }
}

/// A walk that visits the wrapped rows and columns around `(row, col)`
/// covers every neighbour position, so the live pairs it meets are all
/// the live neighbours; there are at most eight of them.
pub(crate) proof fn lemma_walk_covers(
    v: GridView,
    row: usize,
    col: usize,
    ra: usize,
    rb: usize,
    ca: usize,
    cb: usize,
    rs: Seq<usize>,
    cs: Seq<usize>,
)
    requires
        v.wf(),
        v.in_bounds(row as int, col as int),
        ra as int == v.row_above(row as int),
        rb as int == v.row_below(row as int),
        ca as int == v.col_left(col as int),
        cb as int == v.col_right(col as int),
        rs.contains(row) && rs.contains(ra) && rs.contains(rb),
        cs.contains(col) && cs.contains(ca) && cs.contains(cb),
        rs.len() <= 3,
        cs.len() <= 3,
    ensures
        v.live_neighbours(row as int, col as int).intersect(
            grid_pairs(rs, cs, rs.len() as int, 0),
        ) == v.live_neighbours(row as int, col as int),
        v.live_neighbours(row as int, col as int).len() <= 8,
{
    let live = v.live_neighbours(row as int, col as int);
    let rl = rs.len() as int;
    let cl = cs.len() as int;
    let all = grid_pairs(rs, cs, rl, 0);
    lemma_grid_pairs_finite_len(rs, cs, rl, 0);
    assert forall|q: (int, int)| live.contains(q) implies all.contains(q) by {
        let qr = q.0 as usize;
        let qc = q.1 as usize;
        assert(rs.contains(qr));
        assert(cs.contains(qc));
        let k = choose|k: int| 0 <= k < rs.len() && rs[k] == qr;
        let l = choose|l: int| 0 <= l < cs.len() && cs[l] == qc;
        lemma_grid_pairs_contains(rs, cs, rl, 0, q);
        assert(0 <= k && 0 <= l < cs.len() && (k < rl || (k == rl && l < 0)) && q == (
        rs[k] as int,
        cs[l] as int,
        ));
    }
    assert(live.intersect(all) =~= live);
    let center = (row as int, col as int);
    assert(all.contains(center)) by {
        let k = choose|k: int| 0 <= k < rs.len() && rs[k] == row;
        let l = choose|l: int| 0 <= l < cs.len() && cs[l] == col;
        lemma_grid_pairs_contains(rs, cs, rl, 0, center);
        assert(0 <= k && 0 <= l < cs.len() && (k < rl || (k == rl && l < 0)) && center == (
        rs[k] as int,
        cs[l] as int,
        ));
    }
    assert(live.subset_of(all.remove(center)));
    vstd::set_lib::lemma_len_subset(live, all.remove(center));
    assert(rl * cl <= 9) by (nonlinear_arith)
        requires
            0 <= rl <= 3,
            0 <= cl <= 3,
    ;
}

} // verus!
