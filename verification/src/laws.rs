use vstd::prelude::*;

use crate::cell::UpdatedCell;
use crate::model::GridView;
use crate::model::lemma_apply_updates_dims;
use crate::model::lemma_idx_bounds;
use crate::model::lemma_idx_injective;

verus! {

/// Out-of-bounds coordinates are harmless on every grid, the empty one
/// included: a read returns nothing and a write changes nothing.
pub proof fn lemma_out_of_bounds(v: GridView, row: int, col: int, state: bool)
    requires
        !v.in_bounds(row, col),
    ensures
        v.get(row, col) is None,
        v.write(row, col, state) == v,
{
}

/// Round trip: writing an in-bounds cell and then reading it yields the
/// written state; in particular, a cell set alive reads back alive.
pub proof fn lemma_write_then_get(v: GridView, row: int, col: int, state: bool)
    requires
        v.wf(),
        v.in_bounds(row, col),
    ensures
        v.write(row, col, state).get(row, col) == Some(state),
{
    lemma_idx_bounds(v, row, col);
}

/// Last write wins: after a batch is applied, an in-bounds cell holds
/// the state of the last entry in the sequence that targets it, and its
/// old state when no entry does.
pub proof fn lemma_last_write_wins(v: GridView, ups: Seq<UpdatedCell>, row: int, col: int)
    requires
        v.wf(),
        v.in_bounds(row, col),
    ensures
        v.apply_updates(ups).get(row, col) == match GridView::last_target(ups, row, col) {
            Some(state) => Some(state),
            None => v.get(row, col),
        },
    decreases ups.len(),
{
    if ups.len() > 0 {
        let rest = ups.drop_last();
        let u = ups.last();
        lemma_last_write_wins(v, rest, row, col);
        let applied = v.apply_updates(rest);
        lemma_apply_updates_dims(v, rest);
        lemma_idx_bounds(applied, row, col);
        if u.row as int == row && u.col as int == col {
            assert(v.apply_updates(ups).get(row, col) == Some(u.state));
        } else {
            if applied.in_bounds(u.row as int, u.col as int) {
                lemma_idx_bounds(applied, u.row as int, u.col as int);
                if applied.idx(u.row as int, u.col as int) == applied.idx(row, col) {
                    lemma_idx_injective(applied, u.row as int, u.col as int, row, col);
                }
            }
            assert(v.apply_updates(ups).get(row, col) == applied.get(row, col));
        }
    }
}

/// A set drawn from four pairwise-distinct pairs has as many elements
/// as the pairs it contains.
proof fn lemma_count_le_four(
    s: Set<(int, int)>,
    q1: (int, int),
    q2: (int, int),
    q3: (int, int),
    q4: (int, int),
)
    requires
        q1 != q2 && q1 != q3 && q1 != q4 && q2 != q3 && q2 != q4 && q3 != q4,
        forall|q: (int, int)| s.contains(q) ==> q == q1 || q == q2 || q == q3 || q == q4,
    ensures
        s.finite(),
        s.len() == (if s.contains(q1) {
            1int
        } else {
            0int
        }) + (if s.contains(q2) {
            1int
        } else {
            0int
        }) + (if s.contains(q3) {
            1int
        } else {
            0int
        }) + (if s.contains(q4) {
            1int
        } else {
            0int
        }),
{
    let t0 = Set::<(int, int)>::empty();
    let t1 = if s.contains(q1) {
        t0.insert(q1)
    } else {
        t0
    };
    let t2 = if s.contains(q2) {
        t1.insert(q2)
    } else {
        t1
    };
    let t3 = if s.contains(q3) {
        t2.insert(q3)
    } else {
        t2
    };
    let t4 = if s.contains(q4) {
        t3.insert(q4)
    } else {
        t3
    };
    assert(s =~= t4);
}

/// On a grid at least four rows tall, a cell whose wrapped row window
/// holds two adjacent rows must sit on one of them.
proof fn lemma_rows_pin(v: GridView, a: int, i: int)
    requires
        v.height >= 4,
        0 <= a,
        a + 1 < v.height,
        0 <= i < v.height,
        a == v.row_above(i) || a == i || a == v.row_below(i),
        a + 1 == v.row_above(i) || a + 1 == i || a + 1 == v.row_below(i),
    ensures
        i == a || i == a + 1,
{
}

/// On a grid at least four columns wide, a cell whose wrapped column
/// window holds two adjacent columns must sit on one of them.
proof fn lemma_cols_pin(v: GridView, b: int, j: int)
    requires
        v.width >= 4,
        0 <= b,
        b + 1 < v.width,
        0 <= j < v.width,
        b == v.col_left(j) || b == j || b == v.col_right(j),
        b + 1 == v.col_left(j) || b + 1 == j || b + 1 == v.col_right(j),
    ensures
        j == b || j == b + 1,
{
}

/// One cell of a grid holding exactly a two-by-two block keeps its
/// state over a generation: each block cell has three live neighbours
/// and survives, every other cell has at most two and stays dead.
proof fn lemma_block_cell_step(v: GridView, r: int, c: int, i: int, j: int)
    requires
        v.wf(),
        v.width >= 4,
        v.height >= 4,
        0 <= r,
        r + 1 < v.height,
        0 <= c,
        c + 1 < v.width,
        forall|a: int, b: int|
            v.in_bounds(a, b) ==> (v.alive(a, b) <==> ((a == r || a == r + 1) && (b == c || b == c
                + 1))),
        v.in_bounds(i, j),
    ensures
        v.next_alive(i, j) == v.alive(i, j),
{
    let q1 = (r, c);
    let q2 = (r, c + 1);
    let q3 = (r + 1, c);
    let q4 = (r + 1, c + 1);
    let ln = v.live_neighbours(i, j);
    assert(forall|q: (int, int)| ln.contains(q) ==> q == q1 || q == q2 || q == q3 || q == q4);
    lemma_count_le_four(ln, q1, q2, q3, q4);
    if v.alive(i, j) {
        assert(v.alive_neighbours(i, j) == 3);
    } else {
        if ln.len() >= 3 {
            lemma_rows_pin(v, r, i);
            lemma_cols_pin(v, c, j);
            assert(false);
        }
    }
}

/// A two-by-two block of live cells, on a grid at least four cells wide
/// and tall with every other cell dead, is stable: one generation
/// leaves the grid unchanged, so its rendering is unchanged too.
pub proof fn lemma_block_is_stable(v: GridView, r: int, c: int)
    requires
        v.wf(),
        v.width >= 4,
        v.height >= 4,
        0 <= r,
        r + 1 < v.height,
        0 <= c,
        c + 1 < v.width,
        forall|a: int, b: int|
            v.in_bounds(a, b) ==> (v.alive(a, b) <==> ((a == r || a == r + 1) && (b == c || b == c
                + 1))),
    ensures
        v.step() == v,
        v.step().render() == v.render(),
{
    let w = v.width as int;
    let h = v.height as int;
    assert forall|k: int| 0 <= k < v.cells.len() implies v.next_cells()[k] == v.cells[k] by {
        let row = k / w;
        let col = k % w;
        vstd::arithmetic::div_mod::lemma_mod_bound(k, w);
        vstd::arithmetic::div_mod::lemma_div_pos_is_pos(k, w);
        vstd::arithmetic::div_mod::lemma_multiply_divide_lt(k, w, h);
        lemma_block_cell_step(v, r, c, row, col);
        vstd::arithmetic::div_mod::lemma_fundamental_div_mod(k, w);
    }
    assert(v.step().cells =~= v.cells);
    assert(v.step() =~= v);
}

/// A set drawn from three pairwise-distinct pairs has as many elements
/// as the pairs it contains.
proof fn lemma_count_le_three(s: Set<(int, int)>, q1: (int, int), q2: (int, int), q3: (int, int))
    requires
        q1 != q2 && q1 != q3 && q2 != q3,
        forall|q: (int, int)| s.contains(q) ==> q == q1 || q == q2 || q == q3,
    ensures
        s.finite(),
        s.len() == (if s.contains(q1) {
            1int
        } else {
            0int
        }) + (if s.contains(q2) {
            1int
        } else {
            0int
        }) + (if s.contains(q3) {
            1int
        } else {
            0int
        }),
{
    let t0 = Set::<(int, int)>::empty();
    let t1 = if s.contains(q1) {
        t0.insert(q1)
    } else {
        t0
    };
    let t2 = if s.contains(q2) {
        t1.insert(q2)
    } else {
        t1
    };
    let t3 = if s.contains(q3) {
        t2.insert(q3)
    } else {
        t2
    };
    assert(s =~= t3);
}

/// One cell of a five-by-five grid holding exactly a horizontal blinker
/// takes, over a generation, the state of the vertical blinker: the
/// centre survives with two live neighbours, the cells above and below
/// it are born with three, and everything else, the old endpoints
/// included, is dead.
proof fn lemma_blinker_cell_step(v: GridView, row: int, col: int, i: int, j: int)
    requires
        v.wf(),
        v.width == 5,
        v.height == 5,
        1 <= row <= 3,
        1 <= col <= 3,
        forall|a: int, b: int|
            v.in_bounds(a, b) ==> (v.alive(a, b) <==> (a == row && (b == col - 1 || b == col || b
                == col + 1))),
        v.in_bounds(i, j),
    ensures
        v.next_alive(i, j) <==> (j == col && (i == row - 1 || i == row || i == row + 1)),
{
    let q1 = (row, col - 1);
    let q2 = (row, col);
    let q3 = (row, col + 1);
    let ln = v.live_neighbours(i, j);
    assert(forall|q: (int, int)| ln.contains(q) ==> q == q1 || q == q2 || q == q3);
    lemma_count_le_three(ln, q1, q2, q3);
    if j == col && (i == row - 1 || i == row + 1) {
        assert(ln.contains(q1) && ln.contains(q2) && ln.contains(q3));
    } else if j == col && i == row {
        assert(ln.contains(q1) && !ln.contains(q2) && ln.contains(q3));
    } else if i == row && (j == col - 1 || j == col + 1) {
        assert(v.alive_neighbours(i, j) == 1);
    } else {
        assert(!v.alive(i, j));
        assert(v.alive_neighbours(i, j) <= 2);
    }
}

/// A horizontal blinker in a five-by-five grid turns vertical: after
/// one generation the cells at the centre column in the rows above, at
/// and below the blinker's row are the only live ones, the old
/// horizontal endpoints now dead.
pub proof fn lemma_blinker_oscillates(v: GridView, row: int, col: int)
    requires
        v.wf(),
        v.width == 5,
        v.height == 5,
        1 <= row <= 3,
        1 <= col <= 3,
        forall|a: int, b: int|
            v.in_bounds(a, b) ==> (v.alive(a, b) <==> (a == row && (b == col - 1 || b == col || b
                == col + 1))),
    ensures
        forall|i: int, j: int|
            v.in_bounds(i, j) ==> (v.step().alive(i, j) <==> (j == col && (i == row - 1 || i == row
                || i == row + 1))),
{
    assert forall|i: int, j: int| v.in_bounds(i, j) implies (v.step().alive(i, j) <==> (j == col
        && (i == row - 1 || i == row || i == row + 1))) by {
        crate::model::lemma_step_alive(v, i, j);
        lemma_blinker_cell_step(v, row, col, i, j);
    }
}

} // verus!
