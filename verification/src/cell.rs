use vstd::prelude::*;

verus! {

/// A single cell of the grid; `state` is true when the cell is alive.
#[derive(Clone, Copy, Debug, Default, PartialEq, Eq)]
pub struct Cell {
    pub state: bool,
}

impl Cell {
    /// Create a new cell with the given state.
    pub fn new(state: bool) -> (r: Self)
        ensures
            r == (Cell { state }),
    {
        Cell { state }
    }
}

/// One pending write: the cell at `(row, col)` should take `state`.
///
/// Batches of these are consumed by `ConwayGameGrid::update_cells`.
#[derive(Clone, Copy, Debug, PartialEq, Eq)]
pub struct UpdatedCell {
    pub state: bool,
    pub row: usize,
    pub col: usize,
}

impl UpdatedCell {
    /// Create a new pending write for `(row, col)` with the given state.
    pub fn new(row: usize, col: usize, state: bool) -> (r: Self)
        ensures
            r == (UpdatedCell { state, row, col }),
    {
        UpdatedCell { state, row, col }
    }
}

} // verus!
