use conway_gol_rs::Cell;
use conway_gol_rs::ConwayGameGrid;
use conway_gol_rs::UpdatedCell;

#[test]
fn zero_sized_grid_rejects_all_coordinates() {
    let mut g = ConwayGameGrid::new(0, 0);
    assert_eq!(g.dimensions(), (0, 0));
    assert_eq!(g.get(0, 0), None);
    assert!(!g.set(0, 0, true));
}

#[test]
fn zero_sized_grid_iterate_is_noop() {
    let mut g = ConwayGameGrid::new(0, 0);
    g.iterate();
    assert_eq!(g.dimensions(), (0, 0));
    assert_eq!(g.dump(), "\n");
}

#[test]
fn zero_width_grid_renders_empty_rows() {
    let g = ConwayGameGrid::new(0, 2);
    assert_eq!(g.get(0, 0), None);
    assert_eq!(g.dump(), "\n\n\n");
}

#[test]
fn duplicate_targets_last_write_wins() {
    let mut g = ConwayGameGrid::new(3, 3);
    let updates = vec![
        UpdatedCell::new(1, 1, true),
        UpdatedCell::new(0, 2, true),
        UpdatedCell::new(1, 1, false),
        UpdatedCell::new(1, 1, true),
    ];
    g.update_cells(updates);
    assert_eq!(g.get(1, 1), Some(true));
    assert_eq!(g.get(0, 2), Some(true));

    let mut h = ConwayGameGrid::new(3, 3);
    h.update_cells(vec![
        UpdatedCell::new(2, 0, true),
        UpdatedCell::new(2, 0, false),
    ]);
    assert_eq!(h.get(2, 0), Some(false));
}

#[test]
fn out_of_bounds_updates_are_skipped() {
    let mut g = ConwayGameGrid::new(2, 2);
    g.update_cells(vec![
        UpdatedCell::new(5, 5, true),
        UpdatedCell::new(0, 1, true),
        UpdatedCell::new(2, 0, true),
        UpdatedCell::new(0, 5, true),
    ]);
    assert_eq!(g.get(0, 1), Some(true));
    assert_eq!(g.get(0, 0), Some(false));
    assert_eq!(g.get(1, 0), Some(false));
    assert_eq!(g.get(1, 1), Some(false));
}

#[test]
fn dead_grid_dump_shows_dead_glyphs() {
    let g = ConwayGameGrid::new(2, 2);
    assert_eq!(g.dump(), "oooo\noooo\n\n");
}

#[test]
fn new_grid_starts_dead_everywhere() {
    let g = ConwayGameGrid::new(3, 2);
    for r in 0..2 {
        for c in 0..3 {
            assert_eq!(g.get(r, c), Some(false));
        }
    }
}

#[test]
fn blinker_returns_after_two_generations() {
    let mut g = ConwayGameGrid::new(5, 5);
    g.set(2, 1, true);
    g.set(2, 2, true);
    g.set(2, 3, true);
    let start = g.dump();
    g.iterate();
    assert_ne!(g.dump(), start);
    g.iterate();
    assert_eq!(g.dump(), start);
}

#[test]
fn three_by_three_blinker_fills_the_torus() {
    // On a 3x3 torus every cell neighbours every other cell, so a full
    // column of three live cells gives each dead cell exactly three
    // live neighbours and each live cell two: the next generation is
    // fully alive.
    let mut g = ConwayGameGrid::new(3, 3);
    g.set(0, 1, true);
    g.set(1, 1, true);
    g.set(2, 1, true);
    g.iterate();
    for r in 0..3 {
        for c in 0..3 {
            assert_eq!(g.get(r, c), Some(true), "cell ({},{})", r, c);
        }
    }
}

#[test]
fn lone_cell_dies() {
    let mut g = ConwayGameGrid::new(4, 4);
    g.set(1, 1, true);
    g.iterate();
    assert_eq!(g.get(1, 1), Some(false));
}

#[test]
fn cell_and_update_constructors_keep_their_fields() {
    let c = Cell::new(true);
    assert!(c.state);
    let d = Cell::new(false);
    assert!(!d.state);
    let u = UpdatedCell::new(3, 7, true);
    assert_eq!(u.row, 3);
    assert_eq!(u.col, 7);
    assert!(u.state);
}

#[test]
fn corner_wrap_counts_each_distinct_position_once() {
    // 2x3 grid (2 columns, 3 rows): for the corner (0,0) the wrapped
    // column candidates are {1, 0} and row candidates {2, 0, 1}; the
    // distinct neighbours are the five other cells.
    let mut g = ConwayGameGrid::new(2, 3);
    for r in 0..3 {
        for c in 0..2 {
            g.set(r, c, true);
        }
    }
    assert_eq!(g.alive_neighbours_at(0, 0), 5);
}
