use conway_gol_rs::ConwayGameGrid;
use conway_gol_rs::UpdatedCell;

#[test]
fn test_update_cells_indexes() {
    let mut g = ConwayGameGrid::new(3, 3);

    // set (1,2) alive using update_cells
    g.update_cells(vec![UpdatedCell::new(1, 2, true)]);

    assert_eq!(
        g.get(1, 2),
        Some(true),
        "cell (1,2) should be alive after update_cells"
    );
}

#[test]
fn test_alive_neighbours_wraps_toroidally() {
    let mut g = ConwayGameGrid::new(3, 3);

    // make a single alive cell at (0,0)
    g.set(0, 0, true);

    // under toroidal wrapping, the cell at (2,2) should see (0,0) as a neighbour
    let n = g.alive_neighbours_at(2, 2);
    assert_eq!(n, 1, "expected 1 neighbour via wrapping, got {}", n);
}

#[test]
fn test_blinker_oscillator() {
    let mut g = ConwayGameGrid::new(5, 5);

    // horizontal blinker in row 2, cols 1..=3
    g.set(2, 1, true);
    g.set(2, 2, true);
    g.set(2, 3, true);

    g.iterate();

    // after one iteration it should be vertical in col=2 rows 1..=3
    assert_eq!(g.get(1, 2), Some(true), "(1,2) should be alive");
    assert_eq!(g.get(2, 2), Some(true), "(2,2) should be alive");
    assert_eq!(g.get(3, 2), Some(true), "(3,2) should be alive");

    // the original horizontal endpoints should be dead
    assert_eq!(g.get(2, 1), Some(false), "(2,1) should be dead");
    assert_eq!(g.get(2, 3), Some(false), "(2,3) should be dead");
}
