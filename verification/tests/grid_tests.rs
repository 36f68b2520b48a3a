use conway_gol_rs::ConwayGameGrid;

#[test]
fn test_get_set_and_bounds() {
    let mut g = ConwayGameGrid::new(4, 3);

    // initial cells are dead
    assert_eq!(g.get(0, 0), Some(false));

    // out of bounds get returns None
    assert_eq!(g.get(10, 10), None);

    // out of bounds set returns false
    assert!(!g.set(10, 10, true));

    // valid set updates the cell
    assert!(g.set(2, 3, true));
    assert_eq!(g.get(2, 3), Some(true));

    // clearing works
    assert!(g.set(2, 3, false));
    assert_eq!(g.get(2, 3), Some(false));
}

#[test]
fn test_dimensions() {
    let g = ConwayGameGrid::new(7, 5);
    assert_eq!(g.width(), 7);
    assert_eq!(g.height(), 5);
}
