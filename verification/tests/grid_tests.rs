use hexadie::{Coord, HexGrid, MapError};

fn grid(width: u32, height: u32) -> HexGrid {
    HexGrid::new(width, height).expect("valid dimensions")
}

#[test]
fn new_builds_all_unowned_cells() {
    let g = grid(4, 4);
    assert_eq!(g.width, 4);
    assert_eq!(g.height, 4);
    assert_eq!(g.cells.len(), 16);
    for col in 0..4u32 {
        for row in 0..4u32 {
            assert_eq!(g.owner_of(col, row), Ok(None));
        }
    }
}

#[test]
fn new_rejects_zero_dimensions() {
    assert_eq!(HexGrid::new(0, 5).err(), Some(MapError::InvalidDimensions));
    assert_eq!(HexGrid::new(5, 0).err(), Some(MapError::InvalidDimensions));
    assert_eq!(HexGrid::new(0, 0).err(), Some(MapError::InvalidDimensions));
}

#[test]
fn neighbors_are_in_bounds_and_at_most_six() {
    let g = grid(5, 5);
    for col in 0..5u32 {
        for row in 0..5u32 {
            let ns = g.neighbors(col, row);
            assert!(ns.len() <= 6);
            for n in &ns {
                assert!(n.col < 5 && n.row < 5);
                assert!(!(n.col == col && n.row == row));
            }
            for i in 0..ns.len() {
                for j in 0..i {
                    assert_ne!(ns[i], ns[j]);
                }
            }
        }
    }
}

#[test]
fn neighbors_are_symmetric() {
    let g = grid(5, 5);
    for col in 0..5u32 {
        for row in 0..5u32 {
            for n in &g.neighbors(col, row) {
                let back = g.neighbors(n.col, n.row);
                assert!(
                    back.contains(&Coord { col, row }),
                    "asymmetric adjacency between ({col},{row}) and ({},{})",
                    n.col,
                    n.row
                );
            }
        }
    }
}

#[test]
fn neighbors_follow_the_offset_layout() {
    let g = grid(4, 4);
    // Even column: lateral neighbors sit on this row and the one above.
    let mut even = g.neighbors(2, 2);
    even.sort_by_key(|c| (c.row, c.col));
    let mut expected_even = vec![
        Coord { col: 2, row: 1 },
        Coord { col: 2, row: 3 },
        Coord { col: 1, row: 1 },
        Coord { col: 1, row: 2 },
        Coord { col: 3, row: 1 },
        Coord { col: 3, row: 2 },
    ];
    expected_even.sort_by_key(|c| (c.row, c.col));
    assert_eq!(even, expected_even);
    // Odd column: lateral neighbors sit on this row and the one below.
    let mut odd = g.neighbors(1, 1);
    odd.sort_by_key(|c| (c.row, c.col));
    let mut expected_odd = vec![
        Coord { col: 1, row: 0 },
        Coord { col: 1, row: 2 },
        Coord { col: 0, row: 1 },
        Coord { col: 0, row: 2 },
        Coord { col: 2, row: 1 },
        Coord { col: 2, row: 2 },
    ];
    expected_odd.sort_by_key(|c| (c.row, c.col));
    assert_eq!(odd, expected_odd);
    // A corner has only its in-bounds neighbors.
    let corner = g.neighbors(0, 0);
    assert_eq!(corner.len(), 2);
    assert!(corner.contains(&Coord { col: 0, row: 1 }));
    assert!(corner.contains(&Coord { col: 1, row: 0 }));
}

#[test]
fn set_owner_is_idempotent_but_refuses_a_different_owner() {
    let mut g = grid(3, 3);
    assert_eq!(g.set_owner(1, 1, 4), Ok(()));
    assert_eq!(g.owner_of(1, 1), Ok(Some(4)));
    assert_eq!(g.set_owner(1, 1, 4), Ok(()));
    assert_eq!(g.owner_of(1, 1), Ok(Some(4)));
    assert_eq!(g.set_owner(1, 1, 5), Err(MapError::AlreadyOwned));
    assert_eq!(g.owner_of(1, 1), Ok(Some(4)));
}

#[test]
fn out_of_bounds_coordinates_are_refused() {
    let mut g = grid(3, 3);
    assert_eq!(g.owner_of(3, 0), Err(MapError::OutOfBounds));
    assert_eq!(g.owner_of(0, 3), Err(MapError::OutOfBounds));
    assert_eq!(g.set_owner(7, 7, 0), Err(MapError::OutOfBounds));
}
