use game_of_life::grid::{Coords, Grid};

#[test]
fn grid_maps_coords_to_vec_index_wrapping_beyond_bounds() {
    let grid = Grid::new(3, 3);

    let cases = [
        (Coords { x: 0, y: 0 }, 0),
        (Coords { x: 1, y: 0 }, 1),
        (Coords { x: 2, y: 0 }, 2),
        (Coords { x: 0, y: 1 }, 3),
        (Coords { x: 1, y: 1 }, 4),
        (Coords { x: 2, y: 1 }, 5),
        (Coords { x: 0, y: 2 }, 6),
        (Coords { x: 1, y: 2 }, 7),
        (Coords { x: 2, y: 2 }, 8),
    ];

    for (coords, expected_index) in cases {
        assert_eq!(grid.coords_to_index(&coords), expected_index);
    }
}

#[test]
fn grid_coords_mapping_wraps() {
    let grid = Grid::new(3, 3);
    let cases = [(Coords { x: 3, y: 3 }, 0), (Coords { x: -1, y: -1 }, 8)];

    for (coords, expected_index) in cases {
        assert_eq!(grid.coords_to_index(&coords), expected_index);
    }
}

#[test]
fn grid_maps_index_to_coords() {
    let grid = Grid::new(3, 3);
    let cases = [
        (0, Coords { x: 0, y: 0 }),
        (1, Coords { x: 1, y: 0 }),
        (2, Coords { x: 2, y: 0 }),
        (3, Coords { x: 0, y: 1 }),
        (4, Coords { x: 1, y: 1 }),
        (5, Coords { x: 2, y: 1 }),
        (6, Coords { x: 0, y: 2 }),
        (7, Coords { x: 1, y: 2 }),
        (8, Coords { x: 2, y: 2 }),
    ];

    for (index, expected_coords) in cases {
        assert_eq!(grid.index_to_coords(index), expected_coords);
    }
}

#[test]
fn grid_index_mapping_wraps() {
    let grid = Grid::new(3, 3);
    let cases = [
        (9, Coords { x: 0, y: 3 }, 0),
        (10, Coords { x: 1, y: 3 }, 1),
        (11, Coords { x: 2, y: 3 }, 2),
        (12, Coords { x: 0, y: 4 }, 3),
        (13, Coords { x: 1, y: 4 }, 4),
        (14, Coords { x: 2, y: 4 }, 5),
    ];

    for (index, expected_coords, wrapped_index) in cases {
        let coords = grid.index_to_coords(index);

        assert_eq!(coords, expected_coords);
        assert_eq!(grid.coords_to_index(&coords), wrapped_index);
    }
}

#[test]
fn grid_computes_neighbors_by_index() {
    let grid = Grid::new(4, 4);
    let cases = [
        (0, vec![15, 12, 13, 3, 1, 7, 4, 5]),
        (1, vec![12, 13, 14, 0, 2, 4, 5, 6]),
        (2, vec![13, 14, 15, 1, 3, 5, 6, 7]),
        (3, vec![14, 15, 12, 2, 0, 6, 7, 4]),
        (4, vec![3, 0, 1, 7, 5, 11, 8, 9]),
        (5, vec![0, 1, 2, 4, 6, 8, 9, 10]),
        (6, vec![1, 2, 3, 5, 7, 9, 10, 11]),
        (7, vec![2, 3, 0, 6, 4, 10, 11, 8]),
        (8, vec![7, 4, 5, 11, 9, 15, 12, 13]),
        (9, vec![4, 5, 6, 8, 10, 12, 13, 14]),
        (10, vec![5, 6, 7, 9, 11, 13, 14, 15]),
        (11, vec![6, 7, 4, 10, 8, 14, 15, 12]),
        (12, vec![11, 8, 9, 15, 13, 3, 0, 1]),
        (13, vec![8, 9, 10, 12, 14, 0, 1, 2]),
        (14, vec![9, 10, 11, 13, 15, 1, 2, 3]),
        (15, vec![10, 11, 8, 14, 12, 2, 3, 0]),
    ];

    for (index, expected_neighbors) in cases {
        assert_eq!(grid.calc_neighbors(index), expected_neighbors);
    }
}
