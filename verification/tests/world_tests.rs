use game_of_life::grid::Coords;
use game_of_life::world::{Cell, World};

#[test]
fn world_init() {
    let cols = 4;
    let rows = 8;

    let world = World::new(cols, rows);

    assert_eq!(world.curr.len(), (cols * rows) as usize);
    assert!(world.curr.iter().all(|&cell| cell == 0));
    assert_eq!(world.curr, world.next);
    assert_eq!(world.neighbors.len(), (cols * rows) as usize);
}

#[test]
fn world_can_mutate_cell() {
    let mut world = World::new(4, 4);
    assert_eq!(world.curr[0], 0);

    world.set_cell(&Coords { x: 4, y: 4 }, Cell::Alive);
    assert_eq!(world.curr[0], 1);
}

#[test]
fn world_can_read_cell() {
    let mut world = World::new(4, 4);

    world.set_cell(&Coords { x: 4, y: 4 }, Cell::Alive);
    let value = world.get_cell(&Coords { x: 4, y: 4 });
    assert_eq!(value, Cell::Alive);
}

//   glider
//  -------
//  0 0 1 0
//  0 0 0 1
//  0 1 1 1
//  0 0 0 0
//
#[test]
fn world_counts_alive_neighbors() {
    let mut world = World::new(4, 4);

    world.set_cell(&Coords { x: 2, y: 0 }, Cell::Alive);
    world.set_cell(&Coords { x: 3, y: 1 }, Cell::Alive);
    world.set_cell(&Coords { x: 1, y: 2 }, Cell::Alive);
    world.set_cell(&Coords { x: 2, y: 2 }, Cell::Alive);
    world.set_cell(&Coords { x: 3, y: 2 }, Cell::Alive);

    let cases = [
        (0, 1),
        (1, 1),
        (2, 1),
        (3, 2),
        (4, 3),
        (5, 3),
        (6, 5),
        (7, 3),
        (8, 3),
        (9, 1),
        (10, 3),
        (11, 2),
        (12, 2),
        (13, 3),
        (14, 4),
        (15, 3),
    ];

    for (index, neighbor_count) in cases {
        assert_eq!(world.count_alive_neighs(index), neighbor_count);
    }
}

//        t0             t1            t2
//      -----          -----          -----
//    0 0 0 0 0      0 0 0 0 0      0 0 0 0 0
//    0 0 1 0 0      0 0 0 0 0      0 0 1 0 0
//    0 0 1 0 0  =>  0 1 1 1 0  =>  0 0 1 0 0
//    0 0 1 0 0      0 0 0 0 0      0 0 1 0 0
//    0 0 0 0 0      0 0 0 0 0      0 0 0 0 0
//
#[test]
fn it_works() {
    let mut world = World::new(5, 5);

    // blinker pattern, see ASCII diagram above
    world.set_cell(&Coords { x: 2, y: 1 }, Cell::Alive);
    world.set_cell(&Coords { x: 2, y: 2 }, Cell::Alive);
    world.set_cell(&Coords { x: 2, y: 3 }, Cell::Alive);

    // check (2,2) coords neighborhood because of how blinker pattern behaves

    assert_eq!(world.get_cell(&Coords { x: 1, y: 1 }), Cell::Dead);
    assert_eq!(world.get_cell(&Coords { x: 2, y: 1 }), Cell::Alive);
    assert_eq!(world.get_cell(&Coords { x: 3, y: 1 }), Cell::Dead);
    assert_eq!(world.get_cell(&Coords { x: 1, y: 2 }), Cell::Dead);
    assert_eq!(world.get_cell(&Coords { x: 2, y: 2 }), Cell::Alive);
    assert_eq!(world.get_cell(&Coords { x: 3, y: 2 }), Cell::Dead);
    assert_eq!(world.get_cell(&Coords { x: 1, y: 3 }), Cell::Dead);
    assert_eq!(world.get_cell(&Coords { x: 2, y: 3 }), Cell::Alive);
    assert_eq!(world.get_cell(&Coords { x: 3, y: 3 }), Cell::Dead);

    world.next();

    assert_eq!(world.get_cell(&Coords { x: 1, y: 1 }), Cell::Dead);
    assert_eq!(world.get_cell(&Coords { x: 2, y: 1 }), Cell::Dead);
    assert_eq!(world.get_cell(&Coords { x: 3, y: 1 }), Cell::Dead);
    assert_eq!(world.get_cell(&Coords { x: 1, y: 2 }), Cell::Alive);
    assert_eq!(world.get_cell(&Coords { x: 2, y: 2 }), Cell::Alive);
    assert_eq!(world.get_cell(&Coords { x: 3, y: 2 }), Cell::Alive);
    assert_eq!(world.get_cell(&Coords { x: 1, y: 3 }), Cell::Dead);
    assert_eq!(world.get_cell(&Coords { x: 2, y: 3 }), Cell::Dead);
    assert_eq!(world.get_cell(&Coords { x: 3, y: 3 }), Cell::Dead);

    world.next();

    assert_eq!(world.get_cell(&Coords { x: 1, y: 1 }), Cell::Dead);
    assert_eq!(world.get_cell(&Coords { x: 2, y: 1 }), Cell::Alive);
    assert_eq!(world.get_cell(&Coords { x: 3, y: 1 }), Cell::Dead);
    assert_eq!(world.get_cell(&Coords { x: 1, y: 2 }), Cell::Dead);
    assert_eq!(world.get_cell(&Coords { x: 2, y: 2 }), Cell::Alive);
    assert_eq!(world.get_cell(&Coords { x: 3, y: 2 }), Cell::Dead);
    assert_eq!(world.get_cell(&Coords { x: 1, y: 3 }), Cell::Dead);
    assert_eq!(world.get_cell(&Coords { x: 2, y: 3 }), Cell::Alive);
    assert_eq!(world.get_cell(&Coords { x: 3, y: 3 }), Cell::Dead);
}
