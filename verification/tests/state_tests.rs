use game_of_life::cell::Cell;
use game_of_life::coords::{coords_to_index, Coords};
use game_of_life::state::State;

#[test]
fn state_starts_dead_and_counts_iterations() {
    let mut state = State::new(4, 4);
    assert_eq!(state.iteration, 0);
    assert!(state.board.iter().all(|c| matches!(c, Cell::Dead)));
    state.next();
    state.next();
    assert_eq!(state.iteration, 2);
}

#[test]
fn state_blinker_oscillates() {
    let mut state = State::new(5, 5);
    state.set_cell(Coords::new(2, 1), Cell::Alive);
    state.set_cell(Coords::new(2, 2), Cell::Alive);
    state.set_cell(Coords::new(2, 3), Cell::Alive);
    let initial = state.to_ascii();

    state.next();
    let expected_horizontal = b"\
.....\
.....\
.@@@.\
.....\
....."
        .to_vec();
    assert_eq!(state.to_ascii(), expected_horizontal);

    state.next();
    assert_eq!(state.to_ascii(), initial);
}

#[test]
fn state_to_ascii_marks_alive_cells() {
    let mut state = State::new(2, 2);
    state.set_cell(Coords::new(1, 0), Cell::Alive);
    assert_eq!(state.to_ascii(), b".@..".to_vec());
}

#[test]
fn coords_to_index_wraps_both_axes() {
    // a 3x3 grid: (3,3) lands on the first cell, (-1,-1) on the last
    assert_eq!(coords_to_index(3, 3, 3, 3), 0);
    assert_eq!(coords_to_index(-1, -1, 3, 3), 8);
    assert_eq!(coords_to_index(0, 0, 3, 3), 0);
    assert_eq!(coords_to_index(-7, 11, 5, 4), 3 + 5 * 3);
}

#[test]
fn coords_round_trip_through_index() {
    for index in 0..20usize {
        let coords = Coords::from_index(index, 5);
        assert_eq!(coords.to_index(5, 4), index);
    }
}

#[test]
fn coords_neighbor_indices_walk_columns_of_the_block() {
    let coords = Coords::new(0, 0);
    let neighbors = coords.get_neighbors_indices(4, 4);
    assert_eq!(neighbors, vec![15, 3, 7, 12, 4, 13, 1, 5]);
}
