use game_of_life::engine::{Cell, Config, Coords, State};

fn alive_cells(state: &State) -> Vec<(i32, i32)> {
    let mut alive = Vec::new();
    let mut cells = state.iter();
    while let Some((coords, cell)) = cells.next() {
        if matches!(cell, Cell::Alive) {
            alive.push((coords.x, coords.y));
        }
    }
    alive
}

#[test]
fn engine_starts_dead_at_generation_zero() {
    let config = Config::new(4, 8, 1);
    let state = State::new(&config);
    assert_eq!(state.generation, 0);
    assert_eq!(state.curr.len(), 32);
    assert!(state.curr.iter().all(|c| matches!(c, Cell::Dead)));
}

#[test]
fn engine_step_increments_generation_by_one() {
    let config = Config::new(5, 5, 1);
    let mut state = State::new(&config);
    for expected in 1..=10u32 {
        state.next();
        assert_eq!(state.generation, expected);
    }
}

#[test]
fn engine_blinker_oscillates_with_period_two() {
    let config = Config::new(5, 5, 1);
    let mut state = State::new(&config);
    state.set_cell(2, 1, Cell::Alive);
    state.set_cell(2, 2, Cell::Alive);
    state.set_cell(2, 3, Cell::Alive);

    state.next();
    assert_eq!(alive_cells(&state), vec![(1, 2), (2, 2), (3, 2)]);

    state.next();
    assert_eq!(alive_cells(&state), vec![(2, 1), (2, 2), (2, 3)]);
}

#[test]
fn engine_set_cell_wraps_coordinates() {
    let config = Config::new(4, 4, 1);
    let mut state = State::new(&config);
    state.set_cell(-1, -1, Cell::Alive);
    assert!(matches!(state.curr[15], Cell::Alive));
    state.set_cell(4, 4, Cell::Alive);
    assert!(matches!(state.curr[0], Cell::Alive));
}

#[test]
fn engine_toggle_cell_flips_state() {
    let config = Config::new(3, 3, 1);
    let mut state = State::new(&config);
    state.toggle_cell(&Coords { x: 1, y: 1 });
    assert!(matches!(state.curr[4], Cell::Alive));
    state.toggle_cell(&Coords { x: 1, y: 1 });
    assert!(matches!(state.curr[4], Cell::Dead));
}

#[test]
fn engine_clear_kills_every_cell_but_keeps_generation() {
    let config = Config::new(3, 3, 1);
    let mut state = State::new(&config);
    state.set_cell(0, 0, Cell::Alive);
    state.next();
    let generation = state.generation;
    state.clear();
    assert_eq!(state.generation, generation);
    assert!(state.curr.iter().all(|c| matches!(c, Cell::Dead)));
}

#[test]
fn engine_wrap_coords_uses_euclidean_modulus() {
    let config = Config::new(3, 3, 1);
    let state = State::new(&config);
    let wrapped = state.wrap_coords(&Coords { x: -1, y: -1 });
    assert_eq!((wrapped.x, wrapped.y), (2, 2));
    let created = state.create_coords(3, 3);
    assert_eq!((created.x, created.y), (0, 0));
}

#[test]
fn engine_counts_alive_neighbors_on_glider() {
    let mut state = State::new(&Config::new(4, 4, 1));
    state.set_cell(2, 0, Cell::Alive);
    state.set_cell(3, 1, Cell::Alive);
    state.set_cell(1, 2, Cell::Alive);
    state.set_cell(2, 2, Cell::Alive);
    state.set_cell(3, 2, Cell::Alive);

    let expected = [1, 1, 1, 2, 3, 3, 5, 3, 3, 1, 3, 2, 2, 3, 4, 3];
    for (index, count) in expected.iter().enumerate() {
        assert_eq!(state.count_alive_neighbors(index), *count);
    }
}

#[test]
fn engine_cell_follows_birth_and_survival_rules() {
    assert!(matches!(Cell::Alive.next(2), Cell::Alive));
    assert!(matches!(Cell::Alive.next(3), Cell::Alive));
    assert!(matches!(Cell::Alive.next(1), Cell::Dead));
    assert!(matches!(Cell::Alive.next(4), Cell::Dead));
    assert!(matches!(Cell::Dead.next(3), Cell::Alive));
    assert!(matches!(Cell::Dead.next(2), Cell::Dead));
    assert_eq!(Cell::Alive.as_value(), 1);
    assert_eq!(Cell::Dead.as_value(), 0);

    let mut cell = Cell::Dead;
    cell.toggle();
    assert!(matches!(cell, Cell::Alive));
}

#[test]
fn engine_config_reports_scaled_dimensions() {
    let config = Config::new(80, 25, 10);
    assert_eq!(config.width(), 800);
    assert_eq!(config.height(), 250);
    assert_eq!(config.scale(), 10);
}

#[test]
fn engine_coords_rescale_divides_toward_zero() {
    let coords = Coords { x: 25, y: -25 };
    let scaled = coords.rescale(10);
    assert_eq!((scaled.x, scaled.y), (2, -2));

    let mut coords = Coords { x: 19, y: 7 };
    coords.rescale_mut(10);
    assert_eq!((coords.x, coords.y), (1, 0));
}
