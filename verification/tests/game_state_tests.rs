use game_of_life::engine::coords::Coords;
use game_of_life::ui::game_state::GameState;

#[test]
fn game_state_defaults_to_paused_with_grid() {
    let state = GameState::default();
    assert!(!state.running);
    assert!(state.show_grid);
    assert!(!state.show_help);
    assert!(state.command.is_none());
    assert_eq!(state.sim_period_ms, 33);
    assert!(!state.has_sel());
}

#[test]
fn game_state_toggles_flags() {
    let mut state = GameState::default();
    state.toggle_running();
    assert!(state.running);
    state.pause();
    assert!(!state.running);
    state.toggle_grid();
    assert!(!state.show_grid);
    state.help();
    assert!(state.show_help);
}

#[test]
fn game_state_adjusts_simulation_pace() {
    let mut state = GameState::default();
    state.sim_period_ms = 100;
    state.sim_speed_incr();
    assert_eq!(state.sim_period_ms, 67);
    state.sim_speed_incr();
    assert_eq!(state.sim_period_ms, 34);
    state.sim_speed_incr();
    assert_eq!(state.sim_period_ms, 33);

    state.sim_period_ms = 400;
    state.sim_speed_decr();
    assert_eq!(state.sim_period_ms, 330);
}

#[test]
fn game_state_manages_the_selection() {
    let mut state = GameState::default();
    state.add_to_sel(Coords { x: 1, y: 1 });
    state.add_to_sel(Coords { x: 2, y: 1 });
    assert!(state.has_sel());
    assert_eq!(state.iter_sel().len(), 2);

    state.mv_sel_right(2);
    state.mv_sel_down(1);
    let moved = state.iter_sel().clone();
    assert!(moved.contains(&Coords { x: 3, y: 2 }));
    assert!(moved.contains(&Coords { x: 4, y: 2 }));

    state.mv_sel_left(2);
    state.mv_sel_up(1);
    state.recenter_sel(Coords { x: 10, y: 10 });
    let recentered = state.iter_sel().clone();
    assert!(recentered.contains(&Coords { x: 10, y: 10 }));

    state.rot_sel_clockwise();
    state.rot_sel_counter();
    assert_eq!(state.iter_sel().len(), 2);

    state.clear_sel();
    assert!(!state.has_sel());
}
