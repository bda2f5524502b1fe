use game_of_life::cell::Cell as BoardCell;
use game_of_life::coords::Coords;
use game_of_life::engine::{Cell, Config, State as EngineState};
use game_of_life::render::ascii;
use game_of_life::render::kitty;
use game_of_life::render::Frame;
use game_of_life::state::State;

#[test]
fn rgb_payload_of_single_alive_cell_is_white() {
    let mut frame = Frame::new(1, 1, 1);
    let board = vec![BoardCell::Alive];
    assert_eq!(frame.to_rgb(&board), "////");
    assert_eq!(frame.buffer, vec![255, 255, 255]);
}

#[test]
fn rgb_payload_of_dead_board_is_all_zero_bytes() {
    let mut frame = Frame::new(3, 2, 2);
    let board = vec![BoardCell::Dead; 6];
    let payload = frame.to_rgb(&board);
    assert!(frame.buffer.iter().all(|&b| b == 0));
    assert_eq!(frame.buffer.len(), 3 * 2 * 3 * 2 * 2);
    // base64 of zero bytes holds only the alphabet's first letter and padding
    assert!(payload.chars().all(|c| c == 'A' || c == '='));
}

#[test]
fn rgb_buffer_holds_no_stale_pixels_across_renders() {
    let mut frame = Frame::new(2, 1, 1);
    let lit = vec![BoardCell::Alive, BoardCell::Alive];
    frame.to_rgb(&lit);
    assert_eq!(frame.buffer, vec![255, 255, 255, 255, 255, 255]);

    let dark = vec![BoardCell::Dead, BoardCell::Dead];
    frame.to_rgb(&dark);
    assert_eq!(frame.buffer, vec![0, 0, 0, 0, 0, 0]);
}

#[test]
fn rgb_scales_each_cell_to_uniform_blocks() {
    let mut frame = Frame::new(2, 1, 2);
    let board = vec![BoardCell::Alive, BoardCell::Dead];
    frame.to_rgb(&board);
    // two pixel rows; in each, the left cell's two pixels are white and the
    // right cell's two pixels stay black
    let row: Vec<u8> = vec![255, 255, 255, 255, 255, 255, 0, 0, 0, 0, 0, 0];
    let mut expected = row.clone();
    expected.extend_from_slice(&row);
    assert_eq!(frame.buffer, expected);
}

#[test]
fn ascii_frame_draws_cells_and_linefeeds() {
    let mut state = State::new(3, 2);
    state.set_cell(Coords::new(0, 0), BoardCell::Alive);
    state.set_cell(Coords::new(2, 1), BoardCell::Alive);
    let frame = Frame::new(3, 2, 1);
    assert_eq!(frame.to_ascii(&state), "@..\n..@\n");
}

#[test]
fn ascii_renderer_fills_reused_buffer() {
    let config = Config::new(3, 2, 1);
    let mut state = EngineState::new(&config);
    state.set_cell(1, 0, Cell::Alive);
    let mut frame = ascii::Frame::new(3, 2);
    ascii::render_ascii(&mut frame, &state);
    assert_eq!(frame.buffer, b".@.\n...\n".to_vec());
    assert_eq!(frame.generation, 0);
}

#[test]
fn kitty_renderer_rasterizes_and_captures_generation() {
    let config = Config::new(2, 2, 1);
    let mut state = EngineState::new(&config);
    state.set_cell(0, 0, Cell::Alive);
    state.set_cell(1, 1, Cell::Alive);
    state.next();

    let mut frame = kitty::Frame::new(2, 2, 1);
    assert_eq!(frame.width, 2);
    assert_eq!(frame.height, 2);
    kitty::render_kitty(&mut frame, &state);
    assert_eq!(frame.generation, 1);
    assert_eq!(frame.buffer.len(), 2 * 2 * 3);
}

#[test]
fn kitty_renderer_paints_alive_blocks_white() {
    let config = Config::new(2, 1, 2);
    let mut state = EngineState::new(&config);
    state.set_cell(0, 0, Cell::Alive);

    let mut frame = kitty::Frame::new(2, 1, 2);
    kitty::render_kitty(&mut frame, &state);
    let row: Vec<u8> = vec![255, 255, 255, 255, 255, 255, 0, 0, 0, 0, 0, 0];
    let mut expected = row.clone();
    expected.extend_from_slice(&row);
    assert_eq!(frame.buffer, expected);
}
