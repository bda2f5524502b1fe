//! Interactive-session logic that sits between the input layer and the
//! engine: multi-cell selections, the session's mode flags and pacing, and
//! the command mini-language.

pub mod command;
pub mod game_state;
pub mod selection;

pub use command::{Command, ParseError};
pub use game_state::GameState;
pub use selection::Selection;
