//! The rules of Minesweeper as a verified engine: the board, mine placement,
//! adjacency counts, the cascading reveal, flags, win detection and the game
//! session around them. Rendering and input live outside this crate.

pub mod board;
pub mod board_iter;
pub mod cascade;
pub mod counting;
pub mod fill;
pub mod laws;
pub mod marks;
pub mod model;
pub mod outcome;
pub mod placement;
pub mod position;
pub mod session;
pub mod tile;

pub use board::Board;
pub use board_iter::BoardIter;
pub use model::{BoardView, RevealOutcomeView};
pub use outcome::{CellState, FlagOutcome, GameError, RevealOutcome};
pub use position::Position;
pub use session::{Difficulty, Phase, Session, SessionView};
pub use tile::Tile;
