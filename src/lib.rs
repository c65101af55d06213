//! Rules engine of a simplified game of checkers on an 8×8 board, with the
//! operations that a generic adversarial search needs.
pub mod ai;
pub mod game;
pub mod laws;
pub mod session;

pub use ai::{CheckerEval, CheckersRules, SearchOutcome, SEARCH_DEPTH};
pub use game::{Checkers, Move, Piece, Turn, Winner, BOARD_SIZE};
pub use session::GameEnded;
