//! A Connect Four engine: board model, win detection, a weighted
//! evaluation function and a depth-limited alpha-beta search with a
//! transposition cache.

pub mod board;
pub mod decide;
pub mod eval;
pub mod features;
pub mod laws;
pub mod params;
pub mod rules;
pub mod search;
pub mod warm;

pub use board::{Board, Cell, GameState, MoveError, Player, BOARD_SIZE, COLS, ROWS};
pub use decide::{HeuristicAI, MoveEvaluation, MoveType, BLOCK_SIGNAL, WIN_SIGNAL};
pub use params::GeneticParams;
pub use rules::check_win_on;
pub use search::{TranspositionEntry, AI, SCORE_MAX, SCORE_MIN};
