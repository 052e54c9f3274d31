//! Connect 4 engine: bitboard position, win detection, a static evaluator and
//! a depth-limited negamax search with alpha-beta pruning.
//!
//! The engine keeps no state between calls: `best_move` rebuilds the position
//! from the move history of the request and searches it.
pub mod board;
pub mod error;
pub mod eval;
pub mod geometry;
pub mod history;
pub mod lines;
pub mod minimax;
pub mod player;
pub mod search;
pub mod win;

pub use board::{GameState, MoveOutcome, TypedMove};
pub use error::GameError;
pub use history::parse_history;
pub use player::Player;
pub use search::{best_move, MoveRequest, MoveResponse};
