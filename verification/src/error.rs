//! The errors of the engine and their mathematical view.
use vstd::prelude::*;

verus! {

/// Everything that can go wrong between a move history and a chosen column.
#[derive(Debug)]
pub enum GameError {
    /// The history is malformed at the character index `position`.
    ParseMove { position: usize, reason: String },
    /// The column already holds six pieces.
    ColumnFull { column: usize },
    /// The column index is seven or more.
    ColumnOutOfBounds { column: usize },
    /// The board is full.
    NoMoves,
    /// The search depth is not within 1 to 15.
    DepthOutOfRange(u8),
}

/// A `GameError` over mathematical values: the reason of a parse error is
/// its sequence of characters.
pub enum GameErrorView {
    ParseMove { position: int, reason: Seq<char> },
    ColumnFull { column: int },
    ColumnOutOfBounds { column: int },
    NoMoves,
    DepthOutOfRange(int),
}

impl View for GameError {
    type V = GameErrorView;

    open spec fn view(&self) -> GameErrorView {
        match *self {
            GameError::ParseMove { position, reason } => GameErrorView::ParseMove {
                position: position as int,
                reason: reason@,
            },
            GameError::ColumnFull { column } => GameErrorView::ColumnFull { column: column as int },
            GameError::ColumnOutOfBounds { column } => GameErrorView::ColumnOutOfBounds {
                column: column as int,
            },
            GameError::NoMoves => GameErrorView::NoMoves,
            GameError::DepthOutOfRange(depth) => GameErrorView::DepthOutOfRange(depth as int),
        }
    }
}

/// A result with its error, if any, replaced by the error's view.
pub open spec fn view_err<T>(r: Result<T, GameError>) -> Result<T, GameErrorView> {
    match r {
        Ok(value) => Ok(value),
        Err(e) => Err(e@),
    }
}

} // verus!
