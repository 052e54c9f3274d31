//! The search engine: negamax with alpha-beta pruning over the legal moves,
//! tried from the centre outwards, and the entry point that validates a
//! request, decodes and replays its history and searches.
use crate::board::{
    replay, replay_counts_moves, replay_full_column_fails, Board, GameState, TypedMove,
};
use crate::error::{GameError, GameErrorView};
use crate::eval::{evaluate, position_score, WIN_SCORE};
use crate::history::{decode, parse_history};
use crate::lines::WinMasks;
use crate::minimax::{
    bounds, is_best_move, lemma_chosen_is_best, lemma_search_bounds, minimax_value, window,
};
use crate::player::Player;
use crate::win::four_connected;
use vstd::prelude::*;

verus! {

/// The lower end of the search window at the root: half of `i32::MIN`.
pub const MIN_HALF: i32 = -1_073_741_824;

/// The upper end of the search window at the root: half of `i32::MAX`.
pub const MAX_HALF: i32 = 1_073_741_823;

/// The smallest search depth that a request may ask for.
pub const MIN_LEVEL: u8 = 1;

/// The largest search depth that a request may ask for.
pub const MAX_LEVEL: u8 = 15;

/// A request: the move history and the search depth in plies.
#[derive(Clone, Debug, PartialEq, Eq)]
pub struct MoveRequest {
    pub position: String,
    pub level: u8,
}

/// The answer to a request: the chosen column.
#[derive(Clone, Copy, Debug, PartialEq, Eq, Structural)]
pub struct MoveResponse {
    pub column: usize,
}

/// The larger of two integers.
pub open spec fn max_of(a: int, b: int) -> int {
    if a >= b {
        a
    } else {
        b
    }
}

/// The value of `board` for `player`, searched `depth` plies deep within the
/// window from `alpha` to `beta`: the static score at depth zero or on a full
/// board, else the result of trying the legal moves in order.
pub open spec fn search_value(board: Board, depth: nat, alpha: int, beta: int, player: Player)
    -> int
    decreases depth, 2nat, 0nat,
{
    if depth == 0 || board.is_full() {
        position_score(board, player)
    } else {
        scan_value(board, depth, board.legal_moves(), 0, MIN_HALF as int, alpha, beta, player)
    }
}

/// The result of trying the moves `columns[i..]` in order, with `best` the
/// largest score so far and `alpha` the lower end of the window so far. The
/// scan stops as soon as the lower end reaches `beta`.
pub open spec fn scan_value(
    board: Board,
    depth: nat,
    columns: Seq<usize>,
    i: int,
    best: int,
    alpha: int,
    beta: int,
    player: Player,
) -> int
    decreases depth, 1nat, columns.len() - i,
{
    if depth == 0 || i < 0 || i >= columns.len() {
        best
    } else {
        let score = move_score(board, depth, columns[i] as int, alpha, beta, player);
        let best = max_of(best, score);
        let alpha = max_of(alpha, score);
        if alpha >= beta {
            best
        } else {
            scan_value(board, depth, columns, i + 1, best, alpha, beta, player)
        }
    }
}

/// The score of dropping a piece into `column` with `depth` plies left: a
/// win counts `WIN_SCORE - 1` and one more for each ply left, so that a
/// faster win counts more; a move that fills the board without a win counts
/// zero; any other move counts what the position is worth to the opponent,
/// negated.
pub open spec fn move_score(
    board: Board,
    depth: nat,
    column: int,
    alpha: int,
    beta: int,
    player: Player,
) -> int
    decreases depth, 0nat, 0nat,
{
    let child = board.placed(board.to_move, column);
    if four_connected(child.bits(board.to_move)) {
        WIN_SCORE - 1 + depth
    } else if child.is_full() || depth == 0 {
        0
    } else {
        -search_value(child, (depth - 1) as nat, -beta, -alpha, player.other())
    }
}

/// The score of dropping a piece into `column` at the root: as
/// `move_score`, but a win counts `WIN_SCORE - 1` whatever the depth, and the
/// window of the reply is open above.
pub open spec fn root_score(board: Board, depth: nat, column: int, alpha: int) -> int {
    let child = board.placed(board.to_move, column);
    if four_connected(child.bits(board.to_move)) {
        WIN_SCORE - 1
    } else if child.is_full() {
        0
    } else {
        -search_value(
            child,
            if depth == 0 {
                0nat
            } else {
                (depth - 1) as nat
            },
            -MAX_HALF,
            -alpha,
            board.to_move.other(),
        )
    }
}

/// The column that the root keeps after trying `columns[i..]` in order: a
/// move replaces `best` only when its score is strictly greater than `alpha`,
/// the best score so far.
pub open spec fn root_scan(
    board: Board,
    depth: nat,
    columns: Seq<usize>,
    i: int,
    best: Option<usize>,
    alpha: int,
) -> Option<usize>
    decreases columns.len() - i,
{
    if i < 0 || i >= columns.len() {
        best
    } else {
        let score = root_score(board, depth, columns[i] as int, alpha);
        if score > alpha {
            root_scan(board, depth, columns, i + 1, Some(columns[i]), score)
        } else {
            root_scan(board, depth, columns, i + 1, best, alpha)
        }
    }
}

/// The column that the search chooses for the side to move, or `None` when
/// no column takes another piece.
pub open spec fn chosen_column(board: Board, depth: nat) -> Option<usize> {
    root_scan(board, depth, board.legal_moves(), 0, None, MIN_HALF as int)
}

/// The answer to a request: the depth is checked first, then the history is
/// decoded, then replayed, then searched.
pub open spec fn best_move_spec(history: Seq<char>, level: u8) -> Result<
    MoveResponse,
    GameErrorView,
> {
    if level < 1 || level > 15 {
        Err(GameErrorView::DepthOutOfRange(level as int))
    } else {
        match decode(history) {
            Err(e) => Err(e),
            Ok(moves) => match replay(moves) {
                Err(e) => Err(e),
                Ok(board) => match chosen_column(board, level as nat) {
                    None => Err(GameErrorView::NoMoves),
                    Some(column) => Ok(MoveResponse { column }),
                },
            },
        }
    }
}

/// The value of `state` for `player`, searched `depth` plies deep within
/// the window from `alpha` to `beta`. Strictly inside the window the result
/// is the plain negamax value; at or beyond an end of the window it bounds
/// that value from the side of the window.
pub fn negamax(
    state: &GameState,
    depth: usize,
    alpha: i32,
    beta: i32,
    player: Player,
    lines: &WinMasks,
) -> (best: i32)
    requires
        WIN_SCORE + depth <= i32::MAX,
        alpha > i32::MIN,
        beta > i32::MIN,
    ensures
        best == search_value(state@, depth as nat, alpha as int, beta as int, player),
        -(WIN_SCORE + depth) <= best <= WIN_SCORE + depth,
        window(alpha as int, beta as int) ==> bounds(
            best as int,
            minimax_value(state@, depth as nat, player),
            alpha as int,
            beta as int,
        ),
    decreases depth,
{
    proof {
        if window(alpha as int, beta as int) {
            lemma_search_bounds(state@, depth as nat, alpha as int, beta as int, player);
        }
    }
    if depth == 0 || state.is_full() {
        return evaluate(state, player, lines);
    }
    proof {
        use_type_invariant(state);
        state@.lemma_legal_moves();
    }
    let mut lower = alpha;
    let mut best = MIN_HALF;
    let columns = state.legal_moves();
    let mut i: usize = 0;
    while i < columns.len()
        invariant
            i <= columns@.len(),
            columns@.len() > 0,
            depth > 0,
            WIN_SCORE + depth <= i32::MAX,
            lower > i32::MIN,
            beta > i32::MIN,
            i == 0 ==> best == MIN_HALF,
            i > 0 ==> -(WIN_SCORE + depth) <= best <= WIN_SCORE + depth,
            window(alpha as int, beta as int) ==> bounds(
                search_value(state@, depth as nat, alpha as int, beta as int, player),
                minimax_value(state@, depth as nat, player),
                alpha as int,
                beta as int,
            ),
            state@.valid(),
            columns@ == state@.legal_moves(),
            forall|j: int| 0 <= j < columns@.len() ==> state@.is_legal(#[trigger] columns@[j] as int),
            search_value(state@, depth as nat, alpha as int, beta as int, player) == scan_value(
                state@,
                depth as nat,
                columns@,
                i as int,
                best as int,
                lower as int,
                beta as int,
                player,
            ),
        decreases columns@.len() - i,
    {
        let col = columns[i];
        let mut child = *state;
        let outcome = child.play(col).expect("legal move must succeed");
        let score = if outcome.won {
            WIN_SCORE - 1 + depth as i32
        } else if child.is_full() {
            0
        } else {
            -negamax(&child, depth - 1, -beta, -lower, player.opponent(), lines)
        };
        assert(score == move_score(
            state@,
            depth as nat,
            col as int,
            lower as int,
            beta as int,
            player,
        ));
        if score > best {
            best = score;
        }
        if score > lower {
            lower = score;
        }
        if lower >= beta {
            return best;
        }
        i += 1;
    }
    best
}

/// The column that the search judges best for the side to move.
pub fn choose_move(state: &GameState, depth: usize, lines: &WinMasks) -> (r: Result<
    usize,
    GameError,
>)
    requires
        WIN_SCORE + depth <= i32::MAX,
    ensures
        match chosen_column(state@, depth as nat) {
            Some(column) => r == Ok::<usize, GameError>(column),
            None => r is Err && r->Err_0@ == GameErrorView::NoMoves,
        },
        r is Ok ==> state@.is_legal(r->Ok_0 as int),
        state@.is_full() ==> r is Err,
        WIN_SCORE + depth <= MAX_HALF && !state@.is_full() ==> r is Ok,
        WIN_SCORE + depth <= MAX_HALF && r is Ok ==> is_best_move(state@, depth as nat, r->Ok_0),
{
    proof {
        use_type_invariant(state);
        state@.lemma_legal_moves();
        if WIN_SCORE + depth <= MAX_HALF {
            lemma_chosen_is_best(state@, depth as nat);
        }
    }
    let player = state.to_move();
    let mut best_col: Option<usize> = None;
    let mut alpha = MIN_HALF;
    let beta = MAX_HALF;
    let columns = state.legal_moves();
    let mut i: usize = 0;
    while i < columns.len()
        invariant
            i <= columns@.len(),
            WIN_SCORE + depth <= i32::MAX,
            alpha >= MIN_HALF,
            i == 0 ==> alpha == MIN_HALF,
            beta == MAX_HALF,
            player == state@.to_move,
            state@.valid(),
            columns@ == state@.legal_moves(),
            forall|j: int| 0 <= j < columns@.len() ==> state@.is_legal(#[trigger] columns@[j] as int),
            best_col matches Some(c) ==> state@.is_legal(c as int),
            i > 0 && WIN_SCORE + depth <= MAX_HALF ==> best_col is Some,
            chosen_column(state@, depth as nat) == root_scan(
                state@,
                depth as nat,
                columns@,
                i as int,
                best_col,
                alpha as int,
            ),
        decreases columns@.len() - i,
    {
        let col = columns[i];
        let mut child = *state;
        let outcome = child.play(col).expect("legal move must succeed");
        let val = if outcome.won {
            WIN_SCORE - 1
        } else if child.is_full() {
            0
        } else {
            -negamax(&child, depth.saturating_sub(1), -beta, -alpha, player.opponent(), lines)
        };
        assert(val == root_score(state@, depth as nat, col as int, alpha as int));
        if val > alpha {
            alpha = val;
            best_col = Some(col);
        }
        i += 1;
    }
    match best_col {
        Some(column) => Ok(column),
        None => Err(GameError::NoMoves),
    }
}

/// Answers a request with the column to play.
pub fn best_move(request: MoveRequest) -> (r: Result<MoveResponse, GameError>)
    ensures
        match best_move_spec(request.position@, request.level) {
            Ok(response) => r == Ok::<MoveResponse, GameError>(response),
            Err(e) => r is Err && r->Err_0@ == e,
        },
        r is Ok ==> r->Ok_0.column < 7,
        r is Ok ==> is_best_move(
            replay(decode(request.position@)->Ok_0)->Ok_0,
            request.level as nat,
            r->Ok_0.column,
        ),
        request.level < 1 || request.level > 15 ==> r is Err && r->Err_0@
            == GameErrorView::DepthOutOfRange(request.level as int),
{
    let lines = WinMasks::new();
    best_move_with(request, &lines)
}

/// Answers a request as `best_move` does, with a table of winning lines
/// that the caller has built before and may share between requests.
pub fn best_move_with(request: MoveRequest, lines: &WinMasks) -> (r: Result<
    MoveResponse,
    GameError,
>)
    ensures
        match best_move_spec(request.position@, request.level) {
            Ok(response) => r == Ok::<MoveResponse, GameError>(response),
            Err(e) => r is Err && r->Err_0@ == e,
        },
        r is Ok ==> r->Ok_0.column < 7,
        r is Ok ==> is_best_move(
            replay(decode(request.position@)->Ok_0)->Ok_0,
            request.level as nat,
            r->Ok_0.column,
        ),
        request.level < 1 || request.level > 15 ==> r is Err && r->Err_0@
            == GameErrorView::DepthOutOfRange(request.level as int),
{
    if request.level < MIN_LEVEL || request.level > MAX_LEVEL {
        return Err(GameError::DepthOutOfRange(request.level));
    }
    let moves = match parse_history(request.position.as_str()) {
        Ok(moves) => moves,
        Err(e) => {
            return Err(e);
        },
    };
    let state = match GameState::from_history(moves.as_slice()) {
        Ok(state) => state,
        Err(e) => {
            return Err(e);
        },
    };
    match choose_move(&state, request.level as usize, lines) {
        Ok(column) => Ok(MoveResponse { column }),
        Err(e) => Err(e),
    }
}

/// A depth outside 1 to 15 fails with the depth error, whatever the history
/// holds.
pub proof fn depth_out_of_range_fails(history: Seq<char>, level: u8)
    requires
        level < 1 || level > 15,
    ensures
        best_move_spec(history, level) == Err::<MoveResponse, GameErrorView>(
            GameErrorView::DepthOutOfRange(level as int),
        ),
{
}

/// A history that decodes, and in which move `k` targets a column that the
/// moves before it have filled, fails with the column-full error for that
/// column at every depth from 1 to 15, whatever moves follow.
pub proof fn full_column_fails_request(
    history: Seq<char>,
    level: u8,
    moves: Seq<TypedMove>,
    k: int,
)
    requires
        1 <= level <= 15,
        decode(history) == Ok::<Seq<TypedMove>, GameErrorView>(moves),
        0 <= k < moves.len(),
        replay(moves.take(k)) is Ok,
        moves[k].column < 7,
        replay(moves.take(k))->Ok_0.heights[moves[k].column as int] >= 6,
    ensures
        best_move_spec(history, level) == Err::<MoveResponse, GameErrorView>(
            GameErrorView::ColumnFull { column: moves[k].column as int },
        ),
{
    replay_full_column_fails(moves, k);
}

/// The answer depends on the history and the depth alone: two requests that
/// agree on both have the same answer.
pub proof fn best_move_is_deterministic(first: MoveRequest, second: MoveRequest)
    requires
        first.position@ == second.position@,
        first.level == second.level,
    ensures
        best_move_spec(first.position@, first.level) == best_move_spec(
            second.position@,
            second.level,
        ),
{
}

/// A request with a depth from 1 to 15 and a history that decodes and
/// replays is answered with a column, unless the board is full; the column is
/// the first legal move, from the centre outwards, with the largest negamax
/// score.
pub proof fn answer_is_best_move(history: Seq<char>, level: u8)
    requires
        1 <= level <= 15,
        decode(history) is Ok,
        replay(decode(history)->Ok_0) is Ok,
    ensures
        match best_move_spec(history, level) {
            Ok(response) => is_best_move(
                replay(decode(history)->Ok_0)->Ok_0,
                level as nat,
                response.column,
            ),
            Err(e) => e == GameErrorView::NoMoves && replay(decode(history)->Ok_0)->Ok_0.is_full(),
        },
{
    replay_counts_moves(decode(history)->Ok_0);
    lemma_chosen_is_best(replay(decode(history)->Ok_0)->Ok_0, level as nat);
}

} // verus!
