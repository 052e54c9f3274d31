//! What the search computes, stated without the window: the plain negamax
//! value of a position, and the proof that pruning does not change the
//! column that the root keeps.
use crate::board::Board;
use crate::eval::{lemma_position_score_bound, position_score, WIN_SCORE};
use crate::player::Player;
use crate::search::{
    chosen_column, max_of, move_score, root_scan, root_score, scan_value, search_value, MAX_HALF,
    MIN_HALF,
};
use crate::win::four_connected;
use vstd::prelude::*;

verus! {

/// The negamax value of `board` for `player`, `depth` plies deep: the static
/// score at depth zero or on a full board, else the largest score of a legal
/// move.
pub open spec fn minimax_value(board: Board, depth: nat, player: Player) -> int
    decreases depth, 2nat, 0nat,
{
    if depth == 0 || board.is_full() {
        position_score(board, player)
    } else {
        minimax_scan(board, depth, board.legal_moves(), 0, MIN_HALF as int, player)
    }
}

/// The largest of `best` and the scores of the moves `columns[i..]`.
pub open spec fn minimax_scan(
    board: Board,
    depth: nat,
    columns: Seq<usize>,
    i: int,
    best: int,
    player: Player,
) -> int
    decreases depth, 1nat, columns.len() - i,
{
    if depth == 0 || i < 0 || i >= columns.len() {
        best
    } else {
        minimax_scan(
            board,
            depth,
            columns,
            i + 1,
            max_of(best, minimax_move(board, depth, columns[i] as int, player)),
            player,
        )
    }
}

/// The score of dropping a piece into `column` with `depth` plies left:
/// `WIN_SCORE - 1 + depth` for a win, zero for a move that fills the board,
/// else the negated value of the position for the opponent.
pub open spec fn minimax_move(board: Board, depth: nat, column: int, player: Player) -> int
    decreases depth, 0nat, 0nat,
{
    let child = board.placed(board.to_move, column);
    if four_connected(child.bits(board.to_move)) {
        WIN_SCORE - 1 + depth
    } else if child.is_full() || depth == 0 {
        0
    } else {
        -minimax_value(child, (depth - 1) as nat, player.other())
    }
}

/// The score of dropping a piece into `column` at the root: `WIN_SCORE - 1`
/// for a win, zero for a move that fills the board, else the negated value
/// of the position for the opponent, one ply less deep.
pub open spec fn minimax_root(board: Board, depth: nat, column: int) -> int {
    let child = board.placed(board.to_move, column);
    if four_connected(child.bits(board.to_move)) {
        WIN_SCORE - 1
    } else if child.is_full() {
        0
    } else {
        -minimax_value(
            child,
            if depth == 0 {
                0nat
            } else {
                (depth - 1) as nat
            },
            board.to_move.other(),
        )
    }
}

/// Whether `column` is the first legal move, from the centre outwards, whose
/// score at the root is the largest: no legal move scores more, and every
/// legal move that is tried before it scores less.
pub open spec fn is_best_move(board: Board, depth: nat, column: usize) -> bool {
    let legal = board.legal_moves();
    exists|j: int|
        {
            &&& 0 <= j < legal.len()
            &&& #[trigger] legal[j] == column
            &&& forall|k: int|
                0 <= k < legal.len() ==> minimax_root(board, depth, #[trigger] legal[k] as int)
                    <= minimax_root(board, depth, column as int)
            &&& forall|k: int|
                0 <= k < j ==> minimax_root(board, depth, #[trigger] legal[k] as int)
                    < minimax_root(board, depth, column as int)
        }
}

/// How a value `found` within the window from `alpha` to `beta` relates to
/// the plain value `exact`: at or below `alpha` it is an upper bound, at or
/// above `beta` a lower bound, and in between it is exact.
pub open spec fn bounds(found: int, exact: int, alpha: int, beta: int) -> bool {
    &&& found <= alpha ==> exact <= found
    &&& alpha < found < beta ==> exact == found
    &&& found >= beta ==> exact >= found
}

/// Whether a window is one that the search can meet on its way down from
/// the root.
pub open spec fn window(alpha: int, beta: int) -> bool {
    MIN_HALF <= alpha < beta <= -MIN_HALF
}

proof fn lemma_minimax_scan_grows(
    board: Board,
    depth: nat,
    columns: Seq<usize>,
    i: int,
    best: int,
    player: Player,
)
    ensures
        minimax_scan(board, depth, columns, i, best, player) >= best,
    decreases columns.len() - i,
{
    if !(depth == 0 || i < 0 || i >= columns.len()) {
        let next = max_of(best, minimax_move(board, depth, columns[i] as int, player));
        lemma_minimax_scan_grows(board, depth, columns, i + 1, next, player);
    }
}

/// Pruning is sound: within any window the search value bounds the plain
/// negamax value as `bounds` says, and equals it strictly inside the window.
pub proof fn lemma_search_bounds(board: Board, depth: nat, alpha: int, beta: int, player: Player)
    requires
        window(alpha, beta),
    ensures
        bounds(
            search_value(board, depth, alpha, beta, player),
            minimax_value(board, depth, player),
            alpha,
            beta,
        ),
    decreases depth, 2nat, 0nat,
{
    if !(depth == 0 || board.is_full()) {
        lemma_scan_bounds(
            board,
            depth,
            board.legal_moves(),
            0,
            MIN_HALF as int,
            alpha,
            MIN_HALF as int,
            alpha,
            beta,
            player,
        );
    }
}

proof fn lemma_scan_bounds(
    board: Board,
    depth: nat,
    columns: Seq<usize>,
    i: int,
    best: int,
    lower: int,
    exact: int,
    alpha: int,
    beta: int,
    player: Player,
)
    requires
        depth > 0,
        0 <= i <= columns.len(),
        window(alpha, beta),
        lower == max_of(alpha, best),
        lower < beta,
        exact <= best,
        best > alpha ==> best == exact,
    ensures
        bounds(
            scan_value(board, depth, columns, i, best, lower, beta, player),
            minimax_scan(board, depth, columns, i, exact, player),
            alpha,
            beta,
        ),
    decreases depth, 1nat, columns.len() - i,
{
    if i < columns.len() {
        let column = columns[i] as int;
        let score = move_score(board, depth, column, lower, beta, player);
        let plain = minimax_move(board, depth, column, player);
        lemma_move_bounds(board, depth, column, lower, beta, player);
        let next_best = max_of(best, score);
        let next_lower = max_of(lower, score);
        let next_exact = max_of(exact, plain);
        if next_lower >= beta {
            lemma_minimax_scan_grows(board, depth, columns, i + 1, next_exact, player);
        } else {
            lemma_scan_bounds(
                board,
                depth,
                columns,
                i + 1,
                next_best,
                next_lower,
                next_exact,
                alpha,
                beta,
                player,
            );
        }
    }
}

proof fn lemma_move_bounds(
    board: Board,
    depth: nat,
    column: int,
    lower: int,
    beta: int,
    player: Player,
)
    requires
        depth > 0,
        window(lower, beta),
    ensures
        bounds(
            move_score(board, depth, column, lower, beta, player),
            minimax_move(board, depth, column, player),
            lower,
            beta,
        ),
    decreases depth, 0nat, 0nat,
{
    let child = board.placed(board.to_move, column);
    if !four_connected(child.bits(board.to_move)) && !child.is_full() {
        lemma_search_bounds(child, (depth - 1) as nat, -beta, -lower, player.other());
    }
}

/// Whether `value` is a score that a search `depth` plies deep can give.
pub open spec fn in_range(value: int, depth: nat) -> bool {
    -(WIN_SCORE + depth) <= value <= WIN_SCORE + depth
}

/// The plain negamax value of a valid position is at most `WIN_SCORE` and
/// the depth in absolute value.
pub proof fn lemma_minimax_range(board: Board, depth: nat, player: Player)
    requires
        board.valid(),
        WIN_SCORE + depth <= MAX_HALF,
    ensures
        in_range(minimax_value(board, depth, player), depth),
    decreases depth, 2nat, 0nat,
{
    if depth == 0 || board.is_full() {
        lemma_position_score_bound(board, player);
    } else {
        board.lemma_legal_moves();
        lemma_minimax_scan_range(board, depth, board.legal_moves(), 0, MIN_HALF as int, player);
    }
}

proof fn lemma_minimax_scan_range(
    board: Board,
    depth: nat,
    columns: Seq<usize>,
    i: int,
    best: int,
    player: Player,
)
    requires
        board.valid(),
        depth > 0,
        WIN_SCORE + depth <= MAX_HALF,
        0 <= i <= columns.len(),
        forall|j: int| 0 <= j < columns.len() ==> board.is_legal(#[trigger] columns[j] as int),
        best == MIN_HALF || in_range(best, depth),
        best == MIN_HALF ==> i < columns.len(),
    ensures
        in_range(minimax_scan(board, depth, columns, i, best, player), depth),
    decreases depth, 1nat, columns.len() - i,
{
    if i < columns.len() {
        let column = columns[i] as int;
        lemma_minimax_move_range(board, depth, column, player);
        let next = max_of(best, minimax_move(board, depth, column, player));
        lemma_minimax_scan_range(board, depth, columns, i + 1, next, player);
    }
}

proof fn lemma_minimax_move_range(board: Board, depth: nat, column: int, player: Player)
    requires
        board.valid(),
        board.is_legal(column),
        depth > 0,
        WIN_SCORE + depth <= MAX_HALF,
    ensures
        in_range(minimax_move(board, depth, column, player), depth),
        minimax_move(board, depth, column, player) < WIN_SCORE + depth,
    decreases depth, 0nat, 0nat,
{
    let child = board.placed(board.to_move, column);
    board.lemma_placed(board.to_move, column);
    if !four_connected(child.bits(board.to_move)) && !child.is_full() {
        lemma_minimax_range(child, (depth - 1) as nat, player.other());
    }
}

/// At the root the score that the search finds for a move bounds its plain
/// score within the window from `alpha` upwards, and the plain score stays
/// below `MAX_HALF`.
proof fn lemma_root_bounds(board: Board, depth: nat, column: int, alpha: int)
    requires
        board.valid(),
        board.is_legal(column),
        WIN_SCORE + depth <= MAX_HALF,
        MIN_HALF <= alpha < MAX_HALF,
    ensures
        bounds(
            root_score(board, depth, column, alpha),
            minimax_root(board, depth, column),
            alpha,
            MAX_HALF as int,
        ),
        MIN_HALF < minimax_root(board, depth, column) < MAX_HALF,
{
    let child = board.placed(board.to_move, column);
    board.lemma_placed(board.to_move, column);
    if !four_connected(child.bits(board.to_move)) && !child.is_full() {
        let below: nat = if depth == 0 {
            0nat
        } else {
            (depth - 1) as nat
        };
        lemma_search_bounds(child, below, -MAX_HALF, -alpha, board.to_move.other());
        lemma_minimax_range(child, below, board.to_move.other());
    }
}

proof fn lemma_root_scan(
    board: Board,
    depth: nat,
    columns: Seq<usize>,
    i: int,
    best: Option<usize>,
    alpha: int,
    at: int,
)
    requires
        board.valid(),
        WIN_SCORE + depth <= MAX_HALF,
        columns == board.legal_moves(),
        forall|j: int| 0 <= j < columns.len() ==> board.is_legal(#[trigger] columns[j] as int),
        0 <= i <= columns.len(),
        i == 0 ==> best is None && alpha == MIN_HALF,
        i > 0 ==> {
            &&& 0 <= at < i
            &&& best == Some(columns[at])
            &&& alpha == minimax_root(board, depth, columns[at] as int)
            &&& forall|k: int|
                0 <= k < i ==> minimax_root(board, depth, #[trigger] columns[k] as int) <= alpha
            &&& forall|k: int|
                0 <= k < at ==> minimax_root(board, depth, #[trigger] columns[k] as int) < alpha
        },
    ensures
        match root_scan(board, depth, columns, i, best, alpha) {
            Some(column) => is_best_move(board, depth, column),
            None => columns.len() == 0,
        },
    decreases columns.len() - i,
{
    if i < columns.len() {
        let column = columns[i] as int;
        if i > 0 {
            lemma_root_bounds(board, depth, columns[at] as int, MIN_HALF as int);
        }
        lemma_root_bounds(board, depth, column, alpha);
        let score = root_score(board, depth, column, alpha);
        if score > alpha {
            assert(score == minimax_root(board, depth, column));
            lemma_root_scan(board, depth, columns, i + 1, Some(columns[i]), score, i);
        } else {
            assert(i > 0);
            lemma_root_scan(board, depth, columns, i + 1, best, alpha, at);
        }
    } else if i > 0 {
        assert(columns[at] == best->Some_0);
    }
}

/// The root keeps the best move: the column that the search chooses is the
/// first legal move, from the centre outwards, with the largest plain
/// negamax score, and there is none only on a full board.
pub proof fn lemma_chosen_is_best(board: Board, depth: nat)
    requires
        board.valid(),
        WIN_SCORE + depth <= MAX_HALF,
    ensures
        match chosen_column(board, depth) {
            Some(column) => is_best_move(board, depth, column),
            None => board.is_full(),
        },
        board.is_full() ==> chosen_column(board, depth) is None,
{
    board.lemma_legal_moves();
    lemma_root_scan(board, depth, board.legal_moves(), 0, None, MIN_HALF as int, 0);
}

} // verus!
