//! The static evaluator: a score for a position from one player's side.
use crate::board::{Board, GameState};
use crate::geometry::{bit_at, cell_index, lemma_bit_and, occupied};
use crate::lines::{cells_mask, lemma_line_bits, line_mask, line_on_board, win_lines, WinMasks};
use crate::player::Player;
use crate::win::{four_connected, has_won};
use vstd::prelude::*;

verus! {

/// The score of a won position. No sum of positional bonuses comes near it.
pub const WIN_SCORE: i32 = 1_000_000;

/// The largest absolute value of the positional score of a position that
/// nobody has won: three points for each of 64 bits and fifty for each of the
/// 69 lines.
pub const HEURISTIC_BOUND: i32 = 3642;

/// Number of set bits among the lowest `n` bits of `x`.
pub open spec fn ones_below(x: u64, n: nat) -> nat
    decreases n,
{
    if n == 0 {
        0
    } else {
        ones_below(x, (n - 1) as nat) + if bit_at(x, n - 1) {
            1nat
        } else {
            0nat
        }
    }
}

/// Number of set bits of `x`.
pub open spec fn count_ones(x: u64) -> nat {
    ones_below(x, 64)
}

/// `u64::count_ones` of the standard library, which is not verified here:
/// it returns the number of bits of its argument that are set.
pub assume_specification[ u64::count_ones ](x: u64) -> (n: u32)
    ensures
        n == count_ones(x),
;

/// Among `n` bits at most `n` are set.
pub proof fn lemma_ones_below_bound(x: u64, n: nat)
    ensures
        ones_below(x, n) <= n,
    decreases n,
{
    if n > 0 {
        lemma_ones_below_bound(x, (n - 1) as nat);
    }
}

/// The mask of the six cells of the centre column.
pub open spec fn center_cells() -> u64 {
    cells_mask(3, 0, 0, 1, 6)
}

/// The bonus for holding `count` cells of a line that the opponent has not
/// entered.
pub open spec fn line_weight(count: nat) -> int {
    if count == 3 {
        50
    } else if count == 2 {
        10
    } else if count == 1 {
        2
    } else {
        0
    }
}

/// What one line adds to the score: nothing when both players hold a cell
/// of it, else the bonus for my cells less the bonus for theirs.
pub open spec fn line_score(mine: u64, theirs: u64, line: u64) -> int {
    let mine_count = count_ones(mine & line);
    let theirs_count = count_ones(theirs & line);
    if mine_count > 0 && theirs_count > 0 {
        0
    } else {
        line_weight(mine_count) - line_weight(theirs_count)
    }
}

/// The sum of `line_score` over `lines`.
pub open spec fn lines_score(mine: u64, theirs: u64, lines: Seq<u64>) -> int
    decreases lines.len(),
{
    if lines.len() == 0 {
        0
    } else {
        lines_score(mine, theirs, lines.drop_last()) + line_score(mine, theirs, lines.last())
    }
}

/// Three points for each of my pieces in the centre column, less three for
/// each of theirs.
pub open spec fn center_bonus(mine: u64, theirs: u64) -> int {
    3 * count_ones(mine & center_cells()) - 3 * count_ones(theirs & center_cells())
}

/// The positional score of two masks: the centre bonus and the sum over all
/// winning lines.
pub open spec fn heuristic(mine: u64, theirs: u64) -> int {
    center_bonus(mine, theirs) + lines_score(mine, theirs, win_lines())
}

/// The score of `board` for `player`: `WIN_SCORE` when `player` has four in
/// a row, its negation when the opponent has, else the positional score.
pub open spec fn position_score(board: Board, player: Player) -> int {
    let mine = board.bits(player);
    let theirs = board.bits(player.other());
    if four_connected(mine) {
        WIN_SCORE as int
    } else if four_connected(theirs) {
        -WIN_SCORE
    } else {
        heuristic(mine, theirs)
    }
}

proof fn lemma_lines_score_bound(mine: u64, theirs: u64, lines: Seq<u64>)
    ensures
        -50 * lines.len() <= lines_score(mine, theirs, lines) <= 50 * lines.len(),
    decreases lines.len(),
{
    if lines.len() > 0 {
        lemma_lines_score_bound(mine, theirs, lines.drop_last());
    }
}

/// The positional score stays within `HEURISTIC_BOUND`, far below
/// `WIN_SCORE`.
pub proof fn lemma_heuristic_bound(mine: u64, theirs: u64)
    ensures
        -HEURISTIC_BOUND <= heuristic(mine, theirs) <= HEURISTIC_BOUND,
{
    lemma_ones_below_bound(mine & center_cells(), 64);
    lemma_ones_below_bound(theirs & center_cells(), 64);
    lemma_lines_score_bound(mine, theirs, win_lines());
}

/// The score of a position lies between `-WIN_SCORE` and `WIN_SCORE`.
pub proof fn lemma_position_score_bound(board: Board, player: Player)
    ensures
        -WIN_SCORE <= position_score(board, player) <= WIN_SCORE,
{
    lemma_heuristic_bound(board.bits(player), board.bits(player.other()));
}

/// One for a cell that `bits` holds a piece on, zero for any other.
pub open spec fn held(bits: u64, col: int, row: int) -> nat {
    if occupied(bits, col, row) {
        1
    } else {
        0
    }
}

/// How many of the four cells of a line `bits` holds a piece on.
pub open spec fn cells_held(bits: u64, col: int, row: int, dcol: int, drow: int) -> nat {
    held(bits, col, row) + held(bits, col + dcol, row + drow) + held(
        bits,
        col + 2 * dcol,
        row + 2 * drow,
    ) + held(bits, col + 3 * dcol, row + 3 * drow)
}

/// One when bit `i` of `x` is set and lies below `n`, else zero.
spec fn set_below(x: u64, i: int, n: nat) -> nat {
    if i < n && bit_at(x, i) {
        1
    } else {
        0
    }
}

proof fn lemma_count_four(x: u64, n: nat, i0: int, i1: int, i2: int, i3: int)
    requires
        forall|i: int| #[trigger] bit_at(x, i) ==> i == i0 || i == i1 || i == i2 || i == i3,
        i0 != i1 && i0 != i2 && i0 != i3 && i1 != i2 && i1 != i3 && i2 != i3,
    ensures
        ones_below(x, n) == set_below(x, i0, n) + set_below(x, i1, n) + set_below(x, i2, n)
            + set_below(x, i3, n),
    decreases n,
{
    if n > 0 {
        lemma_count_four(x, (n - 1) as nat, i0, i1, i2, i3);
    }
}

/// The number of set bits that a mask shares with a line on the board is
/// the number of the line's cells that the mask holds a piece on.
pub proof fn lemma_line_count(bits: u64, col: int, row: int, dcol: int, drow: int)
    requires
        line_on_board(col, row, dcol, drow),
    ensures
        count_ones(bits & line_mask(col, row, dcol, drow)) == cells_held(
            bits,
            col,
            row,
            dcol,
            drow,
        ),
{
    let line = line_mask(col, row, dcol, drow);
    lemma_line_bits(col, row, dcol, drow);
    lemma_bit_and(bits, line);
    lemma_count_four(
        bits & line,
        64,
        cell_index(col, row),
        cell_index(col + dcol, row + drow),
        cell_index(col + 2 * dcol, row + 2 * drow),
        cell_index(col + 3 * dcol, row + 3 * drow),
    );
}

proof fn lemma_lines_score_flips(mine: u64, theirs: u64, lines: Seq<u64>)
    ensures
        lines_score(theirs, mine, lines) == -lines_score(mine, theirs, lines),
    decreases lines.len(),
{
    if lines.len() > 0 {
        lemma_lines_score_flips(mine, theirs, lines.drop_last());
    }
}

/// The score is zero-sum: unless both players have four connected, what a
/// position is worth to one player is the negation of what it is worth to
/// the other.
pub proof fn lemma_score_is_zero_sum(board: Board, player: Player)
    requires
        !(four_connected(board.red) && four_connected(board.blue)),
    ensures
        position_score(board, player.other()) == -position_score(board, player),
{
    lemma_lines_score_flips(board.bits(player), board.bits(player.other()), win_lines());
}

/// The evaluator agrees with the win detector: a position scores
/// `WIN_SCORE` exactly when `player` has four connected, and `-WIN_SCORE`
/// exactly when the opponent has and `player` has not.
pub proof fn lemma_win_scores(board: Board, player: Player)
    ensures
        position_score(board, player) == WIN_SCORE <==> four_connected(board.bits(player)),
        position_score(board, player) == -WIN_SCORE <==> !four_connected(board.bits(player))
            && four_connected(board.bits(player.other())),
{
    lemma_heuristic_bound(board.bits(player), board.bits(player.other()));
}

/// The mask of the centre column.
pub fn center_mask() -> (mask: u64)
    ensures
        mask == center_cells(),
{
    let mut mask: u64 = 0;
    let col: usize = 3;
    let mut row: usize = 0;
    while row < 6
        invariant
            row <= 6,
            col == 3,
            mask == cells_mask(3, 0, 0, 1, row as nat),
        decreases 6 - row,
    {
        mask |= 1u64 << (col * 7 + row);
        row += 1;
    }
    mask
}

/// Scores `state` for `player`; higher is better for `player`.
pub fn evaluate(state: &GameState, player: Player, lines: &WinMasks) -> (score: i32)
    ensures
        score == position_score(state@, player),
        -WIN_SCORE <= score <= WIN_SCORE,
{
    let mine = state.bits(player);
    let theirs = state.bits(player.opponent());
    if has_won(mine) {
        return WIN_SCORE;
    }
    if has_won(theirs) {
        return -WIN_SCORE;
    }
    let center_bits = center_mask();
    proof {
        lemma_ones_below_bound(mine & center_bits, 64);
        lemma_ones_below_bound(theirs & center_bits, 64);
    }
    let center_score = 3 * (mine & center_bits).count_ones() as i32 - 3 * (theirs
        & center_bits).count_ones() as i32;
    let mut score = center_score;
    let masks = lines.masks();
    let mut i: usize = 0;
    while i < masks.len()
        invariant
            i <= 69,
            masks@ == win_lines(),
            center_score == center_bonus(mine, theirs),
            -192 <= center_score <= 192,
            score == center_score + lines_score(mine, theirs, win_lines().take(i as int)),
            -50 * i <= score - center_score <= 50 * i,
        decreases 69 - i,
    {
        let mask = masks[i];
        proof {
            assert(win_lines().take(i + 1).drop_last() =~= win_lines().take(i as int));
            assert(win_lines().take(i + 1).last() == mask);
        }
        let mine_count = (mine & mask).count_ones();
        let theirs_count = (theirs & mask).count_ones();
        if !(mine_count > 0 && theirs_count > 0) {
            if theirs_count == 0 {
                if mine_count == 3 {
                    score += 50;
                } else if mine_count == 2 {
                    score += 10;
                } else if mine_count == 1 {
                    score += 2;
                }
            } else {
                if theirs_count == 3 {
                    score -= 50;
                } else if theirs_count == 2 {
                    score -= 10;
                } else if theirs_count == 1 {
                    score -= 2;
                }
            }
        }
        i += 1;
    }
    proof {
        assert(win_lines().take(69) =~= win_lines());
        lemma_heuristic_bound(mine, theirs);
    }
    score
}

} // verus!
