//! The win detector: four aligned pieces in one occupancy mask.
use crate::geometry::{
    bit_at, cell_index, lemma_bit_and, lemma_bit_shr, lemma_nonzero_has_bit, occupied,
    within_board,
};
use vstd::prelude::*;

verus! {

/// Bits `start`, `start + step`, `start + 2 * step` and `start + 3 * step`
/// of `bits` are all set.
pub open spec fn run_at(bits: u64, start: int, step: int) -> bool {
    &&& bit_at(bits, start)
    &&& bit_at(bits, start + step)
    &&& bit_at(bits, start + 2 * step)
    &&& bit_at(bits, start + 3 * step)
}

/// Some four bits of `bits`, `step` apart, are all set.
pub open spec fn has_run(bits: u64, step: int) -> bool {
    exists|start: int| run_at(bits, start, step)
}

/// Four set bits in a row along one of the four directions of the bit
/// layout: up a column (step 1), along a row (step 7), down a diagonal
/// (step 6) or up a diagonal (step 8).
pub open spec fn four_connected(bits: u64) -> bool {
    has_run(bits, 1) || has_run(bits, 7) || has_run(bits, 6) || has_run(bits, 8)
}

/// The four cells that start at `(col, row)` and advance by `(dcol, drow)`
/// are all playable and occupied.
pub open spec fn line_at(bits: u64, col: int, row: int, dcol: int, drow: int) -> bool {
    &&& occupied(bits, col, row)
    &&& occupied(bits, col + dcol, row + drow)
    &&& occupied(bits, col + 2 * dcol, row + 2 * drow)
    &&& occupied(bits, col + 3 * dcol, row + 3 * drow)
}

/// A line of four occupied cells starts at `(col, row)`: upwards, to the
/// right, diagonally up or diagonally down.
pub open spec fn line_from(bits: u64, col: int, row: int) -> bool {
    ||| line_at(bits, col, row, 0, 1)
    ||| line_at(bits, col, row, 1, 0)
    ||| line_at(bits, col, row, 1, 1)
    ||| line_at(bits, col, row, 1, -1)
}

/// Somewhere on the board four occupied cells stand in a line.
pub open spec fn four_in_line(bits: u64) -> bool {
    exists|col: int, row: int| line_from(bits, col, row)
}

/// The mask that keeps a bit when it starts four set bits `step` apart.
pub open spec fn run_starts(bits: u64, step: u64) -> u64 {
    let pairs = bits & (bits >> step);
    pairs & (pairs >> ((2 * step) as u64))
}

proof fn lemma_run_starts(bits: u64, step: u64)
    requires
        0 < step < 22,
    ensures
        forall|i: int| #[trigger] bit_at(run_starts(bits, step), i) <==> run_at(bits, i, step as int),
        run_starts(bits, step) != 0 <==> has_run(bits, step as int),
{
    let pairs = bits & (bits >> step);
    let twice = (2 * step) as u64;
    let starts = pairs & (pairs >> twice);
    lemma_bit_shr(bits, step);
    lemma_bit_and(bits, bits >> step);
    lemma_bit_shr(pairs, twice);
    lemma_bit_and(pairs, pairs >> twice);
    assert forall|i: int| #[trigger] bit_at(starts, i) <==> run_at(bits, i, step as int) by {
        if 0 <= i {
            assert(bit_at(pairs >> twice, i) <==> bit_at(pairs, i + twice));
            assert(bit_at(bits >> step, i) <==> bit_at(bits, i + step));
            assert(bit_at(bits >> step, i + twice) <==> bit_at(bits, i + twice + step));
        }
    }
    lemma_nonzero_has_bit(starts);
    if starts != 0 {
        let i = choose|i: int| bit_at(starts, i);
        assert(run_at(bits, i, step as int));
    }
    if has_run(bits, step as int) {
        let i = choose|i: int| run_at(bits, i, step as int);
        assert(bit_at(starts, i));
    }
}

/// Whether `bits` holds four aligned pieces.
pub fn has_won(bits: u64) -> (won: bool)
    ensures
        won == four_connected(bits),
{
    proof {
        lemma_run_starts(bits, 1);
        lemma_run_starts(bits, 7);
        lemma_run_starts(bits, 6);
        lemma_run_starts(bits, 8);
    }
    // Vertical
    let mut m = bits & (bits >> 1);
    if (m & (m >> 2)) != 0 {
        return true;
    }
    // Horizontal
    m = bits & (bits >> 7);
    if (m & (m >> 14)) != 0 {
        return true;
    }
    // Falling diagonal
    m = bits & (bits >> 6);
    if (m & (m >> 12)) != 0 {
        return true;
    }
    // Rising diagonal
    m = bits & (bits >> 8);
    if (m & (m >> 16)) != 0 {
        return true;
    }
    false
}

proof fn lemma_run_is_line(bits: u64, start: int, step: int)
    requires
        within_board(bits),
        run_at(bits, start, step),
        step == 1 || step == 7 || step == 6 || step == 8,
    ensures
        line_from(bits, start / 7, start % 7),
{
    let col = start / 7;
    let row = start % 7;
    assert(bit_at(bits, start));
    assert(bit_at(bits, start + step));
    assert(bit_at(bits, start + 2 * step));
    assert(bit_at(bits, start + 3 * step));
    assert(cell_index(col, row) == start);
    if step == 1 {
        assert(cell_index(col, row + 1) == start + 1);
        assert(cell_index(col, row + 2) == start + 2);
        assert(cell_index(col, row + 3) == start + 3);
        assert(line_at(bits, col, row, 0, 1));
    } else if step == 7 {
        assert(cell_index(col + 1, row) == start + 7);
        assert(cell_index(col + 2, row) == start + 14);
        assert(cell_index(col + 3, row) == start + 21);
        assert(line_at(bits, col, row, 1, 0));
    } else if step == 8 {
        assert(cell_index(col + 1, row + 1) == start + 8);
        assert(cell_index(col + 2, row + 2) == start + 16);
        assert(cell_index(col + 3, row + 3) == start + 24);
        assert(line_at(bits, col, row, 1, 1));
    } else {
        assert(cell_index(col + 1, row - 1) == start + 6);
        assert(cell_index(col + 2, row - 2) == start + 12);
        assert(cell_index(col + 3, row - 3) == start + 18);
        assert(line_at(bits, col, row, 1, -1));
    }
}

/// On a mask that stays within the playable cells, four connected bits are
/// four occupied cells in a line of the board, and the other way round: the
/// sentinel row keeps a run from wrapping into the next column.
pub proof fn four_connected_is_four_in_line(bits: u64)
    requires
        within_board(bits),
    ensures
        four_connected(bits) <==> four_in_line(bits),
{
    if four_connected(bits) {
        let step: int = if has_run(bits, 1) {
            1
        } else if has_run(bits, 7) {
            7
        } else if has_run(bits, 6) {
            6
        } else {
            8
        };
        let start = choose|start: int| run_at(bits, start, step);
        lemma_run_is_line(bits, start, step);
    }
    if four_in_line(bits) {
        let (col, row) = choose|col: int, row: int| line_from(bits, col, row);
        let start = cell_index(col, row);
        if line_at(bits, col, row, 0, 1) {
            assert(run_at(bits, start, 1));
        } else if line_at(bits, col, row, 1, 0) {
            assert(run_at(bits, start, 7));
        } else if line_at(bits, col, row, 1, 1) {
            assert(run_at(bits, start, 8));
        } else {
            assert(run_at(bits, start, 6));
        }
    }
}

} // verus!
