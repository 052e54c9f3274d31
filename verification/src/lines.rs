//! The table of winning lines: every horizontal, vertical and diagonal line
//! of four cells on the board, as bit masks.
use crate::geometry::{
    bit_at, bit_for, cell_index, lemma_bit_and, lemma_bit_or, lemma_bit_single, lemma_bit_zero,
    lemma_bits_equal, on_board, within_board,
};
use crate::win::{four_connected, four_connected_is_four_in_line, four_in_line, line_at, line_from};
use vstd::prelude::*;

verus! {

/// The mask with the single bit of cell `(col, row)` set.
pub open spec fn cell_bit(col: int, row: int) -> u64 {
    1u64 << (cell_index(col, row) as u64)
}

/// The mask of the first `n` cells on the way that starts at `(col, row)`
/// and advances by `(dcol, drow)`.
pub open spec fn cells_mask(col: int, row: int, dcol: int, drow: int, n: nat) -> u64
    decreases n,
{
    if n == 0 {
        0
    } else {
        cells_mask(col, row, dcol, drow, (n - 1) as nat) | cell_bit(
            col + (n - 1) * dcol,
            row + (n - 1) * drow,
        )
    }
}

/// The mask of the line of four cells that starts at `(col, row)` and
/// advances by `(dcol, drow)`.
pub open spec fn line_mask(col: int, row: int, dcol: int, drow: int) -> u64 {
    cells_mask(col, row, dcol, drow, 4)
}

/// The `k`-th winning line. The 24 horizontal lines come first, row by row;
/// then the 21 vertical lines, column by column; then the 12 rising and the
/// 12 falling diagonals, column by column.
pub open spec fn win_line(k: int) -> u64 {
    if k < 24 {
        line_mask(k % 4, k / 4, 1, 0)
    } else if k < 45 {
        line_mask((k - 24) / 3, (k - 24) % 3, 0, 1)
    } else if k < 57 {
        line_mask((k - 45) / 3, (k - 45) % 3, 1, 1)
    } else {
        line_mask((k - 57) / 3, 3 + (k - 57) % 3, 1, -1)
    }
}

/// The table of all 69 winning lines.
pub open spec fn win_lines() -> Seq<u64> {
    Seq::new(69, |k: int| win_line(k))
}

/// Whether `(dcol, drow)` is one of the four directions of a line: to the
/// right, upwards, diagonally up or diagonally down.
pub open spec fn is_direction(dcol: int, drow: int) -> bool {
    ||| dcol == 1 && drow == 0
    ||| dcol == 0 && drow == 1
    ||| dcol == 1 && drow == 1
    ||| dcol == 1 && drow == -1
}

/// Whether the four cells from `(col, row)` in direction `(dcol, drow)` all
/// lie on the board.
pub open spec fn line_on_board(col: int, row: int, dcol: int, drow: int) -> bool {
    is_direction(dcol, drow) && on_board(col, row) && on_board(col + 3 * dcol, row + 3 * drow)
}

/// Whether `bits` holds a piece on every cell of `line`.
pub open spec fn covers(bits: u64, line: u64) -> bool {
    bits & line == line
}

/// The bits of a line on the board are the bits of its four cells.
pub proof fn lemma_line_bits(col: int, row: int, dcol: int, drow: int)
    requires
        line_on_board(col, row, dcol, drow),
    ensures
        forall|i: int|
            #[trigger] bit_at(line_mask(col, row, dcol, drow), i) <==> {
                ||| i == cell_index(col, row)
                ||| i == cell_index(col + dcol, row + drow)
                ||| i == cell_index(col + 2 * dcol, row + 2 * drow)
                ||| i == cell_index(col + 3 * dcol, row + 3 * drow)
            },
{
    reveal_with_fuel(cells_mask, 5);
    let b0 = cell_bit(col, row);
    let b1 = cell_bit(col + dcol, row + drow);
    let b2 = cell_bit(col + 2 * dcol, row + 2 * drow);
    let b3 = cell_bit(col + 3 * dcol, row + 3 * drow);
    lemma_bit_zero();
    lemma_bit_single(cell_index(col, row) as u64);
    lemma_bit_single(cell_index(col + dcol, row + drow) as u64);
    lemma_bit_single(cell_index(col + 2 * dcol, row + 2 * drow) as u64);
    lemma_bit_single(cell_index(col + 3 * dcol, row + 3 * drow) as u64);
    lemma_bit_or(0, b0);
    lemma_bit_or(0 | b0, b1);
    lemma_bit_or((0 | b0) | b1, b2);
    lemma_bit_or(((0 | b0) | b1) | b2, b3);
    assert(line_mask(col, row, dcol, drow) == (((0 | b0) | b1) | b2) | b3);
}

/// A mask covers a line on the board exactly when it holds a piece on each
/// of the line's four cells.
pub proof fn lemma_covers_line(bits: u64, col: int, row: int, dcol: int, drow: int)
    requires
        line_on_board(col, row, dcol, drow),
    ensures
        covers(bits, line_mask(col, row, dcol, drow)) <==> line_at(bits, col, row, dcol, drow),
{
    let line = line_mask(col, row, dcol, drow);
    lemma_line_bits(col, row, dcol, drow);
    lemma_bit_and(bits, line);
    if line_at(bits, col, row, dcol, drow) {
        lemma_bits_equal(bits & line, line);
    }
    if covers(bits, line) {
        assert(bit_at(bits & line, cell_index(col, row)));
        assert(bit_at(bits & line, cell_index(col + dcol, row + drow)));
        assert(bit_at(bits & line, cell_index(col + 2 * dcol, row + 2 * drow)));
        assert(bit_at(bits & line, cell_index(col + 3 * dcol, row + 3 * drow)));
    }
}

/// The table is exhaustive: every line of four cells on the board, in each
/// of the four directions, is one of its entries.
pub proof fn every_line_is_listed(col: int, row: int, dcol: int, drow: int) -> (k: int)
    requires
        line_on_board(col, row, dcol, drow),
    ensures
        0 <= k < 69,
        win_lines()[k] == line_mask(col, row, dcol, drow),
{
    if drow == 0 {
        row * 4 + col
    } else if dcol == 0 {
        24 + col * 3 + row
    } else if drow == 1 {
        45 + col * 3 + row
    } else {
        57 + col * 3 + (row - 3)
    }
}

/// Every entry of the table is a line of four cells on the board.
pub proof fn listed_line_is_on_board(k: int) -> (line: (int, int, int, int))
    requires
        0 <= k < 69,
    ensures
        line_on_board(line.0, line.1, line.2, line.3),
        win_lines()[k] == line_mask(line.0, line.1, line.2, line.3),
{
    if k < 24 {
        (k % 4, k / 4, 1, 0)
    } else if k < 45 {
        ((k - 24) / 3, (k - 24) % 3, 0, 1)
    } else if k < 57 {
        ((k - 45) / 3, (k - 45) % 3, 1, 1)
    } else {
        ((k - 57) / 3, 3 + (k - 57) % 3, 1, -1)
    }
}

/// The table agrees with the win detector: a mask within the playable cells
/// has four connected bits exactly when it covers a line of the table.
pub proof fn table_agrees_with_detector(bits: u64)
    requires
        within_board(bits),
    ensures
        four_connected(bits) <==> exists|k: int| 0 <= k < 69 && covers(bits, #[trigger] win_lines()[k]),
{
    four_connected_is_four_in_line(bits);
    if four_in_line(bits) {
        let (col, row) = choose|col: int, row: int| line_from(bits, col, row);
        let (dcol, drow): (int, int) = if line_at(bits, col, row, 0, 1) {
            (0, 1)
        } else if line_at(bits, col, row, 1, 0) {
            (1, 0)
        } else if line_at(bits, col, row, 1, 1) {
            (1, 1)
        } else {
            (1, -1)
        };
        assert(line_at(bits, col, row, dcol, drow));
        let k = every_line_is_listed(col, row, dcol, drow);
        lemma_covers_line(bits, col, row, dcol, drow);
        assert(covers(bits, win_lines()[k]));
    }
    if exists|k: int| 0 <= k < 69 && covers(bits, #[trigger] win_lines()[k]) {
        let k = choose|k: int| 0 <= k < 69 && covers(bits, #[trigger] win_lines()[k]);
        let line = listed_line_is_on_board(k);
        lemma_covers_line(bits, line.0, line.1, line.2, line.3);
        assert(line_from(bits, line.0, line.1));
    }
}

/// The mask of four cells in a line. `drow` is -1, 0 or 1.
fn four_cells(col: usize, row: usize, dcol: usize, drow: i8) -> (mask: u64)
    requires
        dcol <= 1,
        -1 <= drow <= 1,
        on_board(col as int, row as int),
        on_board(col + 3 * dcol, row + 3 * drow),
    ensures
        mask == line_mask(col as int, row as int, dcol as int, drow as int),
{
    let mut mask: u64 = 0;
    let mut offset: usize = 0;
    while offset < 4
        invariant
            offset <= 4,
            dcol <= 1,
            -1 <= drow <= 1,
            on_board(col as int, row as int),
            on_board(col + 3 * dcol, row + 3 * drow),
            mask == cells_mask(col as int, row as int, dcol as int, drow as int, offset as nat),
        decreases 4 - offset,
    {
        let c: usize = if dcol > 0 {
            col + offset
        } else {
            col
        };
        let r: usize = if drow < 0 {
            row - offset
        } else if drow > 0 {
            row + offset
        } else {
            row
        };
        assert(c == col + offset * dcol && r == row + offset * drow) by {
            assert(dcol == 0 || dcol == 1);
            assert(drow == -1 || drow == 0 || drow == 1);
        }
        mask |= bit_for(c, r);
        offset += 1;
    }
    mask
}

/// Builds the table of winning lines.
pub fn generate_win_masks() -> (masks: Vec<u64>)
    ensures
        masks@ == win_lines(),
{
    let mut masks: Vec<u64> = Vec::new();
    // Horizontal
    let mut row: usize = 0;
    while row < 6
        invariant
            row <= 6,
            masks@ == win_lines().take(row * 4),
        decreases 6 - row,
    {
        let mut col: usize = 0;
        while col < 4
            invariant
                row < 6,
                col <= 4,
                masks@ == win_lines().take(row * 4 + col),
            decreases 4 - col,
        {
            let mask = four_cells(col, row, 1, 0);
            masks.push(mask);
            assert(masks@ =~= win_lines().take(row * 4 + col + 1));
            col += 1;
        }
        row += 1;
    }
    // Vertical
    let mut col: usize = 0;
    while col < 7
        invariant
            col <= 7,
            masks@ == win_lines().take(24 + col * 3),
        decreases 7 - col,
    {
        let mut row: usize = 0;
        while row < 3
            invariant
                col < 7,
                row <= 3,
                masks@ == win_lines().take(24 + col * 3 + row),
            decreases 3 - row,
        {
            let mask = four_cells(col, row, 0, 1);
            masks.push(mask);
            assert(masks@ =~= win_lines().take(24 + col * 3 + row + 1));
            row += 1;
        }
        col += 1;
    }
    // Rising diagonal
    let mut col: usize = 0;
    while col < 4
        invariant
            col <= 4,
            masks@ == win_lines().take(45 + col * 3),
        decreases 4 - col,
    {
        let mut row: usize = 0;
        while row < 3
            invariant
                col < 4,
                row <= 3,
                masks@ == win_lines().take(45 + col * 3 + row),
            decreases 3 - row,
        {
            let mask = four_cells(col, row, 1, 1);
            masks.push(mask);
            assert(masks@ =~= win_lines().take(45 + col * 3 + row + 1));
            row += 1;
        }
        col += 1;
    }
    // Falling diagonal
    let mut col: usize = 0;
    while col < 4
        invariant
            col <= 4,
            masks@ == win_lines().take(57 + col * 3),
        decreases 4 - col,
    {
        let mut row: usize = 3;
        while row < 6
            invariant
                col < 4,
                3 <= row <= 6,
                masks@ == win_lines().take(57 + col * 3 + row - 3),
            decreases 6 - row,
        {
            let mask = four_cells(col, row, 1, -1);
            masks.push(mask);
            assert(masks@ =~= win_lines().take(57 + col * 3 + row - 3 + 1));
            row += 1;
        }
        col += 1;
    }
    assert(masks@ =~= win_lines());
    masks
}

/// The table of winning lines, built once and handed to the evaluator and
/// the search.
pub struct WinMasks {
    masks: Vec<u64>,
}

impl View for WinMasks {
    type V = Seq<u64>;

    closed spec fn view(&self) -> Seq<u64> {
        self.masks@
    }
}

impl WinMasks {
    /// A table always holds the winning lines, all of them and in order.
    #[verifier::type_invariant]
    pub open spec fn inv(self) -> bool {
        self@ == win_lines()
    }

    /// Builds the table.
    pub fn new() -> (table: WinMasks)
        ensures
            table@ == win_lines(),
    {
        WinMasks { masks: generate_win_masks() }
    }

    /// The masks of the table.
    pub fn masks(&self) -> (masks: &Vec<u64>)
        ensures
            masks@ == self@,
            masks@ == win_lines(),
    {
        proof {
            use_type_invariant(self);
        }
        &self.masks
    }
}

} // verus!
