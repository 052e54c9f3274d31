//! Bit geometry of the 7x6 board.
//!
//! A cell `(col, row)` lives at bit `col * 7 + row` of a 64-bit mask: each
//! column takes seven consecutive bits, six playable rows and one sentinel
//! row above them that is never set.
use vstd::prelude::*;

verus! {

/// Number of columns.
pub const WIDTH: usize = 7;

/// Number of playable rows.
pub const HEIGHT: usize = 6;

/// Bits per column: the playable rows and the sentinel row.
pub const COL_HEIGHT: usize = 7;

/// Number of playable cells.
pub const MAX_CELLS: usize = 42;

/// Whether bit `i` of `bits` is set. False outside `0..64`.
pub open spec fn bit_at(bits: u64, i: int) -> bool {
    0 <= i < 64 && (bits >> (i as u64)) & 1 == 1
}

/// Whether `(col, row)` is a playable cell.
pub open spec fn on_board(col: int, row: int) -> bool {
    0 <= col < 7 && 0 <= row < 6
}

/// Bit position of the cell `(col, row)`.
pub open spec fn cell_index(col: int, row: int) -> int {
    col * 7 + row
}

/// Whether `bits` holds a piece on the playable cell `(col, row)`.
pub open spec fn occupied(bits: u64, col: int, row: int) -> bool {
    on_board(col, row) && bit_at(bits, cell_index(col, row))
}

/// Whether every set bit of `bits` is a playable cell: nothing in a sentinel
/// row, nothing beyond the seventh column.
pub open spec fn within_board(bits: u64) -> bool {
    forall|i: int| #[trigger] bit_at(bits, i) ==> i < 49 && i % 7 != 6
}

/// The zero mask has no bit set.
pub proof fn lemma_bit_zero()
    ensures
        forall|i: int| !#[trigger] bit_at(0u64, i),
{
    assert forall|i: int| !#[trigger] bit_at(0u64, i) by {
        if 0 <= i < 64 {
            let k = i as u64;
            assert((0u64 >> k) & 1 == 0) by (bit_vector);
        }
    }
}

/// `1 << k` has bit `k` set and no other.
pub proof fn lemma_bit_single(k: u64)
    requires
        k < 64,
    ensures
        forall|i: int| #[trigger] bit_at(1u64 << k, i) <==> i == k,
{
    assert forall|i: int| #[trigger] bit_at(1u64 << k, i) <==> i == k by {
        if 0 <= i < 64 {
            let j = i as u64;
            assert((((1u64 << k) >> j) & 1 == 1) <==> j == k) by (bit_vector)
                requires
                    k < 64,
                    j < 64,
            ;
        }
    }
}

/// A bit of `x | y` is set when it is set in `x` or in `y`.
pub proof fn lemma_bit_or(x: u64, y: u64)
    ensures
        forall|i: int| #[trigger] bit_at(x | y, i) <==> bit_at(x, i) || bit_at(y, i),
{
    assert forall|i: int| #[trigger] bit_at(x | y, i) <==> bit_at(x, i) || bit_at(y, i) by {
        if 0 <= i < 64 {
            let j = i as u64;
            assert((((x | y) >> j) & 1 == 1) <==> ((x >> j) & 1 == 1 || (y >> j) & 1 == 1))
                by (bit_vector);
        }
    }
}

/// A bit of `x & y` is set when it is set in `x` and in `y`.
pub proof fn lemma_bit_and(x: u64, y: u64)
    ensures
        forall|i: int| #[trigger] bit_at(x & y, i) <==> bit_at(x, i) && bit_at(y, i),
{
    assert forall|i: int| #[trigger] bit_at(x & y, i) <==> bit_at(x, i) && bit_at(y, i) by {
        if 0 <= i < 64 {
            let j = i as u64;
            assert((((x & y) >> j) & 1 == 1) <==> ((x >> j) & 1 == 1 && (y >> j) & 1 == 1))
                by (bit_vector);
        }
    }
}

/// Bit `i` of `x >> d` is bit `i + d` of `x`.
pub proof fn lemma_bit_shr(x: u64, d: u64)
    requires
        d < 64,
    ensures
        forall|i: int| 0 <= i ==> (#[trigger] bit_at(x >> d, i) <==> bit_at(x, i + d)),
{
    assert forall|i: int| 0 <= i implies (#[trigger] bit_at(x >> d, i) <==> bit_at(x, i + d)) by {
        if i < 64 {
            let j = i as u64;
            if i + d < 64 {
                let k = (i + d) as u64;
                assert((((x >> d) >> j) & 1 == 1) <==> ((x >> k) & 1 == 1)) by (bit_vector)
                    requires
                        d < 64,
                        j < 64,
                        k == j + d,
                ;
            } else {
                assert(((x >> d) >> j) & 1 == 0) by (bit_vector)
                    requires
                        d < 64,
                        j < 64,
                        j + d >= 64,
                ;
            }
        }
    }
}

/// A mask is nonzero exactly when one of its bits is set.
pub proof fn lemma_nonzero_has_bit(x: u64)
    ensures
        x != 0 <==> exists|i: int| bit_at(x, i),
{
    if x != 0 {
        vstd::std_specs::bits::axiom_u64_trailing_zeros(x);
        let t = vstd::std_specs::bits::u64_trailing_zeros(x);
        assert(bit_at(x, t as int));
    } else {
        lemma_bit_zero();
    }
}

/// Two masks with the same bits are the same mask.
pub proof fn lemma_bits_equal(x: u64, y: u64)
    requires
        forall|i: int| 0 <= i < 64 ==> (bit_at(x, i) <==> bit_at(y, i)),
    ensures
        x == y,
{
    let diff = x ^ y;
    lemma_nonzero_has_bit(diff);
    if diff != 0 {
        let i = choose|i: int| bit_at(diff, i);
        let k = i as u64;
        assert(((x ^ y) >> k) & 1 == 1 ==> (((x >> k) & 1 == 1) != ((y >> k) & 1 == 1)))
            by (bit_vector);
        assert(bit_at(x, i) != bit_at(y, i));
    }
    assert(x ^ y == 0 ==> x == y) by (bit_vector);
}

/// The mask with the single bit of cell `(col, row)` set.
pub fn bit_for(col: usize, row: usize) -> (b: u64)
    requires
        col * 7 + row < 64,
    ensures
        b == 1u64 << ((col * 7 + row) as u64),
        forall|i: int| #[trigger] bit_at(b, i) <==> i == cell_index(col as int, row as int),
{
    proof {
        lemma_bit_single((col * 7 + row) as u64);
    }
    1u64 << (col * COL_HEIGHT + row)
}

} // verus!
