//! The fixed maze drawn on screen: 31 rows of 101 cells.
//!
//! `'1'` is a wall, `'0'` an open cell, `'S'` the start and `'E'` the exit.

use vstd::prelude::*;
use vstd::string::StrSliceExecFns;

verus! {

/// Number of cells in a row.
pub const GRID_WIDTH: usize = 101;

/// Number of rows.
pub const GRID_HEIGHT: usize = 31;

/// The characters of row `y` (empty outside the grid).
pub open spec fn grid_row(y: int) -> Seq<char> {
    if y == 0 {
        "1111111111111111111111111111111111111111111E111111111111111111111111111111111111111111111111111111111"@
    } else if y == 1 {
        "1000101000101000100010000000101000001000000010000010000010000000001000001010000000100000000000000000S"@
    } else if y == 2 {
        "10101010101010111110111011101010101011101110111010101110101111111111111010111110101011111110111011111"@
    } else if y == 3 {
        "10101000101010000000100010100000101010000010101011111010101010100010000000100000100000100010101010001"@
    } else if y == 4 {
        "10111110101011111010111110101010101110111010000000000000001010101111111010111011111011111011101110101"@
    } else if y == 5 {
        "10001000101010101010001000001010101000001010101010101111001010000010001010001010001010100010001000101"@
    } else if y == 6 {
        "11101111101010101011111110111011111010101110101111101011011010111011101010111010111010101111101011111"@
    } else if y == 7 {
        "10001000000000000000000010001010000010101010100000011001010010101010001010000000001000100010100000001"@
    } else if y == 8 {
        "10111110111110111010111110111011111111101010101111101011001011101010101111101110111011111010111010111"@
    } else if y == 9 {
        "10100000100010100010001010101000001000100010001000000000001000100000101011101111110000001000100010001"@
    } else if y == 10 {
        "10111111101110101110111010101111111011101011111110101111011011111011101010101010001011101110111011111"@
    } else if y == 11 {
        "10100010001010100010000000100000001000101000001000100001000010000010001010000010000000000000000010101"@
    } else if y == 12 {
        "10101110111011101011111011111111101110111110101010101011001110111111111010111111101011011011101110101"@
    } else if y == 13 {
        "10100000001000001000100010100000001010000010101010101001000100000000000011101000101001010000100000101"@
    } else if y == 14 {
        "10101111101111101111111010111111101010101111101011111111010101101011110110101110111001011110111110101"@
    } else if y == 15 {
        "10000010000010000010001000001010001000101000001010000000011100100010100000100010000011000010001000001"@
    } else if y == 16 {
        "11101111111010111010111011111011101011101110101111111110000001111010010011101110111001011010111111111"@
    } else if y == 17 {
        "10101000000010100000001000000010001010100000100010100000110000101110010110001000001011010000000000101"@
    } else if y == 18 {
        "10111111111011111010101110101111101010101011101110101111101011101010010110111111111111010111111010101"@
    } else if y == 19 {
        "10000010101010000010101000100000001010001000101000100000100010100000000110101010001011010000001010001"@
    } else if y == 20 {
        "10101110101011111110111110101110111111111111111110111011111010111110110110101010101011010011111011101"@
    } else if y == 21 {
        "10101010000000001000101000101000100000000000001000100010000010001000110110101011101011000000100010001"@
    } else if y == 22 {
        "10111010111010101011101010101111101010101110101011111111101111101010100000000000000000011010101111111"@
    } else if y == 23 {
        "10100010101010100000100010101000001010101010101000100010001000001010101111101110101010101010000000001"@
    } else if y == 24 {
        "10101111101110111111111010111111101110111010111010101110111011101111100010111110101010110011101011101"@
    } else if y == 25 {
        "10001000100010100000001010100000000010101010100010101000001010101000101000100000100010000010101000101"@
    } else if y == 26 {
        "10111011101111111010111011111110101110101010111010101110101110101110101111111111111011111110111110111"@
    } else if y == 27 {
        "10000000100010000010000010000000101000001010001010000010100010000010000010001000001000100000000000001"@
    } else if y == 28 {
        "10101111101111101110111010111111111011101011101110111111101111101110101111101110101111111011101011101"@
    } else if y == 29 {
        "10100000100000101000101010000010101010101000100010000000001010000010101000000010100000001010001010001"@
    } else if y == 30 {
        "11111111111111111111111111111111111111111111111111111111111111111111111111111111111111111111111111111"@
    } else {
        Seq::empty()
    }
}

/// The character at column `x` of row `y`.
pub open spec fn grid_char(x: int, y: int) -> char {
    grid_row(y)[x]
}

/// Row `y` as a string slice.
fn grid_line(y: usize) -> (line: &'static str)
    requires
        y < GRID_HEIGHT,
    ensures
        line@ == grid_row(y as int),
{
    if y == 0 {
        "1111111111111111111111111111111111111111111E111111111111111111111111111111111111111111111111111111111"
    } else if y == 1 {
        "1000101000101000100010000000101000001000000010000010000010000000001000001010000000100000000000000000S"
    } else if y == 2 {
        "10101010101010111110111011101010101011101110111010101110101111111111111010111110101011111110111011111"
    } else if y == 3 {
        "10101000101010000000100010100000101010000010101011111010101010100010000000100000100000100010101010001"
    } else if y == 4 {
        "10111110101011111010111110101010101110111010000000000000001010101111111010111011111011111011101110101"
    } else if y == 5 {
        "10001000101010101010001000001010101000001010101010101111001010000010001010001010001010100010001000101"
    } else if y == 6 {
        "11101111101010101011111110111011111010101110101111101011011010111011101010111010111010101111101011111"
    } else if y == 7 {
        "10001000000000000000000010001010000010101010100000011001010010101010001010000000001000100010100000001"
    } else if y == 8 {
        "10111110111110111010111110111011111111101010101111101011001011101010101111101110111011111010111010111"
    } else if y == 9 {
        "10100000100010100010001010101000001000100010001000000000001000100000101011101111110000001000100010001"
    } else if y == 10 {
        "10111111101110101110111010101111111011101011111110101111011011111011101010101010001011101110111011111"
    } else if y == 11 {
        "10100010001010100010000000100000001000101000001000100001000010000010001010000010000000000000000010101"
    } else if y == 12 {
        "10101110111011101011111011111111101110111110101010101011001110111111111010111111101011011011101110101"
    } else if y == 13 {
        "10100000001000001000100010100000001010000010101010101001000100000000000011101000101001010000100000101"
    } else if y == 14 {
        "10101111101111101111111010111111101010101111101011111111010101101011110110101110111001011110111110101"
    } else if y == 15 {
        "10000010000010000010001000001010001000101000001010000000011100100010100000100010000011000010001000001"
    } else if y == 16 {
        "11101111111010111010111011111011101011101110101111111110000001111010010011101110111001011010111111111"
    } else if y == 17 {
        "10101000000010100000001000000010001010100000100010100000110000101110010110001000001011010000000000101"
    } else if y == 18 {
        "10111111111011111010101110101111101010101011101110101111101011101010010110111111111111010111111010101"
    } else if y == 19 {
        "10000010101010000010101000100000001010001000101000100000100010100000000110101010001011010000001010001"
    } else if y == 20 {
        "10101110101011111110111110101110111111111111111110111011111010111110110110101010101011010011111011101"
    } else if y == 21 {
        "10101010000000001000101000101000100000000000001000100010000010001000110110101011101011000000100010001"
    } else if y == 22 {
        "10111010111010101011101010101111101010101110101011111111101111101010100000000000000000011010101111111"
    } else if y == 23 {
        "10100010101010100000100010101000001010101010101000100010001000001010101111101110101010101010000000001"
    } else if y == 24 {
        "10101111101110111111111010111111101110111010111010101110111011101111100010111110101010110011101011101"
    } else if y == 25 {
        "10001000100010100000001010100000000010101010100010101000001010101000101000100000100010000010101000101"
    } else if y == 26 {
        "10111011101111111010111011111110101110101010111010101110101110101110101111111111111011111110111110111"
    } else if y == 27 {
        "10000000100010000010000010000000101000001010001010000010100010000010000010001000001000100000000000001"
    } else if y == 28 {
        "10101111101111101110111010111111111011101011101110111111101111101110101111101110101111111011101011101"
    } else if y == 29 {
        "10100000100000101000101010000010101010101000100010000000001010000010101000000010100000001010001010001"
    } else {
        "11111111111111111111111111111111111111111111111111111111111111111111111111111111111111111111111111111"
    }
}

/// Every row has `GRID_WIDTH` cells, and the bottom row is wall from end to end.
pub proof fn lemma_grid_shape()
    ensures
        forall|y: int| 0 <= y < GRID_HEIGHT ==> #[trigger] grid_row(y).len() == GRID_WIDTH,
        forall|x: int| 0 <= x < GRID_WIDTH ==> #[trigger] grid_char(x, 30) == '1',
        grid_char(43, 0) == 'E',
        grid_char(100, 1) == 'S',
{
    reveal_strlit("1111111111111111111111111111111111111111111E111111111111111111111111111111111111111111111111111111111");
    reveal_strlit("1000101000101000100010000000101000001000000010000010000010000000001000001010000000100000000000000000S");
    reveal_strlit("10101010101010111110111011101010101011101110111010101110101111111111111010111110101011111110111011111");
    reveal_strlit("10101000101010000000100010100000101010000010101011111010101010100010000000100000100000100010101010001");
    reveal_strlit("10111110101011111010111110101010101110111010000000000000001010101111111010111011111011111011101110101");
    reveal_strlit("10001000101010101010001000001010101000001010101010101111001010000010001010001010001010100010001000101");
    reveal_strlit("11101111101010101011111110111011111010101110101111101011011010111011101010111010111010101111101011111");
    reveal_strlit("10001000000000000000000010001010000010101010100000011001010010101010001010000000001000100010100000001");
    reveal_strlit("10111110111110111010111110111011111111101010101111101011001011101010101111101110111011111010111010111");
    reveal_strlit("10100000100010100010001010101000001000100010001000000000001000100000101011101111110000001000100010001");
    reveal_strlit("10111111101110101110111010101111111011101011111110101111011011111011101010101010001011101110111011111");
    reveal_strlit("10100010001010100010000000100000001000101000001000100001000010000010001010000010000000000000000010101");
    reveal_strlit("10101110111011101011111011111111101110111110101010101011001110111111111010111111101011011011101110101");
    reveal_strlit("10100000001000001000100010100000001010000010101010101001000100000000000011101000101001010000100000101");
    reveal_strlit("10101111101111101111111010111111101010101111101011111111010101101011110110101110111001011110111110101");
    reveal_strlit("10000010000010000010001000001010001000101000001010000000011100100010100000100010000011000010001000001");
    reveal_strlit("11101111111010111010111011111011101011101110101111111110000001111010010011101110111001011010111111111");
    reveal_strlit("10101000000010100000001000000010001010100000100010100000110000101110010110001000001011010000000000101");
    reveal_strlit("10111111111011111010101110101111101010101011101110101111101011101010010110111111111111010111111010101");
    reveal_strlit("10000010101010000010101000100000001010001000101000100000100010100000000110101010001011010000001010001");
    reveal_strlit("10101110101011111110111110101110111111111111111110111011111010111110110110101010101011010011111011101");
    reveal_strlit("10101010000000001000101000101000100000000000001000100010000010001000110110101011101011000000100010001");
    reveal_strlit("10111010111010101011101010101111101010101110101011111111101111101010100000000000000000011010101111111");
    reveal_strlit("10100010101010100000100010101000001010101010101000100010001000001010101111101110101010101010000000001");
    reveal_strlit("10101111101110111111111010111111101110111010111010101110111011101111100010111110101010110011101011101");
    reveal_strlit("10001000100010100000001010100000000010101010100010101000001010101000101000100000100010000010101000101");
    reveal_strlit("10111011101111111010111011111110101110101010111010101110101110101110101111111111111011111110111110111");
    reveal_strlit("10000000100010000010000010000000101000001010001010000010100010000010000010001000001000100000000000001");
    reveal_strlit("10101111101111101110111010111111111011101011101110111111101111101110101111101110101111111011101011101");
    reveal_strlit("10100000100000101000101010000010101010101000100010000000001010000010101000000010100000001010001010001");
    reveal_strlit("11111111111111111111111111111111111111111111111111111111111111111111111111111111111111111111111111111");
}

/// The character at column `x` of row `y`.
pub fn grid_cell(x: usize, y: usize) -> (c: char)
    requires
        x < GRID_WIDTH,
        y < GRID_HEIGHT,
    ensures
        c == grid_char(x as int, y as int),
{
    proof {
        lemma_grid_shape();
    }
    grid_line(y).get_char(x)
}

} // verus!
