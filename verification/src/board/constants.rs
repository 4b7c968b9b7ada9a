//! Dimensions of the board.

use vstd::prelude::*;

verus! {

/// Number of files, and of ranks, of the board.
pub const BOARD_SIZE: u8 = 4;

/// Number of squares of the board.
pub const SQUARE_COUNT: usize = 16;

} // verus!
