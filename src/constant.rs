use vstd::prelude::*;

verus! {

/// Edge length of the square board.
pub const N: usize = 6;

/// Number of squares on the board.
pub const BOARD_SIZE: usize = 36;

/// Number of actions: one per square, plus the pass action.
pub const MOVE_LEN: usize = 37;

/// Number of self-play slots run side by side, and the width of a prediction batch.
pub const BATCH_SIZE: usize = 64;

} // verus!
