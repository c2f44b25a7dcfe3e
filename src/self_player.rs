use vstd::prelude::*;

use crate::constant::N;
use crate::othello_board::OthelloBoard;
use crate::player::Player;

verus! {

/// Whether a request of `player` passes the filter `int_player`: `0` passes every player,
/// `1` and `-1` only that color.
pub open spec fn spec_is_player(player: Player, int_player: isize) -> bool {
    int_player == 0 || int_player == player.0
}

pub fn is_player(player: &Player, int_player: isize) -> (r: bool)
    ensures
        r == spec_is_player(*player, int_player),
{
    int_player == 0 || int_player == player.0 as isize
}

/// What a self-play slot holds for the controller.
#[derive(Debug, Clone, Copy, PartialEq, Eq, Structural)]
pub enum SlotState {
    /// Nothing received yet.
    Empty,
    /// A board waits for a prediction by the predictor of the given thinking player.
    Board(Player),
    /// The slot's game is over and its training examples wait.
    Finished,
}

/// The slot waits for a prediction that passes the filter.
pub open spec fn is_ready(s: SlotState, filter: isize) -> bool {
    match s {
        SlotState::Board(p) => spec_is_player(p, filter),
        _ => false,
    }
}

/// The controller's advice once the slots are filled: `1` when some slot holds a board that
/// passes the filter (a batch can be formed); `2` when every slot has finished its game;
/// `0` otherwise.
pub fn prepare_state(slots: &Vec<SlotState>, filter: isize) -> (r: usize)
    ensures
        r <= 2,
        (r == 1) == exists|i: int| 0 <= i < slots@.len() && #[trigger] is_ready(slots@[i], filter),
        (r == 2) == forall|i: int| 0 <= i < slots@.len() ==> #[trigger] slots@[i] == SlotState::Finished,
{
    let mut all_training = true;
    let mut i: usize = 0;
    while i < slots.len()
        invariant
            i <= slots@.len(),
            forall|j: int| 0 <= j < i ==> !#[trigger] is_ready(slots@[j], filter),
            all_training == forall|j: int| 0 <= j < i ==> #[trigger] slots@[j] == SlotState::Finished,
        decreases slots@.len() - i,
    {
        match slots[i] {
            SlotState::Board(p) => {
                if is_player(&p, filter) {
                    assert(is_ready(slots@[i as int], filter));
                    return 1;
                }
                all_training = false;
            },
            SlotState::Finished => {},
            SlotState::Empty => {
                all_training = false;
            },
        }
        i += 1;
    }
    if all_training {
        2
    } else {
        0
    }
}

/// The cells of `board` in row-major order, as a batch row lays them out.
pub fn board_cells(board: &OthelloBoard) -> (r: Vec<i32>)
    ensures
        r@.len() == N * N,
        forall|i: int| 0 <= i < N * N ==> #[trigger] r@[i] as int == board.cell(i / N as int, i % N as int),
{
    let mut r: Vec<i32> = Vec::new();
    for x in 0..N
        invariant
            r@.len() == x * N,
            forall|i: int| 0 <= i < x * N ==> #[trigger] r@[i] as int == board.cell(i / N as int, i % N as int),
    {
        for y in 0..N
            invariant
                x < N,
                r@.len() == x * N + y,
                forall|i: int| 0 <= i < x * N + y ==> #[trigger] r@[i] as int == board.cell(i / N as int, i % N as int),
        {
            r.push(board.0[x][y]);
        }
    }
    r
}

} // verus!
