use vstd::prelude::*;

use crate::action::{Action, Move, ValidMoves};
use crate::constant::{MOVE_LEN, N};
use crate::othello_board::{dir_dx, dir_dy, in_bounds, row_diff, rows_diff, OthelloBoard};
use crate::player::Player;

verus! {

/// Whether action `a` is allowed for color `c`: the legal squares, or the pass alone when
/// there is none.
pub open spec fn valid_action(board: OthelloBoard, c: int, a: int) -> bool {
    if board.has_move(c) {
        0 <= a < N * N && board.is_legal(a / N as int, a % N as int, c)
    } else {
        a == N * N
    }
}

/// The outcome for color `c`: `0` while either side can move; else `1` when `c` has more
/// stones, `-1` when fewer, and on a tie `1` for the first player and `-1` for the second.
pub open spec fn game_result(board: OthelloBoard, c: int) -> int {
    if board.has_move(c) || board.has_move(-c) {
        0
    } else if board.spec_count_diff(c as i32) > 0 {
        1
    } else if board.spec_count_diff(c as i32) == 0 {
        if c == 1 {
            1
        } else {
            -1
        }
    } else {
        -1
    }
}

/// Applies `action` for `player`: nothing for the pass, else the move.
pub fn get_next_state(board: &mut OthelloBoard, player: Player, action: Action)
    requires
        old(board).wf(),
        player.wf(),
        action.wf(),
        !action.spec_is_pass() ==> old(board).closes_run(
            (action.0 / N) as int,
            (action.0 % N) as int,
            player.0 as int,
            8,
        ),
    ensures
        final(board).wf(),
        action.spec_is_pass() ==> *final(board) == *old(board),
        !action.spec_is_pass() ==> forall|i: int, j: int|
            in_bounds(i, j) ==> #[trigger] final(board).cell(i, j) == old(board).cell_after_move(
                (action.0 / N) as int,
                (action.0 % N) as int,
                player.0 as int,
                i,
                j,
            ),
{
    if action.is_pass() {
        return;
    }
    board.execute_move(action.to_move(), player);
}

/// The mask of the actions allowed for `player`: its legal squares, or only the pass when
/// it has none.
pub fn get_valid_moves(board: &OthelloBoard, player: Player) -> (r: ValidMoves)
    requires
        board.wf(),
        player.wf(),
    ensures
        forall|a: int|
            0 <= a < MOVE_LEN ==> #[trigger] r.actions@[a] == valid_action(
                *board,
                player.0 as int,
                a,
            ),
{
    let mut valids = ValidMoves::new();
    let legal_moves = board.get_legal_moves(player);
    if legal_moves.len() == 0 {
        assert forall|x: int, y: int| !#[trigger] board.is_legal(x, y, player.0 as int) by {
            if board.is_legal(x, y, player.0 as int) {
                assert(legal_moves@.contains(Move(x as usize, y as usize)));
            }
        }
        *valids.pass() = true;
        return valids;
    }
    assert(board.is_legal(legal_moves@[0].0 as int, legal_moves@[0].1 as int, player.0 as int));
    let mut k: usize = 0;
    while k < legal_moves.len()
        invariant
            k <= legal_moves@.len(),
            forall|i: int|
                0 <= i < legal_moves@.len() ==> legal_moves@[i].wf() && board.is_legal(
                    #[trigger] legal_moves@[i].0 as int,
                    legal_moves@[i].1 as int,
                    player.0 as int,
                ),
            forall|a: int|
                0 <= a < MOVE_LEN ==> #[trigger] valids.actions@[a] == (exists|i: int|
                    0 <= i < k && #[trigger] legal_moves@[i].0 * N + legal_moves@[i].1 == a),
        decreases legal_moves.len() - k,
    {
        let m = legal_moves[k];
        *valids.sq(m.x(), m.y()) = true;
        k += 1;
        assert forall|a: int| 0 <= a < MOVE_LEN implies #[trigger] valids.actions@[a] == (exists|
            i: int,
        | 0 <= i < k && #[trigger] legal_moves@[i].0 * N + legal_moves@[i].1 == a) by {
            if a == m.0 * N + m.1 {
                assert(legal_moves@[k - 1].0 * N + legal_moves@[k - 1].1 == a);
            }
        }
    }
    assert forall|a: int| 0 <= a < MOVE_LEN implies #[trigger] valids.actions@[a] == valid_action(
        *board,
        player.0 as int,
        a,
    ) by {
        if 0 <= a < N * N && board.is_legal(a / N as int, a % N as int, player.0 as int) {
            assert(legal_moves@.contains(Move((a / N as int) as usize, (a % N as int) as usize)));
            let i = choose|i: int|
                0 <= i < legal_moves@.len() && legal_moves@[i] == Move(
                    (a / N as int) as usize,
                    (a % N as int) as usize,
                );
            assert(legal_moves@[i].0 * N + legal_moves@[i].1 == a);
        }
        if valids.actions@[a] {
            let i = choose|i: int|
                0 <= i < k && #[trigger] legal_moves@[i].0 * N + legal_moves@[i].1 == a;
            assert(board.is_legal(legal_moves@[i].0 as int, legal_moves@[i].1 as int, player.0 as int));
        }
    }
    valids
}

/// The outcome of the game for `player`; see `game_result`.
pub fn get_game_ended(board: &OthelloBoard, player: Player) -> (r: i32)
    requires
        board.wf(),
        player.wf(),
    ensures
        r as int == game_result(*board, player.0 as int),
{
    if board.has_legal_moves(player) {
        return 0;
    }
    if board.has_legal_moves(player.other()) {
        return 0;
    }
    let diff = board.count_diff(player);
    if 0 < diff {
        1
    } else if diff == 0 {
        if player.0 == 1 {
            1
        } else {
            -1
        }
    } else {
        -1
    }
}

} // verus!

verus! {

/// The color that `e` stands for on the view of color `c`.
pub open spec fn view_color(e: int, c: int) -> int {
    if c == -1 {
        -e
    } else {
        e
    }
}

/// Probing the view of color `c` for color `e` is probing the board for what `e` stands for.
proof fn lemma_run_len_canonical(
    b: OthelloBoard,
    cb: OthelloBoard,
    c: i32,
    e: int,
    x: int,
    y: int,
    dx: int,
    dy: int,
    fuel: nat,
)
    requires
        c == 1 || c == -1,
        e == 1 || e == -1,
        cb.is_canonical_of(b, c),
    ensures
        cb.run_len(x, y, dx, dy, e, fuel) == b.run_len(x, y, dx, dy, view_color(e, c as int), fuel),
    decreases fuel,
{
    if fuel > 0 {
        lemma_run_len_canonical(b, cb, c, e, x + dx, y + dy, dx, dy, (fuel - 1) as nat);
        if in_bounds(x, y) {
            assert(cb.cell(x, y) == if c == -1 {
                -b.cell(x, y)
            } else {
                b.cell(x, y)
            });
        }
    }
}

/// The same runs close for `e` on the view of color `c` as for what `e` stands for on the
/// board.
proof fn lemma_closes_run_canonical(
    b: OthelloBoard,
    cb: OthelloBoard,
    c: i32,
    e: int,
    x: int,
    y: int,
    dlim: int,
)
    requires
        c == 1 || c == -1,
        e == 1 || e == -1,
        cb.is_canonical_of(b, c),
    ensures
        cb.closes_run(x, y, e, dlim) == b.closes_run(x, y, view_color(e, c as int), dlim),
    decreases dlim,
{
    if dlim > 0 {
        lemma_closes_run_canonical(b, cb, c, e, x, y, dlim - 1);
        let d = dlim - 1;
        lemma_run_len_canonical(
            b,
            cb,
            c,
            e,
            x + dir_dx(d),
            y + dir_dy(d),
            dir_dx(d),
            dir_dy(d),
            N as nat,
        );
    }
}

/// The legal squares of `e` on the view of color `c` are those of what `e` stands for.
proof fn lemma_is_legal_canonical(b: OthelloBoard, cb: OthelloBoard, c: i32, e: int, x: int, y: int)
    requires
        c == 1 || c == -1,
        e == 1 || e == -1,
        cb.is_canonical_of(b, c),
    ensures
        cb.is_legal(x, y, e) == b.is_legal(x, y, view_color(e, c as int)),
{
    lemma_closes_run_canonical(b, cb, c, e, x, y, 8);
    if in_bounds(x, y) {
        assert(cb.cell(x, y) == if c == -1 {
            -b.cell(x, y)
        } else {
            b.cell(x, y)
        });
    }
}

/// `e` can move on the view of color `c` exactly when what it stands for can on the board.
proof fn lemma_has_move_canonical(b: OthelloBoard, cb: OthelloBoard, c: i32, e: int)
    requires
        c == 1 || c == -1,
        e == 1 || e == -1,
        cb.is_canonical_of(b, c),
    ensures
        cb.has_move(e) == b.has_move(view_color(e, c as int)),
{
    if cb.has_move(e) {
        let (x, y) = choose|x: int, y: int| #[trigger] cb.is_legal(x, y, e);
        lemma_is_legal_canonical(b, cb, c, e, x, y);
        assert(b.is_legal(x, y, view_color(e, c as int)));
    }
    if b.has_move(view_color(e, c as int)) {
        let (x, y) = choose|x: int, y: int| #[trigger] b.is_legal(x, y, view_color(e, c as int));
        lemma_is_legal_canonical(b, cb, c, e, x, y);
        assert(cb.is_legal(x, y, e));
    }
}

/// The actions allowed to `player` on a board are those allowed to the first player on
/// `player`'s view of it.
pub proof fn lemma_valid_moves_canonical(b: OthelloBoard, cb: OthelloBoard, player: Player)
    requires
        player.wf(),
        cb.is_canonical_of(b, player.0),
    ensures
        cb.has_move(1) == b.has_move(player.0 as int),
        forall|a: int|
            0 <= a < MOVE_LEN ==> valid_action(cb, 1, a) == #[trigger] valid_action(
                b,
                player.0 as int,
                a,
            ),
{
    let c = player.0;
    lemma_has_move_canonical(b, cb, c, 1);
    assert forall|a: int| 0 <= a < MOVE_LEN implies valid_action(cb, 1, a) == #[trigger] valid_action(
        b,
        c as int,
        a,
    ) by {
        lemma_is_legal_canonical(b, cb, c, 1, a / N as int, a % N as int);
    }
}

/// The first `n` cells of row `x` score the same for the first player on the view of color
/// `c` as for `c` on the board.
proof fn lemma_row_diff_canonical(b: OthelloBoard, cb: OthelloBoard, c: i32, x: int, n: int)
    requires
        c == 1 || c == -1,
        cb.is_canonical_of(b, c),
        0 <= x < N,
        n <= N,
    ensures
        row_diff(cb.0@[x]@, 1, n) == row_diff(b.0@[x]@, c, n),
    decreases n,
{
    if n > 0 {
        lemma_row_diff_canonical(b, cb, c, x, n - 1);
        assert(cb.cell(x, n - 1) == if c == -1 {
            -b.cell(x, n - 1)
        } else {
            b.cell(x, n - 1)
        });
    }
}

/// The first `n` rows score the same for the first player on the view of color `c` as for
/// `c` on the board.
proof fn lemma_rows_diff_canonical(b: OthelloBoard, cb: OthelloBoard, c: i32, n: int)
    requires
        c == 1 || c == -1,
        cb.is_canonical_of(b, c),
        n <= N,
    ensures
        rows_diff(cb.0@, 1, n) == rows_diff(b.0@, c, n),
    decreases n,
{
    if n > 0 {
        lemma_rows_diff_canonical(b, cb, c, n - 1);
        lemma_row_diff_canonical(b, cb, c, n - 1, N as int);
    }
}

/// The outcome for the first player on `player`'s view of a board is `player`'s own
/// outcome, but for a tied final count with the second player to move: the view then
/// credits the tie to the player to move, the board to the first player.
pub proof fn lemma_game_result_canonical(b: OthelloBoard, cb: OthelloBoard, player: Player)
    requires
        player.wf(),
        cb.is_canonical_of(b, player.0),
    ensures
        game_result(cb, 1) == if player.0 == -1 && game_result(b, -1) != 0
            && b.spec_count_diff(-1i32) == 0 {
            1
        } else {
            game_result(b, player.0 as int)
        },
{
    let c = player.0;
    lemma_has_move_canonical(b, cb, c, 1);
    lemma_has_move_canonical(b, cb, c, -1);
    lemma_rows_diff_canonical(b, cb, c, N as int);
}

} // verus!
