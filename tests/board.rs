use othello_mcts::action::{Action, Move, ValidMoves};
use othello_mcts::constant::{MOVE_LEN, N};
use othello_mcts::othello_board::{direction, OthelloBoard};
use othello_mcts::othello_game::{get_game_ended, get_next_state, get_valid_moves};
use othello_mcts::player::Player;

fn board_from(rows: [[i32; 6]; 6]) -> OthelloBoard {
    OthelloBoard(rows)
}

#[test]
fn initial_board_cells() {
    let b = OthelloBoard::initial_board();
    assert_eq!(b.0[2][3], 1);
    assert_eq!(b.0[3][2], 1);
    assert_eq!(b.0[2][2], -1);
    assert_eq!(b.0[3][3], -1);
    let mut stones = 0;
    for x in 0..N {
        for y in 0..N {
            if b.0[x][y] != 0 {
                stones += 1;
            }
        }
    }
    assert_eq!(stones, 4);
    assert_eq!(b.count_diff(Player::player1()), 0);
    assert_eq!(b.count_diff(Player::player2()), 0);
}

#[test]
fn empty_board_is_all_zero() {
    let b = OthelloBoard::new();
    assert_eq!(b.0, [[0; 6]; 6]);
}

#[test]
fn opening_legal_moves_for_player1() {
    let b = OthelloBoard::initial_board();
    let mut moves: Vec<(usize, usize)> = b
        .get_legal_moves(Player::player1())
        .iter()
        .map(|m| (m.x(), m.y()))
        .collect();
    moves.sort();
    assert_eq!(moves, vec![(1, 2), (2, 1), (3, 4), (4, 3)]);
    let v = get_valid_moves(&b, Player::player1());
    for a in 0..MOVE_LEN {
        let expected = a == 8 || a == 13 || a == 22 || a == 27;
        assert_eq!(v.actions[a], expected, "action {}", a);
    }
    assert!(!v.actions[36]);
    assert!(b.has_legal_moves(Player::player1()));
}

#[test]
fn opening_legal_moves_for_player2() {
    let b = OthelloBoard::initial_board();
    let mut moves: Vec<(usize, usize)> = b
        .get_legal_moves(Player::player2())
        .iter()
        .map(|m| (m.x(), m.y()))
        .collect();
    moves.sort();
    assert_eq!(moves, vec![(1, 3), (2, 4), (3, 1), (4, 2)]);
}

#[test]
fn execute_opening_move() {
    let mut b = OthelloBoard::initial_board();
    let before = b;
    b.execute_move(Move::new(1, 2), Player::player1());
    assert_eq!(b.0[1][2], 1);
    assert_eq!(b.0[2][2], 1);
    assert_eq!(b.0[2][3], 1);
    assert_eq!(b.0[3][2], 1);
    assert_eq!(b.0[3][3], -1);
    for x in 0..N {
        for y in 0..N {
            if (x, y) != (1, 2) && (x, y) != (2, 2) {
                assert_eq!(b.0[x][y], before.0[x][y]);
            }
        }
    }
    assert_eq!(b.count_diff(Player::player1()), 3);
}

#[test]
fn execute_move_flips_all_directions() {
    // Black on (0, 0), (0, 4), (4, 0), (4, 4); white between them and (2, 2).
    let mut b = board_from([
        [1, 0, 0, 0, 1, 0],
        [0, -1, 0, -1, 0, 0],
        [1, -1, 0, -1, 1, 0],
        [0, -1, 0, -1, 0, 0],
        [1, 0, 0, 0, 1, 0],
        [0, 0, 0, 0, 0, 0],
    ]);
    b.execute_move(Move::new(2, 2), Player::player1());
    let expected = [
        [1, 0, 0, 0, 1, 0],
        [0, 1, 0, 1, 0, 0],
        [1, 1, 1, 1, 1, 0],
        [0, 1, 0, 1, 0, 0],
        [1, 0, 0, 0, 1, 0],
        [0, 0, 0, 0, 0, 0],
    ];
    assert_eq!(b.0, expected);
}

#[test]
fn discover_move_counts_run() {
    let b = board_from([
        [0, -1, -1, -1, 1, 0],
        [0, 0, 0, 0, 0, 0],
        [0, 0, 0, 0, 0, 0],
        [0, 0, 0, 0, 0, 0],
        [0, 0, 0, 0, 0, 0],
        [0, 0, 0, 0, 0, 0],
    ]);
    // Direction 7 is (0, 1).
    assert_eq!(direction(7), (0, 1));
    assert_eq!(b.discover_move(Move::new(0, 0), 7, Player::player1()), 3);
    assert_eq!(b.discover_move(Move::new(0, 0), 1, Player::player1()), 0);
    // No own stone closes the run for the second player.
    assert_eq!(b.discover_move(Move::new(0, 0), 7, Player::player2()), 0);
    assert!(b.get_moves_for_square(Move::new(0, 0), Player::player1()));
    assert!(!b.get_moves_for_square(Move::new(1, 0), Player::player1()));
}

#[test]
fn probe_stops_at_edge() {
    let b = board_from([
        [0, -1, -1, -1, -1, -1],
        [0, 0, 0, 0, 0, 0],
        [0, 0, 0, 0, 0, 0],
        [0, 0, 0, 0, 0, 0],
        [0, 0, 0, 0, 0, 0],
        [0, 0, 0, 0, 0, 0],
    ]);
    assert_eq!(b.discover_move(Move::new(0, 0), 7, Player::player1()), 0);
    assert!(!b.has_legal_moves(Player::player1()));
}

#[test]
fn hash_of_initial_board() {
    let b = OthelloBoard::initial_board();
    assert_eq!(b.string_representation(), 9897215262720u128);
    assert_eq!(OthelloBoard::new().string_representation(), 0);
}

fn decode(h: u128) -> [[i32; 6]; 6] {
    let mut cells = [[0; 6]; 6];
    for x in 0..N {
        for y in 0..N {
            let code = (h >> ((x * N + y) * 2)) & 3;
            cells[x][y] = if code == 2 { -1 } else { code as i32 };
        }
    }
    cells
}

#[test]
fn hash_round_trip() {
    let mut b = OthelloBoard::initial_board();
    assert_eq!(decode(b.string_representation()), b.0);
    b.execute_move(Move::new(1, 2), Player::player1());
    assert_eq!(decode(b.string_representation()), b.0);
    let full = board_from([[-1; 6]; 6]);
    assert_eq!(decode(full.string_representation()), full.0);
    assert_ne!(b.string_representation(), OthelloBoard::initial_board().string_representation());
}

#[test]
fn canonical_is_involution() {
    let mut b = OthelloBoard::initial_board();
    b.execute_move(Move::new(1, 2), Player::player1());
    let c = b.create_canonical_board(Player::player2());
    assert_eq!(c.0[1][2], -1);
    assert_eq!(c.0[3][3], 1);
    assert_eq!(c.create_canonical_board(Player::player2()), b);
    assert_eq!(b.create_canonical_board(Player::player1()), b);
    let mut d = b;
    d.canonical_form(Player::player2());
    assert_eq!(d, c);
}

#[test]
fn valid_moves_match_canonical_view() {
    let mut b = OthelloBoard::initial_board();
    b.execute_move(Move::new(1, 2), Player::player1());
    let white = Player::player2();
    let direct = get_valid_moves(&b, white);
    let canonical = get_valid_moves(&b.create_canonical_board(white), Player::player1());
    assert_eq!(direct.actions, canonical.actions);
    assert!(direct.actions.iter().any(|&v| v));
}

#[test]
fn no_move_gives_only_pass() {
    // White has no move: every empty square is cut off from black runs.
    let b = board_from([
        [1, 1, 1, 1, 1, 1],
        [1, 1, 1, 1, 1, 1],
        [1, 1, 1, 1, 1, 1],
        [1, 1, 1, 1, -1, 0],
        [1, 1, 1, 1, 1, 1],
        [1, 1, 1, 1, 1, 1],
    ]);
    let white = Player::player2();
    assert!(!b.has_legal_moves(white));
    assert!(b.has_legal_moves(Player::player1()));
    let v = get_valid_moves(&b, white);
    for a in 0..36 {
        assert!(!v.actions[a]);
    }
    assert!(v.actions[36]);
    let mut after = b;
    get_next_state(&mut after, white, Action::new(36));
    assert_eq!(after, b);
    assert_eq!(get_game_ended(&b, white), 0);
}

#[test]
fn apply_action_plays_square() {
    let mut b = OthelloBoard::initial_board();
    get_next_state(&mut b, Player::player1(), Action::new(8));
    assert_eq!(b.0[1][2], 1);
    assert_eq!(b.0[2][2], 1);
}

#[test]
fn terminal_tie_break() {
    let b = board_from([
        [1, 1, 1, 1, 1, 1],
        [1, 1, 1, 1, 1, 1],
        [1, 1, 1, 1, 1, 1],
        [-1, -1, -1, -1, -1, -1],
        [-1, -1, -1, -1, -1, -1],
        [-1, -1, -1, -1, -1, -1],
    ]);
    assert_eq!(b.count_diff(Player::player1()), 0);
    assert_eq!(get_game_ended(&b, Player::player1()), 1);
    assert_eq!(get_game_ended(&b, Player::player2()), -1);
}

#[test]
fn terminal_win_and_loss() {
    let mut rows = [[1; 6]; 6];
    rows[5][5] = -1;
    let b = board_from(rows);
    assert_eq!(b.count_diff(Player::player1()), 34);
    assert_eq!(b.count_diff(Player::player2()), -34);
    assert_eq!(get_game_ended(&b, Player::player1()), 1);
    assert_eq!(get_game_ended(&b, Player::player2()), -1);
    let w = board_from([[-1; 6]; 6]);
    assert_eq!(get_game_ended(&w, Player::player1()), -1);
    assert_eq!(get_game_ended(&w, Player::player2()), 1);
}

#[test]
fn game_not_ended_at_start() {
    let b = OthelloBoard::initial_board();
    assert_eq!(get_game_ended(&b, Player::player1()), 0);
    assert_eq!(get_game_ended(&b, Player::player2()), 0);
}

#[test]
fn actions_and_moves() {
    let a = Action::new(14);
    assert!(!a.is_pass());
    assert_eq!(a._val(), 14);
    let m = a.to_move();
    assert_eq!((m.x(), m.y()), (2, 2));
    assert_eq!(m._to_action()._val(), 14);
    assert!(Action::new(36).is_pass());
    assert_eq!(Move::new(5, 4)._to_action()._val(), 34);
}

#[test]
fn valid_moves_flags() {
    let mut v = ValidMoves::new();
    assert_eq!(v.len(), MOVE_LEN);
    assert!(v.actions.iter().all(|&f| !f));
    *v.pass() = true;
    *v.sq(2, 3) = true;
    assert!(v.actions[36]);
    assert!(v.actions[15]);
    assert!(v.get(15));
    assert_eq!(v.actions.iter().filter(|&&f| f).count(), 2);
}

#[test]
fn players() {
    let black = Player::player1();
    let white = Player::player2();
    assert_eq!(black.color(), 1);
    assert_eq!(white.color(), -1);
    assert_eq!(black.other(), white);
    assert_eq!(white.other(), black);
}

#[test]
fn canonical_outcome_credits_tie_to_mover() {
    let b = board_from([
        [1, 1, 1, 1, 1, 1],
        [1, 1, 1, 1, 1, 1],
        [1, 1, 1, 1, 1, 1],
        [-1, -1, -1, -1, -1, -1],
        [-1, -1, -1, -1, -1, -1],
        [-1, -1, -1, -1, -1, -1],
    ]);
    let white = Player::player2();
    let view = b.create_canonical_board(white);
    assert_eq!(get_game_ended(&view, Player::player1()), 1);
    assert_eq!(get_game_ended(&b, white), -1);
    // Without a tie the view agrees with the board.
    let mut rows = [[-1; 6]; 6];
    rows[0][0] = 1;
    let w = board_from(rows);
    let view = w.create_canonical_board(white);
    assert_eq!(get_game_ended(&view, Player::player1()), get_game_ended(&w, white));
    assert_eq!(get_game_ended(&w, white), 1);
}
