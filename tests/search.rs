use othello_mcts::c_array::CArray;
use othello_mcts::constant::{BATCH_SIZE, MOVE_LEN};
use othello_mcts::mcts::{best_actions, cached_game_ended, example_result, Episode, get_best_action, uses_first_player_maps, BoardState, PlayerMode, Turn};
use othello_mcts::othello_board::OthelloBoard;
use othello_mcts::othello_game::{get_game_ended, get_valid_moves};
use othello_mcts::player::Player;
use othello_mcts::self_player::{board_cells, is_player, prepare_state, SlotState};
use othello_mcts::thread_id::ThreadID;

#[test]
fn main_test() {
    let mut hoge = CArray::<f32>::new3(3, 5, 5);
    hoge.set3(2, 2, 2, 10.0);
    assert_eq!(hoge.size(), &[3, 5, 5]);
    assert_eq!(hoge.get3(2, 2, 2), 10.0);
    assert_eq!(hoge.get3(1, 2, 2), 0.0);
    assert_eq!(hoge.as_ref().len(), 75);
    assert_eq!(hoge.as_ref()[2 * 25 + 2 * 5 + 2], 10.0);
}

#[test]
fn carray_one_and_two_dims() {
    let mut a = CArray::<f32>::new1(4);
    assert_eq!(a.dimension(), 1);
    assert_eq!(a.size0(), 4);
    a.set1(3, 2.5);
    assert_eq!(a.get1(3), 2.5);
    assert_eq!(a.get1(0), 0.0);

    let mut b = CArray::<i32>::new2(2, 3);
    assert_eq!(b.dimension(), 2);
    assert_eq!((b.size0(), b.size1()), (2, 3));
    b.set2(1, 2, 7);
    assert_eq!(b.get2(1, 2), 7);
    assert_eq!(b.as_ref(), &[0, 0, 0, 0, 0, 7]);
    assert_eq!(b.ref2(1), &[0, 0, 7]);
    b.ref_mut2(0).copy_from_slice(&[1, 2, 3]);
    assert_eq!(b.as_ref(), &[1, 2, 3, 0, 0, 7]);
    b.as_mut()[3] = 9;
    assert_eq!(b.get2(1, 0), 9);
}

#[test]
fn carray_three_dims() {
    let mut c = CArray::<i32>::new3(2, 2, 3);
    assert_eq!(c.size2(), 3);
    c.set3(1, 0, 2, 5);
    assert_eq!(c.as_ref()[1 * 6 + 0 * 3 + 2], 5);
    assert_eq!(c.ref3_1(1), &[0, 0, 5, 0, 0, 0]);
    assert_eq!(c.ref3_2(1, 0), &[0, 0, 5]);
    c.ref_mut3_2(0, 1).copy_from_slice(&[4, 4, 4]);
    assert_eq!(c.ref3_1(0), &[0, 0, 0, 4, 4, 4]);
    c.ref_mut3_1(1)[5] = 8;
    assert_eq!(c.get3(1, 1, 2), 8);
}

#[test]
fn best_actions_lists_ties_in_order() {
    let counts = vec![1, 4, 0, 4, 2, 4];
    assert_eq!(best_actions(&counts), vec![1, 3, 5]);
    assert_eq!(best_actions(&vec![0, 0, 0]), vec![0, 1, 2]);
    assert_eq!(best_actions(&vec![3, 9, 2]), vec![1]);
}

#[test]
fn greedy_action_is_most_visited() {
    let mut counts = vec![0usize; MOVE_LEN];
    counts[4] = 7;
    counts[9] = 3;
    for _ in 0..20 {
        assert_eq!(get_best_action(&counts), 4);
    }
    counts[30] = 7;
    let mut seen = [false; MOVE_LEN];
    for _ in 0..200 {
        let a = get_best_action(&counts);
        assert!(a == 4 || a == 30);
        seen[a] = true;
    }
    assert!(seen[4] && seen[30]);
}

#[test]
fn example_results_follow_player() {
    let black = Player::player1();
    let white = Player::player2();
    assert_eq!(example_result(1, black, black), 1);
    assert_eq!(example_result(1, white, black), -1);
    assert_eq!(example_result(-1, white, black), 1);
    assert_eq!(example_result(-1, white, white), -1);
}

#[test]
fn map_set_choice() {
    let black = Player::player1();
    let white = Player::player2();
    assert!(uses_first_player_maps(PlayerMode::_1Player, black));
    assert!(uses_first_player_maps(PlayerMode::_1Player, white));
    assert!(uses_first_player_maps(PlayerMode::_2Player, black));
    assert!(!uses_first_player_maps(PlayerMode::_2Player, white));
}

#[test]
fn small_types() {
    let s = BoardState::new(12, 5);
    assert_eq!((s.board, s.action), (12, 5));
    assert_eq!(Turn(3).next(), Turn(4));
    assert_eq!(ThreadID::new(7).id(), 7);
}

#[test]
fn player_filter() {
    let black = Player::player1();
    let white = Player::player2();
    assert!(is_player(&black, 0));
    assert!(is_player(&white, 0));
    assert!(is_player(&black, 1));
    assert!(!is_player(&black, -1));
    assert!(is_player(&white, -1));
    assert!(!is_player(&white, 1));
}

#[test]
fn prepare_state_outcomes() {
    let black = Player::player1();
    let white = Player::player2();
    let slots = vec![SlotState::Finished, SlotState::Board(white), SlotState::Board(black)];
    assert_eq!(prepare_state(&slots, 1), 1);
    assert_eq!(prepare_state(&slots, -1), 1);
    assert_eq!(prepare_state(&slots, 0), 1);
    let others = vec![SlotState::Finished, SlotState::Board(white)];
    assert_eq!(prepare_state(&others, 1), 0);
    let done = vec![SlotState::Finished; 4];
    assert_eq!(prepare_state(&done, 1), 2);
    assert_eq!(prepare_state(&done, 0), 2);
    let waiting = vec![SlotState::Empty, SlotState::Board(black)];
    assert_eq!(prepare_state(&waiting, 1), 1);
    assert_eq!(prepare_state(&waiting, -1), 0);
    assert_eq!(prepare_state(&vec![], 0), 2);
}

#[test]
fn board_cells_row_major() {
    let b = OthelloBoard::initial_board();
    let cells = board_cells(&b);
    assert_eq!(cells.len(), 36);
    assert_eq!(cells[14], -1);
    assert_eq!(cells[15], 1);
    assert_eq!(cells[20], 1);
    assert_eq!(cells[21], -1);
    assert_eq!(cells.iter().filter(|&&c| c != 0).count(), 4);
}

/// Plays four games with a uniform choice among the legal actions, as a predictor with a
/// uniform policy would lead to, and checks what the controller would hand on once every
/// game is over.
#[test]
fn self_play_with_uniform_policy() {
    let games = 4;
    let mut slots = vec![SlotState::Empty; games];
    let mut all_results = vec![];
    for g in 0..games {
        let mut episode = Episode::new();
        let results = loop {
            let (turn, exploring) = episode.begin_ply(15);
            assert_eq!(turn.0, episode.episode_step);
            assert_eq!(exploring, turn.0 <= 15);
            let canonical = episode.board.create_canonical_board(episode.cur_player);
            let valids = get_valid_moves(&canonical, Player::player1());
            let counts: Vec<usize> = valids.actions.iter().map(|&v| v as usize).collect();
            let a = get_best_action(&counts);
            assert!(valids.actions[a]);
            if let Some(results) = episode.finish_ply(a) {
                break results;
            }
            assert!(episode.episode_step < 200);
        };
        assert!(!results.is_empty());
        assert_eq!(results.len(), episode.episode_step);
        assert!(results[0].2 == 1 || results[0].2 == -1);
        for (k, r) in results.iter().enumerate() {
            assert_eq!((r.3).0, k + 1);
            let sign = if r.0 == episode.cur_player { 1 } else { -1 };
            let expected = sign * get_game_ended(&episode.board, episode.cur_player);
            assert_eq!(r.2, expected);
        }
        all_results.push(results);
        slots[g] = SlotState::Finished;
        if g + 1 < games {
            assert_eq!(prepare_state(&slots, 0), 0);
        }
    }
    assert_eq!(prepare_state(&slots, 0), 2);
    assert_eq!(all_results.len(), 4);
    assert!(BATCH_SIZE >= 4);
}

#[test]
fn episode_records_plies() {
    let mut e = Episode::new();
    assert_eq!(e.board, OthelloBoard::initial_board());
    assert_eq!(e.cur_player, Player::player1());
    let (turn, exploring) = e.begin_ply(1);
    assert_eq!(turn, Turn(1));
    assert!(exploring);
    assert!(e.finish_ply(8).is_none());
    assert_eq!(e.cur_player, Player::player2());
    assert_eq!(e.board.0[1][2], 1);
    assert_eq!(e.board.0[2][2], 1);
    let (turn, exploring) = e.begin_ply(1);
    assert_eq!(turn, Turn(2));
    assert!(!exploring);
    assert_eq!(e.history.len(), 2);
    // The second record is white's view: its own stones count as 1.
    assert_eq!(e.history[1].1 .0[1][2], -1);
    assert_eq!(e.history[1].1 .0[3][3], 1);
    assert_eq!(e.history[1].0, Player::player2());
}

#[test]
fn outcome_memo_remembers_boards() {
    let mut memo = std::collections::HashMap::new();
    let start = OthelloBoard::initial_board();
    assert_eq!(cached_game_ended(&mut memo, &start), 0);
    let tie = OthelloBoard([
        [1, 1, 1, 1, 1, 1],
        [1, 1, 1, 1, 1, 1],
        [1, 1, 1, 1, 1, 1],
        [-1, -1, -1, -1, -1, -1],
        [-1, -1, -1, -1, -1, -1],
        [-1, -1, -1, -1, -1, -1],
    ]);
    assert_eq!(cached_game_ended(&mut memo, &tie), 1);
    let lost = OthelloBoard([[-1; 6]; 6]);
    assert_eq!(cached_game_ended(&mut memo, &lost), -1);
    assert_eq!(memo.len(), 3);
    assert_eq!(memo.get(&tie.string_representation()), Some(&1));
    assert_eq!(cached_game_ended(&mut memo, &lost), -1);
    assert_eq!(memo.len(), 3);
}

#[test]
fn carray_empty_dimensions() {
    let a = CArray::<f32>::new2(0, 5);
    assert_eq!(a.as_ref().len(), 0);
    assert_eq!(a.size(), &[0, 5]);
    let b = CArray::<i32>::new3(2, 0, 4);
    assert_eq!(b.as_ref().len(), 0);
    assert_eq!(b.ref3_1(1).len(), 0);
    let c = CArray::<i32>::new1(0);
    assert_eq!(c.dimension(), 1);
    assert_eq!(c.as_ref().len(), 0);
}

#[test]
fn best_actions_single_entry() {
    assert_eq!(best_actions(&vec![0]), vec![0]);
    assert_eq!(get_best_action(&vec![5]), 0);
}
