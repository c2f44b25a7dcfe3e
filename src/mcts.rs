use vstd::prelude::*;

use std::collections::HashMap;

use crate::action::Action;
use crate::constant::{MOVE_LEN, N};
use crate::othello_board::{in_bounds, lemma_hash_round_trip, OthelloBoard};
use crate::othello_game::{game_result, get_game_ended, get_next_state};
use crate::player::Player;

verus! {

/// The key of an edge of the search tree: a board's key and an action.
#[derive(Debug, PartialEq, Eq, Hash, Clone)]
pub struct BoardState {
    pub board: u128,
    pub action: usize,
}

impl BoardState {
    pub fn new(board: u128, action: usize) -> (r: Self)
        ensures
            r.board == board,
            r.action == action,
    {
        Self { board, action }
    }
}

/// The ply of a game, counted from `1`.
#[derive(Debug, Clone, Copy, PartialEq, Eq, Structural)]
pub struct Turn(pub usize);

impl Turn {
    /// The following ply.
    pub fn next(&self) -> (r: Self)
        requires
            self.0 < usize::MAX,
        ensures
            r.0 == self.0 + 1,
    {
        Self(self.0 + 1)
    }
}

/// Whether the two players share one set of search maps or keep one each.
#[derive(Debug, PartialEq, Eq, Clone, Copy, Structural)]
pub enum PlayerMode {
    /// Each player thinks with its own maps, so that each may use its own predictor.
    _2Player,
    /// Both players think with the same maps.
    _1Player,
}

/// Whether `player` searches with the first player's maps under `mode`.
pub fn uses_first_player_maps(mode: PlayerMode, player: Player) -> (r: bool)
    ensures
        r == (mode == PlayerMode::_1Player || player.0 == 1),
{
    mode == PlayerMode::_1Player || player.0 == 1
}

/// Every entry of the memo of outcomes is the first player's outcome on the board with
/// that key.
pub open spec fn game_end_memo_wf(memo: Map<u128, i32>) -> bool {
    forall|k: u128|
        #[trigger] memo.contains_key(k) ==> exists|b: OthelloBoard|
            b.wf() && #[trigger] b.spec_hash() == k as int && memo[k] as int == game_result(b, 1)
}

/// The first player's outcome on `canonical`: looked up by the board's key, or computed and
/// remembered. Boards with the same key are the same board, so a remembered outcome is the
/// board's own.
pub fn cached_game_ended(memo: &mut HashMap<u128, i32>, canonical: &OthelloBoard) -> (r: i32)
    requires
        canonical.wf(),
        game_end_memo_wf(old(memo)@),
    ensures
        r as int == game_result(*canonical, 1),
        game_end_memo_wf(final(memo)@),
        final(memo)@.contains_key(canonical.spec_hash() as u128),
        final(memo)@[canonical.spec_hash() as u128] == r,
{
    let s = canonical.string_representation();
    match memo.get(&s) {
        Some(g) => {
            let g = *g;
            proof {
                assert(memo@.contains_key(s));
                let b = choose|b: OthelloBoard|
                    b.wf() && #[trigger] b.spec_hash() == s as int && memo@[s] as int == game_result(
                        b,
                        1,
                    );
                lemma_hash_round_trip(b, *canonical);
            }
            g
        },
        None => {
            let g = get_game_ended(canonical, Player::player1());
            memo.insert(s, g);
            proof {
                assert forall|k: u128| #[trigger] memo@.contains_key(k) implies exists|b: OthelloBoard|
                    b.wf() && #[trigger] b.spec_hash() == k as int && memo@[k] as int == game_result(
                        b,
                        1,
                    ) by {
                    if k == s {
                        assert(canonical.spec_hash() == k as int);
                    }
                }
            }
            g
        },
    }
}

/// Action `a` has a visit count no smaller than any other.
pub open spec fn is_most_visited(counts: Seq<usize>, a: int) -> bool {
    &&& 0 <= a < counts.len()
    &&& forall|b: int| 0 <= b < counts.len() ==> counts[b] <= counts[a]
}

/// The actions with the highest visit count, in increasing order.
pub fn best_actions(counts: &Vec<usize>) -> (r: Vec<usize>)
    requires
        counts@.len() > 0,
    ensures
        r@.len() > 0,
        forall|k: int| 0 <= k < r@.len() ==> is_most_visited(counts@, #[trigger] r@[k] as int),
        forall|a: int| is_most_visited(counts@, a) ==> r@.contains(a as usize),
        forall|k: int, l: int| 0 <= k < l < r@.len() ==> #[trigger] r@[k] < #[trigger] r@[l],
{
    let mut count_max: usize = counts[0];
    let mut i: usize = 1;
    while i < counts.len()
        invariant
            1 <= i <= counts@.len(),
            exists|a: int| 0 <= a < i && counts@[a] == count_max,
            forall|b: int| 0 <= b < i ==> counts@[b] <= count_max,
        decreases counts@.len() - i,
    {
        if counts[i] > count_max {
            count_max = counts[i];
        }
        i += 1;
    }
    let mut best: Vec<usize> = Vec::new();
    let mut a: usize = 0;
    while a < counts.len()
        invariant
            a <= counts@.len(),
            forall|b: int| 0 <= b < counts@.len() ==> counts@[b] <= count_max,
            exists|b: int| 0 <= b < counts@.len() && counts@[b] == count_max,
            forall|k: int|
                0 <= k < best@.len() ==> #[trigger] best@[k] < a && counts@[best@[k] as int]
                    == count_max,
            forall|b: int| 0 <= b < a && counts@[b] == count_max ==> best@.contains(b as usize),
            forall|k: int, l: int| 0 <= k < l < best@.len() ==> #[trigger] best@[k] < #[trigger] best@[l],
        decreases counts@.len() - a,
    {
        let ghost prev = best@;
        if counts[a] == count_max {
            best.push(a);
        }
        assert(forall|k: int| 0 <= k < prev.len() ==> best@[k] == prev[k]);
        assert forall|b: int| 0 <= b < a + 1 && counts@[b] == count_max implies best@.contains(
            b as usize,
        ) by {
            if b == a {
                assert(best@[best@.len() - 1] == a);
            } else {
                let k = choose|k: int| 0 <= k < prev.len() && prev[k] == b as usize;
                assert(best@[k] == b as usize);
            }
        }
        a += 1;
    }
    let ghost w = choose|b: int| 0 <= b < counts@.len() && counts@[b] == count_max;
    assert(best@.contains(w as usize));
    best
}

/// Relies on `rand::Rng::gen_range` over `rand::thread_rng()`: a value drawn from `0..n`,
/// which panics when the range is empty.
#[verifier::external_body]
fn random_index(n: usize) -> (r: usize)
    requires
        n > 0,
    ensures
        r < n,
{
    rand::Rng::gen_range(&mut rand::thread_rng(), 0..n)
}

/// The action that greedy (temperature `0`) play takes: one of the most visited, chosen
/// uniformly at random among them when several tie.
pub fn get_best_action(counts: &Vec<usize>) -> (r: usize)
    requires
        counts@.len() > 0,
    ensures
        is_most_visited(counts@, r as int),
{
    let best = best_actions(counts);
    let k = random_index(best.len());
    best[k]
}

/// Greedy play is deterministic when one action has strictly the most visits: every action
/// that `get_best_action` may return is that one.
pub proof fn lemma_greedy_unique(counts: Seq<usize>, a: int, b: int)
    requires
        0 <= a < counts.len(),
        forall|i: int| 0 <= i < counts.len() && i != a ==> counts[i] < counts[a],
        is_most_visited(counts, b),
    ensures
        b == a,
{
    assert(counts[a] <= counts[b]);
}

/// The result of a finished game in the frame of a position's `player`: the result `r`
/// for `final_player`, the player to move at the end, negated when the two differ.
pub fn example_result(r: i32, player: Player, final_player: Player) -> (res: i32)
    requires
        -1 <= r <= 1,
    ensures
        res as int == if player.0 == final_player.0 {
            r as int
        } else {
            -r
        },
{
    if player.0 != final_player.0 {
        -r
    } else {
        r
    }
}

/// What the game keeps of a ply for training: the player to move, the board in that
/// player's view, and the ply.
pub type PlyRecord = (Player, OthelloBoard, Turn);

/// What a finished game hands on for each ply: the player, its view of the board, the
/// result in that player's frame, and the ply.
pub type PlyResult = (Player, OthelloBoard, i32, Turn);

/// The bookkeeping of one self-play game: the board as it stands, the player to move, and a
/// record of every ply so far. The search and the sampling of each move happen outside.
pub struct Episode {
    pub board: OthelloBoard,
    pub cur_player: Player,
    pub episode_step: usize,
    pub history: Vec<PlyRecord>,
}

impl Episode {
    /// The board and the players are well formed, ply `k` (from `0`) is turn `k + 1`, and
    /// each record holds its player's view of the board.
    pub open spec fn wf(&self) -> bool {
        &&& self.board.wf()
        &&& self.cur_player.wf()
        &&& self.history@.len() == self.episode_step
        &&& forall|k: int|
            0 <= k < self.history@.len() ==> {
                &&& (#[trigger] self.history@[k]).0.wf()
                &&& self.history@[k].1.wf()
                &&& self.history@[k].2.0 == k + 1
            }
    }

    /// A game at the opening position, the first player to move, nothing recorded.
    pub fn new() -> (r: Self)
        ensures
            r.wf(),
            r.board.is_initial(),
            r.cur_player.0 == 1,
            r.episode_step == 0,
    {
        Self {
            board: OthelloBoard::initial_board(),
            cur_player: Player::player1(),
            episode_step: 0,
            history: Vec::new(),
        }
    }

    /// Starts the next ply: records the player to move and its view of the board, and
    /// returns the ply's turn and whether it is played at temperature `1`, which holds for
    /// the first `temp_threshold` turns.
    pub fn begin_ply(&mut self, temp_threshold: i32) -> (r: (Turn, bool))
        requires
            old(self).wf(),
            old(self).episode_step < usize::MAX,
        ensures
            final(self).wf(),
            final(self).board == old(self).board,
            final(self).cur_player == old(self).cur_player,
            final(self).episode_step == old(self).episode_step + 1,
            r.0.0 == final(self).episode_step,
            r.1 == (final(self).episode_step <= temp_threshold),
            final(self).history@.len() == old(self).history@.len() + 1,
            forall|k: int|
                0 <= k < old(self).history@.len() ==> #[trigger] final(self).history@[k] == old(
                    self,
                ).history@[k],
            final(self).history@.last().0 == old(self).cur_player,
            final(self).history@.last().1.is_canonical_of(old(self).board, old(self).cur_player.0),
    {
        self.episode_step += 1;
        let turn = Turn(self.episode_step);
        let exploring = temp_threshold > 0 && self.episode_step <= temp_threshold as usize;
        let canonical = self.board.create_canonical_board(self.cur_player);
        self.history.push((self.cur_player, canonical, turn));
        (turn, exploring)
    }

    /// Ends the ply with `action` for the player to move, and hands the other player the
    /// move. When the game is then over, returns each recorded ply with the result in its
    /// player's frame: the outcome `g` for the player to move at the end, negated for the
    /// other.
    pub fn finish_ply(&mut self, action: usize) -> (r: Option<Vec<PlyResult>>)
        requires
            old(self).wf(),
            action < MOVE_LEN,
            action != N * N ==> old(self).board.closes_run(
                (action / N) as int,
                (action % N) as int,
                old(self).cur_player.0 as int,
                8,
            ),
        ensures
            final(self).wf(),
            final(self).episode_step == old(self).episode_step,
            final(self).history@ == old(self).history@,
            final(self).cur_player.0 == -old(self).cur_player.0,
            action == N * N ==> final(self).board == old(self).board,
            action != N * N ==> forall|i: int, j: int|
                in_bounds(i, j) ==> #[trigger] final(self).board.cell(i, j)
                    == old(self).board.cell_after_move(
                    (action / N) as int,
                    (action % N) as int,
                    old(self).cur_player.0 as int,
                    i,
                    j,
                ),
            ({
                let g = game_result(final(self).board, final(self).cur_player.0 as int);
                match r {
                    None => g == 0,
                    Some(v) => {
                        &&& g != 0
                        &&& v@.len() == old(self).history@.len()
                        &&& forall|k: int|
                            0 <= k < v@.len() ==> {
                                let h = old(self).history@[k];
                                &&& (#[trigger] v@[k]).0 == h.0
                                &&& v@[k].1 == h.1
                                &&& v@[k].3 == h.2
                                &&& v@[k].2 == if h.0.0 == final(self).cur_player.0 {
                                    g
                                } else {
                                    -g
                                }
                            }
                    },
                }
            }),
    {
        get_next_state(&mut self.board, self.cur_player, Action::new(action));
        self.cur_player = self.cur_player.other();
        let g = get_game_ended(&self.board, self.cur_player);
        if g == 0 {
            return None;
        }
        let mut results: Vec<PlyResult> = Vec::new();
        let mut k: usize = 0;
        while k < self.history.len()
            invariant
                self.wf(),
                g == game_result(self.board, self.cur_player.0 as int),
                g != 0,
                -1 <= g <= 1,
                k <= self.history@.len(),
                results@.len() == k,
                forall|i: int|
                    0 <= i < k ==> {
                        let h = self.history@[i];
                        &&& (#[trigger] results@[i]).0 == h.0
                        &&& results@[i].1 == h.1
                        &&& results@[i].3 == h.2
                        &&& results@[i].2 as int == if h.0.0 == self.cur_player.0 {
                            g as int
                        } else {
                            -g
                        }
                    },
            decreases self.history@.len() - k,
        {
            let (player, canonical, turn) = self.history[k];
            results.push((player, canonical, example_result(g, player, self.cur_player), turn));
            k += 1;
        }
        Some(results)
    }
}

} // verus!
