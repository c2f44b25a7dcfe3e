use vstd::prelude::*;

use crate::action::Move;
use crate::constant::N;
use crate::player::Player;

verus! {

/// Whether `(x, y)` lies on the board.
pub open spec fn in_bounds(x: int, y: int) -> bool {
    0 <= x < N && 0 <= y < N
}

/// What a cell adds to the stone count in the frame of color `c`.
pub open spec fn cell_score(v: i32, c: i32) -> int {
    if v == c {
        1
    } else if v == -c {
        -1
    } else {
        0
    }
}

/// The score of the first `n` cells of a row.
pub open spec fn row_diff(row: Seq<i32>, c: i32, n: int) -> int
    decreases n,
{
    if n <= 0 {
        0
    } else {
        row_diff(row, c, n - 1) + cell_score(row[n - 1], c)
    }
}

/// The score of the first `n` rows.
pub open spec fn rows_diff(rows: Seq<[i32; N]>, c: i32, n: int) -> int
    decreases n,
{
    if n <= 0 {
        0
    } else {
        rows_diff(rows, c, n - 1) + row_diff(rows[n - 1]@, c, N as int)
    }
}

/// The row step of direction `d`, one of the eight neighbours.
pub open spec fn dir_dx(d: int) -> int {
    if d == 0 || d == 1 || d == 2 {
        1
    } else if d == 3 || d == 7 {
        0
    } else {
        -1
    }
}

/// The column step of direction `d`.
pub open spec fn dir_dy(d: int) -> int {
    if d == 0 || d == 6 || d == 7 {
        1
    } else if d == 1 || d == 5 {
        0
    } else {
        -1
    }
}

/// The eight directions, in order `(1, 1)`, `(1, 0)`, `(1, -1)`, `(0, -1)`, `(-1, -1)`,
/// `(-1, 0)`, `(-1, 1)`, `(0, 1)`.
pub fn direction(d: usize) -> (r: (i32, i32))
    requires
        d < 8,
    ensures
        r.0 as int == dir_dx(d as int),
        r.1 as int == dir_dy(d as int),
{
    if d == 0 {
        (1, 1)
    } else if d == 1 {
        (1, 0)
    } else if d == 2 {
        (1, -1)
    } else if d == 3 {
        (0, -1)
    } else if d == 4 {
        (-1, -1)
    } else if d == 5 {
        (-1, 0)
    } else if d == 6 {
        (-1, 1)
    } else {
        (0, 1)
    }
}

/// `r` extended by `k` more captured stones; a failed run (`-1`) stays failed.
pub open spec fn extend_run(k: int, r: int) -> int {
    if r < 0 {
        -1
    } else {
        r + k
    }
}

/// `k` steps of size `dx`, where `dx` is `1`, `0` or `-1`.
pub open spec fn step(k: int, dx: int) -> int {
    if dx == 1 {
        k
    } else if dx == -1 {
        -k
    } else {
        0
    }
}

/// The number of king steps from `(x, y)` to `(i, j)`.
pub open spec fn king_dist(x: int, y: int, i: int, j: int) -> int {
    let a = if i >= x {
        i - x
    } else {
        x - i
    };
    let b = if j >= y {
        j - y
    } else {
        y - j
    };
    if a >= b {
        a
    } else {
        b
    }
}

/// The two-bit code of a cell: `-1` is `0b10`, `0` is `0b00`, `1` is `0b01`.
pub open spec fn cell_code(v: int) -> int {
    if v < 0 {
        2
    } else if v == 1 {
        1
    } else {
        0
    }
}

/// The cell value that a two-bit code stands for.
pub open spec fn code_cell(code: int) -> int {
    if code == 2 {
        -1
    } else {
        code
    }
}

/// The `i`-th two-bit digit of `h`, the lowest being digit `0`.
pub open spec fn digit(h: int, i: nat) -> int
    decreases i,
{
    if i == 0 {
        h % 4
    } else {
        digit(h / 4, (i - 1) as nat)
    }
}

/// `4` to the power `n`.
pub open spec fn pow4(n: nat) -> int
    decreases n,
{
    if n == 0 {
        1
    } else {
        4 * pow4((n - 1) as nat)
    }
}

/// Powers of four grow with the exponent.
pub proof fn lemma_pow4_mono(a: nat, b: nat)
    requires
        a <= b,
    ensures
        1 <= pow4(a) <= pow4(b),
    decreases b,
{
    if b > 0 {
        if a < b {
            lemma_pow4_mono(a, (b - 1) as nat);
        } else {
            lemma_pow4_mono((a - 1) as nat, (b - 1) as nat);
        }
    }
}

/// A 6x6 Othello board: each cell is `1`, `-1` or `0` (empty).
#[derive(Debug, Clone, Copy, PartialEq, Eq)]
pub struct OthelloBoard(pub [[i32; N]; N]);

impl OthelloBoard {
    /// The value of the cell `(x, y)`.
    pub open spec fn cell(self, x: int, y: int) -> int {
        self.0@[x]@[y] as int
    }

    /// Every cell holds a stone of either color or nothing.
    pub open spec fn wf(self) -> bool {
        forall|x: int, y: int| in_bounds(x, y) ==> -1 <= #[trigger] self.cell(x, y) <= 1
    }

    /// The signed stone count in the frame of color `c`.
    pub open spec fn spec_count_diff(self, c: i32) -> int {
        rows_diff(self.0@, c, N as int)
    }

    /// The board seen by color `c`: negated for the second player, else unchanged.
    pub open spec fn is_canonical_of(self, b: OthelloBoard, c: i32) -> bool {
        forall|x: int, y: int|
            in_bounds(x, y) ==> #[trigger] self.cell(x, y) == if c == -1 {
                -b.cell(x, y)
            } else {
                b.cell(x, y)
            }
    }

    /// Writes `v` into the cell `(x, y)`, leaving the others.
    fn set_cell(&mut self, x: usize, y: usize, v: i32)
        requires
            x < N,
            y < N,
        ensures
            forall|i: int, j: int|
                in_bounds(i, j) ==> #[trigger] final(self).cell(i, j) == if i == x && j == y {
                    v as int
                } else {
                    old(self).cell(i, j)
                },
    {
        let mut row = self.0[x];
        row[y] = v;
        self.0[x] = row;
        assert forall|i: int, j: int| in_bounds(i, j) implies #[trigger] self.cell(i, j) == if i
            == x && j == y {
            v as int
        } else {
            old(self).cell(i, j)
        } by {
            if i != x {
                assert(self.0@[i] == old(self).0@[i]);
            }
        }
    }

    /// The value of the cell `(x, y)`.
    fn get_cell(&self, x: usize, y: usize) -> (r: i32)
        requires
            x < N,
            y < N,
        ensures
            r as int == self.cell(x as int, y as int),
    {
        self.0[x][y]
    }

    /// Probing from `(x, y)` in steps of `(dx, dy)` for color `c`: the number of opponent
    /// stones met before the first own stone, or `-1` when the probe reaches the edge or an
    /// empty cell first. Six steps always leave the board, so `fuel` starting at `N` never
    /// runs out before the edge does.
    pub open spec fn run_len(self, x: int, y: int, dx: int, dy: int, c: int, fuel: nat) -> int
        decreases fuel,
    {
        if fuel == 0 || !in_bounds(x, y) {
            -1
        } else if self.cell(x, y) == -c {
            extend_run(1, self.run_len(x + dx, y + dy, dx, dy, c, (fuel - 1) as nat))
        } else if self.cell(x, y) == c {
            0
        } else {
            -1
        }
    }

    /// The run that a stone of color `c` on `(x, y)` closes in direction `d`.
    pub open spec fn flips_in_dir(self, x: int, y: int, d: int, c: int) -> int {
        self.run_len(x + dir_dx(d), y + dir_dy(d), dir_dx(d), dir_dy(d), c, N as nat)
    }

    /// A stone of color `c` on `(x, y)` closes a run in one of the first `dlim` directions.
    pub open spec fn closes_run(self, x: int, y: int, c: int, dlim: int) -> bool
        decreases dlim,
    {
        if dlim <= 0 {
            false
        } else {
            self.closes_run(x, y, c, dlim - 1) || self.flips_in_dir(x, y, dlim - 1, c) > 0
        }
    }

    /// Color `c` may play on `(x, y)`: it is empty and closes a run in some direction.
    pub open spec fn is_legal(self, x: int, y: int, c: int) -> bool {
        &&& in_bounds(x, y)
        &&& self.cell(x, y) == 0
        &&& self.closes_run(x, y, c, 8)
    }

    /// `(i, j)` is one of the stones that a stone of color `c` on `(x, y)` captures in
    /// direction `d`.
    pub open spec fn on_run(self, x: int, y: int, d: int, c: int, i: int, j: int) -> bool {
        let k = king_dist(x, y, i, j);
        &&& 1 <= k <= self.flips_in_dir(x, y, d, c)
        &&& i == x + step(k, dir_dx(d))
        &&& j == y + step(k, dir_dy(d))
    }

    /// `(i, j)` is captured in one of the first `dlim` directions by a stone of color `c`
    /// on `(x, y)`.
    pub open spec fn captured(self, x: int, y: int, c: int, dlim: int, i: int, j: int) -> bool
        decreases dlim,
    {
        if dlim <= 0 {
            false
        } else {
            self.captured(x, y, c, dlim - 1, i, j) || self.on_run(x, y, dlim - 1, c, i, j)
        }
    }

    /// The cell `(i, j)` after color `c` plays on `(x, y)`: the stone itself and every
    /// captured stone take color `c`, in all directions at once.
    pub open spec fn cell_after_move(self, x: int, y: int, c: int, i: int, j: int) -> int {
        if (i == x && j == y) || self.captured(x, y, c, 8, i, j) {
            c
        } else {
            self.cell(i, j)
        }
    }

    /// Color `c` has some legal move.
    pub open spec fn has_move(self, c: int) -> bool {
        exists|x: int, y: int| #[trigger] self.is_legal(x, y, c)
    }

    /// The number of stones that `player` would capture from `m` in direction `d`:
    /// the opponent stones met before the first own stone, or `0` when the probe reaches
    /// the edge or an empty cell first.
    pub fn discover_move(&self, m: Move, d: usize, player: Player) -> (r: usize)
        requires
            self.wf(),
            m.wf(),
            d < 8,
            player.wf(),
        ensures
            r as int == if self.flips_in_dir(m.0 as int, m.1 as int, d as int, player.0 as int)
                > 0 {
                self.flips_in_dir(m.0 as int, m.1 as int, d as int, player.0 as int)
            } else {
                0
            },
            r <= N,
    {
        proof {
            let (dx, dy) = (dir_dx(d as int), dir_dy(d as int));
            self.lemma_run_len_bound(m.0 + dx, m.1 + dy, dx, dy, player.0 as int, N as nat);
        }
        let n = N as i32;
        let (dx, dy) = direction(d);
        let c = player.color();
        let mut x: i32 = m.x() as i32 + dx;
        let mut y: i32 = m.y() as i32 + dy;
        let mut count: usize = 0;
        let mut fuel: usize = N;
        let ghost total = self.flips_in_dir(m.0 as int, m.1 as int, d as int, c as int);
        loop
            invariant
                -1 <= x <= n,
                -1 <= y <= n,
                n == N,
                fuel <= N,
                count + fuel == N,
                c == player.0,
                player.wf(),
                self.wf(),
                total == self.flips_in_dir(m.0 as int, m.1 as int, d as int, c as int),
                total == extend_run(
                    count as int,
                    self.run_len(
                        x as int,
                        y as int,
                        dir_dx(d as int),
                        dir_dy(d as int),
                        c as int,
                        fuel as nat,
                    ),
                ),
                dx as int == dir_dx(d as int),
                dy as int == dir_dy(d as int),
            decreases fuel,
        {
            if fuel == 0 {
                return 0;
            }
            if x < 0 || n <= x || y < 0 || n <= y {
                return 0;
            }
            let v = self.get_cell(x as usize, y as usize);
            if v == -c {
                count += 1;
                x += dx;
                y += dy;
                fuel -= 1;
            } else if v == c {
                return count;
            } else {
                return 0;
            }
        }
    }

    /// A run closed among the first `d1` directions is closed among the first `d2 >= d1`.
    pub proof fn lemma_closes_run_mono(self, x: int, y: int, c: int, d1: int, d2: int)
        requires
            d1 <= d2,
            self.closes_run(x, y, c, d1),
        ensures
            self.closes_run(x, y, c, d2),
        decreases d2 - d1,
    {
        if d1 < d2 {
            self.lemma_closes_run_mono(x, y, c, d1, d2 - 1);
        }
    }

    /// The cells of a run lie on the board and hold the opponent's stones.
    pub proof fn lemma_run_in_bounds(
        self,
        x: int,
        y: int,
        dx: int,
        dy: int,
        c: int,
        fuel: nat,
        k: int,
    )
        requires
            0 <= k < self.run_len(x, y, dx, dy, c, fuel),
            dx == 1 || dx == 0 || dx == -1,
            dy == 1 || dy == 0 || dy == -1,
        ensures
            in_bounds(x + step(k, dx), y + step(k, dy)),
            self.cell(x + step(k, dx), y + step(k, dy)) == -c,
        decreases fuel,
    {
        if k > 0 {
            self.lemma_run_in_bounds(x + dx, y + dy, dx, dy, c, (fuel - 1) as nat, k - 1);
        }
    }

    /// A run is no longer than the steps allowed for it.
    pub proof fn lemma_run_len_bound(self, x: int, y: int, dx: int, dy: int, c: int, fuel: nat)
        ensures
            self.run_len(x, y, dx, dy, c, fuel) <= fuel,
        decreases fuel,
    {
        if fuel > 0 {
            self.lemma_run_len_bound(x + dx, y + dy, dx, dy, c, (fuel - 1) as nat);
        }
    }

    /// Whether `player` may play on the empty square `m`: some direction closes a run.
    pub fn get_moves_for_square(&self, m: Move, player: Player) -> (r: bool)
        requires
            self.wf(),
            m.wf(),
            player.wf(),
        ensures
            r == self.closes_run(m.0 as int, m.1 as int, player.0 as int, 8),
    {
        for d in 0..8
            invariant
                self.wf(),
                m.wf(),
                player.wf(),
                !self.closes_run(m.0 as int, m.1 as int, player.0 as int, d as int),
        {
            if self.discover_move(m, d, player) > 0 {
                proof {
                    self.lemma_closes_run_mono(
                        m.0 as int,
                        m.1 as int,
                        player.0 as int,
                        d as int + 1,
                        8,
                    );
                }
                return true;
            }
        }
        false
    }

    /// The squares where `player` may play, each once, in row-major order.
    pub fn get_legal_moves(&self, player: Player) -> (r: Vec<Move>)
        requires
            self.wf(),
            player.wf(),
        ensures
            forall|i: int|
                0 <= i < r@.len() ==> r@[i].wf() && self.is_legal(
                    #[trigger] r@[i].0 as int,
                    r@[i].1 as int,
                    player.0 as int,
                ),
            forall|x: int, y: int|
                #[trigger] self.is_legal(x, y, player.0 as int) ==> r@.contains(
                    Move(x as usize, y as usize),
                ),
            forall|i: int, j: int|
                0 <= i < j < r@.len() ==> (#[trigger] r@[i]).0 * N + r@[i].1 < (#[trigger] r@[
                    j]).0 * N + r@[j].1,
    {
        let mut moves: Vec<Move> = Vec::new();
        for x in 0..N
            invariant
                self.wf(),
                player.wf(),
                forall|i: int|
                    0 <= i < moves@.len() ==> moves@[i].wf() && self.is_legal(
                        #[trigger] moves@[i].0 as int,
                        moves@[i].1 as int,
                        player.0 as int,
                    ) && moves@[i].0 < x,
                forall|i: int, j: int|
                    #[trigger] self.is_legal(i, j, player.0 as int) && i < x ==> moves@.contains(
                        Move(i as usize, j as usize),
                    ),
                forall|i: int, j: int|
                    0 <= i < j < moves@.len() ==> (#[trigger] moves@[i]).0 * N + moves@[i].1 < (
                    #[trigger] moves@[j]).0 * N + moves@[j].1,
        {
            for y in 0..N
                invariant
                    x < N,
                    self.wf(),
                    player.wf(),
                    forall|i: int|
                        0 <= i < moves@.len() ==> moves@[i].wf() && self.is_legal(
                            #[trigger] moves@[i].0 as int,
                            moves@[i].1 as int,
                            player.0 as int,
                        ) && moves@[i].0 * N + moves@[i].1 < x * N + y,
                    forall|i: int, j: int|
                        #[trigger] self.is_legal(i, j, player.0 as int) && (i < x || (i == x && j
                            < y)) ==> moves@.contains(Move(i as usize, j as usize)),
                    forall|i: int, j: int|
                        0 <= i < j < moves@.len() ==> (#[trigger] moves@[i]).0 * N + moves@[i].1 < (
                        #[trigger] moves@[j]).0 * N + moves@[j].1,
            {
                let m = Move::new(x, y);
                let ghost prev = moves@;
                if self.get_cell(x, y) == 0 && self.get_moves_for_square(m, player) {
                    moves.push(m);
                    assert(moves@[moves@.len() - 1] == m);
                }
                assert(forall|k: int| 0 <= k < prev.len() ==> moves@[k] == prev[k]);
                assert forall|i: int, j: int|
                    #[trigger] self.is_legal(i, j, player.0 as int) && (i < x || (i == x && j
                        <= y)) implies moves@.contains(Move(i as usize, j as usize)) by {
                    if i == x && j == y {
                        assert(moves@[moves@.len() - 1] == m);
                    } else {
                        let w = Move(i as usize, j as usize);
                        assert(prev.contains(w));
                        let k = choose|k: int| 0 <= k < prev.len() && prev[k] == w;
                        assert(moves@[k] == w);
                    }
                }
            }
        }
        moves
    }

    /// Whether `player` has any legal move; stops at the first one found.
    pub fn has_legal_moves(&self, player: Player) -> (r: bool)
        requires
            self.wf(),
            player.wf(),
        ensures
            r == self.has_move(player.0 as int),
    {
        for x in 0..N
            invariant
                self.wf(),
                player.wf(),
                forall|i: int, j: int|
                    #[trigger] self.is_legal(i, j, player.0 as int) ==> i >= x,
        {
            for y in 0..N
                invariant
                    x < N,
                    self.wf(),
                    player.wf(),
                    forall|i: int, j: int|
                        #[trigger] self.is_legal(i, j, player.0 as int) ==> i > x || (i == x && j
                            >= y),
            {
                if self.get_cell(x, y) == 0 && self.get_moves_for_square(Move::new(x, y), player) {
                    assert(self.is_legal(x as int, y as int, player.0 as int));
                    return true;
                }
            }
        }
        false
    }

    /// Places `player`'s stone on `m` and turns every captured run, in all eight directions
    /// at once. Some direction must close a run.
    pub fn execute_move(&mut self, m: Move, player: Player)
        requires
            old(self).wf(),
            m.wf(),
            player.wf(),
            old(self).closes_run(m.0 as int, m.1 as int, player.0 as int, 8),
        ensures
            final(self).wf(),
            forall|i: int, j: int|
                in_bounds(i, j) ==> #[trigger] final(self).cell(i, j) == old(self).cell_after_move(
                    m.0 as int,
                    m.1 as int,
                    player.0 as int,
                    i,
                    j,
                ),
    {
        let orig = *self;
        let c = player.color();
        let mx = m.x();
        let my = m.y();
        let mut placed = false;
        for d in 0..8
            invariant
                orig == *old(self),
                orig.wf(),
                m.wf(),
                player.wf(),
                c == player.0,
                mx == m.0,
                my == m.1,
                placed == orig.closes_run(mx as int, my as int, c as int, d as int),
                forall|i: int, j: int|
                    in_bounds(i, j) ==> #[trigger] self.cell(i, j) == if (placed && i == mx && j
                        == my) || orig.captured(mx as int, my as int, c as int, d as int, i, j) {
                        c as int
                    } else {
                        orig.cell(i, j)
                    },
        {
            let k = orig.discover_move(m, d, player);
            if k > 0 {
                self.set_cell(mx, my, c);
                placed = true;
                let (dx, dy) = direction(d);
                let mut px: i32 = mx as i32 + dx;
                let mut py: i32 = my as i32 + dy;
                let mut j: usize = 1;
                while j <= k
                    invariant
                        orig.wf(),
                        player.wf(),
                        c == player.0,
                        mx == m.0,
                        my == m.1,
                        m.wf(),
                        d < 8,
                        1 <= j <= k + 1,
                        k <= N,
                        k as int == orig.flips_in_dir(mx as int, my as int, d as int, c as int),
                        dx as int == dir_dx(d as int),
                        dy as int == dir_dy(d as int),
                        px as int == mx + step(j as int, dx as int),
                        py as int == my + step(j as int, dy as int),
                        forall|i: int, i2: int|
                            in_bounds(i, i2) ==> #[trigger] self.cell(i, i2) == if (i == mx && i2
                                == my) || orig.captured(mx as int, my as int, c as int, d as int, i, i2)
                                || (orig.on_run(mx as int, my as int, d as int, c as int, i, i2)
                                && king_dist(mx as int, my as int, i, i2) < j) {
                                c as int
                            } else {
                                orig.cell(i, i2)
                            },
                    decreases k + 1 - j,
                {
                    proof {
                        orig.lemma_run_in_bounds(
                            mx + dx,
                            my + dy,
                            dx as int,
                            dy as int,
                            c as int,
                            N as nat,
                            j - 1,
                        );
                    }
                    self.set_cell(px as usize, py as usize, c);
                    px += dx;
                    py += dy;
                    j += 1;
                }
            }
        }
    }

    /// The packed code of the cells from flat index `i` (cell `(i / 6, i % 6)`) on: the code
    /// of cell `i` sits in the lowest two bits.
    pub open spec fn hash_from(self, i: int) -> int
        decreases N * N - i,
    {
        if i < 0 || i >= N * N {
            0
        } else {
            cell_code(self.cell(i / N as int, i % N as int)) + 4 * self.hash_from(i + 1)
        }
    }

    /// The 128-bit key of the board: two bits per cell, at bit `(x * 6 + y) * 2`.
    pub open spec fn spec_hash(self) -> int {
        self.hash_from(0)
    }

    /// The packed code from index `i` on fits in the bits that its cells take.
    pub proof fn lemma_hash_from_bound(self, i: int)
        requires
            0 <= i <= N * N,
        ensures
            0 <= self.hash_from(i) < pow4((N * N - i) as nat),
        decreases N * N - i,
    {
        if i < N * N {
            self.lemma_hash_from_bound(i + 1);
        }
    }

    /// The board's key: two bits per cell at bit `(x * 6 + y) * 2`, with `-1` as `0b10`,
    /// `0` as `0b00` and `1` as `0b01`.
    pub fn string_representation(&self) -> (r: u128)
        requires
            self.wf(),
        ensures
            r as int == self.spec_hash(),
    {
        proof {
            reveal_with_fuel(pow4, 37);
            assert(pow4(36) == 4722366482869645213696);
        }
        let mut r: u128 = 0;
        let mut i: usize = N * N;
        while i > 0
            invariant
                i <= N * N,
                self.wf(),
                r as int == self.hash_from(i as int),
                pow4(36) == 4722366482869645213696,
            decreases i,
        {
            i -= 1;
            proof {
                self.lemma_hash_from_bound(i as int + 1);
                lemma_pow4_mono((N * N - i - 1) as nat, 36);
            }
            let v = self.get_cell(i / N, i % N);
            let code: u128 = if v < 0 {
                2
            } else if v == 1 {
                1
            } else {
                0
            };
            r = r * 4 + code;
        }
        r
    }

    /// The standard opening position.
    pub open spec fn is_initial(self) -> bool {
        forall|x: int, y: int|
            in_bounds(x, y) ==> #[trigger] self.cell(x, y) == if (x == 2 && y == 3) || (x == 3
                && y == 2) {
                1
            } else if (x == 2 && y == 2) || (x == 3 && y == 3) {
                -1
            } else {
                0
            }
    }

    /// The empty board.
    pub fn new() -> (r: Self)
        ensures
            r.wf(),
            forall|x: int, y: int| in_bounds(x, y) ==> #[trigger] r.cell(x, y) == 0,
    {
        Self([[0i32; N]; N])
    }

    /// The standard opening: `(2, 3)` and `(3, 2)` hold `1`, `(2, 2)` and `(3, 3)` hold `-1`.
    pub fn initial_board() -> (r: Self)
        ensures
            r.wf(),
            r.is_initial(),
    {
        let mut b = Self::new();
        b.set_cell(N / 2 - 1, N / 2, 1);
        b.set_cell(N / 2, N / 2 - 1, 1);
        b.set_cell(N / 2 - 1, N / 2 - 1, -1);
        b.set_cell(N / 2, N / 2, -1);
        b
    }

    /// The number of `player`'s stones minus the number of the opponent's.
    pub fn count_diff(&self, player: Player) -> (r: i32)
        requires
            player.wf(),
        ensures
            r == self.spec_count_diff(player.0),
    {
        let color = player.color();
        let mut count: i32 = 0;
        for x in 0..N
            invariant
                color == player.0,
                player.wf(),
                count == rows_diff(self.0@, color, x as int),
                -(x as int) * 6 <= count <= (x as int) * 6,
        {
            let row = self.0[x];
            let ghost before = count;
            for y in 0..N
                invariant
                    row == self.0@[x as int],
                    x < N,
                    color == player.0,
                    player.wf(),
                    before == rows_diff(self.0@, color, x as int),
                    -(x as int) * 6 <= before <= (x as int) * 6,
                    count == before + row_diff(row@, color, y as int),
                    -(y as int) <= count - before <= y as int,
            {
                if row[y] == color {
                    count += 1;
                }
                if row[y] == -color {
                    count -= 1;
                }
            }
        }
        count
    }

    /// Turns the board into the view of `player`: negates every cell for the second player.
    pub fn canonical_form(&mut self, player: Player)
        requires
            old(self).wf(),
        ensures
            final(self).wf(),
            final(self).is_canonical_of(*old(self), player.0),
    {
        if player.0 == -1 {
            for x in 0..N
                invariant
                    old(self).wf(),
                    forall|i: int, y: int|
                        in_bounds(i, y) ==> #[trigger] self.cell(i, y) == if i < x {
                            -old(self).cell(i, y)
                        } else {
                            old(self).cell(i, y)
                        },
            {
                for y in 0..N
                    invariant
                        x < N,
                        old(self).wf(),
                        forall|i: int, j: int|
                            in_bounds(i, j) ==> #[trigger] self.cell(i, j) == if i < x || (i
                                == x && j < y) {
                                -old(self).cell(i, j)
                            } else {
                                old(self).cell(i, j)
                            },
                {
                    let v = self.get_cell(x, y);
                    self.set_cell(x, y, -v);
                }
            }
        }
    }

    /// A copy of the board in the view of `player`.
    pub fn create_canonical_board(&self, player: Player) -> (r: OthelloBoard)
        requires
            self.wf(),
        ensures
            r.wf(),
            r.is_canonical_of(*self, player.0),
    {
        let mut b = *self;
        b.canonical_form(player);
        b
    }
}

} // verus!

verus! {

/// Two boards that agree on every cell are the same board.
pub proof fn lemma_same_cells(a: OthelloBoard, b: OthelloBoard)
    requires
        forall|x: int, y: int| in_bounds(x, y) ==> #[trigger] a.cell(x, y) == b.cell(x, y),
    ensures
        a == b,
{
    assert forall|x: int| 0 <= x < N implies #[trigger] a.0@[x] == b.0@[x] by {
        assert forall|y: int| 0 <= y < N implies a.0@[x]@[y] == b.0@[x]@[y] by {
            assert(a.cell(x, y) == b.cell(x, y));
        }
        assert(a.0@[x] =~= b.0@[x]);
    }
    assert(a.0 =~= b.0);
}

/// Digit `k` of the packed code from index `j` on is the code of cell `j + k`.
proof fn lemma_digit_of_hash(b: OthelloBoard, j: int, k: nat)
    requires
        0 <= j,
        j + k < N * N,
    ensures
        digit(b.hash_from(j), k) == cell_code(b.cell((j + k) / N as int, (j + k) % N as int)),
    decreases k,
{
    b.lemma_hash_from_bound(j + 1);
    if k > 0 {
        lemma_digit_of_hash(b, j + 1, (k - 1) as nat);
    }
}

/// Reading the board back from its key: the two-bit digit `x * 6 + y` of `b`'s key names the
/// cell `(x, y)`, so boards with equal keys are equal.
pub proof fn lemma_hash_round_trip(b: OthelloBoard, other: OthelloBoard)
    requires
        b.wf(),
        other.wf(),
    ensures
        forall|x: int, y: int|
            in_bounds(x, y) ==> code_cell(digit(b.spec_hash(), (x * N + y) as nat)) == #[trigger] b.cell(
                x,
                y,
            ),
        b.spec_hash() == other.spec_hash() ==> b == other,
{
    assert forall|x: int, y: int| in_bounds(x, y) implies code_cell(
        digit(b.spec_hash(), (x * N + y) as nat),
    ) == #[trigger] b.cell(x, y) by {
        lemma_digit_of_hash(b, 0, (x * N + y) as nat);
        assert((x * N + y) / N as int == x);
        assert((x * N + y) % N as int == y);
    }
    if b.spec_hash() == other.spec_hash() {
        assert forall|x: int, y: int| in_bounds(x, y) implies #[trigger] b.cell(x, y) == other.cell(
            x,
            y,
        ) by {
            lemma_digit_of_hash(b, 0, (x * N + y) as nat);
            lemma_digit_of_hash(other, 0, (x * N + y) as nat);
            assert((x * N + y) / N as int == x);
            assert((x * N + y) % N as int == y);
        }
        lemma_same_cells(b, other);
    }
}

/// Taking the view of the same player twice gives the board back.
pub proof fn lemma_canonical_involution(b: OthelloBoard, once: OthelloBoard, twice: OthelloBoard, c: i32)
    requires
        once.is_canonical_of(b, c),
        twice.is_canonical_of(once, c),
    ensures
        twice == b,
{
    assert forall|x: int, y: int| in_bounds(x, y) implies #[trigger] twice.cell(x, y) == b.cell(
        x,
        y,
    ) by {
        assert(once.cell(x, y) == if c == -1 {
            -b.cell(x, y)
        } else {
            b.cell(x, y)
        });
    }
    lemma_same_cells(twice, b);
}

} // verus!

verus! {

/// A run closed among the first `dlim` directions is closed in one particular direction.
proof fn lemma_closing_direction(b: OthelloBoard, x: int, y: int, c: int, dlim: int) -> (d: int)
    requires
        b.closes_run(x, y, c, dlim),
    ensures
        0 <= d < dlim,
        b.flips_in_dir(x, y, d, c) > 0,
    decreases dlim,
{
    if b.flips_in_dir(x, y, dlim - 1, c) > 0 {
        dlim - 1
    } else {
        lemma_closing_direction(b, x, y, c, dlim - 1)
    }
}

/// A stone captured in one direction is captured among all directions from it on.
proof fn lemma_captured_mono(
    b: OthelloBoard,
    x: int,
    y: int,
    c: int,
    d: int,
    dlim: int,
    i: int,
    j: int,
)
    requires
        0 <= d < dlim,
        b.on_run(x, y, d, c, i, j),
    ensures
        b.captured(x, y, c, dlim, i, j),
    decreases dlim,
{
    if d < dlim - 1 {
        lemma_captured_mono(b, x, y, c, d, dlim - 1, i, j);
    }
}

/// A move is never undone by itself: playing on a legal square fills that empty square and
/// turns at least one opponent stone, so only the pass leaves the board as it was.
pub proof fn lemma_move_flips(b: OthelloBoard, x: int, y: int, player: Player)
    requires
        b.wf(),
        player.wf(),
        b.is_legal(x, y, player.0 as int),
    ensures
        b.cell(x, y) == 0,
        b.cell_after_move(x, y, player.0 as int, x, y) == player.0,
        exists|i: int, j: int|
            in_bounds(i, j) && b.cell(i, j) == -player.0 && #[trigger] b.cell_after_move(
                x,
                y,
                player.0 as int,
                i,
                j,
            ) == player.0,
{
    let c = player.0 as int;
    let d = lemma_closing_direction(b, x, y, c, 8);
    let (dx, dy) = (dir_dx(d), dir_dy(d));
    b.lemma_run_in_bounds(x + dx, y + dy, dx, dy, c, N as nat, 0);
    let (i, j) = (x + dx, y + dy);
    assert(b.on_run(x, y, d, c, i, j));
    lemma_captured_mono(b, x, y, c, d, 8, i, j);
    assert(b.cell_after_move(x, y, c, i, j) == c);
}

} // verus!
