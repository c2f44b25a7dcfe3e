use vstd::prelude::*;

use crate::constant::{MOVE_LEN, N};

verus! {

/// An action: `0..36` names the square `(a / 6, a % 6)`, `36` is the pass.
#[derive(Debug, Clone, Copy, PartialEq, Eq, Structural)]
pub struct Action(pub usize);

impl Action {
    /// An action is a square or the pass.
    pub open spec fn wf(self) -> bool {
        self.0 < MOVE_LEN
    }

    pub open spec fn spec_is_pass(self) -> bool {
        self.0 == N * N
    }

    pub fn is_pass(&self) -> (r: bool)
        ensures
            r == self.spec_is_pass(),
    {
        self.0 == N * N
    }

    pub fn new(v: usize) -> (r: Self)
        ensures
            r.0 == v,
    {
        Self(v)
    }

    /// The action's number.
    pub fn _val(&self) -> (r: usize)
        ensures
            r == self.0,
    {
        self.0
    }

    /// The square of a non-pass action.
    pub fn to_move(&self) -> (r: Move)
        requires
            self.wf(),
            !self.spec_is_pass(),
        ensures
            r.0 == self.0 / N,
            r.1 == self.0 % N,
            r.wf(),
            r.0 * N + r.1 == self.0,
    {
        let a = self.0;
        Move::new(a / N, a % N)
    }
}

/// A square of the board, as row `x` and column `y`.
#[derive(Debug, Clone, Copy, PartialEq, Eq, Hash, Structural)]
pub struct Move(pub usize, pub usize);

impl Move {
    /// The square lies on the board.
    pub open spec fn wf(self) -> bool {
        self.0 < N && self.1 < N
    }

    pub fn new(x: usize, y: usize) -> (r: Self)
        ensures
            r.0 == x,
            r.1 == y,
    {
        Self(x, y)
    }

    pub fn x(&self) -> (r: usize)
        ensures
            r == self.0,
    {
        self.0
    }

    pub fn y(&self) -> (r: usize)
        ensures
            r == self.1,
    {
        self.1
    }

    /// The action that places a stone on this square.
    pub fn _to_action(&self) -> (r: Action)
        requires
            self.wf(),
        ensures
            r.0 == self.0 * N + self.1,
            r.wf(),
            !r.spec_is_pass(),
    {
        Action::new(self.0 * N + self.1)
    }
}

/// A mask over the actions: entry `a` is set when action `a` is allowed.
#[derive(Debug)]
pub struct ValidMoves {
    pub actions: [bool; MOVE_LEN],
}

impl ValidMoves {
    /// A mask with nothing allowed.
    pub fn new() -> (r: Self)
        ensures
            r.actions@.len() == MOVE_LEN,
            forall|i: int| 0 <= i < MOVE_LEN ==> !r.actions@[i],
    {
        Self { actions: [false; MOVE_LEN] }
    }

    pub fn len(&self) -> (r: usize)
        ensures
            r == MOVE_LEN,
    {
        MOVE_LEN
    }

    /// The flag of the pass action, the last one.
    pub fn pass(&mut self) -> (r: &mut bool)
        ensures
            *r == old(self).actions@[MOVE_LEN - 1],
            final(self).actions@ == old(self).actions@.update(MOVE_LEN - 1, *final(r)),
    {
        &mut self.actions[MOVE_LEN - 1]
    }

    /// The flag of the square `(x, y)`.
    pub fn sq(&mut self, x: usize, y: usize) -> (r: &mut bool)
        requires
            x < N,
            y < N,
        ensures
            *r == old(self).actions@[x * N + y],
            final(self).actions@ == old(self).actions@.update(x * N + y, *final(r)),
    {
        &mut self.actions[x * N + y]
    }

    pub fn get(&self, a: usize) -> (r: bool)
        requires
            a < MOVE_LEN,
        ensures
            r == self.actions@[a as int],
    {
        self.actions[a]
    }
}

} // verus!
