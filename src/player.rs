use vstd::prelude::*;

verus! {

/// A side of the game, as its color: `1` for the first player, `-1` for the second.
#[derive(Debug, Clone, Copy, PartialEq, Eq, Structural)]
pub struct Player(pub i32);

impl Player {
    /// The player who moves first (black), color `1`.
    pub fn player1() -> (r: Player)
        ensures
            r.0 == 1,
    {
        Player(1)
    }

    /// The player who moves second (white), color `-1`.
    pub fn player2() -> (r: Player)
        ensures
            r.0 == -1,
    {
        Player(-1)
    }

    /// A player is one of the two colors.
    pub open spec fn wf(self) -> bool {
        self.0 == 1 || self.0 == -1
    }

    pub fn color(&self) -> (r: i32)
        ensures
            r == self.0,
    {
        self.0
    }

    pub fn other(&self) -> (r: Player)
        requires
            self.wf(),
        ensures
            r.0 == -self.0,
            r.wf(),
    {
        Player(-self.0)
    }
}

} // verus!
