use vstd::prelude::*;

verus! {

/// One of the two sides. Red is the first player, Blue the second.
#[derive(Copy, Clone, Debug, PartialEq, Eq, Structural)]
pub enum Player {
    Red,
    Blue,
}

impl Player {
    /// Index of this player's occupancy mask: 0 for Red, 1 for Blue.
    pub open spec fn index(self) -> int {
        match self {
            Player::Red => 0,
            Player::Blue => 1,
        }
    }

    /// The other side.
    pub open spec fn other(self) -> Player {
        match self {
            Player::Red => Player::Blue,
            Player::Blue => Player::Red,
        }
    }

    /// Index of this player's occupancy mask.
    pub fn idx(self) -> (i: usize)
        ensures
            i as int == self.index(),
    {
        match self {
            Player::Red => 0,
            Player::Blue => 1,
        }
    }

    /// The other side.
    pub fn opponent(self) -> (p: Player)
        ensures
            p == self.other(),
    {
        match self {
            Player::Red => Player::Blue,
            Player::Blue => Player::Red,
        }
    }

    /// Taking the opponent twice gives the player back.
    pub proof fn opponent_is_involution(self)
        ensures
            self.other().other() == self,
            self.other() != self,
    {
    }
}

} // verus!
