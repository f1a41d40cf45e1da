use vstd::prelude::*;

verus! {

/// One of the two seats at the table.
#[derive(Debug, Clone, Copy, PartialEq, Eq, Structural)]
pub enum Player {
    One,
    Two,
}

impl Player {
    /// The other seat, as a specification.
    pub open spec fn opposite(self) -> Player {
        match self {
            Player::One => Player::Two,
            Player::Two => Player::One,
        }
    }

    /// The seat's index into per-player arrays.
    pub open spec fn spec_index(self) -> int {
        match self {
            Player::One => 0,
            Player::Two => 1,
        }
    }

    /// The other seat.
    pub fn other(self) -> (r: Player)
        ensures
            r == self.opposite(),
            r != self,
    {
        match self {
            Player::One => Player::Two,
            Player::Two => Player::One,
        }
    }

    /// `0` for the first seat, `1` for the second.
    pub fn index(self) -> (r: usize)
        ensures
            r == self.spec_index(),
            r < 2,
    {
        match self {
            Player::One => 0,
            Player::Two => 1,
        }
    }
}

/// Swapping seats twice is the identity.
pub proof fn lemma_other_involutive(p: Player)
    ensures
        p.opposite().opposite() == p,
        p.opposite() != p,
{
}

} // verus!
