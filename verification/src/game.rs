use vstd::prelude::*;

use crate::player::Player;

verus! {

/// How a finished game was won.
#[derive(Debug, Clone, Copy, PartialEq, Eq, Structural)]
pub enum VictoryKind {
    MilitarySupremacy,
    ScientificSupremacy,
    CivilianVictory,
    CivilianTiebreak,
}

/// The result of a finished game.
#[derive(Debug, Clone, Copy, PartialEq, Eq, Structural)]
pub enum GameResult {
    Win { winner: Player, kind: VictoryKind },
    Draw,
}

impl GameResult {
    /// The winning seat, or `None` for a draw.
    pub open spec fn spec_winner(self) -> Option<Player> {
        match self {
            GameResult::Win { winner, .. } => Some(winner),
            GameResult::Draw => None,
        }
    }

    /// The winning seat, or `None` for a draw.
    pub fn winner(self) -> (r: Option<Player>)
        ensures
            r == self.spec_winner(),
    {
        match self {
            GameResult::Win { winner, .. } => Some(winner),
            GameResult::Draw => None,
        }
    }
}

/// Which kind of decision the game is waiting for.
#[derive(Debug, Clone, Copy, PartialEq, Eq, Structural)]
pub enum Phase {
    /// Players are drafting wonders; the age's structure is not laid out.
    WonderDraft,
    /// The weaker player is choosing who begins the next age.
    ChooseFirstPlayer,
    /// An ordinary turn: take a card from the structure.
    Turn,
    /// The game is over.
    GameOver,
}

/// One move, reduced to what the decision logic tells apart.
///
/// Every move that takes a card out of the structure names its slot; every
/// other move (a wonder-draft pick, a progress-token choice, a destroy, a
/// retrieval from the discard pile, choosing who starts) is an `Effect`,
/// told apart from its siblings by `choice`.
#[derive(Debug, Clone, Copy, PartialEq, Eq, Structural)]
pub enum Action {
    /// Build the card in `slot` into the mover's city.
    Build { slot: u8 },
    /// Discard the card in `slot` for coins.
    Discard { slot: u8 },
    /// Spend the card in `slot` to construct wonder `wonder`.
    BuildWonder { slot: u8, wonder: u8 },
    /// Any other decision.
    Effect { choice: u16 },
}

} // verus!
