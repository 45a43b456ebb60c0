use vstd::prelude::*;

use crate::types::{EntityId, PlayerId};

verus! {

/// An intent submitted by a player.
#[derive(Debug, Clone, Copy, PartialEq, Eq)]
pub enum Action {
    EndTurn { player: PlayerId },
    PlayCard { player: PlayerId, hand_index: usize, position: usize, target: Option<EntityId> },
    Attack { player: PlayerId, attacker: EntityId, defender: EntityId },
}

impl Action {
    /// The player submitting the action.
    pub open spec fn spec_player(self) -> PlayerId {
        match self {
            Action::EndTurn { player } => player,
            Action::PlayCard { player, .. } => player,
            Action::Attack { player, .. } => player,
        }
    }

    pub fn player(&self) -> (r: PlayerId)
        ensures
            r == self.spec_player(),
    {
        match self {
            Action::EndTurn { player } => *player,
            Action::PlayCard { player, .. } => *player,
            Action::Attack { player, .. } => *player,
        }
    }
}

} // verus!
