use vstd::prelude::*;

use crate::types::{EntityId, PlayerId};

verus! {

/// Why an action was refused.
#[derive(Debug, Clone, Copy, PartialEq, Eq)]
pub enum GameError {
    NotYourTurn { active: PlayerId, actor: PlayerId },
    GameOver,
    NotEnoughMana { available: u32, cost: u32 },
    BoardFull,
    InvalidHandIndex { index: usize, hand_size: usize },
    InvalidPosition { position: usize },
    InvalidAttacker(EntityId),
    InvalidDefender(EntityId),
    SummoningSickness,
    AlreadyAttacked,
    MustAttackTaunt,
    CannotAttackOwnMinion,
    InvalidTarget(EntityId),
    TargetRequired,
}

} // verus!
