use vstd::prelude::*;

use crate::card::CardId;

verus! {

#[derive(Debug, Clone, Copy, PartialEq, Eq)]
pub enum TargetFilter {
    Any,
    AnyMinion,
    FriendlyMinion,
    EnemyMinion,
    AnyCharacter,
    EnemyCharacter,
    FriendlyCharacter,
}

#[derive(Debug, Clone, Copy, PartialEq, Eq)]
pub enum TargetSpec {
    NoTarget,
    PlayerChoice(TargetFilter),
    Self_,
    All(TargetFilter),
    Random(TargetFilter),
}

#[derive(Debug, Clone, PartialEq, Eq)]
pub enum Effect {
    DealDamage { amount: u32, target: TargetSpec },
    Heal { amount: u32, target: TargetSpec },
    Summon { card_id: CardId, count: u32, for_opponent: bool },
    DrawCards { count: u32 },
    BuffMinion { attack: i32, health: i32, target: TargetSpec },
    DestroyMinion { target: TargetSpec },
}

impl Effect {
    /// The target specification of the effects that have one.
    pub open spec fn spec_target(&self) -> Option<TargetSpec> {
        match self {
            Effect::DealDamage { target, .. } => Some(*target),
            Effect::Heal { target, .. } => Some(*target),
            Effect::BuffMinion { target, .. } => Some(*target),
            Effect::DestroyMinion { target } => Some(*target),
            _ => None,
        }
    }

    /// An effect needs a player-chosen target exactly when its target is `PlayerChoice`.
    pub open spec fn spec_requires_target(&self) -> bool {
        self.spec_target() matches Some(TargetSpec::PlayerChoice(_))
    }

    pub fn requires_target(&self) -> (r: bool)
        ensures
            r == self.spec_requires_target(),
    {
        match self {
            Effect::DealDamage { target, .. }
            | Effect::Heal { target, .. }
            | Effect::BuffMinion { target, .. }
            | Effect::DestroyMinion { target } => {
                matches!(target, TargetSpec::PlayerChoice(_))
            },
            _ => false,
        }
    }

    pub fn target_spec(&self) -> (r: Option<&TargetSpec>)
        ensures
            match r {
                Some(t) => self.spec_target() == Some(*t),
                None => self.spec_target() is None,
            },
    {
        match self {
            Effect::DealDamage { target, .. }
            | Effect::Heal { target, .. }
            | Effect::BuffMinion { target, .. }
            | Effect::DestroyMinion { target } => Some(target),
            _ => None,
        }
    }
}

} // verus!
