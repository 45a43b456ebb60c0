use vstd::prelude::*;

verus! {

/// Identifier of an entity (a card instance) in a game.
pub type EntityId = u64;

/// Index of a player: 0 or 1.
pub type PlayerId = usize;

/// Hit points each hero starts with (and its maximum).
pub const STARTING_HP: i32 = 30;

/// Upper bound on a player's mana crystals.
pub const MAX_MANA: u32 = 10;

/// A drawn card is burned when the hand already holds this many cards.
pub const MAX_HAND_SIZE: usize = 10;

/// Number of minions a board can hold.
pub const MAX_BOARD_SIZE: usize = 7;

/// Cards drawn into the opening hand of the first player.
pub const STARTING_HAND_FIRST: usize = 3;

/// Cards drawn into the opening hand of the second player.
pub const STARTING_HAND_SECOND: usize = 4;

} // verus!
