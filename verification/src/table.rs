//! What a user interface shows of each player's hand and board: only the
//! player whose turn it is sees their hand face up, and only their minions
//! are offered as attackers.
use vstd::prelude::*;

use crate::engine::GameEngine;
use crate::game_state::GameView;
use crate::card_loader::CardRegistry;
use crate::rules::{can_attack, card_playable};
use crate::types::{EntityId, PlayerId};

verus! {

/// One card of a hand as shown at the table.
#[derive(Debug, Clone, Copy, PartialEq, Eq, Structural)]
pub struct HandSlot {
    pub entity_id: EntityId,
    pub hand_index: usize,
    /// The card is shown face up (it is in the active player's hand).
    pub face_up: bool,
    /// Face up, and its owner could play it now.
    pub playable: bool,
}

/// One minion of a board as shown at the table.
#[derive(Debug, Clone, Copy, PartialEq, Eq, Structural)]
pub struct BoardSlot {
    pub entity_id: EntityId,
    /// It belongs to the active player and may attack now.
    pub can_attack: bool,
}

/// The card at position `i` of the hand of `p`, as shown.
pub open spec fn hand_slot(g: GameView, reg: CardRegistry, p: PlayerId, i: int) -> HandSlot {
    let face_up = p == g.active_player;
    HandSlot {
        entity_id: g.player(p).hand[i],
        hand_index: i as usize,
        face_up,
        playable: face_up && card_playable(g, reg, p, i),
    }
}

/// The minion at position `i` of the board of `p`, as shown.
pub open spec fn board_slot(g: GameView, p: PlayerId, i: int) -> BoardSlot {
    let id = g.player(p).board[i];
    BoardSlot { entity_id: id, can_attack: p == g.active_player && can_attack(g, p, id) is Ok }
}

impl GameEngine {
    /// The hand of `player` in order, as shown at the table.
    pub fn hand_view(&self, player: PlayerId) -> (r: Vec<HandSlot>)
        requires
            player < 2,
        ensures
            r@.len() == self.game().player(player).hand.len(),
            forall|i: int|
                0 <= i < r@.len() ==> #[trigger] r@[i] == hand_slot(self.game(), self.reg(), player, i),
    {
        let face_up = player == self.state().active_player;
        let n = self.state().players[player].hand.len();
        let mut slots: Vec<HandSlot> = Vec::new();
        for i in 0..n
            invariant
                player < 2,
                face_up == (player == self.game().active_player),
                n == self.game().player(player).hand.len(),
                slots@.len() == i,
                forall|j: int|
                    0 <= j < i ==> #[trigger] slots@[j] == hand_slot(self.game(), self.reg(), player, j),
        {
            let playable = face_up && self.is_card_playable(player, i);
            slots.push(
                HandSlot {
                    entity_id: self.state().players[player].hand[i],
                    hand_index: i,
                    face_up,
                    playable,
                },
            );
        }
        slots
    }

    /// The board of `player` in order, as shown at the table.
    pub fn board_view(&self, player: PlayerId) -> (r: Vec<BoardSlot>)
        requires
            player < 2,
        ensures
            r@.len() == self.game().player(player).board.len(),
            forall|i: int| 0 <= i < r@.len() ==> #[trigger] r@[i] == board_slot(self.game(), player, i),
    {
        let active = player == self.state().active_player;
        let n = self.state().players[player].board.len();
        let mut slots: Vec<BoardSlot> = Vec::new();
        for i in 0..n
            invariant
                player < 2,
                active == (player == self.game().active_player),
                n == self.game().player(player).board.len(),
                slots@.len() == i,
                forall|j: int| 0 <= j < i ==> #[trigger] slots@[j] == board_slot(self.game(), player, j),
        {
            let id = self.state().players[player].board[i];
            let can = active && self.can_entity_attack(player, id).is_ok();
            slots.push(BoardSlot { entity_id: id, can_attack: can });
        }
        slots
    }
}

} // verus!
