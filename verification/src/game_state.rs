use vstd::prelude::*;
use std::collections::HashMap;

use crate::entity::Entity;
use crate::types::{EntityId, PlayerId, STARTING_HP};

verus! {

broadcast use vstd::std_specs::hash::group_hash_axioms;

#[derive(Debug, Clone, Copy)]
pub struct Hero {
    pub hp: i32,
    pub max_hp: i32,
    pub armor: u32,
}

impl Hero {
    /// A hero at full health.
    pub open spec fn spec_new() -> Hero {
        Hero { hp: STARTING_HP, max_hp: STARTING_HP, armor: 0 }
    }

    pub open spec fn spec_is_dead(self) -> bool {
        self.hp <= 0
    }

    pub fn new() -> (r: Self)
        ensures
            r == Hero::spec_new(),
    {
        Hero { hp: STARTING_HP, max_hp: STARTING_HP, armor: 0 }
    }

    pub fn is_dead(&self) -> (r: bool)
        ensures
            r == self.spec_is_dead(),
    {
        self.hp <= 0
    }
}

#[derive(Debug, Clone)]
pub struct Player {
    pub hero: Hero,
    pub mana_crystals: u32,
    pub mana: u32,
    pub deck: Vec<EntityId>,
    pub hand: Vec<EntityId>,
    pub board: Vec<EntityId>,
    pub graveyard: Vec<EntityId>,
    pub weapon: Option<EntityId>,
    pub fatigue_counter: u32,
}

/// The mathematical value of a `Player`: its zones as sequences of entity ids.
pub struct PlayerView {
    pub hero: Hero,
    pub mana_crystals: u32,
    pub mana: u32,
    pub deck: Seq<EntityId>,
    pub hand: Seq<EntityId>,
    pub board: Seq<EntityId>,
    pub graveyard: Seq<EntityId>,
    pub weapon: Option<EntityId>,
    pub fatigue_counter: u32,
}

impl PlayerView {
    /// A player before the game starts: full-health hero, no mana, empty zones.
    pub open spec fn fresh() -> PlayerView {
        PlayerView {
            hero: Hero::spec_new(),
            mana_crystals: 0,
            mana: 0,
            deck: Seq::empty(),
            hand: Seq::empty(),
            board: Seq::empty(),
            graveyard: Seq::empty(),
            weapon: None,
            fatigue_counter: 0,
        }
    }
}

impl View for Player {
    type V = PlayerView;

    open spec fn view(&self) -> PlayerView {
        PlayerView {
            hero: self.hero,
            mana_crystals: self.mana_crystals,
            mana: self.mana,
            deck: self.deck@,
            hand: self.hand@,
            board: self.board@,
            graveyard: self.graveyard@,
            weapon: self.weapon,
            fatigue_counter: self.fatigue_counter,
        }
    }
}

impl Player {
    pub fn new() -> (r: Self)
        ensures
            r@ == PlayerView::fresh(),
    {
        Player {
            hero: Hero::new(),
            mana_crystals: 0,
            mana: 0,
            deck: Vec::new(),
            hand: Vec::new(),
            board: Vec::new(),
            graveyard: Vec::new(),
            weapon: None,
            fatigue_counter: 0,
        }
    }
}

#[derive(Debug, Clone)]
pub struct GameState {
    pub players: [Player; 2],
    pub entities: HashMap<EntityId, Entity>,
    pub active_player: PlayerId,
    pub turn_number: u32,
    pub game_over: bool,
    pub winner: Option<PlayerId>,
    pub next_entity_id: EntityId,
}

/// The mathematical value of a `GameState`.
pub struct GameView {
    pub p0: PlayerView,
    pub p1: PlayerView,
    pub entities: Map<EntityId, Entity>,
    pub active_player: PlayerId,
    pub turn_number: u32,
    pub game_over: bool,
    pub winner: Option<PlayerId>,
    pub next_entity_id: EntityId,
}

/// The other player of a two-player game.
pub open spec fn opp(p: PlayerId) -> PlayerId {
    (1 - p) as PlayerId
}

impl GameView {
    pub open spec fn player(self, p: PlayerId) -> PlayerView {
        if p == 0 {
            self.p0
        } else {
            self.p1
        }
    }

    pub open spec fn with_player(self, p: PlayerId, pv: PlayerView) -> GameView {
        if p == 0 {
            GameView { p0: pv, ..self }
        } else {
            GameView { p1: pv, ..self }
        }
    }

    /// Every card left in a deck is a known entity.
    pub open spec fn wf(self) -> bool {
        &&& self.active_player < 2
        &&& forall|p: PlayerId, i: int|
            p < 2 && 0 <= i < self.player(p).deck.len() ==> #[trigger] self.entities.contains_key(
                self.player(p).deck[i],
            )
    }

    /// The state before any card is dealt.
    pub open spec fn fresh() -> GameView {
        GameView {
            p0: PlayerView::fresh(),
            p1: PlayerView::fresh(),
            entities: Map::empty(),
            active_player: 0,
            turn_number: 0,
            game_over: false,
            winner: None,
            next_entity_id: 1,
        }
    }
}

impl View for GameState {
    type V = GameView;

    open spec fn view(&self) -> GameView {
        GameView {
            p0: self.players@[0]@,
            p1: self.players@[1]@,
            entities: self.entities@,
            active_player: self.active_player,
            turn_number: self.turn_number,
            game_over: self.game_over,
            winner: self.winner,
            next_entity_id: self.next_entity_id,
        }
    }
}

impl GameState {
    pub open spec fn wf(&self) -> bool {
        self@.wf()
    }

    pub fn new() -> (r: Self)
        ensures
            r@ == GameView::fresh(),
    {
        GameState {
            players: [Player::new(), Player::new()],
            entities: HashMap::new(),
            active_player: 0,
            turn_number: 0,
            game_over: false,
            winner: None,
            next_entity_id: 1,
        }
    }

    /// Hands out the next entity id and advances the counter.
    pub fn alloc_entity_id(&mut self) -> (id: EntityId)
        ensures
            id == old(self).next_entity_id,
            final(self)@ == (GameView {
                next_entity_id: old(self).next_entity_id.wrapping_add(1),
                ..old(self)@
            }),
    {
        let id = self.next_entity_id;
        self.next_entity_id = self.next_entity_id.wrapping_add(1);
        id
    }

    pub fn opponent(&self, player: PlayerId) -> (r: PlayerId)
        requires
            player <= 1,
        ensures
            r == opp(player),
    {
        1 - player
    }
}

} // verus!
