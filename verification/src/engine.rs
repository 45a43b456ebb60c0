//! The game engine: turn structure, playing cards, combat and the action
//! entry point.
use vstd::prelude::*;
use std::sync::Arc;
use rand::rngs::StdRng;
use rand::seq::SliceRandom;

use crate::action::Action;
use crate::card::{CardDef, CardId, CardTypeData, Keyword};
use crate::card_loader::CardRegistry;
use crate::effect::Effect;
use crate::effect_exec::{find_hero_player, hero_entity_id, keeps_decks, lemma_keeps_decks_wf};
use crate::entity::{Entity, EntityData, MinionEntity};
use crate::error::GameError;
use crate::event::Event;
use crate::game_state::{opp, GameState, GameView, Hero, PlayerView};
use crate::rules::{
    attack, attack_refusal, carry_out_attack, check_deaths_heroes, enter_play, play_refusal, check_hero_death, end_turn, hero_id, minion_of, process_deaths,
    refresh_minions, set_minion, start_turn, strike, taunt_minions, play_card, process_action,
    execute_effects, any_requires_target, valid_targets, action_supported, events_result,
    hand_card_unregistered, add_deck, open_game, with_decks, can_attack, attack_targets,
    card_playable, play_targets, hand_card,
};
use crate::types::{
    EntityId, PlayerId, MAX_BOARD_SIZE, MAX_MANA, STARTING_HAND_FIRST, STARTING_HAND_SECOND,
};

verus! {

broadcast use vstd::std_specs::hash::group_hash_axioms;

/// Whether `x` occurs in `v`.
pub fn ids_contain(v: &Vec<EntityId>, x: EntityId) -> (r: bool)
    ensures
        r == v@.contains(x),
{
    let n = v.len();
    for i in 0..n
        invariant
            n == v@.len(),
            forall|k: int| 0 <= k < i ==> v@[k] != x,
    {
        if v[i] == x {
            assert(v@[i as int] == x);
            return true;
        }
    }
    false
}

/// Whether `k` occurs in `ks`.
fn keywords_contain(ks: &Vec<Keyword>, k: Keyword) -> (r: bool)
    ensures
        r == ks@.contains(k),
{
    let n = ks.len();
    for i in 0..n
        invariant
            n == ks@.len(),
            forall|j: int| 0 <= j < i ==> ks@[j] != k,
    {
        if ks[i] == k {
            assert(ks@[i as int] == k);
            return true;
        }
    }
    false
}

/// Whether one of `effects` needs a chosen target.
pub fn effects_require_target(effects: &[Effect]) -> (r: bool)
    ensures
        r == any_requires_target(effects@),
{
    let n = effects.len();
    for i in 0..n
        invariant
            n == effects@.len(),
            forall|j: int| 0 <= j < i ==> !(#[trigger] effects@[j]).spec_requires_target(),
    {
        if effects[i].requires_target() {
            assert(effects@[i as int].spec_requires_target());
            return true;
        }
    }
    false
}

impl GameState {
    /// The minions on the board of `p` lose summoning sickness and may attack again.
    fn refresh_board(&mut self, p: PlayerId)
        requires
            p < 2,
        ensures
            final(self)@ == (GameView {
                entities: refresh_minions(old(self)@.entities, old(self)@.player(p).board),
                ..old(self)@
            }),
    {
        let ghost g0 = self@;
        let n = self.players[p].board.len();
        assert(g0.player(p).board.take(0) =~= Seq::<EntityId>::empty());
        for i in 0..n
            invariant
                p < 2,
                n == g0.player(p).board.len(),
                self@ == (GameView {
                    entities: refresh_minions(g0.entities, g0.player(p).board.take(i as int)),
                    ..g0
                }),
        {
            let eid = self.players[p].board[i];
            let ghost e0 = self.entities@;
            assert(g0.player(p).board.take(i + 1).drop_last() =~= g0.player(p).board.take(i as int));
            match self.entities.remove(&eid) {
                Some(mut ent) => {
                    match ent.data {
                        EntityData::Minion(m) => {
                            ent.data = EntityData::Minion(
                                MinionEntity { summoning_sickness: false, attacks_this_turn: 0, ..m },
                            );
                        },
                        _ => {},
                    }
                    self.entities.insert(eid, ent);
                    assert(self.entities@ =~= refresh_minions(
                        g0.entities,
                        g0.player(p).board.take(i + 1),
                    ));
                },
                None => {
                    assert(self.entities@ =~= e0);
                },
            }
        }
        assert(g0.player(p).board.take(n as int) =~= g0.player(p).board);
    }

    /// Checks the hero of `p` for death.
    fn check_hero_death(&mut self, p: PlayerId) -> (r: Vec<Event>)
        requires
            p < 2,
        ensures
            (final(self)@, r@) == check_hero_death(old(self)@, p),
    {
        let mut events: Vec<Event> = Vec::new();
        if self.players[p].hero.is_dead() && !self.game_over {
            events.push(Event::HeroDied { player: p });
            self.game_over = true;
            self.winner = Some(self.opponent(p));
            events.push(Event::GameOver { winner: self.winner });
        }
        assert(events@ =~= check_hero_death(old(self)@, p).1);
        events
    }

    /// Checks both heroes for death, player 0 first.
    pub fn check_deaths_heroes(&mut self) -> (r: Vec<Event>)
        ensures
            (final(self)@, r@) == check_deaths_heroes(old(self)@),
    {
        let mut events = self.check_hero_death(0);
        let mut more = self.check_hero_death(1);
        events.append(&mut more);
        events
    }

    /// Player `player` starts a turn (see `start_turn`).
    pub fn start_turn(&mut self, player: PlayerId) -> (r: Vec<Event>)
        requires
            old(self).wf(),
            player < 2,
        ensures
            (final(self)@, r@) == start_turn(old(self)@, player),
            final(self).wf(),
    {
        let ghost g0 = self@;
        self.active_player = player;
        self.turn_number = self.turn_number.wrapping_add(1);
        let mut events: Vec<Event> = Vec::new();
        events.push(Event::TurnStarted { player, turn_number: self.turn_number });
        if self.players[player].mana_crystals < MAX_MANA {
            self.players[player].mana_crystals = self.players[player].mana_crystals + 1;
        }
        events.push(Event::ManaGained { player, new_crystals: self.players[player].mana_crystals });
        self.players[player].mana = self.players[player].mana_crystals;
        events.push(Event::ManaRefilled { player, amount: self.players[player].mana });
        self.refresh_board(player);
        assert(self@.wf()) by {
            assert forall|q: PlayerId, i: int|
                q < 2 && 0 <= i < self@.player(q).deck.len() implies #[trigger] self@.entities.contains_key(
                self@.player(q).deck[i],
            ) by {
                assert(self@.player(q).deck == g0.player(q).deck);
                assert(g0.entities.contains_key(g0.player(q).deck[i]));
                lemma_refresh_keeps_keys(g0.entities, g0.player(player).board, g0.player(q).deck[i]);
            }
        }
        let ghost g3 = self@;
        let ghost e3 = events@;
        let mut drawn = self.draw_card(player);
        events.append(&mut drawn);
        let ghost g4 = self@;
        let ghost e4 = events@;
        if self.players[player].hero.is_dead() {
            let mut deaths = self.check_deaths_heroes();
            events.append(&mut deaths);
            proof {
                lemma_keeps_decks_wf(g4, self@);
            }
        }
        proof {
            let s = start_turn(g0, player);
            assert(self@ == s.0);
            assert(events@ =~= s.1);
        }
        events
    }

    /// Player `player` ends the turn; the opponent starts one.
    pub fn handle_end_turn(&mut self, player: PlayerId) -> (r: Vec<Event>)
        requires
            old(self).wf(),
            player < 2,
        ensures
            (final(self)@, r@) == end_turn(old(self)@, player),
            final(self).wf(),
    {
        let mut events: Vec<Event> = Vec::new();
        events.push(Event::TurnEnded { player });
        let next = self.opponent(player);
        let mut more = self.start_turn(next);
        events.append(&mut more);
        events
    }
}

impl GameState {
    /// The minions of player `p` that have taunt, in board order.
    pub fn taunt_minions_of(&self, p: PlayerId) -> (r: Vec<EntityId>)
        requires
            p < 2,
        ensures
            r@ == taunt_minions(self@, self@.player(p).board),
    {
        let ghost b = self@.player(p).board;
        let mut out: Vec<EntityId> = Vec::new();
        let n = self.players[p].board.len();
        assert(b.take(0) =~= Seq::<EntityId>::empty());
        for i in 0..n
            invariant
                p < 2,
                n == b.len(),
                b == self@.player(p).board,
                out@ == taunt_minions(self@, b.take(i as int)),
        {
            let eid = self.players[p].board[i];
            assert(b.take(i + 1).drop_last() =~= b.take(i as int));
            match self.minion(eid) {
                Some(m) => {
                    if m.keywords.taunt {
                        out.push(eid);
                    }
                },
                None => {},
            }
        }
        assert(b.take(n as int) =~= b);
        out
    }

    /// Combat damage to `id` (see `strike`).
    fn strike(&mut self, id: EntityId, amount: u32, source: EntityId) -> (r: Vec<Event>)
        requires
            old(self).wf(),
        ensures
            (final(self)@, r@) == strike(old(self)@, id, amount, source),
            final(self).wf(),
    {
        let ghost g0 = self@;
        let mut events: Vec<Event> = Vec::new();
        match self.minion(id) {
            Some(m) => {
                if m.keywords.divine_shield {
                    let mut ks = m.keywords;
                    ks.remove(&Keyword::DivineShield);
                    self.put_minion(id, MinionEntity { keywords: ks, ..m });
                    events.push(Event::DivineShieldPopped { entity_id: id });
                } else {
                    self.put_minion(id, MinionEntity { health: m.health.wrapping_sub(amount as i32), ..m });
                    events.push(Event::DamageDealt { target: id, amount, source: Some(source) });
                }
                proof {
                    lemma_keeps_decks_wf(g0, self@);
                }
            },
            None => {
                events.push(Event::DamageDealt { target: id, amount, source: Some(source) });
            },
        }
        assert(events@ =~= strike(g0, id, amount, source).1);
        events
    }

    /// Why the attack is refused, if so (see `attack_refusal`).
    fn attack_refusal(&self, player: PlayerId, attacker_id: EntityId, defender_id: EntityId) -> (r:
        Option<GameError>)
        requires
            player < 2,
        ensures
            r == attack_refusal(self@, player, attacker_id, defender_id),
    {
        if !ids_contain(&self.players[player].board, attacker_id) {
            return Some(GameError::InvalidAttacker(attacker_id));
        }
        let opp = self.opponent(player);
        if ids_contain(&self.players[player].board, defender_id) {
            return Some(GameError::CannotAttackOwnMinion);
        }
        let attacking_hero = !ids_contain(&self.players[opp].board, defender_id);
        let m = match self.minion(attacker_id) {
            Some(m) => m,
            None => {
                return Some(GameError::InvalidAttacker(attacker_id));
            },
        };
        if m.summoning_sickness && !m.keywords.contains(&Keyword::Charge) {
            return Some(GameError::SummoningSickness);
        }
        if m.attacks_this_turn >= 1 {
            return Some(GameError::AlreadyAttacked);
        }
        let taunts = self.taunt_minions_of(opp);
        if taunts.len() > 0 && attacking_hero {
            return Some(GameError::MustAttackTaunt);
        }
        if taunts.len() > 0 && !ids_contain(&taunts, defender_id) {
            return Some(GameError::MustAttackTaunt);
        }
        if !attacking_hero && self.minion(defender_id).is_none() {
            return Some(GameError::InvalidDefender(defender_id));
        }
        None
    }

    /// The attacker's hit on the opponent's hero.
    fn attack_hero(&mut self, player: PlayerId, attacker_id: EntityId, defender_id: EntityId, attack: u32) -> (r:
        Vec<Event>)
        requires
            old(self).wf(),
            player < 2,
        ensures
            ({
                let o = opp(player);
                let hero = old(self)@.player(o).hero;
                let hp = hero.hp.wrapping_sub(attack as i32);
                let g2 = crate::rules::set_hero(old(self)@, o, Hero { hp, ..hero });
                let e2 = seq![
                    Event::DamageDealt { target: defender_id, amount: attack, source: Some(attacker_id) },
                    Event::HeroDamaged { player: o, amount: attack, new_hp: hp },
                ];
                (final(self)@, r@) == if hp <= 0 {
                    (
                        GameView { game_over: true, winner: Some(player), ..g2 },
                        e2 + seq![Event::HeroDied { player: o }, Event::GameOver { winner: Some(player) }],
                    )
                } else {
                    (g2, e2)
                }
            }),
            final(self).wf(),
    {
        let ghost g0 = self@;
        let opp = self.opponent(player);
        let mut events: Vec<Event> = Vec::new();
        self.players[opp].hero.hp = self.players[opp].hero.hp.wrapping_sub(attack as i32);
        let new_hp = self.players[opp].hero.hp;
        events.push(Event::DamageDealt { target: defender_id, amount: attack, source: Some(attacker_id) });
        events.push(Event::HeroDamaged { player: opp, amount: attack, new_hp });
        if self.players[opp].hero.is_dead() {
            events.push(Event::HeroDied { player: opp });
            self.game_over = true;
            self.winner = Some(player);
            events.push(Event::GameOver { winner: Some(player) });
        }
        proof {
            lemma_keeps_decks_wf(g0, self@);
        }
        assert(events@ =~= (if new_hp <= 0 {
            seq![
                Event::DamageDealt { target: defender_id, amount: attack, source: Some(attacker_id) },
                Event::HeroDamaged { player: opp, amount: attack, new_hp },
            ] + seq![Event::HeroDied { player: opp }, Event::GameOver { winner: Some(player) }]
        } else {
            seq![
                Event::DamageDealt { target: defender_id, amount: attack, source: Some(attacker_id) },
                Event::HeroDamaged { player: opp, amount: attack, new_hp },
            ]
        }));
        events
    }

    /// The attack itself (see `carry_out_attack`).
    fn carry_out_attack(
        &mut self,
        reg: &CardRegistry,
        player: PlayerId,
        attacker_id: EntityId,
        defender_id: EntityId,
        m: MinionEntity,
    ) -> (r: Result<Vec<Event>, GameError>)
        requires
            old(self).wf(),
            player < 2,
            minion_of(old(self)@, attacker_id) == Some(m),
            m.attacks_this_turn < 1,
            old(self)@.player(opp(player)).board.contains(defender_id) ==> minion_of(
                old(self)@,
                defender_id,
            ) is Some,
        ensures
            (final(self)@, events_result(r)) == carry_out_attack(
                old(self)@,
                *reg,
                player,
                attacker_id,
                defender_id,
                m,
            ),
            final(self).wf(),
    {
        let ghost g0 = self@;
        let opp = self.opponent(player);
        let attacking_hero = !ids_contain(&self.players[opp].board, defender_id);
        let attacker_attack = m.attack;
        let mut events: Vec<Event> = Vec::new();
        events.push(Event::AttackPerformed { attacker: attacker_id, defender: defender_id });
        let ghost e1 = events@;
        self.put_minion(attacker_id, MinionEntity { attacks_this_turn: m.attacks_this_turn + 1, ..m });
        proof {
            lemma_keeps_decks_wf(g0, self@);
        }
        if attacking_hero {
            let mut more = self.attack_hero(player, attacker_id, defender_id, attacker_attack);
            let ghost s2 = more@;
            events.append(&mut more);
            assert(events@ =~= e1 + s2);
            proof {
                let s = carry_out_attack(g0, *reg, player, attacker_id, defender_id, m);
                assert(self@ == s.0);
                assert(events@ =~= s.1->Ok_0);
            }
        } else {
            let dm = match self.minion(defender_id) {
                Some(d) => d,
                None => {
                    proof {
                        assert(false);
                    }
                    return Err(GameError::InvalidDefender(defender_id));
                },
            };
            let mut e2 = self.strike(defender_id, attacker_attack, attacker_id);
            let ghost s2 = e2@;
            events.append(&mut e2);
            let mut e3 = self.strike(attacker_id, dm.attack, defender_id);
            let ghost s3 = e3@;
            events.append(&mut e3);
            let mut e4 = self.process_deaths_with_deathrattles(reg, 0);
            let ghost s4 = e4@;
            events.append(&mut e4);
            proof {
                assert(events@ =~= e1 + s2 + s3 + s4);
            }
        }
        Ok(events)
    }

    /// Minion `attacker_id` of `player` attacks `defender_id` (see `attack`).
    pub fn handle_attack(
        &mut self,
        reg: &CardRegistry,
        player: PlayerId,
        attacker_id: EntityId,
        defender_id: EntityId,
    ) -> (r: Result<Vec<Event>, GameError>)
        requires
            old(self).wf(),
            player < 2,
        ensures
            (final(self)@, events_result(r)) == attack(old(self)@, *reg, player, attacker_id, defender_id),
            final(self).wf(),
    {
        match self.attack_refusal(player, attacker_id, defender_id) {
            Some(e) => Err(e),
            None => {
                let m = match self.minion(attacker_id) {
                    Some(m) => m,
                    None => {
                        return Err(GameError::InvalidAttacker(attacker_id));
                    },
                };
                self.carry_out_attack(reg, player, attacker_id, defender_id, m)
            },
        }
    }

    /// Why `def` may not be played now with `target` (see `play_refusal`).
    fn play_refusal(&self, player: PlayerId, def: &CardDef, target: Option<EntityId>) -> (r: Option<
        GameError,
    >)
        requires
            player < 2,
        ensures
            r == play_refusal(self@, player, *def, target),
    {
        let effects = def.effects.as_slice();
        let needs = effects_require_target(effects);
        if needs && target.is_none() {
            match self.valid_targets(effects, player) {
                Some(t) => {
                    if t.len() > 0 {
                        return Some(GameError::TargetRequired);
                    }
                },
                None => {},
            }
        }
        match target {
            Some(tid) => {
                if needs {
                    match self.valid_targets(effects, player) {
                        Some(ts) => {
                            if !ids_contain(&ts, tid) {
                                return Some(GameError::InvalidTarget(tid));
                            }
                        },
                        None => {},
                    }
                }
            },
            None => {},
        }
        if self.players[player].mana < def.mana_cost {
            return Some(
                GameError::NotEnoughMana { available: self.players[player].mana, cost: def.mana_cost },
            );
        }
        if matches!(def.card_type, CardTypeData::Minion(_)) && self.players[player].board.len()
            >= MAX_BOARD_SIZE {
            return Some(GameError::BoardFull);
        }
        None
    }

    /// The card enters play (see `enter_play`).
    #[verifier::spinoff_prover]
    #[verifier::rlimit(40)]
    fn enter_play(
        &mut self,
        reg: &CardRegistry,
        player: PlayerId,
        hand_index: usize,
        position: usize,
        target: Option<EntityId>,
        eid: EntityId,
        card_id: String,
        card_def: &CardDef,
    ) -> (r: Result<Vec<Event>, GameError>)
        requires
            old(self).wf(),
            player < 2,
            hand_index < old(self)@.player(player).hand.len(),
            card_def.mana_cost <= old(self)@.player(player).mana,
            card_def.card_type is Minion ==> old(self)@.player(player).board.len() < MAX_BOARD_SIZE,
        ensures
            (final(self)@, events_result(r)) == enter_play(
                old(self)@,
                *reg,
                player,
                hand_index,
                position,
                target,
                eid,
                card_id,
                *card_def,
            ),
            final(self).wf(),
    {
        let ghost g0 = self@;
        let ghost cid = card_id;
        let mana_cost = card_def.mana_cost;
        let effects = card_def.effects.as_slice();
        let has_battlecry = keywords_contain(&card_def.keywords, Keyword::Battlecry);
        let mut events: Vec<Event> = Vec::new();
        self.players[player].hand.remove(hand_index);
        events.push(Event::CardPlayed { player, entity_id: eid, card_id, hand_index });
        self.players[player].mana = self.players[player].mana - mana_cost;
        events.push(Event::ManaSpent { player, amount: mana_cost, remaining: self.players[player].mana });
        proof {
            lemma_keeps_decks_wf(g0, self@);
        }
        let ghost g1 = self@;
        let ghost e1 = events@;
        match card_def.card_type {
            CardTypeData::Minion(_) => {
                let board_len = self.players[player].board.len();
                let insert_pos = if position < board_len {
                    position
                } else {
                    board_len
                };
                self.players[player].board.insert(insert_pos, eid);
                events.push(Event::MinionSummoned { player, entity_id: eid, position: insert_pos });
                proof {
                    lemma_keeps_decks_wf(g1, self@);
                }
                if has_battlecry && effects.len() > 0 {
                    let mut more = self.execute_effects(reg, effects, player, target, 0);
                    events.append(&mut more);
                }
            },
            CardTypeData::Spell => {
                events.push(Event::SpellCast { player, entity_id: eid });
                if effects.len() > 0 {
                    let mut more = self.execute_effects(reg, effects, player, target, 0);
                    events.append(&mut more);
                }
            },
            CardTypeData::Weapon(_) => {
                match self.players[player].weapon {
                    Some(old_wep_id) => {
                        events.push(Event::WeaponDestroyed { player, entity_id: old_wep_id });
                    },
                    None => {},
                }
                self.players[player].weapon = Some(eid);
                events.push(Event::WeaponEquipped { player, entity_id: eid });
                proof {
                    lemma_keeps_decks_wf(g1, self@);
                }
            },
        }
        proof {
            let s = enter_play(g0, *reg, player, hand_index, position, target, eid, cid, *card_def);
            assert(self@ == s.0);
            assert(events@ =~= s.1->Ok_0);
        }
        Ok(events)
    }

    /// Player `player` plays the card at `hand_index` (see `play_card`).
    pub fn handle_play_card(
        &mut self,
        reg: &CardRegistry,
        player: PlayerId,
        hand_index: usize,
        position: usize,
        target: Option<EntityId>,
    ) -> (r: Result<Vec<Event>, GameError>)
        requires
            old(self).wf(),
            player < 2,
            !hand_card_unregistered(old(self)@, *reg, player, hand_index as int),
        ensures
            (final(self)@, events_result(r)) == play_card(
                old(self)@,
                *reg,
                player,
                hand_index,
                position,
                target,
            ),
            final(self).wf(),
    {
        let hand_size = self.players[player].hand.len();
        if hand_index >= hand_size {
            return Err(GameError::InvalidHandIndex { index: hand_index, hand_size });
        }
        let eid = self.players[player].hand[hand_index];
        let card_id = match self.entities.get(&eid) {
            Some(e) => e.card_id.clone(),
            None => {
                return Err(GameError::InvalidHandIndex { index: hand_index, hand_size });
            },
        };
        let card_def: &CardDef = match reg.get(card_id.as_str()) {
            Some(d) => d,
            None => {
                return Err(GameError::InvalidHandIndex { index: hand_index, hand_size });
            },
        };
        match self.play_refusal(player, card_def, target) {
            Some(e) => Err(e),
            None => self.enter_play(reg, player, hand_index, position, target, eid, card_id, card_def),
        }
    }

    /// Applies an action (see `process_action`).
    pub fn process_action(&mut self, reg: &CardRegistry, action: Action) -> (r: Result<
        Vec<Event>,
        GameError,
    >)
        requires
            old(self).wf(),
            action_supported(old(self)@, *reg, action),
        ensures
            (final(self)@, events_result(r)) == process_action(old(self)@, *reg, action),
            final(self).wf(),
    {
        if self.game_over {
            return Err(GameError::GameOver);
        }
        let actor = action.player();
        if actor != self.active_player {
            return Err(GameError::NotYourTurn { active: self.active_player, actor });
        }
        match action {
            Action::EndTurn { player } => Ok(self.handle_end_turn(player)),
            Action::PlayCard { player, hand_index, position, target } => self.handle_play_card(
                reg,
                player,
                hand_index,
                position,
                target,
            ),
            Action::Attack { player, attacker, defender } => self.handle_attack(
                reg,
                player,
                attacker,
                defender,
            ),
        }
    }
}

impl GameState {
    /// Whether the state is well formed: the active player is 0 or 1 and
    /// every card left in a deck is a known entity.
    pub fn is_well_formed(&self) -> (r: bool)
        ensures
            r == self.wf(),
    {
        if self.active_player >= 2 {
            return false;
        }
        let mut p: usize = 0;
        while p < 2
            invariant
                p <= 2,
                self.active_player < 2,
                forall|q: PlayerId, i: int|
                    q < p && 0 <= i < self@.player(q).deck.len() ==> #[trigger] self@.entities.contains_key(
                        self@.player(q).deck[i],
                    ),
            decreases 2 - p,
        {
            let n = self.players[p].deck.len();
            for i in 0..n
                invariant
                    p < 2,
                    n == self@.player(p).deck.len(),
                    forall|k: int| 0 <= k < i ==> #[trigger] self@.entities.contains_key(
                        self@.player(p).deck[k],
                    ),
            {
                if !self.entities.contains_key(&self.players[p].deck[i]) {
                    assert(!self@.entities.contains_key(self@.player(p).deck[i as int]));
                    return false;
                }
            }
            p = p + 1;
        }
        true
    }

    /// Adds the cards of a deck list that the registry knows to the deck of
    /// `p` (see `add_deck`).
    pub fn add_deck(&mut self, reg: &CardRegistry, p: PlayerId, ids: &[CardId])
        requires
            p < 2,
            old(self).wf(),
        ensures
            final(self)@ == add_deck(old(self)@, *reg, p, ids@),
            final(self).wf(),
    {
        let ghost g0 = self@;
        let n = ids.len();
        assert(ids@.take(0) =~= Seq::<CardId>::empty());
        for i in 0..n
            invariant
                p < 2,
                n == ids@.len(),
                self.wf(),
                self@ == add_deck(g0, *reg, p, ids@.take(i as int)),
        {
            let ghost gi = self@;
            assert(ids@.take(i + 1).drop_last() =~= ids@.take(i as int));
            match reg.get(ids[i].as_str()) {
                Some(def) => {
                    let eid = self.alloc_entity_id();
                    let entity = Entity::from_card_def(eid, def, p);
                    self.entities.insert(eid, entity);
                    self.players[p].deck.push(eid);
                    assert(self@.wf()) by {
                        assert forall|q: PlayerId, k: int|
                            q < 2 && 0 <= k < self@.player(q).deck.len() implies #[trigger] self@.entities.contains_key(
                            self@.player(q).deck[k],
                        ) by {
                            if q == p && k == self@.player(q).deck.len() - 1 {
                            } else {
                                assert(self@.player(q).deck[k] == gi.player(q).deck[k]);
                                assert(gi.entities.contains_key(gi.player(q).deck[k]));
                            }
                        }
                    }
                },
                None => {},
            }
        }
        assert(ids@.take(n as int) =~= ids@);
    }
}

#[verifier::external_type_specification]
#[verifier::external_body]
pub struct ExStdRng(StdRng);

/// Shuffles a deck with rand's `SliceRandom::shuffle`: the order that comes
/// out depends on the generator's state and is not stated; what is stated is
/// that the deck holds the same ids as before, each as often.
#[verifier::external_body]
fn shuffle_deck(deck: &mut Vec<EntityId>, rng: &mut StdRng)
    ensures
        final(deck)@.to_multiset() == old(deck)@.to_multiset(),
{
    deck.shuffle(rng);
}

/// A running game: its state, the cards it is played with, and the random
/// generator that shuffled the decks.
pub struct GameEngine {
    pub state: GameState,
    registry: Arc<CardRegistry>,
    #[allow(dead_code)]
    rng: StdRng,
}

impl GameEngine {
    /// The card registry the game is played with.
    pub closed spec fn reg(&self) -> CardRegistry {
        *self.registry
    }

    /// The mathematical value of the game state.
    pub closed spec fn game(&self) -> GameView {
        self.state@
    }

    /// The state is well formed (see `GameView::wf`).
    pub open spec fn wf(&self) -> bool {
        self.game().wf()
    }

    /// Sentinel id of the opponent's hero as an attack target: any id that
    /// is not on the opponent's board stands for the hero.
    pub const HERO_ENTITY_ID: EntityId = 0;

    /// Starts a game: each deck list becomes a deck of new entities (ids the
    /// registry does not know are skipped), both decks are shuffled, the
    /// opening hands are drawn and player 0 starts the first turn. The
    /// shuffled order is not stated; the result is the opening played on
    /// some reordering of each built deck.
    pub fn new_game(registry: Arc<CardRegistry>, deck_p0: &[CardId], deck_p1: &[CardId], rng: StdRng) -> (r: (
        Self,
        Vec<Event>,
    ))
        ensures
            r.0.reg() == *registry,
            r.0.wf(),
            ({
                let built = add_deck(add_deck(GameView::fresh(), *registry, 0, deck_p0@), *registry, 1, deck_p1@);
                exists|d0: Seq<EntityId>, d1: Seq<EntityId>|
                    #![trigger with_decks(built, d0, d1)]
                    {
                        &&& d0.to_multiset() == built.p0.deck.to_multiset()
                        &&& d1.to_multiset() == built.p1.deck.to_multiset()
                        &&& (r.0.game(), r.1@) == ({
                            let (g, e) = open_game(with_decks(built, d0, d1));
                            (g, seq![Event::GameStarted] + e)
                        })
                    }
            }),
    {
        let mut state = GameState::new();
        state.add_deck(&*registry, 0, deck_p0);
        state.add_deck(&*registry, 1, deck_p1);
        let ghost built = state@;
        let mut rng = rng;
        shuffle_deck(&mut state.players[0].deck, &mut rng);
        shuffle_deck(&mut state.players[1].deck, &mut rng);
        let ghost d0 = state@.p0.deck;
        let ghost d1 = state@.p1.deck;
        assert(state@ == with_decks(built, d0, d1));
        assert(state@.wf()) by {
            broadcast use vstd::seq_lib::to_multiset_contains;
            assert forall|q: PlayerId, k: int|
                q < 2 && 0 <= k < state@.player(q).deck.len() implies #[trigger] state@.entities.contains_key(
                state@.player(q).deck[k],
            ) by {
                let x = state@.player(q).deck[k];
                assert(state@.player(q).deck.contains(x));
                assert(built.player(q).deck.to_multiset().count(x) > 0);
                assert(built.player(q).deck.contains(x));
                let j = choose|j: int| 0 <= j < built.player(q).deck.len() && built.player(q).deck[j] == x;
                assert(built.entities.contains_key(built.player(q).deck[j]));
            }
        }
        let mut engine = GameEngine { state, registry, rng };
        let mut events: Vec<Event> = Vec::new();
        events.push(Event::GameStarted);
        let mut more = engine.deal_opening_hands();
        events.append(&mut more);
        proof {
            let (g, e) = open_game(with_decks(built, d0, d1));
            assert(events@ =~= seq![Event::GameStarted] + e);
        }
        (engine, events)
    }

    /// Plays the opening on the current decks (see `open_game`): the decks
    /// are taken as shuffled.
    pub fn deal_opening_hands(&mut self) -> (r: Vec<Event>)
        requires
            old(self).wf(),
        ensures
            (final(self).game(), r@) == open_game(old(self).game()),
            final(self).reg() == old(self).reg(),
            final(self).wf(),
    {
        let mut events = self.state.draw_cards(0, STARTING_HAND_FIRST as u32);
        let mut more = self.state.draw_cards(1, STARTING_HAND_SECOND as u32);
        events.append(&mut more);
        let mut turn = self.state.start_turn(0);
        events.append(&mut turn);
        events
    }

    /// Applies an action (see `process_action`).
    pub fn process_action(&mut self, action: Action) -> (r: Result<Vec<Event>, GameError>)
        requires
            old(self).wf(),
            action_supported(old(self).game(), old(self).reg(), action),
        ensures
            (final(self).game(), events_result(r)) == process_action(
                old(self).game(),
                old(self).reg(),
                action,
            ),
            final(self).reg() == old(self).reg(),
            final(self).wf(),
    {
        self.state.process_action(&*self.registry, action)
    }

    /// Whether `action` can be applied without breaking the registry's
    /// promise (see `action_supported`).
    pub fn supports(&self, action: &Action) -> (r: bool)
        ensures
            r == action_supported(self.game(), self.reg(), *action),
    {
        match action {
            Action::PlayCard { player, hand_index, .. } => {
                if self.state.game_over || *player != self.state.active_player || *player >= 2
                    || *hand_index >= self.state.players[*player].hand.len() {
                    return true;
                }
                let eid = self.state.players[*player].hand[*hand_index];
                match self.state.entities.get(&eid) {
                    Some(e) => self.registry.get(e.card_id.as_str()).is_some(),
                    None => true,
                }
            },
            _ => true,
        }
    }

    /// Runs `effects` for `caster` at nesting `depth` (see `execute_effects`).
    pub fn execute_effects(
        &mut self,
        effects: &[Effect],
        caster: PlayerId,
        target: Option<EntityId>,
        depth: u32,
    ) -> (r: Vec<Event>)
        requires
            old(self).wf(),
            caster < 2,
        ensures
            (final(self).game(), r@) == execute_effects(
                old(self).game(),
                old(self).reg(),
                effects@,
                caster,
                target,
                depth,
            ),
            final(self).reg() == old(self).reg(),
            final(self).wf(),
    {
        self.state.execute_effects(&*self.registry, effects, caster, target, depth)
    }

    pub fn state(&self) -> (r: &GameState)
        ensures
            r@ == self.game(),
    {
        &self.state
    }

    pub fn registry(&self) -> (r: &CardRegistry)
        ensures
            *r == self.reg(),
    {
        &*self.registry
    }

    /// The id that stands for the hero of `player` as a target.
    pub fn hero_entity_id(player: PlayerId) -> (r: EntityId)
        ensures
            r == hero_id(player),
    {
        hero_entity_id(player)
    }

    /// The characters `caster` may choose for `effects`, when one of them
    /// needs a chosen target.
    pub fn valid_targets(&self, effects: &[Effect], caster: PlayerId) -> (r: Option<Vec<EntityId>>)
        requires
            caster < 2,
        ensures
            match r {
                Some(v) => valid_targets(self.game(), effects@, caster) == Some(v@),
                None => valid_targets(self.game(), effects@, caster) is None,
            },
    {
        self.state.valid_targets(effects, caster)
    }

    /// Whether one of `effects` needs a chosen target.
    pub fn any_effect_requires_target(effects: &[Effect]) -> (r: bool)
        ensures
            r == any_requires_target(effects@),
    {
        effects_require_target(effects)
    }

    /// Whether minion `entity_id` of `player` may attack now (see `can_attack`).
    pub fn can_entity_attack(&self, player: PlayerId, entity_id: EntityId) -> (r: Result<(), GameError>)
        requires
            player < 2,
        ensures
            r == can_attack(self.game(), player, entity_id),
    {
        if !ids_contain(&self.state.players[player].board, entity_id) {
            return Err(GameError::InvalidAttacker(entity_id));
        }
        let minion = match self.state.minion(entity_id) {
            Some(m) => m,
            None => {
                return Err(GameError::InvalidAttacker(entity_id));
            },
        };
        if minion.summoning_sickness && !minion.keywords.contains(&Keyword::Charge) {
            return Err(GameError::SummoningSickness);
        }
        if minion.attacks_this_turn >= 1 {
            return Err(GameError::AlreadyAttacked);
        }
        Ok(())
    }

    /// What `player` may attack: the opponent's taunt minions if any,
    /// otherwise the opponent's minions followed by the opponent's hero.
    pub fn valid_attack_targets(&self, player: PlayerId, _attacker_id: EntityId) -> (r: Vec<EntityId>)
        requires
            player < 2,
        ensures
            r@ == attack_targets(self.game(), player),
    {
        let opp = self.state.opponent(player);
        let taunts = self.state.taunt_minions_of(opp);
        if taunts.len() > 0 {
            return taunts;
        }
        let mut targets: Vec<EntityId> = Vec::new();
        let n = self.state.players[opp].board.len();
        for i in 0..n
            invariant
                opp < 2,
                n == self.game().player(opp).board.len(),
                targets@ == self.game().player(opp).board.take(i as int),
        {
            targets.push(self.state.players[opp].board[i]);
            assert(self.game().player(opp).board.take(i + 1) =~= targets@);
        }
        assert(self.game().player(opp).board.take(n as int) =~= self.game().player(opp).board);
        targets.push(hero_entity_id(opp));
        targets
    }

    /// The definition of the card at `hand_index` of `player`, if any.
    fn hand_card_def(&self, player: PlayerId, hand_index: usize) -> (r: Option<&CardDef>)
        requires
            player < 2,
        ensures
            match r {
                Some(d) => hand_card(self.game(), self.reg(), player, hand_index as int) == Some(*d),
                None => hand_card(self.game(), self.reg(), player, hand_index as int) is None,
            },
    {
        let hand = &self.state.players[player].hand;
        if hand_index >= hand.len() {
            return None;
        }
        let eid = hand[hand_index];
        match self.state.entities.get(&eid) {
            Some(e) => self.registry.get(e.card_id.as_str()),
            None => None,
        }
    }

    /// Whether `player` could play the card at `hand_index` now (see `card_playable`).
    pub fn is_card_playable(&self, player: PlayerId, hand_index: usize) -> (r: bool)
        requires
            player < 2,
        ensures
            r == card_playable(self.game(), self.reg(), player, hand_index as int),
    {
        let card_def = match self.hand_card_def(player, hand_index) {
            Some(c) => c,
            None => {
                return false;
            },
        };
        if card_def.mana_cost > self.state.players[player].mana {
            return false;
        }
        if matches!(card_def.card_type, CardTypeData::Minion(_))
            && self.state.players[player].board.len() >= MAX_BOARD_SIZE {
            return false;
        }
        true
    }

    /// The targets `player` may choose for the card at `hand_index`, when it
    /// needs one (see `play_targets`).
    pub fn valid_play_targets_for_hand(&self, player: PlayerId, hand_index: usize) -> (r: Option<
        Vec<EntityId>,
    >)
        requires
            player < 2,
        ensures
            match r {
                Some(v) => play_targets(self.game(), self.reg(), player, hand_index as int) == Some(v@),
                None => play_targets(self.game(), self.reg(), player, hand_index as int) is None,
            },
    {
        let card_def = match self.hand_card_def(player, hand_index) {
            Some(c) => c,
            None => {
                return None;
            },
        };
        if effects_require_target(card_def.effects.as_slice()) {
            self.state.valid_targets(card_def.effects.as_slice(), player)
        } else {
            None
        }
    }
}

/// Refreshing minions never forgets an entity.
pub(crate) proof fn lemma_refresh_keeps_keys(ents: Map<EntityId, Entity>, board: Seq<EntityId>, id: EntityId)
    requires
        ents.contains_key(id),
    ensures
        refresh_minions(ents, board).contains_key(id),
    decreases board.len(),
{
    if board.len() > 0 {
        lemma_refresh_keeps_keys(ents, board.drop_last(), id);
    }
}

} // verus!
