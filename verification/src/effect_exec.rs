//! The executable effect system: targeting, damage, healing, buffs,
//! summons, draws, deaths and deathrattles.
use vstd::prelude::*;

use crate::card_loader::CardRegistry;
use crate::effect::{Effect, TargetFilter, TargetSpec};
use crate::entity::{Entity, EntityData, MinionEntity};
use crate::event::Event;
use crate::game_state::{opp, GameState, GameView, Hero};
use crate::rules::{
    bury_from, damage_all, damage_hero, deal_damage, hit_minion, deaths_of_player, depth_left, effects_from,
    execute_effects, has_deathrattle, is_alive, process_deaths, single_effect, split_board,
    MAX_EFFECT_DEPTH, buff_all, buff_one, destroy_all, draw_card, draw_n, first_choice_filter, heal_all, heal_one,
    hero_id, hero_owner, matching, minion_of, resolve_targets, set_minion, summon_n,
    valid_targets, any_requires_target,
};
use crate::types::{EntityId, PlayerId, MAX_BOARD_SIZE, MAX_HAND_SIZE};

verus! {

broadcast use vstd::std_specs::hash::group_hash_axioms;

/// `a` and `b` agree on the decks, the active player and the known entities
/// of `a` (which `b` may extend).
pub open spec fn keeps_decks(a: GameView, b: GameView) -> bool {
    &&& b.p0.deck == a.p0.deck
    &&& b.p1.deck == a.p1.deck
    &&& b.active_player == a.active_player
    &&& forall|id: EntityId| a.entities.contains_key(id) ==> #[trigger] b.entities.contains_key(id)
}

pub proof fn lemma_keeps_decks_wf(a: GameView, b: GameView)
    requires
        a.wf(),
        keeps_decks(a, b),
    ensures
        b.wf(),
{
    assert forall|p: PlayerId, i: int|
        p < 2 && 0 <= i < b.player(p).deck.len() implies #[trigger] b.entities.contains_key(
        b.player(p).deck[i],
    ) by {
        assert(a.entities.contains_key(a.player(p).deck[i]));
    }
}

/// The id that stands for the hero of `player` as a target: 0 for player
/// 0, `u64::MAX` for player 1.
pub fn hero_entity_id(player: PlayerId) -> (r: EntityId)
    ensures
        r == hero_id(player),
{
    if player == 0 {
        0
    } else {
        u64::MAX
    }
}

/// The player whose hero `entity_id` stands for.
pub fn find_hero_player(entity_id: EntityId) -> (r: Option<PlayerId>)
    ensures
        r == hero_owner(entity_id),
{
    if entity_id == hero_entity_id(0) {
        Some(0)
    } else if entity_id == hero_entity_id(1) {
        Some(1)
    } else {
        None
    }
}

/// Appends the ids of `src` to `dst`.
fn append_ids(dst: &mut Vec<EntityId>, src: &Vec<EntityId>)
    ensures
        final(dst)@ == old(dst)@ + src@,
{
    let ghost d0 = dst@;
    let n = src.len();
    for i in 0..n
        invariant
            n == src@.len(),
            dst@ == d0 + src@.take(i as int),
    {
        dst.push(src[i]);
        assert(d0 + src@.take(i + 1) =~= (d0 + src@.take(i as int)).push(src@[i as int]));
    }
    assert(src@.take(n as int) =~= src@);
}

impl GameState {
    /// The stats of minion `id`, if it is a known minion.
    pub fn minion(&self, id: EntityId) -> (r: Option<MinionEntity>)
        ensures
            r == minion_of(self@, id),
    {
        match self.entities.get(&id) {
            Some(e) => match e.data {
                EntityData::Minion(m) => Some(m),
                _ => None,
            },
            None => None,
        }
    }

    /// Replaces the stats of the known entity `id` by minion stats `m`.
    pub fn put_minion(&mut self, id: EntityId, m: MinionEntity)
        requires
            old(self).entities@.contains_key(id),
        ensures
            final(self)@ == set_minion(old(self)@, id, m),
            keeps_decks(old(self)@, final(self)@),
    {
        let ghost g0 = self@;
        match self.entities.remove(&id) {
            Some(ent) => {
                let ent2 = Entity { data: EntityData::Minion(m), ..ent };
                self.entities.insert(id, ent2);
                assert(self.entities@ =~= g0.entities.insert(
                    id,
                    Entity { data: EntityData::Minion(m), ..g0.entities[id] },
                ));
            },
            None => {},
        }
    }

    /// The characters `filter` selects for `caster` (see `matching`).
    pub fn get_all_matching(&self, filter: &TargetFilter, caster: PlayerId) -> (r: Vec<EntityId>)
        requires
            caster < 2,
        ensures
            r@ == matching(self@, *filter, caster),
    {
        let o = self.opponent(caster);
        let mut result: Vec<EntityId> = Vec::new();
        match filter {
            TargetFilter::Any | TargetFilter::AnyMinion => {
                append_ids(&mut result, &self.players[caster].board);
                append_ids(&mut result, &self.players[o].board);
            },
            TargetFilter::FriendlyMinion => {
                append_ids(&mut result, &self.players[caster].board);
            },
            TargetFilter::EnemyMinion => {
                append_ids(&mut result, &self.players[o].board);
            },
            TargetFilter::AnyCharacter => {
                result.push(hero_entity_id(caster));
                result.push(hero_entity_id(o));
                append_ids(&mut result, &self.players[caster].board);
                append_ids(&mut result, &self.players[o].board);
            },
            TargetFilter::EnemyCharacter => {
                result.push(hero_entity_id(o));
                append_ids(&mut result, &self.players[o].board);
            },
            TargetFilter::FriendlyCharacter => {
                result.push(hero_entity_id(caster));
                append_ids(&mut result, &self.players[caster].board);
            },
        }
        assert(result@ =~= matching(self@, *filter, caster));
        result
    }

    /// The targets an effect with target specification `spec` acts on.
    pub fn resolve_targets(&self, spec: &TargetSpec, caster: PlayerId, chosen: Option<EntityId>) -> (r:
        Vec<EntityId>)
        requires
            caster < 2,
        ensures
            r@ == resolve_targets(self@, *spec, caster, chosen),
    {
        match spec {
            TargetSpec::NoTarget => Vec::new(),
            TargetSpec::PlayerChoice(_) => {
                let mut v: Vec<EntityId> = Vec::new();
                match chosen {
                    Some(t) => {
                        v.push(t);
                    },
                    None => {},
                }
                assert(v@ =~= resolve_targets(self@, *spec, caster, chosen));
                v
            },
            TargetSpec::Self_ => Vec::new(),
            TargetSpec::All(filter) => self.get_all_matching(filter, caster),
            TargetSpec::Random(filter) => {
                let candidates = self.get_all_matching(filter, caster);
                let mut v: Vec<EntityId> = Vec::new();
                if candidates.len() > 0 {
                    v.push(candidates[0]);
                }
                assert(v@ =~= resolve_targets(self@, *spec, caster, chosen));
                v
            },
        }
    }

    /// The characters a player may choose for `effects`, when one of them
    /// needs a chosen target.
    pub fn valid_targets(&self, effects: &[Effect], caster: PlayerId) -> (r: Option<Vec<EntityId>>)
        requires
            caster < 2,
        ensures
            match r {
                Some(v) => valid_targets(self@, effects@, caster) == Some(v@),
                None => valid_targets(self@, effects@, caster) is None,
            },
    {
        let n = effects.len();
        let mut i: usize = 0;
        assert(effects@.skip(0) =~= effects@);
        while i < n
            invariant
                n == effects@.len(),
                i <= n,
                caster < 2,
                first_choice_filter(effects@) == first_choice_filter(effects@.skip(i as int)),
            decreases n - i,
        {
            let ghost rest = effects@.skip(i as int);
            assert(rest[0] == effects@[i as int]);
            assert(rest.drop_first() =~= effects@.skip(i + 1));
            let effect = &effects[i];
            if effect.requires_target() {
                match effect.target_spec() {
                    Some(TargetSpec::PlayerChoice(filter)) => {
                        return Some(self.get_all_matching(filter, caster));
                    },
                    _ => {},
                }
            }
            i = i + 1;
        }
        None
    }

    /// Player `p` draws a card (see `draw_card`).
    pub fn draw_card(&mut self, p: PlayerId) -> (r: Vec<Event>)
        requires
            old(self).wf(),
            p < 2,
        ensures
            (final(self)@, r@) == draw_card(old(self)@, p),
            final(self).wf(),
    {
        let ghost g0 = self@;
        let mut events: Vec<Event> = Vec::new();
        if self.players[p].deck.len() == 0 {
            self.players[p].fatigue_counter = self.players[p].fatigue_counter.wrapping_add(1);
            let dmg = self.players[p].fatigue_counter;
            self.players[p].hero.hp = self.players[p].hero.hp.wrapping_sub(dmg as i32);
            events.push(Event::FatigueDamage { player: p, damage: dmg });
            if self.players[p].hero.is_dead() {
                events.push(Event::HeroDied { player: p });
                self.game_over = true;
                self.winner = Some(1 - p);
                events.push(Event::GameOver { winner: self.winner });
            }
            assert(events@ =~= draw_card(g0, p).1);
            assert(self@.wf()) by {
                assert(self@.player(p).deck == g0.player(p).deck);
                lemma_keeps_decks_wf(g0, self@);
            }
            return events;
        }
        assert(g0.entities.contains_key(g0.player(p).deck[0]));
        let eid = self.players[p].deck.remove(0);
        let card_id = match self.entities.get(&eid) {
            Some(e) => e.card_id.clone(),
            None => String::new(),
        };
        if self.players[p].hand.len() >= MAX_HAND_SIZE {
            events.push(Event::CardBurned { player: p, entity_id: eid, card_id });
        } else {
            self.players[p].hand.push(eid);
            events.push(Event::CardDrawn { player: p, entity_id: eid, card_id });
        }
        assert(self.players@[p as int].deck@ =~= g0.player(p).deck.drop_first());
        assert(events@ =~= draw_card(g0, p).1);
        assert(self@.wf()) by {
            assert forall|q: PlayerId, i: int|
                q < 2 && 0 <= i < self@.player(q).deck.len() implies #[trigger] self@.entities.contains_key(
                self@.player(q).deck[i],
            ) by {
                if q == p {
                    assert(self@.player(q).deck[i] == g0.player(q).deck[i + 1]);
                    assert(g0.entities.contains_key(g0.player(q).deck[i + 1]));
                } else {
                    assert(g0.entities.contains_key(g0.player(q).deck[i]));
                }
            }
        }
        events
    }

    /// `id` regains up to `amount` health (see `heal_one`).
    pub fn heal_target(&mut self, id: EntityId, amount: u32)
        requires
            old(self).wf(),
        ensures
            final(self)@ == heal_one(old(self)@, id, amount),
            final(self).wf(),
    {
        let ghost g0 = self@;
        match self.minion(id) {
            Some(m) => {
                let h = m.health.wrapping_add(amount as i32);
                let health = if h < m.max_health {
                    h
                } else {
                    m.max_health
                };
                self.put_minion(id, MinionEntity { health, ..m });
                proof {
                    lemma_keeps_decks_wf(g0, self@);
                }
            },
            None => match find_hero_player(id) {
                Some(p) => {
                    let h = self.players[p].hero.hp.wrapping_add(amount as i32);
                    let max = self.players[p].hero.max_hp;
                    self.players[p].hero.hp = if h < max {
                        h
                    } else {
                        max
                    };
                    proof {
                        lemma_keeps_decks_wf(g0, self@);
                    }
                },
                None => {},
            },
        }
    }

    /// Heals every target, in order.
    fn heal_targets(&mut self, targets: &Vec<EntityId>, amount: u32)
        requires
            old(self).wf(),
        ensures
            final(self)@ == heal_all(old(self)@, targets@, amount),
            final(self).wf(),
    {
        let ghost g0 = self@;
        let n = targets.len();
        assert(targets@.take(0) =~= Seq::<EntityId>::empty());
        for i in 0..n
            invariant
                n == targets@.len(),
                self.wf(),
                self@ == heal_all(g0, targets@.take(i as int), amount),
        {
            self.heal_target(targets[i], amount);
            assert(targets@.take(i + 1).drop_last() =~= targets@.take(i as int));
        }
        assert(targets@.take(n as int) =~= targets@);
    }

    /// A minion gains attack and health (see `buff_one`).
    fn buff_target(&mut self, id: EntityId, attack: i32, health: i32)
        requires
            old(self).wf(),
        ensures
            final(self)@ == buff_one(old(self)@, id, attack, health),
            final(self).wf(),
    {
        let ghost g0 = self@;
        match self.minion(id) {
            Some(m) => {
                let a = (m.attack as i32).wrapping_add(attack);
                let new_attack: u32 = if a > 0 {
                    a as u32
                } else {
                    0
                };
                self.put_minion(
                    id,
                    MinionEntity {
                        attack: new_attack,
                        health: m.health.wrapping_add(health),
                        max_health: m.max_health.wrapping_add(health),
                        ..m
                    },
                );
                proof {
                    lemma_keeps_decks_wf(g0, self@);
                }
            },
            None => {},
        }
    }

    /// Buffs every target, in order.
    fn buff_targets(&mut self, targets: &Vec<EntityId>, attack: i32, health: i32)
        requires
            old(self).wf(),
        ensures
            final(self)@ == buff_all(old(self)@, targets@, attack, health),
            final(self).wf(),
    {
        let ghost g0 = self@;
        let n = targets.len();
        assert(targets@.take(0) =~= Seq::<EntityId>::empty());
        for i in 0..n
            invariant
                n == targets@.len(),
                self.wf(),
                self@ == buff_all(g0, targets@.take(i as int), attack, health),
        {
            self.buff_target(targets[i], attack, health);
            assert(targets@.take(i + 1).drop_last() =~= targets@.take(i as int));
        }
        assert(targets@.take(n as int) =~= targets@);
    }

    /// Leaves every targeted minion with no health.
    fn destroy_targets(&mut self, targets: &Vec<EntityId>)
        requires
            old(self).wf(),
        ensures
            final(self)@ == destroy_all(old(self)@, targets@),
            final(self).wf(),
    {
        let ghost g0 = self@;
        let n = targets.len();
        assert(targets@.take(0) =~= Seq::<EntityId>::empty());
        for i in 0..n
            invariant
                n == targets@.len(),
                self.wf(),
                self@ == destroy_all(g0, targets@.take(i as int)),
        {
            let ghost gi = self@;
            let id = targets[i];
            match self.minion(id) {
                Some(m) => {
                    self.put_minion(id, MinionEntity { health: 0, ..m });
                    proof {
                        lemma_keeps_decks_wf(gi, self@);
                    }
                },
                None => {},
            }
            assert(targets@.take(i + 1).drop_last() =~= targets@.take(i as int));
        }
        assert(targets@.take(n as int) =~= targets@);
    }

    /// Player `p` draws `count` cards.
    pub fn draw_cards(&mut self, p: PlayerId, count: u32) -> (r: Vec<Event>)
        requires
            old(self).wf(),
            p < 2,
        ensures
            (final(self)@, r@) == draw_n(old(self)@, p, count as nat),
            final(self).wf(),
    {
        let ghost total = draw_n(self@, p, count as nat);
        let mut events: Vec<Event> = Vec::new();
        let mut i: u32 = 0;
        assert(events@ + total.1 =~= total.1);
        while i < count
            invariant
                i <= count,
                p < 2,
                self.wf(),
                ({
                    let (gk, ek) = draw_n(self@, p, (count - i) as nat);
                    gk == total.0 && events@ + ek == total.1
                }),
            decreases count - i,
        {
            let ghost gi = self@;
            let ghost ei = events@;
            let mut sub = self.draw_card(p);
            let ghost e1 = sub@;
            events.append(&mut sub);
            proof {
                let (g2, e2) = draw_n(self@, p, (count - i - 1) as nat);
                assert(draw_n(gi, p, (count - i) as nat) == (g2, e1 + e2));
                assert(ei + (e1 + e2) =~= (ei + e1) + e2);
            }
            i = i + 1;
        }
        assert(events@ + Seq::<Event>::empty() =~= events@);
        events
    }

    /// Summons up to `count` minions made from `card_id` for `owner`.
    fn summon_minions(
        &mut self,
        reg: &CardRegistry,
        card_id: &String,
        count: u32,
        owner: PlayerId,
    ) -> (r: Vec<Event>)
        requires
            old(self).wf(),
            owner < 2,
        ensures
            (final(self)@, r@) == (match reg.lookup(card_id@) {
                Some(def) => summon_n(old(self)@, owner, def, count as nat),
                None => (old(self)@, Seq::empty()),
            }),
            final(self).wf(),
    {
        let mut events: Vec<Event> = Vec::new();
        match reg.get(card_id.as_str()) {
            None => {
                assert(events@ =~= Seq::<Event>::empty());
                events
            },
            Some(def) => {
                let ghost total = summon_n(self@, owner, *def, count as nat);
                let mut i: u32 = 0;
                assert(events@ + total.1 =~= total.1);
                while i < count && self.players[owner].board.len() < MAX_BOARD_SIZE
                    invariant
                        i <= count,
                        owner < 2,
                        self.wf(),
                        ({
                            let (gk, ek) = summon_n(self@, owner, *def, (count - i) as nat);
                            gk == total.0 && events@ + ek == total.1
                        }),
                    decreases count - i,
                {
                    let ghost gi = self@;
                    let ghost ei = events@;
                    let eid = self.alloc_entity_id();
                    let entity = Entity::from_card_def(eid, def, owner);
                    self.entities.insert(eid, entity);
                    let pos = self.players[owner].board.len();
                    self.players[owner].board.push(eid);
                    events.push(Event::MinionSummoned { player: owner, entity_id: eid, position: pos });
                    proof {
                        let e1 = seq![Event::MinionSummoned { player: owner, entity_id: eid, position: pos }];
                        let (g2, e2) = summon_n(self@, owner, *def, (count - i - 1) as nat);
                        assert(self@ =~= crate::rules::set_board(
                            GameView {
                                next_entity_id: eid.wrapping_add(1),
                                entities: gi.entities.insert(eid, crate::entity::spec_from_card_def(eid, *def, owner)),
                                ..gi
                            },
                            owner,
                            gi.player(owner).board.push(eid),
                        ));
                        assert(summon_n(gi, owner, *def, (count - i) as nat) == (g2, e1 + e2));
                        assert(ei + (e1 + e2) =~= (ei + e1) + e2);
                        lemma_keeps_decks_wf(gi, self@);
                    }
                    i = i + 1;
                }
                assert(events@ + Seq::<Event>::empty() =~= events@);
                events
            },
        }
    }

    /// Whether `id` is still alive (see `is_alive`).
    fn is_alive(&self, id: EntityId) -> (r: bool)
        ensures
            r == is_alive(self@.entities, id),
    {
        match self.minion(id) {
            Some(m) => m.health > 0,
            None => true,
        }
    }

    /// A minion is hit (see `hit_minion`).
    fn hit_minion_stats(&mut self, id: EntityId, m: MinionEntity, amount: u32) -> (r: Vec<Event>)
        requires
            old(self).wf(),
            minion_of(old(self)@, id) == Some(m),
        ensures
            (final(self)@, r@) == hit_minion(old(self)@, id, m, amount),
            final(self).wf(),
    {
        let ghost g0 = self@;
        let mut events: Vec<Event> = Vec::new();
        if m.keywords.divine_shield {
            let mut ks = m.keywords;
            ks.remove(&crate::card::Keyword::DivineShield);
            self.put_minion(id, MinionEntity { keywords: ks, ..m });
            events.push(Event::DivineShieldPopped { entity_id: id });
        } else {
            self.put_minion(id, MinionEntity { health: m.health.wrapping_sub(amount as i32), ..m });
            events.push(Event::DamageDealt { target: id, amount, source: None });
        }
        proof {
            lemma_keeps_decks_wf(g0, self@);
        }
        assert(events@ =~= hit_minion(g0, id, m, amount).1);
        events
    }

    /// Damage to the hero of `p`, who loses when out of hit points.
    fn hit_hero(&mut self, p: PlayerId, id: EntityId, amount: u32) -> (r: Vec<Event>)
        requires
            old(self).wf(),
            p < 2,
            minion_of(old(self)@, id) is None,
            hero_owner(id) == Some(p),
        ensures
            (final(self)@, r@) == damage_hero(old(self)@, p, id, amount),
            final(self).wf(),
    {
        let ghost g0 = self@;
        let mut events: Vec<Event> = Vec::new();
        self.players[p].hero.hp = self.players[p].hero.hp.wrapping_sub(amount as i32);
        let new_hp = self.players[p].hero.hp;
        events.push(Event::DamageDealt { target: id, amount, source: None });
        events.push(Event::HeroDamaged { player: p, amount, new_hp });
        if self.players[p].hero.is_dead() && !self.game_over {
            events.push(Event::HeroDied { player: p });
            self.game_over = true;
            self.winner = Some(1 - p);
            events.push(Event::GameOver { winner: self.winner });
        }
        proof {
            lemma_keeps_decks_wf(g0, self@);
        }
        assert(events@ =~= damage_hero(g0, p, id, amount).1);
        events
    }

    /// `id` takes `amount` damage (see `deal_damage`).
    fn deal_damage_to(&mut self, reg: &CardRegistry, id: EntityId, amount: u32, depth: u32) -> (r:
        Vec<Event>)
        requires
            old(self).wf(),
            depth < MAX_EFFECT_DEPTH,
        ensures
            (final(self)@, r@) == deal_damage(old(self)@, *reg, id, amount, depth),
            final(self).wf(),
        decreases depth_left(depth), 2nat, 0int,
    {
        let ghost g0 = self@;
        match self.minion(id) {
            Some(m) => {
                let mut events = self.hit_minion_stats(id, m, amount);
                let mut sub = self.process_deaths_with_deathrattles(reg, depth + 1);
                events.append(&mut sub);
                events
            },
            None => match find_hero_player(id) {
                Some(p) => {
                    let events = self.hit_hero(p, id, amount);
                    events
                },
                None => Vec::new(),
            },
        }
    }

    /// Runs one card effect (see `single_effect`).
    fn execute_single_effect(
        &mut self,
        reg: &CardRegistry,
        effect: &Effect,
        caster: PlayerId,
        chosen: Option<EntityId>,
        depth: u32,
    ) -> (r: Vec<Event>)
        requires
            old(self).wf(),
            caster < 2,
            depth < MAX_EFFECT_DEPTH,
        ensures
            (final(self)@, r@) == single_effect(old(self)@, *reg, *effect, caster, chosen, depth),
            final(self).wf(),
        decreases depth_left(depth), 4nat, 0int,
    {
        let ghost g0 = self@;
        match effect {
            Effect::DealDamage { amount, target } => {
                let targets = self.resolve_targets(target, caster, chosen);
                let ghost total = damage_all(g0, *reg, targets@, 0, *amount, depth);
                let mut events: Vec<Event> = Vec::new();
                let n = targets.len();
                let mut i: usize = 0;
                assert(events@ + total.1 =~= total.1);
                while i < n
                    invariant
                        n == targets@.len(),
                        i <= n,
                        depth < MAX_EFFECT_DEPTH,
                        self.wf(),
                        ({
                            let (gk, ek) = damage_all(self@, *reg, targets@, i as int, *amount, depth);
                            gk == total.0 && events@ + ek == total.1
                        }),
                    decreases n - i,
                {
                    let ghost gi = self@;
                    let ghost ei = events@;
                    let mut sub = self.deal_damage_to(reg, targets[i], *amount, depth);
                    let ghost e1 = sub@;
                    events.append(&mut sub);
                    proof {
                        let (g2, e2) = damage_all(self@, *reg, targets@, i + 1, *amount, depth);
                        assert(damage_all(gi, *reg, targets@, i as int, *amount, depth) == (g2, e1 + e2));
                        assert(ei + (e1 + e2) =~= (ei + e1) + e2);
                    }
                    i = i + 1;
                }
                assert(events@ + Seq::<Event>::empty() =~= events@);
                events
            },
            Effect::Heal { amount, target } => {
                let targets = self.resolve_targets(target, caster, chosen);
                self.heal_targets(&targets, *amount);
                Vec::new()
            },
            Effect::Summon { card_id, count, for_opponent } => {
                let owner = if *for_opponent {
                    self.opponent(caster)
                } else {
                    caster
                };
                self.summon_minions(reg, card_id, *count, owner)
            },
            Effect::DrawCards { count } => self.draw_cards(caster, *count),
            Effect::BuffMinion { attack, health, target } => {
                let targets = self.resolve_targets(target, caster, chosen);
                self.buff_targets(&targets, *attack, *health);
                Vec::new()
            },
            Effect::DestroyMinion { target } => {
                let targets = self.resolve_targets(target, caster, chosen);
                self.destroy_targets(&targets);
                self.process_deaths_with_deathrattles(reg, depth + 1)
            },
        }
    }

    /// Runs `effects` in order for `caster`; does nothing at the depth limit.
    pub fn execute_effects(
        &mut self,
        reg: &CardRegistry,
        effects: &[Effect],
        caster: PlayerId,
        target: Option<EntityId>,
        depth: u32,
    ) -> (r: Vec<Event>)
        requires
            old(self).wf(),
            caster < 2,
        ensures
            (final(self)@, r@) == execute_effects(old(self)@, *reg, effects@, caster, target, depth),
            final(self).wf(),
        decreases depth_left(depth), 6nat, 0int,
    {
        let mut events: Vec<Event> = Vec::new();
        if depth >= MAX_EFFECT_DEPTH {
            assert(events@ =~= Seq::<Event>::empty());
            return events;
        }
        let ghost total = effects_from(self@, *reg, effects@, 0, caster, target, depth);
        let n = effects.len();
        let mut i: usize = 0;
        assert(events@ + total.1 =~= total.1);
        while i < n
            invariant
                n == effects@.len(),
                i <= n,
                caster < 2,
                depth < MAX_EFFECT_DEPTH,
                self.wf(),
                ({
                    let (gk, ek) = effects_from(self@, *reg, effects@, i as int, caster, target, depth);
                    gk == total.0 && events@ + ek == total.1
                }),
            decreases n - i,
        {
            let ghost gi = self@;
            let ghost ei = events@;
            let mut sub = self.execute_single_effect(reg, &effects[i], caster, target, depth);
            let ghost e1 = sub@;
            events.append(&mut sub);
            proof {
                let (g2, e2) = effects_from(self@, *reg, effects@, i + 1, caster, target, depth);
                assert(effects_from(gi, *reg, effects@, i as int, caster, target, depth) == (g2, e1 + e2));
                assert(ei + (e1 + e2) =~= (ei + e1) + e2);
            }
            i = i + 1;
        }
        assert(events@ + Seq::<Event>::empty() =~= events@);
        events
    }

    /// Removes the dead minions of `pid` from the board and buries them, each
    /// followed by its deathrattle (see `deaths_of_player`).
    fn process_deaths_of_player(&mut self, reg: &CardRegistry, pid: PlayerId, depth: u32) -> (r: Vec<
        Event,
    >)
        requires
            old(self).wf(),
            pid < 2,
        ensures
            (final(self)@, r@) == deaths_of_player(old(self)@, *reg, pid, depth),
            final(self).wf(),
        decreases depth_left(depth), 8nat, 0int,
    {
        let ghost g0 = self@;
        let n = self.players[pid].board.len();
        let mut alive: Vec<EntityId> = Vec::new();
        let mut dead: Vec<EntityId> = Vec::new();
        assert(g0.player(pid).board.take(0) =~= Seq::<EntityId>::empty());
        for i in 0..n
            invariant
                pid < 2,
                self@ == g0,
                n == g0.player(pid).board.len(),
                (alive@, dead@) == split_board(g0.entities, g0.player(pid).board.take(i as int)),
        {
            let eid = self.players[pid].board[i];
            if self.is_alive(eid) {
                alive.push(eid);
            } else {
                dead.push(eid);
            }
            assert(g0.player(pid).board.take(i + 1).drop_last() =~= g0.player(pid).board.take(i as int));
        }
        assert(g0.player(pid).board.take(n as int) =~= g0.player(pid).board);
        self.players[pid].board = alive;
        proof {
            lemma_keeps_decks_wf(g0, self@);
        }
        let ghost total = bury_from(self@, *reg, pid, dead@, 0, depth);
        let mut events: Vec<Event> = Vec::new();
        let m = dead.len();
        let mut i: usize = 0;
        assert(events@ + total.1 =~= total.1);
        while i < m
            invariant
                m == dead@.len(),
                i <= m,
                pid < 2,
                self.wf(),
                ({
                    let (gk, ek) = bury_from(self@, *reg, pid, dead@, i as int, depth);
                    gk == total.0 && events@ + ek == total.1
                }),
            decreases m - i,
        {
            let ghost gi = self@;
            let ghost ei = events@;
            let eid = dead[i];
            self.players[pid].graveyard.push(eid);
            events.push(Event::MinionDied { entity_id: eid, owner: pid });
            proof {
                lemma_keeps_decks_wf(gi, self@);
            }
            let ghost g1 = self@;
            let ghost e_after1 = events@;
            let rattle = match self.entities.get(&eid) {
                Some(e) => match e.data {
                    EntityData::Minion(mi) => if mi.keywords.deathrattle {
                        reg.get(e.card_id.as_str())
                    } else {
                        None
                    },
                    _ => None,
                },
                None => None,
            };
            let ghost expected2 = if has_deathrattle(g1.entities, eid) {
                match reg.lookup(g1.entities[eid].card_id@) {
                    Some(def) => execute_effects(g1, *reg, def.effects@, pid, None, depth),
                    None => (g1, Seq::<Event>::empty()),
                }
            } else {
                (g1, Seq::<Event>::empty())
            };
            match rattle {
                Some(def) => {
                    let mut sub = self.execute_effects(reg, def.effects.as_slice(), pid, None, depth);
                    events.append(&mut sub);
                },
                None => {},
            }
            proof {
                assert(self@ == expected2.0);
                assert(events@ =~= e_after1 + expected2.1);
                let e1 = seq![Event::MinionDied { entity_id: eid, owner: pid }];
                assert(e_after1 =~= ei + e1);
                let (g3, e3) = bury_from(self@, *reg, pid, dead@, i + 1, depth);
                assert(bury_from(gi, *reg, pid, dead@, i as int, depth) == (g3, e1 + expected2.1 + e3));
                assert(ei + (e1 + expected2.1 + e3) =~= (ei + e1 + expected2.1) + e3);
            }
            i = i + 1;
        }
        assert(events@ + Seq::<Event>::empty() =~= events@);
        events
    }

    /// Processes the deaths on both boards, player 0 first (see `process_deaths`).
    pub fn process_deaths_with_deathrattles(&mut self, reg: &CardRegistry, depth: u32) -> (r: Vec<
        Event,
    >)
        requires
            old(self).wf(),
        ensures
            (final(self)@, r@) == process_deaths(old(self)@, *reg, depth),
            final(self).wf(),
        decreases depth_left(depth), 9nat, 0int,
    {
        let mut events = self.process_deaths_of_player(reg, 0, depth);
        let mut more = self.process_deaths_of_player(reg, 1, depth);
        events.append(&mut more);
        events
    }
}

} // verus!
