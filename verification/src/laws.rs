//! Properties of the rules that hold for every state and action.
use vstd::prelude::*;

use crate::action::Action;
use crate::card::CardDef;
use crate::card_loader::CardRegistry;
use crate::effect::{Effect, TargetFilter};
use crate::entity::{Entity, MinionEntity};
use crate::error::GameError;
use crate::event::Event;
use crate::game_state::{opp, GameView, Hero, PlayerView};
use crate::rules::{
    attack, attack_refusal, bury_from, buff_all, buff_one, carry_out_attack, damage_all,
    damage_hero, deal_damage, deaths_of_player, depth_left, destroy_all, draw_card, draw_n,
    effects_from, end_turn, enter_play, execute_effects, heal_all, heal_one, hero_id, hero_owner,
    hit_minion, minion_of, play_card, play_refusal, process_action, process_deaths, set_minion,
    single_effect, split_board, start_turn, strike, summon_n, check_deaths_heroes,
    check_hero_death, taunt_minions, MAX_EFFECT_DEPTH, can_attack, refresh_minions, hand_card,
    add_deck, open_game, with_decks, matching,
};
use crate::engine::lemma_refresh_keeps_keys;
use crate::types::{
    EntityId, PlayerId, MAX_BOARD_SIZE, MAX_HAND_SIZE, MAX_MANA, STARTING_HAND_FIRST, STARTING_HAND_SECOND,
};

verus! {

// ---------------------------------------------------------------- refusals

/// A finished game refuses every action and stays as it is.
pub proof fn law_game_over_is_final(g: GameView, reg: CardRegistry, a: Action)
    requires
        g.game_over,
    ensures
        process_action(g, reg, a) == (g, Err::<Seq<Event>, GameError>(GameError::GameOver)),
{
}

/// Only the active player may act: an action of the other player is refused
/// with `NotYourTurn` and changes nothing.
pub proof fn law_only_active_player_acts(g: GameView, reg: CardRegistry, a: Action)
    requires
        !g.game_over,
        a.spec_player() != g.active_player,
    ensures
        process_action(g, reg, a) == (
            g,
            Err::<Seq<Event>, GameError>(
                GameError::NotYourTurn { active: g.active_player, actor: a.spec_player() },
            ),
        ),
{
}

/// A refused action changes nothing: every check comes before the first
/// change, so an action that returns an error leaves the game as it was.
pub proof fn law_refusals_change_nothing(g: GameView, reg: CardRegistry, a: Action)
    requires
        process_action(g, reg, a).1 is Err,
    ensures
        process_action(g, reg, a).0 == g,
{
    if !g.game_over && a.spec_player() == g.active_player {
        match a {
            Action::EndTurn { player } => {},
            Action::PlayCard { player, hand_index, position, target } => {
                let pl = g.player(player);
                if !(hand_index >= pl.hand.len() || !g.entities.contains_key(pl.hand[hand_index as int])) {
                    let eid = pl.hand[hand_index as int];
                    let cid = g.entities[eid].card_id;
                    let def = reg.lookup(cid@)->Some_0;
                    if play_refusal(g, player, def, target) is None {
                        let r = enter_play(g, reg, player, hand_index, position, target, eid, cid, def);
                        assert(r.1 is Ok);
                    }
                }
            },
            Action::Attack { player, attacker, defender } => {
                if attack_refusal(g, player, attacker, defender) is None {
                    let r = carry_out_attack(
                        g,
                        reg,
                        player,
                        attacker,
                        defender,
                        minion_of(g, attacker)->Some_0,
                    );
                    assert(r.1 is Ok);
                }
            },
        }
    }
}

/// An attack that goes through follows the rules of combat: the attacker
/// is a minion of the attacking player that is ready (no summoning sickness
/// unless it has charge, no attack yet this turn), the defender is not on
/// the attacker's side, a defender on the opponent's board is a minion,
/// and while the opponent has taunt minions the defender is one of them.
pub proof fn law_allowed_attacks_follow_the_rules(
    g: GameView,
    reg: CardRegistry,
    p: PlayerId,
    atk: EntityId,
    def: EntityId,
)
    requires
        attack(g, reg, p, atk, def).1 is Ok,
    ensures
        g.player(p).board.contains(atk),
        !g.player(p).board.contains(def),
        minion_of(g, atk) matches Some(m) && (!m.summoning_sickness || m.keywords.charge)
            && m.attacks_this_turn == 0,
        g.player(opp(p)).board.contains(def) ==> minion_of(g, def) is Some,
        taunt_minions(g, g.player(opp(p)).board).len() == 0 || taunt_minions(
            g,
            g.player(opp(p)).board,
        ).contains(def),
{
}

// ---------------------------------------------------------------- turns

/// Ending the turn hands it to the opponent: the turn counter advances, the
/// opponent gains a mana crystal (never beyond the maximum) and has full
/// mana, and the first event reports the end of the turn.
pub proof fn law_end_turn_passes_turn(g: GameView, reg: CardRegistry, p: PlayerId)
    requires
        !g.game_over,
        g.active_player == p,
        p < 2,
    ensures
        ({
            let (g2, r) = process_action(g, reg, Action::EndTurn { player: p });
            let before = g.player(opp(p));
            let after = g2.player(opp(p));
            &&& r matches Ok(events) && events.len() > 0 && events[0] == Event::TurnEnded { player: p }
            &&& g2.active_player == opp(p)
            &&& g2.turn_number == g.turn_number.wrapping_add(1)
            &&& after.mana_crystals == if before.mana_crystals < MAX_MANA {
                (before.mana_crystals + 1) as u32
            } else {
                before.mana_crystals
            }
            &&& after.mana == after.mana_crystals
        }),
{
    let o = opp(p);
    let g1 = GameView { active_player: o, turn_number: g.turn_number.wrapping_add(1), ..g };
    let pl = g1.player(o);
    let cr: u32 = if pl.mana_crystals < MAX_MANA {
        (pl.mana_crystals + 1) as u32
    } else {
        pl.mana_crystals
    };
    let g2 = g1.with_player(o, PlayerView { mana_crystals: cr, mana: cr, ..pl });
    let g3 = GameView {
        entities: crate::rules::refresh_minions(g2.entities, g2.player(o).board),
        ..g2
    };
    let (g4, e4) = draw_card(g3, o);
    lemma_draw_card_keeps(g3, o);
    lemma_check_deaths_heroes_keeps(g4);
}

/// Refreshing a board readies each of its minions.
proof fn lemma_refresh_readies(ents: Map<EntityId, Entity>, board: Seq<EntityId>, id: EntityId)
    requires
        board.contains(id),
    ensures
        refresh_minions(ents, board).contains_key(id) ==> (refresh_minions(ents, board)[id].spec_minion() matches Some(m)
            ==> !m.summoning_sickness && m.attacks_this_turn == 0),
    decreases board.len(),
{
    if board.last() != id {
        let k = choose|k: int| 0 <= k < board.len() && board[k] == id;
        assert(board.drop_last()[k] == id);
        lemma_refresh_readies(ents, board.drop_last(), id);
    }
}

/// At the start of a turn every minion on the new player's board is ready:
/// no summoning sickness and no attack used.
pub proof fn law_turn_start_readies_minions(g: GameView, p: PlayerId, i: int)
    requires
        p < 2,
        0 <= i < start_turn(g, p).0.player(p).board.len(),
    ensures
        ({
            let g2 = start_turn(g, p).0;
            minion_of(g2, g2.player(p).board[i]) matches Some(m) ==> !m.summoning_sickness
                && m.attacks_this_turn == 0
        }),
{
    let g1 = GameView { active_player: p, turn_number: g.turn_number.wrapping_add(1), ..g };
    let pl = g1.player(p);
    let cr: u32 = if pl.mana_crystals < MAX_MANA {
        (pl.mana_crystals + 1) as u32
    } else {
        pl.mana_crystals
    };
    let g2 = g1.with_player(p, PlayerView { mana_crystals: cr, mana: cr, ..pl });
    let board = g2.player(p).board;
    let g3 = GameView { entities: refresh_minions(g2.entities, board), ..g2 };
    let g4 = draw_card(g3, p).0;
    assert(g4.entities == g3.entities);
    assert(g4.player(p).board == board);
    let id = board[i];
    assert(board.contains(id));
    lemma_refresh_readies(g2.entities, board, id);
}

/// A card that is played costs exactly its mana: whatever its effects do,
/// the player is left with the mana before minus the card's cost.
pub proof fn law_played_card_costs_its_mana(
    g: GameView,
    reg: CardRegistry,
    p: PlayerId,
    hand_index: usize,
    position: usize,
    target: Option<EntityId>,
)
    requires
        p < 2,
        play_card(g, reg, p, hand_index, position, target).1 is Ok,
    ensures
        play_card(g, reg, p, hand_index, position, target).0.player(p).mana == g.player(p).mana
            - hand_card(g, reg, p, hand_index as int)->Some_0.mana_cost,
{
    let pl = g.player(p);
    let eid = pl.hand[hand_index as int];
    let cid = g.entities[eid].card_id;
    let def = reg.lookup(cid@)->Some_0;
    let mana = (pl.mana - def.mana_cost) as u32;
    let pl1 = PlayerView { hand: pl.hand.remove(hand_index as int), mana, ..pl };
    let g1 = g.with_player(p, pl1);
    match def.card_type {
        crate::card::CardTypeData::Minion(_) => {
            let ip: usize = if position < pl1.board.len() {
                position
            } else {
                pl1.board.len() as usize
            };
            let g2 = crate::rules::set_board(g1, p, pl1.board.insert(ip as int, eid));
            law_effects_keep_mana_turn_and_limits(g2, reg, def.effects@, p, target, 0);
        },
        crate::card::CardTypeData::Spell => {
            law_effects_keep_mana_turn_and_limits(g1, reg, def.effects@, p, target, 0);
        },
        crate::card::CardTypeData::Weapon(_) => {},
    }
}

/// A minion that attacks the hero has used its attack for the turn.
pub proof fn law_hero_attack_uses_the_attack(
    g: GameView,
    reg: CardRegistry,
    p: PlayerId,
    atk: EntityId,
    def: EntityId,
)
    requires
        p < 2,
        attack(g, reg, p, atk, def).1 is Ok,
        !g.player(opp(p)).board.contains(def),
    ensures
        can_attack(attack(g, reg, p, atk, def).0, p, atk) == Err::<(), GameError>(
            GameError::AlreadyAttacked,
        ),
{
}

proof fn lemma_check_deaths_heroes_keeps(g: GameView)
    ensures
        keeps(g, check_deaths_heroes(g).0),
{
    let b = check_deaths_heroes(g).0;
    assert(zones(b) == zones(g));
    assert(zones_distinct(g) ==> zones_distinct(b));
    assert(bounded(g) ==> bounded(b));
}

// ---------------------------------------------------------------- effects

/// Effects at the nesting limit do nothing.
pub proof fn law_depth_limit(
    g: GameView,
    reg: CardRegistry,
    effects: Seq<Effect>,
    caster: PlayerId,
    chosen: Option<EntityId>,
    depth: u32,
)
    requires
        depth >= MAX_EFFECT_DEPTH,
    ensures
        execute_effects(g, reg, effects, caster, chosen, depth) == (g, Seq::<Event>::empty()),
{
}

proof fn lemma_u32_as_i32(a: u32)
    ensures
        a <= 0x7fff_ffff ==> a as i32 == a,
        a > 0x7fff_ffff ==> a as i32 == a - 0x1_0000_0000,
{
    assert(a <= 0x7fff_ffff ==> a as i32 == a) by (bit_vector);
    assert(a > 0x7fff_ffff ==> a as i32 == a - 0x1_0000_0000) by (bit_vector);
}

/// Healing never lifts a character above its maximum, and restores the full
/// amount when there is room for it.
pub proof fn law_heal_caps_at_maximum(g: GameView, id: EntityId, amount: u32)
    ensures
        minion_of(g, id) matches Some(m) ==> ({
            let h = minion_of(heal_one(g, id, amount), id)->Some_0.health;
            &&& h <= m.max_health
            &&& m.health + amount <= m.max_health ==> h == m.health + amount
        }),
        minion_of(g, id) is None ==> (hero_owner(id) matches Some(p) ==> ({
            let before = g.player(p).hero;
            let after = heal_one(g, id, amount).player(p).hero;
            &&& after.hp <= before.max_hp
            &&& after.max_hp == before.max_hp
            &&& before.hp + amount <= before.max_hp ==> after.hp == before.hp + amount
        })),
{
    lemma_u32_as_i32(amount);
}

/// A divine shield absorbs a hit: the minion keeps its health and loses the
/// shield, whether the hit comes from an effect or from combat.
pub proof fn law_divine_shield_absorbs_a_hit(
    g: GameView,
    id: EntityId,
    amount: u32,
    source: EntityId,
)
    requires
        minion_of(g, id) matches Some(m) && m.keywords.divine_shield,
    ensures
        ({
            let m = minion_of(g, id)->Some_0;
            let shielded_off = MinionEntity {
                keywords: crate::entity::KeywordSet { divine_shield: false, ..m.keywords },
                ..m
            };
            &&& minion_of(hit_minion(g, id, m, amount).0, id) == Some(shielded_off)
            &&& minion_of(strike(g, id, amount, source).0, id) == Some(shielded_off)
            &&& hit_minion(g, id, m, amount).1 == seq![Event::DivineShieldPopped { entity_id: id }]
        }),
{
}

/// The ids that stand for heroes are 0 and `u64::MAX`; no other id does,
/// so the ids handed out from 1 upwards never stand for a hero.
pub proof fn law_hero_ids(id: EntityId)
    ensures
        hero_id(0) == 0,
        hero_id(1) == u64::MAX,
        hero_owner(hero_id(0)) == Some(0usize),
        hero_owner(hero_id(1)) == Some(1usize),
        0 < id < u64::MAX ==> hero_owner(id) is None,
{
}

// ------------------------------------------------ what every operation keeps

/// The limits of a player: a hand holds at most `MAX_HAND_SIZE` cards, a
/// board at most `MAX_BOARD_SIZE` minions, and a player has at most
/// `MAX_MANA` crystals and never more mana than crystals.
pub open spec fn bounded_player(pv: PlayerView) -> bool {
    &&& pv.hand.len() <= MAX_HAND_SIZE
    &&& pv.board.len() <= MAX_BOARD_SIZE
    &&& pv.mana <= pv.mana_crystals <= MAX_MANA
}

/// Every entity id lies strictly between 0 and the id counter, so neither
/// hero id (0 and `u64::MAX`) is an entity.
pub open spec fn ids_below_counter(g: GameView) -> bool {
    &&& 0 < g.next_entity_id
    &&& forall|k: EntityId| #[trigger] g.entities.contains_key(k) ==> 0 < k < g.next_entity_id
}

/// How often `id` occurs in the zones of a player: deck, hand, board,
/// graveyard and weapon slot.
pub open spec fn player_count(pv: PlayerView, id: EntityId) -> nat {
    pv.deck.to_multiset().count(id) + pv.hand.to_multiset().count(id) + pv.board.to_multiset().count(
        id,
    ) + pv.graveyard.to_multiset().count(id) + (if pv.weapon == Some(id) {
        1nat
    } else {
        0nat
    })
}

/// The zones of a player, with everything else set aside.
pub open spec fn zone_part(pv: PlayerView) -> PlayerView {
    PlayerView { hero: Hero::spec_new(), mana_crystals: 0, mana: 0, fatigue_counter: 0, ..pv }
}

/// The zones of both players.
pub open spec fn zones(g: GameView) -> (PlayerView, PlayerView) {
    (zone_part(g.p0), zone_part(g.p1))
}

/// How often `id` occurs in the zones `z` of both players.
pub open spec fn zone_count(z: (PlayerView, PlayerView), id: EntityId) -> nat {
    player_count(z.0, id) + player_count(z.1, id)
}

/// No id occurs twice across the zones of both players, and every id in a
/// zone is a known entity.
pub open spec fn zones_distinct(g: GameView) -> bool {
    forall|id: EntityId|
        #![trigger zone_count(zones(g), id)]
        zone_count(zones(g), id) <= 1 && (zone_count(zones(g), id) > 0 ==> g.entities.contains_key(id))
}

/// The ids are below the counter and distinct across the zones, unless the
/// counter has run out: it has handed out its last id, `u64::MAX` itself.
pub open spec fn ids_in_order(g: GameView) -> bool {
    (ids_below_counter(g) && zones_distinct(g)) || g.entities.contains_key(u64::MAX)
}

/// The limits of both players hold, the active player is one of the two,
/// and the game is over exactly when it has a winner.
pub open spec fn limits(g: GameView) -> bool {
    &&& g.active_player < 2
    &&& bounded_player(g.p0)
    &&& bounded_player(g.p1)
    &&& g.game_over == (g.winner is Some)
}

/// `limits`, and the entity ids are in order (see `ids_in_order`).
pub open spec fn bounded(g: GameView) -> bool {
    limits(g) && ids_in_order(g)
}

/// Every entity known in `a` is still known in `b`.
pub open spec fn keeps_entities(a: GameView, b: GameView) -> bool {
    forall|id: EntityId| a.entities.contains_key(id) ==> #[trigger] b.entities.contains_key(id)
}

/// Every known entity of `a` that is in no zone, and not in `pend`, is in
/// no zone of `b` either.
pub open spec fn absent_kept(a: GameView, b: GameView, pend: Seq<EntityId>) -> bool {
    forall|id: EntityId|
        a.entities.contains_key(id) && zone_count(zones(a), id) == 0 && !pend.contains(id)
            ==> #[trigger] zone_count(zones(b), id) == 0
}

/// Every minion of `a` is still a minion in `b`, with the same count of
/// attacks this turn.
pub open spec fn attacks_kept(a: GameView, b: GameView) -> bool {
    forall|id: EntityId|
        #[trigger] minion_of(a, id) is Some ==> minion_of(b, id) is Some && minion_of(
            b,
            id,
        )->Some_0.attacks_this_turn == minion_of(a, id)->Some_0.attacks_this_turn
}

/// While the id counter has not run out, ids in order in `a` stay in order
/// in `b`, known entities outside the zones stay outside (but for those of
/// `pend`), and minions keep their count of attacks.
pub open spec fn ids_kept(a: GameView, b: GameView, pend: Seq<EntityId>) -> bool {
    (ids_below_counter(a) && zones_distinct(a) && !b.entities.contains_key(u64::MAX)) ==> (
    ids_below_counter(b) && zones_distinct(b) && absent_kept(a, b, pend) && attacks_kept(a, b))
}

/// `b` has the mana, crystals, active player and turn number of `a`, knows
/// every entity of `a`, and is within the player limits when `a` is.
pub open spec fn keeps_plain(a: GameView, b: GameView) -> bool {
    &&& b.p0.mana == a.p0.mana
    &&& b.p1.mana == a.p1.mana
    &&& b.p0.mana_crystals == a.p0.mana_crystals
    &&& b.p1.mana_crystals == a.p1.mana_crystals
    &&& b.active_player == a.active_player
    &&& b.turn_number == a.turn_number
    &&& keeps_entities(a, b)
    &&& limits(a) ==> limits(b)
}

/// `keeps_plain`, and the ids stay in order (see `ids_kept`, but for
/// `pend`); so `b` is `bounded` when `a` is.
pub open spec fn keeps_except(a: GameView, b: GameView, pend: Seq<EntityId>) -> bool {
    keeps_plain(a, b) && ids_kept(a, b, pend)
}

/// `keeps_except` with nothing set aside.
pub open spec fn keeps(a: GameView, b: GameView) -> bool {
    keeps_except(a, b, Seq::empty())
}

/// Zones that only lose ids stay distinct.
proof fn lemma_zones_shrink(a: GameView, b: GameView)
    requires
        zones_distinct(a),
        keeps_entities(a, b),
        forall|id: EntityId| #[trigger] zone_count(zones(b), id) <= zone_count(zones(a), id),
    ensures
        zones_distinct(b),
{
    assert forall|id: EntityId| #[trigger] zone_count(zones(b), id) <= 1 && (zone_count(zones(b), id) > 0
        ==> b.entities.contains_key(id)) by {
        assert(zone_count(zones(b), id) <= zone_count(zones(a), id));
    }
}

/// Zones that gain one known id, absent before, and otherwise only lose
/// ids stay distinct.
proof fn lemma_zones_gain(a: GameView, b: GameView, x: EntityId)
    requires
        zones_distinct(a),
        keeps_entities(a, b),
        b.entities.contains_key(x),
        zone_count(zones(a), x) == 0,
        zone_count(zones(b), x) <= 1,
        forall|id: EntityId| id != x ==> #[trigger] zone_count(zones(b), id) <= zone_count(zones(a), id),
    ensures
        zones_distinct(b),
{
    assert forall|id: EntityId| #[trigger] zone_count(zones(b), id) <= 1 && (zone_count(zones(b), id) > 0
        ==> b.entities.contains_key(id)) by {
        if id != x {
            assert(zone_count(zones(b), id) <= zone_count(zones(a), id));
        }
    }
}

proof fn lemma_draw_card_keeps(g: GameView, p: PlayerId)
    requires
        p < 2,
    ensures
        keeps(g, draw_card(g, p).0),
{
    broadcast use vstd::seq_lib::group_to_multiset_ensures;

    let b = draw_card(g, p).0;
    let pl = g.player(p);
    if pl.deck.len() == 0 {
        assert(zones(b) == zones(g));
    } else {
        assert(pl.deck.drop_first() =~= pl.deck.remove(0));
        if ids_below_counter(g) && zones_distinct(g) {
            assert forall|id: EntityId| #[trigger] zone_count(zones(b), id) <= zone_count(zones(g), id) by {}
            lemma_zones_shrink(g, b);
        }
    }
}

proof fn lemma_draw_n_keeps(g: GameView, p: PlayerId, k: nat)
    requires
        p < 2,
    ensures
        keeps(g, draw_n(g, p, k).0),
    decreases k,
{
    if k > 0 {
        lemma_draw_card_keeps(g, p);
        lemma_draw_n_keeps(draw_card(g, p).0, p, (k - 1) as nat);
    }
}

proof fn lemma_summon_n_keeps(g: GameView, owner: PlayerId, def: CardDef, k: nat)
    requires
        owner < 2,
    ensures
        keeps(g, summon_n(g, owner, def, k).0),
    decreases k,
{
    let board = g.player(owner).board;
    if !(k == 0 || board.len() >= MAX_BOARD_SIZE) {
        let eid = g.next_entity_id;
        let g1 = crate::rules::set_board(
            GameView {
                next_entity_id: eid.wrapping_add(1),
                entities: g.entities.insert(eid, crate::entity::spec_from_card_def(eid, def, owner)),
                ..g
            },
            owner,
            board.push(eid),
        );
        if ids_below_counter(g) && zones_distinct(g) {
            broadcast use vstd::seq_lib::group_to_multiset_ensures;

            assert(!g.entities.contains_key(eid));
            assert(zone_count(zones(g), eid) == 0);
            assert forall|id: EntityId| id != eid implies #[trigger] zone_count(zones(g1), id)
                <= zone_count(zones(g), id) by {}
            assert(zone_count(zones(g1), eid) <= 1);
            lemma_zones_gain(g, g1, eid);
        }
        assert(keeps(g, g1));
        lemma_summon_n_keeps(g1, owner, def, (k - 1) as nat);
    }
}

proof fn lemma_heal_all_keeps(g: GameView, targets: Seq<EntityId>, amount: u32)
    ensures
        keeps(g, heal_all(g, targets, amount)),
    decreases targets.len(),
{
    if targets.len() > 0 {
        lemma_heal_all_keeps(g, targets.drop_last(), amount);
        let g1 = heal_all(g, targets.drop_last(), amount);
        assert(zones(heal_all(g, targets, amount)) == zones(g1));
    }
}

proof fn lemma_buff_all_keeps(g: GameView, targets: Seq<EntityId>, attack: i32, health: i32)
    ensures
        keeps(g, buff_all(g, targets, attack, health)),
    decreases targets.len(),
{
    if targets.len() > 0 {
        lemma_buff_all_keeps(g, targets.drop_last(), attack, health);
        let g1 = buff_all(g, targets.drop_last(), attack, health);
        assert(zones(buff_all(g, targets, attack, health)) == zones(g1));
    }
}

proof fn lemma_destroy_all_keeps(g: GameView, targets: Seq<EntityId>)
    ensures
        keeps(g, destroy_all(g, targets)),
    decreases targets.len(),
{
    if targets.len() > 0 {
        lemma_destroy_all_keeps(g, targets.drop_last());
        let g1 = destroy_all(g, targets.drop_last());
        assert(zones(destroy_all(g, targets)) == zones(g1));
    }
}

proof fn lemma_split_board_len(ents: Map<EntityId, crate::entity::Entity>, board: Seq<EntityId>)
    ensures
        split_board(ents, board).0.len() + split_board(ents, board).1.len() == board.len(),
    decreases board.len(),
{
    if board.len() > 0 {
        lemma_split_board_len(ents, board.drop_last());
    }
}

proof fn lemma_deal_damage_keeps(g: GameView, reg: CardRegistry, id: EntityId, amount: u32, depth: u32)
    ensures
        keeps(g, deal_damage(g, reg, id, amount, depth).0),
    decreases depth_left(depth), 2nat, 0int,
{
    match minion_of(g, id) {
        Some(m) => {
            let (g1, e1) = hit_minion(g, id, m, amount);
            assert(zones(g1) == zones(g));
            assert(keeps(g, g1));
            if depth < MAX_EFFECT_DEPTH {
                lemma_process_deaths_keeps(g1, reg, (depth + 1) as u32);
            }
        },
        None => {
            assert(zones(deal_damage(g, reg, id, amount, depth).0) == zones(g));
        },
    }
}

proof fn lemma_damage_all_keeps(
    g: GameView,
    reg: CardRegistry,
    targets: Seq<EntityId>,
    i: int,
    amount: u32,
    depth: u32,
)
    ensures
        keeps(g, damage_all(g, reg, targets, i, amount, depth).0),
    decreases depth_left(depth), 3nat, targets.len() - i,
{
    if !(i < 0 || i >= targets.len()) {
        lemma_deal_damage_keeps(g, reg, targets[i], amount, depth);
        let g1 = deal_damage(g, reg, targets[i], amount, depth).0;
        lemma_damage_all_keeps(g1, reg, targets, i + 1, amount, depth);
    }
}

proof fn lemma_single_effect_keeps(
    g: GameView,
    reg: CardRegistry,
    effect: Effect,
    caster: PlayerId,
    chosen: Option<EntityId>,
    depth: u32,
)
    requires
        caster < 2,
    ensures
        keeps(g, single_effect(g, reg, effect, caster, chosen, depth).0),
    decreases depth_left(depth), 4nat, 0int,
{
    if depth < MAX_EFFECT_DEPTH {
        match effect {
            Effect::DealDamage { amount, target } => {
                lemma_damage_all_keeps(
                    g,
                    reg,
                    crate::rules::resolve_targets(g, target, caster, chosen),
                    0,
                    amount,
                    depth,
                );
            },
            Effect::Heal { amount, target } => {
                lemma_heal_all_keeps(g, crate::rules::resolve_targets(g, target, caster, chosen), amount);
            },
            Effect::Summon { card_id, count, for_opponent } => {
                let owner = if for_opponent {
                    opp(caster)
                } else {
                    caster
                };
                match reg.lookup(card_id@) {
                    Some(def) => lemma_summon_n_keeps(g, owner, def, count as nat),
                    None => {},
                }
            },
            Effect::DrawCards { count } => {
                lemma_draw_n_keeps(g, caster, count as nat);
            },
            Effect::BuffMinion { attack, health, target } => {
                lemma_buff_all_keeps(
                    g,
                    crate::rules::resolve_targets(g, target, caster, chosen),
                    attack,
                    health,
                );
            },
            Effect::DestroyMinion { target } => {
                let t = crate::rules::resolve_targets(g, target, caster, chosen);
                lemma_destroy_all_keeps(g, t);
                lemma_process_deaths_keeps(destroy_all(g, t), reg, (depth + 1) as u32);
            },
        }
    }
}

proof fn lemma_effects_from_keeps(
    g: GameView,
    reg: CardRegistry,
    effects: Seq<Effect>,
    i: int,
    caster: PlayerId,
    chosen: Option<EntityId>,
    depth: u32,
)
    requires
        caster < 2,
    ensures
        keeps(g, effects_from(g, reg, effects, i, caster, chosen, depth).0),
    decreases depth_left(depth), 5nat, effects.len() - i,
{
    if !(i < 0 || i >= effects.len()) {
        lemma_single_effect_keeps(g, reg, effects[i], caster, chosen, depth);
        let g1 = single_effect(g, reg, effects[i], caster, chosen, depth).0;
        lemma_effects_from_keeps(g1, reg, effects, i + 1, caster, chosen, depth);
    }
}

/// Effects never change mana, mana crystals, the active player or the turn
/// number, never forget an entity, and never push a zone beyond its size
/// limit.
pub proof fn law_effects_keep_mana_turn_and_limits(
    g: GameView,
    reg: CardRegistry,
    effects: Seq<Effect>,
    caster: PlayerId,
    chosen: Option<EntityId>,
    depth: u32,
)
    requires
        caster < 2,
    ensures
        keeps(g, execute_effects(g, reg, effects, caster, chosen, depth).0),
    decreases depth_left(depth), 6nat, 0int,
{
    if depth < MAX_EFFECT_DEPTH {
        lemma_effects_from_keeps(g, reg, effects, 0, caster, chosen, depth);
    }
}

/// The dead minions `dead[i..]` still to bury are known, in no zone, and
/// distinct.
pub open spec fn pending_ok(g: GameView, dead: Seq<EntityId>, i: int) -> bool {
    &&& forall|j: int|
        i <= j < dead.len() ==> g.entities.contains_key(#[trigger] dead[j]) && zone_count(zones(g), dead[j])
            == 0
    &&& forall|j: int, k: int| i <= j < k < dead.len() ==> #[trigger] dead[j] != #[trigger] dead[k]
}

proof fn lemma_bury_from_keeps(
    g: GameView,
    reg: CardRegistry,
    pid: PlayerId,
    dead: Seq<EntityId>,
    i: int,
    depth: u32,
    ordered: bool,
)
    requires
        pid < 2,
        0 <= i,
        ordered ==> ids_below_counter(g) && zones_distinct(g) && pending_ok(g, dead, i),
    ensures
        keeps_plain(g, bury_from(g, reg, pid, dead, i, depth).0),
        ({
            let b = bury_from(g, reg, pid, dead, i, depth).0;
            ordered && !b.entities.contains_key(u64::MAX) ==> ids_below_counter(b) && zones_distinct(b)
                && absent_kept(g, b, dead.skip(i)) && attacks_kept(g, b)
        }),
    decreases depth_left(depth), 7nat, dead.len() - i,
{
    broadcast use vstd::seq_lib::group_to_multiset_ensures;

    if i < dead.len() {
        let eid = dead[i];
        let pl = g.player(pid);
        let g1 = g.with_player(pid, PlayerView { graveyard: pl.graveyard.push(eid), ..pl });
        assert(dead.skip(i)[0] == eid);
        assert forall|id: EntityId| #[trigger] dead.skip(i + 1).contains(id) implies dead.skip(i).contains(id) by {
            let k = choose|k: int| 0 <= k < dead.skip(i + 1).len() && #[trigger] dead.skip(i + 1)[k] == id;
            assert(dead.skip(i)[k + 1] == id);
        }
        if ordered {
            assert(g.entities.contains_key(dead[i]));
            assert forall|id: EntityId| id != eid implies #[trigger] zone_count(zones(g1), id)
                == zone_count(zones(g), id) by {}
            assert(zone_count(zones(g1), eid) == 1);
            lemma_zones_gain(g, g1, eid);
            assert(absent_kept(g, g1, dead.skip(i)));
            assert forall|j: int| i + 1 <= j < dead.len() implies g1.entities.contains_key(#[trigger] dead[j])
                && zone_count(zones(g1), dead[j]) == 0 by {
                assert(dead[j] != dead[i]);
                assert(zone_count(zones(g1), dead[j]) == zone_count(zones(g), dead[j]));
            }
        }
        assert(keeps_plain(g, g1));
        let g2 = if crate::rules::has_deathrattle(g1.entities, eid) {
            match reg.lookup(g1.entities[eid].card_id@) {
                Some(def) => {
                    law_effects_keep_mana_turn_and_limits(g1, reg, def.effects@, pid, None, depth);
                    execute_effects(g1, reg, def.effects@, pid, None, depth).0
                },
                None => g1,
            }
        } else {
            g1
        };
        assert(keeps(g1, g2));
        let ordered2 = ordered && ids_below_counter(g2) && zones_distinct(g2);
        if ordered2 {
            assert(!g2.entities.contains_key(u64::MAX));
            assert forall|j: int| i + 1 <= j < dead.len() implies g2.entities.contains_key(#[trigger] dead[j])
                && zone_count(zones(g2), dead[j]) == 0 by {
                assert(g1.entities.contains_key(dead[j]));
                assert(zone_count(zones(g1), dead[j]) == 0);
                assert(!Seq::<EntityId>::empty().contains(dead[j]));
            }
        }
        lemma_bury_from_keeps(g2, reg, pid, dead, i + 1, depth, ordered2);
        let g3 = bury_from(g2, reg, pid, dead, i + 1, depth).0;
        assert(bury_from(g, reg, pid, dead, i, depth).0 == g3);
        if ordered && !g3.entities.contains_key(u64::MAX) {
            assert(!g2.entities.contains_key(u64::MAX));
            assert(ordered2);
            assert(g1.entities == g.entities);
            assert(attacks_kept(g, g1));
            assert(attacks_kept(g1, g2));
            assert(attacks_kept(g2, g3));
            assert(attacks_kept(g, g3));
        }
    }
}

/// A board is split into the living and the dead without losing or adding
/// an id.
proof fn lemma_split_board_multiset(ents: Map<EntityId, crate::entity::Entity>, board: Seq<EntityId>)
    ensures
        board.to_multiset() =~= split_board(ents, board).0.to_multiset().add(
            split_board(ents, board).1.to_multiset(),
        ),
    decreases board.len(),
{
    broadcast use vstd::seq_lib::group_to_multiset_ensures;

    if board.len() > 0 {
        lemma_split_board_multiset(ents, board.drop_last());
        assert(board =~= board.drop_last().push(board.last()));
    }
}

proof fn lemma_deaths_of_player_keeps(g: GameView, reg: CardRegistry, pid: PlayerId, depth: u32)
    requires
        pid < 2,
    ensures
        keeps(g, deaths_of_player(g, reg, pid, depth).0),
    decreases depth_left(depth), 8nat, 0int,
{
    broadcast use vstd::seq_lib::group_to_multiset_ensures;

    let board = g.player(pid).board;
    let (alive, dead) = split_board(g.entities, board);
    lemma_split_board_len(g.entities, board);
    lemma_split_board_multiset(g.entities, board);
    let g1 = crate::rules::set_board(g, pid, alive);
    if ids_below_counter(g) && zones_distinct(g) {
        assert forall|id: EntityId| #[trigger] zone_count(zones(g1), id) + dead.to_multiset().count(id)
            == zone_count(zones(g), id) by {}
        lemma_zones_shrink(g, g1);
        assert forall|j: int| 0 <= j < dead.len() implies g1.entities.contains_key(#[trigger] dead[j])
            && zone_count(zones(g1), dead[j]) == 0 by {
            assert(dead.to_multiset().count(dead[j]) > 0);
            assert(zone_count(zones(g1), dead[j]) + dead.to_multiset().count(dead[j]) == zone_count(
                zones(g),
                dead[j],
            ));
        }
        assert forall|x: EntityId| dead.to_multiset().contains(x) implies dead.to_multiset().count(x) == 1 by {
            assert(zone_count(zones(g1), x) + dead.to_multiset().count(x) == zone_count(zones(g), x));
        }
        dead.lemma_multiset_has_no_duplicates_conv();
        assert forall|j: int, k: int| 0 <= j < k < dead.len() implies #[trigger] dead[j] != #[trigger] dead[k] by {}
        assert(absent_kept(g, g1, Seq::empty()));
    }
    assert(keeps(g, g1));
    assert(dead.skip(0) =~= dead);
    lemma_bury_from_keeps(g1, reg, pid, dead, 0, depth, ids_below_counter(g) && zones_distinct(g));
    let g3 = bury_from(g1, reg, pid, dead, 0, depth).0;
    if ids_below_counter(g) && zones_distinct(g) && !g3.entities.contains_key(u64::MAX) {
        assert forall|id: EntityId|
            g.entities.contains_key(id) && zone_count(zones(g), id) == 0 && !Seq::<EntityId>::empty().contains(id)
            implies #[trigger] zone_count(zones(g3), id) == 0 by {
            if dead.contains(id) {
                let j = choose|j: int| 0 <= j < dead.len() && dead[j] == id;
                assert(dead.to_multiset().count(id) > 0);
                assert(zone_count(zones(g1), id) + dead.to_multiset().count(id) == zone_count(zones(g), id));
            }
            assert(zone_count(zones(g1), id) == 0);
        }
    }
}

proof fn lemma_process_deaths_keeps(g: GameView, reg: CardRegistry, depth: u32)
    ensures
        keeps(g, process_deaths(g, reg, depth).0),
    decreases depth_left(depth), 9nat, 0int,
{
    lemma_deaths_of_player_keeps(g, reg, 0, depth);
    let g1 = deaths_of_player(g, reg, 0, depth).0;
    lemma_deaths_of_player_keeps(g1, reg, 1, depth);
}

/// No action breaks the limits of `bounded`: hands stay within
/// `MAX_HAND_SIZE` (further draws burn), boards within `MAX_BOARD_SIZE`,
/// mana within the crystals and crystals within `MAX_MANA`, and the game
/// is over exactly when it has a winner.
pub proof fn law_actions_keep_size_limits(g: GameView, reg: CardRegistry, a: Action)
    requires
        bounded(g),
    ensures
        bounded(process_action(g, reg, a).0),
{
    if !g.game_over && a.spec_player() == g.active_player {
        match a {
            Action::EndTurn { player } => {
                lemma_start_turn_bounded(g, opp(player));
            },
            Action::PlayCard { player, hand_index, position, target } => {
                let pl = g.player(player);
                if !(hand_index >= pl.hand.len() || !g.entities.contains_key(pl.hand[hand_index as int])) {
                    let eid = pl.hand[hand_index as int];
                    let cid = g.entities[eid].card_id;
                    let def = reg.lookup(cid@)->Some_0;
                    if play_refusal(g, player, def, target) is None {
                        let mana = (pl.mana - def.mana_cost) as u32;
                        let pl1 = PlayerView { hand: pl.hand.remove(hand_index as int), mana, ..pl };
                        let g1 = g.with_player(player, pl1);
                        let ordered = ids_below_counter(g) && zones_distinct(g);
                        if ordered {
                            broadcast use vstd::seq_lib::group_to_multiset_ensures;

                            assert forall|id: EntityId| #[trigger] zone_count(zones(g1), id) <= zone_count(
                                zones(g),
                                id,
                            ) by {}
                            lemma_zones_shrink(g, g1);
                        }
                        assert(bounded(g1));
                        match def.card_type {
                            crate::card::CardTypeData::Minion(_) => {
                                if pl1.board.len() < MAX_BOARD_SIZE {
                                    let ip: usize = if position < pl1.board.len() {
                                        position
                                    } else {
                                        pl1.board.len() as usize
                                    };
                                    let g2 = crate::rules::set_board(
                                        g1,
                                        player,
                                        pl1.board.insert(ip as int, eid),
                                    );
                                    if ordered {
                                        broadcast use vstd::seq_lib::group_to_multiset_ensures;

                                        assert forall|id: EntityId| #[trigger] zone_count(zones(g2), id)
                                            <= zone_count(zones(g), id) by {}
                                        lemma_zones_shrink(g, g2);
                                    }
                                    assert(bounded(g2));
                                    law_effects_keep_mana_turn_and_limits(
                                        g2,
                                        reg,
                                        def.effects@,
                                        player,
                                        target,
                                        0,
                                    );
                                }
                            },
                            crate::card::CardTypeData::Spell => {
                                law_effects_keep_mana_turn_and_limits(
                                    g1,
                                    reg,
                                    def.effects@,
                                    player,
                                    target,
                                    0,
                                );
                            },
                            crate::card::CardTypeData::Weapon(_) => {
                                let g2 = g1.with_player(player, PlayerView { weapon: Some(eid), ..pl1 });
                                if ordered {
                                    broadcast use vstd::seq_lib::group_to_multiset_ensures;

                                    assert forall|id: EntityId| #[trigger] zone_count(zones(g2), id)
                                        <= zone_count(zones(g), id) by {}
                                    lemma_zones_shrink(g, g2);
                                }
                                assert(bounded(g2));
                            },
                        }
                    }
                }
            },
            Action::Attack { player, attacker, defender } => {
                if attack_refusal(g, player, attacker, defender) is None {
                    let m = minion_of(g, attacker)->Some_0;
                    let g1 = set_minion(
                        g,
                        attacker,
                        MinionEntity { attacks_this_turn: (m.attacks_this_turn + 1) as u32, ..m },
                    );
                    assert(zones(g1) == zones(g));
                    if g.player(opp(player)).board.contains(defender) {
                        if let Some(dm) = minion_of(g1, defender) {
                            let (g2, e2) = strike(g1, defender, m.attack, attacker);
                            let (g3, e3) = strike(g2, attacker, dm.attack, defender);
                            assert(zones(g3) == zones(g));
                            assert(bounded(g3));
                            lemma_process_deaths_keeps(g3, reg, 0);
                        }
                    }
                }
            },
        }
    }
}

/// No action forgets an entity: every entity known before an action,
/// accepted or refused, is still known after it (a dead minion moves to the
/// graveyard and stays known).
pub proof fn law_actions_never_forget_entities(g: GameView, reg: CardRegistry, a: Action)
    requires
        g.active_player < 2,
    ensures
        keeps_entities(g, process_action(g, reg, a).0),
{
    if !g.game_over && a.spec_player() == g.active_player {
        match a {
            Action::EndTurn { player } => {
                let o = opp(player);
                let g1 = GameView { active_player: o, turn_number: g.turn_number.wrapping_add(1), ..g };
                let pl = g1.player(o);
                let cr: u32 = if pl.mana_crystals < MAX_MANA {
                    (pl.mana_crystals + 1) as u32
                } else {
                    pl.mana_crystals
                };
                let g2 = g1.with_player(o, PlayerView { mana_crystals: cr, mana: cr, ..pl });
                let g3 = GameView {
                    entities: crate::rules::refresh_minions(g2.entities, g2.player(o).board),
                    ..g2
                };
                assert forall|id: EntityId| g.entities.contains_key(id) implies #[trigger] g3.entities.contains_key(
                    id,
                ) by {
                    lemma_refresh_keeps_keys(g2.entities, g2.player(o).board, id);
                }
                lemma_draw_card_keeps(g3, o);
                lemma_check_deaths_heroes_keeps(draw_card(g3, o).0);
            },
            Action::PlayCard { player, hand_index, position, target } => {
                let pl = g.player(player);
                if !(hand_index >= pl.hand.len() || !g.entities.contains_key(pl.hand[hand_index as int])) {
                    let eid = pl.hand[hand_index as int];
                    let cid = g.entities[eid].card_id;
                    let def = reg.lookup(cid@)->Some_0;
                    if play_refusal(g, player, def, target) is None {
                        let mana = (pl.mana - def.mana_cost) as u32;
                        let pl1 = PlayerView { hand: pl.hand.remove(hand_index as int), mana, ..pl };
                        let g1 = g.with_player(player, pl1);
                        match def.card_type {
                            crate::card::CardTypeData::Minion(_) => {
                                if pl1.board.len() < MAX_BOARD_SIZE {
                                    let ip: usize = if position < pl1.board.len() {
                                        position
                                    } else {
                                        pl1.board.len() as usize
                                    };
                                    let g2 = crate::rules::set_board(
                                        g1,
                                        player,
                                        pl1.board.insert(ip as int, eid),
                                    );
                                    law_effects_keep_mana_turn_and_limits(
                                        g2,
                                        reg,
                                        def.effects@,
                                        player,
                                        target,
                                        0,
                                    );
                                }
                            },
                            crate::card::CardTypeData::Spell => {
                                law_effects_keep_mana_turn_and_limits(
                                    g1,
                                    reg,
                                    def.effects@,
                                    player,
                                    target,
                                    0,
                                );
                            },
                            crate::card::CardTypeData::Weapon(_) => {},
                        }
                    }
                }
            },
            Action::Attack { player, attacker, defender } => {
                if attack_refusal(g, player, attacker, defender) is None {
                    let m = minion_of(g, attacker)->Some_0;
                    let g1 = set_minion(
                        g,
                        attacker,
                        MinionEntity { attacks_this_turn: (m.attacks_this_turn + 1) as u32, ..m },
                    );
                    if g.player(opp(player)).board.contains(defender) {
                        if let Some(dm) = minion_of(g1, defender) {
                            let (g2, e2) = strike(g1, defender, m.attack, attacker);
                            let (g3, e3) = strike(g2, attacker, dm.attack, defender);
                            lemma_process_deaths_keeps(g3, reg, 0);
                        }
                    }
                }
            },
        }
    }
}

/// The start of a turn keeps the limits.
proof fn lemma_start_turn_bounded(g: GameView, p: PlayerId)
    requires
        bounded(g),
        p < 2,
    ensures
        bounded(start_turn(g, p).0),
{
    let g1 = GameView { active_player: p, turn_number: g.turn_number.wrapping_add(1), ..g };
    let pl = g1.player(p);
    let cr: u32 = if pl.mana_crystals < MAX_MANA {
        (pl.mana_crystals + 1) as u32
    } else {
        pl.mana_crystals
    };
    let g2 = g1.with_player(p, PlayerView { mana_crystals: cr, mana: cr, ..pl });
    let g3 = GameView { entities: refresh_minions(g2.entities, g2.player(p).board), ..g2 };
    crate::rules::lemma_refresh_minions_readies_the_board(g2.entities, g2.player(p).board);
    assert(g3.entities.dom() =~= g.entities.dom());
    assert(zones(g3) == zones(g));
    assert(bounded(g3));
    lemma_draw_card_keeps(g3, p);
    lemma_check_deaths_heroes_keeps(draw_card(g3, p).0);
}

/// Building a deck changes only the deck, the entities and the id counter.
proof fn lemma_add_deck_keeps(g: GameView, reg: CardRegistry, p: PlayerId, ids: Seq<String>)
    requires
        p < 2,
    ensures
        keeps(g, add_deck(g, reg, p, ids)),
        add_deck(g, reg, p, ids).game_over == g.game_over,
        add_deck(g, reg, p, ids).winner == g.winner,
        add_deck(g, reg, p, ids).p0.hand == g.p0.hand,
        add_deck(g, reg, p, ids).p1.hand == g.p1.hand,
        add_deck(g, reg, p, ids).p0.board == g.p0.board,
        add_deck(g, reg, p, ids).p1.board == g.p1.board,
    decreases ids.len(),
{
    if ids.len() > 0 {
        lemma_add_deck_keeps(g, reg, p, ids.drop_last());
        let g1 = add_deck(g, reg, p, ids.drop_last());
        match reg.lookup(ids.last()@) {
            Some(def) => {
                let eid = g1.next_entity_id;
                let g2 = add_deck(g, reg, p, ids);
                if ids_below_counter(g1) && zones_distinct(g1) {
                    broadcast use vstd::seq_lib::group_to_multiset_ensures;

                    assert(!g1.entities.contains_key(eid));
                    assert(zone_count(zones(g1), eid) == 0);
                    assert forall|id: EntityId| id != eid implies #[trigger] zone_count(zones(g2), id)
                        <= zone_count(zones(g1), id) by {}
                    assert(zone_count(zones(g2), eid) <= 1);
                    lemma_zones_gain(g1, g2, eid);
                }
                assert(keeps(g1, g2));
            },
            None => {},
        }
    }
}

/// Every game starts within the limits of `bounded`, whatever the deck
/// lists and whatever order the shuffle gives the decks.
pub proof fn law_games_start_bounded(
    reg: CardRegistry,
    ids0: Seq<String>,
    ids1: Seq<String>,
    d0: Seq<EntityId>,
    d1: Seq<EntityId>,
)
    requires
        d0.to_multiset() == add_deck(add_deck(GameView::fresh(), reg, 0, ids0), reg, 1, ids1).p0.deck.to_multiset(),
        d1.to_multiset() == add_deck(add_deck(GameView::fresh(), reg, 0, ids0), reg, 1, ids1).p1.deck.to_multiset(),
    ensures
        bounded(open_game(with_decks(add_deck(add_deck(GameView::fresh(), reg, 0, ids0), reg, 1, ids1), d0, d1)).0),
{
    broadcast use vstd::seq_lib::group_to_multiset_ensures;

    let f = GameView::fresh();
    assert(bounded(f)) by {
        assert forall|id: EntityId| #[trigger] zone_count(zones(f), id) == 0 by {}
    }
    lemma_add_deck_keeps(f, reg, 0, ids0);
    let b0 = add_deck(f, reg, 0, ids0);
    lemma_add_deck_keeps(b0, reg, 1, ids1);
    let built = add_deck(b0, reg, 1, ids1);
    let b = with_decks(built, d0, d1);
    if ids_below_counter(built) && zones_distinct(built) {
        assert forall|id: EntityId| #[trigger] zone_count(zones(b), id) <= zone_count(zones(built), id) by {}
        lemma_zones_shrink(built, b);
    }
    assert(bounded(b));
    lemma_draw_n_keeps(b, 0, STARTING_HAND_FIRST as nat);
    let g1 = draw_n(b, 0, STARTING_HAND_FIRST as nat).0;
    lemma_draw_n_keeps(g1, 1, STARTING_HAND_SECOND as nat);
    lemma_start_turn_bounded(draw_n(g1, 1, STARTING_HAND_SECOND as nat).0, 0);
}

/// The state after `actions`, applied one after the other to `g`.
pub open spec fn run_actions(g: GameView, reg: CardRegistry, actions: Seq<Action>) -> GameView
    decreases actions.len(),
{
    if actions.len() == 0 {
        g
    } else {
        process_action(run_actions(g, reg, actions.drop_last()), reg, actions.last()).0
    }
}

/// The limits of `bounded` hold over whole games: from a state within
/// them, any sequence of actions (accepted or refused) stays within them.
pub proof fn law_runs_stay_bounded(g: GameView, reg: CardRegistry, actions: Seq<Action>)
    requires
        bounded(g),
    ensures
        bounded(run_actions(g, reg, actions)),
    decreases actions.len(),
{
    if actions.len() > 0 {
        law_runs_stay_bounded(g, reg, actions.drop_last());
        law_actions_keep_size_limits(run_actions(g, reg, actions.drop_last()), reg, actions.last());
    }
}

/// A draw effect draws its cards one after the other: a single
/// `DrawCards` effect below the nesting limit is `count` draws in a row.
pub proof fn law_draw_effect_draws_in_turn(
    g: GameView,
    reg: CardRegistry,
    count: u32,
    caster: PlayerId,
    chosen: Option<EntityId>,
    depth: u32,
)
    requires
        caster < 2,
        depth < MAX_EFFECT_DEPTH,
    ensures
        execute_effects(g, reg, seq![Effect::DrawCards { count }], caster, chosen, depth) == draw_n(
            g,
            caster,
            count as nat,
        ),
{
    let effects = seq![Effect::DrawCards { count }];
    let (g1, e1) = single_effect(g, reg, effects[0], caster, chosen, depth);
    assert(effects_from(g1, reg, effects, 1, caster, chosen, depth) == (g1, Seq::<Event>::empty()));
    assert(e1 + Seq::<Event>::empty() =~= e1);
}

/// With enough cards in the deck and room in the hand, drawing `k` cards
/// moves the top `k` cards of the deck, in order, to the end of the hand.
pub proof fn law_draws_move_the_top_of_the_deck(g: GameView, p: PlayerId, k: nat)
    requires
        p < 2,
        k <= g.player(p).deck.len(),
        g.player(p).hand.len() + k <= MAX_HAND_SIZE,
    ensures
        draw_n(g, p, k).0.player(p).deck == g.player(p).deck.skip(k as int),
        draw_n(g, p, k).0.player(p).hand == g.player(p).hand + g.player(p).deck.take(k as int),
    decreases k,
{
    if k > 0 {
        let g1 = draw_card(g, p).0;
        law_draws_move_the_top_of_the_deck(g1, p, (k - 1) as nat);
        let d = g.player(p).deck;
        assert(g1.player(p).deck == d.drop_first());
        assert(d.drop_first().skip(k - 1) =~= d.skip(k as int));
        assert(g.player(p).hand.push(d[0]) + d.drop_first().take(k - 1) =~= g.player(p).hand + d.take(
            k as int,
        ));
    }
}

/// Entity ids stay in order over whole games: in every game, after any
/// actions, no id occurs twice across the decks, hands, boards, graveyards
/// and weapon slots, every id in them is a known entity, and every entity
/// id lies strictly between 0 and the id counter, so neither hero id (0 and
/// `u64::MAX`) is an entity; all this for as long as the counter has not
/// handed out its very last id (`u64::MAX` itself). The decks may be in
/// any order the shuffle gives them.
pub proof fn law_entity_ids_stay_in_order(
    reg: CardRegistry,
    ids0: Seq<String>,
    ids1: Seq<String>,
    d0: Seq<EntityId>,
    d1: Seq<EntityId>,
    actions: Seq<Action>,
)
    requires
        d0.to_multiset() == add_deck(add_deck(GameView::fresh(), reg, 0, ids0), reg, 1, ids1).p0.deck.to_multiset(),
        d1.to_multiset() == add_deck(add_deck(GameView::fresh(), reg, 0, ids0), reg, 1, ids1).p1.deck.to_multiset(),
    ensures
        ({
            let start = open_game(
                with_decks(add_deck(add_deck(GameView::fresh(), reg, 0, ids0), reg, 1, ids1), d0, d1),
            ).0;
            let r = run_actions(start, reg, actions);
            !r.entities.contains_key(u64::MAX) ==> ids_below_counter(r) && zones_distinct(r)
                && !r.entities.contains_key(0)
        }),
{
    law_games_start_bounded(reg, ids0, ids1, d0, d1);
    let start = open_game(
        with_decks(add_deck(add_deck(GameView::fresh(), reg, 0, ids0), reg, 1, ids1), d0, d1),
    ).0;
    law_runs_stay_bounded(start, reg, actions);
}

// ------------------------------------------------------- targeting filters

/// Each filter selects its own side: the friendly filters select the
/// caster's hero and board, the enemy filters the opponent's, the minion
/// filters no hero; `FriendlyMinion` is exactly the caster's board and
/// `EnemyMinion` exactly the opponent's, in board order.
pub proof fn law_filters_select_their_side(g: GameView, c: PlayerId, id: EntityId)
    requires
        c < 2,
    ensures
        matching(g, TargetFilter::FriendlyMinion, c) == g.player(c).board,
        matching(g, TargetFilter::EnemyMinion, c) == g.player(opp(c)).board,
        matching(g, TargetFilter::FriendlyCharacter, c).contains(id) <==> (id == hero_id(c)
            || g.player(c).board.contains(id)),
        matching(g, TargetFilter::EnemyCharacter, c).contains(id) <==> (id == hero_id(opp(c))
            || g.player(opp(c)).board.contains(id)),
        matching(g, TargetFilter::AnyMinion, c).contains(id) <==> (g.player(c).board.contains(id)
            || g.player(opp(c)).board.contains(id)),
        matching(g, TargetFilter::Any, c).contains(id) <==> (g.player(c).board.contains(id)
            || g.player(opp(c)).board.contains(id)),
        matching(g, TargetFilter::AnyCharacter, c).contains(id) <==> (id == hero_id(c) || id == hero_id(
            opp(c),
        ) || g.player(c).board.contains(id) || g.player(opp(c)).board.contains(id)),
{
    broadcast use vstd::seq_lib::group_seq_properties;

    let mine = g.player(c).board;
    let theirs = g.player(opp(c)).board;
    assert(seq![hero_id(c)].contains(id) <==> id == hero_id(c)) by {
        if id == hero_id(c) {
            assert(seq![hero_id(c)][0] == id);
        }
    }
    assert(seq![hero_id(opp(c))].contains(id) <==> id == hero_id(opp(c))) by {
        if id == hero_id(opp(c)) {
            assert(seq![hero_id(opp(c))][0] == id);
        }
    }
    let both = seq![hero_id(c), hero_id(opp(c))];
    assert(both.contains(id) <==> (id == hero_id(c) || id == hero_id(opp(c)))) by {
        if id == hero_id(c) {
            assert(both[0] == id);
        }
        if id == hero_id(opp(c)) {
            assert(both[1] == id);
        }
    }
}

// ---------------------------------------------------------- playing cards

/// The card at `hand_index` has left the hand of `p` and been paid for.
pub open spec fn paid(g: GameView, p: PlayerId, hand_index: usize, cost: u32) -> GameView {
    let pl = g.player(p);
    g.with_player(p, PlayerView { hand: pl.hand.remove(hand_index as int), mana: (pl.mana - cost) as u32, ..pl })
}

/// A played card's effects act on the chosen target: a spell's effects, and
/// the battlecry of a minion (placed at the requested position, at most the
/// end of the board), run with caster `p` and the target the player chose,
/// on the game in which the card has been paid for.
pub proof fn law_played_effects_get_the_chosen_target(
    g: GameView,
    reg: CardRegistry,
    p: PlayerId,
    hand_index: usize,
    position: usize,
    target: Option<EntityId>,
    def: CardDef,
)
    requires
        p < 2,
        hand_card(g, reg, p, hand_index as int) == Some(def),
        play_card(g, reg, p, hand_index, position, target).1 is Ok,
        def.effects@.len() > 0,
    ensures
        def.card_type is Spell ==> play_card(g, reg, p, hand_index, position, target).0 == execute_effects(
            paid(g, p, hand_index, def.mana_cost),
            reg,
            def.effects@,
            p,
            target,
            0,
        ).0,
        (def.card_type is Minion && def.spec_has_keyword(crate::card::Keyword::Battlecry)) ==> ({
            let g1 = paid(g, p, hand_index, def.mana_cost);
            let board = g1.player(p).board;
            let ip = if position < board.len() {
                position as int
            } else {
                board.len() as int
            };
            let eid = g.player(p).hand[hand_index as int];
            play_card(g, reg, p, hand_index, position, target).0 == execute_effects(
                crate::rules::set_board(g1, p, board.insert(ip, eid)),
                reg,
                def.effects@,
                p,
                target,
                0,
            ).0
        }),
{
}

/// Playability agrees with playing: for a registered card in hand, and any
/// target that raises no targeting error, the card is reported playable
/// exactly when playing it is accepted (only a minion needs room on the
/// board; every card needs its mana).
pub proof fn law_playable_iff_accepted(
    g: GameView,
    reg: CardRegistry,
    p: PlayerId,
    hand_index: usize,
    position: usize,
    target: Option<EntityId>,
)
    requires
        p < 2,
        hand_card(g, reg, p, hand_index as int) is Some,
    ensures
        (play_card(g, reg, p, hand_index, position, target).1 matches Err(e) && (e is TargetRequired
            || e is InvalidTarget)) || (crate::rules::card_playable(g, reg, p, hand_index as int)
            <==> play_card(g, reg, p, hand_index, position, target).1 is Ok),
{
}

// ---------------------------------------------------------------- combat

/// The taunt minions of a board are on that board.
proof fn lemma_taunts_on_board(g: GameView, board: Seq<EntityId>, d: EntityId)
    ensures
        taunt_minions(g, board).contains(d) ==> board.contains(d),
    decreases board.len(),
{
    if board.len() > 0 {
        let b0 = board.drop_last();
        lemma_taunts_on_board(g, b0, d);
        if taunt_minions(g, board).contains(d) {
            if taunt_minions(g, b0).contains(d) {
                let k = choose|k: int| 0 <= k < b0.len() && b0[k] == d;
                assert(board[k] == d);
            } else {
                let t = taunt_minions(g, b0);
                let k = choose|k: int| 0 <= k < t.push(board.last()).len() && t.push(board.last())[k] == d;
                assert(k == t.len());
                assert(board[board.len() - 1] == d);
            }
        }
    }
}

/// Readiness agrees with attacking: whenever some attack by `a` is
/// accepted, `a` is reported ready; and a ready minion's attack on an
/// offered target that is the opponent's hero or a minion of the opponent
/// is accepted. In particular a minion with charge that has not attacked
/// is never held back by summoning sickness.
pub proof fn law_ready_iff_attack_accepted(g: GameView, p: PlayerId, a: EntityId, d: EntityId)
    requires
        p < 2,
    ensures
        attack_refusal(g, p, a, d) is None ==> can_attack(g, p, a) is Ok,
        (can_attack(g, p, a) is Ok && crate::rules::attack_targets(g, p).contains(d) && !g.player(
            p,
        ).board.contains(d) && (g.player(opp(p)).board.contains(d) ==> minion_of(g, d) is Some))
            ==> attack_refusal(g, p, a, d) is None,
        (minion_of(g, a) matches Some(m) && m.keywords.charge && m.attacks_this_turn == 0
            && g.player(p).board.contains(a)) ==> can_attack(g, p, a) is Ok,
{
    let o = opp(p);
    let taunts = taunt_minions(g, g.player(o).board);
    if can_attack(g, p, a) is Ok && crate::rules::attack_targets(g, p).contains(d) && !g.player(p).board.contains(d) {
        if taunts.len() > 0 {
            assert(taunts.contains(d));
            lemma_taunts_on_board(g, g.player(o).board, d);
        } else {
            let k = choose|k: int| 0 <= k < g.player(o).board.push(hero_id(o)).len() && g.player(o).board.push(hero_id(o))[k] == d;
            if k < g.player(o).board.len() {
                assert(g.player(o).board[k] == d);
            }
        }
    }
}

/// An accepted attack uses the attacker's attack, whatever it hits: after
/// the attack on a minion or on the hero (deaths and deathrattles
/// included), the attacker has one attack more this turn, so it is no
/// longer ready. This holds of every game whose ids are in order, for as
/// long as the id counter has not run out.
pub proof fn law_accepted_attacks_use_the_attack(
    g: GameView,
    reg: CardRegistry,
    p: PlayerId,
    atk: EntityId,
    def: EntityId,
)
    requires
        p < 2,
        ids_below_counter(g),
        zones_distinct(g),
        attack(g, reg, p, atk, def).1 is Ok,
        !attack(g, reg, p, atk, def).0.entities.contains_key(u64::MAX),
    ensures
        minion_of(attack(g, reg, p, atk, def).0, atk) is Some,
        minion_of(attack(g, reg, p, atk, def).0, atk)->Some_0.attacks_this_turn == minion_of(
            g,
            atk,
        )->Some_0.attacks_this_turn + 1,
        can_attack(attack(g, reg, p, atk, def).0, p, atk) is Err,
{
    let m = minion_of(g, atk)->Some_0;
    let r = attack(g, reg, p, atk, def).0;
    let g1 = set_minion(g, atk, MinionEntity { attacks_this_turn: (m.attacks_this_turn + 1) as u32, ..m });
    assert(zones(g1) == zones(g));
    if g.player(opp(p)).board.contains(def) {
        let dm = minion_of(g1, def)->Some_0;
        assert(atk != def) by {
            broadcast use vstd::seq_lib::group_to_multiset_ensures;

            assert(g.player(p).board.contains(atk));
            assert(g.player(p).board.to_multiset().count(atk) > 0);
            assert(g.player(opp(p)).board.to_multiset().count(def) > 0);
            assert(zone_count(zones(g), atk) <= 1);
        }
        let (g2, e2) = strike(g1, def, m.attack, atk);
        let (g3, e3) = strike(g2, atk, dm.attack, def);
        assert(zones(g3) == zones(g));
        assert(g3.entities.dom() =~= g.entities.dom());
        assert(minion_of(g3, atk)->Some_0.attacks_this_turn == m.attacks_this_turn + 1);
        lemma_process_deaths_keeps(g3, reg, 0);
        assert(r == process_deaths(g3, reg, 0).0);
        assert(minion_of(g3, atk) is Some);
    }
}

} // verus!
