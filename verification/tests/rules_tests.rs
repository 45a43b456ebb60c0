//! Checks of the rules on concrete values: the laws of the engine, every
//! refusal, the queries used by a user interface, and the small types.

use std::sync::Arc;

use hs_rules::action::Action;
use hs_rules::card::{keyword_str, rarity_str, CardDef, CardId, CardSet, CardTypeData, Keyword, MinionStats, Rarity, WeaponStats};
use hs_rules::card_loader::CardRegistry;
use hs_rules::effect::{Effect, TargetFilter, TargetSpec};
use hs_rules::effect_exec::{find_hero_player, hero_entity_id};
use hs_rules::engine::GameEngine;
use hs_rules::entity::{Entity, EntityData, KeywordSet};
use hs_rules::error::GameError;
use hs_rules::event::Event;
use hs_rules::ids::{entity_id_to_i64, i64_to_entity_id, target_from_i64, NO_TARGET};
use hs_rules::game_state::{GameState, Hero, Player};
use hs_rules::types::{EntityId, MAX_BOARD_SIZE, MAX_HAND_SIZE, MAX_MANA, STARTING_HP};
use rand::rngs::StdRng;
use rand::SeedableRng;

fn def(id: &str, cost: u32, card_type: CardTypeData, keywords: Vec<Keyword>, effects: Vec<Effect>) -> CardDef {
    CardDef {
        id: id.to_string(),
        name: id.to_uppercase(),
        mana_cost: cost,
        card_type,
        rarity: Rarity::Common,
        keywords,
        text: String::new(),
        art: "r.png".to_string(),
        effects,
    }
}

fn mstats(attack: u32, health: u32) -> CardTypeData {
    CardTypeData::Minion(MinionStats { attack, health })
}

fn registry() -> Arc<CardRegistry> {
    let choice = |f: TargetFilter| TargetSpec::PlayerChoice(f);
    let cards = vec![
        def("vanilla_2_3", 2, mstats(2, 3), vec![], vec![]),
        def("big_5_5", 1, mstats(5, 5), vec![], vec![]),
        def("taunt_1_4", 1, mstats(1, 4), vec![Keyword::Taunt], vec![]),
        def("shield_1_1", 1, mstats(1, 1), vec![Keyword::DivineShield, Keyword::DivineShield], vec![]),
        def("axe", 2, CardTypeData::Weapon(WeaponStats { attack: 3, durability: 2 }), vec![], vec![]),
        def("bolt", 1, CardTypeData::Spell, vec![], vec![Effect::DealDamage { amount: 3, target: choice(TargetFilter::AnyCharacter) }]),
        def("nova", 2, CardTypeData::Spell, vec![], vec![Effect::DealDamage { amount: 1, target: TargetSpec::All(TargetFilter::EnemyCharacter) }]),
        def("sniper", 1, CardTypeData::Spell, vec![], vec![Effect::DealDamage { amount: 2, target: TargetSpec::Random(TargetFilter::EnemyMinion) }]),
        def("weaken", 0, CardTypeData::Spell, vec![], vec![Effect::BuffMinion { attack: -10, health: -1, target: choice(TargetFilter::AnyMinion) }]),
        def("mend", 0, CardTypeData::Spell, vec![], vec![Effect::Heal { amount: 3, target: choice(TargetFilter::FriendlyCharacter) }]),
        def("ghost_call", 0, CardTypeData::Spell, vec![], vec![Effect::Summon { card_id: "no_such_card".to_string(), count: 3, for_opponent: false }]),
        def("army", 0, CardTypeData::Spell, vec![], vec![Effect::Summon { card_id: "vanilla_2_3".to_string(), count: 9, for_opponent: false }]),
        def("dud", 0, CardTypeData::Spell, vec![], vec![Effect::DealDamage { amount: 5, target: TargetSpec::Self_ }]),
        def("bomber", 1, mstats(1, 1), vec![Keyword::Deathrattle], vec![Effect::DealDamage { amount: 2, target: TargetSpec::All(TargetFilter::EnemyCharacter) }]),
    ];
    Arc::new(CardRegistry::from_card_sets(vec![Ok(CardSet { name: "Rules".to_string(), cards })]).unwrap())
}

fn deck(id: &str, n: usize) -> Vec<CardId> {
    vec![id.to_string(); n]
}

fn game(d0: &str, d1: &str) -> GameEngine {
    GameEngine::new_game(registry(), &deck(d0, 20), &deck(d1, 20), StdRng::seed_from_u64(7)).0
}

/// Puts a fresh entity made from card `id` on `player`'s board.
fn place(engine: &mut GameEngine, id: &str, player: usize) -> EntityId {
    let card = engine.registry().get(id).unwrap().clone();
    let eid = engine.state.alloc_entity_id();
    engine.state.entities.insert(eid, Entity::from_card_def(eid, &card, player));
    engine.state.players[player].board.push(eid);
    eid
}

/// Puts a fresh entity made from card `id` into `player`'s hand, at the front.
fn give(engine: &mut GameEngine, id: &str, player: usize) -> usize {
    let card = engine.registry().get(id).unwrap().clone();
    let eid = engine.state.alloc_entity_id();
    engine.state.entities.insert(eid, Entity::from_card_def(eid, &card, player));
    engine.state.players[player].hand.insert(0, eid);
    0
}

fn zones(s: &GameState) -> Vec<Vec<EntityId>> {
    let mut v = Vec::new();
    for p in &s.players {
        v.push(p.deck.clone());
        v.push(p.hand.clone());
        v.push(p.board.clone());
        v.push(p.graveyard.clone());
    }
    v
}

fn health(engine: &GameEngine, eid: EntityId) -> i32 {
    engine.state().entities.get(&eid).unwrap().as_minion().unwrap().health
}

// ------------------------------------------------------------ refusals

#[test]
fn refused_actions_change_nothing() {
    let mut engine = game("vanilla_2_3", "vanilla_2_3");
    let before = zones(engine.state());
    let mana = engine.state().players[0].mana;
    let attempts = vec![
        Action::EndTurn { player: 1 },
        Action::PlayCard { player: 0, hand_index: 99, position: 0, target: None },
        Action::PlayCard { player: 0, hand_index: 0, position: 0, target: None },
        Action::Attack { player: 0, attacker: 12345, defender: 0 },
    ];
    for a in attempts {
        assert!(engine.process_action(a).is_err());
        assert_eq!(zones(engine.state()), before);
        assert_eq!(engine.state().players[0].mana, mana);
        assert_eq!(engine.state().active_player, 0);
    }
}

#[test]
fn board_full_refusal_leaves_the_card_in_hand() {
    let mut engine = game("big_5_5", "vanilla_2_3");
    engine.state.players[0].mana = 10;
    for _ in 0..MAX_BOARD_SIZE {
        place(&mut engine, "big_5_5", 0);
    }
    let before = zones(engine.state());
    let result = engine.process_action(Action::PlayCard { player: 0, hand_index: 0, position: 0, target: None });
    assert_eq!(result, Err(GameError::BoardFull));
    assert_eq!(zones(engine.state()), before);
    assert_eq!(engine.state().players[0].mana, 10);
    assert_eq!(engine.state().players[0].board.len(), MAX_BOARD_SIZE);
}

#[test]
fn invalid_attacker_refused() {
    let mut engine = game("vanilla_2_3", "vanilla_2_3");
    let theirs = place(&mut engine, "vanilla_2_3", 1);
    let result = engine.process_action(Action::Attack { player: 0, attacker: theirs, defender: 0 });
    assert_eq!(result, Err(GameError::InvalidAttacker(theirs)));
    let spell_on_board = place(&mut engine, "bolt", 0);
    let result = engine.process_action(Action::Attack { player: 0, attacker: spell_on_board, defender: 0 });
    assert_eq!(result, Err(GameError::InvalidAttacker(spell_on_board)));
}

#[test]
fn invalid_defender_refused_before_the_attack_is_used() {
    let mut engine = game("vanilla_2_3", "vanilla_2_3");
    let mine = place(&mut engine, "big_5_5", 0);
    engine.state.entities.get_mut(&mine).unwrap().as_minion_mut().unwrap().summoning_sickness = false;
    let not_a_minion = place(&mut engine, "axe", 1);
    let result = engine.process_action(Action::Attack { player: 0, attacker: mine, defender: not_a_minion });
    assert_eq!(result, Err(GameError::InvalidDefender(not_a_minion)));
    assert_eq!(engine.can_entity_attack(0, mine), Ok(()));
}

#[test]
fn not_your_turn_names_both_players() {
    let mut engine = game("vanilla_2_3", "vanilla_2_3");
    let result = engine.process_action(Action::Attack { player: 1, attacker: 1, defender: 2 });
    assert_eq!(result, Err(GameError::NotYourTurn { active: 0, actor: 1 }));
}

#[test]
fn not_enough_mana_reports_amounts() {
    let mut engine = game("vanilla_2_3", "vanilla_2_3");
    let result = engine.process_action(Action::PlayCard { player: 0, hand_index: 0, position: 0, target: None });
    assert_eq!(result, Err(GameError::NotEnoughMana { available: 1, cost: 2 }));
}

#[test]
fn invalid_hand_index_reports_hand_size() {
    let mut engine = game("vanilla_2_3", "vanilla_2_3");
    let size = engine.state().players[0].hand.len();
    let result = engine.process_action(Action::PlayCard { player: 0, hand_index: size, position: 0, target: None });
    assert_eq!(result, Err(GameError::InvalidHandIndex { index: size, hand_size: size }));
}

// ------------------------------------------------------------ turns

#[test]
fn end_turn_passes_turn_and_refills_mana() {
    let mut engine = game("vanilla_2_3", "vanilla_2_3");
    let turn = engine.state().turn_number;
    engine.state.players[1].mana_crystals = MAX_MANA;
    engine.state.players[1].mana = 0;
    let events = engine.process_action(Action::EndTurn { player: 0 }).unwrap();
    assert_eq!(events[0], Event::TurnEnded { player: 0 });
    assert_eq!(engine.state().active_player, 1);
    assert_eq!(engine.state().turn_number, turn + 1);
    assert_eq!(engine.state().players[1].mana_crystals, MAX_MANA);
    assert_eq!(engine.state().players[1].mana, MAX_MANA);
}

#[test]
fn turn_start_readies_minions() {
    let mut engine = game("vanilla_2_3", "vanilla_2_3");
    let eid = place(&mut engine, "vanilla_2_3", 1);
    engine.state.entities.get_mut(&eid).unwrap().as_minion_mut().unwrap().attacks_this_turn = 1;
    assert_eq!(engine.can_entity_attack(1, eid), Err(GameError::SummoningSickness));
    engine.process_action(Action::EndTurn { player: 0 }).unwrap();
    let m = engine.state().entities.get(&eid).unwrap().as_minion().unwrap();
    assert!(!m.summoning_sickness);
    assert_eq!(m.attacks_this_turn, 0);
    assert_eq!(engine.can_entity_attack(1, eid), Ok(()));
}

#[test]
fn hands_never_exceed_the_limit() {
    let mut engine = game("vanilla_2_3", "vanilla_2_3");
    for _ in 0..30 {
        let p = engine.state().active_player;
        engine.process_action(Action::EndTurn { player: p }).unwrap();
        assert!(engine.state().players[0].hand.len() <= MAX_HAND_SIZE);
        assert!(engine.state().players[1].hand.len() <= MAX_HAND_SIZE);
        assert!(engine.state().players[0].mana_crystals <= MAX_MANA);
        if engine.state().game_over {
            break;
        }
    }
}

#[test]
fn fatigue_damage_counts_up() {
    let mut engine = game("vanilla_2_3", "vanilla_2_3");
    engine.state.players[0].deck.clear();
    let hp = engine.state().players[0].hero.hp;
    let events = engine.state.draw_card(0);
    assert_eq!(events, vec![Event::FatigueDamage { player: 0, damage: 1 }]);
    let events = engine.state.draw_card(0);
    assert_eq!(events, vec![Event::FatigueDamage { player: 0, damage: 2 }]);
    assert_eq!(engine.state().players[0].hero.hp, hp - 3);
    assert_eq!(engine.state().players[0].fatigue_counter, 2);
}

#[test]
fn draw_moves_top_card_to_hand() {
    let mut engine = game("vanilla_2_3", "vanilla_2_3");
    let top = engine.state().players[0].deck[0];
    let deck_len = engine.state().players[0].deck.len();
    let events = engine.state.draw_card(0);
    assert_eq!(events, vec![Event::CardDrawn { player: 0, entity_id: top, card_id: "vanilla_2_3".to_string() }]);
    assert_eq!(*engine.state().players[0].hand.last().unwrap(), top);
    assert_eq!(engine.state().players[0].deck.len(), deck_len - 1);
}

// ------------------------------------------------------------ effects

#[test]
fn effects_at_the_depth_limit_do_nothing() {
    let mut engine = game("vanilla_2_3", "vanilla_2_3");
    let effects = vec![Effect::DealDamage { amount: 4, target: TargetSpec::All(TargetFilter::EnemyCharacter) }];
    let hp = engine.state().players[1].hero.hp;
    assert!(engine.execute_effects(&effects, 0, None, 20).is_empty());
    assert!(engine.execute_effects(&effects, 0, None, 21).is_empty());
    assert_eq!(engine.state().players[1].hero.hp, hp);
    let events = engine.execute_effects(&effects, 0, None, 19);
    assert_eq!(engine.state().players[1].hero.hp, hp - 4);
    assert!(events.contains(&Event::HeroDamaged { player: 1, amount: 4, new_hp: hp - 4 }));
}

#[test]
fn heal_restores_up_to_the_maximum() {
    let mut engine = game("mend", "vanilla_2_3");
    engine.state.players[0].hero.hp = 25;
    engine.process_action(Action::PlayCard { player: 0, hand_index: 0, position: 0, target: Some(0) }).unwrap();
    assert_eq!(engine.state().players[0].hero.hp, 28);
    engine.state.players[0].mana = 0;
    engine.process_action(Action::PlayCard { player: 0, hand_index: 0, position: 0, target: Some(0) }).unwrap();
    assert_eq!(engine.state().players[0].hero.hp, STARTING_HP);
}

#[test]
fn heal_on_a_minion_caps_at_its_max_health() {
    let mut engine = game("mend", "vanilla_2_3");
    let eid = place(&mut engine, "vanilla_2_3", 0);
    engine.state.entities.get_mut(&eid).unwrap().as_minion_mut().unwrap().health = 1;
    engine.process_action(Action::PlayCard { player: 0, hand_index: 0, position: 0, target: Some(eid) }).unwrap();
    assert_eq!(health(&engine, eid), 3);
}

#[test]
fn buff_never_takes_attack_below_zero() {
    let mut engine = game("weaken", "vanilla_2_3");
    let eid = place(&mut engine, "vanilla_2_3", 1);
    engine.process_action(Action::PlayCard { player: 0, hand_index: 0, position: 0, target: Some(eid) }).unwrap();
    let m = engine.state().entities.get(&eid).unwrap().as_minion().unwrap();
    assert_eq!(m.attack, 0);
    assert_eq!(m.health, 2);
    assert_eq!(m.max_health, 2);
}

#[test]
fn divine_shield_absorbs_effect_damage() {
    let mut engine = game("bolt", "vanilla_2_3");
    let eid = place(&mut engine, "shield_1_1", 1);
    let events = engine.process_action(Action::PlayCard { player: 0, hand_index: 0, position: 0, target: Some(eid) }).unwrap();
    assert!(events.contains(&Event::DivineShieldPopped { entity_id: eid }));
    let m = engine.state().entities.get(&eid).unwrap().as_minion().unwrap();
    assert_eq!(m.health, 1);
    assert!(!m.keywords.contains(&Keyword::DivineShield));
}

#[test]
fn area_damage_hits_hero_then_minions_in_order() {
    let mut engine = game("nova", "vanilla_2_3");
    engine.state.players[0].mana = 10;
    let a = place(&mut engine, "vanilla_2_3", 1);
    let b = place(&mut engine, "vanilla_2_3", 1);
    let events = engine.process_action(Action::PlayCard { player: 0, hand_index: 0, position: 0, target: None }).unwrap();
    let hits: Vec<EntityId> = events
        .iter()
        .filter_map(|e| match e {
            Event::DamageDealt { target, .. } => Some(*target),
            _ => None,
        })
        .collect();
    assert_eq!(hits, vec![u64::MAX, a, b]);
    assert_eq!(health(&engine, a), 2);
    assert_eq!(health(&engine, b), 2);
}

#[test]
fn random_target_picks_the_first_candidate() {
    let mut engine = game("sniper", "vanilla_2_3");
    let a = place(&mut engine, "vanilla_2_3", 1);
    let b = place(&mut engine, "vanilla_2_3", 1);
    engine.process_action(Action::PlayCard { player: 0, hand_index: 0, position: 0, target: None }).unwrap();
    assert_eq!(health(&engine, a), 1);
    assert_eq!(health(&engine, b), 3);
}

#[test]
fn unknown_summons_and_self_targets_do_nothing() {
    let mut engine = game("ghost_call", "vanilla_2_3");
    let next = engine.state().next_entity_id;
    let events = engine.process_action(Action::PlayCard { player: 0, hand_index: 0, position: 0, target: None }).unwrap();
    assert_eq!(events.len(), 3);
    assert!(engine.state().players[0].board.is_empty());
    assert_eq!(engine.state().next_entity_id, next);
    let i = give(&mut engine, "dud", 0);
    let events = engine.process_action(Action::PlayCard { player: 0, hand_index: i, position: 0, target: None }).unwrap();
    assert_eq!(events.len(), 3);
}

#[test]
fn summons_stop_at_a_full_board() {
    let mut engine = game("army", "vanilla_2_3");
    let events = engine.process_action(Action::PlayCard { player: 0, hand_index: 0, position: 0, target: None }).unwrap();
    assert_eq!(engine.state().players[0].board.len(), MAX_BOARD_SIZE);
    let summoned = events.iter().filter(|e| matches!(e, Event::MinionSummoned { .. })).count();
    assert_eq!(summoned, MAX_BOARD_SIZE);
    for (pos, eid) in engine.state().players[0].board.iter().enumerate() {
        assert!(events.contains(&Event::MinionSummoned { player: 0, entity_id: *eid, position: pos }));
    }
}

#[test]
fn deathrattles_chain_through_deaths() {
    let mut engine = game("bolt", "vanilla_2_3");
    let bomber = place(&mut engine, "bomber", 1);
    let victim = place(&mut engine, "shield_1_1", 0);
    engine.state.entities.get_mut(&victim).unwrap().as_minion_mut().unwrap().keywords.remove(&Keyword::DivineShield);
    let hp0 = engine.state().players[0].hero.hp;
    let events = engine.process_action(Action::PlayCard { player: 0, hand_index: 0, position: 0, target: Some(bomber) }).unwrap();
    assert!(events.contains(&Event::MinionDied { entity_id: bomber, owner: 1 }));
    assert!(events.contains(&Event::MinionDied { entity_id: victim, owner: 0 }));
    assert_eq!(engine.state().players[0].hero.hp, hp0 - 2);
    assert!(engine.state().players[0].graveyard.contains(&victim));
}

#[test]
fn a_played_card_costs_exactly_its_mana() {
    let mut engine = game("army", "vanilla_2_3");
    engine.state.players[0].mana = 4;
    let i = give(&mut engine, "nova", 0);
    engine.process_action(Action::PlayCard { player: 0, hand_index: i, position: 0, target: None }).unwrap();
    assert_eq!(engine.state().players[0].mana, 2);
}

// ------------------------------------------------------------ combat

#[test]
fn attacks_on_heroes_use_the_attack() {
    let mut engine = game("vanilla_2_3", "vanilla_2_3");
    let eid = place(&mut engine, "big_5_5", 0);
    engine.state.entities.get_mut(&eid).unwrap().as_minion_mut().unwrap().summoning_sickness = false;
    let events = engine.process_action(Action::Attack { player: 0, attacker: eid, defender: 777 }).unwrap();
    assert_eq!(
        events,
        vec![
            Event::AttackPerformed { attacker: eid, defender: 777 },
            Event::DamageDealt { target: 777, amount: 5, source: Some(eid) },
            Event::HeroDamaged { player: 1, amount: 5, new_hp: STARTING_HP - 5 },
        ]
    );
    assert_eq!(engine.can_entity_attack(0, eid), Err(GameError::AlreadyAttacked));
}

#[test]
fn taunt_restricts_attack_targets() {
    let mut engine = game("vanilla_2_3", "vanilla_2_3");
    let plain = place(&mut engine, "vanilla_2_3", 1);
    assert_eq!(engine.valid_attack_targets(0, 0), vec![plain, u64::MAX]);
    let t = place(&mut engine, "taunt_1_4", 1);
    assert_eq!(engine.valid_attack_targets(0, 0), vec![t]);
    let attacker = place(&mut engine, "big_5_5", 0);
    engine.state.entities.get_mut(&attacker).unwrap().as_minion_mut().unwrap().summoning_sickness = false;
    let result = engine.process_action(Action::Attack { player: 0, attacker, defender: plain });
    assert_eq!(result, Err(GameError::MustAttackTaunt));
    assert!(engine.process_action(Action::Attack { player: 0, attacker, defender: t }).is_ok());
}

#[test]
fn combat_trades_damage_both_ways() {
    let mut engine = game("vanilla_2_3", "vanilla_2_3");
    let a = place(&mut engine, "vanilla_2_3", 0);
    let d = place(&mut engine, "taunt_1_4", 1);
    engine.state.entities.get_mut(&a).unwrap().as_minion_mut().unwrap().summoning_sickness = false;
    let events = engine.process_action(Action::Attack { player: 0, attacker: a, defender: d }).unwrap();
    assert_eq!(
        events,
        vec![
            Event::AttackPerformed { attacker: a, defender: d },
            Event::DamageDealt { target: d, amount: 2, source: Some(a) },
            Event::DamageDealt { target: a, amount: 1, source: Some(d) },
        ]
    );
    assert_eq!(health(&engine, a), 2);
    assert_eq!(health(&engine, d), 2);
}

// ------------------------------------------------------------ queries

#[test]
fn playability_and_targets_of_hand_cards() {
    let mut engine = game("bolt", "vanilla_2_3");
    assert!(engine.is_card_playable(0, 0));
    assert!(!engine.is_card_playable(0, 99));
    let targets = engine.valid_play_targets_for_hand(0, 0).unwrap();
    assert_eq!(targets, vec![0, u64::MAX]);
    engine.state.players[0].mana = 0;
    assert!(!engine.is_card_playable(0, 0));
    let i = give(&mut engine, "big_5_5", 0);
    engine.state.players[0].mana = 5;
    assert!(engine.valid_play_targets_for_hand(0, i).is_none());
    for _ in 0..MAX_BOARD_SIZE {
        place(&mut engine, "big_5_5", 0);
    }
    assert!(!engine.is_card_playable(0, i));
}

#[test]
fn valid_targets_follow_the_first_chosen_effect() {
    let engine = game("vanilla_2_3", "vanilla_2_3");
    let effects = vec![
        Effect::DrawCards { count: 1 },
        Effect::DealDamage { amount: 1, target: TargetSpec::PlayerChoice(TargetFilter::EnemyCharacter) },
        Effect::Heal { amount: 1, target: TargetSpec::PlayerChoice(TargetFilter::FriendlyCharacter) },
    ];
    assert!(GameEngine::any_effect_requires_target(&effects));
    assert_eq!(engine.valid_targets(&effects, 1), Some(vec![0]));
    let none = vec![Effect::DrawCards { count: 1 }];
    assert!(!GameEngine::any_effect_requires_target(&none));
    assert_eq!(engine.valid_targets(&none, 0), None);
}

#[test]
fn effect_target_queries() {
    let chosen = Effect::DestroyMinion { target: TargetSpec::PlayerChoice(TargetFilter::AnyMinion) };
    assert!(chosen.requires_target());
    assert_eq!(chosen.target_spec(), Some(&TargetSpec::PlayerChoice(TargetFilter::AnyMinion)));
    let all = Effect::Heal { amount: 2, target: TargetSpec::All(TargetFilter::AnyCharacter) };
    assert!(!all.requires_target());
    assert_eq!(all.target_spec(), Some(&TargetSpec::All(TargetFilter::AnyCharacter)));
    let draw = Effect::DrawCards { count: 3 };
    assert!(!draw.requires_target());
    assert_eq!(draw.target_spec(), None);
}

#[test]
fn hero_ids_and_their_owners() {
    assert_eq!(hero_entity_id(0), 0);
    assert_eq!(hero_entity_id(1), u64::MAX);
    assert_eq!(GameEngine::hero_entity_id(1), u64::MAX);
    assert_eq!(find_hero_player(0), Some(0));
    assert_eq!(find_hero_player(u64::MAX), Some(1));
    assert_eq!(find_hero_player(5), None);
}

#[test]
fn new_game_shuffles_the_built_decks() {
    let cards: Vec<CardId> = (0..30).map(|_| "vanilla_2_3".to_string()).collect();
    let (engine, events) = GameEngine::new_game(registry(), &cards, &cards, StdRng::seed_from_u64(3));
    assert_eq!(events[0], Event::GameStarted);
    let s = engine.state();
    let mut all0: Vec<EntityId> = s.players[0].deck.iter().chain(s.players[0].hand.iter()).copied().collect();
    all0.sort();
    assert_eq!(all0, (1..=30).collect::<Vec<EntityId>>());
    let mut all1: Vec<EntityId> = s.players[1].deck.iter().chain(s.players[1].hand.iter()).copied().collect();
    all1.sort();
    assert_eq!(all1, (31..=60).collect::<Vec<EntityId>>());
    let dealt: Vec<EntityId> = s.players[0].hand.iter().chain(s.players[0].deck.iter()).copied().collect();
    assert_ne!(dealt, (1..=30).collect::<Vec<EntityId>>());
    assert!(s.is_well_formed());
}

#[test]
fn new_game_skips_unknown_cards() {
    let list = vec!["vanilla_2_3".to_string(), "missing".to_string(), "taunt_1_4".to_string()];
    let (engine, _) = GameEngine::new_game(registry(), &list, &[], StdRng::seed_from_u64(1));
    assert_eq!(engine.state().entities.len(), 2);
    assert_eq!(engine.state().next_entity_id, 3);
    assert_eq!(engine.state().players[1].fatigue_counter, 4);
    assert_eq!(engine.state().players[1].hero.hp, STARTING_HP - 10);
}

#[test]
fn supports_flags_unregistered_hand_cards() {
    let mut engine = game("vanilla_2_3", "vanilla_2_3");
    let a = Action::PlayCard { player: 0, hand_index: 0, position: 0, target: None };
    assert!(engine.supports(&a));
    let eid = engine.state().players[0].hand[0];
    engine.state.entities.get_mut(&eid).unwrap().card_id = "nowhere".to_string();
    assert!(!engine.supports(&a));
    assert!(engine.supports(&Action::EndTurn { player: 0 }));
    // Out of turn, or once the game is over, the card is never looked at.
    let theirs = Action::PlayCard { player: 1, hand_index: 0, position: 0, target: None };
    let their_eid = engine.state().players[1].hand[0];
    engine.state.entities.get_mut(&their_eid).unwrap().card_id = "nowhere".to_string();
    assert!(engine.supports(&theirs));
    assert_eq!(engine.process_action(theirs), Err(GameError::NotYourTurn { active: 0, actor: 1 }));
    engine.state.game_over = true;
    engine.state.winner = Some(1);
    assert!(engine.supports(&a));
    assert_eq!(engine.process_action(a), Err(GameError::GameOver));
}

#[test]
fn well_formedness_check() {
    let mut engine = game("vanilla_2_3", "vanilla_2_3");
    assert!(engine.state().is_well_formed());
    engine.state.players[1].deck.push(999_999);
    assert!(!engine.state().is_well_formed());
}

// ------------------------------------------------------------ small types

#[test]
fn keyword_set_operations() {
    let mut ks = KeywordSet::from_keywords(&[Keyword::Taunt, Keyword::Charge, Keyword::Taunt]);
    assert_eq!(ks.len(), 2);
    assert!(ks.contains(&Keyword::Taunt));
    assert!(!ks.contains(&Keyword::Battlecry));
    assert_eq!(ks.to_vec(), vec![Keyword::Taunt, Keyword::Charge]);
    assert!(ks.insert(Keyword::Battlecry));
    assert!(!ks.insert(Keyword::Battlecry));
    assert!(ks.remove(&Keyword::Taunt));
    assert!(!ks.remove(&Keyword::Taunt));
    assert_eq!(ks.to_vec(), vec![Keyword::Battlecry, Keyword::Charge]);
    assert!(!ks.is_empty());
    assert!(KeywordSet::new().is_empty());
}

#[test]
fn entities_from_card_definitions() {
    let reg = registry();
    let m = Entity::from_card_def(7, reg.get("shield_1_1").unwrap(), 1);
    assert_eq!(m.id, 7);
    assert_eq!(m.card_id, "shield_1_1");
    assert_eq!(m.owner, 1);
    assert!(m.is_minion());
    let stats = m.as_minion().unwrap();
    assert_eq!((stats.attack, stats.health, stats.max_health), (1, 1, 1));
    assert!(stats.summoning_sickness);
    assert_eq!(stats.keywords.len(), 1);
    let w = Entity::from_card_def(8, reg.get("axe").unwrap(), 0);
    assert!(!w.is_minion());
    assert!(w.as_minion().is_none());
    assert!(matches!(w.data, EntityData::Weapon(ref s) if s.attack == 3 && s.durability == 2));
    let mut s = Entity::from_card_def(9, reg.get("bolt").unwrap(), 0);
    assert!(matches!(s.data, EntityData::Spell));
    assert!(s.as_minion_mut().is_none());
}

#[test]
fn fresh_state_and_players() {
    let mut s = GameState::new();
    assert_eq!(s.next_entity_id, 1);
    assert_eq!(s.alloc_entity_id(), 1);
    assert_eq!(s.alloc_entity_id(), 2);
    assert_eq!(s.next_entity_id, 3);
    assert_eq!(s.opponent(0), 1);
    assert_eq!(s.opponent(1), 0);
    let p = Player::new();
    assert_eq!(p.hero.hp, STARTING_HP);
    assert!(p.deck.is_empty() && p.weapon.is_none());
    let mut h = Hero::new();
    assert!(!h.is_dead());
    h.hp = 0;
    assert!(h.is_dead());
}

#[test]
fn action_player() {
    assert_eq!(Action::EndTurn { player: 1 }.player(), 1);
    assert_eq!(Action::PlayCard { player: 0, hand_index: 2, position: 1, target: None }.player(), 0);
    assert_eq!(Action::Attack { player: 1, attacker: 3, defender: 4 }.player(), 1);
}

#[test]
fn registry_lookup_returns_the_card_with_that_id() {
    let reg = registry();
    assert_eq!(reg.get("axe").unwrap().id, "axe");
    assert_eq!(reg.get("bolt").unwrap().mana_cost, 1);
    assert!(reg.get("ax").is_none());
    assert_eq!(reg.count(), 14);
}

#[test]
fn keyword_and_rarity_names() {
    assert_eq!(keyword_str(&Keyword::Battlecry), "battlecry");
    assert_eq!(keyword_str(&Keyword::Deathrattle), "deathrattle");
    assert_eq!(keyword_str(&Keyword::Taunt), "taunt");
    assert_eq!(keyword_str(&Keyword::Charge), "charge");
    assert_eq!(keyword_str(&Keyword::DivineShield), "divine_shield");
    assert_eq!(rarity_str(&Rarity::Free), "free");
    assert_eq!(rarity_str(&Rarity::Common), "common");
    assert_eq!(rarity_str(&Rarity::Rare), "rare");
    assert_eq!(rarity_str(&Rarity::Epic), "epic");
    assert_eq!(rarity_str(&Rarity::Legendary), "legendary");
}

#[test]
fn signed_ids_round_trip() {
    let p1 = GameEngine::hero_entity_id(1);
    assert_eq!(entity_id_to_i64(p1), -1);
    assert_eq!(i64_to_entity_id(-1), p1);
    assert_eq!(entity_id_to_i64(GameEngine::hero_entity_id(0)), 0);
    assert_eq!(i64_to_entity_id(entity_id_to_i64(42)), 42);
    assert_eq!(entity_id_to_i64(i64_to_entity_id(-7)), -7);
    assert_eq!(target_from_i64(NO_TARGET), None);
    assert_eq!(target_from_i64(-1), Some(p1));
    assert_eq!(target_from_i64(0), Some(0));
    assert_eq!(target_from_i64(17), Some(17));
}

#[test]
fn only_the_active_hand_is_face_up() {
    let mut engine = game("big_5_5", "vanilla_2_3");
    // Player 0 has one mana on the first turn: the 1-cost minion is playable.
    let mine = engine.hand_view(0);
    assert_eq!(mine.len(), engine.state().players[0].hand.len());
    for (i, slot) in mine.iter().enumerate() {
        assert_eq!(slot.entity_id, engine.state().players[0].hand[i]);
        assert_eq!(slot.hand_index, i);
        assert!(slot.face_up);
        assert!(slot.playable);
    }
    let theirs = engine.hand_view(1);
    assert_eq!(theirs.len(), engine.state().players[1].hand.len());
    assert!(theirs.iter().all(|s| !s.face_up && !s.playable));
    // Without mana nothing is playable, though still face up.
    engine.state.players[0].mana = 0;
    assert!(engine.hand_view(0).iter().all(|s| s.face_up && !s.playable));
}

#[test]
fn only_ready_minions_of_the_active_player_may_attack() {
    let mut engine = game("vanilla_2_3", "vanilla_2_3");
    let fresh = place(&mut engine, "vanilla_2_3", 0);
    let ready = place(&mut engine, "vanilla_2_3", 0);
    engine.state.entities.get_mut(&ready).unwrap().as_minion_mut().unwrap().summoning_sickness = false;
    let theirs = place(&mut engine, "vanilla_2_3", 1);
    engine.state.entities.get_mut(&theirs).unwrap().as_minion_mut().unwrap().summoning_sickness = false;
    let mine = engine.board_view(0);
    assert_eq!(mine.len(), 2);
    assert_eq!(mine[0].entity_id, fresh);
    assert!(!mine[0].can_attack);
    assert_eq!(mine[1].entity_id, ready);
    assert!(mine[1].can_attack);
    let other = engine.board_view(1);
    assert_eq!(other.len(), 1);
    assert_eq!(other[0].entity_id, theirs);
    assert!(!other[0].can_attack);
}

#[test]
fn dead_minions_stay_known_in_the_graveyard() {
    let mut engine = game("vanilla_2_3", "vanilla_2_3");
    let a = place(&mut engine, "big_5_5", 0);
    let d = place(&mut engine, "vanilla_2_3", 1);
    engine.state.entities.get_mut(&a).unwrap().as_minion_mut().unwrap().summoning_sickness = false;
    let known: Vec<EntityId> = engine.state().entities.keys().copied().collect();
    engine.process_action(Action::Attack { player: 0, attacker: a, defender: d }).unwrap();
    assert!(engine.state().players[1].board.is_empty());
    assert_eq!(engine.state().players[1].graveyard, vec![d]);
    for id in known {
        assert!(engine.state().entities.contains_key(&id));
    }
}

#[test]
fn limits_hold_over_a_whole_game() {
    let mut engine = game("big_5_5", "big_5_5");
    for _ in 0..200 {
        let p = engine.state().active_player;
        let _ = engine.process_action(Action::PlayCard { player: p, hand_index: 0, position: 0, target: None });
        let board = engine.state().players[p].board.clone();
        for a in board {
            let _ = engine.process_action(Action::Attack { player: p, attacker: a, defender: 0 });
        }
        let _ = engine.process_action(Action::EndTurn { player: p });
        let s = engine.state();
        assert_eq!(s.game_over, s.winner.is_some());
        let mut seen: Vec<EntityId> = Vec::new();
        for pl in &s.players {
            for id in pl.deck.iter().chain(&pl.hand).chain(&pl.board).chain(&pl.graveyard).chain(pl.weapon.iter()) {
                assert!(!seen.contains(id), "id {id} occurs twice");
                assert!(s.entities.contains_key(id));
                seen.push(*id);
            }
        }
        assert!(!s.entities.contains_key(&0) && !s.entities.contains_key(&u64::MAX));
        assert!(s.entities.keys().all(|k| *k < s.next_entity_id));
        for pl in &s.players {
            assert!(pl.mana <= pl.mana_crystals && pl.mana_crystals <= MAX_MANA);
            assert!(pl.hand.len() <= MAX_HAND_SIZE && pl.board.len() <= MAX_BOARD_SIZE);
        }
    }
    assert!(engine.state().game_over);
}
