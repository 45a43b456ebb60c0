//! The rules of the game as mathematical functions from a game state (and
//! the card registry) to the next state and the events that report it.
use vstd::prelude::*;

use crate::action::Action;
use crate::card::{CardDef, CardTypeData};
use crate::card_loader::CardRegistry;
use crate::effect::{Effect, TargetFilter, TargetSpec};
use crate::entity::{spec_from_card_def, Entity, EntityData, KeywordSet, MinionEntity};
use crate::error::GameError;
use crate::event::Event;
use crate::game_state::{opp, GameView, Hero, PlayerView};
use crate::types::{
    EntityId, PlayerId, MAX_BOARD_SIZE, MAX_HAND_SIZE, MAX_MANA, STARTING_HAND_FIRST,
    STARTING_HAND_SECOND,
};

verus! {

/// Effects nested this deep (deathrattles triggering deathrattles) do nothing.
pub const MAX_EFFECT_DEPTH: u32 = 20;

/// The id that stands for the hero of player `p` as a target.
pub open spec fn hero_id(p: PlayerId) -> EntityId {
    if p == 0 {
        0
    } else {
        u64::MAX
    }
}

/// The player whose hero `id` stands for.
pub open spec fn hero_owner(id: EntityId) -> Option<PlayerId> {
    if id == hero_id(0) {
        Some(0)
    } else if id == hero_id(1) {
        Some(1)
    } else {
        None
    }
}

/// The minion stats of entity `id`, if it is a known minion.
pub open spec fn minion_of(g: GameView, id: EntityId) -> Option<MinionEntity> {
    if g.entities.contains_key(id) {
        g.entities[id].spec_minion()
    } else {
        None
    }
}

/// `g` with the stats of minion `id` replaced by `m`.
pub open spec fn set_minion(g: GameView, id: EntityId, m: MinionEntity) -> GameView {
    GameView {
        entities: g.entities.insert(id, Entity { data: EntityData::Minion(m), ..g.entities[id] }),
        ..g
    }
}

/// `g` with the hero of `p` replaced by `h`.
pub open spec fn set_hero(g: GameView, p: PlayerId, h: Hero) -> GameView {
    g.with_player(p, PlayerView { hero: h, ..g.player(p) })
}

/// `g` with the board of `p` replaced by `b`.
pub open spec fn set_board(g: GameView, p: PlayerId, b: Seq<EntityId>) -> GameView {
    g.with_player(p, PlayerView { board: b, ..g.player(p) })
}

/// `g` after player `p` lost: the game is over and the other player won.
pub open spec fn lose(g: GameView, p: PlayerId) -> GameView {
    GameView { game_over: true, winner: Some(opp(p)), ..g }
}

/// The events that report that `p` lost.
pub open spec fn loss_events(p: PlayerId) -> Seq<Event> {
    seq![Event::HeroDied { player: p }, Event::GameOver { winner: Some(opp(p)) }]
}

// ---------------------------------------------------------------- targeting

/// The characters a filter selects, from the point of view of `caster`:
/// friendly before enemy, heroes before minions, boards in order.
pub open spec fn matching(g: GameView, filter: TargetFilter, caster: PlayerId) -> Seq<EntityId> {
    let o = opp(caster);
    let mine = g.player(caster).board;
    let theirs = g.player(o).board;
    match filter {
        TargetFilter::Any => mine + theirs,
        TargetFilter::AnyMinion => mine + theirs,
        TargetFilter::FriendlyMinion => mine,
        TargetFilter::EnemyMinion => theirs,
        TargetFilter::AnyCharacter => seq![hero_id(caster), hero_id(o)] + mine + theirs,
        TargetFilter::EnemyCharacter => seq![hero_id(o)] + theirs,
        TargetFilter::FriendlyCharacter => seq![hero_id(caster)] + mine,
    }
}

/// The targets an effect acts on: the chosen one for a player choice, every
/// match for `All`, the first match for `Random`, none otherwise.
pub open spec fn resolve_targets(
    g: GameView,
    spec: TargetSpec,
    caster: PlayerId,
    chosen: Option<EntityId>,
) -> Seq<EntityId> {
    match spec {
        TargetSpec::NoTarget => Seq::empty(),
        TargetSpec::PlayerChoice(_) => match chosen {
            Some(t) => seq![t],
            None => Seq::empty(),
        },
        TargetSpec::Self_ => Seq::empty(),
        TargetSpec::All(f) => matching(g, f, caster),
        TargetSpec::Random(f) => {
            let c = matching(g, f, caster);
            if c.len() == 0 {
                Seq::empty()
            } else {
                seq![c[0]]
            }
        },
    }
}

/// The filter of the first effect of `effects` whose target the player chooses.
pub open spec fn first_choice_filter(effects: Seq<Effect>) -> Option<TargetFilter>
    decreases effects.len(),
{
    if effects.len() == 0 {
        None
    } else {
        match effects[0].spec_target() {
            Some(TargetSpec::PlayerChoice(f)) => Some(f),
            _ => first_choice_filter(effects.drop_first()),
        }
    }
}

/// The characters a player may choose as target for `effects`, if one of
/// them needs a chosen target.
pub open spec fn valid_targets(g: GameView, effects: Seq<Effect>, caster: PlayerId) -> Option<
    Seq<EntityId>,
> {
    match first_choice_filter(effects) {
        Some(f) => Some(matching(g, f, caster)),
        None => None,
    }
}

/// Whether one of `effects` needs a chosen target.
pub open spec fn any_requires_target(effects: Seq<Effect>) -> bool {
    exists|i: int| 0 <= i < effects.len() && #[trigger] effects[i].spec_requires_target()
}

// ---------------------------------------------------------------- drawing

/// Player `p` draws the top card of the deck into the hand, or burns it
/// when the hand is full; with an empty deck the hero takes fatigue damage,
/// one more than the time before.
pub open spec fn draw_card(g: GameView, p: PlayerId) -> (GameView, Seq<Event>) {
    let pl = g.player(p);
    if pl.deck.len() == 0 {
        let fc = pl.fatigue_counter.wrapping_add(1);
        let hp = pl.hero.hp.wrapping_sub(fc as i32);
        let g1 = g.with_player(
            p,
            PlayerView { fatigue_counter: fc, hero: Hero { hp, ..pl.hero }, ..pl },
        );
        let ev = seq![Event::FatigueDamage { player: p, damage: fc }];
        if hp <= 0 {
            (lose(g1, p), ev + loss_events(p))
        } else {
            (g1, ev)
        }
    } else {
        let eid = pl.deck[0];
        let cid = g.entities[eid].card_id;
        if pl.hand.len() >= MAX_HAND_SIZE {
            (
                g.with_player(p, PlayerView { deck: pl.deck.drop_first(), ..pl }),
                seq![Event::CardBurned { player: p, entity_id: eid, card_id: cid }],
            )
        } else {
            (
                g.with_player(
                    p,
                    PlayerView { deck: pl.deck.drop_first(), hand: pl.hand.push(eid), ..pl },
                ),
                seq![Event::CardDrawn { player: p, entity_id: eid, card_id: cid }],
            )
        }
    }
}

/// Player `p` draws `k` cards, one after the other.
pub open spec fn draw_n(g: GameView, p: PlayerId, k: nat) -> (GameView, Seq<Event>)
    decreases k,
{
    if k == 0 {
        (g, Seq::empty())
    } else {
        let (g1, e1) = draw_card(g, p);
        let (g2, e2) = draw_n(g1, p, (k - 1) as nat);
        (g2, e1 + e2)
    }
}

// ---------------------------------------------------------------- turns

/// The minions of `board` lose summoning sickness and may attack again.
pub open spec fn refresh_minions(ents: Map<EntityId, Entity>, board: Seq<EntityId>) -> Map<
    EntityId,
    Entity,
>
    decreases board.len(),
{
    if board.len() == 0 {
        ents
    } else {
        let e = refresh_minions(ents, board.drop_last());
        let id = board.last();
        if e.contains_key(id) {
            match e[id].data {
                EntityData::Minion(m) => e.insert(
                    id,
                    Entity {
                        data: EntityData::Minion(
                            MinionEntity { summoning_sickness: false, attacks_this_turn: 0, ..m },
                        ),
                        ..e[id]
                    },
                ),
                _ => e,
            }
        } else {
            e
        }
    }
}

/// An entity readied for a new turn: a minion loses summoning sickness and
/// its attack count; any other entity stays as it is.
pub open spec fn readied(e: Entity) -> Entity {
    match e.data {
        EntityData::Minion(m) => Entity {
            data: EntityData::Minion(MinionEntity { summoning_sickness: false, attacks_this_turn: 0, ..m }),
            ..e
        },
        _ => e,
    }
}

/// `refresh_minions` readies exactly the known entities on the board and
/// leaves every other entity, and the set of known ids, as it was.
pub proof fn lemma_refresh_minions_readies_the_board(ents: Map<EntityId, Entity>, board: Seq<EntityId>)
    ensures
        refresh_minions(ents, board) == Map::new(
            |k: EntityId| ents.contains_key(k),
            |k: EntityId|
                if board.contains(k) {
                    readied(ents[k])
                } else {
                    ents[k]
                },
        ),
    decreases board.len(),
{
    if board.len() > 0 {
        let b0 = board.drop_last();
        let id = board.last();
        lemma_refresh_minions_readies_the_board(ents, b0);
        assert forall|k: EntityId| #[trigger] board.contains(k) <==> (b0.contains(k) || k == id) by {
            if board.contains(k) && k != id {
                let i = choose|i: int| 0 <= i < board.len() && board[i] == k;
                assert(b0[i] == k);
            }
            if b0.contains(k) {
                let i = choose|i: int| 0 <= i < b0.len() && b0[i] == k;
                assert(board[i] == k);
            }
            if k == id {
                assert(board[board.len() - 1] == k);
            }
        }
        assert(refresh_minions(ents, board) =~= Map::new(
            |k: EntityId| ents.contains_key(k),
            |k: EntityId|
                if board.contains(k) {
                    readied(ents[k])
                } else {
                    ents[k]
                },
        ));
    }
}

/// A hero at zero or less hit points loses, unless the game is already over.
pub open spec fn check_hero_death(g: GameView, p: PlayerId) -> (GameView, Seq<Event>) {
    if g.player(p).hero.hp <= 0 && !g.game_over {
        (lose(g, p), loss_events(p))
    } else {
        (g, Seq::empty())
    }
}

/// Checks both heroes for death, player 0 first.
pub open spec fn check_deaths_heroes(g: GameView) -> (GameView, Seq<Event>) {
    let (g1, e1) = check_hero_death(g, 0);
    let (g2, e2) = check_hero_death(g1, 1);
    (g2, e1 + e2)
}

/// Player `p` starts a turn: becomes active, gains a mana crystal (up to
/// the maximum), refills mana, readies the minions on the board and draws.
pub open spec fn start_turn(g: GameView, p: PlayerId) -> (GameView, Seq<Event>) {
    let g1 = GameView { active_player: p, turn_number: g.turn_number.wrapping_add(1), ..g };
    let pl = g1.player(p);
    let cr: u32 = if pl.mana_crystals < MAX_MANA {
        (pl.mana_crystals + 1) as u32
    } else {
        pl.mana_crystals
    };
    let g2 = g1.with_player(p, PlayerView { mana_crystals: cr, mana: cr, ..pl });
    let g3 = GameView { entities: refresh_minions(g2.entities, g2.player(p).board), ..g2 };
    let (g4, e4) = draw_card(g3, p);
    let (g5, e5) = if g4.player(p).hero.hp <= 0 {
        check_deaths_heroes(g4)
    } else {
        (g4, Seq::empty())
    };
    (
        g5,
        seq![
            Event::TurnStarted { player: p, turn_number: g1.turn_number },
            Event::ManaGained { player: p, new_crystals: cr },
            Event::ManaRefilled { player: p, amount: cr },
        ] + e4 + e5,
    )
}

/// Player `p` ends the turn; the opponent starts one.
pub open spec fn end_turn(g: GameView, p: PlayerId) -> (GameView, Seq<Event>) {
    let (g1, e1) = start_turn(g, opp(p));
    (g1, seq![Event::TurnEnded { player: p }] + e1)
}

// ---------------------------------------------------------------- effects

/// The recursion measure of the effect system: how much nesting is left.
pub open spec fn depth_left(depth: u32) -> nat {
    if depth >= MAX_EFFECT_DEPTH {
        0
    } else {
        (MAX_EFFECT_DEPTH - depth) as nat
    }
}

/// A minion is alive unless it is a known minion with no health left.
pub open spec fn is_alive(ents: Map<EntityId, Entity>, id: EntityId) -> bool {
    !(ents.contains_key(id) && (ents[id].spec_minion() matches Some(m) && m.health <= 0))
}

/// Splits a board, in order, into the living and the dead.
pub open spec fn split_board(ents: Map<EntityId, Entity>, board: Seq<EntityId>) -> (
    Seq<EntityId>,
    Seq<EntityId>,
)
    decreases board.len(),
{
    if board.len() == 0 {
        (Seq::empty(), Seq::empty())
    } else {
        let (a, d) = split_board(ents, board.drop_last());
        let id = board.last();
        if is_alive(ents, id) {
            (a.push(id), d)
        } else {
            (a, d.push(id))
        }
    }
}

/// `split_board` is the board filtered by `is_alive`, and by its negation.
pub proof fn lemma_split_board_filters(ents: Map<EntityId, Entity>, board: Seq<EntityId>)
    ensures
        split_board(ents, board).0 == board.filter(|id: EntityId| is_alive(ents, id)),
        split_board(ents, board).1 == board.filter(|id: EntityId| !is_alive(ents, id)),
    decreases board.len(),
{
    reveal(Seq::filter);
    if board.len() > 0 {
        lemma_split_board_filters(ents, board.drop_last());
    }
}

/// Whether `id` is a known minion with a deathrattle.
pub open spec fn has_deathrattle(ents: Map<EntityId, Entity>, id: EntityId) -> bool {
    ents.contains_key(id) && (ents[id].spec_minion() matches Some(m) && m.keywords.deathrattle)
}

/// A minion is hit for `amount`: a divine shield absorbs the hit and
/// breaks, otherwise the minion loses that much health.
pub open spec fn hit_minion(g: GameView, id: EntityId, m: MinionEntity, amount: u32) -> (
    GameView,
    Seq<Event>,
) {
    if m.keywords.divine_shield {
        (
            set_minion(
                g,
                id,
                MinionEntity { keywords: KeywordSet { divine_shield: false, ..m.keywords }, ..m },
            ),
            seq![Event::DivineShieldPopped { entity_id: id }],
        )
    } else {
        (
            set_minion(g, id, MinionEntity { health: m.health.wrapping_sub(amount as i32), ..m }),
            seq![Event::DamageDealt { target: id, amount, source: None }],
        )
    }
}

/// The hero of `p` (standing as `id`) takes `amount` damage and loses the
/// game when out of hit points, unless the game is already over.
pub open spec fn damage_hero(g: GameView, p: PlayerId, id: EntityId, amount: u32) -> (
    GameView,
    Seq<Event>,
) {
    let hero = g.player(p).hero;
    let hp = hero.hp.wrapping_sub(amount as i32);
    let g1 = set_hero(g, p, Hero { hp, ..hero });
    let e1 = seq![
        Event::DamageDealt { target: id, amount, source: None },
        Event::HeroDamaged { player: p, amount, new_hp: hp },
    ];
    if hp <= 0 && !g1.game_over {
        (lose(g1, p), e1 + loss_events(p))
    } else {
        (g1, e1)
    }
}

/// `id` takes `amount` damage: a minion is hit and deaths are processed one
/// level deeper; a hero is damaged; any other id is ignored.
pub open spec fn deal_damage(
    g: GameView,
    reg: CardRegistry,
    id: EntityId,
    amount: u32,
    depth: u32,
) -> (GameView, Seq<Event>)
    decreases depth_left(depth), 2nat, 0int,
{
    match minion_of(g, id) {
        Some(m) => {
            let (g1, e1) = hit_minion(g, id, m, amount);
            let (g2, e2) = if depth < MAX_EFFECT_DEPTH {
                process_deaths(g1, reg, (depth + 1) as u32)
            } else {
                (g1, Seq::empty())
            };
            (g2, e1 + e2)
        },
        None => match hero_owner(id) {
            Some(p) => damage_hero(g, p, id, amount),
            None => (g, Seq::empty()),
        },
    }
}

/// Deals `amount` damage to `targets[i..]`, in order.
pub open spec fn damage_all(
    g: GameView,
    reg: CardRegistry,
    targets: Seq<EntityId>,
    i: int,
    amount: u32,
    depth: u32,
) -> (GameView, Seq<Event>)
    decreases depth_left(depth), 3nat, targets.len() - i,
{
    if i < 0 || i >= targets.len() {
        (g, Seq::empty())
    } else {
        let (g1, e1) = deal_damage(g, reg, targets[i], amount, depth);
        let (g2, e2) = damage_all(g1, reg, targets, i + 1, amount, depth);
        (g2, e1 + e2)
    }
}

/// `id` regains up to `amount` health, never above its maximum.
pub open spec fn heal_one(g: GameView, id: EntityId, amount: u32) -> GameView {
    match minion_of(g, id) {
        Some(m) => {
            let h = m.health.wrapping_add(amount as i32);
            set_minion(
                g,
                id,
                MinionEntity { health: if h < m.max_health { h } else { m.max_health }, ..m },
            )
        },
        None => match hero_owner(id) {
            Some(p) => {
                let hero = g.player(p).hero;
                let h = hero.hp.wrapping_add(amount as i32);
                set_hero(g, p, Hero { hp: if h < hero.max_hp { h } else { hero.max_hp }, ..hero })
            },
            None => g,
        },
    }
}

/// Heals every target, in order.
pub open spec fn heal_all(g: GameView, targets: Seq<EntityId>, amount: u32) -> GameView
    decreases targets.len(),
{
    if targets.len() == 0 {
        g
    } else {
        heal_one(heal_all(g, targets.drop_last(), amount), targets.last(), amount)
    }
}

/// A minion gains `attack` attack (not below zero) and `health` health and
/// maximum health.
pub open spec fn buff_one(g: GameView, id: EntityId, attack: i32, health: i32) -> GameView {
    match minion_of(g, id) {
        Some(m) => {
            let a = (m.attack as i32).wrapping_add(attack);
            set_minion(
                g,
                id,
                MinionEntity {
                    attack: if a > 0 { a as u32 } else { 0 },
                    health: m.health.wrapping_add(health),
                    max_health: m.max_health.wrapping_add(health),
                    ..m
                },
            )
        },
        None => g,
    }
}

/// Buffs every target, in order.
pub open spec fn buff_all(g: GameView, targets: Seq<EntityId>, attack: i32, health: i32) -> GameView
    decreases targets.len(),
{
    if targets.len() == 0 {
        g
    } else {
        buff_one(buff_all(g, targets.drop_last(), attack, health), targets.last(), attack, health)
    }
}

/// Every target that is a minion is left with no health.
pub open spec fn destroy_all(g: GameView, targets: Seq<EntityId>) -> GameView
    decreases targets.len(),
{
    if targets.len() == 0 {
        g
    } else {
        let g1 = destroy_all(g, targets.drop_last());
        let id = targets.last();
        match minion_of(g1, id) {
            Some(m) => set_minion(g1, id, MinionEntity { health: 0, ..m }),
            None => g1,
        }
    }
}

/// Summons up to `k` copies of `def` for `owner`, at the end of the board,
/// while the board has room.
pub open spec fn summon_n(g: GameView, owner: PlayerId, def: CardDef, k: nat) -> (
    GameView,
    Seq<Event>,
)
    decreases k,
{
    let board = g.player(owner).board;
    if k == 0 || board.len() >= MAX_BOARD_SIZE {
        (g, Seq::empty())
    } else {
        let eid = g.next_entity_id;
        let g1 = set_board(
            GameView {
                next_entity_id: eid.wrapping_add(1),
                entities: g.entities.insert(eid, spec_from_card_def(eid, def, owner)),
                ..g
            },
            owner,
            board.push(eid),
        );
        let (g2, e2) = summon_n(g1, owner, def, (k - 1) as nat);
        (
            g2,
            seq![Event::MinionSummoned { player: owner, entity_id: eid, position: board.len() as usize }]
                + e2,
        )
    }
}

/// The effect of one card effect.
pub open spec fn single_effect(
    g: GameView,
    reg: CardRegistry,
    effect: Effect,
    caster: PlayerId,
    chosen: Option<EntityId>,
    depth: u32,
) -> (GameView, Seq<Event>)
    decreases depth_left(depth), 4nat, 0int,
{
    if depth >= MAX_EFFECT_DEPTH {
        (g, Seq::empty())
    } else {
        match effect {
            Effect::DealDamage { amount, target } => damage_all(
                g,
                reg,
                resolve_targets(g, target, caster, chosen),
                0,
                amount,
                depth,
            ),
            Effect::Heal { amount, target } => (
                heal_all(g, resolve_targets(g, target, caster, chosen), amount),
                Seq::empty(),
            ),
            Effect::Summon { card_id, count, for_opponent } => {
                let owner = if for_opponent {
                    opp(caster)
                } else {
                    caster
                };
                match reg.lookup(card_id@) {
                    Some(def) => summon_n(g, owner, def, count as nat),
                    None => (g, Seq::empty()),
                }
            },
            Effect::DrawCards { count } => draw_n(g, caster, count as nat),
            Effect::BuffMinion { attack, health, target } => (
                buff_all(g, resolve_targets(g, target, caster, chosen), attack, health),
                Seq::empty(),
            ),
            Effect::DestroyMinion { target } => process_deaths(
                destroy_all(g, resolve_targets(g, target, caster, chosen)),
                reg,
                (depth + 1) as u32,
            ),
        }
    }
}

/// Runs `effects[i..]` in order.
pub open spec fn effects_from(
    g: GameView,
    reg: CardRegistry,
    effects: Seq<Effect>,
    i: int,
    caster: PlayerId,
    chosen: Option<EntityId>,
    depth: u32,
) -> (GameView, Seq<Event>)
    decreases depth_left(depth), 5nat, effects.len() - i,
{
    if i < 0 || i >= effects.len() {
        (g, Seq::empty())
    } else {
        let (g1, e1) = single_effect(g, reg, effects[i], caster, chosen, depth);
        let (g2, e2) = effects_from(g1, reg, effects, i + 1, caster, chosen, depth);
        (g2, e1 + e2)
    }
}

/// Runs a list of effects cast by `caster`; at the depth limit nothing happens.
pub open spec fn execute_effects(
    g: GameView,
    reg: CardRegistry,
    effects: Seq<Effect>,
    caster: PlayerId,
    chosen: Option<EntityId>,
    depth: u32,
) -> (GameView, Seq<Event>)
    decreases depth_left(depth), 6nat, 0int,
{
    if depth >= MAX_EFFECT_DEPTH {
        (g, Seq::empty())
    } else {
        effects_from(g, reg, effects, 0, caster, chosen, depth)
    }
}

/// Moves the dead minions `dead[i..]` of player `pid` to the graveyard, in
/// order, each followed by its deathrattle.
pub open spec fn bury_from(
    g: GameView,
    reg: CardRegistry,
    pid: PlayerId,
    dead: Seq<EntityId>,
    i: int,
    depth: u32,
) -> (GameView, Seq<Event>)
    decreases depth_left(depth), 7nat, dead.len() - i,
{
    if i < 0 || i >= dead.len() {
        (g, Seq::empty())
    } else {
        let eid = dead[i];
        let pl = g.player(pid);
        let g1 = g.with_player(pid, PlayerView { graveyard: pl.graveyard.push(eid), ..pl });
        let e1 = seq![Event::MinionDied { entity_id: eid, owner: pid }];
        let (g2, e2) = if has_deathrattle(g1.entities, eid) {
            match reg.lookup(g1.entities[eid].card_id@) {
                Some(def) => execute_effects(g1, reg, def.effects@, pid, None, depth),
                None => (g1, Seq::empty()),
            }
        } else {
            (g1, Seq::empty())
        };
        let (g3, e3) = bury_from(g2, reg, pid, dead, i + 1, depth);
        (g3, e1 + e2 + e3)
    }
}

/// Removes the dead minions of player `pid` from the board and buries them.
pub open spec fn deaths_of_player(g: GameView, reg: CardRegistry, pid: PlayerId, depth: u32) -> (
    GameView,
    Seq<Event>,
)
    decreases depth_left(depth), 8nat, 0int,
{
    let (alive, dead) = split_board(g.entities, g.player(pid).board);
    bury_from(set_board(g, pid, alive), reg, pid, dead, 0, depth)
}

/// Processes the deaths of both boards, player 0 first.
pub open spec fn process_deaths(g: GameView, reg: CardRegistry, depth: u32) -> (
    GameView,
    Seq<Event>,
)
    decreases depth_left(depth), 9nat, 0int,
{
    let (g1, e1) = deaths_of_player(g, reg, 0, depth);
    let (g2, e2) = deaths_of_player(g1, reg, 1, depth);
    (g2, e1 + e2)
}

// ---------------------------------------------------------------- actions

/// The minions of `board` that have taunt, in order.
pub open spec fn taunt_minions(g: GameView, board: Seq<EntityId>) -> Seq<EntityId>
    decreases board.len(),
{
    if board.len() == 0 {
        Seq::empty()
    } else {
        let t = taunt_minions(g, board.drop_last());
        if minion_of(g, board.last()) matches Some(m) && m.keywords.taunt {
            t.push(board.last())
        } else {
            t
        }
    }
}

/// Whether `id` is a known minion with taunt.
pub open spec fn has_taunt(g: GameView, id: EntityId) -> bool {
    minion_of(g, id) matches Some(m) && m.keywords.taunt
}

/// `taunt_minions` is the board filtered by `has_taunt`.
pub proof fn lemma_taunt_minions_filters(g: GameView, board: Seq<EntityId>)
    ensures
        taunt_minions(g, board) == board.filter(|id: EntityId| has_taunt(g, id)),
    decreases board.len(),
{
    reveal(Seq::filter);
    if board.len() > 0 {
        lemma_taunt_minions_filters(g, board.drop_last());
    }
}

/// Combat damage `amount` from `source` to `id`: a divine shield absorbs
/// it and breaks, otherwise a minion loses that much health.
pub open spec fn strike(g: GameView, id: EntityId, amount: u32, source: EntityId) -> (
    GameView,
    Seq<Event>,
) {
    match minion_of(g, id) {
        Some(m) => if m.keywords.divine_shield {
            (
                set_minion(
                    g,
                    id,
                    MinionEntity { keywords: KeywordSet { divine_shield: false, ..m.keywords }, ..m },
                ),
                seq![Event::DivineShieldPopped { entity_id: id }],
            )
        } else {
            (
                set_minion(g, id, MinionEntity { health: m.health.wrapping_sub(amount as i32), ..m }),
                seq![Event::DamageDealt { target: id, amount, source: Some(source) }],
            )
        },
        None => (g, seq![Event::DamageDealt { target: id, amount, source: Some(source) }]),
    }
}

/// Whether minion `id` of player `p` may attack now: it must be on the
/// board, be a minion, be free of summoning sickness (or have charge) and
/// not have attacked this turn.
pub open spec fn can_attack(g: GameView, p: PlayerId, id: EntityId) -> Result<(), GameError> {
    if !g.player(p).board.contains(id) {
        Err(GameError::InvalidAttacker(id))
    } else {
        match minion_of(g, id) {
            None => Err(GameError::InvalidAttacker(id)),
            Some(m) => if m.summoning_sickness && !m.keywords.charge {
                Err(GameError::SummoningSickness)
            } else if m.attacks_this_turn >= 1 {
                Err(GameError::AlreadyAttacked)
            } else {
                Ok(())
            },
        }
    }
}

/// What player `p` may attack: the taunt minions of the opponent if there
/// are any, otherwise the opponent's minions and hero.
pub open spec fn attack_targets(g: GameView, p: PlayerId) -> Seq<EntityId> {
    let o = opp(p);
    let taunts = taunt_minions(g, g.player(o).board);
    if taunts.len() > 0 {
        taunts
    } else {
        g.player(o).board.push(hero_id(o))
    }
}

/// Why minion `atk` of player `p` may not attack `def`, if so: the
/// attacker must be a ready minion of `p`, the defender must not be on the
/// attacker's side, a taunt minion of the opponent must be attacked
/// while there is one, and a defender on the opponent's board must be a
/// minion.
pub open spec fn attack_refusal(g: GameView, p: PlayerId, atk: EntityId, def: EntityId) -> Option<
    GameError,
> {
    let o = opp(p);
    if !g.player(p).board.contains(atk) {
        Some(GameError::InvalidAttacker(atk))
    } else if g.player(p).board.contains(def) {
        Some(GameError::CannotAttackOwnMinion)
    } else {
        match minion_of(g, atk) {
            None => Some(GameError::InvalidAttacker(atk)),
            Some(m) => if m.summoning_sickness && !m.keywords.charge {
                Some(GameError::SummoningSickness)
            } else if m.attacks_this_turn >= 1 {
                Some(GameError::AlreadyAttacked)
            } else {
                let taunts = taunt_minions(g, g.player(o).board);
                let at_hero = !g.player(o).board.contains(def);
                if taunts.len() > 0 && (at_hero || !taunts.contains(def)) {
                    Some(GameError::MustAttackTaunt)
                } else if !at_hero && minion_of(g, def) is None {
                    Some(GameError::InvalidDefender(def))
                } else {
                    None
                }
            },
        }
    }
}

/// The attack itself, once allowed: the attacker (with stats `m`) uses its
/// attack; an id that is not on the opponent's board stands for the
/// opponent's hero, who may lose; minions damage each other and deaths are
/// processed.
pub open spec fn carry_out_attack(
    g: GameView,
    reg: CardRegistry,
    p: PlayerId,
    atk: EntityId,
    def: EntityId,
    m: MinionEntity,
) -> (GameView, Result<Seq<Event>, GameError>) {
    let o = opp(p);
    let g1 = set_minion(g, atk, MinionEntity { attacks_this_turn: (m.attacks_this_turn + 1) as u32, ..m });
    let e1 = seq![Event::AttackPerformed { attacker: atk, defender: def }];
    if !g.player(o).board.contains(def) {
        let hero = g1.player(o).hero;
        let hp = hero.hp.wrapping_sub(m.attack as i32);
        let g2 = set_hero(g1, o, Hero { hp, ..hero });
        let e2 = seq![
            Event::DamageDealt { target: def, amount: m.attack, source: Some(atk) },
            Event::HeroDamaged { player: o, amount: m.attack, new_hp: hp },
        ];
        if hp <= 0 {
            (
                GameView { game_over: true, winner: Some(p), ..g2 },
                Ok(e1 + e2 + seq![Event::HeroDied { player: o }, Event::GameOver { winner: Some(p) }]),
            )
        } else {
            (g2, Ok(e1 + e2))
        }
    } else {
        let dm = minion_of(g1, def)->Some_0;
        let (g2, e2) = strike(g1, def, m.attack, atk);
        let (g3, e3) = strike(g2, atk, dm.attack, def);
        let (g4, e4) = process_deaths(g3, reg, 0);
        (g4, Ok(e1 + e2 + e3 + e4))
    }
}

/// Minion `atk` of player `p` attacks `def`.
pub open spec fn attack(g: GameView, reg: CardRegistry, p: PlayerId, atk: EntityId, def: EntityId) -> (
    GameView,
    Result<Seq<Event>, GameError>,
) {
    match attack_refusal(g, p, atk, def) {
        Some(e) => (g, Err(e)),
        None => carry_out_attack(g, reg, p, atk, def, minion_of(g, atk)->Some_0),
    }
}

/// The definition of the card at `hand_index` of player `p`, when there is one.
pub open spec fn hand_card(g: GameView, reg: CardRegistry, p: PlayerId, hand_index: int) -> Option<
    CardDef,
> {
    let hand = g.player(p).hand;
    if 0 <= hand_index < hand.len() && g.entities.contains_key(hand[hand_index]) {
        reg.lookup(g.entities[hand[hand_index]].card_id@)
    } else {
        None
    }
}

/// Whether the card at `hand_index` is known to the game but its definition
/// is not registered (playing it is a broken invariant).
pub open spec fn hand_card_unregistered(
    g: GameView,
    reg: CardRegistry,
    p: PlayerId,
    hand_index: int,
) -> bool {
    let hand = g.player(p).hand;
    0 <= hand_index < hand.len() && g.entities.contains_key(hand[hand_index])
        && reg.lookup(g.entities[hand[hand_index]].card_id@) is None
}

/// Why player `p` may not play `def` with `target` now, if so: a needed
/// target is missing while one could be chosen, the target is not one
/// that may be chosen, the mana does not suffice, or a minion finds no room
/// on the board.
pub open spec fn play_refusal(g: GameView, p: PlayerId, def: CardDef, target: Option<EntityId>) -> Option<
    GameError,
> {
    let effects = def.effects@;
    let needs = any_requires_target(effects);
    let valid = valid_targets(g, effects, p);
    if needs && target is None && (valid matches Some(t) && t.len() > 0) {
        Some(GameError::TargetRequired)
    } else if needs && (target matches Some(tid) && (valid matches Some(ts) && !ts.contains(tid))) {
        Some(GameError::InvalidTarget(target->Some_0))
    } else if g.player(p).mana < def.mana_cost {
        Some(GameError::NotEnoughMana { available: g.player(p).mana, cost: def.mana_cost })
    } else if def.card_type is Minion && g.player(p).board.len() >= MAX_BOARD_SIZE {
        Some(GameError::BoardFull)
    } else {
        None
    }
}

/// The card `eid` (made from `def`, with id `cid`) leaves the hand of `p`
/// and its mana is paid; a minion enters the board (its battlecry runs), a
/// spell is cast, a weapon replaces the equipped one.
pub open spec fn enter_play(
    g: GameView,
    reg: CardRegistry,
    p: PlayerId,
    hand_index: usize,
    position: usize,
    target: Option<EntityId>,
    eid: EntityId,
    cid: String,
    def: CardDef,
) -> (GameView, Result<Seq<Event>, GameError>) {
    let pl = g.player(p);
    let effects = def.effects@;
    let mana = (pl.mana - def.mana_cost) as u32;
    let pl1 = PlayerView { hand: pl.hand.remove(hand_index as int), mana, ..pl };
    let g1 = g.with_player(p, pl1);
    let e1 = seq![
        Event::CardPlayed { player: p, entity_id: eid, card_id: cid, hand_index },
        Event::ManaSpent { player: p, amount: def.mana_cost, remaining: mana },
    ];
    match def.card_type {
        CardTypeData::Minion(_) => {
            let ip: usize = if position < pl1.board.len() {
                position
            } else {
                pl1.board.len() as usize
            };
            let g2 = set_board(g1, p, pl1.board.insert(ip as int, eid));
            let e2 = seq![Event::MinionSummoned { player: p, entity_id: eid, position: ip }];
            if def.spec_has_keyword(crate::card::Keyword::Battlecry) && effects.len() > 0 {
                let (g3, e3) = execute_effects(g2, reg, effects, p, target, 0);
                (g3, Ok(e1 + e2 + e3))
            } else {
                (g2, Ok(e1 + e2))
            }
        },
        CardTypeData::Spell => {
            let e2 = seq![Event::SpellCast { player: p, entity_id: eid }];
            if effects.len() > 0 {
                let (g3, e3) = execute_effects(g1, reg, effects, p, target, 0);
                (g3, Ok(e1 + e2 + e3))
            } else {
                (g1, Ok(e1 + e2))
            }
        },
        CardTypeData::Weapon(_) => {
            let e2: Seq<Event> = match pl1.weapon {
                Some(old) => seq![Event::WeaponDestroyed { player: p, entity_id: old }],
                None => Seq::empty(),
            };
            (
                g1.with_player(p, PlayerView { weapon: Some(eid), ..pl1 }),
                Ok(e1 + e2 + seq![Event::WeaponEquipped { player: p, entity_id: eid }]),
            )
        },
    }
}

/// Player `p` plays the card at `hand_index`; a minion goes to `position`
/// (at most the end of the board), `target` is the chosen target.
pub open spec fn play_card(
    g: GameView,
    reg: CardRegistry,
    p: PlayerId,
    hand_index: usize,
    position: usize,
    target: Option<EntityId>,
) -> (GameView, Result<Seq<Event>, GameError>) {
    let pl = g.player(p);
    if hand_index >= pl.hand.len() || !g.entities.contains_key(pl.hand[hand_index as int]) {
        (g, Err(GameError::InvalidHandIndex { index: hand_index, hand_size: pl.hand.len() as usize }))
    } else {
        let eid = pl.hand[hand_index as int];
        let cid = g.entities[eid].card_id;
        let def = reg.lookup(cid@)->Some_0;
        match play_refusal(g, p, def, target) {
            Some(e) => (g, Err(e)),
            None => enter_play(g, reg, p, hand_index, position, target, eid, cid, def),
        }
    }
}

/// Applies an action: refused when the game is over or when it is not the
/// submitting player's turn, otherwise ends the turn, plays a card or attacks.
pub open spec fn process_action(g: GameView, reg: CardRegistry, a: Action) -> (
    GameView,
    Result<Seq<Event>, GameError>,
) {
    if g.game_over {
        (g, Err(GameError::GameOver))
    } else if a.spec_player() != g.active_player {
        (g, Err(GameError::NotYourTurn { active: g.active_player, actor: a.spec_player() }))
    } else {
        match a {
            Action::EndTurn { player } => {
                let (g1, e1) = end_turn(g, player);
                (g1, Ok(e1))
            },
            Action::PlayCard { player, hand_index, position, target } => play_card(
                g,
                reg,
                player,
                hand_index,
                position,
                target,
            ),
            Action::Attack { player, attacker, defender } => attack(g, reg, player, attacker, defender),
        }
    }
}

/// Whether the action can be applied without breaking the registry's
/// promise: when the game is running and the player is the active one, a
/// played card that the game knows has a registered definition.
pub open spec fn action_supported(g: GameView, reg: CardRegistry, a: Action) -> bool {
    match a {
        Action::PlayCard { player, hand_index, .. } => g.game_over || player != g.active_player
            || !(player < 2 && hand_card_unregistered(g, reg, player, hand_index as int)),
        _ => true,
    }
}

/// The mathematical value of an action's outcome.
pub open spec fn events_result(r: Result<Vec<Event>, GameError>) -> Result<Seq<Event>, GameError> {
    match r {
        Ok(v) => Ok(v@),
        Err(e) => Err(e),
    }
}

// ---------------------------------------------------------------- queries

/// Whether player `p` could play the card at `hand_index` now: it has a
/// registered definition, the mana suffices, and a minion finds room.
pub open spec fn card_playable(g: GameView, reg: CardRegistry, p: PlayerId, hand_index: int) -> bool {
    match hand_card(g, reg, p, hand_index) {
        None => false,
        Some(def) => def.mana_cost <= g.player(p).mana && !(def.card_type is Minion
            && g.player(p).board.len() >= MAX_BOARD_SIZE),
    }
}

/// The targets a player may choose for the card at `hand_index`, when it
/// needs one.
pub open spec fn play_targets(g: GameView, reg: CardRegistry, p: PlayerId, hand_index: int) -> Option<
    Seq<EntityId>,
> {
    match hand_card(g, reg, p, hand_index) {
        None => None,
        Some(def) => if any_requires_target(def.effects@) {
            valid_targets(g, def.effects@, p)
        } else {
            None
        },
    }
}

// ---------------------------------------------------------------- setup

/// Adds a deck list to the deck of player `p`: each card id that the
/// registry knows becomes a new entity on top of the deck list order;
/// unknown ids are skipped.
pub open spec fn add_deck(g: GameView, reg: CardRegistry, p: PlayerId, ids: Seq<String>) -> GameView
    decreases ids.len(),
{
    if ids.len() == 0 {
        g
    } else {
        let g1 = add_deck(g, reg, p, ids.drop_last());
        match reg.lookup(ids.last()@) {
            Some(def) => {
                let eid = g1.next_entity_id;
                let pl = g1.player(p);
                GameView {
                    next_entity_id: eid.wrapping_add(1),
                    entities: g1.entities.insert(eid, spec_from_card_def(eid, def, p)),
                    ..g1
                }.with_player(p, PlayerView { deck: pl.deck.push(eid), ..pl })
            },
            None => g1,
        }
    }
}

/// The opening: player 0 draws the first starting hand, player 1 the
/// second, and player 0 starts the first turn.
pub open spec fn open_game(g: GameView) -> (GameView, Seq<Event>) {
    let (g1, e1) = draw_n(g, 0, STARTING_HAND_FIRST as nat);
    let (g2, e2) = draw_n(g1, 1, STARTING_HAND_SECOND as nat);
    let (g3, e3) = start_turn(g2, 0);
    (g3, e1 + e2 + e3)
}

/// `g` with the decks replaced by `d0` and `d1`.
pub open spec fn with_decks(g: GameView, d0: Seq<EntityId>, d1: Seq<EntityId>) -> GameView {
    GameView {
        p0: PlayerView { deck: d0, ..g.p0 },
        p1: PlayerView { deck: d1, ..g.p1 },
        ..g
    }
}

} // verus!
