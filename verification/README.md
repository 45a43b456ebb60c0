# hs_rules

The rules engine of a two-player collectible card game (minions, spells,
weapons, heroes, mana, a deck, a hand, a board and a graveyard per player),
verified with Verus.

Every rule is stated twice: once as a spec function over the mathematical
value of the game (`rules.rs`), once as executable code whose `ensures`
says it computes exactly that spec function (`effect_exec.rs`,
`engine.rs`). Laws that span several operations are proved in `laws.rs`.

## Layout

- `src/card.rs`, `src/effect.rs`: card definitions and the effect language
  (what an effect does, and which characters it may target).
- `src/entity.rs`, `src/game_state.rs`: entities in play, players, the game
  state, and their views (`GameView`, `PlayerView`).
- `src/action.rs`, `src/event.rs`, `src/error.rs`: what a player asks for,
  what happened, and why a request was refused.
- `src/card_loader.rs`: the card registry, built from parsed card sets;
  card ids are unique.
- `src/rules.rs`: the rules as spec functions: targeting, damage, healing,
  buffs, summons, deaths and deathrattles (to a fixed nesting depth),
  drawing and fatigue, turns, combat, playing cards.
- `src/effect_exec.rs`, `src/engine.rs`: the executable engine; `GameEngine`
  starts a game (shuffling the decks with `rand`) and applies actions.
- `src/table.rs`, `src/ids.rs`: what a user interface shows of hands and
  boards, and ids in the signed form a scripting layer uses.
- `src/laws.rs`: properties of the rules as a whole.
- `tests/`: tests on concrete games.
- `app/`: the Godot extension (gdext): reading RON card files, turning
  events and state into Godot dictionaries, and the node classes.
