//! Rules engine of a two-player collectible card game: card data, game
//! state, turn structure, combat and the card effect system.

pub mod types;
pub mod card;
pub mod effect;
pub mod entity;
pub mod game_state;
pub mod action;
pub mod event;
pub mod error;
pub mod card_loader;
pub mod rules;
pub mod effect_exec;
pub mod engine;
pub mod laws;
pub mod ids;
pub mod table;

pub use card::{CardDef, CardId, CardSet, CardTypeData, Keyword, Rarity};
pub use card_loader::CardRegistry;
pub use types::{EntityId, PlayerId};
pub use action::Action;
pub use event::Event;
pub use error::GameError;
pub use engine::GameEngine;
pub use game_state::GameState;
