use vstd::prelude::*;

use crate::effect::Effect;

verus! {

/// Card identifiers are plain strings, unique within a registry.
pub type CardId = String;

#[derive(Debug, Clone, Copy, PartialEq, Eq)]
pub enum Rarity {
    Free,
    Common,
    Rare,
    Epic,
    Legendary,
}

#[derive(Debug, Clone, Copy, PartialEq, Eq, Structural, Hash)]
pub enum Keyword {
    Battlecry,
    Deathrattle,
    Taunt,
    Charge,
    DivineShield,
}

#[derive(Debug, Clone, Copy, PartialEq, Eq)]
pub struct MinionStats {
    pub attack: u32,
    pub health: u32,
}

#[derive(Debug, Clone, Copy, PartialEq, Eq)]
pub struct WeaponStats {
    pub attack: u32,
    pub durability: u32,
}

#[derive(Debug, Clone, Copy)]
pub enum CardTypeData {
    Minion(MinionStats),
    Spell,
    Weapon(WeaponStats),
}

/// The static definition of a card, as loaded from card data.
#[derive(Debug, Clone)]
pub struct CardDef {
    pub id: CardId,
    pub name: String,
    pub mana_cost: u32,
    pub card_type: CardTypeData,
    pub rarity: Rarity,
    pub keywords: Vec<Keyword>,
    pub text: String,
    pub art: String,
    pub effects: Vec<Effect>,
}

/// A named collection of card definitions (one data file).
#[derive(Debug, Clone)]
pub struct CardSet {
    pub name: String,
    pub cards: Vec<CardDef>,
}

impl CardDef {
    /// Whether the definition lists the keyword `k`.
    pub open spec fn spec_has_keyword(&self, k: Keyword) -> bool {
        self.keywords@.contains(k)
    }
}

/// The lower-case name of a keyword, as shown to players.
pub open spec fn spec_keyword_name(k: Keyword) -> Seq<char> {
    match k {
        Keyword::Battlecry => "battlecry"@,
        Keyword::Deathrattle => "deathrattle"@,
        Keyword::Taunt => "taunt"@,
        Keyword::Charge => "charge"@,
        Keyword::DivineShield => "divine_shield"@,
    }
}

/// The lower-case name of a rarity, as shown to players.
pub open spec fn spec_rarity_name(r: Rarity) -> Seq<char> {
    match r {
        Rarity::Free => "free"@,
        Rarity::Common => "common"@,
        Rarity::Rare => "rare"@,
        Rarity::Epic => "epic"@,
        Rarity::Legendary => "legendary"@,
    }
}

/// The name of a keyword, as a user interface shows it.
pub fn keyword_str(k: &Keyword) -> (r: &'static str)
    ensures
        r@ == spec_keyword_name(*k),
{
    match k {
        Keyword::Battlecry => "battlecry",
        Keyword::Deathrattle => "deathrattle",
        Keyword::Taunt => "taunt",
        Keyword::Charge => "charge",
        Keyword::DivineShield => "divine_shield",
    }
}

/// The name of a rarity, as a user interface shows it.
pub fn rarity_str(r: &Rarity) -> (s: &'static str)
    ensures
        s@ == spec_rarity_name(*r),
{
    match r {
        Rarity::Free => "free",
        Rarity::Common => "common",
        Rarity::Rare => "rare",
        Rarity::Epic => "epic",
        Rarity::Legendary => "legendary",
    }
}

} // verus!
