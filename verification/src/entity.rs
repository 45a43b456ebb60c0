use vstd::prelude::*;

use crate::card::{CardDef, CardId, CardTypeData, Keyword};
use crate::types::EntityId;

verus! {

/// The set of keywords a minion currently has. Each of the five keywords
/// is either present or absent.
#[derive(Debug, Clone, Copy, PartialEq, Eq)]
pub struct KeywordSet {
    pub battlecry: bool,
    pub deathrattle: bool,
    pub taunt: bool,
    pub charge: bool,
    pub divine_shield: bool,
}

/// The keyword set holding exactly the keywords that occur in `ks`.
pub open spec fn keyword_set_of(ks: Seq<Keyword>) -> KeywordSet {
    KeywordSet {
        battlecry: ks.contains(Keyword::Battlecry),
        deathrattle: ks.contains(Keyword::Deathrattle),
        taunt: ks.contains(Keyword::Taunt),
        charge: ks.contains(Keyword::Charge),
        divine_shield: ks.contains(Keyword::DivineShield),
    }
}

impl KeywordSet {
    pub open spec fn spec_contains(self, k: Keyword) -> bool {
        match k {
            Keyword::Battlecry => self.battlecry,
            Keyword::Deathrattle => self.deathrattle,
            Keyword::Taunt => self.taunt,
            Keyword::Charge => self.charge,
            Keyword::DivineShield => self.divine_shield,
        }
    }

    /// The set `self` with `k` set to `present`.
    pub open spec fn spec_with(self, k: Keyword, present: bool) -> KeywordSet {
        match k {
            Keyword::Battlecry => KeywordSet { battlecry: present, ..self },
            Keyword::Deathrattle => KeywordSet { deathrattle: present, ..self },
            Keyword::Taunt => KeywordSet { taunt: present, ..self },
            Keyword::Charge => KeywordSet { charge: present, ..self },
            Keyword::DivineShield => KeywordSet { divine_shield: present, ..self },
        }
    }

    pub open spec fn spec_len(self) -> nat {
        (if self.battlecry { 1nat } else { 0nat }) + (if self.deathrattle { 1nat } else { 0nat })
            + (if self.taunt { 1nat } else { 0nat }) + (if self.charge { 1nat } else { 0nat })
            + (if self.divine_shield { 1nat } else { 0nat })
    }

    /// The empty set.
    pub fn new() -> (r: KeywordSet)
        ensures
            r == (KeywordSet {
                battlecry: false,
                deathrattle: false,
                taunt: false,
                charge: false,
                divine_shield: false,
            }),
            forall|k: Keyword| !r.spec_contains(k),
    {
        KeywordSet {
            battlecry: false,
            deathrattle: false,
            taunt: false,
            charge: false,
            divine_shield: false,
        }
    }

    pub fn contains(&self, k: &Keyword) -> (r: bool)
        ensures
            r == self.spec_contains(*k),
    {
        match k {
            Keyword::Battlecry => self.battlecry,
            Keyword::Deathrattle => self.deathrattle,
            Keyword::Taunt => self.taunt,
            Keyword::Charge => self.charge,
            Keyword::DivineShield => self.divine_shield,
        }
    }

    /// Adds `k`; returns whether it was absent before.
    pub fn insert(&mut self, k: Keyword) -> (r: bool)
        ensures
            *final(self) == old(self).spec_with(k, true),
            r == !old(self).spec_contains(k),
    {
        let was = self.contains(&k);
        match k {
            Keyword::Battlecry => self.battlecry = true,
            Keyword::Deathrattle => self.deathrattle = true,
            Keyword::Taunt => self.taunt = true,
            Keyword::Charge => self.charge = true,
            Keyword::DivineShield => self.divine_shield = true,
        }
        !was
    }

    /// Removes `k`; returns whether it was present before.
    pub fn remove(&mut self, k: &Keyword) -> (r: bool)
        ensures
            *final(self) == old(self).spec_with(*k, false),
            r == old(self).spec_contains(*k),
    {
        let was = self.contains(k);
        match k {
            Keyword::Battlecry => self.battlecry = false,
            Keyword::Deathrattle => self.deathrattle = false,
            Keyword::Taunt => self.taunt = false,
            Keyword::Charge => self.charge = false,
            Keyword::DivineShield => self.divine_shield = false,
        }
        was
    }

    pub fn is_empty(&self) -> (r: bool)
        ensures
            r == (forall|k: Keyword| !self.spec_contains(k)),
    {
        let r = !(self.battlecry || self.deathrattle || self.taunt || self.charge
            || self.divine_shield);
        if !r {
            if self.battlecry {
                assert(self.spec_contains(Keyword::Battlecry));
            } else if self.deathrattle {
                assert(self.spec_contains(Keyword::Deathrattle));
            } else if self.taunt {
                assert(self.spec_contains(Keyword::Taunt));
            } else if self.charge {
                assert(self.spec_contains(Keyword::Charge));
            } else {
                assert(self.spec_contains(Keyword::DivineShield));
            }
        }
        r
    }

    pub fn len(&self) -> (r: usize)
        ensures
            r == self.spec_len(),
    {
        let mut n: usize = 0;
        if self.battlecry {
            n = n + 1;
        }
        if self.deathrattle {
            n = n + 1;
        }
        if self.taunt {
            n = n + 1;
        }
        if self.charge {
            n = n + 1;
        }
        if self.divine_shield {
            n = n + 1;
        }
        n
    }

    /// The keywords of the set, in declaration order of `Keyword`.
    pub open spec fn spec_to_seq(self) -> Seq<Keyword> {
        (if self.battlecry { seq![Keyword::Battlecry] } else { seq![] })
            + (if self.deathrattle { seq![Keyword::Deathrattle] } else { seq![] })
            + (if self.taunt { seq![Keyword::Taunt] } else { seq![] })
            + (if self.charge { seq![Keyword::Charge] } else { seq![] })
            + (if self.divine_shield { seq![Keyword::DivineShield] } else { seq![] })
    }

    /// The keywords of the set, in declaration order of `Keyword`.
    pub fn to_vec(&self) -> (r: Vec<Keyword>)
        ensures
            r@ == self.spec_to_seq(),
    {
        let mut v: Vec<Keyword> = Vec::new();
        let ghost s0 = v@;
        if self.battlecry {
            v.push(Keyword::Battlecry);
        }
        assert(v@ =~= (if self.battlecry { seq![Keyword::Battlecry] } else { seq![] }));
        let ghost s1 = v@;
        if self.deathrattle {
            v.push(Keyword::Deathrattle);
        }
        assert(v@ =~= s1 + (if self.deathrattle { seq![Keyword::Deathrattle] } else { seq![] }));
        let ghost s2 = v@;
        if self.taunt {
            v.push(Keyword::Taunt);
        }
        assert(v@ =~= s2 + (if self.taunt { seq![Keyword::Taunt] } else { seq![] }));
        let ghost s3 = v@;
        if self.charge {
            v.push(Keyword::Charge);
        }
        assert(v@ =~= s3 + (if self.charge { seq![Keyword::Charge] } else { seq![] }));
        let ghost s4 = v@;
        if self.divine_shield {
            v.push(Keyword::DivineShield);
        }
        assert(v@ =~= s4 + (if self.divine_shield { seq![Keyword::DivineShield] } else { seq![] }));
        v
    }

    /// The set of the keywords listed in `ks`.
    pub fn from_keywords(ks: &[Keyword]) -> (r: KeywordSet)
        ensures
            r == keyword_set_of(ks@),
    {
        let mut set = KeywordSet::new();
        let n = ks.len();
        assert(ks@.take(0) =~= Seq::<Keyword>::empty());
        for i in 0..n
            invariant
                n == ks@.len(),
                set == keyword_set_of(ks@.take(i as int)),
        {
            let k = ks[i];
            set.insert(k);
            proof {
                let s0 = ks@.take(i as int);
                let s1 = ks@.take(i + 1);
                assert(s1 == s0.push(k));
                assert forall|x: Keyword| s1.contains(x) <==> (s0.contains(x) || x == k) by {
                    if s1.contains(x) && x != k {
                        let j = choose|j: int| 0 <= j < s1.len() && s1[j] == x;
                        assert(s0[j] == x);
                    }
                    if x == k {
                        assert(s1[s1.len() - 1] == x);
                    }
                    if s0.contains(x) {
                        let j = choose|j: int| 0 <= j < s0.len() && s0[j] == x;
                        assert(s1[j] == x);
                    }
                }
            }
        }
        assert(ks@.take(n as int) == ks@);
        set
    }
}

#[derive(Debug, Clone, Copy)]
pub struct MinionEntity {
    pub attack: u32,
    pub health: i32,
    pub max_health: i32,
    pub keywords: KeywordSet,
    pub summoning_sickness: bool,
    pub attacks_this_turn: u32,
}

#[derive(Debug, Clone, Copy)]
pub struct WeaponEntity {
    pub attack: u32,
    pub durability: i32,
}

#[derive(Debug, Clone, Copy)]
pub enum EntityData {
    Minion(MinionEntity),
    Spell,
    Weapon(WeaponEntity),
}

/// A card instance in a game: its id, the card it was made from, its owner
/// and its current stats.
#[derive(Debug, Clone)]
pub struct Entity {
    pub id: EntityId,
    pub card_id: CardId,
    pub owner: usize,
    pub data: EntityData,
}

/// The entity that `card_def` becomes when it enters the game as `id`,
/// owned by `owner`: a minion with full health, summoning sickness and the
/// card's keywords; a spell; or a weapon with the card's durability.
pub open spec fn spec_from_card_def(id: EntityId, card_def: CardDef, owner: usize) -> Entity {
    Entity {
        id,
        card_id: card_def.id,
        owner,
        data: match card_def.card_type {
            CardTypeData::Minion(stats) => EntityData::Minion(
                MinionEntity {
                    attack: stats.attack,
                    health: stats.health as i32,
                    max_health: stats.health as i32,
                    keywords: keyword_set_of(card_def.keywords@),
                    summoning_sickness: true,
                    attacks_this_turn: 0,
                },
            ),
            CardTypeData::Spell => EntityData::Spell,
            CardTypeData::Weapon(stats) => EntityData::Weapon(
                WeaponEntity { attack: stats.attack, durability: stats.durability as i32 },
            ),
        },
    }
}

impl Entity {
    pub open spec fn spec_minion(&self) -> Option<MinionEntity> {
        match self.data {
            EntityData::Minion(m) => Some(m),
            _ => None,
        }
    }

    pub fn from_card_def(id: EntityId, card_def: &CardDef, owner: usize) -> (r: Self)
        ensures
            r == spec_from_card_def(id, *card_def, owner),
    {
        let data = match &card_def.card_type {
            CardTypeData::Minion(stats) => EntityData::Minion(
                MinionEntity {
                    attack: stats.attack,
                    health: stats.health as i32,
                    max_health: stats.health as i32,
                    keywords: KeywordSet::from_keywords(card_def.keywords.as_slice()),
                    summoning_sickness: true,
                    attacks_this_turn: 0,
                },
            ),
            CardTypeData::Spell => EntityData::Spell,
            CardTypeData::Weapon(stats) => EntityData::Weapon(
                WeaponEntity { attack: stats.attack, durability: stats.durability as i32 },
            ),
        };
        Entity { id, card_id: card_def.id.clone(), owner, data }
    }

    pub fn is_minion(&self) -> (r: bool)
        ensures
            r == self.spec_minion() is Some,
    {
        matches!(self.data, EntityData::Minion(_))
    }

    pub fn as_minion(&self) -> (r: Option<&MinionEntity>)
        ensures
            match r {
                Some(m) => self.spec_minion() == Some(*m),
                None => self.spec_minion() is None,
            },
    {
        match &self.data {
            EntityData::Minion(m) => Some(m),
            _ => None,
        }
    }

    pub fn as_minion_mut(&mut self) -> (r: Option<&mut MinionEntity>)
        ensures
            match r {
                Some(m) => {
                    &&& old(self).spec_minion() == Some(*m)
                    &&& *final(self) == Entity { data: EntityData::Minion(*final(m)), ..*old(self) }
                },
                None => {
                    &&& old(self).spec_minion() is None
                    &&& *final(self) == *old(self)
                },
            },
    {
        match &mut self.data {
            EntityData::Minion(m) => Some(m),
            _ => None,
        }
    }
}

} // verus!
