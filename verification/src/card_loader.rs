use vstd::prelude::*;

use crate::card::{CardDef, CardId, CardSet};

verus! {

/// Why card data could not be loaded.
#[derive(Debug, Clone)]
pub enum CardLoadError {
    /// A data file could not be read.
    Io { path: String, message: String },
    /// A data file is not a well-formed card set.
    Parse { path: String, message: String },
    /// Two cards share an id.
    DuplicateId(CardId),
    /// A card breaks a rule of card data.
    Validation { id: CardId, message: String },
}

/// The mathematical value of a `CardLoadError`.
pub enum LoadErrorView {
    Io { path: Seq<char>, message: Seq<char> },
    Parse { path: Seq<char>, message: Seq<char> },
    DuplicateId(Seq<char>),
    Validation { id: Seq<char>, message: Seq<char> },
}

impl View for CardLoadError {
    type V = LoadErrorView;

    open spec fn view(&self) -> LoadErrorView {
        match self {
            CardLoadError::Io { path, message } => LoadErrorView::Io {
                path: path@,
                message: message@,
            },
            CardLoadError::Parse { path, message } => LoadErrorView::Parse {
                path: path@,
                message: message@,
            },
            CardLoadError::DuplicateId(id) => LoadErrorView::DuplicateId(id@),
            CardLoadError::Validation { id, message } => LoadErrorView::Validation {
                id: id@,
                message: message@,
            },
        }
    }
}

/// The rule a card breaks, if any: its id and its name must not be empty.
pub open spec fn validation_error(card: CardDef) -> Option<LoadErrorView> {
    if card.id@.len() == 0 {
        Some(LoadErrorView::Validation { id: card.id@, message: "Card id must not be empty"@ })
    } else if card.name@.len() == 0 {
        Some(LoadErrorView::Validation { id: card.id@, message: "Card name must not be empty"@ })
    } else {
        None
    }
}

/// Whether some card of `cards` has the id `id`.
pub open spec fn has_card_id(cards: Seq<CardDef>, id: Seq<char>) -> bool {
    exists|i: int| 0 <= i < cards.len() && #[trigger] cards[i].id@ == id
}

/// Accepted cards and errors so far, after offering `card`: a card that
/// breaks a rule, or whose id is already taken, is refused with an error.
pub open spec fn offer_card(acc: (Seq<CardDef>, Seq<LoadErrorView>), card: CardDef) -> (
    Seq<CardDef>,
    Seq<LoadErrorView>,
) {
    match validation_error(card) {
        Some(e) => (acc.0, acc.1.push(e)),
        None => if has_card_id(acc.0, card.id@) {
            (acc.0, acc.1.push(LoadErrorView::DuplicateId(card.id@)))
        } else {
            (acc.0.push(card), acc.1)
        },
    }
}

/// Offers the cards of `cards` in order.
pub open spec fn offer_cards(acc: (Seq<CardDef>, Seq<LoadErrorView>), cards: Seq<CardDef>) -> (
    Seq<CardDef>,
    Seq<LoadErrorView>,
)
    decreases cards.len(),
{
    if cards.len() == 0 {
        acc
    } else {
        offer_card(offer_cards(acc, cards.drop_last()), cards.last())
    }
}

/// Accepted cards and errors after reading the files in order: a file that
/// could not be loaded adds its error, a loaded set offers its cards.
pub open spec fn gather_files(files: Seq<Result<CardSet, CardLoadError>>) -> (
    Seq<CardDef>,
    Seq<LoadErrorView>,
)
    decreases files.len(),
{
    if files.len() == 0 {
        (Seq::empty(), Seq::empty())
    } else {
        let acc = gather_files(files.drop_last());
        match files.last() {
            Ok(set) => offer_cards(acc, set.cards@),
            Err(e) => (acc.0, acc.1.push(e@)),
        }
    }
}

/// The first card of `cards` whose id is `id`.
pub open spec fn find_card(cards: Seq<CardDef>, id: Seq<char>) -> Option<CardDef>
    decreases cards.len(),
{
    if cards.len() == 0 {
        None
    } else if cards[0].id@ == id {
        Some(cards[0])
    } else {
        find_card(cards.drop_first(), id)
    }
}

/// The card `find_card` returns has the id that was asked for, and a card
/// with that id is found whenever there is one.
pub proof fn law_lookup_finds_the_card_with_that_id(cards: Seq<CardDef>, id: Seq<char>)
    ensures
        find_card(cards, id) matches Some(c) ==> c.id@ == id && cards.contains(c),
        find_card(cards, id) is None <==> !has_card_id(cards, id),
    decreases cards.len(),
{
    if cards.len() > 0 {
        law_lookup_finds_the_card_with_that_id(cards.drop_first(), id);
        if cards[0].id@ != id {
            if has_card_id(cards, id) {
                let i = choose|i: int| 0 <= i < cards.len() && #[trigger] cards[i].id@ == id;
                assert(cards.drop_first()[i - 1].id@ == id);
            }
            if has_card_id(cards.drop_first(), id) {
                let i = choose|i: int| 0 <= i < cards.drop_first().len() && #[trigger] cards.drop_first()[i].id@ == id;
                assert(cards[i + 1].id@ == id);
            }
            if find_card(cards, id) is Some {
                let c = find_card(cards, id)->Some_0;
                let k = choose|k: int| 0 <= k < cards.drop_first().len() && cards.drop_first()[k] == c;
                assert(cards[k + 1] == c);
            }
        } else {
            assert(cards[0].id@ == id);
            assert(cards.contains(cards[0]));
        }
    }
}

/// All card definitions of a game, with distinct ids.
#[derive(Debug)]
pub struct CardRegistry {
    cards: Vec<CardDef>,
}

impl View for CardRegistry {
    type V = Seq<CardDef>;

    closed spec fn view(&self) -> Seq<CardDef> {
        self.cards@
    }
}

impl CardRegistry {
    #[verifier::type_invariant]
    closed spec fn unique_ids(self) -> bool {
        forall|i: int, j: int|
            0 <= i < j < self.cards@.len() ==> #[trigger] self.cards@[i].id@ != #[trigger] self.cards@[j].id@
    }

    /// The definition registered under `id`.
    pub open spec fn lookup(self, id: Seq<char>) -> Option<CardDef> {
        find_card(self@, id)
    }

    /// Builds the registry from the loaded data files, in order. Every card
    /// is checked (non-empty id and name) and must have an id not used
    /// before; the result is the registry of the accepted cards when nothing
    /// went wrong, and otherwise every error, in order.
    pub fn from_card_sets(files: Vec<Result<CardSet, CardLoadError>>) -> (r: Result<
        CardRegistry,
        Vec<CardLoadError>,
    >)
        ensures
            ({
                let (cards, errors) = gather_files(files@);
                match r {
                    Ok(reg) => errors.len() == 0 && reg@ == cards && forall|i: int, j: int|
                        0 <= i < j < reg@.len() ==> #[trigger] reg@[i].id@ != #[trigger] reg@[j].id@,
                    Err(es) => errors.len() > 0 && es@.map_values(|e: CardLoadError| e@) == errors,
                }
            }),
    {
        let ghost all = files@;
        let mut files = files;
        let mut cards: Vec<CardDef> = Vec::new();
        let mut errors: Vec<CardLoadError> = Vec::new();
        let n = files.len();
        let mut i: usize = 0;
        assert(all.take(0) =~= Seq::<Result<CardSet, CardLoadError>>::empty());
        assert(errors@.map_values(|e: CardLoadError| e@) =~= Seq::<LoadErrorView>::empty());
        while i < n
            invariant
                n == all.len(),
                i <= n,
                files@ == all.skip(i as int),
                (cards@, errors@.map_values(|e: CardLoadError| e@)) == gather_files(
                    all.take(i as int),
                ),
                forall|a: int, b: int|
                    0 <= a < b < cards@.len() ==> #[trigger] cards@[a].id@ != #[trigger] cards@[b].id@,
            decreases n - i,
        {
            let file = files.remove(0);
            assert(all.take(i + 1).drop_last() =~= all.take(i as int));
            assert(all.take(i + 1).last() == all[i as int]);
            assert(files@ =~= all.skip(i + 1));
            match file {
                Ok(set) => {
                    Self::offer_all(&mut cards, &mut errors, set.cards);
                },
                Err(e) => {
                    let ghost before = errors@;
                    errors.push(e);
                    assert(errors@.map_values(|e: CardLoadError| e@) =~= before.map_values(
                        |e: CardLoadError| e@,
                    ).push(e@));
                },
            }
            i = i + 1;
        }
        assert(all.take(n as int) =~= all);
        if errors.len() == 0 {
            Ok(CardRegistry { cards })
        } else {
            Err(errors)
        }
    }

    /// Offers each card of `set` in order (see `offer_cards`).
    fn offer_all(cards: &mut Vec<CardDef>, errors: &mut Vec<CardLoadError>, set: Vec<CardDef>)
        requires
            forall|a: int, b: int|
                0 <= a < b < old(cards)@.len() ==> #[trigger] old(cards)@[a].id@
                    != #[trigger] old(cards)@[b].id@,
        ensures
            (final(cards)@, final(errors)@.map_values(|e: CardLoadError| e@)) == offer_cards(
                (old(cards)@, old(errors)@.map_values(|e: CardLoadError| e@)),
                set@,
            ),
            forall|a: int, b: int|
                0 <= a < b < final(cards)@.len() ==> #[trigger] final(cards)@[a].id@
                    != #[trigger] final(cards)@[b].id@,
    {
        let ghost all = set@;
        let ghost acc0 = (cards@, errors@.map_values(|e: CardLoadError| e@));
        let mut set = set;
        let n = set.len();
        let mut i: usize = 0;
        assert(all.take(0) =~= Seq::<CardDef>::empty());
        while i < n
            invariant
                n == all.len(),
                i <= n,
                set@ == all.skip(i as int),
                (cards@, errors@.map_values(|e: CardLoadError| e@)) == offer_cards(
                    acc0,
                    all.take(i as int),
                ),
                forall|a: int, b: int|
                    0 <= a < b < cards@.len() ==> #[trigger] cards@[a].id@ != #[trigger] cards@[b].id@,
            decreases n - i,
        {
            let card = set.remove(0);
            assert(all.take(i + 1).drop_last() =~= all.take(i as int));
            assert(all.take(i + 1).last() == all[i as int]);
            assert(set@ =~= all.skip(i + 1));
            let ghost before = errors@;
            match Self::validate(&card) {
                Err(e) => {
                    errors.push(e);
                    assert(errors@.map_values(|e: CardLoadError| e@) =~= before.map_values(
                        |e: CardLoadError| e@,
                    ).push(e@));
                },
                Ok(()) => {
                    if Self::has_id(cards, &card.id) {
                        let e = CardLoadError::DuplicateId(card.id.clone());
                        errors.push(e);
                        assert(errors@.map_values(|e: CardLoadError| e@) =~= before.map_values(
                            |e: CardLoadError| e@,
                        ).push(e@));
                    } else {
                        cards.push(card);
                    }
                },
            }
            i = i + 1;
        }
        assert(all.take(n as int) =~= all);
    }

    fn has_id(cards: &Vec<CardDef>, id: &String) -> (r: bool)
        ensures
            r == has_card_id(cards@, id@),
    {
        let n = cards.len();
        for j in 0..n
            invariant
                n == cards@.len(),
                forall|k: int| 0 <= k < j ==> #[trigger] cards@[k].id@ != id@,
        {
            if cards[j].id == *id {
                assert(cards@[j as int].id@ == id@);
                return true;
            }
        }
        false
    }

    /// Checks the rules of card data on one card.
    pub fn validate(card: &CardDef) -> (r: Result<(), CardLoadError>)
        ensures
            match r {
                Ok(()) => validation_error(*card) is None,
                Err(e) => validation_error(*card) == Some(e@),
            },
    {
        if card.id.as_str().is_empty() {
            return Err(
                CardLoadError::Validation {
                    id: card.id.clone(),
                    message: String::from_str("Card id must not be empty"),
                },
            );
        }
        if card.name.as_str().is_empty() {
            return Err(
                CardLoadError::Validation {
                    id: card.id.clone(),
                    message: String::from_str("Card name must not be empty"),
                },
            );
        }
        Ok(())
    }

    /// The definition registered under `id`, if any.
    pub fn get(&self, id: &str) -> (r: Option<&CardDef>)
        ensures
            match r {
                Some(c) => self.lookup(id@) == Some(*c),
                None => self.lookup(id@) is None,
            },
    {
        let key = id.to_owned();
        let n = self.cards.len();
        let mut i: usize = 0;
        assert(self@.skip(0) =~= self@);
        while i < n
            invariant
                n == self@.len(),
                i <= n,
                key@ == id@,
                find_card(self@, id@) == find_card(self@.skip(i as int), id@),
            decreases n - i,
        {
            let ghost rest = self@.skip(i as int);
            assert(rest[0] == self@[i as int]);
            assert(rest.drop_first() =~= self@.skip(i + 1));
            if self.cards[i].id == key {
                return Some(&self.cards[i]);
            }
            i = i + 1;
        }
        None
    }

    /// Number of registered cards.
    pub fn count(&self) -> (r: usize)
        ensures
            r == self@.len(),
    {
        self.cards.len()
    }

    /// The ids of the registered cards, in registration order: each card
    /// id once, and each of them finds its card.
    pub fn ids(&self) -> (r: Vec<CardId>)
        ensures
            r@ == self@.map_values(|c: CardDef| c.id),
            r@.len() == self@.len(),
            forall|i: int, j: int| 0 <= i < j < r@.len() ==> #[trigger] r@[i]@ != #[trigger] r@[j]@,
            forall|i: int|
                0 <= i < r@.len() ==> (#[trigger] self.lookup(r@[i]@) matches Some(c) && c == self@[i]),
    {
        proof {
            use_type_invariant(self);
            assert forall|i: int| 0 <= i < self@.len() implies (#[trigger] self.lookup(self@[i].id@) matches Some(
                c,
            ) && c == self@[i]) by {
                law_lookup_finds_the_card_with_that_id(self@, self@[i].id@);
                assert(has_card_id(self@, self@[i].id@));
                let c = self.lookup(self@[i].id@)->Some_0;
                let k = choose|k: int| 0 <= k < self@.len() && self@[k] == c;
                assert(self@[k].id@ == self@[i].id@);
            }
        }
        let mut out: Vec<CardId> = Vec::new();
        let n = self.cards.len();
        for i in 0..n
            invariant
                n == self@.len(),
                out@ == self@.take(i as int).map_values(|c: CardDef| c.id),
        {
            out.push(self.cards[i].id.clone());
            assert(self@.take(i + 1).map_values(|c: CardDef| c.id) =~= self@.take(
                i as int,
            ).map_values(|c: CardDef| c.id).push(self@[i as int].id));
        }
        assert(self@.take(n as int) =~= self@);
        out
    }
}

} // verus!
