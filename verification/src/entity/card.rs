//! The card model: four suits, ranks 1 through 13 (rank 1 is the Ace).
//!
//! The scoring engine additionally works with a virtual rank-14 Ace so that
//! the Ace can play both low and high; such virtual cards exist only inside
//! an evaluation and in its reported five-card result, never in a deck.

use vstd::prelude::*;

verus! {

/// One of the four suits of a standard deck.
#[derive(Debug, PartialEq, Eq, Structural, Copy, Clone, Hash)]
pub enum Type {
    SPADE,
    CLUB,
    HEART,
    DIAMOND,
}

/// A card of the physical deck: a suit and a rank in 1..=13.
#[derive(Debug, PartialEq, Eq, Structural, Copy, Clone, Hash)]
pub struct SolitaireCard {
    pub card_type: Type,
    pub number: i16,
}

/// A card as the scoring engine sees it.  Identity is the full
/// (suit, rank) pair.
#[derive(Debug, PartialEq, Eq, Structural, Copy, Clone, Hash)]
pub struct PokerCard {
    pub card: SolitaireCard,
}

impl SolitaireCard {
    pub fn new(card_type: Type, number: i16) -> (r: Self)
        ensures
            r.card_type == card_type,
            r.number == number,
    {
        SolitaireCard { card_type, number }
    }

    /// All 52 cards of a standard deck: each suit paired with each rank
    /// 1..=13, suits in declaration order, ranks ascending, no repeats.
    pub fn get_all_card() -> (r: Vec<SolitaireCard>)
        ensures
            r@.len() == 52,
            forall|i: int| 0 <= i < 52 ==> #[trigger] r@[i] == (SolitaireCard {
                card_type: suit_of_index(i / 13),
                number: (1 + i % 13) as i16,
            }),
    {
        let suits: [Type; 4] = [Type::SPADE, Type::CLUB, Type::HEART, Type::DIAMOND];
        let mut result: Vec<SolitaireCard> = Vec::new();
        for s in 0..4usize
            invariant
                result@.len() == 13 * s,
                suits@ =~= seq![Type::SPADE, Type::CLUB, Type::HEART, Type::DIAMOND],
                forall|i: int| 0 <= i < result@.len() ==> #[trigger] result@[i]
                    == (SolitaireCard { card_type: suit_of_index(i / 13), number: (1 + i % 13) as i16 }),
        {
            for n in 1..14i16
                invariant
                    0 <= s < 4,
                    1 <= n <= 14,
                    result@.len() == 13 * s + (n - 1),
                    suits@ =~= seq![Type::SPADE, Type::CLUB, Type::HEART, Type::DIAMOND],
                    forall|i: int| 0 <= i < result@.len() ==> #[trigger] result@[i]
                        == (SolitaireCard { card_type: suit_of_index(i / 13), number: (1 + i % 13) as i16 }),
            {
                result.push(SolitaireCard { card_type: suits[s], number: n });
                assert(forall|i: int| 0 <= i < result@.len() ==> #[trigger] result@[i]
                    == (SolitaireCard { card_type: suit_of_index(i / 13), number: (1 + i % 13) as i16 })) by {
                    assert(result@.len() - 1 == 13 * s + (n - 1));
                    assert((13 * s + (n - 1)) / 13 == s) by (nonlinear_arith)
                        requires 0 <= s < 4 && 1 <= n <= 13;
                    assert((13 * s + (n - 1)) % 13 == n - 1) by (nonlinear_arith)
                        requires 0 <= s < 4 && 1 <= n <= 13;
                }
            }
        }
        result
    }

    pub fn get_card_type(&self) -> (r: Type)
        ensures
            r == self.card_type,
    {
        self.card_type
    }

    pub fn get_number(&self) -> (r: i16)
        ensures
            r == self.number,
    {
        self.number
    }
}

/// The suit that a deck index in 0..=3 stands for, in declaration order.
pub open spec fn suit_of_index(i: int) -> Type {
    if i == 0 {
        Type::SPADE
    } else if i == 1 {
        Type::CLUB
    } else if i == 2 {
        Type::HEART
    } else {
        Type::DIAMOND
    }
}

impl PokerCard {
    /// The card's suit, as seen in contracts.
    pub open spec fn suit(self) -> Type {
        self.card.card_type
    }

    /// The card's rank, as seen in contracts.
    pub open spec fn number(self) -> int {
        self.card.number as int
    }

    pub fn new_by_attribute(card_type: Type, number: i16) -> (r: Self)
        ensures
            r.suit() == card_type,
            r.number() == number as int,
    {
        PokerCard { card: SolitaireCard::new(card_type, number) }
    }

    pub fn new_by_solitaire_card(card: SolitaireCard) -> (r: Self)
        ensures
            r.card == card,
    {
        PokerCard { card }
    }

    /// The 52 poker cards of a full deck, in the same order as
    /// `SolitaireCard::get_all_card`; in particular pairwise distinct.
    pub fn get_all_card() -> (r: Vec<PokerCard>)
        ensures
            r@.len() == 52,
            forall|i: int| 0 <= i < 52 ==> #[trigger] r@[i] == (PokerCard {
                card: SolitaireCard {
                    card_type: suit_of_index(i / 13),
                    number: (1 + i % 13) as i16,
                },
            }),
    {
        let source = SolitaireCard::get_all_card();
        let mut result: Vec<PokerCard> = Vec::new();
        let mut i: usize = 0;
        while i < source.len()
            invariant
                source@.len() == 52,
                forall|j: int| 0 <= j < 52 ==> #[trigger] source@[j] == (SolitaireCard {
                    card_type: suit_of_index(j / 13),
                    number: (1 + j % 13) as i16,
                }),
                i <= 52,
                result@.len() == i,
                forall|j: int| 0 <= j < i ==> #[trigger] result@[j] == (PokerCard { card: source@[j] }),
            decreases 52 - i,
        {
            result.push(PokerCard::new_by_solitaire_card(source[i]));
            i = i + 1;
        }
        result
    }

    pub fn get_card_type(&self) -> (r: Type)
        ensures
            r == self.suit(),
    {
        self.card.card_type
    }

    pub fn get_number(&self) -> (r: i16)
        ensures
            r as int == self.number(),
    {
        self.card.number
    }

    pub fn get_copy(&self) -> (r: Self)
        ensures
            r == *self,
    {
        Self::new_by_attribute(self.get_card_type(), self.get_number())
    }
}

} // verus!
