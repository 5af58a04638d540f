use poker_core::entity::card::{PokerCard, SolitaireCard, Type};

#[test]
fn solitaire_card_getters() {
    let c = SolitaireCard::new(Type::HEART, 7);
    assert_eq!(c.get_card_type(), Type::HEART);
    assert_eq!(c.get_number(), 7);
}

#[test]
fn poker_card_by_attribute() {
    let c = PokerCard::new_by_attribute(Type::CLUB, 12);
    assert_eq!(c.get_card_type(), Type::CLUB);
    assert_eq!(c.get_number(), 12);
}

#[test]
fn poker_card_by_solitaire_card() {
    let c = PokerCard::new_by_solitaire_card(SolitaireCard::new(Type::DIAMOND, 1));
    assert_eq!(c.get_card_type(), Type::DIAMOND);
    assert_eq!(c.get_number(), 1);
}

#[test]
fn poker_card_copy_is_equal() {
    let c = PokerCard::new_by_attribute(Type::SPADE, 13);
    let d = c.get_copy();
    assert_eq!(c, d);
}

#[test]
fn full_deck_has_52_distinct_cards() {
    let deck = SolitaireCard::get_all_card();
    assert_eq!(deck.len(), 52);
    for i in 0..deck.len() {
        assert!(1 <= deck[i].get_number() && deck[i].get_number() <= 13);
        for j in 0..i {
            assert!(
                deck[i].get_card_type() != deck[j].get_card_type()
                    || deck[i].get_number() != deck[j].get_number()
            );
        }
    }
}

#[test]
fn poker_full_deck_matches_solitaire_deck() {
    let deck = PokerCard::get_all_card();
    assert_eq!(deck.len(), 52);
    assert_eq!(deck[0].get_card_type(), Type::SPADE);
    assert_eq!(deck[0].get_number(), 1);
    assert_eq!(deck[51].get_card_type(), Type::DIAMOND);
    assert_eq!(deck[51].get_number(), 13);
}

#[test]
fn card_equality_keys_on_suit_and_rank() {
    let a = PokerCard::new_by_attribute(Type::SPADE, 5);
    let b = PokerCard::new_by_attribute(Type::HEART, 5);
    assert_ne!(a, b);
    assert_eq!(a, PokerCard::new_by_attribute(Type::SPADE, 5));
}
