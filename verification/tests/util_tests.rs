use poker_core::entity::card::{PokerCard, Type};
use poker_core::util::poker_util::to_string_decks;

#[test]
fn cards_render_with_rank_letters_and_suits() {
    let cards = vec![
        PokerCard::new_by_attribute(Type::SPADE, 1),
        PokerCard::new_by_attribute(Type::HEART, 10),
        PokerCard::new_by_attribute(Type::DIAMOND, 12),
    ];
    assert_eq!(
        to_string_decks(&cards),
        "{\"A\", SPADE}, {\"10\", HEART}, {\"Q\", DIAMOND}"
    );
}

#[test]
fn a_single_card_renders_without_separator() {
    let cards = vec![PokerCard::new_by_attribute(Type::CLUB, 13)];
    assert_eq!(to_string_decks(&cards), "{\"K\", CLUB}");
}

#[test]
fn an_empty_deck_renders_empty() {
    let cards: Vec<PokerCard> = Vec::new();
    assert_eq!(to_string_decks(&cards), "");
}

#[test]
fn the_virtual_high_ace_renders_as_ace() {
    let cards = vec![PokerCard::new_by_attribute(Type::HEART, 14)];
    assert_eq!(to_string_decks(&cards), "{\"A\", HEART}");
}
