use poker_core::entity::card::{PokerCard, Type};
use poker_core::service::poker_service::{score_by_one_deck, score_by_two_deck};

fn card(t: Type, n: i16) -> PokerCard {
    PokerCard::new_by_attribute(t, n)
}

fn hand(cards: &[(Type, i16)]) -> Vec<PokerCard> {
    let mut v = Vec::new();
    for &(t, n) in cards {
        v.push(card(t, n));
    }
    v
}

#[test]
fn wheel_straight_flush_tops_at_five() {
    let deck = hand(&[
        (Type::SPADE, 1),
        (Type::SPADE, 2),
        (Type::SPADE, 3),
        (Type::SPADE, 4),
        (Type::SPADE, 5),
        (Type::HEART, 9),
        (Type::DIAMOND, 13),
    ]);
    let (score, chosen, label) = score_by_one_deck(&deck).unwrap();
    assert_eq!(label.as_str(), "StraightFlush");
    assert_eq!(score[0], 5);
    assert_eq!(chosen[0].get_number(), 5);
    assert_eq!(chosen[4].get_number(), 1);
    assert_eq!(chosen[4].get_card_type(), Type::SPADE);
}

#[test]
fn broadway_suited_is_royal_flush() {
    let deck = hand(&[
        (Type::HEART, 10),
        (Type::HEART, 11),
        (Type::HEART, 12),
        (Type::HEART, 13),
        (Type::HEART, 1),
        (Type::SPADE, 2),
        (Type::DIAMOND, 7),
    ]);
    let (score, chosen, label) = score_by_one_deck(&deck).unwrap();
    assert_eq!(label.as_str(), "RoyalFlush");
    assert_eq!(score[0], 14);
    assert_eq!(chosen[0].get_number(), 14);
    assert_eq!(chosen[0].get_card_type(), Type::HEART);
    assert_eq!(chosen[4].get_number(), 10);
}

#[test]
fn full_house_beats_three_of_a_kind() {
    let deck = hand(&[
        (Type::SPADE, 8),
        (Type::CLUB, 8),
        (Type::HEART, 8),
        (Type::SPADE, 3),
        (Type::CLUB, 3),
        (Type::DIAMOND, 13),
        (Type::HEART, 5),
    ]);
    let (score, chosen, label) = score_by_one_deck(&deck).unwrap();
    assert_eq!(label.as_str(), "FullHouse");
    assert_eq!(score[2], 8);
    assert_eq!(score[3], 3);
    assert_eq!(chosen[0].get_number(), 8);
    assert_eq!(chosen[3].get_number(), 3);
}

#[test]
fn full_house_picks_the_highest_pair() {
    let deck = hand(&[
        (Type::SPADE, 8),
        (Type::CLUB, 8),
        (Type::HEART, 8),
        (Type::SPADE, 3),
        (Type::CLUB, 3),
        (Type::DIAMOND, 9),
        (Type::HEART, 9),
    ]);
    let (score, _chosen, label) = score_by_one_deck(&deck).unwrap();
    assert_eq!(label.as_str(), "FullHouse");
    assert_eq!(score[2], 8);
    assert_eq!(score[3], 9);
}

#[test]
fn two_triples_rank_as_three_of_a_kind() {
    let deck = hand(&[
        (Type::SPADE, 8),
        (Type::CLUB, 8),
        (Type::HEART, 8),
        (Type::SPADE, 5),
        (Type::CLUB, 5),
        (Type::HEART, 5),
        (Type::DIAMOND, 13),
    ]);
    let (score, _chosen, label) = score_by_one_deck(&deck).unwrap();
    assert_eq!(label.as_str(), "ThreeOfAKind");
    assert_eq!(score[10], 8);
    assert_eq!(score[13], 13);
    assert_eq!(score[14], 5);
}

#[test]
fn four_of_a_kind_takes_the_best_kicker() {
    let deck = hand(&[
        (Type::SPADE, 9),
        (Type::CLUB, 9),
        (Type::HEART, 9),
        (Type::DIAMOND, 9),
        (Type::SPADE, 13),
        (Type::DIAMOND, 2),
        (Type::HEART, 3),
    ]);
    let (score, chosen, label) = score_by_one_deck(&deck).unwrap();
    assert_eq!(label.as_str(), "FourOfAKind");
    assert_eq!(score[1], 9);
    assert_eq!(score[13], 13);
    for i in 0..4 {
        assert_eq!(chosen[i].get_number(), 9);
    }
    assert_eq!(chosen[4].get_number(), 13);
}

#[test]
fn four_aces_group_high() {
    let deck = hand(&[
        (Type::SPADE, 1),
        (Type::CLUB, 1),
        (Type::HEART, 1),
        (Type::DIAMOND, 1),
        (Type::SPADE, 13),
        (Type::DIAMOND, 2),
        (Type::HEART, 3),
    ]);
    let (score, chosen, label) = score_by_one_deck(&deck).unwrap();
    assert_eq!(label.as_str(), "FourOfAKind");
    assert_eq!(score[1], 14);
    assert_eq!(score[13], 13);
    assert_eq!(chosen[0].get_number(), 1);
}

#[test]
fn high_card_takes_the_five_best_ranks() {
    let deck = hand(&[
        (Type::SPADE, 2),
        (Type::CLUB, 4),
        (Type::HEART, 6),
        (Type::DIAMOND, 8),
        (Type::SPADE, 10),
        (Type::CLUB, 11),
        (Type::HEART, 13),
    ]);
    let (score, chosen, label) = score_by_one_deck(&deck).unwrap();
    assert_eq!(label.as_str(), "HighCard");
    assert_eq!(&score[13..18], &[13, 11, 10, 8, 6]);
    assert_eq!(chosen[0].get_number(), 13);
    assert_eq!(chosen[4].get_number(), 6);
}

#[test]
fn plain_flush_plays_the_ace_high() {
    let deck = hand(&[
        (Type::HEART, 1),
        (Type::HEART, 3),
        (Type::HEART, 7),
        (Type::HEART, 9),
        (Type::HEART, 11),
        (Type::SPADE, 2),
        (Type::DIAMOND, 4),
    ]);
    let (score, chosen, label) = score_by_one_deck(&deck).unwrap();
    assert_eq!(label.as_str(), "Flush");
    assert_eq!(&score[4..9], &[14, 11, 9, 7, 3]);
    assert_eq!(chosen[0].get_number(), 14);
    assert_eq!(chosen[0].get_card_type(), Type::HEART);
}

#[test]
fn mixed_suit_straight_tops_at_eight() {
    let deck = hand(&[
        (Type::SPADE, 4),
        (Type::DIAMOND, 5),
        (Type::HEART, 6),
        (Type::CLUB, 7),
        (Type::SPADE, 8),
        (Type::DIAMOND, 13),
        (Type::HEART, 2),
    ]);
    let (score, chosen, label) = score_by_one_deck(&deck).unwrap();
    assert_eq!(label.as_str(), "Straight");
    assert_eq!(score[9], 8);
    assert_eq!(chosen[0].get_number(), 8);
    assert_eq!(chosen[4].get_number(), 4);
}

#[test]
fn mixed_suit_wheel_is_a_straight_topped_at_five() {
    let deck = hand(&[
        (Type::SPADE, 1),
        (Type::DIAMOND, 2),
        (Type::HEART, 3),
        (Type::CLUB, 4),
        (Type::SPADE, 5),
        (Type::DIAMOND, 9),
        (Type::HEART, 11),
    ]);
    let (score, chosen, label) = score_by_one_deck(&deck).unwrap();
    assert_eq!(label.as_str(), "Straight");
    assert_eq!(score[9], 5);
    assert_eq!(chosen[4].get_number(), 1);
}

#[test]
fn two_pair_keeps_the_two_best_pairs() {
    let deck = hand(&[
        (Type::SPADE, 9),
        (Type::DIAMOND, 9),
        (Type::HEART, 5),
        (Type::CLUB, 5),
        (Type::DIAMOND, 2),
        (Type::SPADE, 2),
        (Type::HEART, 13),
    ]);
    let (score, _chosen, label) = score_by_one_deck(&deck).unwrap();
    assert_eq!(label.as_str(), "TwoPair");
    assert_eq!(score[11], 9);
    assert_eq!(score[12], 5);
    assert_eq!(score[13], 13);
}

#[test]
fn pair_takes_three_kickers_descending() {
    let deck = hand(&[
        (Type::SPADE, 9),
        (Type::DIAMOND, 9),
        (Type::HEART, 13),
        (Type::CLUB, 11),
        (Type::DIAMOND, 7),
        (Type::SPADE, 4),
        (Type::HEART, 2),
    ]);
    let (score, chosen, label) = score_by_one_deck(&deck).unwrap();
    assert_eq!(label.as_str(), "Pair");
    assert_eq!(score[12], 9);
    assert_eq!(score[13], 13);
    assert_eq!(score[14], 11);
    assert_eq!(score[15], 7);
    assert_eq!(chosen[2].get_number(), 13);
}

#[test]
fn five_card_hand_is_accepted() {
    let deck = hand(&[
        (Type::SPADE, 9),
        (Type::DIAMOND, 9),
        (Type::HEART, 13),
        (Type::CLUB, 11),
        (Type::DIAMOND, 7),
    ]);
    let (score, _chosen, label) = score_by_one_deck(&deck).unwrap();
    assert_eq!(label.as_str(), "Pair");
    assert_eq!(score[12], 9);
}

#[test]
fn score_by_two_deck_joins_the_decks() {
    let player = hand(&[(Type::SPADE, 9), (Type::DIAMOND, 9)]);
    let general = hand(&[
        (Type::HEART, 9),
        (Type::CLUB, 9),
        (Type::DIAMOND, 13),
        (Type::SPADE, 2),
        (Type::HEART, 4),
    ]);
    let (score, _chosen, label) = score_by_two_deck(&player, &general).unwrap();
    assert_eq!(label.as_str(), "FourOfAKind");
    assert_eq!(score[1], 9);
    assert_eq!(score[13], 13);
}

#[test]
fn re_evaluation_is_deterministic() {
    let deck = hand(&[
        (Type::SPADE, 8),
        (Type::CLUB, 8),
        (Type::HEART, 8),
        (Type::SPADE, 3),
        (Type::CLUB, 3),
        (Type::DIAMOND, 13),
        (Type::HEART, 5),
    ]);
    let (s1, c1, l1) = score_by_one_deck(&deck).unwrap();
    let (s2, c2, l2) = score_by_one_deck(&deck).unwrap();
    assert_eq!(s1, s2);
    assert_eq!(c1, c2);
    assert_eq!(l1, l2);
}
