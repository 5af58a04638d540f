use std::cmp::Ordering;
use poker_core::entity::card::{PokerCard, Type};
use poker_core::service::poker_service::{compare_score, score_by_one_deck};

fn hand(cards: &[(Type, i16)]) -> Vec<PokerCard> {
    let mut v = Vec::new();
    for &(t, n) in cards {
        v.push(PokerCard::new_by_attribute(t, n));
    }
    v
}

#[test]
fn equal_scores_compare_equal() {
    let a: [i16; 18] = [0, 0, 0, 0, 0, 0, 0, 0, 0, 0, 0, 0, 5, 9, 8, 7, 0, 0];
    assert_eq!(compare_score(&a, &a), Ordering::Equal);
}

#[test]
fn first_differing_slot_decides() {
    let mut a: [i16; 18] = [0; 18];
    let mut b: [i16; 18] = [0; 18];
    a[2] = 8;
    a[3] = 3;
    b[2] = 8;
    b[3] = 9;
    assert_eq!(compare_score(&a, &b), Ordering::Less);
    assert_eq!(compare_score(&b, &a), Ordering::Greater);
}

#[test]
fn earlier_slots_outweigh_later_ones() {
    let mut a: [i16; 18] = [0; 18];
    let mut b: [i16; 18] = [0; 18];
    a[0] = 5;
    b[1] = 14;
    b[13] = 13;
    assert_eq!(compare_score(&a, &b), Ordering::Greater);
}

#[test]
fn pair_of_twos_beats_ace_high() {
    let pair = hand(&[
        (Type::SPADE, 2),
        (Type::DIAMOND, 2),
        (Type::HEART, 13),
        (Type::CLUB, 11),
        (Type::DIAMOND, 7),
        (Type::SPADE, 4),
        (Type::HEART, 9),
    ]);
    let high = hand(&[
        (Type::SPADE, 1),
        (Type::DIAMOND, 3),
        (Type::HEART, 5),
        (Type::CLUB, 8),
        (Type::DIAMOND, 10),
        (Type::SPADE, 12),
        (Type::HEART, 7),
    ]);
    let (sp, _, lp) = score_by_one_deck(&pair).unwrap();
    let (sh, _, lh) = score_by_one_deck(&high).unwrap();
    assert_eq!(lp.as_str(), "Pair");
    assert_eq!(lh.as_str(), "HighCard");
    assert_eq!(compare_score(&sp, &sh), Ordering::Greater);
    assert_eq!(compare_score(&sh, &sp), Ordering::Less);
}

#[test]
fn kickers_break_ties_within_a_category() {
    let king_kicker = hand(&[
        (Type::SPADE, 9),
        (Type::DIAMOND, 9),
        (Type::HEART, 13),
        (Type::CLUB, 11),
        (Type::DIAMOND, 7),
        (Type::SPADE, 4),
        (Type::HEART, 2),
    ]);
    let queen_kicker = hand(&[
        (Type::CLUB, 9),
        (Type::HEART, 9),
        (Type::SPADE, 12),
        (Type::DIAMOND, 11),
        (Type::CLUB, 7),
        (Type::HEART, 4),
        (Type::DIAMOND, 2),
    ]);
    let (sk, _, _) = score_by_one_deck(&king_kicker).unwrap();
    let (sq, _, _) = score_by_one_deck(&queen_kicker).unwrap();
    assert_eq!(compare_score(&sk, &sq), Ordering::Greater);
}

#[test]
fn same_ranks_different_suits_tie() {
    let a = hand(&[
        (Type::SPADE, 9),
        (Type::DIAMOND, 9),
        (Type::HEART, 13),
        (Type::CLUB, 11),
        (Type::DIAMOND, 7),
        (Type::SPADE, 4),
        (Type::HEART, 2),
    ]);
    let b = hand(&[
        (Type::HEART, 9),
        (Type::CLUB, 9),
        (Type::SPADE, 13),
        (Type::DIAMOND, 11),
        (Type::SPADE, 7),
        (Type::CLUB, 4),
        (Type::DIAMOND, 2),
    ]);
    let (sa, _, _) = score_by_one_deck(&a).unwrap();
    let (sb, _, _) = score_by_one_deck(&b).unwrap();
    assert_eq!(compare_score(&sa, &sb), Ordering::Equal);
}

#[test]
fn strict_comparison_is_transitive_on_examples() {
    let trips = hand(&[
        (Type::SPADE, 7),
        (Type::DIAMOND, 7),
        (Type::HEART, 7),
        (Type::CLUB, 11),
        (Type::DIAMOND, 2),
        (Type::SPADE, 4),
        (Type::HEART, 9),
    ]);
    let pair = hand(&[
        (Type::SPADE, 9),
        (Type::DIAMOND, 9),
        (Type::HEART, 13),
        (Type::CLUB, 11),
        (Type::DIAMOND, 7),
        (Type::SPADE, 4),
        (Type::HEART, 2),
    ]);
    let high = hand(&[
        (Type::SPADE, 1),
        (Type::DIAMOND, 3),
        (Type::HEART, 5),
        (Type::CLUB, 8),
        (Type::DIAMOND, 10),
        (Type::SPADE, 12),
        (Type::HEART, 7),
    ]);
    let (st, _, _) = score_by_one_deck(&trips).unwrap();
    let (sp, _, _) = score_by_one_deck(&pair).unwrap();
    let (sh, _, _) = score_by_one_deck(&high).unwrap();
    assert_eq!(compare_score(&st, &sp), Ordering::Greater);
    assert_eq!(compare_score(&sp, &sh), Ordering::Greater);
    assert_eq!(compare_score(&st, &sh), Ordering::Greater);
}
