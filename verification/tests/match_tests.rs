use poker_core::service::poker_service::Match;
use poker_core::service::score_spec::PokerError;

#[test]
fn a_fresh_match_deals_two_then_five() {
    let mut m = Match::new();
    assert_eq!(m.deck.len(), 52);
    let hole = m.draw_player().unwrap();
    assert_eq!(hole.len(), 2);
    assert_eq!(m.deck.len(), 50);
    let community = m.draw_general().unwrap();
    assert_eq!(community.len(), 5);
    assert_eq!(m.deck.len(), 45);
}

#[test]
fn drawn_cards_leave_the_deck() {
    let mut m = Match::new();
    let hole = m.draw_player().unwrap();
    for c in &hole {
        assert!(!m.deck.contains(c));
    }
}

#[test]
fn an_exhausted_deck_refuses_to_deal() {
    let mut m = Match::new();
    for _ in 0..10 {
        m.draw_general().unwrap();
    }
    assert_eq!(m.deck.len(), 2);
    assert_eq!(m.draw_general(), Err(PokerError::DeckExhausted));
    assert_eq!(m.deck.len(), 2);
    let last = m.draw_player().unwrap();
    assert_eq!(last.len(), 2);
    assert_eq!(m.draw_player(), Err(PokerError::DeckExhausted));
}

#[test]
fn dealing_never_repeats_a_card() {
    let mut m = Match::new();
    let mut seen = Vec::new();
    for _ in 0..26 {
        let pair = m.draw_player().unwrap();
        for c in pair {
            assert!(!seen.contains(&c));
            seen.push(c);
        }
    }
    assert_eq!(seen.len(), 52);
    assert_eq!(m.deck.len(), 0);
}
