//! The mathematical model of hand scoring.
//!
//! Everything the public contracts of the scoring engine say is said in
//! terms of the spec functions of this module: how often each rank occurs
//! in a hand, which ranks a suit holds, which straight and straight-flush
//! tops exist, and, from those, the category of a hand, its 18-slot score
//! vector and its five chosen cards.

use vstd::prelude::*;
use crate::entity::card::{PokerCard, SolitaireCard, Type};

verus! {

/// The poker categories.
#[derive(Debug, PartialEq, Eq, Structural, Copy, Clone)]
pub enum Category {
    RoyalFlush,
    StraightFlush,
    Flush,
    FourOfAKind,
    FullHouse,
    ThreeOfAKind,
    TwoPair,
    Pair,
    Straight,
    HighCard,
}

/// The two failures the library reports: the deck has too few cards left
/// for a draw, or no category matched a hand (defensively kept; a
/// supported hand always matches one).
#[derive(Debug, PartialEq, Eq, Structural, Copy, Clone)]
pub enum PokerError {
    DeckExhausted,
    UnsupportedHand,
}

// ------------------------------------------------------------------
// hands
// ------------------------------------------------------------------

/// A card of the physical deck: rank 1..=13.
pub open spec fn valid_card(c: PokerCard) -> bool {
    1 <= c.number() <= 13
}

/// No card occurs twice; identity is the full (suit, rank) pair.
pub open spec fn distinct_cards(s: Seq<PokerCard>) -> bool {
    forall|i: int, j: int| 0 <= i < j < s.len() ==> s[i] != s[j]
}

/// What the evaluator accepts: 5 to 7 pairwise distinct physical cards.
pub open spec fn valid_hand(s: Seq<PokerCard>) -> bool {
    &&& 5 <= s.len() <= 7
    &&& forall|i: int| 0 <= i < s.len() ==> valid_card(#[trigger] s[i])
    &&& distinct_cards(s)
}

/// Six cards that are exactly two three-of-a-kind groups leave no room
/// for the two kickers of the three-of-a-kind result; that one input is
/// left out of the evaluator's domain.
pub open spec fn supported_hand(s: Seq<PokerCard>) -> bool {
    &&& valid_hand(s)
    &&& !(s.len() == 6 && (exists|r1: int, r2: int|
            r1 != r2 && #[trigger] count_rank(s, r1) == 3 && #[trigger] count_rank(s, r2) == 3))
}

// ------------------------------------------------------------------
// ranks, suits, presence
// ------------------------------------------------------------------

/// The rank under which a card is grouped: the Ace always groups high.
pub open spec fn grank(c: PokerCard) -> int {
    if c.number() == 1 {
        14
    } else {
        c.number()
    }
}

/// Whether `c` can stand for rank `r` of a straight: the Ace stands for
/// both 1 and 14.
pub open spec fn srank_matches(c: PokerCard, r: int) -> bool {
    c.number() == r || (c.number() == 1 && r == 14)
}

/// How many cards of the hand group under rank `r`.
pub open spec fn count_rank(s: Seq<PokerCard>, r: int) -> int
    decreases s.len(),
{
    if s.len() == 0 {
        0
    } else {
        (if grank(s.last()) == r {
            1int
        } else {
            0int
        }) + count_rank(s.drop_last(), r)
    }
}

/// How many cards of the hand are of suit `t`.
pub open spec fn count_suit(s: Seq<PokerCard>, t: Type) -> int
    decreases s.len(),
{
    if s.len() == 0 {
        0
    } else {
        (if s.last().suit() == t {
            1int
        } else {
            0int
        }) + count_suit(s.drop_last(), t)
    }
}

/// How many cards of the hand have suit `t` and group under rank `r`.
pub open spec fn count_suited_rank(s: Seq<PokerCard>, t: Type, r: int) -> int
    decreases s.len(),
{
    if s.len() == 0 {
        0
    } else {
        (if s.last().suit() == t && grank(s.last()) == r {
            1int
        } else {
            0int
        }) + count_suited_rank(s.drop_last(), t, r)
    }
}

/// Some card of the hand stands for straight-rank `r`.
pub open spec fn rank_present(s: Seq<PokerCard>, r: int) -> bool {
    exists|i: int| 0 <= i < s.len() && srank_matches(#[trigger] s[i], r)
}

/// Some card of suit `t` stands for straight-rank `r`.
pub open spec fn suited_present(s: Seq<PokerCard>, t: Type, r: int) -> bool {
    exists|i: int| 0 <= i < s.len() && (#[trigger] s[i]).suit() == t && srank_matches(s[i], r)
}

/// A run of five consecutive straight-ranks ending at `h`.
pub open spec fn straight_at(s: Seq<PokerCard>, h: int) -> bool {
    &&& rank_present(s, h)
    &&& rank_present(s, h - 1)
    &&& rank_present(s, h - 2)
    &&& rank_present(s, h - 3)
    &&& rank_present(s, h - 4)
}

/// A run of five consecutive straight-ranks ending at `h`, all of suit `t`.
pub open spec fn straight_flush_at(s: Seq<PokerCard>, t: Type, h: int) -> bool {
    &&& suited_present(s, t, h)
    &&& suited_present(s, t, h - 1)
    &&& suited_present(s, t, h - 2)
    &&& suited_present(s, t, h - 3)
    &&& suited_present(s, t, h - 4)
}

/// A straight flush ending at `h` in some suit.
pub open spec fn straight_flush_any(s: Seq<PokerCard>, h: int) -> bool {
    ||| straight_flush_at(s, Type::SPADE, h)
    ||| straight_flush_at(s, Type::CLUB, h)
    ||| straight_flush_at(s, Type::HEART, h)
    ||| straight_flush_at(s, Type::DIAMOND, h)
}

// ------------------------------------------------------------------
// best ranks: each is the largest value below `ub` with the stated
// property, or 0 where none exists
// ------------------------------------------------------------------

/// The largest rank below `ub` that exactly `k` cards group under.
pub open spec fn top_count_below(s: Seq<PokerCard>, ub: int, k: int) -> int
    decreases ub,
{
    if ub <= 2 {
        0
    } else if count_rank(s, ub - 1) == k {
        ub - 1
    } else {
        top_count_below(s, ub - 1, k)
    }
}

/// The largest present group-rank below `ub` other than `e1` and `e2`:
/// the next kicker.
pub open spec fn top_kicker_below(s: Seq<PokerCard>, ub: int, e1: int, e2: int) -> int
    decreases ub,
{
    if ub <= 2 {
        0
    } else if ub - 1 != e1 && ub - 1 != e2 && count_rank(s, ub - 1) >= 1 {
        ub - 1
    } else {
        top_kicker_below(s, ub - 1, e1, e2)
    }
}

/// The largest group-rank below `ub` that suit `t` holds.
pub open spec fn top_suited_below(s: Seq<PokerCard>, t: Type, ub: int) -> int
    decreases ub,
{
    if ub <= 2 {
        0
    } else if suited_present(s, t, ub - 1) {
        ub - 1
    } else {
        top_suited_below(s, t, ub - 1)
    }
}

/// The highest straight top below `ub`.
pub open spec fn top_straight_below(s: Seq<PokerCard>, ub: int) -> int
    decreases ub,
{
    if ub <= 5 {
        0
    } else if straight_at(s, ub - 1) {
        ub - 1
    } else {
        top_straight_below(s, ub - 1)
    }
}

/// The highest straight-flush top below `ub`.
pub open spec fn top_straight_flush_below(s: Seq<PokerCard>, ub: int) -> int
    decreases ub,
{
    if ub <= 5 {
        0
    } else if straight_flush_any(s, ub - 1) {
        ub - 1
    } else {
        top_straight_flush_below(s, ub - 1)
    }
}

// ------------------------------------------------------------------
// category
// ------------------------------------------------------------------

pub open spec fn has_four(s: Seq<PokerCard>) -> bool {
    top_count_below(s, 15, 4) != 0
}

pub open spec fn has_three(s: Seq<PokerCard>) -> bool {
    top_count_below(s, 15, 3) != 0
}

pub open spec fn has_pair(s: Seq<PokerCard>) -> bool {
    top_count_below(s, 15, 2) != 0
}

pub open spec fn has_two_pair(s: Seq<PokerCard>) -> bool {
    top_count_below(s, top_count_below(s, 15, 2), 2) != 0
}

pub open spec fn has_flush(s: Seq<PokerCard>) -> bool {
    ||| count_suit(s, Type::SPADE) >= 5
    ||| count_suit(s, Type::CLUB) >= 5
    ||| count_suit(s, Type::HEART) >= 5
    ||| count_suit(s, Type::DIAMOND) >= 5
}

pub open spec fn has_straight(s: Seq<PokerCard>) -> bool {
    top_straight_below(s, 15) != 0
}

pub open spec fn has_straight_flush(s: Seq<PokerCard>) -> bool {
    top_straight_flush_below(s, 15) != 0
}

/// Whether five distinct group-ranks exist: the high-card result needs
/// five different ranks.
pub open spec fn high_card_possible(s: Seq<PokerCard>) -> bool {
    let m1 = top_kicker_below(s, 15, 0, 0);
    let m2 = top_kicker_below(s, m1, 0, 0);
    let m3 = top_kicker_below(s, m2, 0, 0);
    let m4 = top_kicker_below(s, m3, 0, 0);
    top_kicker_below(s, m4, 0, 0) != 0
}

/// The first suit, in declaration order, holding five or more cards.
pub open spec fn flush_suit(s: Seq<PokerCard>) -> Type {
    if count_suit(s, Type::SPADE) >= 5 {
        Type::SPADE
    } else if count_suit(s, Type::CLUB) >= 5 {
        Type::CLUB
    } else if count_suit(s, Type::HEART) >= 5 {
        Type::HEART
    } else {
        Type::DIAMOND
    }
}

/// The first suit, in declaration order, with a straight flush topped at `h`.
pub open spec fn straight_flush_suit(s: Seq<PokerCard>, h: int) -> Type {
    if straight_flush_at(s, Type::SPADE, h) {
        Type::SPADE
    } else if straight_flush_at(s, Type::CLUB, h) {
        Type::CLUB
    } else if straight_flush_at(s, Type::HEART, h) {
        Type::HEART
    } else {
        Type::DIAMOND
    }
}

/// The category of a hand, by the engine's fixed precedence:
/// royal/straight flush, four of a kind, full house, flush, straight,
/// three of a kind, two pair, pair, high card.
pub open spec fn spec_category(s: Seq<PokerCard>) -> Category {
    if top_straight_flush_below(s, 15) == 14 {
        Category::RoyalFlush
    } else if has_straight_flush(s) {
        Category::StraightFlush
    } else if has_four(s) {
        Category::FourOfAKind
    } else if has_three(s) && has_pair(s) {
        Category::FullHouse
    } else if has_flush(s) {
        Category::Flush
    } else if has_straight(s) {
        Category::Straight
    } else if has_three(s) {
        Category::ThreeOfAKind
    } else if has_two_pair(s) {
        Category::TwoPair
    } else if has_pair(s) {
        Category::Pair
    } else {
        Category::HighCard
    }
}

// ------------------------------------------------------------------
// the score vector
// ------------------------------------------------------------------

/// Score slots are laid out strongest category first, so that plain
/// left-to-right lexicographic comparison ranks categories correctly;
/// within one category the primary rank(s) come before the kickers.
pub open spec fn zero_score() -> Seq<i16> {
    Seq::new(18, |i: int| 0i16)
}

/// The 18-slot score vector of a hand.  Exactly the slot range of the
/// hand's category is populated, in descending importance.
pub open spec fn spec_score(s: Seq<PokerCard>) -> Seq<i16> {
    match spec_category(s) {
        Category::RoyalFlush => zero_score().update(0, top_straight_flush_below(s, 15) as i16),
        Category::StraightFlush => zero_score().update(0, top_straight_flush_below(s, 15) as i16),
        Category::FourOfAKind => {
            let fr = top_count_below(s, 15, 4);
            zero_score().update(1, fr as i16).update(13, top_kicker_below(s, 15, fr, 0) as i16)
        },
        Category::FullHouse => zero_score().update(2, top_count_below(s, 15, 3) as i16).update(
            3,
            top_count_below(s, 15, 2) as i16,
        ),
        Category::Flush => {
            let t = flush_suit(s);
            let m1 = top_suited_below(s, t, 15);
            let m2 = top_suited_below(s, t, m1);
            let m3 = top_suited_below(s, t, m2);
            let m4 = top_suited_below(s, t, m3);
            let m5 = top_suited_below(s, t, m4);
            zero_score().update(4, m1 as i16).update(5, m2 as i16).update(6, m3 as i16).update(
                7,
                m4 as i16,
            ).update(8, m5 as i16)
        },
        Category::Straight => zero_score().update(9, top_straight_below(s, 15) as i16),
        Category::ThreeOfAKind => {
            let tr = top_count_below(s, 15, 3);
            let k1 = top_kicker_below(s, 15, tr, 0);
            let k2 = top_kicker_below(s, k1, tr, 0);
            zero_score().update(10, tr as i16).update(13, k1 as i16).update(14, k2 as i16)
        },
        Category::TwoPair => {
            let p1 = top_count_below(s, 15, 2);
            let p2 = top_count_below(s, p1, 2);
            let k = top_kicker_below(s, 15, p1, p2);
            zero_score().update(11, p1 as i16).update(12, p2 as i16).update(13, k as i16)
        },
        Category::Pair => {
            let p = top_count_below(s, 15, 2);
            let k1 = top_kicker_below(s, 15, p, 0);
            let k2 = top_kicker_below(s, k1, p, 0);
            let k3 = top_kicker_below(s, k2, p, 0);
            zero_score().update(12, p as i16).update(13, k1 as i16).update(14, k2 as i16).update(
                15,
                k3 as i16,
            )
        },
        Category::HighCard => {
            let m1 = top_kicker_below(s, 15, 0, 0);
            let m2 = top_kicker_below(s, m1, 0, 0);
            let m3 = top_kicker_below(s, m2, 0, 0);
            let m4 = top_kicker_below(s, m3, 0, 0);
            let m5 = top_kicker_below(s, m4, 0, 0);
            zero_score().update(13, m1 as i16).update(14, m2 as i16).update(15, m3 as i16).update(
                16,
                m4 as i16,
            ).update(17, m5 as i16)
        },
    }
}

// ------------------------------------------------------------------
// the chosen five cards
// ------------------------------------------------------------------

/// The virtual high Ace of suit `t`; it exists only in reported results
/// of Ace-high straights and flushes, never in a deck.
pub open spec fn virtual_ace(t: Type) -> PokerCard {
    PokerCard { card: SolitaireCard { card_type: t, number: 14 } }
}

/// The first index at or after `i` whose card groups under rank `g`,
/// or the length where none does.
pub open spec fn find_grank_from(s: Seq<PokerCard>, g: int, i: int) -> int
    decreases s.len() - i,
{
    if i < 0 || i >= s.len() {
        s.len() as int
    } else if grank(s[i]) == g {
        i
    } else {
        find_grank_from(s, g, i + 1)
    }
}

/// The first index at or after `i` whose card stands for straight-rank `r`.
pub open spec fn find_srank_from(s: Seq<PokerCard>, r: int, i: int) -> int
    decreases s.len() - i,
{
    if i < 0 || i >= s.len() {
        s.len() as int
    } else if srank_matches(s[i], r) {
        i
    } else {
        find_srank_from(s, r, i + 1)
    }
}

/// The first index at or after `i` whose card is of suit `t` and stands
/// for straight-rank `r`.
pub open spec fn find_suited_from(s: Seq<PokerCard>, t: Type, r: int, i: int) -> int
    decreases s.len() - i,
{
    if i < 0 || i >= s.len() {
        s.len() as int
    } else if s[i].suit() == t && srank_matches(s[i], r) {
        i
    } else {
        find_suited_from(s, t, r, i + 1)
    }
}

/// The predicate of grouping under rank `g`, as a value.
pub open spec fn grank_is(g: int) -> spec_fn(PokerCard) -> bool {
    |c: PokerCard| grank(c) == g
}

/// The kicker card reported for group-rank `g`: the first card grouping
/// under `g`.  An Ace kicker is reported as the physical rank-1 card.
pub open spec fn kicker_choice(s: Seq<PokerCard>, g: int) -> PokerCard {
    s[find_grank_from(s, g, 0)]
}

/// The card reported for straight-rank `r`: the first card standing for
/// it, except that an Ace playing high is reported as the virtual
/// rank-14 card of its suit.
pub open spec fn straight_choice(s: Seq<PokerCard>, r: int) -> PokerCard {
    let c = s[find_srank_from(s, r, 0)];
    if c.number() == 1 && r == 14 {
        virtual_ace(c.suit())
    } else {
        c
    }
}

/// The card of suit `t` reported for straight-rank `r` in a flush; an
/// Ace playing high is reported as the virtual rank-14 card of `t`.
pub open spec fn suited_choice(s: Seq<PokerCard>, t: Type, r: int) -> PokerCard {
    if r == 14 {
        virtual_ace(t)
    } else {
        s[find_suited_from(s, t, r, 0)]
    }
}

/// The five cards reported for a four of a kind: the group, then the
/// kicker.
pub open spec fn four_chosen(s: Seq<PokerCard>) -> Seq<PokerCard> {
    let fr = top_count_below(s, 15, 4);
    s.filter(grank_is(fr)).push(kicker_choice(s, top_kicker_below(s, 15, fr, 0)))
}

/// The five cards reported for a full house: the best triple, then the
/// best pair.
pub open spec fn full_house_chosen(s: Seq<PokerCard>) -> Seq<PokerCard> {
    s.filter(grank_is(top_count_below(s, 15, 3))) + s.filter(grank_is(top_count_below(s, 15, 2)))
}

/// The five cards reported for a plain flush: the suit's five best
/// ranks, descending.
pub open spec fn flush_plain_chosen(s: Seq<PokerCard>) -> Seq<PokerCard> {
    let t = flush_suit(s);
    let m1 = top_suited_below(s, t, 15);
    let m2 = top_suited_below(s, t, m1);
    let m3 = top_suited_below(s, t, m2);
    let m4 = top_suited_below(s, t, m3);
    let m5 = top_suited_below(s, t, m4);
    seq![
        suited_choice(s, t, m1),
        suited_choice(s, t, m2),
        suited_choice(s, t, m3),
        suited_choice(s, t, m4),
        suited_choice(s, t, m5),
    ]
}

/// The five cards reported for a straight: the best run, top first.
pub open spec fn straight_plain_chosen(s: Seq<PokerCard>) -> Seq<PokerCard> {
    let h = top_straight_below(s, 15);
    seq![
        straight_choice(s, h),
        straight_choice(s, h - 1),
        straight_choice(s, h - 2),
        straight_choice(s, h - 3),
        straight_choice(s, h - 4),
    ]
}

/// The five cards reported for a three of a kind: the group, then two
/// kickers descending.
pub open spec fn three_chosen(s: Seq<PokerCard>) -> Seq<PokerCard> {
    let tr = top_count_below(s, 15, 3);
    let k1 = top_kicker_below(s, 15, tr, 0);
    let k2 = top_kicker_below(s, k1, tr, 0);
    s.filter(grank_is(tr)).push(kicker_choice(s, k1)).push(kicker_choice(s, k2))
}

/// The five cards reported for two pair: high pair, low pair, kicker.
pub open spec fn two_pair_chosen(s: Seq<PokerCard>) -> Seq<PokerCard> {
    let p1 = top_count_below(s, 15, 2);
    let p2 = top_count_below(s, p1, 2);
    let k = top_kicker_below(s, 15, p1, p2);
    s.filter(grank_is(p1)) + s.filter(grank_is(p2)) + seq![kicker_choice(s, k)]
}

/// The five cards reported for a pair: the pair, then three kickers
/// descending.
pub open spec fn pair_chosen(s: Seq<PokerCard>) -> Seq<PokerCard> {
    let p = top_count_below(s, 15, 2);
    let k1 = top_kicker_below(s, 15, p, 0);
    let k2 = top_kicker_below(s, k1, p, 0);
    let k3 = top_kicker_below(s, k2, p, 0);
    s.filter(grank_is(p)).push(kicker_choice(s, k1)).push(kicker_choice(s, k2)).push(
        kicker_choice(s, k3),
    )
}

/// The five cards reported for a high card hand: the five best ranks,
/// descending.
pub open spec fn high_card_chosen(s: Seq<PokerCard>) -> Seq<PokerCard> {
    let m1 = top_kicker_below(s, 15, 0, 0);
    let m2 = top_kicker_below(s, m1, 0, 0);
    let m3 = top_kicker_below(s, m2, 0, 0);
    let m4 = top_kicker_below(s, m3, 0, 0);
    let m5 = top_kicker_below(s, m4, 0, 0);
    seq![
        kicker_choice(s, m1),
        kicker_choice(s, m2),
        kicker_choice(s, m3),
        kicker_choice(s, m4),
        kicker_choice(s, m5),
    ]
}

/// The five cards reported for a hand: the category-defining group(s)
/// in hand order, then the kickers in descending rank.
pub open spec fn spec_chosen(s: Seq<PokerCard>) -> Seq<PokerCard> {
    match spec_category(s) {
        Category::RoyalFlush => straight_flush_chosen(s),
        Category::StraightFlush => straight_flush_chosen(s),
        Category::FourOfAKind => four_chosen(s),
        Category::FullHouse => full_house_chosen(s),
        Category::Flush => flush_plain_chosen(s),
        Category::Straight => straight_plain_chosen(s),
        Category::ThreeOfAKind => three_chosen(s),
        Category::TwoPair => two_pair_chosen(s),
        Category::Pair => pair_chosen(s),
        Category::HighCard => high_card_chosen(s),
    }
}

/// The five cards of the best straight flush, top first.
pub open spec fn straight_flush_chosen(s: Seq<PokerCard>) -> Seq<PokerCard> {
    let h = top_straight_flush_below(s, 15);
    let t = straight_flush_suit(s, h);
    seq![
        suited_choice(s, t, h),
        suited_choice(s, t, h - 1),
        suited_choice(s, t, h - 2),
        suited_choice(s, t, h - 3),
        suited_choice(s, t, h - 4),
    ]
}

/// The category name reported with a result.
pub open spec fn spec_label(c: Category) -> Seq<char> {
    match c {
        Category::RoyalFlush => "RoyalFlush"@,
        Category::StraightFlush => "StraightFlush"@,
        Category::Flush => "Flush"@,
        Category::FourOfAKind => "FourOfAKind"@,
        Category::FullHouse => "FullHouse"@,
        Category::ThreeOfAKind => "ThreeOfAKind"@,
        Category::TwoPair => "TwoPair"@,
        Category::Pair => "Pair"@,
        Category::Straight => "Straight"@,
        Category::HighCard => "HighCard"@,
    }
}

/// A reported card is a card of the hand, except that a virtual high
/// Ace stands for the hand's physical Ace of the same suit.
pub open spec fn chosen_from_hand(s: Seq<PokerCard>, c: PokerCard) -> bool {
    ||| s.contains(c)
    ||| (c.number() == 14 && s.contains(
        PokerCard { card: SolitaireCard { card_type: c.suit(), number: 1 } },
    ))
}

/// The precedence of a category: smaller is stronger.
pub open spec fn strength(c: Category) -> int {
    match c {
        Category::RoyalFlush => 0,
        Category::StraightFlush => 1,
        Category::FourOfAKind => 2,
        Category::FullHouse => 3,
        Category::Flush => 4,
        Category::Straight => 5,
        Category::ThreeOfAKind => 6,
        Category::TwoPair => 7,
        Category::Pair => 8,
        Category::HighCard => 9,
    }
}

/// The first score slot a category populates.  Stronger categories
/// populate earlier slots, which is what makes lexicographic
/// comparison rank categories correctly.
pub open spec fn first_slot(c: Category) -> int {
    match c {
        Category::RoyalFlush => 0,
        Category::StraightFlush => 0,
        Category::FourOfAKind => 1,
        Category::FullHouse => 2,
        Category::Flush => 4,
        Category::Straight => 9,
        Category::ThreeOfAKind => 10,
        Category::TwoPair => 11,
        Category::Pair => 12,
        Category::HighCard => 13,
    }
}

// ------------------------------------------------------------------
// counting facts
// ------------------------------------------------------------------

pub proof fn lemma_count_rank_bounds(s: Seq<PokerCard>, r: int)
    ensures
        0 <= count_rank(s, r) <= s.len(),
    decreases s.len(),
{
    if s.len() > 0 {
        lemma_count_rank_bounds(s.drop_last(), r);
    }
}

pub proof fn lemma_count_suit_bounds(s: Seq<PokerCard>, t: Type)
    ensures
        0 <= count_suit(s, t) <= s.len(),
    decreases s.len(),
{
    if s.len() > 0 {
        lemma_count_suit_bounds(s.drop_last(), t);
    }
}

pub proof fn lemma_count_suited_rank_bounds(s: Seq<PokerCard>, t: Type, r: int)
    ensures
        0 <= count_suited_rank(s, t, r) <= s.len(),
    decreases s.len(),
{
    if s.len() > 0 {
        lemma_count_suited_rank_bounds(s.drop_last(), t, r);
    }
}

/// A valid card groups under a rank in 2..=14, so no other rank counts.
pub proof fn lemma_count_rank_outside(s: Seq<PokerCard>, r: int)
    requires
        forall|i: int| 0 <= i < s.len() ==> valid_card(#[trigger] s[i]),
        r < 2 || r > 14,
    ensures
        count_rank(s, r) == 0,
    decreases s.len(),
{
    if s.len() > 0 {
        assert(valid_card(s[s.len() - 1]));
        lemma_count_rank_outside(s.drop_last(), r);
    }
}

pub proof fn lemma_contains_count(s: Seq<PokerCard>, c: PokerCard)
    requires
        s.contains(c),
    ensures
        count_rank(s, grank(c)) >= 1,
    decreases s.len(),
{
    lemma_count_rank_bounds(s.drop_last(), grank(c));
    if s.last() != c {
        let i = choose|i: int| 0 <= i < s.len() && s[i] == c;
        assert(s.drop_last()[i] == c);
        lemma_contains_count(s.drop_last(), c);
    }
}

/// Fewer cards group under `g` than the hand holds, so some card
/// groups elsewhere.
pub proof fn lemma_exists_other_grank(s: Seq<PokerCard>, g: int)
    requires
        count_rank(s, g) < s.len(),
    ensures
        exists|i: int| 0 <= i < s.len() && grank(#[trigger] s[i]) != g,
    decreases s.len(),
{
    if grank(s.last()) != g {
        assert(grank(s[s.len() - 1]) != g);
    } else {
        lemma_exists_other_grank(s.drop_last(), g);
        let i = choose|i: int| 0 <= i < s.drop_last().len() && grank(s.drop_last()[i]) != g;
        assert(grank(s[i]) != g);
    }
}

pub proof fn lemma_counts_disjoint(s: Seq<PokerCard>, r1: int, r2: int)
    requires
        r1 != r2,
    ensures
        count_rank(s, r1) + count_rank(s, r2) <= s.len(),
    decreases s.len(),
{
    if s.len() > 0 {
        lemma_counts_disjoint(s.drop_last(), r1, r2);
    }
}

/// When every card groups under one of four ranks, the four counts
/// cover the hand.
pub proof fn lemma_cards_bound4(s: Seq<PokerCard>, a: int, b: int, c: int, d: int)
    requires
        forall|i: int| 0 <= i < s.len() ==> {
            let g = grank(#[trigger] s[i]);
            g == a || g == b || g == c || g == d
        },
    ensures
        s.len() <= count_rank(s, a) + count_rank(s, b) + count_rank(s, c) + count_rank(s, d),
    decreases s.len(),
{
    if s.len() > 0 {
        assert(forall|i: int| 0 <= i < s.drop_last().len() ==> s.drop_last()[i] == s[i]);
        lemma_cards_bound4(s.drop_last(), a, b, c, d);
        assert(grank(s[s.len() - 1]) == a || grank(s[s.len() - 1]) == b || grank(s[s.len() - 1])
            == c || grank(s[s.len() - 1]) == d);
    }
}

/// The suit-restricted counterpart of `lemma_cards_bound4`.
pub proof fn lemma_suit_cards_bound4(s: Seq<PokerCard>, t: Type, a: int, b: int, c: int, d: int)
    requires
        forall|i: int| 0 <= i < s.len() && (#[trigger] s[i]).suit() == t ==> {
            let g = grank(s[i]);
            g == a || g == b || g == c || g == d
        },
    ensures
        count_suit(s, t) <= count_suited_rank(s, t, a) + count_suited_rank(s, t, b)
            + count_suited_rank(s, t, c) + count_suited_rank(s, t, d),
    decreases s.len(),
{
    if s.len() > 0 {
        assert(forall|i: int| 0 <= i < s.drop_last().len() ==> s.drop_last()[i] == s[i]);
        lemma_suit_cards_bound4(s.drop_last(), t, a, b, c, d);
        if s.last().suit() == t {
            assert(s[s.len() - 1].suit() == t);
        }
    }
}

pub proof fn lemma_count_suited_pos(s: Seq<PokerCard>, t: Type, r: int)
    requires
        count_suited_rank(s, t, r) >= 1,
    ensures
        exists|i: int| 0 <= i < s.len() && (#[trigger] s[i]).suit() == t && grank(s[i]) == r,
    decreases s.len(),
{
    lemma_count_suited_rank_bounds(s.drop_last(), t, r);
    if s.last().suit() == t && grank(s.last()) == r {
        assert(s[s.len() - 1].suit() == t && grank(s[s.len() - 1]) == r);
    } else {
        lemma_count_suited_pos(s.drop_last(), t, r);
        let i = choose|i: int|
            0 <= i < s.drop_last().len() && s.drop_last()[i].suit() == t
                && grank(s.drop_last()[i]) == r;
        assert(s[i].suit() == t && grank(s[i]) == r);
    }
}

/// In a hand of pairwise distinct valid cards, a suit holds at most one
/// card of each group-rank: suit and group-rank determine the card.
pub proof fn lemma_count_suited_le_1(s: Seq<PokerCard>, t: Type, r: int)
    requires
        distinct_cards(s),
        forall|i: int| 0 <= i < s.len() ==> valid_card(#[trigger] s[i]),
    ensures
        count_suited_rank(s, t, r) <= 1,
    decreases s.len(),
{
    if s.len() > 0 {
        assert(forall|i: int| 0 <= i < s.drop_last().len() ==> s.drop_last()[i] == s[i]);
        lemma_count_suited_le_1(s.drop_last(), t, r);
        if s.last().suit() == t && grank(s.last()) == r {
            if count_suited_rank(s.drop_last(), t, r) >= 1 {
                lemma_count_suited_pos(s.drop_last(), t, r);
                let i = choose|i: int|
                    0 <= i < s.drop_last().len() && s.drop_last()[i].suit() == t
                        && grank(s.drop_last()[i]) == r;
                assert(valid_card(s[i]) && valid_card(s[s.len() - 1]));
                assert(s[i].card.number == s[s.len() - 1].card.number);
                assert(s[i] == s[s.len() - 1]);
                assert(false);
            }
        }
    }
}

pub proof fn lemma_count_split_suits(s: Seq<PokerCard>, r: int)
    ensures
        count_rank(s, r) == count_suited_rank(s, Type::SPADE, r) + count_suited_rank(
            s,
            Type::CLUB,
            r,
        ) + count_suited_rank(s, Type::HEART, r) + count_suited_rank(s, Type::DIAMOND, r),
    decreases s.len(),
{
    if s.len() > 0 {
        lemma_count_split_suits(s.drop_last(), r);
    }
}

/// At most four pairwise distinct valid cards group under one rank.
pub proof fn lemma_count_rank_le_4(s: Seq<PokerCard>, r: int)
    requires
        distinct_cards(s),
        forall|i: int| 0 <= i < s.len() ==> valid_card(#[trigger] s[i]),
    ensures
        count_rank(s, r) <= 4,
{
    lemma_count_split_suits(s, r);
    lemma_count_suited_le_1(s, Type::SPADE, r);
    lemma_count_suited_le_1(s, Type::CLUB, r);
    lemma_count_suited_le_1(s, Type::HEART, r);
    lemma_count_suited_le_1(s, Type::DIAMOND, r);
}

// ------------------------------------------------------------------
// what the best-rank searches mean
// ------------------------------------------------------------------

pub proof fn lemma_top_count_below(s: Seq<PokerCard>, ub: int, k: int)
    ensures
        ({
            let m = top_count_below(s, ub, k);
            &&& (m == 0 ==> forall|r: int| 2 <= r < ub ==> count_rank(s, r) != k)
            &&& (m != 0 ==> 2 <= m < ub && count_rank(s, m) == k && (forall|r: int|
                m < r < ub ==> count_rank(s, r) != k))
        }),
    decreases ub,
{
    if ub > 2 && count_rank(s, ub - 1) != k {
        lemma_top_count_below(s, ub - 1, k);
    }
}

pub proof fn lemma_top_kicker_below(s: Seq<PokerCard>, ub: int, e1: int, e2: int)
    ensures
        ({
            let m = top_kicker_below(s, ub, e1, e2);
            &&& (m == 0 ==> forall|r: int|
                2 <= r < ub && r != e1 && r != e2 ==> count_rank(s, r) < 1)
            &&& (m != 0 ==> 2 <= m < ub && m != e1 && m != e2 && count_rank(s, m) >= 1 && (
            forall|r: int| m < r < ub && r != e1 && r != e2 ==> count_rank(s, r) < 1))
        }),
    decreases ub,
{
    if ub > 2 && !(ub - 1 != e1 && ub - 1 != e2 && count_rank(s, ub - 1) >= 1) {
        lemma_top_kicker_below(s, ub - 1, e1, e2);
    }
}

pub proof fn lemma_top_suited_below(s: Seq<PokerCard>, t: Type, ub: int)
    ensures
        ({
            let m = top_suited_below(s, t, ub);
            &&& (m == 0 ==> forall|r: int| 2 <= r < ub ==> !suited_present(s, t, r))
            &&& (m != 0 ==> 2 <= m < ub && suited_present(s, t, m) && (forall|r: int|
                m < r < ub ==> !suited_present(s, t, r)))
        }),
    decreases ub,
{
    if ub > 2 && !suited_present(s, t, ub - 1) {
        lemma_top_suited_below(s, t, ub - 1);
    }
}

pub proof fn lemma_top_straight_below(s: Seq<PokerCard>, ub: int)
    ensures
        ({
            let m = top_straight_below(s, ub);
            &&& (m == 0 ==> forall|h: int| 5 <= h < ub ==> !straight_at(s, h))
            &&& (m != 0 ==> 5 <= m < ub && straight_at(s, m) && (forall|h: int|
                m < h < ub ==> !straight_at(s, h)))
        }),
    decreases ub,
{
    if ub > 5 && !straight_at(s, ub - 1) {
        lemma_top_straight_below(s, ub - 1);
    }
}

pub proof fn lemma_top_straight_flush_below(s: Seq<PokerCard>, ub: int)
    ensures
        ({
            let m = top_straight_flush_below(s, ub);
            &&& (m == 0 ==> forall|h: int| 5 <= h < ub ==> !straight_flush_any(s, h))
            &&& (m != 0 ==> 5 <= m < ub && straight_flush_any(s, m) && (forall|h: int|
                m < h < ub ==> !straight_flush_any(s, h)))
        }),
    decreases ub,
{
    if ub > 5 && !straight_flush_any(s, ub - 1) {
        lemma_top_straight_flush_below(s, ub - 1);
    }
}

pub proof fn lemma_top_kicker_pos(s: Seq<PokerCard>, ub: int, e1: int, e2: int, w: int)
    requires
        2 <= w < ub,
        w != e1,
        w != e2,
        count_rank(s, w) >= 1,
    ensures
        top_kicker_below(s, ub, e1, e2) >= w,
    decreases ub,
{
    if !(ub - 1 != e1 && ub - 1 != e2 && count_rank(s, ub - 1) >= 1) {
        lemma_top_kicker_pos(s, ub - 1, e1, e2, w);
    }
}

pub proof fn lemma_top_suited_pos(s: Seq<PokerCard>, t: Type, ub: int, w: int)
    requires
        2 <= w < ub,
        suited_present(s, t, w),
    ensures
        top_suited_below(s, t, ub) >= w,
    decreases ub,
{
    if !suited_present(s, t, ub - 1) {
        lemma_top_suited_pos(s, t, ub - 1, w);
    }
}

// ------------------------------------------------------------------
// what the first-match searches mean
// ------------------------------------------------------------------

pub proof fn lemma_find_grank_from(s: Seq<PokerCard>, g: int, i: int)
    requires
        0 <= i <= s.len(),
    ensures
        ({
            let j = find_grank_from(s, g, i);
            &&& i <= j <= s.len()
            &&& (j < s.len() ==> grank(s[j]) == g)
            &&& (forall|m: int| i <= m < j ==> grank(#[trigger] s[m]) != g)
            &&& ((exists|m: int| i <= m < s.len() && grank(#[trigger] s[m]) == g) ==> j
                < s.len())
        }),
    decreases s.len() - i,
{
    if i < s.len() && grank(s[i]) != g {
        lemma_find_grank_from(s, g, i + 1);
    }
}

pub proof fn lemma_find_srank_from(s: Seq<PokerCard>, r: int, i: int)
    requires
        0 <= i <= s.len(),
    ensures
        ({
            let j = find_srank_from(s, r, i);
            &&& i <= j <= s.len()
            &&& (j < s.len() ==> srank_matches(s[j], r))
            &&& (forall|m: int| i <= m < j ==> !srank_matches(#[trigger] s[m], r))
            &&& ((exists|m: int| i <= m < s.len() && srank_matches(#[trigger] s[m], r)) ==> j
                < s.len())
        }),
    decreases s.len() - i,
{
    if i < s.len() && !srank_matches(s[i], r) {
        lemma_find_srank_from(s, r, i + 1);
    }
}

pub proof fn lemma_count_rank_pos(s: Seq<PokerCard>, r: int)
    requires
        count_rank(s, r) >= 1,
    ensures
        exists|i: int| 0 <= i < s.len() && grank(#[trigger] s[i]) == r,
    decreases s.len(),
{
    lemma_count_rank_bounds(s.drop_last(), r);
    if grank(s.last()) == r {
        assert(grank(s[s.len() - 1]) == r);
    } else {
        lemma_count_rank_pos(s.drop_last(), r);
        let i = choose|i: int| 0 <= i < s.drop_last().len() && grank(s.drop_last()[i]) == r;
        assert(grank(s[i]) == r);
    }
}

pub proof fn lemma_count_suit_pos(s: Seq<PokerCard>, t: Type)
    requires
        count_suit(s, t) >= 1,
    ensures
        exists|i: int| 0 <= i < s.len() && (#[trigger] s[i]).suit() == t,
    decreases s.len(),
{
    lemma_count_suit_bounds(s.drop_last(), t);
    if s.last().suit() == t {
        assert(s[s.len() - 1].suit() == t);
    } else {
        lemma_count_suit_pos(s.drop_last(), t);
        let i = choose|i: int| 0 <= i < s.drop_last().len() && s.drop_last()[i].suit() == t;
        assert(s[i].suit() == t);
    }
}

pub proof fn lemma_find_suited_from(s: Seq<PokerCard>, t: Type, r: int, i: int)
    requires
        0 <= i <= s.len(),
    ensures
        ({
            let j = find_suited_from(s, t, r, i);
            &&& i <= j <= s.len()
            &&& (j < s.len() ==> s[j].suit() == t && srank_matches(s[j], r))
            &&& ((exists|m: int|
                i <= m < s.len() && (#[trigger] s[m]).suit() == t && srank_matches(s[m], r))
                ==> j < s.len())
        }),
    decreases s.len() - i,
{
    if i < s.len() && !(s[i].suit() == t && srank_matches(s[i], r)) {
        lemma_find_suited_from(s, t, r, i + 1);
    }
}

/// Filtering by a group-rank keeps exactly as many cards as the rank
/// counts.
pub proof fn lemma_filter_count(s: Seq<PokerCard>, g: int)
    ensures
        s.filter(grank_is(g)).len() == count_rank(s, g),
    decreases s.len(),
{
    reveal(Seq::filter);
    if s.len() > 0 {
        lemma_filter_count(s.drop_last(), g);
    }
}

/// Every filtered card groups under the rank and comes from the hand.
pub proof fn lemma_filter_cards(s: Seq<PokerCard>, g: int)
    ensures
        forall|i: int| 0 <= i < s.filter(grank_is(g)).len() ==> grank(
            #[trigger] s.filter(grank_is(g))[i],
        ) == g && s.contains(s.filter(grank_is(g))[i]),
    decreases s.len(),
{
    reveal(Seq::filter);
    let f = s.filter(grank_is(g));
    if s.len() > 0 {
        lemma_filter_cards(s.drop_last(), g);
        let fd = s.drop_last().filter(grank_is(g));
        assert forall|i: int| 0 <= i < f.len() implies grank(#[trigger] f[i]) == g && s.contains(
            f[i],
        ) by {
            if i < fd.len() {
                assert(f[i] == fd[i]);
                let j = choose|j: int| 0 <= j < s.drop_last().len() && s.drop_last()[j] == fd[i];
                assert(s[j] == fd[i]);
            } else {
                assert(f[i] == s.last());
                assert(s[s.len() - 1] == s.last());
            }
        }
    }
}

// ------------------------------------------------------------------
// a supported hand always yields its kickers
// ------------------------------------------------------------------

/// Beside a four-of-a-kind group a kicker rank is always present.
pub proof fn lemma_four_kicker(s: Seq<PokerCard>)
    requires
        valid_hand(s),
        has_four(s),
    ensures
        top_kicker_below(s, 15, top_count_below(s, 15, 4), 0) != 0,
{
    let fr = top_count_below(s, 15, 4);
    lemma_top_count_below(s, 15, 4);
    lemma_exists_other_grank(s, fr);
    let i = choose|i: int| 0 <= i < s.len() && grank(s[i]) != fr;
    assert(s.contains(s[i]));
    lemma_contains_count(s, s[i]);
    lemma_top_kicker_pos(s, 15, fr, 0, grank(s[i]));
}

/// Beside the three-of-a-kind group of a supported hand with no pair
/// and no four, two kicker ranks are always present.
pub proof fn lemma_three_kickers(s: Seq<PokerCard>)
    requires
        supported_hand(s),
        !has_four(s),
        has_three(s),
        !has_pair(s),
    ensures
        ({
            let tr = top_count_below(s, 15, 3);
            let k1 = top_kicker_below(s, 15, tr, 0);
            &&& k1 != 0
            &&& top_kicker_below(s, k1, tr, 0) != 0
        }),
{
    let tr = top_count_below(s, 15, 3);
    let k1 = top_kicker_below(s, 15, tr, 0);
    let k2 = top_kicker_below(s, k1, tr, 0);
    lemma_top_count_below(s, 15, 3);
    lemma_top_count_below(s, 15, 2);
    lemma_top_count_below(s, 15, 4);
    lemma_exists_other_grank(s, tr);
    let i = choose|i: int| 0 <= i < s.len() && grank(s[i]) != tr;
    assert(s.contains(s[i]));
    lemma_contains_count(s, s[i]);
    lemma_top_kicker_pos(s, 15, tr, 0, grank(s[i]));
    lemma_top_kicker_below(s, 15, tr, 0);
    if k2 == 0 {
        lemma_top_kicker_below(s, k1, tr, 0);
        assert forall|j: int| 0 <= j < s.len() implies grank(#[trigger] s[j]) == tr || grank(s[j])
            == k1 by {
            let g = grank(s[j]);
            assert(s.contains(s[j]));
            lemma_contains_count(s, s[j]);
            assert(valid_card(s[j]));
        }
        lemma_count_rank_outside(s, 0);
        lemma_cards_bound4(s, tr, k1, 0, 0);
        lemma_count_rank_le_4(s, k1);
        if count_rank(s, k1) == 3 {
            lemma_counts_disjoint(s, tr, k1);
            assert(s.len() == 6);
            assert(count_rank(s, tr) == 3 && count_rank(s, k1) == 3 && tr != k1);
            assert(false);
        } else {
            assert(count_rank(s, k1) == 1);
            assert(s.len() <= 4);
            assert(false);
        }
    }
}

/// Beside the two pairs of a hand a kicker rank is always present.
pub proof fn lemma_two_pair_kicker(s: Seq<PokerCard>)
    requires
        valid_hand(s),
        has_two_pair(s),
    ensures
        ({
            let p1 = top_count_below(s, 15, 2);
            let p2 = top_count_below(s, p1, 2);
            top_kicker_below(s, 15, p1, p2) != 0
        }),
{
    let p1 = top_count_below(s, 15, 2);
    let p2 = top_count_below(s, p1, 2);
    let k = top_kicker_below(s, 15, p1, p2);
    lemma_top_count_below(s, 15, 2);
    lemma_top_count_below(s, p1, 2);
    if k == 0 {
        lemma_top_kicker_below(s, 15, p1, p2);
        assert forall|j: int| 0 <= j < s.len() implies grank(#[trigger] s[j]) == p1 || grank(s[j])
            == p2 by {
            assert(s.contains(s[j]));
            lemma_contains_count(s, s[j]);
            assert(valid_card(s[j]));
        }
        lemma_count_rank_outside(s, 0);
        lemma_cards_bound4(s, p1, p2, 0, 0);
        assert(false);
    }
}

/// Beside the single pair of a hand with no stronger group, three
/// kicker ranks are always present.
pub proof fn lemma_pair_kickers(s: Seq<PokerCard>)
    requires
        valid_hand(s),
        !has_four(s),
        !has_three(s),
        !has_two_pair(s),
        has_pair(s),
    ensures
        ({
            let p = top_count_below(s, 15, 2);
            let k1 = top_kicker_below(s, 15, p, 0);
            let k2 = top_kicker_below(s, k1, p, 0);
            &&& k1 != 0
            &&& k2 != 0
            &&& top_kicker_below(s, k2, p, 0) != 0
        }),
{
    let p = top_count_below(s, 15, 2);
    let k1 = top_kicker_below(s, 15, p, 0);
    let k2 = top_kicker_below(s, k1, p, 0);
    let k3 = top_kicker_below(s, k2, p, 0);
    lemma_top_count_below(s, 15, 2);
    lemma_top_count_below(s, p, 2);
    lemma_top_count_below(s, 15, 3);
    lemma_top_count_below(s, 15, 4);
    lemma_exists_other_grank(s, p);
    let i = choose|i: int| 0 <= i < s.len() && grank(s[i]) != p;
    assert(s.contains(s[i]));
    lemma_contains_count(s, s[i]);
    lemma_top_kicker_pos(s, 15, p, 0, grank(s[i]));
    lemma_top_kicker_below(s, 15, p, 0);
    lemma_count_rank_le_4(s, k1);
    assert(count_rank(s, k1) == 1);
    if k2 == 0 {
        lemma_top_kicker_below(s, k1, p, 0);
        assert forall|j: int| 0 <= j < s.len() implies grank(#[trigger] s[j]) == p || grank(s[j])
            == k1 by {
            assert(s.contains(s[j]));
            lemma_contains_count(s, s[j]);
            assert(valid_card(s[j]));
        }
        lemma_count_rank_outside(s, 0);
        lemma_cards_bound4(s, p, k1, 0, 0);
        assert(false);
    }
    lemma_top_kicker_below(s, k1, p, 0);
    lemma_count_rank_le_4(s, k2);
    assert(count_rank(s, k2) == 1);
    if k3 == 0 {
        lemma_top_kicker_below(s, k2, p, 0);
        assert forall|j: int| 0 <= j < s.len() implies grank(#[trigger] s[j]) == p || grank(s[j])
            == k1 || grank(s[j]) == k2 by {
            assert(s.contains(s[j]));
            lemma_contains_count(s, s[j]);
            assert(valid_card(s[j]));
        }
        lemma_count_rank_outside(s, 0);
        lemma_cards_bound4(s, p, k1, k2, 0);
        assert(false);
    }
}

/// A hand with no group at all holds five distinct group-ranks.
pub proof fn lemma_high_card_chain(s: Seq<PokerCard>)
    requires
        valid_hand(s),
        !has_four(s),
        !has_three(s),
        !has_pair(s),
    ensures
        ({
            let m1 = top_kicker_below(s, 15, 0, 0);
            let m2 = top_kicker_below(s, m1, 0, 0);
            let m3 = top_kicker_below(s, m2, 0, 0);
            let m4 = top_kicker_below(s, m3, 0, 0);
            &&& m1 != 0
            &&& m2 != 0
            &&& m3 != 0
            &&& m4 != 0
            &&& top_kicker_below(s, m4, 0, 0) != 0
        }),
{
    let m1 = top_kicker_below(s, 15, 0, 0);
    let m2 = top_kicker_below(s, m1, 0, 0);
    let m3 = top_kicker_below(s, m2, 0, 0);
    let m4 = top_kicker_below(s, m3, 0, 0);
    let m5 = top_kicker_below(s, m4, 0, 0);
    lemma_top_count_below(s, 15, 2);
    lemma_top_count_below(s, 15, 3);
    lemma_top_count_below(s, 15, 4);
    assert(s.contains(s[0]));
    lemma_contains_count(s, s[0]);
    assert(valid_card(s[0]));
    lemma_top_kicker_pos(s, 15, 0, 0, grank(s[0]));
    lemma_top_kicker_below(s, 15, 0, 0);
    lemma_top_kicker_below(s, m1, 0, 0);
    lemma_top_kicker_below(s, m2, 0, 0);
    lemma_top_kicker_below(s, m3, 0, 0);
    lemma_top_kicker_below(s, m4, 0, 0);
    lemma_count_rank_le_4(s, m1);
    lemma_count_rank_le_4(s, m2);
    lemma_count_rank_le_4(s, m3);
    lemma_count_rank_le_4(s, m4);
    lemma_count_rank_outside(s, 0);
    if m2 == 0 {
        assert forall|j: int| 0 <= j < s.len() implies grank(#[trigger] s[j]) == m1 by {
            assert(s.contains(s[j]));
            lemma_contains_count(s, s[j]);
            assert(valid_card(s[j]));
        }
        lemma_cards_bound4(s, m1, 0, 0, 0);
        assert(false);
    }
    if m3 == 0 {
        assert forall|j: int| 0 <= j < s.len() implies grank(#[trigger] s[j]) == m1 || grank(s[j])
            == m2 by {
            assert(s.contains(s[j]));
            lemma_contains_count(s, s[j]);
            assert(valid_card(s[j]));
        }
        lemma_cards_bound4(s, m1, m2, 0, 0);
        assert(false);
    }
    if m4 == 0 {
        assert forall|j: int| 0 <= j < s.len() implies grank(#[trigger] s[j]) == m1 || grank(s[j])
            == m2 || grank(s[j]) == m3 by {
            assert(s.contains(s[j]));
            lemma_contains_count(s, s[j]);
            assert(valid_card(s[j]));
        }
        lemma_cards_bound4(s, m1, m2, m3, 0);
        assert(false);
    }
    if m5 == 0 {
        assert forall|j: int| 0 <= j < s.len() implies grank(#[trigger] s[j]) == m1 || grank(s[j])
            == m2 || grank(s[j]) == m3 || grank(s[j]) == m4 by {
            assert(s.contains(s[j]));
            lemma_contains_count(s, s[j]);
            assert(valid_card(s[j]));
        }
        lemma_cards_bound4(s, m1, m2, m3, m4);
        assert(false);
    }
}

/// A suit holding five or more cards holds five distinct group-ranks.
pub proof fn lemma_flush_chain(s: Seq<PokerCard>, t: Type)
    requires
        valid_hand(s),
        count_suit(s, t) >= 5,
    ensures
        ({
            let m1 = top_suited_below(s, t, 15);
            let m2 = top_suited_below(s, t, m1);
            let m3 = top_suited_below(s, t, m2);
            let m4 = top_suited_below(s, t, m3);
            &&& m1 != 0
            &&& m2 != 0
            &&& m3 != 0
            &&& m4 != 0
            &&& top_suited_below(s, t, m4) != 0
        }),
{
    let m1 = top_suited_below(s, t, 15);
    let m2 = top_suited_below(s, t, m1);
    let m3 = top_suited_below(s, t, m2);
    let m4 = top_suited_below(s, t, m3);
    let m5 = top_suited_below(s, t, m4);
    lemma_count_suit_pos(s, t);
    let i = choose|i: int| 0 <= i < s.len() && s[i].suit() == t;
    assert(valid_card(s[i]));
    assert(srank_matches(s[i], grank(s[i])));
    lemma_top_suited_pos(s, t, 15, grank(s[i]));
    lemma_top_suited_below(s, t, 15);
    lemma_top_suited_below(s, t, m1);
    lemma_top_suited_below(s, t, m2);
    lemma_top_suited_below(s, t, m3);
    lemma_top_suited_below(s, t, m4);
    lemma_count_suited_le_1(s, t, m1);
    lemma_count_suited_le_1(s, t, m2);
    lemma_count_suited_le_1(s, t, m3);
    lemma_count_suited_le_1(s, t, m4);
    if m2 == 0 {
        assert forall|j: int| 0 <= j < s.len() && (#[trigger] s[j]).suit() == t implies grank(s[j])
            == m1 by {
            assert(valid_card(s[j]));
            assert(srank_matches(s[j], grank(s[j])));
            assert(suited_present(s, t, grank(s[j])));
        }
        lemma_suit_cards_bound4(s, t, m1, m1, m1, m1);
        assert(false);
    }
    if m3 == 0 {
        assert forall|j: int| 0 <= j < s.len() && (#[trigger] s[j]).suit() == t implies grank(s[j])
            == m1 || grank(s[j]) == m2 by {
            assert(valid_card(s[j]));
            assert(srank_matches(s[j], grank(s[j])));
            assert(suited_present(s, t, grank(s[j])));
        }
        lemma_suit_cards_bound4(s, t, m1, m2, m2, m2);
        assert(false);
    }
    if m4 == 0 {
        assert forall|j: int| 0 <= j < s.len() && (#[trigger] s[j]).suit() == t implies grank(s[j])
            == m1 || grank(s[j]) == m2 || grank(s[j]) == m3 by {
            assert(valid_card(s[j]));
            assert(srank_matches(s[j], grank(s[j])));
            assert(suited_present(s, t, grank(s[j])));
        }
        lemma_suit_cards_bound4(s, t, m1, m2, m3, m3);
        assert(false);
    }
    if m5 == 0 {
        assert forall|j: int| 0 <= j < s.len() && (#[trigger] s[j]).suit() == t implies grank(s[j])
            == m1 || grank(s[j]) == m2 || grank(s[j]) == m3 || grank(s[j]) == m4 by {
            assert(valid_card(s[j]));
            assert(srank_matches(s[j], grank(s[j])));
            assert(suited_present(s, t, grank(s[j])));
        }
        lemma_suit_cards_bound4(s, t, m1, m2, m3, m4);
        assert(false);
    }
}


// ------------------------------------------------------------------
// the shape of a score vector
// ------------------------------------------------------------------

/// Every score vector has 18 slots, is zero before its category's
/// first slot, and is positive there; a royal flush scores 14 in slot
/// 0 and a plain straight flush less.
pub proof fn lemma_score_shape(s: Seq<PokerCard>)
    requires
        supported_hand(s),
    ensures
        ({
            let q = spec_score(s);
            let c = spec_category(s);
            &&& q.len() == 18
            &&& (forall|k: int| 0 <= k < first_slot(c) ==> q[k] == 0)
            &&& q[first_slot(c)] > 0
            &&& (c == Category::RoyalFlush ==> q[0] == 14)
            &&& (c == Category::StraightFlush ==> 0 < q[0] < 14)
        }),
{
    let q = spec_score(s);
    let c = spec_category(s);
    lemma_top_straight_flush_below(s, 15);
    lemma_top_count_below(s, 15, 4);
    lemma_top_count_below(s, 15, 3);
    lemma_top_count_below(s, 15, 2);
    lemma_top_straight_below(s, 15);
    match c {
        Category::RoyalFlush => {
        },
        Category::StraightFlush => {
        },
        Category::FourOfAKind => {
        },
        Category::FullHouse => {
        },
        Category::Flush => {
            let t = flush_suit(s);
            lemma_flush_chain(s, t);
            lemma_top_suited_below(s, t, 15);
        },
        Category::Straight => {
        },
        Category::ThreeOfAKind => {
        },
        Category::TwoPair => {
            let p1 = top_count_below(s, 15, 2);
            lemma_top_count_below(s, p1, 2);
        },
        Category::Pair => {
        },
        Category::HighCard => {
            assert(s.contains(s[0]));
            lemma_contains_count(s, s[0]);
            assert(valid_card(s[0]));
            lemma_top_kicker_pos(s, 15, 0, 0, grank(s[0]));
            lemma_top_kicker_below(s, 15, 0, 0);
        },
    }
}

// ------------------------------------------------------------------
// the reported cards come from the hand
// ------------------------------------------------------------------

proof fn lemma_kicker_choice_ok(s: Seq<PokerCard>, g: int)
    requires
        count_rank(s, g) >= 1,
    ensures
        s.contains(kicker_choice(s, g)),
        chosen_from_hand(s, kicker_choice(s, g)),
{
    lemma_count_rank_pos(s, g);
    lemma_find_grank_from(s, g, 0);
    let j = find_grank_from(s, g, 0);
    assert(kicker_choice(s, g) == s[j]);
}

proof fn lemma_straight_choice_ok(s: Seq<PokerCard>, r: int)
    requires
        rank_present(s, r),
        forall|i: int| 0 <= i < s.len() ==> valid_card(#[trigger] s[i]),
    ensures
        chosen_from_hand(s, straight_choice(s, r)),
{
    lemma_find_srank_from(s, r, 0);
    let j = find_srank_from(s, r, 0);
    assert(j < s.len());
    let c = s[j];
    if c.number() == 1 && r == 14 {
        let ace = PokerCard { card: SolitaireCard { card_type: c.suit(), number: 1 } };
        assert(c == ace);
        assert(s.contains(ace));
    } else {
        assert(s.contains(c));
    }
}

proof fn lemma_suited_choice_ok(s: Seq<PokerCard>, t: Type, r: int)
    requires
        suited_present(s, t, r),
        forall|i: int| 0 <= i < s.len() ==> valid_card(#[trigger] s[i]),
    ensures
        chosen_from_hand(s, suited_choice(s, t, r)),
{
    if r == 14 {
        let i = choose|i: int|
            0 <= i < s.len() && (#[trigger] s[i]).suit() == t && srank_matches(s[i], r);
        assert(valid_card(s[i]));
        assert(s[i].number() == 1);
        let ace = PokerCard { card: SolitaireCard { card_type: t, number: 1 } };
        assert(s[i] == ace);
        assert(s.contains(ace));
        assert(suited_choice(s, t, r) == virtual_ace(t));
    } else {
        lemma_find_suited_from(s, t, r, 0);
        let j = find_suited_from(s, t, r, 0);
        assert(j < s.len());
        assert(s.contains(s[j]));
    }
}

/// The categories whose report may play the Ace high as a virtual
/// rank-14 card.
pub open spec fn ace_high_category(c: Category) -> bool {
    c == Category::RoyalFlush || c == Category::StraightFlush || c == Category::Flush || c
        == Category::Straight
}

proof fn lemma_contains_valid(s: Seq<PokerCard>, c: PokerCard)
    requires
        valid_hand(s),
        s.contains(c),
    ensures
        valid_card(c),
{
    let i = choose|i: int| 0 <= i < s.len() && s[i] == c;
    assert(valid_card(s[i]));
}

/// Every evaluation reports exactly five cards, each drawn from the
/// hand; the virtual high Ace stands for the hand's Ace of its suit
/// and is reported only for Ace-high straights and flushes.
pub proof fn lemma_chosen_from_hand(s: Seq<PokerCard>)
    requires
        supported_hand(s),
    ensures
        spec_chosen(s).len() == 5,
        forall|i: int| 0 <= i < 5 ==> chosen_from_hand(s, #[trigger] spec_chosen(s)[i]),
        forall|i: int| 0 <= i < 5 && (#[trigger] spec_chosen(s)[i]).number() == 14
            ==> ace_high_category(spec_category(s)),
{
    let c = spec_category(s);
    lemma_top_straight_flush_below(s, 15);
    lemma_top_count_below(s, 15, 4);
    lemma_top_count_below(s, 15, 3);
    lemma_top_count_below(s, 15, 2);
    lemma_top_straight_below(s, 15);
    match c {
        Category::RoyalFlush => {
            lemma_sf_chosen_ok(s);
        },
        Category::StraightFlush => {
            lemma_sf_chosen_ok(s);
        },
        Category::FourOfAKind => {
            let fr = top_count_below(s, 15, 4);
            lemma_filter_count(s, fr);
            lemma_filter_cards(s, fr);
            lemma_four_kicker(s);
            lemma_top_kicker_below(s, 15, fr, 0);
            lemma_kicker_choice_ok(s, top_kicker_below(s, 15, fr, 0));
            assert forall|i: int| 0 <= i < 5 implies (#[trigger] spec_chosen(s)[i]).number()
                <= 13 by {
                assert(s.contains(spec_chosen(s)[i]));
                lemma_contains_valid(s, spec_chosen(s)[i]);
            }
        },
        Category::FullHouse => {
            let tr = top_count_below(s, 15, 3);
            let pr = top_count_below(s, 15, 2);
            lemma_filter_count(s, tr);
            lemma_filter_cards(s, tr);
            lemma_filter_count(s, pr);
            lemma_filter_cards(s, pr);
            assert forall|i: int| 0 <= i < 5 implies (#[trigger] spec_chosen(s)[i]).number()
                <= 13 by {
                assert(s.contains(spec_chosen(s)[i]));
                lemma_contains_valid(s, spec_chosen(s)[i]);
            }
        },
        Category::Flush => {
            let t = flush_suit(s);
            lemma_flush_chain(s, t);
            let m1 = top_suited_below(s, t, 15);
            let m2 = top_suited_below(s, t, m1);
            let m3 = top_suited_below(s, t, m2);
            let m4 = top_suited_below(s, t, m3);
            let m5 = top_suited_below(s, t, m4);
            lemma_top_suited_below(s, t, 15);
            lemma_top_suited_below(s, t, m1);
            lemma_top_suited_below(s, t, m2);
            lemma_top_suited_below(s, t, m3);
            lemma_top_suited_below(s, t, m4);
            lemma_suited_choice_ok(s, t, m1);
            lemma_suited_choice_ok(s, t, m2);
            lemma_suited_choice_ok(s, t, m3);
            lemma_suited_choice_ok(s, t, m4);
            lemma_suited_choice_ok(s, t, m5);
        },
        Category::Straight => {
            let h = top_straight_below(s, 15);
            lemma_straight_choice_ok(s, h);
            lemma_straight_choice_ok(s, h - 1);
            lemma_straight_choice_ok(s, h - 2);
            lemma_straight_choice_ok(s, h - 3);
            lemma_straight_choice_ok(s, h - 4);
        },
        Category::ThreeOfAKind => {
            let tr = top_count_below(s, 15, 3);
            lemma_filter_count(s, tr);
            lemma_filter_cards(s, tr);
            lemma_three_kickers(s);
            let k1 = top_kicker_below(s, 15, tr, 0);
            let k2 = top_kicker_below(s, k1, tr, 0);
            lemma_top_kicker_below(s, 15, tr, 0);
            lemma_top_kicker_below(s, k1, tr, 0);
            lemma_kicker_choice_ok(s, k1);
            lemma_kicker_choice_ok(s, k2);
            assert forall|i: int| 0 <= i < 5 implies (#[trigger] spec_chosen(s)[i]).number()
                <= 13 by {
                assert(s.contains(spec_chosen(s)[i]));
                lemma_contains_valid(s, spec_chosen(s)[i]);
            }
        },
        Category::TwoPair => {
            let p1 = top_count_below(s, 15, 2);
            let p2 = top_count_below(s, p1, 2);
            lemma_top_count_below(s, p1, 2);
            lemma_filter_count(s, p1);
            lemma_filter_cards(s, p1);
            lemma_filter_count(s, p2);
            lemma_filter_cards(s, p2);
            lemma_two_pair_kicker(s);
            lemma_top_kicker_below(s, 15, p1, p2);
            lemma_kicker_choice_ok(s, top_kicker_below(s, 15, p1, p2));
            assert forall|i: int| 0 <= i < 5 implies (#[trigger] spec_chosen(s)[i]).number()
                <= 13 by {
                assert(s.contains(spec_chosen(s)[i]));
                lemma_contains_valid(s, spec_chosen(s)[i]);
            }
        },
        Category::Pair => {
            let p = top_count_below(s, 15, 2);
            lemma_filter_count(s, p);
            lemma_filter_cards(s, p);
            lemma_pair_kickers(s);
            let k1 = top_kicker_below(s, 15, p, 0);
            let k2 = top_kicker_below(s, k1, p, 0);
            let k3 = top_kicker_below(s, k2, p, 0);
            lemma_top_kicker_below(s, 15, p, 0);
            lemma_top_kicker_below(s, k1, p, 0);
            lemma_top_kicker_below(s, k2, p, 0);
            lemma_kicker_choice_ok(s, k1);
            lemma_kicker_choice_ok(s, k2);
            lemma_kicker_choice_ok(s, k3);
            assert forall|i: int| 0 <= i < 5 implies (#[trigger] spec_chosen(s)[i]).number()
                <= 13 by {
                assert(s.contains(spec_chosen(s)[i]));
                lemma_contains_valid(s, spec_chosen(s)[i]);
            }
        },
        Category::HighCard => {
            assert(s.contains(s[0]));
            lemma_contains_count(s, s[0]);
            assert(valid_card(s[0]));
            lemma_top_kicker_pos(s, 15, 0, 0, grank(s[0]));
            lemma_high_card_chain(s);
            let m1 = top_kicker_below(s, 15, 0, 0);
            let m2 = top_kicker_below(s, m1, 0, 0);
            let m3 = top_kicker_below(s, m2, 0, 0);
            let m4 = top_kicker_below(s, m3, 0, 0);
            let m5 = top_kicker_below(s, m4, 0, 0);
            lemma_top_kicker_below(s, 15, 0, 0);
            lemma_top_kicker_below(s, m1, 0, 0);
            lemma_top_kicker_below(s, m2, 0, 0);
            lemma_top_kicker_below(s, m3, 0, 0);
            lemma_top_kicker_below(s, m4, 0, 0);
            lemma_kicker_choice_ok(s, m1);
            lemma_kicker_choice_ok(s, m2);
            lemma_kicker_choice_ok(s, m3);
            lemma_kicker_choice_ok(s, m4);
            lemma_kicker_choice_ok(s, m5);
            assert forall|i: int| 0 <= i < 5 implies (#[trigger] spec_chosen(s)[i]).number()
                <= 13 by {
                assert(s.contains(spec_chosen(s)[i]));
                lemma_contains_valid(s, spec_chosen(s)[i]);
            }
        },
    }
}

proof fn lemma_sf_chosen_ok(s: Seq<PokerCard>)
    requires
        supported_hand(s),
        top_straight_flush_below(s, 15) != 0,
    ensures
        straight_flush_chosen(s).len() == 5,
        forall|i: int| 0 <= i < 5 ==> chosen_from_hand(s, #[trigger] straight_flush_chosen(s)[i]),
{
    lemma_top_straight_flush_below(s, 15);
    let h = top_straight_flush_below(s, 15);
    let t = straight_flush_suit(s, h);
    assert(straight_flush_at(s, t, h));
    lemma_suited_choice_ok(s, t, h);
    lemma_suited_choice_ok(s, t, h - 1);
    lemma_suited_choice_ok(s, t, h - 2);
    lemma_suited_choice_ok(s, t, h - 3);
    lemma_suited_choice_ok(s, t, h - 4);
}

} // verus!
