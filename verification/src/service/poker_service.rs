//! Dealing and scoring.
//!
//! `Match` deals from a shuffled full deck; `score_by_one_deck` /
//! `score_by_two_deck` evaluate a hand of five to seven cards into an
//! 18-slot score vector, the five chosen cards and a category label;
//! `compare_score` ranks two score vectors lexicographically.

use vstd::prelude::*;
use core::cmp::Ordering;
use rand::Rng;
use rand::rngs::ThreadRng;
use crate::entity::card::{PokerCard, Type};
use crate::service::score_spec;
use crate::service::score_spec::{
    count_rank, count_suit, distinct_cards, grank, rank_present, srank_matches, suited_present,
    valid_card, valid_hand, Category, PokerError,
};

verus! {

/// A score vector: 18 slots, strongest category's range first.
pub type PokerScore = [i16; 18];

// ------------------------------------------------------------------
// comparing score vectors
// ------------------------------------------------------------------

/// Lexicographic comparison, element by element from index 0.
pub open spec fn lex_cmp(a: Seq<i16>, b: Seq<i16>) -> Ordering
    decreases a.len(),
{
    if a.len() == 0 || b.len() == 0 {
        Ordering::Equal
    } else if a.first() > b.first() {
        Ordering::Greater
    } else if a.first() < b.first() {
        Ordering::Less
    } else {
        lex_cmp(a.drop_first(), b.drop_first())
    }
}

/// Greater/Less at the first differing slot, Equal when all 18 match.
pub fn compare_score(s1: &PokerScore, s2: &PokerScore) -> (r: Ordering)
    ensures
        r == lex_cmp(s1@, s2@),
{
    let mut i: usize = 0;
    proof {
        assert(s1@.skip(0) =~= s1@);
        assert(s2@.skip(0) =~= s2@);
    }
    while i < 18
        invariant
            0 <= i <= 18,
            lex_cmp(s1@, s2@) == lex_cmp(s1@.skip(i as int), s2@.skip(i as int)),
        decreases 18 - i,
    {
        proof {
            assert(s1@.skip(i as int).first() == s1@[i as int]);
            assert(s2@.skip(i as int).first() == s2@[i as int]);
        }
        if s1[i] > s2[i] {
            return Ordering::Greater;
        } else if s1[i] < s2[i] {
            return Ordering::Less;
        }
        proof {
            assert(s1@.skip(i as int).drop_first() =~= s1@.skip(i + 1));
            assert(s2@.skip(i as int).drop_first() =~= s2@.skip(i + 1));
        }
        i = i + 1;
    }
    Ordering::Equal
}

/// A score vector compares Equal to itself.
pub proof fn lemma_compare_self(a: Seq<i16>)
    ensures
        lex_cmp(a, a) == Ordering::Equal,
    decreases a.len(),
{
    if a.len() > 0 {
        lemma_compare_self(a.drop_first());
    }
}

/// Swapping the operands inverts the comparison.
pub proof fn lemma_compare_antisymmetry(a: Seq<i16>, b: Seq<i16>)
    ensures
        lex_cmp(a, b) == Ordering::Greater <==> lex_cmp(b, a) == Ordering::Less,
        lex_cmp(a, b) == Ordering::Equal <==> lex_cmp(b, a) == Ordering::Equal,
    decreases a.len(),
{
    if a.len() > 0 && b.len() > 0 {
        lemma_compare_antisymmetry(a.drop_first(), b.drop_first());
    }
}

/// Strict comparison of equal-length score vectors is transitive.
pub proof fn lemma_compare_transitive(a: Seq<i16>, b: Seq<i16>, c: Seq<i16>)
    requires
        a.len() == b.len(),
        b.len() == c.len(),
        lex_cmp(a, b) == Ordering::Greater,
        lex_cmp(b, c) == Ordering::Greater,
    ensures
        lex_cmp(a, c) == Ordering::Greater,
    decreases a.len(),
{
    if a.len() > 0 && a.first() <= b.first() && b.first() <= c.first() && a.first() >= c.first() {
        lemma_compare_transitive(a.drop_first(), b.drop_first(), c.drop_first());
    }
}

/// Two equal-length vectors that agree below `i` and differ at `i`
/// compare by slot `i`.
pub proof fn lemma_lex_first_diff(a: Seq<i16>, b: Seq<i16>, i: int)
    requires
        a.len() == b.len(),
        0 <= i < a.len(),
        forall|j: int| 0 <= j < i ==> a[j] == b[j],
        a[i] > b[i],
    ensures
        lex_cmp(a, b) == Ordering::Greater,
    decreases i,
{
    if i > 0 {
        assert(a.first() == b.first());
        assert(forall|j: int| 0 <= j < i - 1 ==> a.drop_first()[j] == b.drop_first()[j]);
        assert(a.drop_first()[i - 1] == a[i] && b.drop_first()[i - 1] == b[i]);
        lemma_lex_first_diff(a.drop_first(), b.drop_first(), i - 1);
    }
}

/// A hand of a stronger category scores Greater than a hand of a
/// weaker one, whatever the kickers: the score layout puts stronger
/// categories in earlier slots.
pub proof fn lemma_stronger_category_wins(a: Seq<PokerCard>, b: Seq<PokerCard>)
    requires
        score_spec::supported_hand(a),
        score_spec::supported_hand(b),
        score_spec::strength(score_spec::spec_category(a)) < score_spec::strength(
            score_spec::spec_category(b),
        ),
    ensures
        lex_cmp(score_spec::spec_score(a), score_spec::spec_score(b)) == Ordering::Greater,
{
    let qa = score_spec::spec_score(a);
    let qb = score_spec::spec_score(b);
    let ca = score_spec::spec_category(a);
    let cb = score_spec::spec_category(b);
    score_spec::lemma_score_shape(a);
    score_spec::lemma_score_shape(b);
    let i = score_spec::first_slot(ca);
    let j = score_spec::first_slot(cb);
    assert(i <= j);
    if i < j {
        assert(qb[i] == 0);
        lemma_lex_first_diff(qa, qb, i);
    } else {
        assert(ca == Category::RoyalFlush && cb == Category::StraightFlush);
        lemma_lex_first_diff(qa, qb, 0);
    }
}

// ------------------------------------------------------------------
// dealing
// ------------------------------------------------------------------

#[verifier::external_type_specification]
#[verifier::external_body]
pub struct ExThreadRng(ThreadRng);

/// Relies on rand::thread_rng to hand back a generator; nothing is
/// promised of it.
#[verifier::external_body]
fn new_rng() -> ThreadRng {
    rand::thread_rng()
}

/// Relies on rand::Rng::gen_range over `0..n`: the result is below `n`.
/// Which value comes back depends on chance, so nothing more is stated.
#[verifier::external_body]
fn rand_below(rng: &mut ThreadRng, n: usize) -> (r: usize)
    requires
        n > 0,
    ensures
        r < n,
{
    rng.gen_range(0..n)
}

// ------------------------------------------------------------------
// queries over a hand
// ------------------------------------------------------------------

/// The rank a card groups under: the Ace groups high.
fn grank_exec(c: &PokerCard) -> (g: i16)
    ensures
        g as int == grank(*c),
{
    if c.get_number() == 1 {
        14
    } else {
        c.get_number()
    }
}

fn srank_matches_exec(c: &PokerCard, r: i16) -> (b: bool)
    ensures
        b == srank_matches(*c, r as int),
{
    c.get_number() == r || (c.get_number() == 1 && r == 14)
}

/// How many cards of `deck` group under rank `r`.
fn count_grank_exec(deck: &Vec<PokerCard>, r: i16) -> (n: usize)
    ensures
        n as int == count_rank(deck@, r as int),
{
    let mut n: usize = 0;
    let mut i: usize = 0;
    while i < deck.len()
        invariant
            i <= deck@.len(),
            n <= i,
            n as int == count_rank(deck@.take(i as int), r as int),
        decreases deck@.len() - i,
    {
        proof {
            assert(deck@.take(i + 1).drop_last() =~= deck@.take(i as int));
            assert(deck@.take(i + 1).last() == deck@[i as int]);
        }
        if grank_exec(&deck[i]) == r {
            n = n + 1;
        }
        i = i + 1;
    }
    proof {
        assert(deck@.take(deck@.len() as int) =~= deck@);
    }
    n
}

/// How many cards of `deck` are of suit `t`.
fn count_suit_exec(deck: &Vec<PokerCard>, t: Type) -> (n: usize)
    ensures
        n as int == count_suit(deck@, t),
{
    let mut n: usize = 0;
    let mut i: usize = 0;
    while i < deck.len()
        invariant
            i <= deck@.len(),
            n <= i,
            n as int == count_suit(deck@.take(i as int), t),
        decreases deck@.len() - i,
    {
        proof {
            assert(deck@.take(i + 1).drop_last() =~= deck@.take(i as int));
            assert(deck@.take(i + 1).last() == deck@[i as int]);
        }
        if deck[i].get_card_type() == t {
            n = n + 1;
        }
        i = i + 1;
    }
    proof {
        assert(deck@.take(deck@.len() as int) =~= deck@);
    }
    n
}

/// Whether some card of `deck` stands for straight-rank `r`.
fn present_exec(deck: &Vec<PokerCard>, r: i16) -> (b: bool)
    ensures
        b == rank_present(deck@, r as int),
{
    let mut i: usize = 0;
    while i < deck.len()
        invariant
            i <= deck@.len(),
            forall|j: int| 0 <= j < i ==> !srank_matches(#[trigger] deck@[j], r as int),
        decreases deck@.len() - i,
    {
        if srank_matches_exec(&deck[i], r) {
            return true;
        }
        i = i + 1;
    }
    false
}

/// Whether some card of suit `t` stands for straight-rank `r`.
fn suited_exec(deck: &Vec<PokerCard>, t: Type, r: i16) -> (b: bool)
    ensures
        b == suited_present(deck@, t, r as int),
{
    let mut i: usize = 0;
    while i < deck.len()
        invariant
            i <= deck@.len(),
            forall|j: int| 0 <= j < i ==> !((#[trigger] deck@[j]).suit() == t && srank_matches(
                deck@[j],
                r as int,
            )),
        decreases deck@.len() - i,
    {
        if deck[i].get_card_type() == t && srank_matches_exec(&deck[i], r) {
            return true;
        }
        i = i + 1;
    }
    false
}

/// The best rank below `ub` with exactly `k` cards, or 0.
fn top_count_exec(deck: &Vec<PokerCard>, ub: i16, k: usize) -> (m: i16)
    requires
        0 <= ub <= 15,
    ensures
        m as int == score_spec::top_count_below(deck@, ub as int, k as int),
    decreases ub,
{
    if ub <= 2 {
        0
    } else if count_grank_exec(deck, ub - 1) == k {
        ub - 1
    } else {
        top_count_exec(deck, ub - 1, k)
    }
}

/// The best kicker rank below `ub` other than `e1` and `e2`, or 0.
fn top_kicker_exec(deck: &Vec<PokerCard>, ub: i16, e1: i16, e2: i16) -> (m: i16)
    requires
        0 <= ub <= 15,
    ensures
        m as int == score_spec::top_kicker_below(deck@, ub as int, e1 as int, e2 as int),
    decreases ub,
{
    if ub <= 2 {
        0
    } else if ub - 1 != e1 && ub - 1 != e2 && count_grank_exec(deck, ub - 1) >= 1 {
        ub - 1
    } else {
        top_kicker_exec(deck, ub - 1, e1, e2)
    }
}

/// The best rank below `ub` that suit `t` holds, or 0.
fn top_suited_exec(deck: &Vec<PokerCard>, t: Type, ub: i16) -> (m: i16)
    requires
        0 <= ub <= 15,
    ensures
        m as int == score_spec::top_suited_below(deck@, t, ub as int),
    decreases ub,
{
    if ub <= 2 {
        0
    } else if suited_exec(deck, t, ub - 1) {
        ub - 1
    } else {
        top_suited_exec(deck, t, ub - 1)
    }
}

fn straight_at_exec(deck: &Vec<PokerCard>, h: i16) -> (b: bool)
    requires
        5 <= h <= 14,
    ensures
        b == score_spec::straight_at(deck@, h as int),
{
    present_exec(deck, h) && present_exec(deck, h - 1) && present_exec(deck, h - 2) && present_exec(
        deck,
        h - 3,
    ) && present_exec(deck, h - 4)
}

fn straight_flush_at_exec(deck: &Vec<PokerCard>, t: Type, h: i16) -> (b: bool)
    requires
        5 <= h <= 14,
    ensures
        b == score_spec::straight_flush_at(deck@, t, h as int),
{
    suited_exec(deck, t, h) && suited_exec(deck, t, h - 1) && suited_exec(deck, t, h - 2)
        && suited_exec(deck, t, h - 3) && suited_exec(deck, t, h - 4)
}

fn straight_flush_any_exec(deck: &Vec<PokerCard>, h: i16) -> (b: bool)
    requires
        5 <= h <= 14,
    ensures
        b == score_spec::straight_flush_any(deck@, h as int),
{
    straight_flush_at_exec(deck, Type::SPADE, h) || straight_flush_at_exec(deck, Type::CLUB, h)
        || straight_flush_at_exec(deck, Type::HEART, h) || straight_flush_at_exec(
        deck,
        Type::DIAMOND,
        h,
    )
}

/// The highest straight top below `ub`, or 0.
fn top_straight_exec(deck: &Vec<PokerCard>, ub: i16) -> (m: i16)
    requires
        0 <= ub <= 15,
    ensures
        m as int == score_spec::top_straight_below(deck@, ub as int),
    decreases ub,
{
    if ub <= 5 {
        0
    } else if straight_at_exec(deck, ub - 1) {
        ub - 1
    } else {
        top_straight_exec(deck, ub - 1)
    }
}

/// The highest straight-flush top below `ub`, or 0.
fn top_straight_flush_exec(deck: &Vec<PokerCard>, ub: i16) -> (m: i16)
    requires
        0 <= ub <= 15,
    ensures
        m as int == score_spec::top_straight_flush_below(deck@, ub as int),
    decreases ub,
{
    if ub <= 5 {
        0
    } else if straight_flush_any_exec(deck, ub - 1) {
        ub - 1
    } else {
        top_straight_flush_exec(deck, ub - 1)
    }
}

// ------------------------------------------------------------------
// picking the reported cards
// ------------------------------------------------------------------

/// The first card, from index `i` on, grouping under `g`.
fn find_grank_exec(deck: &Vec<PokerCard>, g: i16, i: usize) -> (c: PokerCard)
    requires
        i <= deck@.len(),
        score_spec::find_grank_from(deck@, g as int, i as int) < deck@.len(),
    ensures
        c == deck@[score_spec::find_grank_from(deck@, g as int, i as int)],
    decreases deck@.len() - i,
{
    let n = deck.len();
    proof {
        score_spec::lemma_find_grank_from(deck@, g as int, i as int);
        assert(i < n);
    }
    if grank_exec(&deck[i]) == g {
        deck[i]
    } else {
        find_grank_exec(deck, g, i + 1)
    }
}

/// The first card, from index `i` on, standing for straight-rank `r`.
fn find_srank_exec(deck: &Vec<PokerCard>, r: i16, i: usize) -> (c: PokerCard)
    requires
        i <= deck@.len(),
        score_spec::find_srank_from(deck@, r as int, i as int) < deck@.len(),
    ensures
        c == deck@[score_spec::find_srank_from(deck@, r as int, i as int)],
    decreases deck@.len() - i,
{
    let n = deck.len();
    proof {
        score_spec::lemma_find_srank_from(deck@, r as int, i as int);
        assert(i < n);
    }
    if srank_matches_exec(&deck[i], r) {
        deck[i]
    } else {
        find_srank_exec(deck, r, i + 1)
    }
}

/// The first card of suit `t`, from index `i` on, standing for
/// straight-rank `r`.
fn find_suited_exec(deck: &Vec<PokerCard>, t: Type, r: i16, i: usize) -> (c: PokerCard)
    requires
        i <= deck@.len(),
        score_spec::find_suited_from(deck@, t, r as int, i as int) < deck@.len(),
    ensures
        c == deck@[score_spec::find_suited_from(deck@, t, r as int, i as int)],
    decreases deck@.len() - i,
{
    let n = deck.len();
    proof {
        score_spec::lemma_find_suited_from(deck@, t, r as int, i as int);
        assert(i < n);
    }
    if deck[i].get_card_type() == t && srank_matches_exec(&deck[i], r) {
        deck[i]
    } else {
        find_suited_exec(deck, t, r, i + 1)
    }
}

/// The kicker card reported for group-rank `g`.
fn kicker_choice_exec(deck: &Vec<PokerCard>, g: i16) -> (c: PokerCard)
    requires
        count_rank(deck@, g as int) >= 1,
    ensures
        c == score_spec::kicker_choice(deck@, g as int),
{
    proof {
        score_spec::lemma_count_rank_pos(deck@, g as int);
        score_spec::lemma_find_grank_from(deck@, g as int, 0);
    }
    find_grank_exec(deck, g, 0)
}

/// The card reported for straight-rank `r`; an Ace playing high is
/// reported as the virtual rank-14 card of its suit.
fn straight_choice_exec(deck: &Vec<PokerCard>, r: i16) -> (c: PokerCard)
    requires
        rank_present(deck@, r as int),
    ensures
        c == score_spec::straight_choice(deck@, r as int),
{
    proof {
        score_spec::lemma_find_srank_from(deck@, r as int, 0);
    }
    let c = find_srank_exec(deck, r, 0);
    if c.get_number() == 1 && r == 14 {
        PokerCard::new_by_attribute(c.get_card_type(), 14)
    } else {
        c
    }
}

/// The card of suit `t` reported for straight-rank `r` in a flush.
fn suited_choice_exec(deck: &Vec<PokerCard>, t: Type, r: i16) -> (c: PokerCard)
    requires
        r != 14 ==> suited_present(deck@, t, r as int),
    ensures
        c == score_spec::suited_choice(deck@, t, r as int),
{
    if r == 14 {
        PokerCard::new_by_attribute(t, 14)
    } else {
        proof {
            score_spec::lemma_find_suited_from(deck@, t, r as int, 0);
        }
        find_suited_exec(deck, t, r, 0)
    }
}

/// All cards grouping under `g`, in hand order.
fn cards_of_grank_exec(deck: &Vec<PokerCard>, g: i16) -> (v: Vec<PokerCard>)
    ensures
        v@ == deck@.filter(score_spec::grank_is(g as int)),
{
    let mut v: Vec<PokerCard> = Vec::new();
    let mut i: usize = 0;
    proof {
        reveal(Seq::filter);
    }
    while i < deck.len()
        invariant
            i <= deck@.len(),
            v@ == deck@.take(i as int).filter(score_spec::grank_is(g as int)),
        decreases deck@.len() - i,
    {
        proof {
            reveal(Seq::filter);
            assert(deck@.take(i + 1).drop_last() =~= deck@.take(i as int));
            assert(deck@.take(i + 1).last() == deck@[i as int]);
        }
        if grank_exec(&deck[i]) == g {
            v.push(deck[i]);
        }
        i = i + 1;
    }
    proof {
        assert(deck@.take(deck@.len() as int) =~= deck@);
    }
    v
}

// ------------------------------------------------------------------
// detectors
// ------------------------------------------------------------------

/// Royal flush, straight flush or plain flush, the strongest applicable,
/// or nothing.
fn flush(deck: &Vec<PokerCard>) -> (r: Option<(Category, [PokerCard; 5])>)
    requires
        valid_hand(deck@),
    ensures
        ({
            let s = deck@;
            let sf = score_spec::top_straight_flush_below(s, 15);
            &&& (sf != 0 ==> (r matches Some((c, arr)) && c == (if sf == 14 {
                Category::RoyalFlush
            } else {
                Category::StraightFlush
            }) && arr@ == score_spec::straight_flush_chosen(s)))
            &&& (sf == 0 && score_spec::has_flush(s) ==> (r matches Some((c, arr)) && c
                == Category::Flush && arr@ == score_spec::flush_plain_chosen(s)))
            &&& (sf == 0 && !score_spec::has_flush(s) ==> r is None)
        }),
{
    let sf = top_straight_flush_exec(deck, 15);
    if sf != 0 {
        proof {
            score_spec::lemma_top_straight_flush_below(deck@, 15);
        }
        let t = if straight_flush_at_exec(deck, Type::SPADE, sf) {
            Type::SPADE
        } else if straight_flush_at_exec(deck, Type::CLUB, sf) {
            Type::CLUB
        } else if straight_flush_at_exec(deck, Type::HEART, sf) {
            Type::HEART
        } else {
            Type::DIAMOND
        };
        proof {
            assert(t == score_spec::straight_flush_suit(deck@, sf as int));
            assert(score_spec::straight_flush_at(deck@, t, sf as int));
        }
        let chosen: [PokerCard; 5] = [
            suited_choice_exec(deck, t, sf),
            suited_choice_exec(deck, t, sf - 1),
            suited_choice_exec(deck, t, sf - 2),
            suited_choice_exec(deck, t, sf - 3),
            suited_choice_exec(deck, t, sf - 4),
        ];
        proof {
            assert(chosen@ =~= score_spec::straight_flush_chosen(deck@));
        }
        if sf == 14 {
            Some((Category::RoyalFlush, chosen))
        } else {
            Some((Category::StraightFlush, chosen))
        }
    } else {
        let ft = if count_suit_exec(deck, Type::SPADE) >= 5 {
            Some(Type::SPADE)
        } else if count_suit_exec(deck, Type::CLUB) >= 5 {
            Some(Type::CLUB)
        } else if count_suit_exec(deck, Type::HEART) >= 5 {
            Some(Type::HEART)
        } else if count_suit_exec(deck, Type::DIAMOND) >= 5 {
            Some(Type::DIAMOND)
        } else {
            None
        };
        match ft {
            Some(t) => {
                proof {
                    assert(t == score_spec::flush_suit(deck@));
                    score_spec::lemma_flush_chain(deck@, t);
                    score_spec::lemma_top_suited_below(deck@, t, 15);
                }
                let m1 = top_suited_exec(deck, t, 15);
                proof {
                    score_spec::lemma_top_suited_below(deck@, t, m1 as int);
                }
                let m2 = top_suited_exec(deck, t, m1);
                proof {
                    score_spec::lemma_top_suited_below(deck@, t, m2 as int);
                }
                let m3 = top_suited_exec(deck, t, m2);
                proof {
                    score_spec::lemma_top_suited_below(deck@, t, m3 as int);
                }
                let m4 = top_suited_exec(deck, t, m3);
                proof {
                    score_spec::lemma_top_suited_below(deck@, t, m4 as int);
                }
                let m5 = top_suited_exec(deck, t, m4);
                let chosen: [PokerCard; 5] = [
                    suited_choice_exec(deck, t, m1),
                    suited_choice_exec(deck, t, m2),
                    suited_choice_exec(deck, t, m3),
                    suited_choice_exec(deck, t, m4),
                    suited_choice_exec(deck, t, m5),
                ];
                proof {
                    assert(chosen@ =~= score_spec::flush_plain_chosen(deck@));
                }
                Some((Category::Flush, chosen))
            },
            None => None,
        }
    }
}

/// Four of a kind, full house, three of a kind, two pair or pair, the
/// strongest applicable, or nothing.  A full house needs a separate
/// pair group: a second three-of-a-kind group is never demoted to act
/// as the pair, so two triples without a pair rank as three of a kind.
fn four_three_two_case(deck: &Vec<PokerCard>) -> (r: Option<(Category, [PokerCard; 5])>)
    requires
        score_spec::supported_hand(deck@),
    ensures
        ({
            let s = deck@;
            &&& (score_spec::has_four(s) ==> (r matches Some((c, arr)) && c
                == Category::FourOfAKind && arr@ == score_spec::four_chosen(s)))
            &&& (!score_spec::has_four(s) && score_spec::has_three(s) && score_spec::has_pair(s)
                ==> (r matches Some((c, arr)) && c == Category::FullHouse && arr@
                == score_spec::full_house_chosen(s)))
            &&& (!score_spec::has_four(s) && score_spec::has_three(s) && !score_spec::has_pair(s)
                ==> (r matches Some((c, arr)) && c == Category::ThreeOfAKind && arr@
                == score_spec::three_chosen(s)))
            &&& (!score_spec::has_four(s) && !score_spec::has_three(s)
                && score_spec::has_two_pair(s) ==> (r matches Some((c, arr)) && c
                == Category::TwoPair && arr@ == score_spec::two_pair_chosen(s)))
            &&& (!score_spec::has_four(s) && !score_spec::has_three(s)
                && !score_spec::has_two_pair(s) && score_spec::has_pair(s) ==> (r matches Some(
                (c, arr),
            ) && c == Category::Pair && arr@ == score_spec::pair_chosen(s)))
            &&& (!score_spec::has_four(s) && !score_spec::has_three(s) && !score_spec::has_pair(s)
                ==> r is None)
        }),
{
    let ghost s = deck@;
    let fr = top_count_exec(deck, 15, 4);
    let tr = top_count_exec(deck, 15, 3);
    let pr = top_count_exec(deck, 15, 2);
    proof {
        score_spec::lemma_top_count_below(s, 15, 4);
        score_spec::lemma_top_count_below(s, 15, 3);
        score_spec::lemma_top_count_below(s, 15, 2);
    }
    if fr != 0 {
        proof {
            score_spec::lemma_four_kicker(s);
            score_spec::lemma_top_kicker_below(s, 15, fr as int, 0);
            score_spec::lemma_filter_count(s, fr as int);
        }
        let kick = top_kicker_exec(deck, 15, fr, 0);
        let group = cards_of_grank_exec(deck, fr);
        let kc = kicker_choice_exec(deck, kick);
        let chosen: [PokerCard; 5] = [group[0], group[1], group[2], group[3], kc];
        proof {
            assert(chosen@ =~= score_spec::four_chosen(s));
        }
        Some((Category::FourOfAKind, chosen))
    } else if tr != 0 && pr != 0 {
        proof {
            score_spec::lemma_filter_count(s, tr as int);
            score_spec::lemma_filter_count(s, pr as int);
        }
        let g3 = cards_of_grank_exec(deck, tr);
        let g2 = cards_of_grank_exec(deck, pr);
        let chosen: [PokerCard; 5] = [g3[0], g3[1], g3[2], g2[0], g2[1]];
        proof {
            assert(chosen@ =~= score_spec::full_house_chosen(s));
        }
        Some((Category::FullHouse, chosen))
    } else if tr != 0 {
        proof {
            score_spec::lemma_three_kickers(s);
            score_spec::lemma_top_kicker_below(s, 15, tr as int, 0);
            score_spec::lemma_filter_count(s, tr as int);
        }
        let k1 = top_kicker_exec(deck, 15, tr, 0);
        proof {
            score_spec::lemma_top_kicker_below(s, k1 as int, tr as int, 0);
        }
        let k2 = top_kicker_exec(deck, k1, tr, 0);
        let g3 = cards_of_grank_exec(deck, tr);
        let c1 = kicker_choice_exec(deck, k1);
        let c2 = kicker_choice_exec(deck, k2);
        let chosen: [PokerCard; 5] = [g3[0], g3[1], g3[2], c1, c2];
        proof {
            assert(chosen@ =~= score_spec::three_chosen(s));
        }
        Some((Category::ThreeOfAKind, chosen))
    } else if pr != 0 {
        proof {
            score_spec::lemma_top_count_below(s, pr as int, 2);
        }
        let p2 = top_count_exec(deck, pr, 2);
        if p2 != 0 {
            proof {
                score_spec::lemma_two_pair_kicker(s);
                score_spec::lemma_top_kicker_below(s, 15, pr as int, p2 as int);
                score_spec::lemma_filter_count(s, pr as int);
                score_spec::lemma_filter_count(s, p2 as int);
            }
            let k = top_kicker_exec(deck, 15, pr, p2);
            let gp1 = cards_of_grank_exec(deck, pr);
            let gp2 = cards_of_grank_exec(deck, p2);
            let kc = kicker_choice_exec(deck, k);
            let chosen: [PokerCard; 5] = [gp1[0], gp1[1], gp2[0], gp2[1], kc];
            proof {
                assert(chosen@ =~= score_spec::two_pair_chosen(s));
            }
            Some((Category::TwoPair, chosen))
        } else {
            proof {
                score_spec::lemma_pair_kickers(s);
                score_spec::lemma_top_kicker_below(s, 15, pr as int, 0);
                score_spec::lemma_filter_count(s, pr as int);
            }
            let k1 = top_kicker_exec(deck, 15, pr, 0);
            proof {
                score_spec::lemma_top_kicker_below(s, k1 as int, pr as int, 0);
            }
            let k2 = top_kicker_exec(deck, k1, pr, 0);
            proof {
                score_spec::lemma_top_kicker_below(s, k2 as int, pr as int, 0);
            }
            let k3 = top_kicker_exec(deck, k2, pr, 0);
            let gp = cards_of_grank_exec(deck, pr);
            let c1 = kicker_choice_exec(deck, k1);
            let c2 = kicker_choice_exec(deck, k2);
            let c3 = kicker_choice_exec(deck, k3);
            let chosen: [PokerCard; 5] = [gp[0], gp[1], c1, c2, c3];
            proof {
                assert(chosen@ =~= score_spec::pair_chosen(s));
            }
            Some((Category::Pair, chosen))
        }
    } else {
        None
    }
}

/// A straight where one exists, else the five highest ranks, else
/// nothing (fewer than five distinct ranks).
fn straight_and_other(deck: &Vec<PokerCard>) -> (r: Option<(Category, [PokerCard; 5])>)
    ensures
        ({
            let s = deck@;
            let st = score_spec::top_straight_below(s, 15);
            &&& (st != 0 ==> (r matches Some((c, arr)) && c == Category::Straight && arr@
                == score_spec::straight_plain_chosen(s)))
            &&& (st == 0 && score_spec::high_card_possible(s) ==> (r matches Some((c, arr)) && c
                == Category::HighCard && arr@ == score_spec::high_card_chosen(s)))
            &&& (st == 0 && !score_spec::high_card_possible(s) ==> r is None)
        }),
{
    let ghost s = deck@;
    let st = top_straight_exec(deck, 15);
    if st != 0 {
        proof {
            score_spec::lemma_top_straight_below(s, 15);
        }
        let chosen: [PokerCard; 5] = [
            straight_choice_exec(deck, st),
            straight_choice_exec(deck, st - 1),
            straight_choice_exec(deck, st - 2),
            straight_choice_exec(deck, st - 3),
            straight_choice_exec(deck, st - 4),
        ];
        proof {
            assert(chosen@ =~= score_spec::straight_plain_chosen(s));
        }
        Some((Category::Straight, chosen))
    } else {
        proof {
            score_spec::lemma_top_kicker_below(s, 15, 0, 0);
        }
        let m1 = top_kicker_exec(deck, 15, 0, 0);
        proof {
            score_spec::lemma_top_kicker_below(s, m1 as int, 0, 0);
        }
        let m2 = top_kicker_exec(deck, m1, 0, 0);
        proof {
            score_spec::lemma_top_kicker_below(s, m2 as int, 0, 0);
        }
        let m3 = top_kicker_exec(deck, m2, 0, 0);
        proof {
            score_spec::lemma_top_kicker_below(s, m3 as int, 0, 0);
        }
        let m4 = top_kicker_exec(deck, m3, 0, 0);
        proof {
            score_spec::lemma_top_kicker_below(s, m4 as int, 0, 0);
        }
        let m5 = top_kicker_exec(deck, m4, 0, 0);
        if m5 != 0 {
            let chosen: [PokerCard; 5] = [
                kicker_choice_exec(deck, m1),
                kicker_choice_exec(deck, m2),
                kicker_choice_exec(deck, m3),
                kicker_choice_exec(deck, m4),
                kicker_choice_exec(deck, m5),
            ];
            proof {
                assert(chosen@ =~= score_spec::high_card_chosen(s));
            }
            Some((Category::HighCard, chosen))
        } else {
            None
        }
    }
}

// ------------------------------------------------------------------
// the scorer
// ------------------------------------------------------------------

/// The category name reported with a result.
fn label_of(cat: Category) -> (l: String)
    ensures
        l@ == score_spec::spec_label(cat),
{
    match cat {
        Category::RoyalFlush => "RoyalFlush".to_owned(),
        Category::StraightFlush => "StraightFlush".to_owned(),
        Category::Flush => "Flush".to_owned(),
        Category::FourOfAKind => "FourOfAKind".to_owned(),
        Category::FullHouse => "FullHouse".to_owned(),
        Category::ThreeOfAKind => "ThreeOfAKind".to_owned(),
        Category::TwoPair => "TwoPair".to_owned(),
        Category::Pair => "Pair".to_owned(),
        Category::Straight => "Straight".to_owned(),
        Category::HighCard => "HighCard".to_owned(),
    }
}

/// Evaluates a hand of five to seven cards: the 18-slot score vector,
/// the five chosen cards and the category label.  The whole result is a
/// function of the hand alone, so re-evaluating an identical hand
/// yields an identical result.
pub fn score(deck: &Vec<PokerCard>) -> (r: Result<(PokerScore, [PokerCard; 5], String), PokerError>)
    requires
        score_spec::supported_hand(deck@),
    ensures
        (r matches Ok(t) && t.0@ == score_spec::spec_score(deck@) && t.1@
            == score_spec::spec_chosen(deck@) && t.2@ == score_spec::spec_label(
            score_spec::spec_category(deck@),
        )),
{
    let ghost s = deck@;
    let flush_result = flush(deck);
    let group_result = four_three_two_case(deck);
    let other_result = straight_and_other(deck);

    if let Some((cat, chosen)) = flush_result {
        if !matches!(cat, Category::Flush) {
            let sf = top_straight_flush_exec(deck, 15);
            let score_arr: PokerScore = [sf, 0, 0, 0, 0, 0, 0, 0, 0, 0, 0, 0, 0, 0, 0, 0, 0, 0];
            proof {
                assert(score_spec::spec_category(s) == cat);
                assert(score_arr@ =~= score_spec::spec_score(s));
            }
            return Ok((score_arr, chosen, label_of(cat)));
        }
    }

    if let Some((cat, chosen)) = group_result {
        match cat {
            Category::FourOfAKind => {
                let fr = top_count_exec(deck, 15, 4);
                let kick = top_kicker_exec(deck, 15, fr, 0);
                let score_arr: PokerScore = [
                    0,
                    fr,
                    0,
                    0,
                    0,
                    0,
                    0,
                    0,
                    0,
                    0,
                    0,
                    0,
                    0,
                    kick,
                    0,
                    0,
                    0,
                    0,
                ];
                proof {
                    assert(score_spec::spec_category(s) == Category::FourOfAKind);
                    assert(score_arr@ =~= score_spec::spec_score(s));
                }
                return Ok((score_arr, chosen, label_of(cat)));
            },
            Category::FullHouse => {
                let tr = top_count_exec(deck, 15, 3);
                let pr = top_count_exec(deck, 15, 2);
                let score_arr: PokerScore = [
                    0,
                    0,
                    tr,
                    pr,
                    0,
                    0,
                    0,
                    0,
                    0,
                    0,
                    0,
                    0,
                    0,
                    0,
                    0,
                    0,
                    0,
                    0,
                ];
                proof {
                    assert(score_spec::spec_category(s) == Category::FullHouse);
                    assert(score_arr@ =~= score_spec::spec_score(s));
                }
                return Ok((score_arr, chosen, label_of(cat)));
            },
            _ => {},
        }
    }

    if let Some((cat, chosen)) = flush_result {
        proof {
            assert(cat == Category::Flush);
        }
        let t = if count_suit_exec(deck, Type::SPADE) >= 5 {
            Type::SPADE
        } else if count_suit_exec(deck, Type::CLUB) >= 5 {
            Type::CLUB
        } else if count_suit_exec(deck, Type::HEART) >= 5 {
            Type::HEART
        } else {
            Type::DIAMOND
        };
        proof {
            assert(t == score_spec::flush_suit(s));
            score_spec::lemma_flush_chain(s, t);
            score_spec::lemma_top_suited_below(s, t, 15);
        }
        let m1 = top_suited_exec(deck, t, 15);
        proof {
            score_spec::lemma_top_suited_below(s, t, m1 as int);
        }
        let m2 = top_suited_exec(deck, t, m1);
        proof {
            score_spec::lemma_top_suited_below(s, t, m2 as int);
        }
        let m3 = top_suited_exec(deck, t, m2);
        proof {
            score_spec::lemma_top_suited_below(s, t, m3 as int);
        }
        let m4 = top_suited_exec(deck, t, m3);
        let m5 = top_suited_exec(deck, t, m4);
        let score_arr: PokerScore = [0, 0, 0, 0, m1, m2, m3, m4, m5, 0, 0, 0, 0, 0, 0, 0, 0, 0];
        proof {
            assert(score_spec::spec_category(s) == Category::Flush);
            assert(score_arr@ =~= score_spec::spec_score(s));
        }
        return Ok((score_arr, chosen, label_of(cat)));
    }

    if let Some((cat, chosen)) = other_result {
        if matches!(cat, Category::Straight) {
            let st = top_straight_exec(deck, 15);
            let score_arr: PokerScore = [0, 0, 0, 0, 0, 0, 0, 0, 0, st, 0, 0, 0, 0, 0, 0, 0, 0];
            proof {
                assert(score_spec::spec_category(s) == Category::Straight);
                assert(score_arr@ =~= score_spec::spec_score(s));
            }
            return Ok((score_arr, chosen, label_of(cat)));
        }
    }

    if let Some((cat, chosen)) = group_result {
        match cat {
            Category::ThreeOfAKind => {
                let tr = top_count_exec(deck, 15, 3);
                let k1 = top_kicker_exec(deck, 15, tr, 0);
                proof {
                    score_spec::lemma_top_kicker_below(s, 15, tr as int, 0);
                }
                let k2 = top_kicker_exec(deck, k1, tr, 0);
                let score_arr: PokerScore = [
                    0,
                    0,
                    0,
                    0,
                    0,
                    0,
                    0,
                    0,
                    0,
                    0,
                    tr,
                    0,
                    0,
                    k1,
                    k2,
                    0,
                    0,
                    0,
                ];
                proof {
                    assert(score_spec::spec_category(s) == Category::ThreeOfAKind);
                    assert(score_arr@ =~= score_spec::spec_score(s));
                }
                return Ok((score_arr, chosen, label_of(cat)));
            },
            Category::TwoPair => {
                let p1 = top_count_exec(deck, 15, 2);
                proof {
                    score_spec::lemma_top_count_below(s, 15, 2);
                }
                let p2 = top_count_exec(deck, p1, 2);
                let k = top_kicker_exec(deck, 15, p1, p2);
                let score_arr: PokerScore = [
                    0,
                    0,
                    0,
                    0,
                    0,
                    0,
                    0,
                    0,
                    0,
                    0,
                    0,
                    p1,
                    p2,
                    k,
                    0,
                    0,
                    0,
                    0,
                ];
                proof {
                    assert(score_spec::spec_category(s) == Category::TwoPair);
                    assert(score_arr@ =~= score_spec::spec_score(s));
                }
                return Ok((score_arr, chosen, label_of(cat)));
            },
            Category::Pair => {
                let p = top_count_exec(deck, 15, 2);
                let k1 = top_kicker_exec(deck, 15, p, 0);
                proof {
                    score_spec::lemma_top_kicker_below(s, 15, p as int, 0);
                }
                let k2 = top_kicker_exec(deck, k1, p, 0);
                proof {
                    score_spec::lemma_top_kicker_below(s, k1 as int, p as int, 0);
                }
                let k3 = top_kicker_exec(deck, k2, p, 0);
                let score_arr: PokerScore = [
                    0,
                    0,
                    0,
                    0,
                    0,
                    0,
                    0,
                    0,
                    0,
                    0,
                    0,
                    0,
                    p,
                    k1,
                    k2,
                    k3,
                    0,
                    0,
                ];
                proof {
                    assert(score_spec::spec_category(s) == Category::Pair);
                    assert(score_arr@ =~= score_spec::spec_score(s));
                }
                return Ok((score_arr, chosen, label_of(cat)));
            },
            _ => {},
        }
    }

    if let Some((cat, chosen)) = other_result {
        proof {
            assert(cat == Category::HighCard);
        }
        let m1 = top_kicker_exec(deck, 15, 0, 0);
        proof {
            score_spec::lemma_top_kicker_below(s, 15, 0, 0);
        }
        let m2 = top_kicker_exec(deck, m1, 0, 0);
        proof {
            score_spec::lemma_top_kicker_below(s, m1 as int, 0, 0);
        }
        let m3 = top_kicker_exec(deck, m2, 0, 0);
        proof {
            score_spec::lemma_top_kicker_below(s, m2 as int, 0, 0);
        }
        let m4 = top_kicker_exec(deck, m3, 0, 0);
        proof {
            score_spec::lemma_top_kicker_below(s, m3 as int, 0, 0);
        }
        let m5 = top_kicker_exec(deck, m4, 0, 0);
        let score_arr: PokerScore = [0, 0, 0, 0, 0, 0, 0, 0, 0, 0, 0, 0, 0, m1, m2, m3, m4, m5];
        proof {
            assert(score_spec::spec_category(s) == Category::HighCard);
            assert(score_arr@ =~= score_spec::spec_score(s));
        }
        return Ok((score_arr, chosen, label_of(cat)));
    }

    proof {
        score_spec::lemma_high_card_chain(s);
        assert(false);
    }
    Err(PokerError::UnsupportedHand)
}

/// Evaluates one working hand; see `score`.
pub fn score_by_one_deck(deck: &Vec<PokerCard>) -> (r: Result<
    (PokerScore, [PokerCard; 5], String),
    PokerError,
>)
    requires
        score_spec::supported_hand(deck@),
    ensures
        (r matches Ok(t) && t.0@ == score_spec::spec_score(deck@) && t.1@
            == score_spec::spec_chosen(deck@) && t.2@ == score_spec::spec_label(
            score_spec::spec_category(deck@),
        )),
{
    score(deck)
}

/// Evaluates the hand made of the player's and the community cards;
/// see `score`.
pub fn score_by_two_deck(player_deck: &Vec<PokerCard>, general_deck: &Vec<PokerCard>) -> (r: Result<
    (PokerScore, [PokerCard; 5], String),
    PokerError,
>)
    requires
        score_spec::supported_hand(player_deck@ + general_deck@),
    ensures
        (r matches Ok(t) && t.0@ == score_spec::spec_score(player_deck@ + general_deck@) && t.1@
            == score_spec::spec_chosen(player_deck@ + general_deck@) && t.2@
            == score_spec::spec_label(score_spec::spec_category(player_deck@ + general_deck@))),
{
    let deck = get_full_deck(player_deck, general_deck);
    score(&deck)
}

/// One working hand out of several decks, in order.
pub fn get_full_deck(player_deck: &Vec<PokerCard>, general_deck: &Vec<PokerCard>) -> (r: Vec<
    PokerCard,
>)
    ensures
        r@ == player_deck@ + general_deck@,
{
    let mut result: Vec<PokerCard> = Vec::new();
    let mut i: usize = 0;
    while i < player_deck.len()
        invariant
            i <= player_deck@.len(),
            result@ == player_deck@.take(i as int),
        decreases player_deck@.len() - i,
    {
        result.push(player_deck[i]);
        proof {
            assert(result@ =~= player_deck@.take(i + 1));
        }
        i = i + 1;
    }
    let mut j: usize = 0;
    while j < general_deck.len()
        invariant
            j <= general_deck@.len(),
            result@ == player_deck@.take(player_deck@.len() as int) + general_deck@.take(j as int),
        decreases general_deck@.len() - j,
    {
        result.push(general_deck[j]);
        proof {
            assert(result@ =~= player_deck@.take(player_deck@.len() as int) + general_deck@.take(
                j + 1,
            ));
        }
        j = j + 1;
    }
    proof {
        assert(player_deck@.take(player_deck@.len() as int) =~= player_deck@);
        assert(general_deck@.take(general_deck@.len() as int) =~= general_deck@);
        assert(result@ =~= player_deck@ + general_deck@);
    }
    result
}

/// A match: the cards still in the dealing deck.
pub struct Match {
    pub deck: Vec<PokerCard>,
}

impl Match {
    /// A fresh match holds the full 52-card deck.
    pub fn new() -> (r: Self)
        ensures
            r.deck@.len() == 52,
            forall|i: int| 0 <= i < 52 ==> valid_card(#[trigger] r.deck@[i]),
            distinct_cards(r.deck@),
    {
        let deck = PokerCard::get_all_card();
        proof {
            assert forall|i: int, j: int| 0 <= i < j < deck@.len() implies deck@[i] != deck@[j] by {
                if deck@[i] == deck@[j] {
                    vstd::arithmetic::div_mod::lemma_fundamental_div_mod(i, 13);
                    vstd::arithmetic::div_mod::lemma_fundamental_div_mod(j, 13);
                    assert(crate::entity::card::suit_of_index(i / 13)
                        == crate::entity::card::suit_of_index(j / 13));
                    assert(1 + i % 13 == 1 + j % 13);
                    assert(i / 13 == j / 13);
                    assert(false);
                }
            }
        }
        Match { deck }
    }

    /// Two hole cards, drawn at random; `DeckExhausted` when fewer remain.
    pub fn draw_player(&mut self) -> (r: Result<Vec<PokerCard>, PokerError>)
        ensures
            old(self).deck@.len() < 2 ==> r == Result::<Vec<PokerCard>, PokerError>::Err(
                PokerError::DeckExhausted,
            ) && final(self).deck@ == old(self).deck@,
            old(self).deck@.len() >= 2 ==> (r matches Ok(v) && v@.len() == 2
                && final(self).deck@.len() == old(self).deck@.len() - 2
                && old(self).deck@.to_multiset()
                    == final(self).deck@.to_multiset().add(v@.to_multiset())),
    {
        self.draw(2)
    }

    /// Five community cards, drawn at random; `DeckExhausted` when fewer
    /// remain.
    pub fn draw_general(&mut self) -> (r: Result<Vec<PokerCard>, PokerError>)
        ensures
            old(self).deck@.len() < 5 ==> r == Result::<Vec<PokerCard>, PokerError>::Err(
                PokerError::DeckExhausted,
            ) && final(self).deck@ == old(self).deck@,
            old(self).deck@.len() >= 5 ==> (r matches Ok(v) && v@.len() == 5
                && final(self).deck@.len() == old(self).deck@.len() - 5
                && old(self).deck@.to_multiset()
                    == final(self).deck@.to_multiset().add(v@.to_multiset())),
    {
        self.draw(5)
    }

    /// Draws `draw_number` cards, each removed from a random place of the
    /// deck, so the deck and the drawn cards together hold exactly the
    /// old deck's cards.
    fn draw(&mut self, draw_number: i16) -> (r: Result<Vec<PokerCard>, PokerError>)
        requires
            0 <= draw_number,
        ensures
            old(self).deck@.len() < draw_number ==> r == Result::<Vec<PokerCard>, PokerError>::Err(
                PokerError::DeckExhausted,
            ) && final(self).deck@ == old(self).deck@,
            old(self).deck@.len() >= draw_number ==> (r matches Ok(v) && v@.len() == draw_number
                && final(self).deck@.len() == old(self).deck@.len() - draw_number
                && old(self).deck@.to_multiset()
                    == final(self).deck@.to_multiset().add(v@.to_multiset())),
    {
        proof {
            broadcast use vstd::seq_lib::group_to_multiset_ensures;

        }
        if draw_number as usize > self.deck.len() {
            return Err(PokerError::DeckExhausted);
        }
        let mut rng = new_rng();
        let mut result: Vec<PokerCard> = Vec::new();
        let n = draw_number as usize;
        let mut i: usize = 0;
        while i < n
            invariant
                i <= n,
                n <= old(self).deck@.len(),
                result@.len() == i,
                self.deck@.len() == old(self).deck@.len() - i,
                old(self).deck@.to_multiset() == self.deck@.to_multiset().add(
                    result@.to_multiset(),
                ),
            decreases n - i,
        {
            proof {
                broadcast use vstd::seq_lib::group_to_multiset_ensures;

            }
            let ghost prev_res = result@;
            let c = self.each_draw(&mut rng);
            result.push(c);
            proof {
                assert(result@ == prev_res.push(c));
                assert(result@.to_multiset() =~= prev_res.to_multiset().insert(c));
                assert(self.deck@.to_multiset().add(result@.to_multiset())
                    =~= old(self).deck@.to_multiset());
            }
            i = i + 1;
        }
        Ok(result)
    }

    /// Removes and returns the card at a random index.
    fn each_draw(&mut self, rng: &mut ThreadRng) -> (c: PokerCard)
        requires
            old(self).deck@.len() > 0,
        ensures
            final(self).deck@.len() == old(self).deck@.len() - 1,
            old(self).deck@.to_multiset() == final(self).deck@.to_multiset().insert(c),
    {
        proof {
            broadcast use vstd::seq_lib::group_to_multiset_ensures;

        }
        let index = rand_below(rng, self.deck.len());
        let c = self.deck.remove(index);
        proof {
            assert(self.deck@ == old(self).deck@.remove(index as int));
            assert(self.deck@.to_multiset() =~= old(self).deck@.to_multiset().remove(
                old(self).deck@[index as int],
            ));
            assert(old(self).deck@.contains(old(self).deck@[index as int]));
            assert(self.deck@.to_multiset().insert(c) =~= old(self).deck@.to_multiset());
        }
        c
    }
}

} // verus!
