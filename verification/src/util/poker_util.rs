//! Rendering cards for display.
//!
//! A card prints as `{"A", SPADE}`: ranks 1 and 14 as `A`, 11 to 13 as
//! `J`, `Q`, `K`, the rest as digits; cards are joined with `, `.

use vstd::prelude::*;
use vstd::string::StringExecFns;
use crate::entity::card::{PokerCard, Type};

verus! {

/// The printed form of a rank.
pub open spec fn number_label(n: int) -> Seq<char> {
    if n == 1 || n == 14 {
        "A"@
    } else if n == 11 {
        "J"@
    } else if n == 12 {
        "Q"@
    } else if n == 13 {
        "K"@
    } else if n == 2 {
        "2"@
    } else if n == 3 {
        "3"@
    } else if n == 4 {
        "4"@
    } else if n == 5 {
        "5"@
    } else if n == 6 {
        "6"@
    } else if n == 7 {
        "7"@
    } else if n == 8 {
        "8"@
    } else if n == 9 {
        "9"@
    } else {
        "10"@
    }
}

/// The printed form of a suit.
pub open spec fn type_label(t: Type) -> Seq<char> {
    match t {
        Type::SPADE => "SPADE"@,
        Type::CLUB => "CLUB"@,
        Type::HEART => "HEART"@,
        Type::DIAMOND => "DIAMOND"@,
    }
}

/// The printed form of one card.
pub open spec fn card_label(c: PokerCard) -> Seq<char> {
    "{\""@ + number_label(c.number()) + "\", "@ + type_label(c.suit()) + "}"@
}

/// The printed form of a sequence of cards, joined with `, `.
pub open spec fn decks_string(s: Seq<PokerCard>) -> Seq<char>
    decreases s.len(),
{
    if s.len() == 0 {
        Seq::empty()
    } else if s.len() == 1 {
        card_label(s[0])
    } else {
        decks_string(s.drop_last()) + ", "@ + card_label(s.last())
    }
}

fn number_str(n: i16) -> (r: &'static str)
    requires
        1 <= n <= 14,
    ensures
        r@ == number_label(n as int),
{
    if n == 1 || n == 14 {
        "A"
    } else if n == 11 {
        "J"
    } else if n == 12 {
        "Q"
    } else if n == 13 {
        "K"
    } else if n == 2 {
        "2"
    } else if n == 3 {
        "3"
    } else if n == 4 {
        "4"
    } else if n == 5 {
        "5"
    } else if n == 6 {
        "6"
    } else if n == 7 {
        "7"
    } else if n == 8 {
        "8"
    } else if n == 9 {
        "9"
    } else {
        "10"
    }
}

fn type_str(t: Type) -> (r: &'static str)
    ensures
        r@ == type_label(t),
{
    match t {
        Type::SPADE => "SPADE",
        Type::CLUB => "CLUB",
        Type::HEART => "HEART",
        Type::DIAMOND => "DIAMOND",
    }
}

/// Renders a deck of cards, comma-separated, each as `{"rank", SUIT}`.
pub fn to_string_decks(decks: &Vec<PokerCard>) -> (r: String)
    requires
        forall|i: int| 0 <= i < decks@.len() ==> 1 <= (#[trigger] decks@[i]).number() <= 14,
    ensures
        r@ == decks_string(decks@),
{
    let mut result = String::new();
    let mut i: usize = 0;
    while i < decks.len()
        invariant
            i <= decks@.len(),
            forall|j: int| 0 <= j < decks@.len() ==> 1 <= (#[trigger] decks@[j]).number() <= 14,
            result@ == decks_string(decks@.take(i as int)),
        decreases decks@.len() - i,
    {
        if i != 0 {
            result.append(", ");
        }
        result.append("{\"");
        result.append(number_str(decks[i].get_number()));
        result.append("\", ");
        result.append(type_str(decks[i].get_card_type()));
        result.append("}");
        proof {
            assert(decks@.take(i + 1).drop_last() =~= decks@.take(i as int));
            assert(decks@.take(i + 1).last() == decks@[i as int]);
            assert(result@ =~= decks_string(decks@.take(i + 1)));
        }
        i = i + 1;
    }
    proof {
        assert(decks@.take(decks@.len() as int) =~= decks@);
    }
    result
}

} // verus!
