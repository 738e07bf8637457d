//! The order in which a hand is laid out for its holder: by suit, and within
//! a suit from the ace up to the king.

use std::cmp::Ordering;
use vstd::prelude::*;
use crate::cards::Card;

verus! {

/// The place of a card in the order of all cards: the clubs come first, then
/// the diamonds, the hearts and the spades, each suit from its ace to its king.
pub open spec fn sort_key(card: Card) -> int {
    card.suit.spec_index() * 13 + card.rank.spec_value()
}

/// Cards are in the same place of the order only if they are the same card.
pub proof fn lemma_sort_key_tells_cards_apart(first: Card, second: Card)
    requires
        sort_key(first) == sort_key(second),
    ensures
        first == second,
{
    crate::cards::lemma_rank_value_round_trip(first.rank);
    crate::cards::lemma_rank_value_round_trip(second.rank);
}

/// Compares two cards by their place in the order of all cards.
pub fn card_comparator(c1: &Card, c2: &Card) -> (order: Ordering)
    ensures
        match order {
            Ordering::Less => sort_key(*c1) < sort_key(*c2),
            Ordering::Equal => *c1 == *c2,
            Ordering::Greater => sort_key(*c1) > sort_key(*c2),
        },
{
    let s1: usize = c1.suit().index();
    let s2: usize = c2.suit().index();
    let r1: u8 = c1.rank().value();
    let r2: u8 = c2.rank().value();
    proof {
        if s1 == s2 && r1 == r2 {
            lemma_sort_key_tells_cards_apart(*c1, *c2);
        }
    }
    if s1 < s2 {
        Ordering::Less
    } else if s1 > s2 {
        Ordering::Greater
    } else if r1 < r2 {
        Ordering::Less
    } else if r1 > r2 {
        Ordering::Greater
    } else {
        Ordering::Equal
    }
}

} // verus!
