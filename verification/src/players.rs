//! A player's hand.

use vstd::prelude::*;
use vstd::slice::slice_to_vec;
use crate::cards::Card;

verus! {

/// Position of the first occurrence of `card` in `hand`; the length of `hand`
/// if the card does not occur.
pub open spec fn first_position(hand: Seq<Card>, card: Card) -> int
    decreases hand.len(),
{
    if hand.len() == 0 {
        0
    } else if hand[0] == card {
        0
    } else {
        1 + first_position(hand.subrange(1, hand.len() as int), card)
    }
}

/// The cards of `hand` without repetitions, each at the place of its first
/// occurrence.
pub open spec fn distinct_cards(hand: Seq<Card>) -> Seq<Card>
    decreases hand.len(),
{
    if hand.len() == 0 {
        Seq::<Card>::empty()
    } else {
        let earlier = distinct_cards(hand.drop_last());
        if earlier.contains(hand.last()) {
            earlier
        } else {
            earlier.push(hand.last())
        }
    }
}

/// [`first_position`] is an index of `card` exactly when the card occurs, and
/// then no earlier position holds it.
pub proof fn lemma_first_position(hand: Seq<Card>, card: Card)
    ensures
        0 <= first_position(hand, card) <= hand.len(),
        first_position(hand, card) < hand.len() <==> hand.contains(card),
        first_position(hand, card) < hand.len() ==> hand[first_position(hand, card)] == card,
        forall|j: int| 0 <= j < first_position(hand, card) ==> hand[j] != card,
    decreases hand.len(),
{
    if hand.len() > 0 && hand[0] != card {
        let rest = hand.subrange(1, hand.len() as int);
        lemma_first_position(rest, card);
        let p = first_position(rest, card);
        if hand.contains(card) {
            let i = choose|i: int| 0 <= i < hand.len() && hand[i] == card;
            assert(rest[i - 1] == card);
        }
        if p < rest.len() {
            assert(hand[p + 1] == rest[p]);
        }
        assert forall|j: int| 0 <= j < 1 + p implies hand[j] != card by {
            if j > 0 {
                assert(hand[j] == rest[j - 1]);
            }
        }
    } else if hand.len() > 0 {
        assert(hand[0] == card);
    }
}

/// [`distinct_cards`] holds the same cards as the hand, each once.
pub proof fn lemma_distinct_cards(hand: Seq<Card>)
    ensures
        distinct_cards(hand).no_duplicates(),
        distinct_cards(hand).len() <= hand.len(),
        forall|card: Card| distinct_cards(hand).contains(card) <==> hand.contains(card),
    decreases hand.len(),
{
    if hand.len() > 0 {
        let front = hand.drop_last();
        let earlier = distinct_cards(front);
        lemma_distinct_cards(front);
        let result = distinct_cards(hand);
        assert forall|card: Card| result.contains(card) <==> hand.contains(card) by {
            if hand.contains(card) {
                let i = choose|i: int| 0 <= i < hand.len() && hand[i] == card;
                if i < hand.len() - 1 {
                    assert(front[i] == card);
                    assert(front.contains(card));
                    assert(earlier.contains(card));
                    let k = choose|k: int| 0 <= k < earlier.len() && earlier[k] == card;
                    assert(result[k] == card);
                } else if earlier.contains(card) {
                } else {
                    assert(result[result.len() - 1] == card);
                }
            }
            if result.contains(card) {
                let k = choose|k: int| 0 <= k < result.len() && result[k] == card;
                if k < earlier.len() {
                    assert(earlier[k] == card);
                    assert(earlier.contains(card));
                    assert(front.contains(card));
                    let i = choose|i: int| 0 <= i < front.len() && front[i] == card;
                    assert(hand[i] == card);
                } else {
                    assert(hand[hand.len() - 1] == card);
                }
            }
        }
    }
}

/// A player of a card game: the cards in hand, and the number of cards that
/// the player is dealt.
#[derive(Debug)]
pub struct Player {
    hand: Vec<Card>,
    max_card_count: usize,
}

impl View for Player {
    type V = Seq<Card>;

    /// The cards in hand, in the order in which they were dealt.
    closed spec fn view(&self) -> Seq<Card> {
        self.hand@
    }
}

impl Clone for Player {
    fn clone(&self) -> (player: Player)
        ensures
            player@ == self@,
            player.spec_capacity() == self.spec_capacity(),
    {
        Player { hand: slice_to_vec(self.hand.as_slice()), max_card_count: self.max_card_count }
    }
}

impl Default for Player {
    fn default() -> (player: Player)
        ensures
            player@ == Seq::<Card>::empty(),
            player.spec_capacity() == 0,
    {
        Player::new()
    }
}

impl Player {
    /// Number of cards that the player is dealt; 0 while it is not fixed.
    pub closed spec fn spec_capacity(self) -> nat {
        self.max_card_count as nat
    }

    /// A player without cards, whose capacity is not fixed yet.
    pub fn new() -> (player: Player)
        ensures
            player@ == Seq::<Card>::empty(),
            player.spec_capacity() == 0,
    {
        Player { hand: Vec::new(), max_card_count: 0 }
    }

    /// A player who holds `cards`, which also fixes the capacity.
    pub fn new_with_hand(cards: Vec<Card>) -> (player: Player)
        ensures
            player@ == cards@,
            player.spec_capacity() == cards@.len(),
    {
        Player { max_card_count: cards.len(), hand: cards }
    }

    /// A player without cards who is to be dealt `hand_size` cards.
    pub fn with_capacity(hand_size: usize) -> (player: Player)
        ensures
            player@ == Seq::<Card>::empty(),
            player.spec_capacity() == hand_size,
    {
        Player { hand: Vec::with_capacity(hand_size), max_card_count: hand_size }
    }

    /// Adds `cards` to the hand, in their order.
    ///
    /// A player whose capacity is fixed must end up with exactly that many
    /// cards. For a player whose capacity is 0 the call fixes it to the size of
    /// the hand.
    pub fn assign_cards(&mut self, cards: Vec<Card>)
        requires
            old(self).spec_capacity() != 0 ==> old(self)@.len() + cards@.len() == old(
                self,
            ).spec_capacity(),
        ensures
            final(self)@ == old(self)@ + cards@,
            final(self).spec_capacity() == if old(self).spec_capacity() != 0 {
                old(self).spec_capacity()
            } else {
                final(self)@.len()
            },
    {
        let mut cards = cards;
        self.hand.append(&mut cards);
        if self.max_card_count == 0 {
            self.max_card_count = self.hand.len();
        }
    }

    /// Removes the first occurrence of `card` from the hand.
    pub fn remove_card(&mut self, card: &Card)
        requires
            old(self)@.contains(*card),
        ensures
            final(self)@ == old(self)@.remove(first_position(old(self)@, *card)),
            final(self)@.len() == old(self)@.len() - 1,
            final(self).spec_capacity() == old(self).spec_capacity(),
    {
        let n: usize = self.hand.len();
        let mut idx: usize = 0;
        proof {
            lemma_first_position(self@, *card);
        }
        while idx < n && self.hand[idx] != *card
            invariant
                0 <= idx <= n,
                n == self@.len(),
                *self == *old(self),
                forall|j: int| 0 <= j < idx ==> self@[j] != *card,
                idx <= first_position(self@, *card) < n,
            decreases n - idx,
        {
            proof {
                lemma_first_position(self@, *card);
            }
            idx = idx + 1;
        }
        proof {
            lemma_first_position(self@, *card);
        }
        self.hand.remove(idx);
    }

    /// Number of cards that the player is dealt.
    pub fn capacity(&self) -> (capacity: usize)
        ensures
            capacity == self.spec_capacity(),
    {
        self.max_card_count
    }

    /// Whether the player holds `card`.
    pub fn has_card(&self, card: &Card) -> (held: bool)
        ensures
            held == self@.contains(*card),
    {
        contains_card(&self.hand, card)
    }

    /// The cards in hand without repetitions, each at the place of its first
    /// occurrence.
    pub fn unique_cards_in_hand(&self) -> (cards: Vec<Card>)
        ensures
            cards@ == distinct_cards(self@),
            cards@.no_duplicates(),
            forall|card: Card| cards@.contains(card) <==> self@.contains(card),
    {
        let mut cards: Vec<Card> = Vec::new();
        let n: usize = self.hand.len();
        let mut i: usize = 0;
        while i < n
            invariant
                0 <= i <= n,
                n == self@.len(),
                cards@ == distinct_cards(self@.subrange(0, i as int)),
            decreases n - i,
        {
            proof {
                assert(self@.subrange(0, i + 1).drop_last() =~= self@.subrange(0, i as int));
            }
            let card = self.hand[i];
            if !contains_card(&cards, &card) {
                cards.push(card);
            }
            i = i + 1;
        }
        proof {
            assert(self@.subrange(0, n as int) =~= self@);
            lemma_distinct_cards(self@);
        }
        cards
    }

    /// Number of cards in hand.
    pub fn hand_len(&self) -> (len: usize)
        ensures
            len == self@.len(),
    {
        self.hand.len()
    }

    /// The cards in hand.
    pub fn hand(&self) -> (cards: &[Card])
        ensures
            cards@ == self@,
    {
        self.hand.as_slice()
    }
}

/// Whether `card` occurs in `cards`.
pub fn contains_card(cards: &Vec<Card>, card: &Card) -> (found: bool)
    ensures
        found == cards@.contains(*card),
{
    let n: usize = cards.len();
    let mut i: usize = 0;
    while i < n
        invariant
            0 <= i <= n,
            n == cards@.len(),
            forall|j: int| 0 <= j < i ==> cards@[j] != *card,
        decreases n - i,
    {
        if cards[i] == *card {
            return true;
        }
        i = i + 1;
    }
    false
}

} // verus!
