//! Suits, ranks, cards and the standard 52-card deck.

use vstd::prelude::*;

verus! {

/// Number of cards in one standard deck.
pub const DECK_SIZE: usize = 52;

/// Number of ranks in one suit.
pub const RANKS_PER_SUIT: usize = 13;

/// One of the four suits.
#[derive(Clone, Copy, Debug, PartialEq, Eq, Hash, Structural)]
pub enum Suit {
    Clubs,
    Diamonds,
    Hearts,
    Spades,
}

impl Suit {
    /// Position of the suit in the fixed order clubs, diamonds, hearts, spades.
    pub open spec fn spec_index(self) -> int {
        match self {
            Suit::Clubs => 0,
            Suit::Diamonds => 1,
            Suit::Hearts => 2,
            Suit::Spades => 3,
        }
    }

    /// The suit at position `i` of the fixed order; spades for any `i` past 2.
    pub open spec fn spec_from_index(i: int) -> Suit {
        if i == 0 {
            Suit::Clubs
        } else if i == 1 {
            Suit::Diamonds
        } else if i == 2 {
            Suit::Hearts
        } else {
            Suit::Spades
        }
    }

    /// Position of the suit in the fixed order.
    pub fn index(&self) -> (i: usize)
        ensures
            i == self.spec_index(),
            i < 4,
    {
        match self {
            Suit::Clubs => 0,
            Suit::Diamonds => 1,
            Suit::Hearts => 2,
            Suit::Spades => 3,
        }
    }

    /// The suit at position `i` of the fixed order.
    pub fn from_index(i: usize) -> (suit: Suit)
        requires
            i < 4,
        ensures
            suit == Suit::spec_from_index(i as int),
            suit.spec_index() == i,
    {
        if i == 0 {
            Suit::Clubs
        } else if i == 1 {
            Suit::Diamonds
        } else if i == 2 {
            Suit::Hearts
        } else {
            Suit::Spades
        }
    }

    /// The four suits in their fixed order.
    pub fn all_suits() -> (suits: [Suit; 4])
        ensures
            forall|i: int| 0 <= i < 4 ==> suits@[i] == Suit::spec_from_index(i),
    {
        [Suit::Clubs, Suit::Diamonds, Suit::Hearts, Suit::Spades]
    }
}

/// One of the thirteen ranks, ace low.
#[derive(Clone, Copy, Debug, PartialEq, Eq, Hash, Structural)]
pub enum Rank {
    Ace,
    Two,
    Three,
    Four,
    Five,
    Six,
    Seven,
    Eight,
    Nine,
    Ten,
    Jack,
    Queen,
    King,
}

impl Rank {
    /// Numeric value of the rank: 1 for the ace up to 13 for the king.
    pub open spec fn spec_value(self) -> int {
        match self {
            Rank::Ace => 1,
            Rank::Two => 2,
            Rank::Three => 3,
            Rank::Four => 4,
            Rank::Five => 5,
            Rank::Six => 6,
            Rank::Seven => 7,
            Rank::Eight => 8,
            Rank::Nine => 9,
            Rank::Ten => 10,
            Rank::Jack => 11,
            Rank::Queen => 12,
            Rank::King => 13,
        }
    }

    /// The rank whose value is `v`; the king for any `v` outside 1..=12.
    pub open spec fn spec_new(v: int) -> Rank {
        if v == 1 {
            Rank::Ace
        } else if v == 2 {
            Rank::Two
        } else if v == 3 {
            Rank::Three
        } else if v == 4 {
            Rank::Four
        } else if v == 5 {
            Rank::Five
        } else if v == 6 {
            Rank::Six
        } else if v == 7 {
            Rank::Seven
        } else if v == 8 {
            Rank::Eight
        } else if v == 9 {
            Rank::Nine
        } else if v == 10 {
            Rank::Ten
        } else if v == 11 {
            Rank::Jack
        } else if v == 12 {
            Rank::Queen
        } else {
            Rank::King
        }
    }

    /// Numeric value of the rank.
    pub fn value(&self) -> (v: u8)
        ensures
            v == self.spec_value(),
            1 <= v <= 13,
    {
        match self {
            Rank::Ace => 1,
            Rank::Two => 2,
            Rank::Three => 3,
            Rank::Four => 4,
            Rank::Five => 5,
            Rank::Six => 6,
            Rank::Seven => 7,
            Rank::Eight => 8,
            Rank::Nine => 9,
            Rank::Ten => 10,
            Rank::Jack => 11,
            Rank::Queen => 12,
            Rank::King => 13,
        }
    }

    /// The rank with value `value`.
    pub fn new(value: u8) -> (rank: Rank)
        requires
            1 <= value <= 13,
        ensures
            rank == Rank::spec_new(value as int),
            rank.spec_value() == value,
    {
        if value == 1 {
            Rank::Ace
        } else if value == 2 {
            Rank::Two
        } else if value == 3 {
            Rank::Three
        } else if value == 4 {
            Rank::Four
        } else if value == 5 {
            Rank::Five
        } else if value == 6 {
            Rank::Six
        } else if value == 7 {
            Rank::Seven
        } else if value == 8 {
            Rank::Eight
        } else if value == 9 {
            Rank::Nine
        } else if value == 10 {
            Rank::Ten
        } else if value == 11 {
            Rank::Jack
        } else if value == 12 {
            Rank::Queen
        } else {
            Rank::King
        }
    }

    /// The rank with value `value`, if there is one.
    pub fn from_value(value: u8) -> (rank: Option<Rank>)
        ensures
            rank.is_some() <==> 1 <= value <= 13,
            rank.is_some() ==> rank.unwrap() == Rank::spec_new(value as int),
    {
        if 1 <= value && value <= 13 {
            Some(Rank::new(value))
        } else {
            None
        }
    }
}

/// A playing card. Two cards are equal when suit and rank are.
#[derive(Clone, Copy, Debug, PartialEq, Eq, Hash, Structural)]
pub struct Card {
    pub suit: Suit,
    pub rank: Rank,
}

impl Card {
    /// The card of the given suit and rank.
    pub fn new(suit: Suit, rank: Rank) -> (card: Card)
        ensures
            card == (Card { suit, rank }),
    {
        Card { suit, rank }
    }

    /// Suit of the card.
    pub fn suit(&self) -> (suit: Suit)
        ensures
            suit == self.suit,
    {
        self.suit
    }

    /// Rank of the card.
    pub fn rank(&self) -> (rank: Rank)
        ensures
            rank == self.rank,
    {
        self.rank
    }
}

/// The rank value round-trips through [`Rank::spec_new`].
pub proof fn lemma_rank_value_round_trip(rank: Rank)
    ensures
        1 <= rank.spec_value() <= 13,
        Rank::spec_new(rank.spec_value()) == rank,
{
}

/// The card at position `i` of the unshuffled deck: within each deck the suits
/// follow one another in their fixed order, each from the ace to the king.
pub open spec fn deck_card(i: int) -> Card {
    Card { suit: Suit::spec_from_index((i % 52) / 13), rank: Rank::spec_new(i % 13 + 1) }
}

/// The unshuffled cards of `decks` standard decks, one deck after the other.
pub open spec fn spec_standard_deck(decks: nat) -> Seq<Card> {
    Seq::new(decks * 52, |i: int| deck_card(i))
}

/// The unshuffled cards of `decks` standard decks, one deck after the other.
pub fn standard_deck(decks: usize) -> (deck: Vec<Card>)
    requires
        decks * 52 <= usize::MAX,
    ensures
        deck@ == spec_standard_deck(decks as nat),
        deck@.len() == decks * 52,
{
    let mut deck: Vec<Card> = Vec::new();
    let mut d: usize = 0;
    while d < decks
        invariant
            0 <= d <= decks,
            decks * 52 <= usize::MAX,
            deck@.len() == d * 52,
            forall|i: int| 0 <= i < deck@.len() ==> deck@[i] == deck_card(i),
        decreases decks - d,
    {
        let mut s: usize = 0;
        while s < 4
            invariant
                0 <= d < decks,
                0 <= s <= 4,
                deck@.len() == d * 52 + s * 13,
                forall|i: int| 0 <= i < deck@.len() ==> deck@[i] == deck_card(i),
            decreases 4 - s,
        {
            let suit = Suit::from_index(s);
            let mut r: u8 = 1;
            while r <= 13
                invariant
                    0 <= d < decks,
                    0 <= s < 4,
                    1 <= r <= 14,
                    suit == Suit::spec_from_index(s as int),
                    deck@.len() == d * 52 + s * 13 + (r - 1),
                    forall|i: int| 0 <= i < deck@.len() ==> deck@[i] == deck_card(i),
                decreases 14 - r,
            {
                proof {
                    let i = deck@.len() as int;
                    assert(i % 52 == s * 13 + (r - 1));
                    assert((i % 52) / 13 == s);
                    assert(i % 13 == r - 1);
                }
                deck.push(Card::new(suit, Rank::new(r)));
                r = r + 1;
            }
            s = s + 1;
        }
        d = d + 1;
    }
    proof {
        assert(deck@ =~= spec_standard_deck(decks as nat));
    }
    deck
}

/// Puts `cards` in a random order.
///
/// The body calls `rand::seq::SliceRandom::shuffle` with the generator that
/// `rand::thread_rng` returns. What is taken on trust of that call is that it
/// only rearranges: afterwards the vector holds the same cards as before, each
/// as often as before. Nothing is claimed of the order. The generator is
/// seeded by the operating system; where that fails, the call panics.
#[verifier::external_body]
pub(crate) fn shuffle(cards: &mut Vec<Card>)
    ensures
        final(cards)@.to_multiset() == old(cards)@.to_multiset(),
{
    let mut rng = rand::thread_rng();
    rand::seq::SliceRandom::shuffle(cards.as_mut_slice(), &mut rng);
}

} // verus!
