//! The stacks that the players build, one per suit and deck, and the playing
//! area that holds them.
//!
//! A stack grows outward from the seven of its suit: downward to the ace and
//! upward to the king. At any time it holds a run of consecutive ranks around
//! the seven, so the model of a non-empty stack is the pair of its lowest and
//! highest rank.

use vstd::prelude::*;
use vstd::slice::slice_to_vec;
use crate::cards::{Card, Rank, Suit};

verus! {

/// Why a card could not be placed.
#[derive(Clone, Copy, Debug, PartialEq, Eq, Structural)]
pub enum InvalidPlay {
    /// The stack already runs from the ace to the king.
    StackFull,
    /// The card is of another suit than the stack.
    SuitMismatch,
    /// The card does not continue the run at either end.
    RankMismatch,
    /// No stack of the playing area takes the card.
    CardMismatch,
}

/// What a stack shows: nothing, the seven alone, or the outermost card on the
/// side or sides that have grown.
#[derive(Clone, Copy, Debug, PartialEq, Eq, Structural)]
pub enum StackState {
    Empty,
    SevenOnly,
    LowOnly(Card),
    HighOnly(Card),
    LowAndHigh { low: Card, high: Card },
}

impl StackState {
    /// The state shown by a stack of `suit` that holds the ranks from `low` to
    /// `high`, where `1 <= low <= 7 <= high <= 13`.
    pub open spec fn spanning(suit: Suit, low: int, high: int) -> StackState {
        if low == 7 && high == 7 {
            StackState::SevenOnly
        } else if high == 7 {
            StackState::LowOnly(Card { suit, rank: Rank::spec_new(low) })
        } else if low == 7 {
            StackState::HighOnly(Card { suit, rank: Rank::spec_new(high) })
        } else {
            StackState::LowAndHigh {
                low: Card { suit, rank: Rank::spec_new(low) },
                high: Card { suit, rank: Rank::spec_new(high) },
            }
        }
    }

    /// Lowest rank of the run; 7 while nothing below the seven has been played.
    pub open spec fn low(self) -> int {
        match self {
            StackState::LowOnly(card) => card.rank.spec_value(),
            StackState::LowAndHigh { low, high } => low.rank.spec_value(),
            _ => 7,
        }
    }

    /// Highest rank of the run; 7 while nothing above the seven has been played.
    pub open spec fn high(self) -> int {
        match self {
            StackState::HighOnly(card) => card.rank.spec_value(),
            StackState::LowAndHigh { low, high } => high.rank.spec_value(),
            _ => 7,
        }
    }
}

/// The played cards of one suit from one deck.
#[derive(Clone, Copy, Debug, PartialEq, Eq, Structural)]
pub struct CardStack {
    suit: Suit,
    stack_state: StackState,
}

impl CardStack {
    /// Suit of the stack.
    pub closed spec fn spec_suit(self) -> Suit {
        self.suit
    }

    /// State of the stack.
    pub closed spec fn spec_state(self) -> StackState {
        self.stack_state
    }

    /// Lowest rank held; 7 for an empty stack.
    pub open spec fn low(self) -> int {
        self.spec_state().low()
    }

    /// Highest rank held; 7 for an empty stack.
    pub open spec fn high(self) -> int {
        self.spec_state().high()
    }

    /// Number of cards in the stack.
    pub open spec fn count(self) -> nat {
        if self.spec_state() is Empty {
            0
        } else {
            (self.high() - self.low() + 1) as nat
        }
    }

    /// The stack is empty, or shows exactly what a run around the seven of its
    /// own suit shows.
    pub open spec fn wf(self) -> bool {
        self.spec_state() is Empty || {
            &&& 1 <= self.low() <= 7 <= self.high() <= 13
            &&& self.spec_state() == StackState::spanning(self.spec_suit(), self.low(), self.high())
        }
    }

    /// The stack holds every rank of its suit.
    pub open spec fn is_full(self) -> bool {
        !(self.spec_state() is Empty) && self.low() == 1 && self.high() == 13
    }

    /// `card` may be placed on the stack: it is of the stack's suit, and it is
    /// the seven on an empty stack or the next rank below or above the run.
    pub open spec fn accepts(self, card: Card) -> bool {
        &&& card.suit == self.spec_suit()
        &&& if self.spec_state() is Empty {
            card.rank.spec_value() == 7
        } else {
            card.rank.spec_value() == self.low() - 1 || card.rank.spec_value() == self.high() + 1
        }
    }

    /// What placing `card` on the stack gives: the state after it, or the
    /// reason why the stack refuses the card.
    pub open spec fn add_outcome(self, card: Card) -> Result<StackState, InvalidPlay> {
        let rank = card.rank.spec_value();
        if card.suit != self.spec_suit() {
            Err(InvalidPlay::SuitMismatch)
        } else if self.spec_state() is Empty {
            if rank == 7 {
                Ok(StackState::SevenOnly)
            } else {
                Err(InvalidPlay::RankMismatch)
            }
        } else if rank == self.low() - 1 {
            Ok(StackState::spanning(self.spec_suit(), rank, self.high()))
        } else if rank == self.high() + 1 {
            Ok(StackState::spanning(self.spec_suit(), self.low(), rank))
        } else if self.is_full() {
            Err(InvalidPlay::StackFull)
        } else {
            Err(InvalidPlay::RankMismatch)
        }
    }

    /// The cards that the stack accepts, the lower one first.
    pub open spec fn spec_next_playable(self) -> Seq<Card> {
        let suit = self.spec_suit();
        if self.spec_state() is Empty {
            seq![Card { suit, rank: Rank::Seven }]
        } else {
            let below = if self.low() > 1 {
                seq![Card { suit, rank: Rank::spec_new(self.low() - 1) }]
            } else {
                Seq::<Card>::empty()
            };
            let above = if self.high() < 13 {
                seq![Card { suit, rank: Rank::spec_new(self.high() + 1) }]
            } else {
                Seq::<Card>::empty()
            };
            below + above
        }
    }

    /// An empty stack for `suit`.
    pub fn new(suit: Suit) -> (stack: CardStack)
        ensures
            stack.spec_suit() == suit,
            stack.spec_state() == StackState::Empty,
            stack.wf(),
    {
        CardStack { suit, stack_state: StackState::Empty }
    }

    /// A stack for `suit` that shows `stack_state`.
    fn new_with_stack_state(suit: Suit, stack_state: StackState) -> (stack: CardStack)
        ensures
            stack.spec_suit() == suit,
            stack.spec_state() == stack_state,
    {
        CardStack { suit, stack_state }
    }

    /// Suit of the stack.
    pub fn suit(&self) -> (suit: &Suit)
        ensures
            *suit == self.spec_suit(),
    {
        &self.suit
    }

    /// State of the stack.
    pub fn stack_state(&self) -> (state: &StackState)
        ensures
            *state == self.spec_state(),
    {
        &self.stack_state
    }

    /// Places `card` on the stack and returns the stack that results. The
    /// stack itself is a value and stays as it was.
    ///
    /// The card is refused with `SuitMismatch` if it is of another suit, with
    /// `StackFull` if the stack already runs from ace to king, and with
    /// `RankMismatch` if it is neither the seven on an empty stack nor the next
    /// rank at one end of the run. The run of the new stack contains the run of
    /// the old one.
    pub fn add(&self, card: Card) -> (result: Result<CardStack, InvalidPlay>)
        requires
            self.wf(),
        ensures
            result.is_ok() <==> self.accepts(card),
            match result {
                Ok(stack) => {
                    &&& self.add_outcome(card) == Ok::<StackState, InvalidPlay>(stack.spec_state())
                    &&& stack.spec_suit() == self.spec_suit()
                    &&& stack.wf()
                    &&& stack.count() == self.count() + 1
                    &&& stack.low() <= self.low()
                    &&& stack.high() >= self.high()
                },
                Err(reason) => self.add_outcome(card) == Err::<StackState, InvalidPlay>(reason),
            },
    {
        if self.suit != card.suit() {
            return Err(InvalidPlay::SuitMismatch);
        }
        let rank: u8 = card.rank().value();
        proof {
            crate::cards::lemma_rank_value_round_trip(card.rank);
        }
        match self.stack_state {
            StackState::Empty => {
                if rank == 7 {
                    Ok(CardStack::new_with_stack_state(self.suit, StackState::SevenOnly))
                } else {
                    Err(InvalidPlay::RankMismatch)
                }
            },
            StackState::SevenOnly => {
                if rank == 6 {
                    Ok(CardStack::new_with_stack_state(self.suit, StackState::LowOnly(card)))
                } else if rank == 8 {
                    Ok(CardStack::new_with_stack_state(self.suit, StackState::HighOnly(card)))
                } else {
                    Err(InvalidPlay::RankMismatch)
                }
            },
            StackState::LowOnly(stack_card) => {
                if rank == stack_card.rank().value() - 1 {
                    Ok(CardStack::new_with_stack_state(self.suit, StackState::LowOnly(card)))
                } else if rank == 8 {
                    Ok(
                        CardStack::new_with_stack_state(
                            self.suit,
                            StackState::LowAndHigh { low: stack_card, high: card },
                        ),
                    )
                } else {
                    Err(InvalidPlay::RankMismatch)
                }
            },
            StackState::HighOnly(stack_card) => {
                if rank == stack_card.rank().value() + 1 {
                    Ok(CardStack::new_with_stack_state(self.suit, StackState::HighOnly(card)))
                } else if rank == 6 {
                    Ok(
                        CardStack::new_with_stack_state(
                            self.suit,
                            StackState::LowAndHigh { low: card, high: stack_card },
                        ),
                    )
                } else {
                    Err(InvalidPlay::RankMismatch)
                }
            },
            StackState::LowAndHigh { low, high } => {
                if rank == low.rank().value() - 1 {
                    Ok(
                        CardStack::new_with_stack_state(
                            self.suit,
                            StackState::LowAndHigh { low: card, high },
                        ),
                    )
                } else if rank == high.rank().value() + 1 {
                    Ok(
                        CardStack::new_with_stack_state(
                            self.suit,
                            StackState::LowAndHigh { low, high: card },
                        ),
                    )
                } else if low.rank().value() == 1 && high.rank().value() == 13 {
                    Err(InvalidPlay::StackFull)
                } else {
                    Err(InvalidPlay::RankMismatch)
                }
            },
        }
    }

    /// The cards that the stack accepts: none for a full stack, else one or
    /// two, the lower one first.
    pub fn next_playable(&self) -> (cards: Vec<Card>)
        requires
            self.wf(),
        ensures
            cards@ == self.spec_next_playable(),
            cards@.len() <= 2,
            forall|card: Card| cards@.contains(card) <==> self.accepts(card),
    {
        let mut cards: Vec<Card> = Vec::new();
        match self.stack_state {
            StackState::Empty => {
                cards.push(Card::new(self.suit, Rank::Seven));
            },
            StackState::SevenOnly => {
                cards.push(Card::new(self.suit, Rank::Six));
                cards.push(Card::new(self.suit, Rank::Eight));
            },
            StackState::LowOnly(card) => {
                if card.rank().value() != 1 {
                    cards.push(Card::new(self.suit, Rank::new(card.rank().value() - 1)));
                }
                cards.push(Card::new(self.suit, Rank::Eight));
            },
            StackState::HighOnly(card) => {
                cards.push(Card::new(self.suit, Rank::Six));
                if card.rank().value() != 13 {
                    cards.push(Card::new(self.suit, Rank::new(card.rank().value() + 1)));
                }
            },
            StackState::LowAndHigh { low, high } => {
                if low.rank().value() != 1 {
                    cards.push(Card::new(self.suit, Rank::new(low.rank().value() - 1)));
                }
                if high.rank().value() != 13 {
                    cards.push(Card::new(self.suit, Rank::new(high.rank().value() + 1)));
                }
            },
        }
        proof {
            assert(cards@ =~= self.spec_next_playable());
            self.lemma_next_playable_accepts();
        }
        cards
    }

    /// A well-formed stack accepts exactly the cards that
    /// [`CardStack::spec_next_playable`] lists.
    pub proof fn lemma_next_playable_accepts(self)
        requires
            self.wf(),
        ensures
            forall|card: Card| self.spec_next_playable().contains(card) <==> self.accepts(card),
            self.spec_next_playable().len() <= 2,
            self.spec_next_playable().len() == 0 <==> self.is_full(),
    {
        let listed = self.spec_next_playable();
        assert forall|card: Card| listed.contains(card) <==> self.accepts(card) by {
            crate::cards::lemma_rank_value_round_trip(card.rank);
            if self.accepts(card) {
                if self.spec_state() is Empty {
                    assert(listed[0] == card);
                } else if card.rank.spec_value() == self.low() - 1 {
                    assert(listed[0] == card);
                } else {
                    assert(listed[listed.len() - 1] == card);
                }
            }
        }
    }
}

/// Number of cards in all of `stacks`.
pub open spec fn total_count(stacks: Seq<CardStack>) -> nat
    decreases stacks.len(),
{
    if stacks.len() == 0 {
        0
    } else {
        total_count(stacks.drop_last()) + stacks.last().count()
    }
}

/// Index of the first stack at or after `start` that accepts `card`; the
/// number of stacks if there is none.
pub open spec fn first_accepting_from(stacks: Seq<CardStack>, card: Card, start: int) -> int
    decreases stacks.len() - start,
{
    if 0 <= start < stacks.len() && !stacks[start].accepts(card) {
        first_accepting_from(stacks, card, start + 1)
    } else {
        start
    }
}

/// Suit of the stack at position `i` of a playing area for `decks` decks:
/// the stacks of one suit stand together, the suits in their fixed order.
pub open spec fn suit_at(decks: int, i: int) -> Suit {
    if i < decks {
        Suit::Clubs
    } else if i < 2 * decks {
        Suit::Diamonds
    } else if i < 3 * decks {
        Suit::Hearts
    } else {
        Suit::Spades
    }
}

/// Position of the first stack of the suit with index `s`.
spec fn group_start(s: int, decks: int) -> int {
    if s == 0 {
        0
    } else if s == 1 {
        decks
    } else if s == 2 {
        2 * decks
    } else {
        3 * decks
    }
}

/// The groups of stacks follow one another without a gap.
proof fn lemma_group_start(s: int, decks: int)
    requires
        0 <= s < 4,
    ensures
        s * decks == group_start(s, decks),
        (s + 1) * decks == s * decks + decks,
{
    assert((s + 1) * decks == s * decks + decks) by (nonlinear_arith);
    if s == 0 {
        assert(s * decks == 0) by (nonlinear_arith)
            requires
                s == 0,
        ;
    } else if s == 1 {
        assert(s * decks == decks) by (nonlinear_arith)
            requires
                s == 1,
        ;
    } else if s == 2 {
        assert(s * decks == 2 * decks) by (nonlinear_arith)
            requires
                s == 2,
        ;
    } else {
        assert(s * decks == 3 * decks) by (nonlinear_arith)
            requires
                s == 3,
        ;
    }
}

/// Replacing one stack changes the total by the difference of the two counts.
pub proof fn lemma_total_count_update(stacks: Seq<CardStack>, k: int, stack: CardStack)
    requires
        0 <= k < stacks.len(),
    ensures
        total_count(stacks.update(k, stack)) + stacks[k].count() == total_count(stacks)
            + stack.count(),
    decreases stacks.len(),
{
    let updated = stacks.update(k, stack);
    if k == stacks.len() - 1 {
        assert(updated.drop_last() =~= stacks.drop_last());
    } else {
        assert(updated.drop_last() =~= stacks.drop_last().update(k, stack));
        lemma_total_count_update(stacks.drop_last(), k, stack);
    }
}

/// Stacks that are all empty hold no card.
pub proof fn lemma_total_count_empty(stacks: Seq<CardStack>)
    requires
        forall|i: int| 0 <= i < stacks.len() ==> stacks[i].spec_state() is Empty,
    ensures
        total_count(stacks) == 0,
    decreases stacks.len(),
{
    if stacks.len() > 0 {
        lemma_total_count_empty(stacks.drop_last());
    }
}

/// [`first_accepting_from`] returns the least index from `start` on whose
/// stack accepts the card.
pub proof fn lemma_first_accepting(stacks: Seq<CardStack>, card: Card, start: int)
    requires
        0 <= start <= stacks.len(),
    ensures
        start <= first_accepting_from(stacks, card, start) <= stacks.len(),
        first_accepting_from(stacks, card, start) < stacks.len() ==> stacks[first_accepting_from(
            stacks,
            card,
            start,
        )].accepts(card),
        forall|j: int|
            start <= j < first_accepting_from(stacks, card, start) ==> !stacks[j].accepts(card),
    decreases stacks.len() - start,
{
    if start < stacks.len() && !stacks[start].accepts(card) {
        lemma_first_accepting(stacks, card, start + 1);
    }
}

/// The played cards of a game: one stack per suit and deck.
#[derive(Debug)]
pub struct PlayingArea {
    card_stacks: Vec<CardStack>,
}

impl View for PlayingArea {
    type V = Seq<CardStack>;

    closed spec fn view(&self) -> Seq<CardStack> {
        self.card_stacks@
    }
}

impl Clone for PlayingArea {
    fn clone(&self) -> (area: PlayingArea)
        ensures
            area@ == self@,
    {
        let card_stacks = slice_to_vec(self.card_stacks.as_slice());
        PlayingArea { card_stacks }
    }
}

impl PlayingArea {
    /// Every stack is well formed.
    pub open spec fn wf(self) -> bool {
        forall|i: int| 0 <= i < self@.len() ==> (#[trigger] self@[i]).wf()
    }

    /// The area holds four groups of `decks` stacks, one group per suit.
    pub open spec fn laid_out_for(self, decks: int) -> bool {
        &&& self@.len() == 4 * decks
        &&& forall|i: int|
            0 <= i < self@.len() ==> (#[trigger] self@[i]).spec_suit() == suit_at(decks, i)
    }

    /// No card has been played yet.
    pub open spec fn spec_is_empty(self) -> bool {
        forall|i: int| 0 <= i < self@.len() ==> (#[trigger] self@[i]).spec_state() is Empty
    }

    /// Some stack accepts `card`.
    pub open spec fn accepts(self, card: Card) -> bool {
        exists|i: int| 0 <= i < self@.len() && (#[trigger] self@[i]).accepts(card)
    }

    /// Index of the first stack that accepts `card`; the number of stacks if
    /// none does.
    pub open spec fn first_accepting(self, card: Card) -> int {
        first_accepting_from(self@, card, 0)
    }

    /// Number of cards that have been played.
    pub open spec fn card_count(self) -> nat {
        total_count(self@)
    }

    /// `self` has the stacks of `before`, none of them with a bound that lies
    /// further in: no low is higher and no high is lower than it was.
    pub open spec fn extends(self, before: PlayingArea) -> bool {
        &&& self@.len() == before@.len()
        &&& forall|j: int|
            0 <= j < before@.len() ==> {
                &&& (#[trigger] self@[j]).spec_suit() == before@[j].spec_suit()
                &&& self@[j].low() <= before@[j].low()
                &&& self@[j].high() >= before@[j].high()
            }
    }

    /// `self` is what `before` becomes when `card` is played on it: the first
    /// stack of `before` that accepts the card has taken it, and every other
    /// stack is as it was.
    pub open spec fn is_play_of(self, before: PlayingArea, card: Card) -> bool {
        let k = before.first_accepting(card);
        &&& self@.len() == before@.len()
        &&& 0 <= k < before@.len()
        &&& before@[k].add_outcome(card) == Ok::<StackState, InvalidPlay>(self@[k].spec_state())
        &&& self@[k].spec_suit() == before@[k].spec_suit()
        &&& forall|j: int| 0 <= j < before@.len() && j != k ==> self@[j] == before@[j]
    }

    /// An empty playing area for `decks` standard decks: for each suit in turn,
    /// `decks` empty stacks.
    pub fn with_deck_capacity(decks: usize) -> (area: PlayingArea)
        requires
            4 * decks <= usize::MAX,
        ensures
            area.wf(),
            area.laid_out_for(decks as int),
            area.spec_is_empty(),
            area.card_count() == 0,
    {
        let mut card_stacks: Vec<CardStack> = Vec::new();
        let suits = Suit::all_suits();
        let mut s: usize = 0;
        while s < 4
            invariant
                0 <= s <= 4,
                4 * decks <= usize::MAX,
                card_stacks@.len() == s * decks,
                forall|i: int| 0 <= i < 4 ==> suits@[i] == Suit::spec_from_index(i),
                forall|i: int|
                    0 <= i < card_stacks@.len() ==> {
                        &&& (#[trigger] card_stacks@[i]).spec_suit() == suit_at(decks as int, i)
                        &&& card_stacks@[i].spec_state() is Empty
                    },
            decreases 4 - s,
        {
            let suit = suits[s];
            let mut d: usize = 0;
            proof {
                lemma_group_start(s as int, decks as int);
            }
            while d < decks
                invariant
                    0 <= s < 4,
                    0 <= d <= decks,
                    4 * decks <= usize::MAX,
                    suit == Suit::spec_from_index(s as int),
                    card_stacks@.len() == s * decks + d,
                    s * decks == group_start(s as int, decks as int),
                    (s + 1) * decks == s * decks + decks,
                    forall|i: int|
                        0 <= i < card_stacks@.len() ==> {
                            &&& (#[trigger] card_stacks@[i]).spec_suit() == suit_at(
                                decks as int,
                                i,
                            )
                            &&& card_stacks@[i].spec_state() is Empty
                        },
                decreases decks - d,
            {
                card_stacks.push(CardStack::new(suit));
                d = d + 1;
            }
            s = s + 1;
        }
        let area = PlayingArea { card_stacks };
        proof {
            lemma_total_count_empty(area@);
        }
        area
    }

    /// Places `card` on the first stack that accepts it.
    ///
    /// Fails with `CardMismatch`, and changes nothing, if no stack accepts the
    /// card. Otherwise exactly that one stack changes: it gains the card, so
    /// its run grows by one rank and no bound of any stack moves inward.
    pub fn try_play(&mut self, card: Card) -> (result: Result<(), InvalidPlay>)
        requires
            old(self).wf(),
        ensures
            final(self).wf(),
            final(self).extends(*old(self)),
            result.is_ok() <==> old(self).accepts(card),
            match result {
                Ok(()) => {
                    &&& final(self).is_play_of(*old(self), card)
                    &&& final(self).card_count() == old(self).card_count() + 1
                    &&& !final(self).spec_is_empty()
                },
                Err(reason) => reason == InvalidPlay::CardMismatch && *final(self) == *old(self),
            },
    {
        let n: usize = self.card_stacks.len();
        let mut i: usize = 0;
        while i < n
            invariant
                0 <= i <= n,
                n == self.card_stacks@.len(),
                *self == *old(self),
                self.wf(),
                forall|j: int| 0 <= j < i ==> !(#[trigger] self@[j]).accepts(card),
                first_accepting_from(self@, card, 0) == first_accepting_from(self@, card, i as int),
            decreases n - i,
        {
            match self.card_stacks[i].add(card) {
                Ok(new_stack) => {
                    proof {
                        lemma_total_count_update(self@, i as int, new_stack);
                        assert(self@[i as int].accepts(card));
                    }
                    self.card_stacks.set(i, new_stack);
                    proof {
                        assert(!(final(self)@[i as int].spec_state() is Empty));
                    }
                    return Ok(());
                },
                Err(_) => {},
            }
            i = i + 1;
        }
        Err(InvalidPlay::CardMismatch)
    }

    /// Whether no card has been played yet.
    pub fn is_empty(&self) -> (empty: bool)
        ensures
            empty == self.spec_is_empty(),
    {
        let n: usize = self.card_stacks.len();
        let mut i: usize = 0;
        while i < n
            invariant
                0 <= i <= n,
                n == self.card_stacks@.len(),
                forall|j: int| 0 <= j < i ==> (#[trigger] self@[j]).spec_state() is Empty,
            decreases n - i,
        {
            match self.card_stacks[i].stack_state() {
                StackState::Empty => {},
                _ => {
                    return false;
                },
            }
            i = i + 1;
        }
        true
    }

    /// The stacks, in the order in which cards are tried on them.
    pub fn stacks(&self) -> (stacks: &[CardStack])
        ensures
            stacks@ == self@,
    {
        self.card_stacks.as_slice()
    }
}

/// Over any number of plays no bound of a stack moves inward: a playing area
/// extends itself, and what extends an area that extends a third extends the
/// third.
pub proof fn lemma_extends_chain(first: PlayingArea, second: PlayingArea, third: PlayingArea)
    requires
        second.extends(first),
        third.extends(second),
    ensures
        first.extends(first),
        third.extends(first),
{
    assert forall|j: int| 0 <= j < first@.len() implies {
        &&& (#[trigger] third@[j]).spec_suit() == first@[j].spec_suit()
        &&& third@[j].low() <= first@[j].low()
        &&& third@[j].high() >= first@[j].high()
    } by {
        assert(second@[j].low() <= first@[j].low());
        assert(third@[j].low() <= second@[j].low());
    }
}

} // verus!
