//! The game: who holds which cards, what lies on the table, whose turn it is
//! and which moves that player may make.
//!
//! A game starts before play. Dealing hands every card of the decks to the
//! players and opens play with player 0. The players then move in turn, each
//! move a card played or a pass, until a move leaves the mover without cards,
//! or finds the next player without any: the mover has won and the game is
//! over.

use vstd::prelude::*;
use vstd::slice::{slice_subrange, slice_to_vec};
use crate::cards::{shuffle, spec_standard_deck, standard_deck, Card, Rank, Suit};
use crate::players::{contains_card, first_position, Player};
use crate::stacks::PlayingArea;

verus! {

/// An event that may advance a game.
#[derive(Clone, Copy, Debug, PartialEq, Eq, Hash, Structural)]
pub enum Transition {
    /// Deal the cards and open play.
    DealCards,
    /// `player` plays `card`.
    Play { player: usize, card: Card },
    /// `player` passes.
    Pass { player: usize },
}

/// The attempted transition is not valid in the current state of the game.
#[derive(Clone, Copy, Debug, PartialEq, Eq, Structural)]
pub struct InvalidTransition;

/// The state of a game as contracts speak of it.
pub enum StateView {
    /// The cards have not been dealt.
    PrePlay,
    /// It is `player`'s turn, who may make any one of `valid_actions`.
    InPlay { player: usize, valid_actions: Set<Transition> },
    /// `winner` has won.
    Over { winner: usize },
}

/// The only card that may open play while the opening rule is in force.
pub open spec fn spec_opening_card() -> Card {
    Card { suit: Suit::Hearts, rank: Rank::Seven }
}

/// The only card that may open play while the opening rule is in force: the
/// seven of hearts.
pub fn opening_card() -> (card: Card)
    ensures
        card == spec_opening_card(),
{
    Card::new(Suit::Hearts, Rank::Seven)
}

/// Number of cards that player `i` of `players` is dealt out of `cards`: all
/// get the same number, but for one more for each of the first players until
/// the remainder is used up.
pub open spec fn share(cards: int, players: int, i: int) -> int {
    cards / players + if i < cards % players {
        1int
    } else {
        0int
    }
}

/// Number of cards dealt to the players before player `i`.
pub open spec fn share_start(cards: int, players: int, i: int) -> int
    decreases i,
{
    if i <= 0 {
        0
    } else {
        share_start(cards, players, i - 1) + share(cards, players, i - 1)
    }
}

/// The hands that dealing `deck` to `players` players gives: each player in
/// turn takes the next cards off the top, as many as are that player's share.
pub open spec fn dealt_hands(deck: Seq<Card>, players: int) -> Seq<Seq<Card>> {
    Seq::new(
        players as nat,
        |i: int|
            deck.subrange(
                share_start(deck.len() as int, players, i),
                share_start(deck.len() as int, players, i + 1),
            ),
    )
}

/// Number of cards in all of `hands`.
pub open spec fn hand_total(hands: Seq<Seq<Card>>) -> nat
    decreases hands.len(),
{
    if hands.len() == 0 {
        0
    } else {
        hand_total(hands.drop_last()) + hands.last().len()
    }
}

/// The holder of `hand` may play `card` on `area`: the card is in the hand,
/// some stack accepts it, and, where the opening rule is in force and nothing
/// has been played yet, it is the opening card.
pub open spec fn can_play(area: PlayingArea, hand: Seq<Card>, opening_rule: bool, card: Card)
    -> bool {
    &&& hand.contains(card)
    &&& area.accepts(card)
    &&& (opening_rule && area.spec_is_empty()) ==> card == spec_opening_card()
}

/// The holder of `hand` has a card to play.
pub open spec fn has_play(area: PlayingArea, hand: Seq<Card>, opening_rule: bool) -> bool {
    exists|card: Card| can_play(area, hand, opening_rule, card)
}

/// `action` is a legal move for `player`, who holds `hand`: a play of a card
/// that the player may play or, only where there is no such card, a pass.
pub open spec fn is_valid_action(
    area: PlayingArea,
    hand: Seq<Card>,
    opening_rule: bool,
    player: usize,
    action: Transition,
) -> bool {
    match action {
        Transition::DealCards => false,
        Transition::Play { player: mover, card } => mover == player && can_play(
            area,
            hand,
            opening_rule,
            card,
        ),
        Transition::Pass { player: mover } => mover == player && !has_play(
            area,
            hand,
            opening_rule,
        ),
    }
}

/// The legal moves of `player`, who holds `hand`.
pub open spec fn valid_actions_for(
    area: PlayingArea,
    hand: Seq<Card>,
    opening_rule: bool,
    player: usize,
) -> Set<Transition> {
    Set::new(|action: Transition| is_valid_action(area, hand, opening_rule, player, action))
}

/// `action` is a play by `player` of a card out of `tried` that the holder of
/// `hand` may play.
spec fn is_play_among(
    action: Transition,
    area: PlayingArea,
    hand: Seq<Card>,
    opening_rule: bool,
    player: usize,
    tried: Seq<Card>,
) -> bool {
    match action {
        Transition::Play { player: mover, card } => {
            &&& mover == player
            &&& tried.contains(card)
            &&& can_play(area, hand, opening_rule, card)
        },
        _ => false,
    }
}

/// A player always has a legal move: a card to play, or else the pass.
pub proof fn lemma_valid_actions_nonempty(
    area: PlayingArea,
    hand: Seq<Card>,
    opening_rule: bool,
    player: usize,
)
    ensures
        exists|action: Transition|
            valid_actions_for(area, hand, opening_rule, player).contains(action),
{
    let actions = valid_actions_for(area, hand, opening_rule, player);
    if has_play(area, hand, opening_rule) {
        let card = choose|card: Card| can_play(area, hand, opening_rule, card);
        assert(actions.contains(Transition::Play { player, card }));
    } else {
        assert(actions.contains(Transition::Pass { player }));
    }
}

/// The shares up to player `i` add up to `i` times the common part plus one
/// card for each of those players who gets one of the remainder.
pub proof fn lemma_share_start(cards: int, players: int, i: int)
    requires
        cards >= 0,
        players >= 1,
        0 <= i <= players,
    ensures
        share_start(cards, players, i) == i * (cards / players) + if i < cards % players {
            i
        } else {
            cards % players
        },
        0 <= share_start(cards, players, i) <= cards,
        i < players ==> share_start(cards, players, i + 1) == share_start(cards, players, i)
            + share(cards, players, i),
        i < players ==> share_start(cards, players, i + 1) <= cards,
        i == players ==> share_start(cards, players, i) == cards,
    decreases i,
{
    let q = cards / players;
    let r = cards % players;
    vstd::arithmetic::div_mod::lemma_fundamental_div_mod(cards, players);
    assert(cards == players * q + r);
    assert(0 <= r < players);
    assert(q >= 0) by (nonlinear_arith)
        requires
            cards == players * q + r,
            0 <= r < players,
            cards >= 0,
            players >= 1,
    ;
    if i > 0 {
        lemma_share_start(cards, players, i - 1);
        assert(i * q == (i - 1) * q + q) by (nonlinear_arith);
    } else {
        assert(i * q == 0) by (nonlinear_arith)
            requires
                i == 0,
        ;
    }
    let total = i * q + if i < r {
        i
    } else {
        r
    };
    assert(share_start(cards, players, i) == total);
    assert(i * q <= players * q) by (nonlinear_arith)
        requires
            0 <= i <= players,
            q >= 0,
    ;
    if i < players {
        assert((i + 1) * q == i * q + q) by (nonlinear_arith);
        assert(share_start(cards, players, i + 1) == share_start(cards, players, i) + share(
            cards,
            players,
            i,
        ));
        assert((i + 1) * q <= players * q) by (nonlinear_arith)
            requires
                0 <= i + 1 <= players,
                q >= 0,
        ;
    }
}

/// Each player is dealt that player's share, and no two shares differ by more
/// than one card.
pub proof fn lemma_dealt_hand_sizes(deck: Seq<Card>, players: int, i: int, j: int)
    requires
        players >= 1,
        0 <= i < players,
        0 <= j < players,
    ensures
        dealt_hands(deck, players)[i].len() == share(deck.len() as int, players, i),
        share(deck.len() as int, players, i) - share(deck.len() as int, players, j) <= 1,
{
    lemma_share_start(deck.len() as int, players, i);
}

/// Dealing hands out every card of the deck: the hands together hold as many
/// cards as the deck.
pub proof fn lemma_dealt_total(deck: Seq<Card>, players: int)
    requires
        players >= 1,
    ensures
        hand_total(dealt_hands(deck, players)) == deck.len(),
{
    let hands = dealt_hands(deck, players);
    lemma_dealt_prefix_total(deck, players, players);
    assert(hands.subrange(0, players) =~= hands);
    lemma_share_start(deck.len() as int, players, players);
}

/// The first `k` hands of a deal hold the cards before the share of player `k`.
proof fn lemma_dealt_prefix_total(deck: Seq<Card>, players: int, k: int)
    requires
        players >= 1,
        0 <= k <= players,
    ensures
        hand_total(dealt_hands(deck, players).subrange(0, k)) == share_start(
            deck.len() as int,
            players,
            k,
        ),
    decreases k,
{
    let hands = dealt_hands(deck, players);
    let prefix = hands.subrange(0, k);
    if k > 0 {
        lemma_dealt_prefix_total(deck, players, k - 1);
        lemma_share_start(deck.len() as int, players, k - 1);
        assert(prefix.drop_last() =~= hands.subrange(0, k - 1));
        assert(prefix.last() == hands[k - 1]);
    }
}

/// Dealing hands the deck out as it lies: the hands, laid end to end in the
/// order of the players, are the deck.
pub proof fn lemma_dealt_hands_are_the_deck(deck: Seq<Card>, players: int)
    requires
        players >= 1,
    ensures
        dealt_hands(deck, players).flatten() == deck,
{
    let hands = dealt_hands(deck, players);
    lemma_dealt_prefix_is_deck_prefix(deck, players, players);
    lemma_share_start(deck.len() as int, players, players);
    assert(hands.subrange(0, players) =~= hands);
    assert(deck.subrange(0, deck.len() as int) =~= deck);
}

/// The first `k` hands of a deal, laid end to end, are the cards of the deck
/// before the share of player `k`.
proof fn lemma_dealt_prefix_is_deck_prefix(deck: Seq<Card>, players: int, k: int)
    requires
        players >= 1,
        0 <= k <= players,
    ensures
        dealt_hands(deck, players).subrange(0, k).flatten() == deck.subrange(
            0,
            share_start(deck.len() as int, players, k),
        ),
    decreases k,
{
    let hands = dealt_hands(deck, players);
    let prefix = hands.subrange(0, k);
    lemma_share_start(deck.len() as int, players, k);
    if k == 0 {
        assert(prefix.flatten() =~= deck.subrange(0, 0));
    } else {
        let earlier = hands.subrange(0, k - 1);
        let from = share_start(deck.len() as int, players, k - 1);
        let to = share_start(deck.len() as int, players, k);
        lemma_dealt_prefix_is_deck_prefix(deck, players, k - 1);
        lemma_share_start(deck.len() as int, players, k - 1);
        assert(prefix =~= earlier.push(hands[k - 1]));
        earlier.lemma_flatten_push(hands[k - 1]);
        assert(deck.subrange(0, from) + deck.subrange(from, to) =~= deck.subrange(0, to));
    }
}

/// Replacing one hand changes the total by the difference of the two sizes.
pub proof fn lemma_hand_total_update(hands: Seq<Seq<Card>>, i: int, hand: Seq<Card>)
    requires
        0 <= i < hands.len(),
    ensures
        hand_total(hands.update(i, hand)) + hands[i].len() == hand_total(hands) + hand.len(),
    decreases hands.len(),
{
    let updated = hands.update(i, hand);
    if i == hands.len() - 1 {
        assert(updated.drop_last() =~= hands.drop_last());
    } else {
        assert(updated.drop_last() =~= hands.drop_last().update(i, hand));
        lemma_hand_total_update(hands.drop_last(), i, hand);
    }
}

/// Hands that are all empty hold no card.
pub proof fn lemma_hand_total_empty(hands: Seq<Seq<Card>>)
    requires
        forall|i: int| 0 <= i < hands.len() ==> (#[trigger] hands[i]).len() == 0,
    ensures
        hand_total(hands) == 0,
    decreases hands.len(),
{
    if hands.len() > 0 {
        lemma_hand_total_empty(hands.drop_last());
    }
}

/// Whether `action` occurs in `actions`.
pub fn contains_transition(actions: &Vec<Transition>, action: &Transition) -> (found: bool)
    ensures
        found == actions@.contains(*action),
{
    let n: usize = actions.len();
    let mut i: usize = 0;
    while i < n
        invariant
            0 <= i <= n,
            n == actions@.len(),
            forall|j: int| 0 <= j < i ==> actions@[j] != *action,
        decreases n - i,
    {
        if actions[i] == *action {
            return true;
        }
        i = i + 1;
    }
    false
}

/// `deck` holds the cards of `decks` standard decks, in whatever order.
pub open spec fn is_shuffled_deck(deck: Seq<Card>, decks: nat) -> bool {
    deck.to_multiset() == spec_standard_deck(decks).to_multiset()
}

/// The state of a game as the game itself holds it.
#[derive(Debug)]
enum GameState {
    PrePlay,
    InPlay { player: usize, valid_actions: Vec<Transition> },
    Over { winner: usize },
}

/// A game of Badam Sat.
#[derive(Debug)]
pub struct BadamSat {
    state: GameState,
    players: Vec<Player>,
    playing_area: PlayingArea,
    decks: usize,
    player_count: usize,
    opening_rule: bool,
}

impl BadamSat {
    /// State of the game.
    pub closed spec fn spec_state(self) -> StateView {
        match self.state {
            GameState::PrePlay => StateView::PrePlay,
            GameState::InPlay { player, valid_actions } => StateView::InPlay {
                player,
                valid_actions: valid_actions@.to_set(),
            },
            GameState::Over { winner } => StateView::Over { winner },
        }
    }

    /// The players' hands, by player.
    pub closed spec fn spec_hands(self) -> Seq<Seq<Card>> {
        Seq::new(self.players@.len(), |i: int| self.players@[i]@)
    }

    /// The playing area.
    pub closed spec fn spec_area(self) -> PlayingArea {
        self.playing_area
    }

    /// Number of decks that the game is played with.
    pub closed spec fn spec_decks(self) -> nat {
        self.decks as nat
    }

    /// Number of players.
    pub closed spec fn spec_player_count(self) -> nat {
        self.player_count as nat
    }

    /// Whether play must open with the opening card.
    pub closed spec fn spec_opening_rule(self) -> bool {
        self.opening_rule
    }

    /// Number of cards in the game: 52 for each deck.
    pub open spec fn spec_card_total(self) -> nat {
        self.spec_decks() * 52
    }

    /// Number of cards in the hands and on the table together.
    pub open spec fn cards_in_game(self) -> nat {
        hand_total(self.spec_hands()) + self.spec_area().card_count()
    }

    /// What the game keeps to itself: every player's capacity is that player's
    /// share of the cards, and the list of legal moves names none twice.
    pub closed spec fn rep_ok(self) -> bool {
        &&& self.players@.len() == self.player_count
        &&& forall|i: int|
            0 <= i < self.players@.len() ==> (#[trigger] self.players@[i]).spec_capacity() == share(
                self.decks * 52,
                self.player_count as int,
                i,
            )
        &&& match self.state {
            GameState::InPlay { player, valid_actions } => valid_actions@.no_duplicates(),
            _ => true,
        }
    }

    /// The parts of the game fit together: there is at least one player, a
    /// hand for each, a playing area for the decks, and the player named by
    /// the state exists.
    pub open spec fn base_wf(self) -> bool {
        &&& self.rep_ok()
        &&& 1 <= self.spec_player_count() <= usize::MAX
        &&& self.spec_hands().len() == self.spec_player_count()
        &&& self.spec_card_total() <= usize::MAX
        &&& self.spec_area().wf()
        &&& self.spec_area().laid_out_for(self.spec_decks() as int)
        &&& match self.spec_state() {
            StateView::PrePlay => true,
            StateView::InPlay { player, valid_actions } => player < self.spec_player_count(),
            StateView::Over { winner } => winner < self.spec_player_count(),
        }
    }

    /// The game is in a state that play can reach.
    ///
    /// Before the deal nobody holds a card and nothing lies on the table. From
    /// the deal on, every card of the decks is in a hand or on the table; while
    /// play is on, the legal moves are exactly those of the player to move.
    pub open spec fn wf(self) -> bool {
        &&& self.base_wf()
        &&& match self.spec_state() {
            StateView::PrePlay => {
                &&& forall|i: int|
                    0 <= i < self.spec_hands().len() ==> (#[trigger] self.spec_hands()[i]).len()
                        == 0
                &&& self.spec_area().spec_is_empty()
            },
            StateView::InPlay { player, valid_actions } => {
                &&& self.cards_in_game() == self.spec_card_total()
                &&& valid_actions == valid_actions_for(
                    self.spec_area(),
                    self.spec_hands()[player as int],
                    self.spec_opening_rule(),
                    player,
                )
            },
            StateView::Over { winner } => self.cards_in_game() == self.spec_card_total(),
        }
    }

    /// A game for `players` players with `decks` decks, before the deal, in
    /// which play must open with the opening card.
    pub fn with_player_and_deck_capacity(players: usize, decks: usize) -> (game: BadamSat)
        requires
            players >= 1,
            decks * 52 <= usize::MAX,
        ensures
            game.wf(),
            game.spec_state() == StateView::PrePlay,
            game.spec_player_count() == players,
            game.spec_decks() == decks,
            game.spec_opening_rule(),
    {
        BadamSat::with_opening_rule(players, decks, true)
    }

    /// A game for `players` players with `decks` decks, before the deal.
    /// `opening_rule` says whether play must open with the opening card.
    pub fn with_opening_rule(players: usize, decks: usize, opening_rule: bool) -> (game: BadamSat)
        requires
            players >= 1,
            decks * 52 <= usize::MAX,
        ensures
            game.wf(),
            game.spec_state() == StateView::PrePlay,
            game.spec_player_count() == players,
            game.spec_decks() == decks,
            game.spec_opening_rule() == opening_rule,
    {
        let num_cards: usize = decks * 52;
        let cards_per_player: usize = num_cards / players;
        let leftover: usize = num_cards % players;
        let mut player_vec: Vec<Player> = Vec::new();
        let mut i: usize = 0;
        while i < players
            invariant
                0 <= i <= players,
                players >= 1,
                num_cards == decks * 52,
                cards_per_player == num_cards / players,
                leftover == num_cards % players,
                player_vec@.len() == i,
                forall|j: int|
                    0 <= j < i ==> {
                        &&& (#[trigger] player_vec@[j]).spec_capacity() == share(
                            num_cards as int,
                            players as int,
                            j,
                        )
                        &&& player_vec@[j]@.len() == 0
                    },
            decreases players - i,
        {
            proof {
                lemma_share_start(num_cards as int, players as int, i as int);
            }
            let capacity: usize = if i < leftover {
                cards_per_player + 1
            } else {
                cards_per_player
            };
            player_vec.push(Player::with_capacity(capacity));
            i = i + 1;
        }
        BadamSat {
            state: GameState::PrePlay,
            players: player_vec,
            playing_area: PlayingArea::with_deck_capacity(decks),
            decks,
            player_count: players,
            opening_rule,
        }
    }

    /// The winner, once the game is over.
    pub fn winner(&self) -> (winner: Option<usize>)
        ensures
            winner == match self.spec_state() {
                StateView::Over { winner } => Some(winner),
                _ => None::<usize>,
            },
    {
        match self.state {
            GameState::Over { winner } => Some(winner),
            _ => None,
        }
    }

    /// The player to move, while play is on.
    pub fn current_player(&self) -> (current: Option<usize>)
        ensures
            current == match self.spec_state() {
                StateView::InPlay { player, valid_actions } => Some(player),
                _ => None::<usize>,
            },
    {
        match self.state {
            GameState::InPlay { player, .. } => Some(player),
            _ => None,
        }
    }

    /// The playing area.
    pub fn playing_area(&self) -> (area: &PlayingArea)
        ensures
            *area == self.spec_area(),
    {
        &self.playing_area
    }

    /// The hand of `player`, if there is such a player.
    pub fn hand_of_player(&self, player: usize) -> (hand: Option<&[Card]>)
        requires
            self.base_wf(),
        ensures
            hand.is_some() <==> player < self.spec_player_count(),
            hand.is_some() ==> hand.unwrap()@ == self.spec_hands()[player as int],
    {
        if player < self.players.len() {
            Some(self.players[player].hand())
        } else {
            None
        }
    }

    /// Number of cards that `player` holds, if there is such a player.
    pub fn hand_len(&self, player: usize) -> (len: Option<usize>)
        requires
            self.base_wf(),
        ensures
            len.is_some() <==> player < self.spec_player_count(),
            len.is_some() ==> len.unwrap() == self.spec_hands()[player as int].len(),
    {
        if player < self.players.len() {
            Some(self.players[player].hand_len())
        } else {
            None
        }
    }

    /// The player whose legal moves are wanted next: player 0 before the deal,
    /// the player after the one to move while play is on.
    pub open spec fn next_mover(self) -> usize {
        match self.spec_state() {
            StateView::InPlay { player, valid_actions } => ((player + 1) % (
            self.spec_player_count() as int)) as usize,
            _ => 0,
        }
    }

    /// Whether the game goes on from here: it does before the deal, and while
    /// play is on unless the player to move or the player after that one
    /// holds no card.
    pub open spec fn goes_on(self) -> bool {
        match self.spec_state() {
            StateView::PrePlay => true,
            StateView::InPlay { player, valid_actions } => {
                &&& self.spec_hands()[player as int].len() != 0
                &&& self.spec_hands()[self.next_mover() as int].len() != 0
            },
            StateView::Over { winner } => false,
        }
    }

    /// The legal moves of the next player to move, or `None` if the game does
    /// not go on.
    ///
    /// The moves are the plays of those cards in the player's hand that some
    /// stack accepts (while nothing has been played and the opening rule is in
    /// force, of the opening card at most), each named once. If there is no such
    /// card, the pass is the only move.
    pub fn find_valid_actions(&self) -> (found: Option<Vec<Transition>>)
        requires
            self.base_wf(),
        ensures
            found.is_some() <==> self.goes_on(),
            found.is_some() ==> {
                &&& found.unwrap()@.no_duplicates()
                &&& found.unwrap()@.len() > 0
                &&& found.unwrap()@.to_set() == valid_actions_for(
                    self.spec_area(),
                    self.spec_hands()[self.next_mover() as int],
                    self.spec_opening_rule(),
                    self.next_mover(),
                )
            },
    {
        let player_idx: usize = match self.state {
            GameState::PrePlay => 0,
            GameState::InPlay { player, .. } => {
                if self.players[player].hand_len() == 0 {
                    return None;
                }
                let next: usize = (player + 1) % self.players.len();
                if self.players[next].hand_len() == 0 {
                    return None;
                }
                next
            },
            GameState::Over { .. } => {
                return None;
            },
        };
        let ghost area = self.playing_area;
        let ghost hand = self.players@[player_idx as int]@;
        let ghost rule = self.opening_rule;
        // The cards that some stack accepts.
        let stacks = self.playing_area.stacks();
        let mut valid_cards: Vec<Card> = Vec::new();
        let mut s: usize = 0;
        while s < stacks.len()
            invariant
                0 <= s <= stacks@.len(),
                stacks@ == area@,
                area.wf(),
                forall|card: Card|
                    valid_cards@.contains(card) <==> exists|j: int|
                        0 <= j < s && (#[trigger] area@[j]).accepts(card),
            decreases stacks@.len() - s,
        {
            let next = stacks[s].next_playable();
            let ghost before = valid_cards@;
            let mut k: usize = 0;
            while k < next.len()
                invariant
                    0 <= k <= next@.len(),
                    0 <= s < stacks@.len(),
                    valid_cards@ == before + next@.subrange(0, k as int),
                decreases next@.len() - k,
            {
                valid_cards.push(next[k]);
                proof {
                    assert(valid_cards@ =~= before + next@.subrange(0, k + 1));
                }
                k = k + 1;
            }
            proof {
                assert(next@.subrange(0, next@.len() as int) =~= next@);
                assert forall|card: Card|
                    valid_cards@.contains(card) <==> exists|j: int|
                        0 <= j < s + 1 && (#[trigger] area@[j]).accepts(card) by {
                    if valid_cards@.contains(card) {
                        let i = choose|i: int| 0 <= i < valid_cards@.len() && valid_cards@[i] == card;
                        if i < before.len() {
                            assert(before[i] == card);
                            assert(before.contains(card));
                        } else {
                            assert(next@[i - before.len()] == card);
                            assert(next@.contains(card));
                            assert(area@[s as int].accepts(card));
                        }
                    }
                    if exists|j: int| 0 <= j < s + 1 && (#[trigger] area@[j]).accepts(card) {
                        let j = choose|j: int| 0 <= j < s + 1 && (#[trigger] area@[j]).accepts(card);
                        if j < s {
                            assert(before.contains(card));
                            let i = choose|i: int| 0 <= i < before.len() && before[i] == card;
                            assert(valid_cards@[i] == card);
                        } else {
                            assert(next@.contains(card));
                            let i = choose|i: int| 0 <= i < next@.len() && next@[i] == card;
                            assert(valid_cards@[before.len() + i] == card);
                        }
                    }
                }
            }
            s = s + 1;
        }
        proof {
            assert forall|card: Card| valid_cards@.contains(card) <==> area.accepts(card) by {
                if area.accepts(card) {
                    let j = choose|j: int| 0 <= j < area@.len() && (#[trigger] area@[j]).accepts(card);
                    assert(0 <= j < s && area@[j].accepts(card));
                }
            }
        }
        // Of these, the cards that the player holds and may play now.
        let player_cards = self.players[player_idx].unique_cards_in_hand();
        let opening_only: bool = self.opening_rule && self.playing_area.is_empty();
        let opening = opening_card();
        let mut actions: Vec<Transition> = Vec::new();
        let mut c: usize = 0;
        while c < player_cards.len()
            invariant
                0 <= c <= player_cards@.len(),
                player_cards@.no_duplicates(),
                forall|card: Card| player_cards@.contains(card) <==> hand.contains(card),
                forall|card: Card| valid_cards@.contains(card) <==> area.accepts(card),
                opening_only == (rule && area.spec_is_empty()),
                opening == spec_opening_card(),
                forall|i: int|
                    0 <= i < actions@.len() ==> is_play_among(
                        #[trigger] actions@[i],
                        area,
                        hand,
                        rule,
                        player_idx,
                        player_cards@.subrange(0, c as int),
                    ),
                forall|m: int|
                    0 <= m < c && can_play(area, hand, rule, #[trigger] player_cards@[m])
                        ==> actions@.contains(
                        Transition::Play { player: player_idx, card: player_cards@[m] },
                    ),
                actions@.no_duplicates(),
            decreases player_cards@.len() - c,
        {
            let card = player_cards[c];
            let ghost earlier = actions@;
            let ghost tried = player_cards@.subrange(0, c as int);
            let ghost tried_next = player_cards@.subrange(0, c + 1);
            proof {
                assert(player_cards@.contains(card));
                assert forall|other: Card| tried.contains(other) implies tried_next.contains(
                    other,
                ) by {
                    let m = choose|m: int| 0 <= m < tried.len() && tried[m] == other;
                    assert(tried_next[m] == other);
                }
                assert(tried_next[c as int] == card);
                if tried.contains(card) {
                    let m = choose|m: int| 0 <= m < tried.len() && tried[m] == card;
                    assert(player_cards@[m] == player_cards@[c as int]);
                }
            }
            if contains_card(&valid_cards, &card) && (!opening_only || card == opening) {
                let action = Transition::Play { player: player_idx, card };
                actions.push(action);
                proof {
                    assert forall|m: int|
                        0 <= m < c + 1 && can_play(
                            area,
                            hand,
                            rule,
                            #[trigger] player_cards@[m],
                        ) implies actions@.contains(
                        Transition::Play { player: player_idx, card: player_cards@[m] },
                    ) by {
                        if m < c {
                            let wanted = Transition::Play {
                                player: player_idx,
                                card: player_cards@[m],
                            };
                            assert(earlier.contains(wanted));
                            let i = choose|i: int| 0 <= i < earlier.len() && earlier[i] == wanted;
                            assert(actions@[i] == wanted);
                        } else {
                            assert(actions@[earlier.len() as int] == action);
                        }
                    }
                    assert forall|i: int| 0 <= i < actions@.len() implies is_play_among(
                        #[trigger] actions@[i],
                        area,
                        hand,
                        rule,
                        player_idx,
                        tried_next,
                    ) by {
                        if i < earlier.len() {
                            assert(actions@[i] == earlier[i]);
                        }
                    }
                }
            } else {
                proof {
                    assert(!can_play(area, hand, rule, card));
                    assert forall|i: int| 0 <= i < actions@.len() implies is_play_among(
                        #[trigger] actions@[i],
                        area,
                        hand,
                        rule,
                        player_idx,
                        tried_next,
                    ) by {
                        assert(actions@[i] == earlier[i]);
                    }
                }
            }
            c = c + 1;
        }
        let ghost wanted = valid_actions_for(area, hand, rule, player_idx);
        if actions.len() == 0 {
            proof {
                if has_play(area, hand, rule) {
                    let card = choose|card: Card| can_play(area, hand, rule, card);
                    assert(player_cards@.contains(card));
                    let m = choose|m: int| 0 <= m < player_cards@.len() && player_cards@[m] == card;
                    assert(actions@.contains(Transition::Play { player: player_idx, card }));
                }
            }
            actions.push(Transition::Pass { player: player_idx });
            proof {
                assert forall|action: Transition| actions@.to_set().contains(action)
                    <==> wanted.contains(action) by {
                    if actions@.contains(action) {
                        assert(action == actions@[0]);
                    }
                    if wanted.contains(action) {
                        assert(actions@[0] == action);
                    }
                }
                assert(actions@.to_set() =~= wanted);
            }
        } else {
            proof {
                assert(is_play_among(
                    actions@[0],
                    area,
                    hand,
                    rule,
                    player_idx,
                    player_cards@.subrange(0, c as int),
                ));
                assert(has_play(area, hand, rule));
                assert forall|action: Transition| actions@.to_set().contains(action)
                    <==> wanted.contains(action) by {
                    if actions@.contains(action) {
                        let i = choose|i: int| 0 <= i < actions@.len() && actions@[i] == action;
                        assert(is_play_among(
                            actions@[i],
                            area,
                            hand,
                            rule,
                            player_idx,
                            player_cards@.subrange(0, c as int),
                        ));
                    }
                    if wanted.contains(action) {
                        match action {
                            Transition::Play { player: mover, card } => {
                                assert(player_cards@.contains(card));
                                let m = choose|m: int|
                                    0 <= m < player_cards@.len() && player_cards@[m] == card;
                                assert(actions@.contains(
                                    Transition::Play { player: player_idx, card: player_cards@[m] },
                                ));
                            },
                            _ => {},
                        }
                    }
                }
                assert(actions@.to_set() =~= wanted);
            }
        }
        Some(actions)
    }

    /// Hands `deck` out: each player in turn takes the next cards off the top,
    /// as many as are that player's share.
    fn assign_hands(&mut self, deck: &Vec<Card>)
        requires
            old(self).base_wf(),
            old(self).spec_state() == StateView::PrePlay,
            forall|i: int|
                0 <= i < old(self).spec_hands().len() ==> (#[trigger] old(self).spec_hands()[i]).len()
                    == 0,
            deck@.len() == old(self).spec_card_total(),
        ensures
            final(self).base_wf(),
            final(self).spec_state() == StateView::PrePlay,
            final(self).spec_hands() == dealt_hands(deck@, old(self).spec_player_count() as int),
            final(self).spec_area() == old(self).spec_area(),
            final(self).spec_decks() == old(self).spec_decks(),
            final(self).spec_player_count() == old(self).spec_player_count(),
            final(self).spec_opening_rule() == old(self).spec_opening_rule(),
    {
        let num_cards: usize = self.decks * 52;
        let cards_per_player: usize = num_cards / self.player_count;
        let leftover: usize = num_cards % self.player_count;
        let mut cards_taken: usize = 0;
        let mut idx: usize = 0;
        proof {
            assert forall|j: int| 0 <= j < self.players@.len() implies (
            #[trigger] self.players@[j])@.len() == 0 by {
                assert(self.spec_hands()[j] == self.players@[j]@);
            }
        }
        while idx < self.players.len()
            invariant
                0 <= idx <= self.players@.len(),
                self.base_wf(),
                self.state == old(self).state,
                self.playing_area == old(self).playing_area,
                self.decks == old(self).decks,
                self.player_count == old(self).player_count,
                self.opening_rule == old(self).opening_rule,
                num_cards == self.decks * 52,
                num_cards == deck@.len(),
                cards_per_player == num_cards / self.player_count,
                leftover == num_cards % self.player_count,
                cards_taken == share_start(num_cards as int, self.player_count as int, idx as int),
                forall|j: int|
                    0 <= j < idx ==> (#[trigger] self.players@[j])@ == deck@.subrange(
                        share_start(num_cards as int, self.player_count as int, j),
                        share_start(num_cards as int, self.player_count as int, j + 1),
                    ),
                forall|j: int| idx <= j < self.players@.len() ==> (#[trigger] self.players@[j])@.len() == 0,
            decreases self.players@.len() - idx,
        {
            proof {
                lemma_share_start(num_cards as int, self.player_count as int, idx as int);
            }
            let cards_to_take: usize = if idx < leftover {
                cards_per_player + 1
            } else {
                cards_per_player
            };
            let hand = slice_to_vec(
                slice_subrange(deck.as_slice(), cards_taken, cards_taken + cards_to_take),
            );
            self.players[idx].assign_cards(hand);
            cards_taken = cards_taken + cards_to_take;
            idx = idx + 1;
        }
        proof {
            assert(self.spec_hands() =~= dealt_hands(deck@, self.player_count as int));
        }
    }

    /// Deals the cards: the decks are laid out, shuffled and handed out.
    fn deal(&mut self)
        requires
            old(self).wf(),
            old(self).spec_state() == StateView::PrePlay,
        ensures
            final(self).base_wf(),
            final(self).spec_state() == StateView::PrePlay,
            exists|deck: Seq<Card>|
                is_shuffled_deck(deck, old(self).spec_decks()) && #[trigger] dealt_hands(
                    deck,
                    old(self).spec_player_count() as int,
                ) == final(self).spec_hands(),
            hand_total(final(self).spec_hands()) == old(self).spec_card_total(),
            final(self).spec_area() == old(self).spec_area(),
            final(self).spec_decks() == old(self).spec_decks(),
            final(self).spec_player_count() == old(self).spec_player_count(),
            final(self).spec_opening_rule() == old(self).spec_opening_rule(),
    {
        let mut deck = standard_deck(self.decks);
        shuffle(&mut deck);
        proof {
            vstd::seq_lib::to_multiset_len(deck@);
            vstd::seq_lib::to_multiset_len(spec_standard_deck(self.decks as nat));
            lemma_dealt_total(deck@, self.player_count as int);
        }
        self.assign_hands(&deck);
    }

    /// What the state is once `mover` has moved: the game is over, won by the
    /// mover, if the mover holds no card or the player after the mover holds
    /// none; else it is the turn of that player, with that player's legal
    /// moves.
    pub open spec fn state_after_move(self, mover: usize) -> StateView {
        let next = ((mover + 1) % (self.spec_player_count() as int)) as usize;
        if self.spec_hands()[mover as int].len() == 0 || self.spec_hands()[next as int].len()
            == 0 {
            StateView::Over { winner: mover }
        } else {
            StateView::InPlay {
                player: next,
                valid_actions: valid_actions_for(
                    self.spec_area(),
                    self.spec_hands()[next as int],
                    self.spec_opening_rule(),
                    next,
                ),
            }
        }
    }

    /// The state in which play opens: player 0 is to move.
    pub open spec fn opening_state(self) -> StateView {
        StateView::InPlay {
            player: 0,
            valid_actions: valid_actions_for(
                self.spec_area(),
                self.spec_hands()[0],
                self.spec_opening_rule(),
                0,
            ),
        }
    }

    /// The game accepts `action` in its present state: the deal before play,
    /// and while play is on any legal move of the player to move. Once the
    /// game is over it accepts nothing.
    pub open spec fn accepts(self, action: Transition) -> bool {
        match self.spec_state() {
            StateView::PrePlay => action == Transition::DealCards,
            StateView::InPlay { player, valid_actions } => valid_actions.contains(action),
            StateView::Over { winner } => false,
        }
    }

    /// `self` is what `before` becomes when `deck` is dealt: the players hold
    /// their shares of the deck, nothing lies on the table, and player 0 is to
    /// move.
    pub open spec fn is_deal_of(self, before: BadamSat, deck: Seq<Card>) -> bool {
        &&& self.spec_hands() == dealt_hands(deck, before.spec_player_count() as int)
        &&& self.spec_area() == before.spec_area()
        &&& self.spec_state() == self.opening_state()
    }

    /// `self` is what `before` becomes when its decks are shuffled and dealt.
    pub open spec fn is_shuffled_deal_of(self, before: BadamSat) -> bool {
        exists|deck: Seq<Card>|
            is_shuffled_deck(deck, before.spec_decks()) && #[trigger] self.is_deal_of(before, deck)
    }

    /// `deck` can be dealt: the game is before the deal, and the deck has 52
    /// cards for each deck of the game.
    pub open spec fn can_deal(self, deck: Seq<Card>) -> bool {
        self.spec_state() == StateView::PrePlay && deck.len() == self.spec_card_total()
    }

    /// `self` is what `before` becomes when `mover` plays `card`: the card has
    /// left the mover's hand for the first stack that accepts it.
    pub open spec fn is_play_of(self, before: BadamSat, mover: usize, card: Card) -> bool {
        let hand = before.spec_hands()[mover as int];
        &&& self.spec_area().is_play_of(before.spec_area(), card)
        &&& self.spec_hands() == before.spec_hands().update(
            mover as int,
            hand.remove(first_position(hand, card)),
        )
        &&& self.spec_state() == self.state_after_move(mover)
    }

    /// `self` is what `before` becomes when `mover` passes: hands and table
    /// are as they were.
    pub open spec fn is_pass_of(self, before: BadamSat, mover: usize) -> bool {
        &&& self.spec_area() == before.spec_area()
        &&& self.spec_hands() == before.spec_hands()
        &&& self.spec_state() == self.state_after_move(mover)
    }

    /// Opens play with `deck` as the shuffled cards: each player in turn takes
    /// the next cards off the top of the deck, as many as are that player's
    /// share, and player 0 is to move.
    ///
    /// Fails, and changes nothing, unless the game is before the deal and the
    /// deck has 52 cards for each deck of the game. What the deck holds is the
    /// caller's to answer for.
    pub fn deal_from(&mut self, deck: Vec<Card>) -> (result: Result<(), InvalidTransition>)
        requires
            old(self).wf(),
        ensures
            final(self).wf(),
            final(self).spec_decks() == old(self).spec_decks(),
            final(self).spec_player_count() == old(self).spec_player_count(),
            final(self).spec_opening_rule() == old(self).spec_opening_rule(),
            result.is_ok() <==> old(self).can_deal(deck@),
            result.is_ok() ==> final(self).is_deal_of(*old(self), deck@),
            result.is_err() ==> *final(self) == *old(self),
    {
        match self.state {
            GameState::PrePlay => {},
            _ => {
                return Err(InvalidTransition);
            },
        }
        if deck.len() != self.decks * 52 {
            return Err(InvalidTransition);
        }
        proof {
            lemma_dealt_total(deck@, self.player_count as int);
        }
        self.assign_hands(&deck);
        self.open_play();
        Ok(())
    }

    /// Opens play after the cards have been handed out: player 0 is to move.
    fn open_play(&mut self)
        requires
            old(self).base_wf(),
            old(self).spec_state() == StateView::PrePlay,
            hand_total(old(self).spec_hands()) == old(self).spec_card_total(),
            old(self).spec_area().spec_is_empty(),
        ensures
            final(self).wf(),
            final(self).spec_hands() == old(self).spec_hands(),
            final(self).spec_area() == old(self).spec_area(),
            final(self).spec_decks() == old(self).spec_decks(),
            final(self).spec_player_count() == old(self).spec_player_count(),
            final(self).spec_opening_rule() == old(self).spec_opening_rule(),
            final(self).spec_state() == old(self).opening_state(),
    {
        let found = self.find_valid_actions();
        let valid_actions = found.unwrap();
        proof {
            crate::stacks::lemma_total_count_empty(self.playing_area@);
        }
        self.state = GameState::InPlay { player: 0, valid_actions };
    }

    /// Moves on after `player` has moved: the game is over if that player or
    /// the next holds no card, else the next player is to move.
    fn pass_turn(&mut self, player: usize)
        requires
            old(self).base_wf(),
            (old(self).spec_state() is InPlay),
            old(self).spec_state()->InPlay_player == player,
            old(self).cards_in_game() == old(self).spec_card_total(),
        ensures
            final(self).wf(),
            final(self).spec_hands() == old(self).spec_hands(),
            final(self).spec_area() == old(self).spec_area(),
            final(self).spec_decks() == old(self).spec_decks(),
            final(self).spec_player_count() == old(self).spec_player_count(),
            final(self).spec_opening_rule() == old(self).spec_opening_rule(),
            final(self).spec_state() == old(self).state_after_move(player),
    {
        let found = self.find_valid_actions();
        self.state = match found {
            Some(valid_actions) => GameState::InPlay {
                player: (player + 1) % self.players.len(),
                valid_actions,
            },
            None => GameState::Over { winner: player },
        };
    }

    /// Attempts to advance the game with `action`.
    ///
    /// The deal is accepted before play only; it shuffles the cards of the
    /// decks, hands them out and gives the turn to player 0. A play or a pass
    /// is accepted while play is on if it is one of the legal moves of the
    /// player to move; a play takes the card from the mover's hand to the
    /// first stack that accepts it. After a move the game is over, won by the
    /// mover, if the mover holds no card or the next player holds none; else
    /// the turn goes to the next player. Anything else fails and changes
    /// nothing, and so does every action once the game is over.
    pub fn update(&mut self, action: Transition) -> (result: Result<(), InvalidTransition>)
        requires
            old(self).wf(),
        ensures
            final(self).wf(),
            final(self).spec_decks() == old(self).spec_decks(),
            final(self).spec_player_count() == old(self).spec_player_count(),
            final(self).spec_opening_rule() == old(self).spec_opening_rule(),
            result.is_ok() <==> old(self).accepts(action),
            result.is_err() ==> *final(self) == *old(self),
            (old(self).spec_state() is Over) ==> result.is_err(),
            result.is_ok() ==> match action {
                Transition::DealCards => final(self).is_shuffled_deal_of(*old(self)),
                Transition::Play { player, card } => final(self).is_play_of(
                    *old(self),
                    player,
                    card,
                ),
                Transition::Pass { player } => final(self).is_pass_of(*old(self), player),
            },
            final(self).spec_area().extends(old(self).spec_area()),
    {
        match action {
            Transition::DealCards => {
                match self.state {
                    GameState::PrePlay => {},
                    _ => {
                        return Err(InvalidTransition);
                    },
                }
                self.deal();
                let ghost deck = choose|deck: Seq<Card>|
                    is_shuffled_deck(deck, old(self).spec_decks()) && #[trigger] dealt_hands(
                        deck,
                        old(self).spec_player_count() as int,
                    ) == self.spec_hands();
                self.open_play();
                proof {
                    assert(self.is_deal_of(*old(self), deck));
                }
                Ok(())
            },
            Transition::Play { player: transition_player, card } => {
                let player: usize = match &self.state {
                    GameState::InPlay { player, valid_actions } => {
                        if *player != transition_player || !contains_transition(
                            valid_actions,
                            &action,
                        ) {
                            return Err(InvalidTransition);
                        }
                        *player
                    },
                    _ => {
                        return Err(InvalidTransition);
                    },
                };
                let ghost hands = self.spec_hands();
                let ghost hand = hands[player as int];
                proof {
                    let legal = self.spec_state()->InPlay_valid_actions;
                    assert(self.spec_state()->InPlay_player == player);
                    assert(legal.contains(action));
                    assert(legal == valid_actions_for(
                        self.spec_area(),
                        hand,
                        self.spec_opening_rule(),
                        player,
                    ));
                    assert(is_valid_action(
                        self.spec_area(),
                        hand,
                        self.spec_opening_rule(),
                        player,
                        action,
                    ));
                    assert(self.players@[player as int]@ == hand);
                }
                let played = self.playing_area.try_play(card);
                self.players[player].remove_card(&card);
                proof {
                    let taken = hand.remove(first_position(hand, card));
                    assert(self.spec_hands() =~= hands.update(player as int, taken));
                    lemma_hand_total_update(hands, player as int, taken);
                }
                self.pass_turn(player);
                Ok(())
            },
            Transition::Pass { player: transition_player } => {
                let player: usize = match &self.state {
                    GameState::InPlay { player, valid_actions } => {
                        if *player != transition_player || !contains_transition(
                            valid_actions,
                            &action,
                        ) {
                            return Err(InvalidTransition);
                        }
                        *player
                    },
                    _ => {
                        return Err(InvalidTransition);
                    },
                };
                self.pass_turn(player);
                Ok(())
            },
        }
    }

    /// The legal moves of the player to move, each once; none unless play is
    /// on.
    pub fn valid_actions(&self) -> (actions: Vec<Transition>)
        requires
            self.wf(),
        ensures
            actions@.no_duplicates(),
            match self.spec_state() {
                StateView::InPlay { player, valid_actions } => {
                    &&& actions@.to_set() == valid_actions
                    &&& actions@.len() > 0
                },
                _ => actions@.len() == 0,
            },
    {
        match &self.state {
            GameState::InPlay { player, valid_actions } => {
                proof {
                    lemma_valid_actions_nonempty(
                        self.spec_area(),
                        self.spec_hands()[*player as int],
                        self.spec_opening_rule(),
                        *player,
                    );
                    let action = choose|action: Transition|
                        valid_actions@.to_set().contains(action);
                    assert(valid_actions@.contains(action));
                }
                slice_to_vec(valid_actions.as_slice())
            },
            _ => Vec::new(),
        }
    }

    /// From the deal on, every card of the decks is in some hand or on the
    /// table: the hands and the stacks together hold 52 cards for each deck.
    pub proof fn lemma_cards_conserved(self)
        requires
            self.wf(),
            !(self.spec_state() is PrePlay),
        ensures
            hand_total(self.spec_hands()) + self.spec_area().card_count() == self.spec_decks()
                * 52,
    {
    }

    /// Before the deal nobody holds a card and no card lies on the table.
    pub proof fn lemma_no_cards_before_deal(self)
        requires
            self.wf(),
            self.spec_state() is PrePlay,
        ensures
            hand_total(self.spec_hands()) + self.spec_area().card_count() == 0,
    {
        lemma_hand_total_empty(self.spec_hands());
        crate::stacks::lemma_total_count_empty(self.spec_area()@);
    }

    /// While play is on, the player to move has a legal move.
    pub proof fn lemma_in_play_has_valid_action(self)
        requires
            self.wf(),
            self.spec_state() is InPlay,
        ensures
            exists|action: Transition| self.spec_state()->InPlay_valid_actions.contains(action),
    {
        let player = self.spec_state()->InPlay_player;
        lemma_valid_actions_nonempty(
            self.spec_area(),
            self.spec_hands()[player as int],
            self.spec_opening_rule(),
            player,
        );
    }

    /// While nothing has been played and the opening rule is in force, the
    /// game accepts no card but the opening card, whoever plays it.
    pub proof fn lemma_first_card_must_open(self, player: usize, card: Card)
        requires
            self.wf(),
            self.spec_opening_rule(),
            self.spec_area().spec_is_empty(),
            card != spec_opening_card(),
        ensures
            !self.accepts(Transition::Play { player, card }),
    {
    }

    /// While play is on, the game accepts moves of the player to move only.
    pub proof fn lemma_only_the_mover_is_accepted(self, action: Transition)
        requires
            self.wf(),
            self.spec_state() is InPlay,
            self.accepts(action),
        ensures
            match action {
                Transition::Play { player, card } => player == self.spec_state()->InPlay_player,
                Transition::Pass { player } => player == self.spec_state()->InPlay_player,
                Transition::DealCards => false,
            },
    {
    }

    /// A game that is over accepts no action.
    pub proof fn lemma_over_accepts_nothing(self, action: Transition)
        requires
            self.spec_state() is Over,
        ensures
            !self.accepts(action),
    {
    }

    /// After the deal of the shuffled decks the hands together hold the cards
    /// of the decks, each as often as the decks hold it.
    pub proof fn lemma_deal_hands_out_the_decks(self, before: BadamSat)
        requires
            before.spec_player_count() >= 1,
            self.is_shuffled_deal_of(before),
        ensures
            self.spec_hands().flatten().to_multiset() == spec_standard_deck(
                before.spec_decks(),
            ).to_multiset(),
    {
        let deck = choose|deck: Seq<Card>|
            is_shuffled_deck(deck, before.spec_decks()) && #[trigger] self.is_deal_of(before, deck);
        lemma_dealt_hands_are_the_deck(deck, before.spec_player_count() as int);
    }
}

} // verus!
