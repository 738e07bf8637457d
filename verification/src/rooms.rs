//! A room: one game, the seats that are taken, and the last move accepted.
//!
//! Players join a room one by one and get their index in the game. The join
//! that fills the room deals the cards, and from then on the room takes moves.

use vstd::prelude::*;
use vstd::slice::slice_to_vec;
use crate::cards::Card;
use crate::errors::Error;
use crate::games::{spec_opening_card, BadamSat, StateView, Transition};
use crate::stacks::PlayingArea;

verus! {

/// What a player does on a turn: play a card, or pass.
#[derive(Clone, Copy, Debug, PartialEq, Eq, Structural)]
pub enum Action {
    Play(Card),
    Pass,
}

impl Action {
    /// The action as a transition of the game, made by `player`.
    pub open spec fn spec_transition(self, player: usize) -> Transition {
        match self {
            Action::Play(card) => Transition::Play { player, card },
            Action::Pass => Transition::Pass { player },
        }
    }

    /// The action as a transition of the game, made by `player`.
    pub fn transition(&self, player: usize) -> (transition: Transition)
        ensures
            transition == self.spec_transition(player),
    {
        match self {
            Action::Play(card) => Transition::Play { player, card: *card },
            Action::Pass => Transition::Pass { player },
        }
    }
}

/// The index of the player who has won.
#[derive(Clone, Copy, Debug, PartialEq, Eq, Structural)]
pub struct Winner {
    pub id: usize,
}

/// What everybody may know of a game: the playing area, and how many cards
/// each seated player holds, but not which.
#[derive(Debug)]
pub struct GameState {
    playing_area: PlayingArea,
    card_counts: Vec<usize>,
}

impl GameState {
    /// The stacks of the playing area.
    pub closed spec fn spec_stacks(self) -> Seq<crate::stacks::CardStack> {
        self.playing_area@
    }

    /// Number of cards in each seated player's hand, by player.
    pub closed spec fn spec_card_counts(self) -> Seq<usize> {
        self.card_counts@
    }

    /// The playing area.
    pub fn playing_area(&self) -> (area: &PlayingArea)
        ensures
            area@ == self.spec_stacks(),
    {
        &self.playing_area
    }

    /// Number of cards in each seated player's hand, by player.
    pub fn card_counts(&self) -> (counts: &[usize])
        ensures
            counts@ == self.spec_card_counts(),
    {
        self.card_counts.as_slice()
    }
}

/// A call to a room.
#[derive(Clone, Copy, Debug, PartialEq, Eq, Structural)]
pub enum RoomCommand {
    /// Take the next seat.
    AddPlayer,
    /// Make the move `action` for `player`.
    Play { action: Action, player: usize },
    /// Say whether the game is over.
    GameOver,
    /// Show the last move accepted.
    LastMove,
    /// Show the cards that `player` holds.
    Hand { player: usize },
    /// Show what everybody may know of the game.
    GameState,
}

/// A room's answer to a call, one form for each form of call.
#[derive(Debug)]
pub enum RoomReply {
    Joined(Result<usize, Error>),
    Played(Result<(), Error>),
    GameOver(bool),
    LastMove(Option<Action>),
    Hand(Result<Vec<Card>, Error>),
    GameState(GameState),
}

/// A room that hosts one game.
#[derive(Debug)]
pub struct Room {
    joined_players: usize,
    game: BadamSat,
    max_player_count: usize,
    last_move: Option<Action>,
}

impl Room {
    /// The game of the room.
    pub closed spec fn spec_game(self) -> BadamSat {
        self.game
    }

    /// Number of players who have joined.
    pub closed spec fn spec_joined(self) -> nat {
        self.joined_players as nat
    }

    /// Number of players that the room is for.
    pub closed spec fn spec_capacity(self) -> nat {
        self.max_player_count as nat
    }

    /// The last move that the room accepted, a card played or a pass.
    pub closed spec fn spec_last_move(self) -> Option<Action> {
        self.last_move
    }

    /// Every seat is taken.
    pub open spec fn spec_is_full(self) -> bool {
        self.spec_joined() == self.spec_capacity()
    }

    /// The room is in a state that joins and moves can reach: its game has a
    /// hand for each seat, and the cards are dealt exactly when every seat is
    /// taken.
    pub open spec fn wf(self) -> bool {
        &&& self.spec_game().wf()
        &&& self.spec_game().spec_player_count() == self.spec_capacity()
        &&& self.spec_joined() <= self.spec_capacity()
        &&& self.spec_is_full() <==> !(self.spec_game().spec_state() is PrePlay)
    }

    /// The room is new, for `players` players and `decks` decks: nobody has
    /// joined, and the game is before the deal. `opening_rule` says whether
    /// play must open with the opening card.
    pub open spec fn is_fresh(self, players: usize, decks: usize, opening_rule: bool) -> bool {
        &&& self.wf()
        &&& self.spec_joined() == 0
        &&& self.spec_capacity() == players
        &&& self.spec_last_move() == None::<Action>
        &&& self.spec_game().spec_state() == StateView::PrePlay
        &&& self.spec_game().spec_decks() == decks
        &&& self.spec_game().spec_opening_rule() == opening_rule
    }

    /// `self` and `result` are what a join gives in the room `before`.
    ///
    /// The join succeeds unless every seat is taken. It takes the next seat,
    /// and the join that takes the last seat shuffles and deals the cards. A
    /// join that fails gives `RoomFull` and leaves the room as it was.
    pub open spec fn is_join_of(self, before: Room, result: Result<usize, Error>) -> bool {
        &&& self.spec_capacity() == before.spec_capacity()
        &&& self.spec_last_move() == before.spec_last_move()
        &&& result.is_ok() <==> !before.spec_is_full()
        &&& match result {
            Ok(seat) => {
                &&& seat == before.spec_joined()
                &&& self.spec_joined() == before.spec_joined() + 1
                &&& if self.spec_is_full() {
                    self.spec_game().is_shuffled_deal_of(before.spec_game())
                } else {
                    self.spec_game() == before.spec_game()
                }
            },
            Err(error) => error == Error::RoomFull && self == before,
        }
    }

    /// `self` and `result` are what the move `action` by `player` gives in the
    /// room `before`.
    ///
    /// The move succeeds if the room is full and its game accepts the move,
    /// and it is then the room's last move, a pass as much as a card played. A
    /// move that fails gives `TooEarly` while the room is not full and
    /// `InvalidMove` after that, and leaves the room as it was.
    pub open spec fn is_move_of(
        self,
        before: Room,
        action: Action,
        player: usize,
        result: Result<(), Error>,
    ) -> bool {
        &&& self.spec_capacity() == before.spec_capacity()
        &&& self.spec_joined() == before.spec_joined()
        &&& result.is_ok() <==> before.spec_is_full() && before.spec_game().accepts(
            action.spec_transition(player),
        )
        &&& match result {
            Ok(()) => {
                &&& self.spec_last_move() == Some(action)
                &&& match action {
                    Action::Play(card) => self.spec_game().is_play_of(
                        before.spec_game(),
                        player,
                        card,
                    ),
                    Action::Pass => self.spec_game().is_pass_of(before.spec_game(), player),
                }
            },
            Err(error) => {
                &&& error == if before.spec_is_full() {
                    Error::InvalidMove
                } else {
                    Error::TooEarly
                }
                &&& self == before
            },
        }
    }

    /// `result` is what asking the room for the hand of `player` gives: the
    /// cards of that hand, or `InvalidPlayerId` if the room has no seat with
    /// that index.
    pub open spec fn is_hand_of(self, player: usize, result: Result<Vec<Card>, Error>) -> bool {
        &&& result.is_ok() <==> player < self.spec_capacity()
        &&& match result {
            Ok(cards) => cards@ == self.spec_game().spec_hands()[player as int],
            Err(error) => error == Error::InvalidPlayerId,
        }
    }

    /// `state` is what everybody may know of the room's game: the playing
    /// area, and the number of cards in the hand of each player who has
    /// joined.
    pub open spec fn is_shown_by(self, state: GameState) -> bool {
        &&& state.spec_stacks() == self.spec_game().spec_area()@
        &&& state.spec_card_counts().len() == self.spec_joined()
        &&& forall|i: int|
            0 <= i < self.spec_joined() ==> (#[trigger] state.spec_card_counts()[i])
                == self.spec_game().spec_hands()[i].len()
    }

    /// A room for `players` players who play with `decks` decks, in which
    /// play must open with the opening card.
    pub fn new(players: usize, decks: usize) -> (room: Room)
        requires
            players >= 1,
            decks * 52 <= usize::MAX,
        ensures
            room.is_fresh(players, decks, true),
    {
        Room::with_opening_rule(players, decks, true)
    }

    /// A room for `players` players who play with `decks` decks.
    /// `opening_rule` says whether play must open with the opening card.
    pub fn with_opening_rule(players: usize, decks: usize, opening_rule: bool) -> (room: Room)
        requires
            players >= 1,
            decks * 52 <= usize::MAX,
        ensures
            room.is_fresh(players, decks, opening_rule),
    {
        let game = BadamSat::with_opening_rule(players, decks, opening_rule);
        Room { joined_players: 0, game, max_player_count: players, last_move: None }
    }

    /// Takes the next seat and returns its index, which is the player's index
    /// in the game. The join that takes the last seat deals the cards.
    ///
    /// Fails with `RoomFull`, and changes nothing, if every seat is taken.
    pub fn join(&mut self) -> (result: Result<usize, Error>)
        requires
            old(self).wf(),
        ensures
            final(self).wf(),
            final(self).is_join_of(*old(self), result),
    {
        if self.is_full() {
            return Err(Error::RoomFull);
        }
        let seat: usize = self.joined_players;
        self.joined_players = self.joined_players + 1;
        if self.is_full() {
            let dealt = self.game.update(Transition::DealCards);
        }
        Ok(seat)
    }

    /// Whether every seat is taken.
    pub fn is_full(&self) -> (full: bool)
        ensures
            full == self.spec_is_full(),
    {
        self.max_player_count == self.joined_players
    }

    /// Makes the move `action` for `player`.
    ///
    /// Fails with `TooEarly` while the room is not full, and with
    /// `InvalidMove` if the game does not accept the move: if the game is
    /// over, if it is not `player`'s turn, or if the move is not one of that
    /// player's legal moves. A failed call changes nothing. A move that is
    /// accepted, a pass as much as a card played, becomes the room's last
    /// move.
    pub fn play(&mut self, action: Action, player: usize) -> (result: Result<(), Error>)
        requires
            old(self).wf(),
        ensures
            final(self).wf(),
            final(self).is_move_of(*old(self), action, player, result),
    {
        if !self.is_full() {
            return Err(Error::TooEarly);
        }
        let transition = action.transition(player);
        match self.game.update(transition) {
            Ok(_) => {
                self.last_move = Some(action);
                Ok(())
            },
            Err(_) => Err(Error::InvalidMove),
        }
    }

    /// The playing area of the room's game.
    pub fn playing_area(&self) -> (area: &PlayingArea)
        ensures
            *area == self.spec_game().spec_area(),
    {
        self.game.playing_area()
    }

    /// The cards that `player` holds.
    ///
    /// Fails with `InvalidPlayerId` if the room has no seat with that index.
    pub fn hand_of_player(&self, player: usize) -> (result: Result<Vec<Card>, Error>)
        requires
            self.wf(),
        ensures
            self.is_hand_of(player, result),
    {
        match self.game.hand_of_player(player) {
            Some(cards) => Ok(slice_to_vec(cards)),
            None => Err(Error::InvalidPlayerId),
        }
    }

    /// Whether the game is over.
    pub fn is_game_over(&self) -> (over: bool)
        ensures
            over == (self.spec_game().spec_state() is Over),
    {
        self.game.winner().is_some()
    }

    /// The winner, once the game is over.
    pub fn winner(&self) -> (winner: Option<Winner>)
        ensures
            winner == match self.spec_game().spec_state() {
                StateView::Over { winner } => Some(Winner { id: winner }),
                _ => None::<Winner>,
            },
    {
        match self.game.winner() {
            Some(id) => Some(Winner { id }),
            None => None,
        }
    }

    /// The last move that the room accepted, a card played or a pass.
    pub fn last_move(&self) -> (last: Option<Action>)
        ensures
            last == self.spec_last_move(),
    {
        self.last_move
    }

    /// What everybody may know of the game: the playing area, and the number
    /// of cards in the hand of each player who has joined.
    pub fn game_state(&self) -> (state: GameState)
        requires
            self.wf(),
        ensures
            self.is_shown_by(state),
    {
        let mut card_counts: Vec<usize> = Vec::new();
        let mut player: usize = 0;
        while player < self.joined_players
            invariant
                0 <= player <= self.joined_players,
                self.wf(),
                card_counts@.len() == player,
                forall|i: int|
                    0 <= i < player ==> (#[trigger] card_counts@[i])
                        == self.spec_game().spec_hands()[i].len(),
            decreases self.joined_players - player,
        {
            let count = self.game.hand_len(player);
            card_counts.push(count.unwrap());
            player = player + 1;
        }
        GameState { playing_area: self.playing_area().clone(), card_counts }
    }

    /// `self` and `reply` are what the room `before` makes of `command`: a
    /// join or a move is made as [`Room::join`] and [`Room::play`] make it,
    /// and a question is answered and leaves the room as it is.
    pub open spec fn answers(self, before: Room, command: RoomCommand, reply: RoomReply) -> bool {
        match (command, reply) {
            (RoomCommand::AddPlayer, RoomReply::Joined(result)) => self.is_join_of(before, result),
            (RoomCommand::Play { action, player }, RoomReply::Played(result)) => self.is_move_of(
                before,
                action,
                player,
                result,
            ),
            (RoomCommand::GameOver, RoomReply::GameOver(over)) => {
                &&& over == (before.spec_game().spec_state() is Over)
                &&& self == before
            },
            (RoomCommand::LastMove, RoomReply::LastMove(last)) => {
                &&& last == before.spec_last_move()
                &&& self == before
            },
            (RoomCommand::Hand { player }, RoomReply::Hand(result)) => {
                &&& before.is_hand_of(player, result)
                &&& self == before
            },
            (RoomCommand::GameState, RoomReply::GameState(state)) => {
                &&& before.is_shown_by(state)
                &&& self == before
            },
            _ => false,
        }
    }

    /// Answers `command`.
    pub fn handle(&mut self, command: RoomCommand) -> (reply: RoomReply)
        requires
            old(self).wf(),
        ensures
            final(self).wf(),
            final(self).answers(*old(self), command, reply),
    {
        match command {
            RoomCommand::AddPlayer => RoomReply::Joined(self.join()),
            RoomCommand::Play { action, player } => RoomReply::Played(self.play(action, player)),
            RoomCommand::GameOver => RoomReply::GameOver(self.is_game_over()),
            RoomCommand::LastMove => RoomReply::LastMove(self.last_move()),
            RoomCommand::Hand { player } => RoomReply::Hand(self.hand_of_player(player)),
            RoomCommand::GameState => RoomReply::GameState(self.game_state()),
        }
    }

    /// Answers `commands` one after another, in their order: each is answered
    /// in the room as the one before has left it, and the answers come back in
    /// the order of the calls, each the answer to its own call.
    pub fn handle_all(&mut self, commands: &Vec<RoomCommand>) -> (replies: Vec<RoomReply>)
        requires
            old(self).wf(),
        ensures
            final(self).wf(),
            exists|rooms: Seq<Room>|
                {
                    &&& #[trigger] is_handling(rooms, commands@, replies@)
                    &&& rooms[0] == *old(self)
                    &&& rooms[commands@.len() as int] == *final(self)
                },
    {
        let mut replies: Vec<RoomReply> = Vec::new();
        let ghost mut rooms: Seq<Room> = seq![*self];
        let mut i: usize = 0;
        while i < commands.len()
            invariant
                0 <= i <= commands@.len(),
                self.wf(),
                rooms.len() == i + 1,
                replies@.len() == i,
                rooms[0] == *old(self),
                rooms[i as int] == *self,
                forall|j: int| 0 <= j <= i ==> (#[trigger] rooms[j]).wf(),
                forall|j: int|
                    0 <= j < i ==> rooms[j + 1].answers(
                        rooms[j],
                        #[trigger] commands@[j],
                        replies@[j],
                    ),
            decreases commands@.len() - i,
        {
            let ghost before = rooms;
            let ghost answered = replies@;
            let reply = self.handle(commands[i]);
            replies.push(reply);
            proof {
                rooms = rooms.push(*self);
                assert forall|j: int| 0 <= j < i + 1 implies rooms[j + 1].answers(
                    rooms[j],
                    #[trigger] commands@[j],
                    replies@[j],
                ) by {
                    if j < i {
                        assert(rooms[j + 1] == before[j + 1] && rooms[j] == before[j]);
                        assert(replies@[j] == answered[j]);
                    }
                }
            }
            i = i + 1;
        }
        proof {
            assert(is_handling(rooms, commands@, replies@));
        }
        replies
    }

    /// While nothing has been played in a room whose play must open with the
    /// opening card, the room refuses every other card, whoever plays it, and
    /// stays as it is.
    pub proof fn lemma_first_card_must_open(
        self,
        before: Room,
        card: Card,
        player: usize,
        result: Result<(), Error>,
    )
        requires
            before.wf(),
            before.spec_game().spec_opening_rule(),
            before.spec_game().spec_area().spec_is_empty(),
            card != spec_opening_card(),
            self.is_move_of(before, Action::Play(card), player, result),
        ensures
            result.is_err(),
            before.spec_is_full() ==> result == Err::<(), Error>(Error::InvalidMove),
            self == before,
    {
        before.spec_game().lemma_first_card_must_open(player, card);
    }
}

/// `rooms` show a room before and after each of `commands`, answered one
/// after another in their order, and `replies` are the answers: each command
/// is answered in the room as the one before has left it, and the answer at
/// each place is the answer to the command at that place.
pub open spec fn is_handling(rooms: Seq<Room>, commands: Seq<RoomCommand>, replies: Seq<RoomReply>)
    -> bool {
    &&& rooms.len() == commands.len() + 1
    &&& replies.len() == commands.len()
    &&& forall|i: int| 0 <= i < rooms.len() ==> (#[trigger] rooms[i]).wf()
    &&& forall|i: int|
        0 <= i < commands.len() ==> rooms[i + 1].answers(
            rooms[i],
            #[trigger] commands[i],
            replies[i],
        )
}

/// A move as a room is called with it: what is done, and by which player.
#[derive(Clone, Copy, Debug, PartialEq, Eq, Structural)]
pub struct Move {
    pub action: Action,
    pub player: usize,
}

/// `rooms` show a room before and after each of `moves`, made one after
/// another in their order, and `results` are the answers: each move is made
/// in the room as the one before has left it.
pub open spec fn is_run(rooms: Seq<Room>, moves: Seq<Move>, results: Seq<Result<(), Error>>)
    -> bool {
    &&& rooms.len() == moves.len() + 1
    &&& results.len() == moves.len()
    &&& forall|i: int| 0 <= i < rooms.len() ==> (#[trigger] rooms[i]).wf()
    &&& forall|i: int|
        0 <= i < moves.len() ==> rooms[i + 1].is_move_of(
            rooms[i],
            (#[trigger] moves[i]).action,
            moves[i].player,
            results[i],
        )
}

/// The player after `player` in a room for `capacity` players.
pub open spec fn player_after(player: usize, capacity: nat) -> usize {
    ((player + 1) % (capacity as int)) as usize
}

/// What holds of the first `m` moves of a run in a full room whose game is on,
/// where no player moves twice and the player after the one to move does not
/// move after that one.
spec fn run_holds_up_to(
    rooms: Seq<Room>,
    moves: Seq<Move>,
    results: Seq<Result<(), Error>>,
    m: int,
) -> bool {
    let mover = rooms[0].spec_game().spec_state()->InPlay_player;
    &&& rooms[m].spec_is_full()
    &&& rooms[m].spec_capacity() == rooms[0].spec_capacity()
    &&& forall|i: int|
        0 <= i < m && (#[trigger] results[i]).is_ok() ==> moves[i].player == mover && rooms[i]
            == rooms[0] && rooms[m] == rooms[i + 1]
    &&& forall|i: int|
        0 <= i < m && (#[trigger] results[i]).is_err() ==> results[i] == Err::<(), Error>(
            Error::InvalidMove,
        ) && rooms[i + 1] == rooms[i]
    &&& forall|i: int, j: int|
        0 <= i < m && 0 <= j < m && (#[trigger] results[i]).is_ok() && (
        #[trigger] results[j]).is_ok() ==> i == j
    &&& (forall|i: int| 0 <= i < m ==> !(#[trigger] results[i]).is_ok()) ==> rooms[m] == rooms[0]
}

proof fn lemma_run_prefix(
    rooms: Seq<Room>,
    moves: Seq<Move>,
    results: Seq<Result<(), Error>>,
    m: int,
)
    requires
        is_run(rooms, moves, results),
        rooms[0].spec_is_full(),
        rooms[0].spec_game().spec_state() is InPlay,
        0 <= m <= moves.len(),
        forall|i: int, j: int|
            0 <= i < j < moves.len() ==> (#[trigger] moves[i]).player != (
            #[trigger] moves[j]).player,
        forall|i: int, j: int|
            0 <= i < j < moves.len() ==> !((#[trigger] moves[i]).player
                == rooms[0].spec_game().spec_state()->InPlay_player && (
            #[trigger] moves[j]).player == player_after(
                rooms[0].spec_game().spec_state()->InPlay_player,
                rooms[0].spec_capacity(),
            )),
    ensures
        run_holds_up_to(rooms, moves, results, m),
    decreases m,
{
    let mover = rooms[0].spec_game().spec_state()->InPlay_player;
    let capacity = rooms[0].spec_capacity();
    let next = player_after(mover, capacity);
    if m > 0 {
        let k = m - 1;
        lemma_run_prefix(rooms, moves, results, k);
        let before = rooms[k];
        let after = rooms[m];
        let made = moves[k];
        let by = made.player;
        assert(before.wf() && after.wf());
        assert(after.is_move_of(before, made.action, by, results[k]));
        let acted = made.action.spec_transition(by);
        if exists|a: int| 0 <= a < k && (#[trigger] results[a]).is_ok() {
            let a = choose|a: int| 0 <= a < k && (#[trigger] results[a]).is_ok();
            // The mover has moved already: it is the next player's turn, or the
            // game is over.
            let first = rooms[a];
            let then = rooms[a + 1];
            assert(then.wf());
            assert(then.is_move_of(first, moves[a].action, moves[a].player, results[a]));
            assert(moves[a].player == mover);
            assert(by != mover);
            assert(by != next);
            assert(before == then);
            assert(then.spec_game().spec_state() == then.spec_game().state_after_move(mover));
            if before.spec_game().spec_state() is InPlay {
                if before.spec_game().accepts(acted) {
                    before.spec_game().lemma_only_the_mover_is_accepted(acted);
                }
            }
            assert(!before.spec_game().accepts(acted));
            assert(results[k].is_err());
            assert(after == before);
            assert forall|i: int|
                0 <= i < m && (#[trigger] results[i]).is_ok() implies moves[i].player == mover
                && rooms[i] == rooms[0] && rooms[m] == rooms[i + 1] by {
                assert(i < k);
            }
        } else {
            // Nobody has moved yet: the room is as it was at first.
            assert(before == rooms[0]);
            if results[k].is_ok() {
                before.spec_game().lemma_only_the_mover_is_accepted(acted);
                assert(by == mover);
            }
            assert forall|i: int, j: int|
                0 <= i < m && 0 <= j < m && (#[trigger] results[i]).is_ok() && (
                #[trigger] results[j]).is_ok() implies i == j by {
                assert(i == k && j == k);
            }
        }
    }
}

/// Of moves by different players that reach a full room one after another
/// while its game is on, at most one is accepted: a legal move of the player
/// to move, made in the room as it was at first. Every other move is refused
/// with `InvalidMove` and leaves the room as it found it.
///
/// This holds where the player after the one to move does not move after that
/// one: such a move finds its player to move and may be accepted too.
pub proof fn lemma_only_the_mover_moves(
    rooms: Seq<Room>,
    moves: Seq<Move>,
    results: Seq<Result<(), Error>>,
)
    requires
        is_run(rooms, moves, results),
        rooms[0].spec_is_full(),
        rooms[0].spec_game().spec_state() is InPlay,
        forall|i: int, j: int|
            0 <= i < j < moves.len() ==> (#[trigger] moves[i]).player != (
            #[trigger] moves[j]).player,
        forall|i: int, j: int|
            0 <= i < j < moves.len() ==> !((#[trigger] moves[i]).player
                == rooms[0].spec_game().spec_state()->InPlay_player && (
            #[trigger] moves[j]).player == player_after(
                rooms[0].spec_game().spec_state()->InPlay_player,
                rooms[0].spec_capacity(),
            )),
    ensures
        forall|i: int|
            0 <= i < moves.len() && (#[trigger] results[i]).is_ok() ==> {
                &&& moves[i].player == rooms[0].spec_game().spec_state()->InPlay_player
                &&& rooms[0].spec_game().accepts(moves[i].action.spec_transition(moves[i].player))
                &&& rooms[i] == rooms[0]
            },
        forall|i: int|
            0 <= i < moves.len() && (#[trigger] results[i]).is_err() ==> results[i] == Err::<
                (),
                Error,
            >(Error::InvalidMove) && rooms[i + 1] == rooms[i],
        forall|i: int, j: int|
            0 <= i < moves.len() && 0 <= j < moves.len() && (#[trigger] results[i]).is_ok() && (
            #[trigger] results[j]).is_ok() ==> i == j,
{
    lemma_run_prefix(rooms, moves, results, moves.len() as int);
    assert forall|i: int| 0 <= i < moves.len() && (#[trigger] results[i]).is_ok() implies {
        &&& moves[i].player == rooms[0].spec_game().spec_state()->InPlay_player
        &&& rooms[0].spec_game().accepts(moves[i].action.spec_transition(moves[i].player))
        &&& rooms[i] == rooms[0]
    } by {
        assert(rooms[i + 1].is_move_of(rooms[i], moves[i].action, moves[i].player, results[i]));
    }
}

} // verus!
