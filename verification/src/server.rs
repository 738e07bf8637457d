//! The server: a directory of rooms, each under its identifier.
//!
//! The server hosts a bounded number of rooms and passes each call on to the
//! room that it names. It keeps a clock, which the caller sets, and the time
//! at which each room was last called: a room that has had no call for the
//! length of the idle window is dropped from the directory the next time the
//! clock is set, and its identifier is unknown from then on. Rooms whose game
//! is over stay until they fall idle, or until
//! [`Server::remove_finished_rooms`] sweeps them out.

use std::collections::HashMap;
use vstd::prelude::*;
use vstd::std_specs::hash::spec_keys_iter;
use vstd::std_specs::iter::IteratorSpec;
use crate::cards::Card;
use crate::errors::Error;
use crate::rooms::{Action, GameState, Room};

verus! {

broadcast use vstd::std_specs::hash::group_hash_axioms;

/// A room in the directory.
#[derive(Debug)]
pub struct RoomEntry {
    /// The identifier under which the room is known.
    pub id: u128,
    /// The room.
    pub room: Room,
    /// The time of the last call to the room.
    pub last_active: u64,
}

/// A room for `players` players and `decks` decks can be made: there is a
/// player to seat, and the cards of the decks can be counted.
pub open spec fn can_make_room(players: usize, decks: usize) -> bool {
    players >= 1 && decks * 52 <= usize::MAX
}

/// A call to the server.
#[derive(Clone, Copy, Debug, PartialEq, Eq, Structural)]
pub enum Request {
    /// Open a room for `players` players and `decks` decks.
    CreateRoom { players: usize, decks: usize },
    /// Take a seat in `room`.
    JoinRoom { room: u128 },
    /// Make the move `action` for `player` in `room`.
    Play { action: Action, player: usize, room: u128 },
    /// Show the cards that `player` holds in `room`.
    GetHand { player: usize, room: u128 },
    /// Show the last move accepted in `room`.
    LastMove { room: u128 },
    /// Show what everybody may know of the game in `room`.
    GameState { room: u128 },
}

/// The server's answer to a call, one form for each form of call.
#[derive(Debug)]
pub enum Response {
    RoomCreated(Result<u128, Error>),
    Joined(Result<usize, Error>),
    Played(Result<(), Error>),
    Hand(Result<Vec<Card>, Error>),
    LastMove(Result<Action, Error>),
    GameState(Result<GameState, Error>),
}

/// A server that hosts rooms.
#[derive(Debug)]
pub struct Server {
    rooms: HashMap<u128, RoomEntry>,
    max_rooms: usize,
    idle_window: u64,
    opening_rule: bool,
    clock: u64,
}

impl Server {
    /// The rooms that the server hosts, by their identifiers.
    pub closed spec fn spec_directory(self) -> Map<u128, RoomEntry> {
        self.rooms@
    }

    /// Number of rooms that the server may host at a time.
    pub closed spec fn spec_max_rooms(self) -> nat {
        self.max_rooms as nat
    }

    /// Time without a call after which a room is dropped.
    pub closed spec fn spec_idle_window(self) -> u64 {
        self.idle_window
    }

    /// Whether play in the server's rooms must open with the opening card.
    pub closed spec fn spec_opening_rule(self) -> bool {
        self.opening_rule
    }

    /// The time as the server knows it.
    pub closed spec fn spec_clock(self) -> u64 {
        self.clock
    }

    /// The server hosts a room under `id`.
    pub open spec fn hosts(self, id: u128) -> bool {
        self.spec_directory().dom().contains(id)
    }

    /// The room that the server hosts under `id`.
    pub open spec fn spec_room(self, id: u128) -> Room {
        self.spec_directory()[id].room
    }

    /// Number of rooms that the server hosts.
    pub open spec fn spec_room_count(self) -> nat {
        self.spec_directory().dom().len()
    }

    /// A room last called at `last_active` has fallen idle by the time `now`.
    pub open spec fn is_idle_at(self, last_active: u64, now: u64) -> bool {
        now - last_active >= self.spec_idle_window()
    }

    /// The parts of the server fit together: it hosts no more rooms than it
    /// may, each under its own identifier, well formed and last called at a
    /// time that is not after the server's clock.
    pub open spec fn base_wf(self) -> bool {
        &&& self.spec_idle_window() >= 1
        &&& self.spec_directory().dom().finite()
        &&& self.spec_room_count() <= self.spec_max_rooms()
        &&& forall|id: u128| #[trigger]
            self.hosts(id) ==> {
                let entry = self.spec_directory()[id];
                &&& entry.id == id
                &&& entry.room.wf()
                &&& entry.last_active <= self.spec_clock()
            }
    }

    /// The server is in a state that its calls can reach: its parts fit
    /// together, and none of its rooms has fallen idle by the server's clock.
    pub open spec fn wf(self) -> bool {
        &&& self.base_wf()
        &&& forall|id: u128| #[trigger]
            self.hosts(id) ==> !self.is_idle_at(
                self.spec_directory()[id].last_active,
                self.spec_clock(),
            )
    }

    /// The server keeps `entry` in a sweep: the room has not fallen idle by
    /// the server's clock and, where `finished_too` asks for finished games to
    /// go, its game is not over.
    pub open spec fn keeps(self, entry: RoomEntry, finished_too: bool) -> bool {
        &&& !self.is_idle_at(entry.last_active, self.spec_clock())
        &&& !(finished_too && entry.room.spec_game().spec_state() is Over)
    }

    /// `self` is `before` without the rooms that `before` does not keep:
    /// those are gone, and all others are as they were.
    pub open spec fn is_sweep_of(self, before: Server, finished_too: bool) -> bool {
        &&& self.spec_max_rooms() == before.spec_max_rooms()
        &&& self.spec_idle_window() == before.spec_idle_window()
        &&& self.spec_opening_rule() == before.spec_opening_rule()
        &&& self.spec_clock() == before.spec_clock()
        &&& forall|id: u128| #[trigger]
            self.hosts(id) <==> before.hosts(id) && before.keeps(
                before.spec_directory()[id],
                finished_too,
            )
        &&& forall|id: u128| #[trigger]
            self.hosts(id) ==> self.spec_directory()[id] == before.spec_directory()[id]
    }

    /// The server hosts as many rooms as it may.
    pub open spec fn spec_is_full(self) -> bool {
        self.spec_room_count() == self.spec_max_rooms()
    }

    /// Where the clock stands once it has been set to `now`: at `now`, unless
    /// it stood later already.
    pub open spec fn clock_at(self, now: u64) -> u64 {
        if now > self.spec_clock() {
            now
        } else {
            self.spec_clock()
        }
    }

    /// The rooms that are left once the clock has been set to `now`: those
    /// that have not fallen idle by then.
    pub open spec fn live_rooms_at(self, now: u64) -> Set<u128> {
        self.spec_directory().dom().filter(
            |id: u128|
                !self.is_idle_at(self.spec_directory()[id].last_active, self.clock_at(now)),
        )
    }

    /// Once the clock has been set to `now`, the server hosts as many rooms
    /// as it may.
    pub open spec fn is_full_at(self, now: u64) -> bool {
        self.live_rooms_at(now).len() == self.spec_max_rooms()
    }

    /// `self` is `before` once its clock has been set to `now`: the clock
    /// stands at `now`, unless it stood later already, and the rooms that have
    /// fallen idle by then are gone.
    pub open spec fn is_tick_of(self, before: Server, now: u64) -> bool {
        &&& self.spec_max_rooms() == before.spec_max_rooms()
        &&& self.spec_idle_window() == before.spec_idle_window()
        &&& self.spec_opening_rule() == before.spec_opening_rule()
        &&& self.spec_clock() == before.clock_at(now)
        &&& forall|id: u128| #[trigger]
            self.hosts(id) <==> before.hosts(id) && !self.is_idle_at(
                before.spec_directory()[id].last_active,
                self.spec_clock(),
            )
        &&& forall|id: u128| #[trigger]
            self.hosts(id) ==> self.spec_directory()[id] == before.spec_directory()[id]
    }

    /// A server without rooms that may host `max_rooms` rooms at a time and
    /// drops a room that has had no call for `idle_window` units of time. In
    /// its rooms play must open with the opening card. Its clock stands at 0.
    pub fn new(max_rooms: usize, idle_window: u64) -> (server: Server)
        requires
            idle_window >= 1,
        ensures
            server.wf(),
            server.spec_directory() == Map::<u128, RoomEntry>::empty(),
            server.spec_max_rooms() == max_rooms,
            server.spec_idle_window() == idle_window,
            server.spec_opening_rule(),
            server.spec_clock() == 0,
    {
        Server::with_opening_rule(max_rooms, idle_window, true)
    }

    /// A server without rooms that may host `max_rooms` rooms at a time and
    /// drops a room that has had no call for `idle_window` units of time.
    /// `opening_rule` says whether play in its rooms must open with the
    /// opening card. Its clock stands at 0.
    pub fn with_opening_rule(max_rooms: usize, idle_window: u64, opening_rule: bool) -> (server:
        Server)
        requires
            idle_window >= 1,
        ensures
            server.wf(),
            server.spec_directory() == Map::<u128, RoomEntry>::empty(),
            server.spec_max_rooms() == max_rooms,
            server.spec_idle_window() == idle_window,
            server.spec_opening_rule() == opening_rule,
            server.spec_clock() == 0,
    {
        let server = Server { rooms: HashMap::new(), max_rooms, idle_window, opening_rule, clock: 0 };
        proof {
            assert(server.spec_directory() =~= Map::<u128, RoomEntry>::empty());
        }
        server
    }

    /// Number of rooms that the server hosts.
    pub fn room_count(&self) -> (count: usize)
        requires
            self.wf(),
        ensures
            count == self.spec_room_count(),
    {
        self.rooms.len()
    }

    /// Whether the server hosts as many rooms as it may.
    pub fn is_full(&self) -> (full: bool)
        requires
            self.wf(),
        ensures
            full == self.spec_is_full(),
    {
        self.room_count() == self.max_rooms
    }

    /// The time as the server knows it.
    pub fn clock(&self) -> (clock: u64)
        ensures
            clock == self.spec_clock(),
    {
        self.clock
    }

    /// Takes the room `room_id` out of the directory.
    fn take(&mut self, room_id: u128) -> (entry: RoomEntry)
        requires
            old(self).hosts(room_id),
        ensures
            entry == old(self).spec_directory()[room_id],
            final(self).spec_directory() == old(self).spec_directory().remove(room_id),
            final(self).spec_max_rooms() == old(self).spec_max_rooms(),
            final(self).spec_idle_window() == old(self).spec_idle_window(),
            final(self).spec_opening_rule() == old(self).spec_opening_rule(),
            final(self).spec_clock() == old(self).spec_clock(),
    {
        let taken = self.rooms.remove(&room_id);
        taken.unwrap()
    }

    /// Puts `entry` into the directory under its identifier, in place of the
    /// room that is there under it, if any.
    fn put(&mut self, entry: RoomEntry)
        ensures
            final(self).spec_directory() == old(self).spec_directory().insert(entry.id, entry),
            final(self).spec_max_rooms() == old(self).spec_max_rooms(),
            final(self).spec_idle_window() == old(self).spec_idle_window(),
            final(self).spec_opening_rule() == old(self).spec_opening_rule(),
            final(self).spec_clock() == old(self).spec_clock(),
    {
        let id: u128 = entry.id;
        let replaced = self.rooms.insert(id, entry);
    }

    /// The identifiers of the rooms that the server hosts, each once, in no
    /// order that could be told beforehand.
    fn room_ids(&self) -> (ids: Vec<u128>)
        ensures
            ids@.to_set() == self.spec_directory().dom(),
            ids@.no_duplicates(),
    {
        let mut ids: Vec<u128> = Vec::new();
        let ghost all = spec_keys_iter(&self.rooms).remaining();
        for id in it: self.rooms.keys()
            invariant
                it.seq() == all,
                ids@.len() == it.index(),
                forall|j: int| 0 <= j < ids@.len() ==> ids@[j] == *all[j],
        {
            ids.push(*id);
        }
        proof {
            assert(ids@ =~= all.unref());
        }
        ids
    }

    /// `self` is `before` after a call to the room `id`: the room is still
    /// hosted, it was last called now, and nothing else has changed but, at
    /// most, the room itself.
    pub open spec fn is_call_to(self, before: Server, id: u128) -> bool {
        &&& self.hosts(id)
        &&& self.spec_directory() == before.spec_directory().insert(id, self.spec_directory()[id])
        &&& self.spec_directory()[id].last_active == before.spec_clock()
        &&& self.spec_max_rooms() == before.spec_max_rooms()
        &&& self.spec_idle_window() == before.spec_idle_window()
        &&& self.spec_opening_rule() == before.spec_opening_rule()
        &&& self.spec_clock() == before.spec_clock()
    }

    /// `self` and `result` are what opening a room for `players` players and
    /// `decks` decks gives on the server `before`.
    ///
    /// It fails with `ServerFull`, and changes nothing, if the server hosts as
    /// many rooms as it may. Otherwise the room is new, it is hosted under
    /// the identifier returned and was last called now, and the other rooms
    /// are as they were.
    pub open spec fn is_creation_at(
        self,
        before: Server,
        players: usize,
        decks: usize,
        result: Result<u128, Error>,
    ) -> bool {
        &&& self.spec_max_rooms() == before.spec_max_rooms()
        &&& self.spec_idle_window() == before.spec_idle_window()
        &&& self.spec_opening_rule() == before.spec_opening_rule()
        &&& self.spec_clock() == before.spec_clock()
        &&& result.is_ok() <==> !before.spec_is_full()
        &&& match result {
            Ok(id) => {
                &&& self.is_call_to(before, id)
                &&& self.spec_room(id).is_fresh(players, decks, before.spec_opening_rule())
            },
            Err(error) => error == Error::ServerFull && self == before,
        }
    }

    /// `self` and `result` are what a join of the room `room_id` gives on the
    /// server `before`.
    pub open spec fn is_join_at(self, before: Server, room_id: u128, result: Result<usize, Error>)
        -> bool {
        if before.hosts(room_id) {
            &&& self.is_call_to(before, room_id)
            &&& self.spec_room(room_id).is_join_of(before.spec_room(room_id), result)
        } else {
            &&& result == Err::<usize, Error>(Error::InvalidRoomId)
            &&& self == before
        }
    }

    /// `self` and `result` are what the move `action` by `player` in the room
    /// `room_id` gives on the server `before`.
    pub open spec fn is_play_at(
        self,
        before: Server,
        action: Action,
        player: usize,
        room_id: u128,
        result: Result<(), Error>,
    ) -> bool {
        if before.hosts(room_id) {
            &&& self.is_call_to(before, room_id)
            &&& self.spec_room(room_id).is_move_of(
                before.spec_room(room_id),
                action,
                player,
                result,
            )
        } else {
            &&& result == Err::<(), Error>(Error::InvalidRoomId)
            &&& self == before
        }
    }

    /// `self` and `result` are what asking for the hand of `player` in the
    /// room `room_id` gives on the server `before`.
    pub open spec fn is_hand_at(
        self,
        before: Server,
        room_id: u128,
        player: usize,
        result: Result<Vec<Card>, Error>,
    ) -> bool {
        if before.hosts(room_id) {
            &&& self.is_call_to(before, room_id)
            &&& self.spec_room(room_id) == before.spec_room(room_id)
            &&& before.spec_room(room_id).is_hand_of(player, result)
        } else {
            &&& result.is_err()
            &&& result.unwrap_err() == Error::InvalidRoomId
            &&& self == before
        }
    }

    /// `self` and `result` are what asking for the last move in the room
    /// `room_id` gives on the server `before`.
    pub open spec fn is_last_move_at(
        self,
        before: Server,
        room_id: u128,
        result: Result<Action, Error>,
    ) -> bool {
        if before.hosts(room_id) {
            &&& self.is_call_to(before, room_id)
            &&& self.spec_room(room_id) == before.spec_room(room_id)
            &&& result == match before.spec_room(room_id).spec_last_move() {
                Some(action) => Ok::<Action, Error>(action),
                None => Err::<Action, Error>(Error::NoMove),
            }
        } else {
            &&& result == Err::<Action, Error>(Error::InvalidRoomId)
            &&& self == before
        }
    }

    /// `self` and `result` are what asking for the state of the game in the
    /// room `room_id` gives on the server `before`.
    pub open spec fn is_game_state_at(
        self,
        before: Server,
        room_id: u128,
        result: Result<GameState, Error>,
    ) -> bool {
        if before.hosts(room_id) {
            &&& self.is_call_to(before, room_id)
            &&& self.spec_room(room_id) == before.spec_room(room_id)
            &&& result.is_ok()
            &&& before.spec_room(room_id).is_shown_by(result.unwrap())
        } else {
            &&& result.is_err()
            &&& result.unwrap_err() == Error::InvalidRoomId
            &&& self == before
        }
    }

    /// `self` and `response` are what the server `before` makes of `request`.
    pub open spec fn answers(self, before: Server, request: Request, response: Response) -> bool {
        match (request, response) {
            (Request::CreateRoom { players, decks }, Response::RoomCreated(result)) => {
                self.is_creation_at(before, players, decks, result)
            },
            (Request::JoinRoom { room }, Response::Joined(result)) => self.is_join_at(
                before,
                room,
                result,
            ),
            (Request::Play { action, player, room }, Response::Played(result)) => self.is_play_at(
                before,
                action,
                player,
                room,
                result,
            ),
            (Request::GetHand { player, room }, Response::Hand(result)) => self.is_hand_at(
                before,
                room,
                player,
                result,
            ),
            (Request::LastMove { room }, Response::LastMove(result)) => self.is_last_move_at(
                before,
                room,
                result,
            ),
            (Request::GameState { room }, Response::GameState(result)) => self.is_game_state_at(
                before,
                room,
                result,
            ),
            _ => false,
        }
    }

    /// `self` and `response` are what the server `before` makes of `request`
    /// at the time `now`: the clock is set first, which drops the rooms that
    /// have fallen idle, and the request is answered after that.
    pub open spec fn handles(self, before: Server, now: u64, request: Request, response: Response)
        -> bool {
        exists|ticked: Server|
            {
                &&& ticked.wf()
                &&& #[trigger] ticked.is_tick_of(before, now)
                &&& self.answers(ticked, request, response)
            }
    }

    /// A server stays well formed when a well-formed room that is called now
    /// is put into its directory, in place of another or where there is room
    /// for one more.
    proof fn lemma_wf_after_insert(self, before: Server, id: u128)
        requires
            before.wf(),
            self.spec_max_rooms() == before.spec_max_rooms(),
            self.spec_idle_window() == before.spec_idle_window(),
            self.spec_clock() == before.spec_clock(),
            self.hosts(id),
            self.spec_directory() == before.spec_directory().insert(id, self.spec_directory()[id]),
            self.spec_directory()[id].id == id,
            self.spec_directory()[id].room.wf(),
            self.spec_directory()[id].last_active == before.spec_clock(),
            before.hosts(id) || before.spec_room_count() < before.spec_max_rooms(),
        ensures
            self.wf(),
    {
        let entry = self.spec_directory()[id];
        if before.hosts(id) {
            assert(self.spec_directory().dom() =~= before.spec_directory().dom());
        } else {
            assert(self.spec_directory().dom() =~= before.spec_directory().dom().insert(id));
        }
        assert forall|other: u128| #[trigger] self.hosts(other) implies {
            let found = self.spec_directory()[other];
            &&& found.id == other
            &&& found.room.wf()
            &&& found.last_active <= self.spec_clock()
            &&& !self.is_idle_at(found.last_active, self.spec_clock())
        } by {
            if other != id {
                assert(before.hosts(other));
                assert(self.spec_directory()[other] == before.spec_directory()[other]);
            }
        }
        assert(self.base_wf());
    }

    /// After a call to the room `id` that has put the room back well formed
    /// and noted the call, the server is well formed and the change is a call
    /// to that room.
    proof fn lemma_called(self, before: Server, without: Server, entry: RoomEntry)
        requires
            before.wf(),
            before.hosts(entry.id),
            without.spec_directory() == before.spec_directory().remove(entry.id),
            self.spec_directory() == without.spec_directory().insert(entry.id, entry),
            entry.room.wf(),
            entry.last_active == before.spec_clock(),
            self.spec_max_rooms() == before.spec_max_rooms(),
            self.spec_idle_window() == before.spec_idle_window(),
            self.spec_opening_rule() == before.spec_opening_rule(),
            self.spec_clock() == before.spec_clock(),
        ensures
            self.wf(),
            self.is_call_to(before, entry.id),
            self.spec_directory()[entry.id] == entry,
    {
        assert(self.spec_directory() =~= before.spec_directory().insert(entry.id, entry));
        self.lemma_wf_after_insert(before, entry.id);
    }

    /// Opens a room for `players` players and `decks` decks under the
    /// identifier `room_id`, which is returned. A room that the server hosts
    /// under that identifier already is replaced.
    ///
    /// Fails with `ServerFull`, and changes nothing, if the server hosts as
    /// many rooms as it may, whatever `players` and `decks` are. Only where a
    /// room is made must there be a player to seat and cards that can be
    /// counted.
    pub fn create_room_with_id(&mut self, players: usize, decks: usize, room_id: u128) -> (result:
        Result<u128, Error>)
        requires
            old(self).wf(),
            !old(self).spec_is_full() ==> can_make_room(players, decks),
        ensures
            final(self).wf(),
            final(self).is_creation_at(*old(self), players, decks, result),
            result.is_ok() ==> result.unwrap() == room_id,
    {
        if self.max_rooms == self.rooms.len() {
            return Err(Error::ServerFull);
        }
        let entry = RoomEntry {
            id: room_id,
            room: Room::with_opening_rule(players, decks, self.opening_rule),
            last_active: self.clock,
        };
        self.put(entry);
        proof {
            self.lemma_wf_after_insert(*old(self), room_id);
        }
        Ok(room_id)
    }

    /// Opens a room for `players` players and `decks` decks under a new
    /// identifier, which is returned.
    ///
    /// Fails with `ServerFull`, and changes nothing, if the server hosts as
    /// many rooms as it may, whatever `players` and `decks` are. Only where a
    /// room is made must there be a player to seat and cards that can be
    /// counted. The identifier is drawn at random from so many
    /// that it is, for all practical purposes, not that of another room; if it
    /// is, the new room takes the place of the other.
    pub fn create_room(&mut self, players: usize, decks: usize) -> (result: Result<u128, Error>)
        requires
            old(self).wf(),
            !old(self).spec_is_full() ==> can_make_room(players, decks),
        ensures
            final(self).wf(),
            final(self).is_creation_at(*old(self), players, decks, result),
    {
        let room_id = fresh_room_id();
        self.create_room_with_id(players, decks, room_id)
    }

    /// Seats a player in the room `room_id` and returns the player's index.
    ///
    /// Fails with `InvalidRoomId`, and changes nothing, if the server hosts no
    /// such room. Otherwise the call counts as a call to the room, and what it
    /// gives is what [`Room::join`] gives.
    pub fn join(&mut self, room_id: u128) -> (result: Result<usize, Error>)
        requires
            old(self).wf(),
        ensures
            final(self).wf(),
            final(self).is_join_at(*old(self), room_id, result),
    {
        if !self.rooms.contains_key(&room_id) {
            return Err(Error::InvalidRoomId);
        }
        proof {
            assert(self.hosts(room_id));
        }
        let mut entry = self.take(room_id);
        let ghost without = *self;
        proof {
            let found = old(self).spec_directory()[room_id];
            assert(old(self).hosts(room_id));
            assert(found.id == room_id && found.room.wf());
            assert(entry == found);
        }
        entry.last_active = self.clock;
        let result = entry.room.join();
        self.put(entry);
        proof {
            self.lemma_called(*old(self), without, entry);
        }
        result
    }

    /// Makes the move `action` for `player` in the room `room_id`.
    ///
    /// Fails with `InvalidRoomId`, and changes nothing, if the server hosts no
    /// such room. Otherwise the call counts as a call to the room, and what it
    /// gives is what [`Room::play`] gives.
    pub fn play(&mut self, action: Action, player: usize, room_id: u128) -> (result: Result<
        (),
        Error,
    >)
        requires
            old(self).wf(),
        ensures
            final(self).wf(),
            final(self).is_play_at(*old(self), action, player, room_id, result),
    {
        if !self.rooms.contains_key(&room_id) {
            return Err(Error::InvalidRoomId);
        }
        proof {
            assert(self.hosts(room_id));
        }
        let mut entry = self.take(room_id);
        let ghost without = *self;
        proof {
            let found = old(self).spec_directory()[room_id];
            assert(old(self).hosts(room_id));
            assert(found.id == room_id && found.room.wf());
            assert(entry == found);
        }
        entry.last_active = self.clock;
        let result = entry.room.play(action, player);
        self.put(entry);
        proof {
            self.lemma_called(*old(self), without, entry);
        }
        result
    }

    /// The cards that `player` holds in the room `room_id`.
    ///
    /// Fails with `InvalidRoomId`, and changes nothing, if the server hosts no
    /// such room. Otherwise the call counts as a call to the room, which stays
    /// as it is, and what it gives is what [`Room::hand_of_player`] gives.
    pub fn hand(&mut self, room_id: u128, player: usize) -> (result: Result<Vec<Card>, Error>)
        requires
            old(self).wf(),
        ensures
            final(self).wf(),
            final(self).is_hand_at(*old(self), room_id, player, result),
    {
        if !self.rooms.contains_key(&room_id) {
            return Err(Error::InvalidRoomId);
        }
        proof {
            assert(self.hosts(room_id));
        }
        let mut entry = self.take(room_id);
        let ghost without = *self;
        proof {
            let found = old(self).spec_directory()[room_id];
            assert(old(self).hosts(room_id));
            assert(found.id == room_id && found.room.wf());
            assert(entry == found);
        }
        entry.last_active = self.clock;
        let result = entry.room.hand_of_player(player);
        self.put(entry);
        proof {
            self.lemma_called(*old(self), without, entry);
        }
        result
    }

    /// The last move accepted in the room `room_id`, a card played or a pass.
    ///
    /// Fails with `InvalidRoomId`, and changes nothing, if the server hosts no
    /// such room. Otherwise the call counts as a call to the room, which stays
    /// as it is; it fails with `NoMove` if no move has been accepted there.
    pub fn last_move(&mut self, room_id: u128) -> (result: Result<Action, Error>)
        requires
            old(self).wf(),
        ensures
            final(self).wf(),
            final(self).is_last_move_at(*old(self), room_id, result),
    {
        if !self.rooms.contains_key(&room_id) {
            return Err(Error::InvalidRoomId);
        }
        proof {
            assert(self.hosts(room_id));
        }
        let mut entry = self.take(room_id);
        let ghost without = *self;
        proof {
            let found = old(self).spec_directory()[room_id];
            assert(old(self).hosts(room_id));
            assert(found.id == room_id && found.room.wf());
            assert(entry == found);
        }
        entry.last_active = self.clock;
        let result = match entry.room.last_move() {
            Some(action) => Ok(action),
            None => Err(Error::NoMove),
        };
        self.put(entry);
        proof {
            self.lemma_called(*old(self), without, entry);
        }
        result
    }

    /// What everybody may know of the game in the room `room_id`.
    ///
    /// Fails with `InvalidRoomId`, and changes nothing, if the server hosts no
    /// such room. Otherwise the call counts as a call to the room, which stays
    /// as it is, and what it gives is what [`Room::game_state`] gives.
    pub fn game_state(&mut self, room_id: u128) -> (result: Result<GameState, Error>)
        requires
            old(self).wf(),
        ensures
            final(self).wf(),
            final(self).is_game_state_at(*old(self), room_id, result),
    {
        if !self.rooms.contains_key(&room_id) {
            return Err(Error::InvalidRoomId);
        }
        proof {
            assert(self.hosts(room_id));
        }
        let mut entry = self.take(room_id);
        let ghost without = *self;
        proof {
            let found = old(self).spec_directory()[room_id];
            assert(old(self).hosts(room_id));
            assert(found.id == room_id && found.room.wf());
            assert(entry == found);
        }
        entry.last_active = self.clock;
        let result = Ok(entry.room.game_state());
        self.put(entry);
        proof {
            self.lemma_called(*old(self), without, entry);
        }
        result
    }

    /// Drops the rooms that the server does not keep.
    fn sweep(&mut self, finished_too: bool)
        requires
            old(self).base_wf(),
        ensures
            final(self).wf(),
            final(self).is_sweep_of(*old(self), finished_too),
    {
        let ids = self.room_ids();
        let ghost before = *self;
        let mut i: usize = 0;
        while i < ids.len()
            invariant
                0 <= i <= ids@.len(),
                before == *old(self),
                before.base_wf(),
                ids@.to_set() == before.spec_directory().dom(),
                self.max_rooms == before.max_rooms,
                self.idle_window == before.idle_window,
                self.opening_rule == before.opening_rule,
                self.clock == before.clock,
                forall|id: u128| #[trigger]
                    self.hosts(id) <==> before.hosts(id) && (before.keeps(
                        before.spec_directory()[id],
                        finished_too,
                    ) || !ids@.subrange(0, i as int).contains(id)),
                forall|id: u128| #[trigger]
                    self.hosts(id) ==> self.spec_directory()[id] == before.spec_directory()[id],
            decreases ids@.len() - i,
        {
            let id: u128 = ids[i];
            let ghost current = *self;
            let ghost tried = ids@.subrange(0, i as int);
            let ghost tried_next = ids@.subrange(0, i + 1);
            proof {
                assert(ids@.contains(id));
                assert(before.hosts(id));
                assert(tried_next[i as int] == id);
                assert forall|other: u128| tried_next.contains(other) <==> tried.contains(other)
                    || other == id by {
                    if tried.contains(other) {
                        let j = choose|j: int| 0 <= j < tried.len() && tried[j] == other;
                        assert(tried_next[j] == other);
                    }
                    if tried_next.contains(other) {
                        let j = choose|j: int| 0 <= j < tried_next.len() && tried_next[j] == other;
                        if j < i {
                            assert(tried[j] == other);
                        }
                    }
                }
            }
            let gone: bool = match self.rooms.get(&id) {
                Some(entry) => {
                    proof {
                        assert(self.hosts(id));
                    }
                    let idle: bool = self.clock - entry.last_active >= self.idle_window;
                    let finished: bool = finished_too && entry.room.is_game_over();
                    idle || finished
                },
                None => false,
            };
            if gone {
                let dropped = self.rooms.remove(&id);
                proof {
                    assert forall|other: u128| #[trigger] self.hosts(other) implies self.spec_directory()[other]
                        == before.spec_directory()[other] by {
                        assert(current.hosts(other));
                    }
                    assert forall|other: u128| #[trigger]
                        self.hosts(other) <==> before.hosts(other) && (before.keeps(
                            before.spec_directory()[other],
                            finished_too,
                        ) || !tried_next.contains(other)) by {
                        assert(self.hosts(other) == (current.hosts(other) && other != id));
                    }
                }
            } else {
                proof {
                    assert forall|other: u128| #[trigger]
                        self.hosts(other) <==> before.hosts(other) && (before.keeps(
                            before.spec_directory()[other],
                            finished_too,
                        ) || !tried_next.contains(other)) by {
                        assert(self.hosts(other) == current.hosts(other));
                    }
                }
            }
            i = i + 1;
        }
        proof {
            assert(ids@.subrange(0, ids@.len() as int) =~= ids@);
            assert forall|id: u128| #[trigger]
                self.hosts(id) <==> before.hosts(id) && before.keeps(
                    before.spec_directory()[id],
                    finished_too,
                ) by {
                if before.hosts(id) {
                    assert(ids@.to_set().contains(id));
                    assert(ids@.contains(id));
                }
            }
            assert(self.spec_directory().dom().subset_of(before.spec_directory().dom())) by {
                assert forall|id: u128| self.spec_directory().dom().contains(id) implies before.spec_directory().dom().contains(id) by {
                    assert(self.hosts(id));
                }
            }
            vstd::set_lib::lemma_len_subset(
                self.spec_directory().dom(),
                before.spec_directory().dom(),
            );
        }
    }

    /// Sets the clock to `now`, unless it stands later already, and drops the
    /// rooms that have had no call for the length of the idle window.
    pub fn tick(&mut self, now: u64)
        requires
            old(self).wf(),
        ensures
            final(self).wf(),
            final(self).is_tick_of(*old(self), now),
    {
        if now > self.clock {
            self.clock = now;
        }
        let ghost ticked = *self;
        proof {
            assert(ticked.spec_directory() == old(self).spec_directory());
            assert forall|id: u128| #[trigger] ticked.hosts(id) implies {
                let entry = ticked.spec_directory()[id];
                &&& entry.id == id
                &&& entry.room.wf()
                &&& entry.last_active <= ticked.spec_clock()
            } by {
                assert(old(self).hosts(id));
            }
        }
        self.sweep(false);
        proof {
            assert forall|id: u128| #[trigger]
                self.hosts(id) <==> old(self).hosts(id) && !self.is_idle_at(
                    old(self).spec_directory()[id].last_active,
                    self.spec_clock(),
                ) by {
                assert(ticked.hosts(id) == old(self).hosts(id));
            }
            assert forall|id: u128| #[trigger] self.hosts(id) implies self.spec_directory()[id]
                == old(self).spec_directory()[id] by {
                assert(ticked.hosts(id));
            }
        }
    }

    /// Drops the rooms whose game is over.
    pub fn remove_finished_rooms(&mut self)
        requires
            old(self).wf(),
        ensures
            final(self).wf(),
            final(self).is_sweep_of(*old(self), true),
    {
        self.sweep(true);
    }

    /// The server can take `request` at the time `now`. It can take every
    /// request but one to open a room for no players, or with more decks than
    /// have cards that can be counted, at a time when it is not full.
    pub open spec fn can_handle(self, now: u64, request: Request) -> bool {
        match request {
            Request::CreateRoom { players, decks } => self.is_full_at(now) || can_make_room(
                players,
                decks,
            ),
            _ => true,
        }
    }

    /// Answers `request` at the time `now`: sets the clock to `now`, which
    /// drops the rooms that have fallen idle by then, and makes the call that
    /// the request stands for.
    pub fn handle(&mut self, now: u64, request: Request) -> (response: Response)
        requires
            old(self).wf(),
            old(self).can_handle(now, request),
        ensures
            final(self).wf(),
            final(self).handles(*old(self), now, request, response),
    {
        self.tick(now);
        let ghost ticked = *self;
        proof {
            assert forall|id: u128|
                ticked.spec_directory().dom().contains(id) <==> old(self).live_rooms_at(
                    now,
                ).contains(id) by {
                assert(ticked.hosts(id) == ticked.spec_directory().dom().contains(id));
            }
            assert(ticked.spec_directory().dom() =~= old(self).live_rooms_at(now));
        }
        let response = match request {
            Request::CreateRoom { players, decks } => Response::RoomCreated(
                self.create_room(players, decks),
            ),
            Request::JoinRoom { room } => Response::Joined(self.join(room)),
            Request::Play { action, player, room } => Response::Played(
                self.play(action, player, room),
            ),
            Request::GetHand { player, room } => Response::Hand(self.hand(room, player)),
            Request::LastMove { room } => Response::LastMove(self.last_move(room)),
            Request::GameState { room } => Response::GameState(self.game_state(room)),
        };
        proof {
            assert(ticked.is_tick_of(*old(self), now));
            assert(self.answers(ticked, request, response));
        }
        response
    }

    /// A room that has had no call for the length of the idle window is gone
    /// once the clock has been set: the server no longer hosts it, so every
    /// call to it is answered with `InvalidRoomId`.
    pub proof fn lemma_idle_room_is_gone(self, before: Server, now: u64, room_id: u128)
        requires
            before.wf(),
            self.is_tick_of(before, now),
            before.hosts(room_id),
            now - before.spec_directory()[room_id].last_active >= before.spec_idle_window(),
        ensures
            !self.hosts(room_id),
    {
    }
}

/// A new identifier for a room.
///
/// The body calls `uuid::Uuid::new_v4` and hands the identifier on as the
/// number that `Uuid::as_u128` makes of it. The identifier is random, so
/// nothing is claimed of it. Its bits come from the operating system; where
/// that fails, the call panics.
#[verifier::external_body]
fn fresh_room_id() -> (id: u128) {
    uuid::Uuid::new_v4().as_u128()
}

} // verus!
