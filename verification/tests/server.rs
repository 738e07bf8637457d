use badam_sat::cards::{Card, Rank, Suit};
use badam_sat::errors::Error;
use badam_sat::games::opening_card;
use badam_sat::rooms::Action;
use badam_sat::server::{Request, Response, Server};
use badam_sat::stacks::StackState;

const WINDOW: u64 = 300;

fn seat_all(server: &mut Server, room: u128, players: usize) {
    for seat in 0..players {
        assert_eq!(server.join(room), Ok(seat));
    }
}

fn opener(server: &mut Server, room: u128, players: usize) -> usize {
    (0..players)
        .find(|player| server.hand(room, *player).unwrap().contains(&opening_card()))
        .unwrap()
}

#[test]
fn new_server_hosts_nothing() {
    let mut server = Server::new(4, WINDOW);
    assert_eq!(server.room_count(), 0);
    assert_eq!(server.clock(), 0);
    assert_eq!(server.join(7), Err(Error::InvalidRoomId));
}

#[test]
fn created_room_is_hosted_under_the_identifier_returned() {
    let mut server = Server::new(4, WINDOW);
    let room = server.create_room(2, 1).unwrap();
    assert_eq!(server.room_count(), 1);
    assert_eq!(server.join(room), Ok(0));
    assert_eq!(server.game_state(room).unwrap().card_counts(), &[0usize][..]);
    let other = server.create_room(3, 2).unwrap();
    assert_ne!(room, other);
    assert_eq!(server.room_count(), 2);
    assert_eq!(server.game_state(other).unwrap().playing_area().stacks().len(), 8);
    assert_eq!(server.game_state(room).unwrap().playing_area().stacks().len(), 4);
}

#[test]
fn full_server_refuses_another_room() {
    let mut server = Server::new(1, WINDOW);
    let room = server.create_room(2, 1).unwrap();
    assert_eq!(server.create_room(2, 1), Err(Error::ServerFull));
    assert_eq!(server.create_room_with_id(2, 1, room), Err(Error::ServerFull));
    assert_eq!(server.create_room_with_id(2, 1, room.wrapping_add(1)), Err(Error::ServerFull));
    assert_eq!(server.room_count(), 1);
    assert_eq!(server.join(room), Ok(0));
}

#[test]
fn server_for_no_rooms_is_always_full() {
    let mut server = Server::new(0, WINDOW);
    assert!(server.is_full());
    assert_eq!(server.create_room(2, 1), Err(Error::ServerFull));
    assert_eq!(server.room_count(), 0);
}

#[test]
fn full_server_refuses_whatever_the_numbers_are() {
    let mut server = Server::new(1, WINDOW);
    assert!(!server.is_full());
    let room = server.create_room(2, 1).unwrap();
    assert!(server.is_full());
    assert_eq!(server.create_room(0, 1), Err(Error::ServerFull));
    assert_eq!(server.create_room(2, usize::MAX), Err(Error::ServerFull));
    assert_eq!(server.create_room_with_id(0, usize::MAX, room), Err(Error::ServerFull));
    assert!(matches!(
        server.handle(1, Request::CreateRoom { players: 0, decks: usize::MAX }),
        Response::RoomCreated(Err(Error::ServerFull))
    ));
    assert_eq!(server.room_count(), 1);
    assert_eq!(server.join(room), Ok(0));
    // Once the room has fallen idle there is room for another.
    server.tick(1 + WINDOW);
    assert!(!server.is_full());
    assert!(server.create_room(2, 1).is_ok());
}

#[test]
fn room_made_under_a_hosted_identifier_takes_its_place() {
    let mut server = Server::new(3, WINDOW);
    assert_eq!(server.create_room_with_id(2, 1, 11), Ok(11));
    assert_eq!(server.create_room_with_id(2, 1, 12), Ok(12));
    assert_eq!(server.join(11), Ok(0));
    assert_eq!(server.join(12), Ok(0));
    assert_eq!(server.create_room_with_id(4, 2, 11), Ok(11));
    assert_eq!(server.room_count(), 2);
    // The new room 11 is empty; room 12 is as it was.
    assert_eq!(server.join(11), Ok(0));
    assert_eq!(server.join(12), Ok(1));
    assert_eq!(server.game_state(11).unwrap().playing_area().stacks().len(), 8);
}

#[test]
fn calls_to_an_unknown_room_are_refused() {
    let mut server = Server::new(4, WINDOW);
    let room = server.create_room_with_id(2, 1, 5).unwrap();
    let unknown = room + 1;
    assert_eq!(server.join(unknown), Err(Error::InvalidRoomId));
    assert_eq!(server.play(Action::Pass, 0, unknown), Err(Error::InvalidRoomId));
    assert_eq!(server.hand(unknown, 0), Err(Error::InvalidRoomId));
    assert_eq!(server.last_move(unknown), Err(Error::InvalidRoomId));
    assert!(matches!(server.game_state(unknown), Err(Error::InvalidRoomId)));
    assert_eq!(server.room_count(), 1);
}

#[test]
fn two_joins_deal_and_the_first_card_must_be_the_opening_card() {
    let mut server = Server::new(4, WINDOW);
    let room = server.create_room(2, 1).unwrap();
    assert_eq!(server.play(Action::Pass, 0, room), Err(Error::TooEarly));
    assert_eq!(server.join(room), Ok(0));
    assert_eq!(server.play(Action::Pass, 0, room), Err(Error::TooEarly));
    assert_eq!(server.join(room), Ok(1));
    assert_eq!(server.join(room), Err(Error::RoomFull));
    assert_eq!(server.game_state(room).unwrap().card_counts(), &[26usize, 26][..]);
    assert_eq!(server.last_move(room), Err(Error::NoMove));

    let first = opener(&mut server, room, 2);
    if first == 1 {
        for held in server.hand(room, 0).unwrap() {
            assert_eq!(server.play(Action::Play(held), 0, room), Err(Error::InvalidMove));
        }
        assert_eq!(server.play(Action::Pass, 0, room), Ok(()));
    }
    let held: Vec<Card> = server.hand(room, first).unwrap();
    for other in held.iter().filter(|held| **held != opening_card()) {
        assert_eq!(server.play(Action::Play(*other), first, room), Err(Error::InvalidMove));
    }
    assert_eq!(
        server.last_move(room),
        if first == 1 { Ok(Action::Pass) } else { Err(Error::NoMove) }
    );
    assert_eq!(server.play(Action::Play(opening_card()), first, room), Ok(()));
    assert_eq!(server.last_move(room), Ok(Action::Play(opening_card())));
    let state = server.game_state(room).unwrap();
    assert_eq!(*state.playing_area().stacks()[2].stack_state(), StackState::SevenOnly);
    assert_eq!(state.card_counts().iter().sum::<usize>(), 51);
}

#[test]
fn server_refuses_the_hand_of_a_player_who_is_not_there() {
    let mut server = Server::new(4, WINDOW);
    let room = server.create_room(2, 1).unwrap();
    assert_eq!(server.hand(room, 2), Err(Error::InvalidPlayerId));
    assert_eq!(server.hand(room, 0), Ok(Vec::new()));
}

#[test]
fn moves_in_one_room_leave_the_others_alone() {
    let mut server = Server::new(4, WINDOW);
    let one = server.create_room(2, 1).unwrap();
    let two = server.create_room(2, 1).unwrap();
    seat_all(&mut server, one, 2);
    seat_all(&mut server, two, 2);
    let hands_two = (server.hand(two, 0).unwrap(), server.hand(two, 1).unwrap());
    let first = opener(&mut server, one, 2);
    if first == 1 {
        server.play(Action::Pass, 0, one).unwrap();
    }
    server.play(Action::Play(opening_card()), first, one).unwrap();
    assert_eq!((server.hand(two, 0).unwrap(), server.hand(two, 1).unwrap()), hands_two);
    assert_eq!(server.last_move(two), Err(Error::NoMove));
    assert!(server.game_state(two).unwrap().playing_area().is_empty());
}

#[test]
fn room_without_calls_for_the_idle_window_is_gone() {
    let mut server = Server::new(4, WINDOW);
    server.tick(1_000);
    assert_eq!(server.clock(), 1_000);
    let room = server.create_room(2, 1).unwrap();
    server.tick(1_000 + WINDOW - 1);
    assert_eq!(server.room_count(), 1);
    server.tick(1_000 + WINDOW);
    assert_eq!(server.room_count(), 0);
    assert_eq!(server.join(room), Err(Error::InvalidRoomId));
    assert_eq!(server.play(Action::Pass, 0, room), Err(Error::InvalidRoomId));
    assert_eq!(server.hand(room, 0), Err(Error::InvalidRoomId));
    assert_eq!(server.last_move(room), Err(Error::InvalidRoomId));
    assert!(matches!(server.game_state(room), Err(Error::InvalidRoomId)));
}

#[test]
fn every_call_to_a_room_keeps_it_for_another_window() {
    let mut server = Server::new(4, WINDOW);
    let room = server.create_room(2, 1).unwrap();
    let mut now = 0;
    // A refused call and a mere question count as calls too.
    for call in 0..6 {
        now += WINDOW - 1;
        server.tick(now);
        match call {
            0 => assert_eq!(server.play(Action::Pass, 0, room), Err(Error::TooEarly)),
            1 => assert_eq!(server.join(room), Ok(0)),
            2 => assert_eq!(server.hand(room, 5), Err(Error::InvalidPlayerId)),
            3 => assert_eq!(server.last_move(room), Err(Error::NoMove)),
            4 => assert!(server.game_state(room).is_ok()),
            _ => assert_eq!(server.hand(room, 0), Ok(Vec::new())),
        }
        assert_eq!(server.room_count(), 1);
    }
    server.tick(now + WINDOW);
    assert_eq!(server.room_count(), 0);
    assert_eq!(server.join(room), Err(Error::InvalidRoomId));
}

#[test]
fn only_the_idle_rooms_go() {
    let mut server = Server::new(4, WINDOW);
    let old = server.create_room(2, 1).unwrap();
    server.tick(200);
    let young = server.create_room(2, 1).unwrap();
    server.tick(WINDOW);
    assert_eq!(server.room_count(), 1);
    assert_eq!(server.join(old), Err(Error::InvalidRoomId));
    assert_eq!(server.join(young), Ok(0));
    // Room was made for one more.
    assert!(server.create_room(2, 1).is_ok());
}

#[test]
fn clock_never_goes_back() {
    let mut server = Server::new(4, WINDOW);
    server.tick(500);
    let room = server.create_room(2, 1).unwrap();
    server.tick(100);
    assert_eq!(server.clock(), 500);
    assert_eq!(server.join(room), Ok(0));
    server.tick(u64::MAX);
    assert_eq!(server.clock(), u64::MAX);
    assert_eq!(server.join(room), Err(Error::InvalidRoomId));
}

#[test]
fn sweep_drops_the_rooms_whose_game_is_over() {
    let mut server = Server::new(4, WINDOW);
    let over = server.create_room(52, 1).unwrap();
    let on = server.create_room(2, 1).unwrap();
    let waiting = server.create_room(2, 1).unwrap();
    seat_all(&mut server, over, 52);
    seat_all(&mut server, on, 2);
    let first = opener(&mut server, over, 52);
    for earlier in 0..first {
        assert_eq!(server.play(Action::Pass, earlier, over), Ok(()));
    }
    assert_eq!(server.play(Action::Play(opening_card()), first, over), Ok(()));
    // The finished room still answers until it is swept out.
    assert_eq!(server.play(Action::Pass, 0, over), Err(Error::InvalidMove));
    assert_eq!(server.last_move(over), Ok(Action::Play(opening_card())));
    assert_eq!(server.room_count(), 3);
    server.remove_finished_rooms();
    assert_eq!(server.room_count(), 2);
    assert_eq!(server.last_move(over), Err(Error::InvalidRoomId));
    assert_eq!(server.last_move(on), Err(Error::NoMove));
    assert_eq!(server.join(waiting), Ok(0));
    server.remove_finished_rooms();
    assert_eq!(server.room_count(), 2);
}

#[test]
fn requests_are_answered_as_the_calls_they_stand_for() {
    let mut server = Server::new(1, WINDOW);
    let room = match server.handle(10, Request::CreateRoom { players: 2, decks: 1 }) {
        Response::RoomCreated(Ok(room)) => room,
        other => panic!("unexpected answer {:?}", other),
    };
    assert_eq!(server.clock(), 10);
    assert!(matches!(
        server.handle(11, Request::CreateRoom { players: 2, decks: 1 }),
        Response::RoomCreated(Err(Error::ServerFull))
    ));
    assert!(matches!(
        server.handle(12, Request::Play { action: Action::Pass, player: 0, room }),
        Response::Played(Err(Error::TooEarly))
    ));
    assert!(matches!(server.handle(13, Request::JoinRoom { room }), Response::Joined(Ok(0))));
    assert!(matches!(server.handle(14, Request::JoinRoom { room }), Response::Joined(Ok(1))));
    assert!(matches!(
        server.handle(15, Request::JoinRoom { room }),
        Response::Joined(Err(Error::RoomFull))
    ));
    assert!(matches!(
        server.handle(16, Request::LastMove { room }),
        Response::LastMove(Err(Error::NoMove))
    ));
    match server.handle(17, Request::GetHand { player: 1, room }) {
        Response::Hand(Ok(cards)) => assert_eq!(cards.len(), 26),
        other => panic!("unexpected answer {:?}", other),
    }
    assert!(matches!(
        server.handle(18, Request::GetHand { player: 2, room }),
        Response::Hand(Err(Error::InvalidPlayerId))
    ));
    match server.handle(19, Request::GameState { room }) {
        Response::GameState(Ok(state)) => assert_eq!(state.card_counts(), &[26usize, 26][..]),
        other => panic!("unexpected answer {:?}", other),
    }
    assert!(matches!(
        server.handle(20, Request::JoinRoom { room: room.wrapping_add(1) }),
        Response::Joined(Err(Error::InvalidRoomId))
    ));
    // The last call to the room was at 19.
    assert!(matches!(
        server.handle(19 + WINDOW, Request::GameState { room }),
        Response::GameState(Err(Error::InvalidRoomId))
    ));
    assert_eq!(server.room_count(), 0);
    assert!(matches!(
        server.handle(19 + WINDOW, Request::CreateRoom { players: 2, decks: 1 }),
        Response::RoomCreated(Ok(_))
    ));
}

#[test]
fn server_without_the_opening_rule_lets_any_seven_open() {
    let mut server = Server::with_opening_rule(2, WINDOW, false);
    let room = server.create_room(1, 1).unwrap();
    assert_eq!(server.join(room), Ok(0));
    let seven = Card::new(Suit::Spades, Rank::Seven);
    assert_eq!(server.play(Action::Play(seven), 0, room), Ok(()));
    assert_eq!(server.last_move(room), Ok(Action::Play(seven)));

    let mut server = Server::new(2, WINDOW);
    let room = server.create_room(1, 1).unwrap();
    assert_eq!(server.join(room), Ok(0));
    assert_eq!(server.play(Action::Play(seven), 0, room), Err(Error::InvalidMove));
    assert_eq!(server.play(Action::Play(opening_card()), 0, room), Ok(()));
    assert_eq!(server.play(Action::Play(seven), 0, room), Ok(()));
}
