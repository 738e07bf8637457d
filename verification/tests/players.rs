use badam_sat::cards::{Card, Rank, Suit};
use badam_sat::players::Player;

fn card(suit: Suit, value: u8) -> Card {
    Card::new(suit, Rank::new(value))
}

#[test]
fn new_player_holds_nothing() {
    let player = Player::new();
    assert_eq!(player.hand_len(), 0);
    assert_eq!(player.capacity(), 0);
    assert!(player.hand().is_empty());
    let other = Player::default();
    assert_eq!(other.hand_len(), 0);
    assert_eq!(other.capacity(), 0);
}

#[test]
fn player_with_capacity_waits_for_that_many_cards() {
    let mut player = Player::with_capacity(2);
    assert_eq!(player.capacity(), 2);
    assert_eq!(player.hand_len(), 0);
    player.assign_cards(vec![card(Suit::Hearts, 12), card(Suit::Spades, 2)]);
    assert_eq!(player.capacity(), 2);
    assert_eq!(player.hand(), &[card(Suit::Hearts, 12), card(Suit::Spades, 2)][..]);
}

#[test]
fn assigning_to_a_player_without_capacity_fixes_it() {
    let mut player = Player::new();
    player.assign_cards(vec![card(Suit::Spades, 11)]);
    assert_eq!(player.capacity(), 1);
    assert_eq!(player.hand_len(), 1);
    assert!(player.has_card(&card(Suit::Spades, 11)));
    assert!(!player.has_card(&card(Suit::Clubs, 12)));
}

#[test]
fn player_made_with_a_hand_holds_it() {
    let cards = vec![card(Suit::Clubs, 1), card(Suit::Clubs, 2), card(Suit::Clubs, 3)];
    let player = Player::new_with_hand(cards.clone());
    assert_eq!(player.capacity(), 3);
    assert_eq!(player.hand(), &cards[..]);
}

#[test]
fn removing_takes_the_first_of_equal_cards() {
    let seven = card(Suit::Hearts, 7);
    let king = card(Suit::Spades, 13);
    let two = card(Suit::Clubs, 2);
    let mut player = Player::new_with_hand(vec![king, seven, two, seven]);
    player.remove_card(&seven);
    assert_eq!(player.hand(), &[king, two, seven][..]);
    assert_eq!(player.capacity(), 4);
    player.remove_card(&seven);
    assert_eq!(player.hand(), &[king, two][..]);
    assert!(!player.has_card(&seven));
}

#[test]
fn unique_cards_keep_the_place_of_their_first_occurrence() {
    let seven = card(Suit::Hearts, 7);
    let king = card(Suit::Spades, 13);
    let two = card(Suit::Clubs, 2);
    let player = Player::new_with_hand(vec![king, seven, king, two, seven, seven]);
    assert_eq!(player.unique_cards_in_hand(), vec![king, seven, two]);
    assert_eq!(player.hand_len(), 6);
    assert!(Player::new().unique_cards_in_hand().is_empty());
}

#[test]
fn copy_of_a_player_holds_the_same() {
    let player = Player::new_with_hand(vec![card(Suit::Hearts, 7), card(Suit::Hearts, 8)]);
    let mut copy = player.clone();
    assert_eq!(copy.hand(), player.hand());
    assert_eq!(copy.capacity(), player.capacity());
    copy.remove_card(&card(Suit::Hearts, 7));
    assert_eq!(player.hand_len(), 2);
    assert_eq!(copy.hand_len(), 1);
}
