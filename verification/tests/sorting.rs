use std::cmp::Ordering;

use badam_sat::cards::{standard_deck, Card, Rank, Suit};
use badam_sat::sorting::card_comparator;

#[test]
fn cards_sort_by_suit_and_then_from_ace_to_king() {
    let ace = Card::new(Suit::Hearts, Rank::Ace);
    let ten = Card::new(Suit::Hearts, Rank::Ten);
    let jack = Card::new(Suit::Hearts, Rank::Jack);
    let king = Card::new(Suit::Hearts, Rank::King);
    assert_eq!(card_comparator(&ace, &ten), Ordering::Less);
    assert_eq!(card_comparator(&ten, &jack), Ordering::Less);
    assert_eq!(card_comparator(&king, &jack), Ordering::Greater);
    assert_eq!(card_comparator(&king, &ace), Ordering::Greater);
    assert_eq!(card_comparator(&jack, &jack), Ordering::Equal);
    let low_spade = Card::new(Suit::Spades, Rank::Two);
    let high_club = Card::new(Suit::Clubs, Rank::King);
    let diamond = Card::new(Suit::Diamonds, Rank::Seven);
    assert_eq!(card_comparator(&high_club, &low_spade), Ordering::Less);
    assert_eq!(card_comparator(&diamond, &high_club), Ordering::Greater);
    assert_eq!(card_comparator(&diamond, &ace), Ordering::Less);
    assert_eq!(card_comparator(&low_spade, &king), Ordering::Greater);
}

#[test]
fn sorting_a_mixed_deck_gives_the_unshuffled_one() {
    let deck = standard_deck(1);
    let mut mixed: Vec<Card> = (0..52).map(|i| deck[(i * 5 + 11) % 52]).collect();
    assert_ne!(mixed, deck);
    mixed.sort_by(card_comparator);
    assert_eq!(mixed, deck);
}
