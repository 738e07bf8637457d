use badam_sat::cards::{standard_deck, Card, Rank, Suit};

#[test]
fn rank_values_run_from_one_to_thirteen() {
    assert_eq!(Rank::Ace.value(), 1);
    assert_eq!(Rank::Seven.value(), 7);
    assert_eq!(Rank::Jack.value(), 11);
    assert_eq!(Rank::Queen.value(), 12);
    assert_eq!(Rank::King.value(), 13);
    for value in 1..=13u8 {
        assert_eq!(Rank::new(value).value(), value);
    }
}

#[test]
fn rank_from_value_refuses_what_is_no_rank() {
    assert_eq!(Rank::from_value(0), None);
    assert_eq!(Rank::from_value(14), None);
    assert_eq!(Rank::from_value(255), None);
    assert_eq!(Rank::from_value(1), Some(Rank::Ace));
    assert_eq!(Rank::from_value(13), Some(Rank::King));
}

#[test]
fn suits_keep_their_order() {
    assert_eq!(
        Suit::all_suits(),
        [Suit::Clubs, Suit::Diamonds, Suit::Hearts, Suit::Spades]
    );
    for (i, suit) in Suit::all_suits().iter().enumerate() {
        assert_eq!(suit.index(), i);
        assert_eq!(Suit::from_index(i), *suit);
    }
}

#[test]
fn cards_are_equal_by_suit_and_rank() {
    let queen = Card::new(Suit::Clubs, Rank::Queen);
    assert_eq!(queen, Card::new(Suit::Clubs, Rank::new(12)));
    assert_ne!(queen, Card::new(Suit::Spades, Rank::Queen));
    assert_ne!(queen, Card::new(Suit::Clubs, Rank::Jack));
    assert_eq!(queen.suit(), Suit::Clubs);
    assert_eq!(queen.rank(), Rank::Queen);
}

#[test]
fn one_deck_holds_each_card_once_in_order() {
    let deck = standard_deck(1);
    assert_eq!(deck.len(), 52);
    assert_eq!(deck[0], Card::new(Suit::Clubs, Rank::Ace));
    assert_eq!(deck[12], Card::new(Suit::Clubs, Rank::King));
    assert_eq!(deck[13], Card::new(Suit::Diamonds, Rank::Ace));
    assert_eq!(deck[32], Card::new(Suit::Hearts, Rank::Seven));
    assert_eq!(deck[51], Card::new(Suit::Spades, Rank::King));
    for i in 0..52 {
        for j in 0..i {
            assert_ne!(deck[i], deck[j]);
        }
    }
}

#[test]
fn further_decks_repeat_the_first() {
    let deck = standard_deck(3);
    assert_eq!(deck.len(), 156);
    for i in 0..52 {
        assert_eq!(deck[i], deck[i + 52]);
        assert_eq!(deck[i], deck[i + 104]);
    }
    assert_eq!(standard_deck(0).len(), 0);
}
