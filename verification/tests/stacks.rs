use badam_sat::cards::{Card, Rank, Suit};
use badam_sat::stacks::{CardStack, InvalidPlay, PlayingArea, StackState};

fn card(suit: Suit, value: u8) -> Card {
    Card::new(suit, Rank::new(value))
}

fn stack_of(suit: Suit, values: &[u8]) -> CardStack {
    let mut stack = CardStack::new(suit);
    for value in values {
        stack = stack.add(card(suit, *value)).unwrap();
    }
    stack
}

fn bounds(stack: &CardStack) -> Option<(u8, u8)> {
    match stack.stack_state() {
        StackState::Empty => None,
        StackState::SevenOnly => Some((7, 7)),
        StackState::LowOnly(low) => Some((low.rank().value(), 7)),
        StackState::HighOnly(high) => Some((7, high.rank().value())),
        StackState::LowAndHigh { low, high } => Some((low.rank().value(), high.rank().value())),
    }
}

#[test]
fn empty_stack_accepts_only_the_seven() {
    let stack = CardStack::new(Suit::Hearts);
    assert_eq!(*stack.stack_state(), StackState::Empty);
    for value in 1..=13u8 {
        let result = stack.add(card(Suit::Hearts, value));
        if value == 7 {
            let seven = result.unwrap();
            assert_eq!(*seven.stack_state(), StackState::SevenOnly);
            assert_eq!(*seven.suit(), Suit::Hearts);
        } else {
            assert_eq!(result, Err(InvalidPlay::RankMismatch));
        }
    }
}

#[test]
fn seven_only_accepts_six_and_eight() {
    let stack = stack_of(Suit::Clubs, &[7]);
    for value in 1..=13u8 {
        let played = card(Suit::Clubs, value);
        let result = stack.add(played);
        match value {
            6 => assert_eq!(*result.unwrap().stack_state(), StackState::LowOnly(played)),
            8 => assert_eq!(*result.unwrap().stack_state(), StackState::HighOnly(played)),
            _ => assert_eq!(result, Err(InvalidPlay::RankMismatch)),
        }
    }
}

#[test]
fn low_only_grows_downward_or_takes_the_eight() {
    let stack = stack_of(Suit::Spades, &[7, 6, 5]);
    assert_eq!(*stack.stack_state(), StackState::LowOnly(card(Suit::Spades, 5)));
    let lower = stack.add(card(Suit::Spades, 4)).unwrap();
    assert_eq!(*lower.stack_state(), StackState::LowOnly(card(Suit::Spades, 4)));
    let both = stack.add(card(Suit::Spades, 8)).unwrap();
    assert_eq!(
        *both.stack_state(),
        StackState::LowAndHigh { low: card(Suit::Spades, 5), high: card(Suit::Spades, 8) }
    );
    for value in [1u8, 2, 3, 5, 6, 7, 9, 13] {
        assert_eq!(stack.add(card(Suit::Spades, value)), Err(InvalidPlay::RankMismatch));
    }
}

#[test]
fn high_only_grows_upward_or_takes_the_six() {
    let stack = stack_of(Suit::Diamonds, &[7, 8, 9]);
    assert_eq!(*stack.stack_state(), StackState::HighOnly(card(Suit::Diamonds, 9)));
    let higher = stack.add(card(Suit::Diamonds, 10)).unwrap();
    assert_eq!(*higher.stack_state(), StackState::HighOnly(card(Suit::Diamonds, 10)));
    let both = stack.add(card(Suit::Diamonds, 6)).unwrap();
    assert_eq!(
        *both.stack_state(),
        StackState::LowAndHigh { low: card(Suit::Diamonds, 6), high: card(Suit::Diamonds, 9) }
    );
    for value in [1u8, 5, 7, 8, 9, 11, 13] {
        assert_eq!(stack.add(card(Suit::Diamonds, value)), Err(InvalidPlay::RankMismatch));
    }
}

#[test]
fn low_and_high_grows_at_either_end() {
    let stack = stack_of(Suit::Hearts, &[7, 6, 8]);
    let lower = stack.add(card(Suit::Hearts, 5)).unwrap();
    assert_eq!(
        *lower.stack_state(),
        StackState::LowAndHigh { low: card(Suit::Hearts, 5), high: card(Suit::Hearts, 8) }
    );
    let higher = stack.add(card(Suit::Hearts, 9)).unwrap();
    assert_eq!(
        *higher.stack_state(),
        StackState::LowAndHigh { low: card(Suit::Hearts, 6), high: card(Suit::Hearts, 9) }
    );
    for value in [1u8, 4, 6, 7, 8, 10, 13] {
        assert_eq!(stack.add(card(Suit::Hearts, value)), Err(InvalidPlay::RankMismatch));
    }
}

#[test]
fn stack_from_ace_to_king_is_full() {
    let stack = stack_of(Suit::Clubs, &[7, 6, 5, 4, 3, 2, 1, 8, 9, 10, 11, 12, 13]);
    assert_eq!(
        *stack.stack_state(),
        StackState::LowAndHigh { low: card(Suit::Clubs, 1), high: card(Suit::Clubs, 13) }
    );
    for value in 1..=13u8 {
        assert_eq!(stack.add(card(Suit::Clubs, value)), Err(InvalidPlay::StackFull));
    }
    assert!(stack.next_playable().is_empty());
}

#[test]
fn stack_down_to_the_ace_still_takes_the_eight() {
    let stack = stack_of(Suit::Clubs, &[7, 6, 5, 4, 3, 2, 1]);
    assert_eq!(*stack.stack_state(), StackState::LowOnly(card(Suit::Clubs, 1)));
    assert_eq!(stack.next_playable(), vec![card(Suit::Clubs, 8)]);
    assert_eq!(stack.add(card(Suit::Clubs, 13)), Err(InvalidPlay::RankMismatch));
    assert!(stack.add(card(Suit::Clubs, 8)).is_ok());
}

#[test]
fn stack_up_to_the_king_still_takes_the_six() {
    let stack = stack_of(Suit::Clubs, &[7, 8, 9, 10, 11, 12, 13]);
    assert_eq!(*stack.stack_state(), StackState::HighOnly(card(Suit::Clubs, 13)));
    assert_eq!(stack.next_playable(), vec![card(Suit::Clubs, 6)]);
    assert_eq!(stack.add(card(Suit::Clubs, 1)), Err(InvalidPlay::RankMismatch));
    assert!(stack.add(card(Suit::Clubs, 6)).is_ok());
}

#[test]
fn card_of_another_suit_is_a_suit_mismatch() {
    for stack in [
        stack_of(Suit::Hearts, &[]),
        stack_of(Suit::Hearts, &[7]),
        stack_of(Suit::Hearts, &[7, 6]),
        stack_of(Suit::Hearts, &[7, 8]),
        stack_of(Suit::Hearts, &[7, 6, 8]),
        stack_of(Suit::Hearts, &[7, 6, 5, 4, 3, 2, 1, 8, 9, 10, 11, 12, 13]),
    ] {
        for value in 1..=13u8 {
            assert_eq!(stack.add(card(Suit::Spades, value)), Err(InvalidPlay::SuitMismatch));
        }
    }
}

#[test]
fn adding_leaves_the_stack_itself_as_it_was() {
    let stack = stack_of(Suit::Hearts, &[7]);
    let _ = stack.add(card(Suit::Hearts, 6)).unwrap();
    assert_eq!(*stack.stack_state(), StackState::SevenOnly);
}

#[test]
fn next_playable_lists_the_lower_card_first() {
    let suit = Suit::Diamonds;
    assert_eq!(stack_of(suit, &[]).next_playable(), vec![card(suit, 7)]);
    assert_eq!(stack_of(suit, &[7]).next_playable(), vec![card(suit, 6), card(suit, 8)]);
    assert_eq!(stack_of(suit, &[7, 6, 5]).next_playable(), vec![card(suit, 4), card(suit, 8)]);
    assert_eq!(stack_of(suit, &[7, 8, 9]).next_playable(), vec![card(suit, 6), card(suit, 10)]);
    assert_eq!(
        stack_of(suit, &[7, 6, 8, 9]).next_playable(),
        vec![card(suit, 5), card(suit, 10)]
    );
    assert_eq!(
        stack_of(suit, &[7, 6, 5, 4, 3, 2, 1, 8]).next_playable(),
        vec![card(suit, 9)]
    );
    assert_eq!(
        stack_of(suit, &[7, 8, 9, 10, 11, 12, 13, 6]).next_playable(),
        vec![card(suit, 5)]
    );
}

#[test]
fn next_playable_is_what_add_accepts() {
    let suit = Suit::Spades;
    for stack in [
        stack_of(suit, &[]),
        stack_of(suit, &[7]),
        stack_of(suit, &[7, 6, 5, 4]),
        stack_of(suit, &[7, 8]),
        stack_of(suit, &[7, 6, 8, 5, 9]),
        stack_of(suit, &[7, 6, 5, 4, 3, 2, 1, 8, 9, 10, 11, 12, 13]),
    ] {
        let listed = stack.next_playable();
        for other in Suit::all_suits() {
            for value in 1..=13u8 {
                let played = card(other, value);
                assert_eq!(stack.add(played).is_ok(), listed.contains(&played));
            }
        }
    }
}

#[test]
fn bounds_of_a_stack_never_narrow() {
    let order: [u8; 13] = [7, 8, 6, 5, 9, 10, 4, 3, 11, 2, 12, 1, 13];
    let mut stack = CardStack::new(Suit::Hearts);
    let mut seen: Option<(u8, u8)> = None;
    for (played, value) in order.iter().enumerate() {
        stack = stack.add(card(Suit::Hearts, *value)).unwrap();
        let (low, high) = bounds(&stack).unwrap();
        if let Some((old_low, old_high)) = seen {
            assert!(low <= old_low);
            assert!(high >= old_high);
        }
        assert_eq!((high - low + 1) as usize, played + 1);
        seen = Some((low, high));
    }
    assert_eq!(seen, Some((1, 13)));
}

#[test]
fn playing_area_has_a_stack_for_each_suit_and_deck() {
    let area = PlayingArea::with_deck_capacity(2);
    let suits: Vec<Suit> = area.stacks().iter().map(|stack| *stack.suit()).collect();
    assert_eq!(
        suits,
        vec![
            Suit::Clubs,
            Suit::Clubs,
            Suit::Diamonds,
            Suit::Diamonds,
            Suit::Hearts,
            Suit::Hearts,
            Suit::Spades,
            Suit::Spades
        ]
    );
    assert!(area.stacks().iter().all(|stack| *stack.stack_state() == StackState::Empty));
    assert!(area.is_empty());
    assert_eq!(PlayingArea::with_deck_capacity(0).stacks().len(), 0);
    assert!(PlayingArea::with_deck_capacity(0).is_empty());
}

#[test]
fn playing_area_puts_the_card_on_the_first_stack_that_takes_it() {
    let mut area = PlayingArea::with_deck_capacity(2);
    assert_eq!(area.try_play(card(Suit::Hearts, 7)), Ok(()));
    assert!(!area.is_empty());
    assert_eq!(*area.stacks()[4].stack_state(), StackState::SevenOnly);
    assert_eq!(*area.stacks()[5].stack_state(), StackState::Empty);
    // The first hearts stack does not take a second seven: it goes to the next.
    assert_eq!(area.try_play(card(Suit::Hearts, 7)), Ok(()));
    assert_eq!(*area.stacks()[5].stack_state(), StackState::SevenOnly);
    // Both take the six: it goes to the first.
    assert_eq!(area.try_play(card(Suit::Hearts, 6)), Ok(()));
    assert_eq!(*area.stacks()[4].stack_state(), StackState::LowOnly(card(Suit::Hearts, 6)));
    assert_eq!(*area.stacks()[5].stack_state(), StackState::SevenOnly);
    // Only the first takes the five.
    assert_eq!(area.try_play(card(Suit::Hearts, 5)), Ok(()));
    assert_eq!(*area.stacks()[4].stack_state(), StackState::LowOnly(card(Suit::Hearts, 5)));
    // Now only the second takes a six.
    assert_eq!(area.try_play(card(Suit::Hearts, 6)), Ok(()));
    assert_eq!(*area.stacks()[5].stack_state(), StackState::LowOnly(card(Suit::Hearts, 6)));
    for i in [0usize, 1, 2, 3, 6, 7] {
        assert_eq!(*area.stacks()[i].stack_state(), StackState::Empty);
    }
}

#[test]
fn playing_area_refuses_a_card_that_no_stack_takes() {
    let mut area = PlayingArea::with_deck_capacity(1);
    assert_eq!(area.try_play(card(Suit::Hearts, 8)), Err(InvalidPlay::CardMismatch));
    assert!(area.is_empty());
    assert_eq!(area.try_play(card(Suit::Hearts, 7)), Ok(()));
    assert_eq!(area.try_play(card(Suit::Hearts, 7)), Err(InvalidPlay::CardMismatch));
    assert_eq!(area.try_play(card(Suit::Spades, 6)), Err(InvalidPlay::CardMismatch));
    let states: Vec<StackState> = area.stacks().iter().map(|stack| *stack.stack_state()).collect();
    assert_eq!(
        states,
        vec![StackState::Empty, StackState::Empty, StackState::SevenOnly, StackState::Empty]
    );
}

#[test]
fn copy_of_a_playing_area_shows_the_same_stacks() {
    let mut area = PlayingArea::with_deck_capacity(1);
    area.try_play(card(Suit::Hearts, 7)).unwrap();
    let copy = area.clone();
    area.try_play(card(Suit::Hearts, 8)).unwrap();
    assert_eq!(*copy.stacks()[2].stack_state(), StackState::SevenOnly);
    assert_eq!(*area.stacks()[2].stack_state(), StackState::HighOnly(card(Suit::Hearts, 8)));
}
