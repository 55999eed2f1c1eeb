use mental_poker::cards::{CARDS, SUITES, VALUES};
use mental_poker::{ClassicPlayingCard, GameErrors, Suite, Value};

#[test]
fn new_card_keeps_value_and_suite() {
    let card = ClassicPlayingCard::new(Value::Queen, Suite::Heart);
    assert_eq!(card.value, Value::Queen);
    assert_eq!(card.suite, Suite::Heart);
    assert_eq!(card, ClassicPlayingCard { value: Value::Queen, suite: Suite::Heart });
    assert_ne!(card, ClassicPlayingCard::new(Value::Queen, Suite::Spade));
    assert_ne!(card, ClassicPlayingCard::new(Value::King, Suite::Heart));
}

#[test]
fn deck_has_fifty_two_cards() {
    assert_eq!(SUITES, 4);
    assert_eq!(VALUES, 13);
    assert_eq!(CARDS, 52);
}

#[test]
fn index_counts_suites_within_values() {
    assert_eq!(ClassicPlayingCard::new(Value::Two, Suite::Club).index(), 0);
    assert_eq!(ClassicPlayingCard::new(Value::Two, Suite::Diamond).index(), 1);
    assert_eq!(ClassicPlayingCard::new(Value::Two, Suite::Heart).index(), 2);
    assert_eq!(ClassicPlayingCard::new(Value::Two, Suite::Spade).index(), 3);
    assert_eq!(ClassicPlayingCard::new(Value::Three, Suite::Club).index(), 4);
    assert_eq!(ClassicPlayingCard::new(Value::Ten, Suite::Heart).index(), 34);
    assert_eq!(ClassicPlayingCard::new(Value::Ace, Suite::Spade).index(), 51);
}

#[test]
fn from_index_inverts_index() {
    for i in 0..52usize {
        let card = ClassicPlayingCard::from_index(i).unwrap();
        assert_eq!(card.index(), i);
    }
    assert_eq!(ClassicPlayingCard::from_index(52), None);
    assert_eq!(ClassicPlayingCard::from_index(usize::MAX), None);
    assert_eq!(
        ClassicPlayingCard::from_index(34),
        Some(ClassicPlayingCard::new(Value::Ten, Suite::Heart))
    );
}

#[test]
fn all_cards_are_distinct() {
    let cards: Vec<ClassicPlayingCard> =
        (0..52usize).map(|i| ClassicPlayingCard::from_index(i).unwrap()).collect();
    for i in 0..52 {
        for j in 0..52 {
            assert_eq!(cards[i] == cards[j], i == j);
        }
    }
}

#[test]
fn suite_positions() {
    assert_eq!(Suite::Club.position(), 0);
    assert_eq!(Suite::Diamond.position(), 1);
    assert_eq!(Suite::Heart.position(), 2);
    assert_eq!(Suite::Spade.position(), 3);
    assert_eq!(Suite::from_position(0), Some(Suite::Club));
    assert_eq!(Suite::from_position(3), Some(Suite::Spade));
    assert_eq!(Suite::from_position(4), None);
}

#[test]
fn value_positions() {
    let all = [
        Value::Two,
        Value::Three,
        Value::Four,
        Value::Five,
        Value::Six,
        Value::Seven,
        Value::Eight,
        Value::Nine,
        Value::Ten,
        Value::Jack,
        Value::Queen,
        Value::King,
        Value::Ace,
    ];
    for (i, value) in all.iter().enumerate() {
        assert_eq!(value.position(), i);
        assert_eq!(Value::from_position(i), Some(*value));
    }
    assert_eq!(Value::from_position(13), None);
}

#[test]
fn values_are_ordered_from_two_to_ace() {
    assert!(Value::Two < Value::Three);
    assert!(Value::Ten < Value::Jack);
    assert!(Value::King < Value::Ace);
    assert!(!(Value::Ace < Value::Two));
}

#[test]
fn card_text_is_value_then_suite() {
    assert_eq!(ClassicPlayingCard::new(Value::Two, Suite::Club).to_text(), "2♣");
    assert_eq!(ClassicPlayingCard::new(Value::Ten, Suite::Diamond).to_text(), "10♦");
    assert_eq!(ClassicPlayingCard::new(Value::Jack, Suite::Heart).to_text(), "J♥");
    assert_eq!(ClassicPlayingCard::new(Value::Queen, Suite::Spade).to_text(), "Q♠");
    assert_eq!(ClassicPlayingCard::new(Value::King, Suite::Club).to_text(), "K♣");
    assert_eq!(ClassicPlayingCard::new(Value::Ace, Suite::Spade).to_text(), "A♠");
}

#[test]
fn value_names_and_suite_signs() {
    assert_eq!(Value::Two.name(), "2");
    assert_eq!(Value::Three.name(), "3");
    assert_eq!(Value::Four.name(), "4");
    assert_eq!(Value::Five.name(), "5");
    assert_eq!(Value::Six.name(), "6");
    assert_eq!(Value::Seven.name(), "7");
    assert_eq!(Value::Eight.name(), "8");
    assert_eq!(Value::Nine.name(), "9");
    assert_eq!(Value::Ten.name(), "10");
    assert_eq!(Value::Jack.name(), "J");
    assert_eq!(Value::Queen.name(), "Q");
    assert_eq!(Value::King.name(), "K");
    assert_eq!(Value::Ace.name(), "A");
    assert_eq!(Suite::Club.sign(), "♣");
    assert_eq!(Suite::Diamond.sign(), "♦");
    assert_eq!(Suite::Heart.sign(), "♥");
    assert_eq!(Suite::Spade.sign(), "♠");
}

#[test]
fn error_messages() {
    assert_eq!(GameErrors::CardNotFound.message(), "No such card in hand");
    assert_eq!(GameErrors::InvalidCard.message(), "Invalid card");
    assert_eq!(GameErrors::VerificationFailed.message(), "Proof verification failed");
    assert_eq!(GameErrors::MissingShares.message(), "Reveal shares are missing");
    assert_eq!(GameErrors::SlotConflict.message(), "Dealing plan does not fit the deck");
}

#[test]
fn only_missing_shares_are_recoverable() {
    assert!(GameErrors::MissingShares.is_recoverable());
    assert!(!GameErrors::CardNotFound.is_recoverable());
    assert!(!GameErrors::InvalidCard.is_recoverable());
    assert!(!GameErrors::VerificationFailed.is_recoverable());
    assert!(!GameErrors::SlotConflict.is_recoverable());
}
