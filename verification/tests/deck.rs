use mental_poker::encoded::{copy_range, find};
use mental_poker::{
    encode_cards, setup_protocol, CardToken, ClassicPlayingCard, Encoded, GameErrors, Suite, Value,
};

fn token(i: usize) -> CardToken {
    Encoded::new(vec![7, (i / 256) as u8, (i % 256) as u8])
}

fn tokens(n: usize) -> Vec<CardToken> {
    (0..n).map(token).collect()
}

#[test]
fn setup_protocol_multiplies_rows_and_columns() {
    assert_eq!(setup_protocol(2, 26), 52);
    assert_eq!(setup_protocol(4, 13), 52);
    assert_eq!(setup_protocol(0, 9), 0);
    assert_eq!(setup_protocol(1, 1), 1);
    assert_eq!(setup_protocol(65535, 65537), u32::MAX);
}

#[test]
fn encoded_values_compare_by_bytes() {
    let a = Encoded::new(vec![1, 2, 3]);
    let b = Encoded::new(vec![1, 2, 3]);
    let c = Encoded::new(vec![1, 2, 4]);
    let d = Encoded::new(vec![1, 2]);
    let e = Encoded::new(vec![]);
    assert!(a.same(&b));
    assert!(!a.same(&c));
    assert!(!a.same(&d));
    assert!(!d.same(&a));
    assert!(!a.same(&e));
    assert!(e.same(&Encoded::new(Vec::new())));
    assert_eq!(a, b);
    assert_ne!(a, c);
    assert_eq!(a.as_bytes(), &vec![1u8, 2, 3]);
    assert_eq!(a.clone(), a);
    assert_eq!(e.clone().as_bytes().len(), 0);
}

#[test]
fn find_gives_the_first_place() {
    let items = vec![token(5), token(6), token(5), token(7)];
    assert_eq!(find(&items, &token(5)), Some(0));
    assert_eq!(find(&items, &token(6)), Some(1));
    assert_eq!(find(&items, &token(7)), Some(3));
    assert_eq!(find(&items, &token(8)), None);
    assert_eq!(find(&Vec::new(), &token(5)), None);
}

#[test]
fn copy_range_copies_the_asked_places() {
    let items = tokens(6);
    assert_eq!(copy_range(&items, 0, 6), items);
    assert_eq!(copy_range(&items, 2, 4), vec![token(2), token(3)]);
    assert_eq!(copy_range(&items, 3, 3), Vec::<Encoded>::new());
    assert_eq!(copy_range(&items, 6, 6), Vec::<Encoded>::new());
}

#[test]
fn mapping_assigns_tokens_in_enumeration_order() {
    let mapping = encode_cards(tokens(52)).unwrap();
    assert_eq!(mapping.len(), 52);
    assert_eq!(mapping.decode(&token(0)), Ok(ClassicPlayingCard::new(Value::Two, Suite::Club)));
    assert_eq!(mapping.decode(&token(1)), Ok(ClassicPlayingCard::new(Value::Two, Suite::Diamond)));
    assert_eq!(mapping.decode(&token(4)), Ok(ClassicPlayingCard::new(Value::Three, Suite::Club)));
    assert_eq!(mapping.decode(&token(51)), Ok(ClassicPlayingCard::new(Value::Ace, Suite::Spade)));
}

#[test]
fn decode_inverts_encode_for_every_card() {
    let mapping = encode_cards(tokens(52)).unwrap();
    for i in 0..52usize {
        let card = ClassicPlayingCard::from_index(i).unwrap();
        let encoded = mapping.encode(&card).unwrap();
        assert_eq!(encoded, &token(i));
        assert_eq!(mapping.decode(encoded), Ok(card));
    }
}

#[test]
fn encode_inverts_decode_for_every_token() {
    let mapping = encode_cards(tokens(52)).unwrap();
    for i in 0..52usize {
        let card = mapping.decode(&token(i)).unwrap();
        assert_eq!(mapping.encode(&card), Some(&token(i)));
    }
}

#[test]
fn decoding_a_token_outside_the_mapping_is_an_invalid_card() {
    let mapping = encode_cards(tokens(52)).unwrap();
    assert_eq!(mapping.decode(&token(52)), Err(GameErrors::InvalidCard));
    assert_eq!(mapping.decode(&Encoded::new(vec![])), Err(GameErrors::InvalidCard));
    assert_eq!(mapping.decode(&Encoded::new(vec![7, 0])), Err(GameErrors::InvalidCard));
    assert_eq!(mapping.decode(&Encoded::new(vec![7, 0, 0, 0])), Err(GameErrors::InvalidCard));
}

#[test]
fn a_short_mapping_holds_only_the_first_cards() {
    let mapping = encode_cards(tokens(5)).unwrap();
    assert_eq!(mapping.len(), 5);
    assert_eq!(mapping.decode(&token(4)), Ok(ClassicPlayingCard::new(Value::Three, Suite::Club)));
    assert_eq!(mapping.decode(&token(5)), Err(GameErrors::InvalidCard));
    let three_of_clubs = ClassicPlayingCard::new(Value::Three, Suite::Club);
    assert_eq!(mapping.encode(&three_of_clubs), Some(&token(4)));
    assert_eq!(mapping.encode(&ClassicPlayingCard::new(Value::Three, Suite::Diamond)), None);
    assert_eq!(mapping.encode(&ClassicPlayingCard::new(Value::Ace, Suite::Spade)), None);
}

#[test]
fn an_empty_mapping_decodes_nothing() {
    let mapping = encode_cards(Vec::new()).unwrap();
    assert_eq!(mapping.len(), 0);
    assert_eq!(mapping.decode(&token(0)), Err(GameErrors::InvalidCard));
    assert_eq!(mapping.encode(&ClassicPlayingCard::new(Value::Two, Suite::Club)), None);
}

#[test]
fn tokens_beyond_the_deck_are_not_used() {
    let mapping = encode_cards(tokens(60)).unwrap();
    assert_eq!(mapping.len(), 52);
    assert_eq!(mapping.decode(&token(51)), Ok(ClassicPlayingCard::new(Value::Ace, Suite::Spade)));
    assert_eq!(mapping.decode(&token(52)), Err(GameErrors::InvalidCard));
    assert_eq!(mapping.decode(&token(59)), Err(GameErrors::InvalidCard));
}

#[test]
fn a_repeated_token_is_refused() {
    let mut repeated = tokens(52);
    repeated[40] = token(3);
    assert!(encode_cards(repeated).is_none());
    assert!(encode_cards(vec![token(1), token(1)]).is_none());
}

#[test]
fn a_repeated_token_beyond_the_deck_does_no_harm() {
    let mut offered = tokens(54);
    offered[53] = token(3);
    let mapping = encode_cards(offered).unwrap();
    assert_eq!(mapping.len(), 52);
    assert_eq!(mapping.decode(&token(3)), Ok(ClassicPlayingCard::new(Value::Two, Suite::Spade)));
}
