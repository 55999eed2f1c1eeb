use mental_poker::{deal, Encoded, GameErrors, MaskedCard, Slot, SlotPlan};

fn deck(n: u8) -> Vec<MaskedCard> {
    (0..n).map(|i| Encoded::new(vec![0xC0, i])).collect()
}

fn cards(places: &[u8]) -> Vec<MaskedCard> {
    places.iter().map(|i| Encoded::new(vec![0xC0, *i])).collect()
}

fn slot(start: usize, count: usize) -> Slot {
    Slot { start, count }
}

#[test]
fn slot_end_is_checked() {
    assert_eq!(slot(3, 4).checked_end(), Some(7));
    assert_eq!(slot(0, 0).checked_end(), Some(0));
    assert_eq!(slot(usize::MAX, 0).checked_end(), Some(usize::MAX));
    assert_eq!(slot(usize::MAX, 1).checked_end(), None);
    assert_eq!(slot(1, usize::MAX).checked_end(), None);
}

#[test]
fn in_turn_plan_deals_from_the_top() {
    let plan = SlotPlan::in_turn(4, 2, 5).unwrap();
    assert_eq!(plan.hands, vec![slot(0, 2), slot(2, 2), slot(4, 2), slot(6, 2)]);
    assert_eq!(plan.community, slot(8, 5));
    assert!(plan.check(52));
    assert!(plan.check(13));
    assert!(!plan.check(12));
    assert!(!plan.check(0));
}

#[test]
fn in_turn_plan_without_players() {
    let plan = SlotPlan::in_turn(0, 2, 3).unwrap();
    assert_eq!(plan.hands, Vec::<Slot>::new());
    assert_eq!(plan.community, slot(0, 3));
}

#[test]
fn in_turn_plan_beyond_the_machine_has_no_positions() {
    assert!(SlotPlan::in_turn(usize::MAX, 2, 0).is_none());
    assert!(SlotPlan::in_turn(1, usize::MAX, 1).is_none());
    assert!(SlotPlan::in_turn(1, usize::MAX, 0).is_some());
}

#[test]
fn texas_holdem_deal() {
    let deck = deck(52);
    let plan = SlotPlan::in_turn(4, 2, 5).unwrap();
    let dealt = deal(&deck, &plan).unwrap();
    assert_eq!(dealt.hands.len(), 4);
    assert_eq!(dealt.hands[0], cards(&[0, 1]));
    assert_eq!(dealt.hands[1], cards(&[2, 3]));
    assert_eq!(dealt.hands[2], cards(&[4, 5]));
    assert_eq!(dealt.hands[3], cards(&[6, 7]));
    assert_eq!(dealt.community, cards(&[8, 9, 10, 11, 12]));
}

#[test]
fn deal_follows_the_slots_of_the_plan() {
    let deck = deck(10);
    let plan = SlotPlan { hands: vec![slot(7, 3), slot(0, 2), slot(4, 0)], community: slot(2, 2) };
    let dealt = deal(&deck, &plan).unwrap();
    assert_eq!(dealt.hands, vec![cards(&[7, 8, 9]), cards(&[0, 1]), cards(&[])]);
    assert_eq!(dealt.community, cards(&[2, 3]));
}

#[test]
fn a_plan_that_asks_for_too_many_cards_is_a_slot_conflict() {
    let deck = deck(12);
    let plan = SlotPlan::in_turn(4, 2, 5).unwrap();
    assert_eq!(deal(&deck, &plan).unwrap_err(), GameErrors::SlotConflict);
    let plan = SlotPlan { hands: vec![slot(11, 2)], community: slot(0, 0) };
    assert_eq!(deal(&deck, &plan).unwrap_err(), GameErrors::SlotConflict);
    let plan = SlotPlan { hands: vec![], community: slot(13, 0) };
    assert_eq!(deal(&deck, &plan).unwrap_err(), GameErrors::SlotConflict);
    let plan = SlotPlan { hands: vec![slot(usize::MAX, 2)], community: slot(0, 0) };
    assert_eq!(deal(&deck, &plan).unwrap_err(), GameErrors::SlotConflict);
}

#[test]
fn overlapping_slots_are_a_slot_conflict() {
    let deck = deck(20);
    let plan = SlotPlan { hands: vec![slot(0, 3), slot(2, 2)], community: slot(10, 2) };
    assert_eq!(deal(&deck, &plan).unwrap_err(), GameErrors::SlotConflict);
    let plan = SlotPlan { hands: vec![slot(0, 2), slot(2, 2)], community: slot(3, 1) };
    assert_eq!(deal(&deck, &plan).unwrap_err(), GameErrors::SlotConflict);
    let plan = SlotPlan { hands: vec![slot(5, 1), slot(5, 1)], community: slot(0, 0) };
    assert_eq!(deal(&deck, &plan).unwrap_err(), GameErrors::SlotConflict);
    let plan = SlotPlan { hands: vec![slot(0, 10), slot(12, 1)], community: slot(4, 1) };
    assert_eq!(deal(&deck, &plan).unwrap_err(), GameErrors::SlotConflict);
}

#[test]
fn touching_and_empty_slots_do_not_conflict() {
    let deck = deck(6);
    let plan = SlotPlan { hands: vec![slot(0, 3), slot(3, 3)], community: slot(2, 0) };
    let dealt = deal(&deck, &plan).unwrap();
    assert_eq!(dealt.hands, vec![cards(&[0, 1, 2]), cards(&[3, 4, 5])]);
    assert_eq!(dealt.community, cards(&[]));
    let plan = SlotPlan { hands: vec![slot(6, 0), slot(6, 0)], community: slot(0, 6) };
    assert!(deal(&deck, &plan).is_ok());
}

#[test]
fn an_empty_deck_deals_only_empty_slots() {
    let deck = deck(0);
    let plan = SlotPlan { hands: vec![slot(0, 0)], community: slot(0, 0) };
    let dealt = deal(&deck, &plan).unwrap();
    assert_eq!(dealt.hands, vec![cards(&[])]);
    let plan = SlotPlan { hands: vec![], community: slot(0, 1) };
    assert_eq!(deal(&deck, &plan).unwrap_err(), GameErrors::SlotConflict);
}
