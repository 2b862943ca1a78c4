use srs::cards::{ids_fresh, Cards, CardsError};
use srs::queue::{build_queue, sort_by_due, count_introduced, Deck, Item};
use srs::schedule::{
    is_allowed_transition, rating_code, rating_of_code, review_schedule, state_code, state_of_code,
    MemoryState, Rating, ReviewLog, Schedule,
};

fn fresh() -> Schedule {
    Schedule {
        due: 0,
        stability_bits: 0,
        difficulty_bits: 0,
        elapsed_days: 0,
        scheduled_days: 0,
        reps: 0,
        lapses: 0,
        state: MemoryState::New,
        last_review: 0,
        previous_state: MemoryState::New,
        log: None,
    }
}

fn scheduled(state: MemoryState, due: i64) -> Schedule {
    Schedule {
        due,
        stability_bits: 0x4000_0000,
        difficulty_bits: 0x40a0_0000,
        elapsed_days: 0,
        scheduled_days: 1,
        reps: 1,
        lapses: 0,
        state,
        last_review: 0,
        previous_state: MemoryState::New,
        log: Some(ReviewLog {
            rating: Rating::Good,
            elapsed_days: 0,
            scheduled_days: 1,
            state: MemoryState::New,
            reviewed_date: 0,
        }),
    }
}

fn item(id: i64, due: i64, state: MemoryState, first: Option<i64>) -> Item {
    let mut schedule = fresh();
    schedule.due = due;
    schedule.state = state;
    Item { id, front: format!("f{}", id), back: format!("b{}", id), schedule, first_studied_at: first }
}

fn ids(c: &Cards) -> Vec<i64> {
    c.cards.iter().map(|e| e.id).collect()
}

#[test]
fn cap_admits_two_new_and_the_review_card() {
    let mut c = Cards::new(2, 10, 5, fresh());
    c.new_deck("Demo".to_string()).unwrap();
    let a = c.new_card("Demo".to_string(), "A".to_string(), "a".to_string()).unwrap();
    let b = c.new_card("Demo".to_string(), "B".to_string(), "b".to_string()).unwrap();
    let cc = c.new_card("Demo".to_string(), "C".to_string(), "c".to_string()).unwrap();
    let d = c.new_card("Demo".to_string(), "D".to_string(), "d".to_string()).unwrap();
    // D is reviewed before midnight, so it does not count as introduced today.
    c.set_clock(3, 0);
    c.update_card("Demo".to_string(), d, &scheduled(MemoryState::Review, 1)).unwrap();
    c.set_clock(10, 5);
    assert_eq!(c.card_count(), 3);
    let q = ids(&c);
    assert!(q.contains(&d));
    let new_in = [a, b, cc].iter().filter(|x| q.contains(x)).count();
    assert_eq!(new_in, 2);
    assert_eq!(q, vec![a, b, d]);
}

#[test]
fn unknown_card_is_not_found_and_queue_unchanged() {
    let mut c = Cards::new(20, 10, 5, fresh());
    c.new_deck("Demo".to_string()).unwrap();
    c.new_card("Demo".to_string(), "A".to_string(), "a".to_string()).unwrap();
    let before = c.card_count();
    let r = c.update_card("Demo".to_string(), 99, &scheduled(MemoryState::Learning, 20));
    assert_eq!(r, Err(CardsError::NotFound));
    assert_eq!(c.card_count(), before);
    let r = c.update_card("Nope".to_string(), 1, &scheduled(MemoryState::Learning, 20));
    assert_eq!(r, Err(CardsError::NotFound));
    assert_eq!(c.card_count(), before);
}

#[test]
fn cap_reached_by_cards_introduced_today() {
    let deck = Deck {
        name: "D".to_string(),
        next_id: 5,
        items: vec![
            item(1, 0, MemoryState::Review, Some(100)),
            item(2, 0, MemoryState::Learning, Some(120)),
            item(3, 0, MemoryState::New, None),
            item(4, 1, MemoryState::New, None),
        ],
    };
    let q = build_queue(&vec![deck], 2, 200, 50);
    let got: Vec<i64> = q.iter().map(|e| e.id).collect();
    assert_eq!(got, vec![1, 2]);
    assert!(q.iter().all(|e| e.schedule.state != MemoryState::New));
}

#[test]
fn peek_twice_gives_the_same_card() {
    let mut c = Cards::new(20, 10, 5, fresh());
    assert_eq!(c.current_card(), Err(()));
    c.new_deck("Demo".to_string()).unwrap();
    c.new_card("Demo".to_string(), "A".to_string(), "a".to_string()).unwrap();
    c.new_card("Demo".to_string(), "B".to_string(), "b".to_string()).unwrap();
    let first = c.current_card();
    let second = c.current_card();
    assert_eq!(first, second);
    assert_eq!(first.unwrap().front, "A");
}

#[test]
fn review_records_previous_state_and_first_study() {
    let mut c = Cards::new(20, 10, 5, fresh());
    c.new_deck("Demo".to_string()).unwrap();
    let id = c.new_card("Demo".to_string(), "A".to_string(), "a".to_string()).unwrap();
    c.update_card("Demo".to_string(), id, &scheduled(MemoryState::Learning, 100)).unwrap();
    let it = &c.decks[0].items[0];
    assert_eq!(it.schedule.state, MemoryState::Learning);
    assert_eq!(it.schedule.previous_state, MemoryState::New);
    assert_eq!(it.schedule.last_review, 10);
    assert_eq!(it.first_studied_at, Some(10));
    assert_eq!(c.card_count(), 0);
    // A second review keeps the first time of study.
    c.set_clock(200, 150);
    c.update_card("Demo".to_string(), id, &scheduled(MemoryState::Review, 300)).unwrap();
    let it = &c.decks[0].items[0];
    assert_eq!(it.schedule.previous_state, MemoryState::Learning);
    assert_eq!(it.schedule.last_review, 200);
    assert_eq!(it.first_studied_at, Some(10));
}

#[test]
fn review_outside_the_transitions_is_refused() {
    let mut c = Cards::new(20, 10, 5, fresh());
    c.new_deck("Demo".to_string()).unwrap();
    let id = c.new_card("Demo".to_string(), "A".to_string(), "a".to_string()).unwrap();
    let r = c.update_card("Demo".to_string(), id, &scheduled(MemoryState::Relearning, 100));
    assert_eq!(r, Err(CardsError::SchedulingFailure));
    let mut no_log = scheduled(MemoryState::Review, 100);
    no_log.log = None;
    let r = c.update_card("Demo".to_string(), id, &no_log);
    assert_eq!(r, Err(CardsError::SchedulingFailure));
    assert_eq!(c.decks[0].items[0].schedule, fresh());
    assert_eq!(c.card_count(), 1);
}

#[test]
fn reset_gives_a_fresh_card() {
    let mut c = Cards::new(20, 10, 5, fresh());
    c.new_deck("Demo".to_string()).unwrap();
    let id = c.new_card("Demo".to_string(), "A".to_string(), "a".to_string()).unwrap();
    let created = c.get_deck("Demo".to_string()).unwrap();
    let item_created = c.decks[0].items[0].copy();
    c.update_card("Demo".to_string(), id, &scheduled(MemoryState::Review, 100)).unwrap();
    assert_ne!(c.decks[0].items[0], item_created);
    c.reset_card("Demo".to_string(), id).unwrap();
    assert_eq!(c.get_deck("Demo".to_string()).unwrap(), created);
    assert_eq!(c.decks[0].items[0], item_created);
    assert_eq!(c.card_count(), 1);
    assert_eq!(c.reset_card("Demo".to_string(), 7), Err(CardsError::NotFound));
}

#[test]
fn identifiers_are_not_reused() {
    let mut c = Cards::new(20, 10, 5, fresh());
    c.new_deck("Demo".to_string()).unwrap();
    let a = c.new_card("Demo".to_string(), "A".to_string(), "a".to_string()).unwrap();
    let b = c.new_card("Demo".to_string(), "B".to_string(), "b".to_string()).unwrap();
    assert_eq!((a, b), (1, 2));
    c.delete_card("Demo".to_string(), b).unwrap();
    let d = c.new_card("Demo".to_string(), "D".to_string(), "d".to_string()).unwrap();
    assert_eq!(d, 3);
    assert_eq!(c.delete_card("Demo".to_string(), b), Err(CardsError::NotFound));
    assert_eq!(ids(&c), vec![1, 3]);
}

#[test]
fn identifiers_used_up() {
    let mut c = Cards::new(20, 10, 5, fresh());
    c.new_deck("Demo".to_string()).unwrap();
    c.decks[0].next_id = i64::MAX;
    let r = c.new_card("Demo".to_string(), "A".to_string(), "a".to_string());
    assert_eq!(r, Err(CardsError::StoreUnavailable));
    assert_eq!(c.decks[0].items.len(), 0);
}

#[test]
fn deck_operations() {
    let mut c = Cards::new(20, 10, 5, fresh());
    assert_eq!(c.new_card("X".to_string(), "A".to_string(), "a".to_string()), Err(CardsError::NotFound));
    c.new_deck("X".to_string()).unwrap();
    c.new_deck("Y".to_string()).unwrap();
    assert_eq!(c.new_deck("X".to_string()), Err(CardsError::AlreadyExists));
    c.new_card("X".to_string(), "A".to_string(), "a".to_string()).unwrap();
    c.new_card("Y".to_string(), "B".to_string(), "b".to_string()).unwrap();
    assert_eq!(c.get_decks(), vec!["X".to_string(), "Y".to_string()]);
    assert_eq!(c.rename_deck("X".to_string(), "Y".to_string()), Err(CardsError::AlreadyExists));
    assert_eq!(c.rename_deck("Q".to_string(), "Z".to_string()), Err(CardsError::NotFound));
    c.rename_deck("X".to_string(), "Z".to_string()).unwrap();
    assert_eq!(c.get_decks(), vec!["Z".to_string(), "Y".to_string()]);
    assert_eq!(c.current_card().unwrap().deck, "Z");
    assert_eq!(c.current_card().unwrap().id, 1);
    assert_eq!(c.card_count(), 2);
    c.delete_deck("Z".to_string()).unwrap();
    assert_eq!(c.delete_deck("Z".to_string()), Err(CardsError::NotFound));
    assert_eq!(c.card_count(), 1);
    assert_eq!(c.current_card().unwrap().deck, "Y");
    assert_eq!(c.get_deck("Z".to_string()), Err(CardsError::NotFound));
}

#[test]
fn edit_changes_faces_only() {
    let mut c = Cards::new(20, 10, 5, fresh());
    c.new_deck("Demo".to_string()).unwrap();
    let id = c.new_card("Demo".to_string(), "A".to_string(), "a".to_string()).unwrap();
    c.edit_card("Demo".to_string(), id, "Q".to_string(), "R".to_string()).unwrap();
    let e = c.current_card().unwrap();
    assert_eq!((e.front.as_str(), e.back.as_str()), ("Q", "R"));
    assert_eq!(e.schedule, fresh());
    assert_eq!(c.edit_card("Demo".to_string(), 5, "Q".to_string(), "R".to_string()), Err(CardsError::NotFound));
}

#[test]
fn import_and_export() {
    let mut c = Cards::new(1, 10, 5, fresh());
    let pairs = vec![("one".to_string(), "1".to_string()), ("two".to_string(), "2".to_string())];
    c.import_deck("nums".to_string(), pairs.clone()).unwrap();
    assert_eq!(c.export_deck("nums".to_string()).unwrap(), pairs);
    assert_eq!(c.import_deck("nums".to_string(), vec![]), Err(CardsError::AlreadyExists));
    assert_eq!(c.export_deck("none".to_string()), Err(CardsError::NotFound));
    let deck = c.get_deck("nums".to_string()).unwrap();
    assert_eq!(deck.iter().map(|e| e.id).collect::<Vec<i64>>(), vec![1, 2]);
    // Cap of one New card per deck.
    assert_eq!(c.card_count(), 1);
    assert_eq!(c.new_card("nums".to_string(), "x".to_string(), "y".to_string()), Ok(3));
}

#[test]
fn queue_orders_each_deck_by_due() {
    let d1 = Deck {
        name: "one".to_string(),
        next_id: 4,
        items: vec![
            item(1, 30, MemoryState::Review, Some(1)),
            item(2, 10, MemoryState::Review, Some(1)),
            item(3, 10, MemoryState::Learning, Some(1)),
        ],
    };
    let d2 = Deck { name: "two".to_string(), next_id: 2, items: vec![item(1, 5, MemoryState::Review, Some(1))] };
    let sorted: Vec<i64> = sort_by_due(&d1.items).iter().map(|i| i.id).collect();
    assert_eq!(sorted, vec![2, 3, 1]);
    let q = build_queue(&vec![d1, d2], 0, 40, 20);
    let got: Vec<(String, i64)> = q.iter().map(|e| (e.deck.clone(), e.id)).collect();
    assert_eq!(got, vec![("one".to_string(), 2), ("one".to_string(), 3), ("one".to_string(), 1), ("two".to_string(), 1)]);
    let q = build_queue(&vec![], 3, 40, 20);
    assert!(q.is_empty());
}

#[test]
fn cards_not_yet_due_stay_out() {
    let d = Deck {
        name: "d".to_string(),
        next_id: 3,
        items: vec![item(1, 41, MemoryState::Review, Some(1)), item(2, 40, MemoryState::Review, Some(1))],
    };
    let q = build_queue(&vec![d], 5, 40, 20);
    assert_eq!(q.len(), 1);
    assert_eq!(q[0].id, 2);
}

#[test]
fn cap_takes_new_cards_in_due_order() {
    let d = Deck {
        name: "d".to_string(),
        next_id: 4,
        items: vec![
            item(1, 60, MemoryState::New, None),
            item(2, 50, MemoryState::New, None),
            item(3, 70, MemoryState::New, None),
        ],
    };
    let q = build_queue(&vec![d], 1, 65, 20);
    assert_eq!(q.len(), 1);
    assert_eq!(q[0].id, 2);
}

#[test]
fn count_of_cards_introduced_since_midnight() {
    let items = vec![
        item(1, 0, MemoryState::Review, Some(10)),
        item(2, 0, MemoryState::Review, Some(21)),
        item(3, 0, MemoryState::Review, Some(20)),
        item(4, 0, MemoryState::New, None),
    ];
    assert_eq!(count_introduced(&items, 20), 1);
}

#[test]
fn codes_and_transitions() {
    assert_eq!(state_code(MemoryState::New), 1);
    assert_eq!(state_code(MemoryState::Relearning), 4);
    assert_eq!(state_of_code(3), Ok(MemoryState::Review));
    assert_eq!(state_of_code(0), Err(CardsError::InvalidState));
    assert_eq!(rating_code(Rating::Hard), 2);
    assert_eq!(rating_of_code(4), Ok(Rating::Easy));
    assert_eq!(rating_of_code(5), Err(CardsError::SchedulingFailure));
    assert!(is_allowed_transition(MemoryState::New, MemoryState::Review));
    assert!(!is_allowed_transition(MemoryState::Review, MemoryState::Learning));
    assert!(is_allowed_transition(MemoryState::Learning, MemoryState::Relearning));
    let cur = scheduled(MemoryState::Learning, 0);
    let next = scheduled(MemoryState::Review, 9);
    let r = review_schedule(cur, next, 77).unwrap();
    assert_eq!(r.previous_state, MemoryState::Learning);
    assert_eq!(r.last_review, 77);
    assert_eq!(r.due, 9);
    assert_eq!(review_schedule(next, cur, 77), None);
}

#[test]
fn engine_over_stored_decks() {
    let d = Deck {
        name: "stored".to_string(),
        next_id: 8,
        items: vec![item(7, 3, MemoryState::Review, Some(1)), item(2, 1, MemoryState::New, None)],
    };
    let decks = vec![d];
    assert!(ids_fresh(&decks));
    let mut c = Cards::from_decks(decks, 5, 10, 0, fresh());
    assert_eq!(ids(&c), vec![2, 7]);
    assert_eq!(c.new_card("stored".to_string(), "n".to_string(), "m".to_string()), Ok(8));
    c.set_new_cards(0);
    assert_eq!(ids(&c), vec![7]);
    let stale = vec![Deck { name: "s".to_string(), next_id: 2, items: vec![item(2, 0, MemoryState::New, None)] }];
    assert!(!ids_fresh(&stale));
}
