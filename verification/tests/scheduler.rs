//! Scheduler behaviour: interval growth, ease clamping, lapses, due-ness,
//! and the session store.
use morflash::model::ReviewState;
use morflash::srs::{is_due, update_review_state, EASE_FLOOR_CENTI, FIRST_STEP_SECS, SECOND_STEP_SECS};
use morflash::store::{pick_due_card, ReviewStore};
use morflash::model::{Card, Deck};

fn fresh(now: i64) -> ReviewState {
    ReviewState::new(7, now)
}

#[test]
fn new_state_is_immediately_due() {
    let st = fresh(1000);
    assert_eq!(st.card_id, 7);
    assert_eq!(st.interval_secs, 0);
    assert_eq!(st.ease_centi, 250);
    assert_eq!(st.repetitions, 0);
    assert_eq!(st.next_review, 1000);
    assert!(is_due(&st, 1000));
    assert!(is_due(&st, 2000));
    assert!(!is_due(&st, 999));
}

#[test]
fn first_and_second_success_take_fixed_steps() {
    let st = fresh(1000);
    let st1 = update_review_state(st, 2, 1000);
    assert_eq!(st1.repetitions, 1);
    assert_eq!(st1.interval_secs, FIRST_STEP_SECS);
    assert_eq!(st1.ease_centi, 250);
    assert_eq!(st1.next_review, 1000 + FIRST_STEP_SECS as i64);

    let st2 = update_review_state(st1, 2, 90000);
    assert_eq!(st2.repetitions, 2);
    assert_eq!(st2.interval_secs, SECOND_STEP_SECS);
    assert_eq!(st2.next_review, 90000 + SECOND_STEP_SECS as i64);
}

#[test]
fn graduation_steps_are_independent_of_ease() {
    // An odd ease factor must not affect the first two steps.
    let mut st = fresh(0);
    st.ease_centi = 137;
    let st1 = update_review_state(st, 1, 0);
    assert_eq!(st1.interval_secs, FIRST_STEP_SECS);
    let st2 = update_review_state(st1, 3, 0);
    assert_eq!(st2.interval_secs, SECOND_STEP_SECS);
}

#[test]
fn third_success_grows_by_ease() {
    let st = fresh(0);
    let st1 = update_review_state(st, 2, 0);
    let st2 = update_review_state(st1, 2, 0);
    let st3 = update_review_state(st2, 2, 0);
    assert_eq!(st3.repetitions, 3);
    // 518400 * 2.5 = 1_296_000 seconds (15 days).
    assert_eq!(st3.interval_secs, 1_296_000);
    assert_eq!(st3.next_review, 1_296_000);
}

#[test]
fn lapse_resets_from_any_state() {
    let st = ReviewState {
        card_id: 3,
        interval_secs: 99_999_999,
        ease_centi: 999,
        repetitions: 57,
        next_review: 5,
    };
    let r = update_review_state(st, 0, 100);
    assert_eq!(r.repetitions, 0);
    assert_eq!(r.interval_secs, FIRST_STEP_SECS);
    assert_eq!(r.ease_centi, 999 - 20);
    assert_eq!(r.next_review, 100 + FIRST_STEP_SECS as i64);
}

#[test]
fn ease_adjustments_per_rating() {
    let st = fresh(0);
    assert_eq!(update_review_state(st, 0, 0).ease_centi, 230);
    assert_eq!(update_review_state(st, 1, 0).ease_centi, 235);
    assert_eq!(update_review_state(st, 2, 0).ease_centi, 250);
    assert_eq!(update_review_state(st, 3, 0).ease_centi, 265);
}

#[test]
fn ease_floor_clamps_to_exactly_the_floor() {
    let mut st = fresh(0);
    for _ in 0..20 {
        st = update_review_state(st, 0, 0);
        assert!(st.ease_centi >= EASE_FLOOR_CENTI);
    }
    // 250 -> 230 -> 210 -> 190 -> 170 -> 150 -> 130, then clamped exactly.
    assert_eq!(st.ease_centi, EASE_FLOOR_CENTI);
    let again = update_review_state(st, 0, 0);
    assert_eq!(again.ease_centi, EASE_FLOOR_CENTI);
}

#[test]
fn update_is_deterministic() {
    let st = ReviewState {
        card_id: 1,
        interval_secs: 86400,
        ease_centi: 250,
        repetitions: 1,
        next_review: 0,
    };
    let a = update_review_state(st, 3, 12345);
    let b = update_review_state(st, 3, 12345);
    assert_eq!(a, b);
    assert_eq!(a.next_review, 12345 + a.interval_secs as i64);
}

fn two_card_deck() -> Deck {
    Deck {
        name: "d".to_string(),
        description: None,
        cards: vec![
            Card { id: 1, term: "a".to_string(), definition: "b".to_string() },
            Card { id: 2, term: "c".to_string(), definition: "d".to_string() },
        ],
    }
}

#[test]
fn session_selects_first_due_card_in_deck_order() {
    let deck = two_card_deck();
    let mut store = ReviewStore::new_session(&deck, 100);
    assert_eq!(pick_due_card(&deck.cards, &store, 100), Some(1));

    // Answer card 1 correctly: it is rescheduled into the future.
    assert!(store.answer(1, 3, 100));
    assert_eq!(pick_due_card(&deck.cards, &store, 100), Some(2));

    assert!(store.answer(2, 3, 100));
    assert_eq!(pick_due_card(&deck.cards, &store, 100), None);

    // A day later the first card comes due again.
    assert_eq!(pick_due_card(&deck.cards, &store, 100 + 86_400), Some(1));
}

#[test]
fn store_lookup_and_missing_ids() {
    let deck = two_card_deck();
    let mut store = ReviewStore::new_session(&deck, 0);
    assert!(store.get(1).is_some());
    assert!(store.get(42).is_none());
    assert!(!store.answer(42, 2, 0));
    assert_eq!(store.get(2).unwrap().repetitions, 0);
}
