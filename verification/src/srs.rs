//! The spaced-repetition scheduler: decides when a card is due and how a
//! review rating reshapes its scheduling record.
//!
//! Ratings are the four ordinal grades `0` (Again), `1` (Hard), `2` (Good)
//! and `3` (Easy). The update is a pure function of the prior state, the
//! rating and the current time; it never fails, relying on defensive clamps
//! (the ease floor, the interval cap) instead of error signalling.
use vstd::prelude::*;

use crate::model::ReviewState;

verus! {

/// One day, in seconds.
pub const SECS_PER_DAY: u64 = 86400;

/// Interval after a lapse or after the first successful repetition: one day.
pub const FIRST_STEP_SECS: u64 = 86400;

/// Interval after the second successful repetition in a row: six days.
pub const SECOND_STEP_SECS: u64 = 518400;

/// Cap on the review interval (100 years of 365 days, in seconds), so that
/// interval growth stays within machine bounds.
pub const MAX_INTERVAL_SECS: u64 = 3153600000;

/// Floor on the ease factor: 1.3 in hundredths.
pub const EASE_FLOOR_CENTI: u32 = 130;

/// An interval, clamped to the cap.
pub open spec fn spec_capped_interval(iv: int) -> int {
    if iv > MAX_INTERVAL_SECS { MAX_INTERVAL_SECS as int } else { iv }
}

/// Exponential growth of an interval: scale by the ease factor (given in
/// hundredths, so dividing by 100), truncating to whole seconds, with the
/// cap applied on both sides.
pub open spec fn spec_grown_interval(iv: int, ease: int) -> int {
    spec_capped_interval(spec_capped_interval(iv) * ease / 100)
}

/// Repetition count after a rating: a lapse resets it to zero, any other
/// rating increments it (saturating at the machine bound).
pub open spec fn spec_next_repetitions(reps: int, rating: u8) -> int {
    if rating == 0 {
        0
    } else if reps < u32::MAX {
        reps + 1
    } else {
        reps
    }
}

/// Interval after a rating: a lapse restarts the growth curve at one day;
/// otherwise the first two successful repetitions take the fixed steps of
/// one and six days, and later ones grow by the ease factor.
pub open spec fn spec_next_interval(iv: int, ease: int, reps: int, rating: u8) -> int {
    if rating == 0 {
        FIRST_STEP_SECS as int
    } else {
        let nreps = spec_next_repetitions(reps, rating);
        if nreps == 1 {
            FIRST_STEP_SECS as int
        } else if nreps == 2 {
            SECOND_STEP_SECS as int
        } else {
            spec_grown_interval(iv, ease)
        }
    }
}

/// Ease factor after the per-rating adjustment, before the floor:
/// Again costs 0.20, Hard costs 0.15, Easy gains 0.15 (saturating at the
/// machine bound), and any other rating leaves it unchanged.
pub open spec fn spec_adjusted_ease(ease: int, rating: u8) -> int {
    if rating == 0 {
        ease - 20
    } else if rating == 1 {
        ease - 15
    } else if rating == 3 {
        if ease + 15 <= u32::MAX { ease + 15 } else { ease }
    } else {
        ease
    }
}

/// Ease factor after a rating: the adjustment, clamped to the 1.3 floor.
pub open spec fn spec_next_ease(ease: int, rating: u8) -> int {
    let e = spec_adjusted_ease(ease, rating);
    if e < EASE_FLOOR_CENTI { EASE_FLOOR_CENTI as int } else { e }
}

/// Next due time: `now` plus the new interval, saturating at the top of the
/// timestamp range.
pub open spec fn spec_next_review(now: i64, iv: int) -> int {
    if now + iv > i64::MAX { i64::MAX as int } else { now + iv }
}

/// The complete scheduler step: the state `update_review_state` returns.
pub open spec fn spec_update(state: ReviewState, rating: u8, now: i64) -> ReviewState {
    let iv = spec_next_interval(
        state.interval_secs as int,
        state.ease_centi as int,
        state.repetitions as int,
        rating,
    );
    ReviewState {
        card_id: state.card_id,
        interval_secs: iv as u64,
        ease_centi: spec_next_ease(state.ease_centi as int, rating) as u32,
        repetitions: spec_next_repetitions(state.repetitions as int, rating) as u32,
        next_review: spec_next_review(now, iv) as i64,
    }
}

/// A card is due exactly when its next-review time has been reached.
pub fn is_due(state: &ReviewState, now: i64) -> (r: bool)
    ensures
        r == (state.next_review <= now),
{
    state.next_review <= now
}

/// Apply one review rating to a card's scheduling record, returning the new
/// record; the input is left untouched. Total: every state and rating is
/// accepted, and the result is exactly [`spec_update`].
pub fn update_review_state(state: ReviewState, rating: u8, now: i64) -> (r: ReviewState)
    ensures
        r == spec_update(state, rating, now),
{
    let new_reps: u32 = if rating == 0 {
        0
    } else if state.repetitions < u32::MAX {
        state.repetitions + 1
    } else {
        state.repetitions
    };

    let new_interval: u64 = if rating == 0 {
        FIRST_STEP_SECS
    } else if new_reps == 1 {
        FIRST_STEP_SECS
    } else if new_reps == 2 {
        SECOND_STEP_SECS
    } else {
        grow_interval(state.interval_secs, state.ease_centi)
    };

    let adjusted: u32 = if rating == 0 {
        if state.ease_centi >= 20 { state.ease_centi - 20 } else { 0 }
    } else if rating == 1 {
        if state.ease_centi >= 15 { state.ease_centi - 15 } else { 0 }
    } else if rating == 3 {
        if state.ease_centi <= u32::MAX - 15 { state.ease_centi + 15 } else { state.ease_centi }
    } else {
        state.ease_centi
    };
    let new_ease: u32 = if adjusted < EASE_FLOOR_CENTI { EASE_FLOOR_CENTI } else { adjusted };

    let new_next: i64 = saturating_add_time(now, new_interval);

    ReviewState {
        card_id: state.card_id,
        interval_secs: new_interval,
        ease_centi: new_ease,
        repetitions: new_reps,
        next_review: new_next,
    }
}

/// Exponential interval growth, capped; see [`spec_grown_interval`].
fn grow_interval(iv: u64, ease: u32) -> (r: u64)
    ensures
        r == spec_grown_interval(iv as int, ease as int),
{
    let capped: u64 = if iv > MAX_INTERVAL_SECS { MAX_INTERVAL_SECS } else { iv };
    assert(capped * (ease as u64) <= MAX_INTERVAL_SECS * (u32::MAX as u64)) by (nonlinear_arith)
        requires
            capped <= MAX_INTERVAL_SECS,
            ease <= u32::MAX,
    ;
    let grown: u64 = capped * (ease as u64) / 100;
    if grown > MAX_INTERVAL_SECS { MAX_INTERVAL_SECS } else { grown }
}

/// `now + iv`, saturating at the top of the timestamp range; see
/// [`spec_next_review`].
fn saturating_add_time(now: i64, iv: u64) -> (r: i64)
    requires
        iv <= MAX_INTERVAL_SECS,
    ensures
        r == spec_next_review(now, iv as int),
{
    if now <= i64::MAX - (iv as i64) {
        now + (iv as i64)
    } else {
        i64::MAX
    }
}

/// Law: the ease floor. After any single update the ease factor is at least
/// 1.3, and whenever the per-rating adjustment would fall below the floor it
/// is clamped to exactly 1.3, never lower.
pub proof fn lemma_ease_floor(state: ReviewState, rating: u8, now: i64)
    ensures
        spec_update(state, rating, now).ease_centi >= EASE_FLOOR_CENTI,
        spec_adjusted_ease(state.ease_centi as int, rating) < EASE_FLOOR_CENTI
            ==> spec_update(state, rating, now).ease_centi == EASE_FLOOR_CENTI,
{
}

/// Run the scheduler over a whole sequence of (rating, time) events.
pub open spec fn spec_run(state: ReviewState, events: Seq<(u8, i64)>) -> ReviewState
    decreases events.len(),
{
    if events.len() == 0 {
        state
    } else {
        spec_run(spec_update(state, events[0].0, events[0].1), events.drop_first())
    }
}

/// Law: the ease floor holds after any rating sequence, however many
/// consecutive Again ratings it contains.
pub proof fn lemma_ease_floor_after_any_sequence(state: ReviewState, events: Seq<(u8, i64)>)
    requires
        events.len() > 0,
    ensures
        spec_run(state, events).ease_centi >= EASE_FLOOR_CENTI,
    decreases events.len(),
{
    let next = spec_update(state, events[0].0, events[0].1);
    lemma_ease_floor(state, events[0].0, events[0].1);
    assert(spec_run(state, events) == spec_run(next, events.drop_first()));
    if events.len() > 1 {
        lemma_ease_floor_after_any_sequence(next, events.drop_first());
    } else {
        assert(events.drop_first().len() == 0);
        assert(spec_run(next, events.drop_first()) == next);
    }
}

/// Law: the next-review time is derived from `now` and the new interval
/// alone; away from the saturation bound it is exactly their sum.
pub proof fn lemma_next_review_derivation(state: ReviewState, rating: u8, now: i64)
    ensures
        spec_update(state, rating, now).next_review
            == spec_next_review(now, spec_update(state, rating, now).interval_secs as int),
        now <= i64::MAX - MAX_INTERVAL_SECS
            ==> spec_update(state, rating, now).next_review
                == now + spec_update(state, rating, now).interval_secs,
{
}

/// Law: lapse idempotence. Rating Again from any prior state resets the
/// repetition count to zero and the interval to exactly one day.
pub proof fn lemma_lapse_resets(state: ReviewState, now: i64)
    ensures
        spec_update(state, 0, now).repetitions == 0,
        spec_update(state, 0, now).interval_secs == FIRST_STEP_SECS,
{
}

/// Law: fixed graduation steps. The first successful rating after creation
/// yields a one-day interval; a second successful rating in a row yields six
/// days — independent of the ease factor in both cases.
pub proof fn lemma_graduation_steps(state: ReviewState, rating: u8, now: i64)
    requires
        1 <= rating,
    ensures
        state.repetitions == 0 ==> spec_update(state, rating, now).interval_secs
            == FIRST_STEP_SECS,
        state.repetitions == 1 ==> spec_update(state, rating, now).interval_secs
            == SECOND_STEP_SECS,
{
}

} // verus!
