//! The review-state store: one scheduling record per card id, owned by the
//! active study session.
//!
//! Records are kept keyed by card id (a weak back-reference, never a
//! pointer into the deck), created fresh — immediately due — when a deck is
//! loaded, and replaced wholesale by the scheduler's update on each answer.
use vstd::prelude::*;

use crate::model::{Card, CardModel, Deck, ReviewState};
use crate::srs::{is_due, spec_update, update_review_state};

verus! {

/// The record stored under `id`, first match winning.
pub open spec fn spec_find_state(entries: Seq<ReviewState>, id: u64) -> Option<ReviewState>
    decreases entries.len(),
{
    if entries.len() == 0 {
        None
    } else if entries[0].card_id == id {
        Some(entries[0])
    } else {
        spec_find_state(entries.drop_first(), id)
    }
}

/// Whether a card with id `id` is due at `now`: its record exists and has
/// come due.
pub open spec fn spec_due_at(entries: Seq<ReviewState>, id: u64, now: i64) -> bool {
    match spec_find_state(entries, id) {
        Some(st) => st.next_review <= now,
        None => false,
    }
}

/// Session-scoped map from card id to scheduling record.
#[derive(Debug, Clone)]
pub struct ReviewStore {
    /// One record per card, in deck order.
    pub entries: Vec<ReviewState>,
}

/// Ids are unique, so each card has exactly one record.
pub open spec fn spec_store_wf(entries: Seq<ReviewState>) -> bool {
    forall|i: int, j: int|
        0 <= i < j < entries.len() ==> (#[trigger] entries[i]).card_id != (
        #[trigger] entries[j]).card_id
}

impl ReviewStore {
    /// Whether every id appears once.
    pub open spec fn wf(&self) -> bool {
        spec_store_wf(self.entries@)
    }

    /// Open a study session over a deck: one fresh, immediately due record
    /// per card, in deck order. Unique card ids give a well-formed store.
    pub fn new_session(deck: &Deck, now: i64) -> (r: ReviewStore)
        ensures
            r.entries@ == deck.cards@.map_values(|c: Card| ReviewState::spec_new(c.id, now)),
            deck@.ids_sequential() ==> r.wf(),
    {
        let mut entries: Vec<ReviewState> = Vec::new();
        let mut i: usize = 0;
        while i < deck.cards.len()
            invariant
                0 <= i <= deck.cards@.len(),
                entries@.len() == i,
                forall|j: int|
                    0 <= j < i ==> #[trigger] entries@[j] == ReviewState::spec_new(
                        deck.cards@[j].id,
                        now,
                    ),
            decreases deck.cards@.len() - i,
        {
            entries.push(ReviewState::new(deck.cards[i].id, now));
            i = i + 1;
        }
        let r = ReviewStore { entries };
        proof {
            assert(r.entries@ =~= deck.cards@.map_values(
                |c: Card| ReviewState::spec_new(c.id, now),
            ));
            if deck@.ids_sequential() {
                assert forall|x: int, y: int|
                    0 <= x < y < r.entries@.len() implies (#[trigger] r.entries@[x]).card_id != (
                    #[trigger] r.entries@[y]).card_id by {
                    assert(deck@.cards[x].id == x + 1);
                    assert(deck@.cards[y].id == y + 1);
                    assert(deck@.cards[x] == deck.cards@[x]@);
                    assert(deck@.cards[y] == deck.cards@[y]@);
                }
            }
        }
        r
    }

    /// The record stored for `card_id`, if any.
    #[verifier::loop_isolation(false)]
    pub fn get(&self, card_id: u64) -> (r: Option<&ReviewState>)
        ensures
            match r {
                Some(st) => spec_find_state(self.entries@, card_id) == Some(*st),
                None => spec_find_state(self.entries@, card_id) is None,
            },
    {
        let mut i: usize = 0;
        assert(self.entries@.skip(0) =~= self.entries@);
        while i < self.entries.len()
            invariant
                0 <= i <= self.entries@.len(),
                spec_find_state(self.entries@, card_id) == spec_find_state(
                    self.entries@.skip(i as int),
                    card_id,
                ),
            decreases self.entries@.len() - i,
        {
            proof {
                assert(self.entries@.skip(i as int)[0] == self.entries@[i as int]);
                assert(self.entries@.skip(i as int).drop_first() =~= self.entries@.skip(i + 1));
            }
            if self.entries[i].card_id == card_id {
                return Some(&self.entries[i]);
            }
            i = i + 1;
        }
        assert(self.entries@.skip(self.entries@.len() as int) =~= Seq::<ReviewState>::empty());
        None
    }

    /// Record an answer: replace the stored record for `card_id` with the
    /// scheduler's update of it. Without a record for `card_id` nothing
    /// changes.
    #[verifier::loop_isolation(false)]
    pub fn answer(&mut self, card_id: u64, rating: u8, now: i64) -> (changed: bool)
        ensures
            final(self).entries@.len() == old(self).entries@.len(),
            match spec_find_state(old(self).entries@, card_id) {
                Some(st) => changed && exists|k: int|
                    {
                        &&& 0 <= k < old(self).entries@.len()
                        &&& old(self).entries@[k] == st
                        &&& old(self).entries@[k].card_id == card_id
                        &&& final(self).entries@ == old(self).entries@.update(
                            k,
                            spec_update(st, rating, now),
                        )
                    },
                None => !changed && final(self).entries@ == old(self).entries@,
            },
            old(self).wf() ==> final(self).wf(),
    {
        let n = self.entries.len();
        let mut i: usize = 0;
        assert(self.entries@.skip(0) =~= self.entries@);
        while i < n
            invariant
                0 <= i <= self.entries@.len(),
                n == self.entries@.len(),
                self.entries@ == old(self).entries@,
                spec_find_state(self.entries@, card_id) == spec_find_state(
                    self.entries@.skip(i as int),
                    card_id,
                ),
                forall|j: int| 0 <= j < i ==> (#[trigger] self.entries@[j]).card_id != card_id,
            decreases self.entries@.len() - i,
        {
            proof {
                assert(self.entries@.skip(i as int)[0] == self.entries@[i as int]);
                assert(self.entries@.skip(i as int).drop_first() =~= self.entries@.skip(i + 1));
            }
            if self.entries[i].card_id == card_id {
                let st = self.entries[i];
                let updated = update_review_state(st, rating, now);
                self.entries.set(i, updated);
                proof {
                    assert(spec_update(st, rating, now).card_id == st.card_id);
                    assert(final(self).entries@ == old(self).entries@.update(
                        i as int,
                        spec_update(st, rating, now),
                    ));
                    if old(self).wf() {
                        assert forall|x: int, y: int|
                            0 <= x < y < final(self).entries@.len() implies (
                            #[trigger] final(self).entries@[x]).card_id != (
                            #[trigger] final(self).entries@[y]).card_id by {
                            assert(old(self).entries@[x].card_id != old(
                                self,
                            ).entries@[y].card_id);
                        }
                    }
                }
                return true;
            }
            i = i + 1;
        }
        assert(self.entries@.skip(self.entries@.len() as int) =~= Seq::<ReviewState>::empty());
        false
    }
}

/// The first card (in deck order) that is due, if any.
pub open spec fn spec_first_due(
    cards: Seq<CardModel>,
    entries: Seq<ReviewState>,
    now: i64,
) -> Option<int>
    decreases cards.len(),
{
    if cards.len() == 0 {
        None
    } else if spec_due_at(entries, cards[0].id, now) {
        Some(0)
    } else {
        match spec_first_due(cards.drop_first(), entries, now) {
            Some(i) => Some(i + 1),
            None => None,
        }
    }
}

/// Select the next card of a study pass: the first card in deck order
/// whose record is due at `now`; `None` — the session is complete — when
/// no card is due. A card without a record is never selected.
#[verifier::loop_isolation(false)]
pub fn pick_due_card(cards: &Vec<Card>, store: &ReviewStore, now: i64) -> (r: Option<u64>)
    ensures
        match spec_first_due(cards@.map_values(|c: Card| c@), store.entries@, now) {
            Some(i) => r == Some(cards@.map_values(|c: Card| c@)[i].id),
            None => r is None,
        },
{
    let ghost cm = cards@.map_values(|c: Card| c@);
    let mut i: usize = 0;
    assert(cm.skip(0) =~= cm);
    while i < cards.len()
        invariant
            0 <= i <= cards@.len(),
            spec_first_due(cm, store.entries@, now) == (match spec_first_due(
                cm.skip(i as int),
                store.entries@,
                now,
            ) {
                Some(k) => Some(k + i),
                None => None::<int>,
            }),
        decreases cards@.len() - i,
    {
        proof {
            assert(cm.skip(i as int)[0] == cm[i as int]);
            assert(cm.skip(i as int).drop_first() =~= cm.skip(i + 1));
        }
        let id = cards[i].id;
        let due = match store.get(id) {
            Some(st) => is_due(st, now),
            None => false,
        };
        if due {
            assert(spec_first_due(cm.skip(i as int), store.entries@, now) == Some(0int));
            return Some(id);
        }
        i = i + 1;
    }
    assert(cm.skip(cards@.len() as int) =~= Seq::<CardModel>::empty());
    None
}

} // verus!
