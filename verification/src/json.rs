//! Structured-data importer: tries several JSON shapes in a fixed order.
//!
//! The shapes, in the order tried: a full canonical deck object; an array
//! of `{"term", "definition"}` objects; a flat object mapping terms to
//! definitions; an array of bare strings (terms with a placeholder
//! definition); an array of two-element `[term, definition]` arrays; and an
//! object mapping category names to arrays of such pairs (categories are
//! discarded, cards flattened). The first shape yielding at least one card
//! wins.
use vstd::prelude::*;

use crate::jsonval::{
    jview, jview_entries, jview_seq, lemma_jview_entries, lemma_jview_seq, obj_get, parse_json,
    spec_obj_get, JVal, JsonValue, json_doc_of,
};
use crate::model::{Card, CardModel, Deck, DeckModel, FormatKind, ImportError};
use crate::txt::spec_cards_from_pairs;

verus! {

/// The card a canonical card object parses to: required `id` (non-negative
/// integer), `term` and `definition` (strings); other keys are ignored.
pub open spec fn spec_json_card(j: JVal) -> Option<CardModel> {
    match j {
        JVal::Obj(o) => match (
            spec_obj_get(o, "id"@),
            spec_obj_get(o, "term"@),
            spec_obj_get(o, "definition"@),
        ) {
            (Some(JVal::Int(n)), Some(JVal::Str(t)), Some(JVal::Str(d))) => if n >= 0 {
                Some(CardModel { id: n as u64, term: t, definition: d })
            } else {
                None
            },
            _ => None,
        },
        _ => None,
    }
}

/// The cards of a canonical deck's card array; any ill-shaped element fails
/// the whole array.
pub open spec fn spec_json_deck_cards(items: Seq<JVal>) -> Option<Seq<CardModel>>
    decreases items.len(),
{
    if items.len() == 0 {
        Some(Seq::empty())
    } else {
        match (spec_json_deck_cards(items.drop_last()), spec_json_card(items.last())) {
            (Some(cs), Some(c)) => Some(cs.push(c)),
            _ => None,
        }
    }
}

/// The deck a canonical deck object parses to: required string `name` and
/// card array `cards`; `description` may be absent, null or a string; other
/// keys are ignored. Ids are kept as stored.
pub open spec fn spec_json_deck(j: JVal) -> Option<DeckModel> {
    match j {
        JVal::Obj(o) => match (spec_obj_get(o, "name"@), spec_obj_get(o, "cards"@)) {
            (Some(JVal::Str(name)), Some(JVal::Arr(items))) => {
                let desc = match spec_obj_get(o, "description"@) {
                    None => Some(None::<Seq<char>>),
                    Some(JVal::Null) => Some(None::<Seq<char>>),
                    Some(JVal::Str(d)) => Some(Some(d)),
                    Some(_) => None,
                };
                match (desc, spec_json_deck_cards(items)) {
                    (Some(d), Some(cs)) => Some(DeckModel { name, description: d, cards: cs }),
                    _ => None,
                }
            },
            _ => None,
        },
        _ => None,
    }
}

proof fn lemma_deck_cards_none(items: Seq<JVal>, k: int)
    requires
        0 <= k < items.len(),
        spec_json_card(items[k]) is None,
    ensures
        spec_json_deck_cards(items) is None,
    decreases items.len(),
{
    if k < items.len() - 1 {
        lemma_deck_cards_none(items.drop_last(), k);
    }
}

/// Extract one canonical card object.
fn json_card_from_value(item: &JsonValue) -> (r: Result<Card, ImportError>)
    ensures
        match r {
            Ok(card) => spec_json_card(jview(*item)) == Some(card@),
            Err(e) => spec_json_card(jview(*item)) is None && e == ImportError::Unsupported(
                FormatKind::Json,
            ),
        },
{
    let fail: ImportError = ImportError::Unsupported(FormatKind::Json);
    match item {
        JsonValue::Obj(entries) => {
            let id: u64 = match obj_get(entries, "id") {
                Some(JsonValue::Int(n)) => {
                    if *n >= 0 {
                        *n as u64
                    } else {
                        return Err(fail);
                    }
                },
                _ => {
                    return Err(fail);
                },
            };
            let term: String = match obj_get(entries, "term") {
                Some(JsonValue::Str(s)) => s.clone(),
                _ => {
                    return Err(fail);
                },
            };
            let definition: String = match obj_get(entries, "definition") {
                Some(JsonValue::Str(s)) => s.clone(),
                _ => {
                    return Err(fail);
                },
            };
            Ok(Card { id, term, definition })
        },
        _ => Err(fail),
    }
}

/// Extract a canonical deck object from a parsed document.
#[verifier::loop_isolation(false)]
fn json_deck_from_value(v: &JsonValue) -> (r: Result<Deck, ImportError>)
    ensures
        match r {
            Ok(deck) => spec_json_deck(jview(*v)) == Some(deck@),
            Err(e) => spec_json_deck(jview(*v)) is None && e == ImportError::Unsupported(
                FormatKind::Json,
            ),
        },
{
    let fail: ImportError = ImportError::Unsupported(FormatKind::Json);
    match v {
        JsonValue::Obj(entries) => {
            let name: String = match obj_get(entries, "name") {
                Some(JsonValue::Str(s)) => s.clone(),
                _ => {
                    return Err(fail);
                },
            };
            let description: Option<String> = match obj_get(entries, "description") {
                None => None,
                Some(JsonValue::Null) => None,
                Some(JsonValue::Str(s)) => Some(s.clone()),
                Some(_) => {
                    return Err(fail);
                },
            };
            match obj_get(entries, "cards") {
                Some(JsonValue::Arr(items)) => {
                    proof {
                        lemma_jview_seq(items@);
                    }
                    let ghost iv = jview_seq(items@);
                    let mut cards: Vec<Card> = Vec::new();
                    let mut i: usize = 0;
                    assert(iv.take(0) =~= Seq::<JVal>::empty());
                    while i < items.len()
                        invariant
                            0 <= i <= items.len(),
                            iv == jview_seq(items@),
                            iv.len() == items@.len(),
                            forall|j: int|
                                0 <= j < items@.len() ==> iv[j] == jview(#[trigger] items@[j]),
                            spec_json_deck_cards(iv.take(i as int)) == Some(
                                cards@.map_values(|c: Card| c@),
                            ),
                        decreases items.len() - i,
                    {
                        proof {
                            assert(iv.take(i + 1).drop_last() =~= iv.take(i as int));
                            assert(iv.take(i + 1).last() == iv[i as int]);
                        }
                        let ghost prev = cards@.map_values(|c: Card| c@);
                        match json_card_from_value(&items[i]) {
                            Ok(card) => {
                                let ghost prev_cards = cards@;
                                cards.push(card);
                                proof {
                                    assert(cards@ =~= prev_cards.push(card));
                                    assert(cards@.map_values(|c: Card| c@) =~= prev.push(card@));
                                }
                            },
                            Err(e) => {
                                proof {
                                    lemma_deck_cards_none(iv, i as int);
                                }
                                return Err(e);
                            },
                        }
                        i = i + 1;
                    }
                    assert(iv.take(items@.len() as int) =~= iv);
                    Ok(Deck { name, description, cards })
                },
                _ => Err(fail),
            }
        },
        _ => Err(fail),
    }
}

/// Parse a full canonical deck object, ids kept as stored. The result is
/// exactly [`spec_json_deck`] of the parsed document.
pub fn deck_from_json_deck(raw: &str) -> (r: Result<Deck, ImportError>)
    ensures
        match r {
            Ok(deck) => (match json_doc_of(raw@) {
                Some(j) => spec_json_deck(j) == Some(deck@),
                None => false,
            }),
            Err(e) => (match json_doc_of(raw@) {
                Some(j) => spec_json_deck(j) is None,
                None => true,
            }) && e == ImportError::Unsupported(FormatKind::Json),
        },
{
    match parse_json(raw) {
        Some(v) => json_deck_from_value(&v),
        None => Err(ImportError::Unsupported(FormatKind::Json)),
    }
}

/// The looser array- and object-shaped dialects.
#[derive(Debug, Clone, Copy, PartialEq, Eq, Structural)]
pub enum JShape {
    /// An array of objects with `term` and `definition` string fields.
    CardsArray,
    /// An array of bare strings: terms with a placeholder definition.
    StringArray,
    /// An array of two-element `[term, definition]` string arrays.
    PairsArray,
}

/// The pair one array element contributes under a shape, if any;
/// ill-shaped elements are skipped, not fatal.
pub open spec fn spec_shape_pair(rule: JShape, j: JVal) -> Option<(Seq<char>, Seq<char>)> {
    match rule {
        JShape::CardsArray => match j {
            JVal::Obj(o) => match (spec_obj_get(o, "term"@), spec_obj_get(o, "definition"@)) {
                (Some(JVal::Str(t)), Some(JVal::Str(d))) => Some((t, d)),
                _ => None,
            },
            _ => None,
        },
        JShape::StringArray => match j {
            JVal::Str(s) => Some((s, "?"@)),
            _ => None,
        },
        JShape::PairsArray => match j {
            JVal::Arr(l) => if l.len() == 2 {
                match (l[0], l[1]) {
                    (JVal::Str(t), JVal::Str(d)) => Some((t, d)),
                    _ => None,
                }
            } else {
                None
            },
            _ => None,
        },
    }
}

/// The pairs of all elements under a shape, in order.
pub open spec fn spec_shape_pairs(rule: JShape, items: Seq<JVal>) -> Seq<(Seq<char>, Seq<char>)>
    decreases items.len(),
{
    if items.len() == 0 {
        Seq::empty()
    } else {
        spec_shape_pairs(rule, items.drop_last()) + match spec_shape_pair(rule, items.last()) {
            Some(p) => seq![p],
            None => Seq::empty(),
        }
    }
}

/// The term/definition pairs of a flat object: entries whose value is a
/// string, in document order.
pub open spec fn spec_map_pairs(entries: Seq<(Seq<char>, JVal)>) -> Seq<(Seq<char>, Seq<char>)>
    decreases entries.len(),
{
    if entries.len() == 0 {
        Seq::empty()
    } else {
        spec_map_pairs(entries.drop_last()) + match entries.last().1 {
            JVal::Str(d) => seq![(entries.last().0, d)],
            _ => Seq::empty(),
        }
    }
}

/// The pairs of a category object: for each entry whose value is an array,
/// the pairs of that array under the pairs shape, flattened in order.
pub open spec fn spec_category_pairs(entries: Seq<(Seq<char>, JVal)>) -> Seq<
    (Seq<char>, Seq<char>),
>
    decreases entries.len(),
{
    if entries.len() == 0 {
        Seq::empty()
    } else {
        spec_category_pairs(entries.drop_last()) + match entries.last().1 {
            JVal::Arr(items) => spec_shape_pairs(JShape::PairsArray, items),
            _ => Seq::empty(),
        }
    }
}

/// Executable twin of [`spec_shape_pair`].
fn shape_pair(rule: JShape, item: &JsonValue) -> (r: Option<(String, String)>)
    ensures
        match r {
            Some(p) => spec_shape_pair(rule, jview(*item)) == Some((p.0@, p.1@)),
            None => spec_shape_pair(rule, jview(*item)) is None,
        },
{
    match rule {
        JShape::CardsArray => match item {
            JsonValue::Obj(entries) => {
                let term: String = match obj_get(entries, "term") {
                    Some(JsonValue::Str(s)) => s.clone(),
                    _ => {
                        return None;
                    },
                };
                let def: String = match obj_get(entries, "definition") {
                    Some(JsonValue::Str(s)) => s.clone(),
                    _ => {
                        return None;
                    },
                };
                Some((term, def))
            },
            _ => None,
        },
        JShape::StringArray => match item {
            JsonValue::Str(s) => Some((s.clone(), "?".to_owned())),
            _ => None,
        },
        JShape::PairsArray => match item {
            JsonValue::Arr(l) => {
                proof {
                    lemma_jview_seq(l@);
                }
                if l.len() == 2 {
                    match (&l[0], &l[1]) {
                        (JsonValue::Str(t), JsonValue::Str(d)) => Some((t.clone(), d.clone())),
                        _ => None,
                    }
                } else {
                    None
                }
            },
            _ => None,
        },
    }
}

/// Turn collected pairs into cards with sequential ids from 1.
pub fn cards_from_pairs(pairs: Vec<(String, String)>) -> (r: Vec<Card>)
    ensures
        r@.map_values(|c: Card| c@) == spec_cards_from_pairs(
            pairs@.map_values(|p: (String, String)| (p.0@, p.1@)),
        ),
        r@.len() == pairs@.len(),
{
    let ghost pv = pairs@.map_values(|p: (String, String)| (p.0@, p.1@));
    let mut cards: Vec<Card> = Vec::new();
    let mut i: usize = 0;
    while i < pairs.len()
        invariant
            0 <= i <= pairs.len(),
            pv == pairs@.map_values(|p: (String, String)| (p.0@, p.1@)),
            pv.len() == pairs@.len(),
            cards@.len() == i,
            cards@.map_values(|c: Card| c@) =~= spec_cards_from_pairs(pv.take(i as int)),
        decreases pairs.len() - i,
    {
        let id: u64 = (i as u64) + 1;
        let (t, d) = (&pairs[i].0, &pairs[i].1);
        let card = Card { id, term: t.clone(), definition: d.clone() };
        let ghost prev_cards = cards@;
        cards.push(card);
        proof {
            assert(pv.take(i + 1) =~= pv.take(i as int).push((t@, d@)));
            assert(cards@ =~= prev_cards.push(card));
            assert(cards@.map_values(|c: Card| c@) =~= prev_cards.map_values(|c: Card| c@).push(
                card@,
            ));
            assert(cards@.map_values(|c: Card| c@) =~= spec_cards_from_pairs(pv.take(i + 1)));
        }
        i = i + 1;
    }
    assert(pv.take(pairs@.len() as int) =~= pv);
    cards
}

/// Collect the pairs of an array under a shape.
fn collect_shape_pairs(items: &Vec<JsonValue>, rule: JShape) -> (r: Vec<(String, String)>)
    ensures
        r@.map_values(|p: (String, String)| (p.0@, p.1@)) == spec_shape_pairs(
            rule,
            jview_seq(items@),
        ),
{
    proof {
        lemma_jview_seq(items@);
    }
    let ghost iv = jview_seq(items@);
    let mut pairs: Vec<(String, String)> = Vec::new();
    let mut i: usize = 0;
    assert(iv.take(0) =~= Seq::<JVal>::empty());
    while i < items.len()
        invariant
            0 <= i <= items.len(),
            iv == jview_seq(items@),
            iv.len() == items@.len(),
            forall|j: int| 0 <= j < items@.len() ==> iv[j] == jview(#[trigger] items@[j]),
            pairs@.map_values(|p: (String, String)| (p.0@, p.1@)) =~= spec_shape_pairs(
                rule,
                iv.take(i as int),
            ),
        decreases items.len() - i,
    {
        proof {
            assert(iv.take(i + 1).drop_last() =~= iv.take(i as int));
            assert(iv.take(i + 1).last() == iv[i as int]);
        }
        let ghost prev = pairs@.map_values(|p: (String, String)| (p.0@, p.1@));
        match shape_pair(rule, &items[i]) {
            Some((t, d)) => {
                let ghost prev_pairs = pairs@;
                pairs.push((t, d));
                proof {
                    assert(pairs@ =~= prev_pairs.push(pairs@[pairs@.len() - 1]));
                    assert(pairs@.map_values(|p: (String, String)| (p.0@, p.1@)) =~= prev.push(
                        (pairs@[pairs@.len() - 1].0@, pairs@[pairs@.len() - 1].1@),
                    ));
                    assert(pairs@.map_values(|p: (String, String)| (p.0@, p.1@)) =~= spec_shape_pairs(
                        rule,
                        iv.take(i + 1),
                    ));
                }
            },
            None => {
                assert(spec_shape_pairs(rule, iv.take(i + 1)) =~= spec_shape_pairs(
                    rule,
                    iv.take(i as int),
                ));
            },
        }
        i = i + 1;
    }
    assert(iv.take(items@.len() as int) =~= iv);
    pairs
}

/// Array of `{"term", "definition"}` objects; elements missing either
/// string are skipped; an empty yield is an error.
pub fn deck_from_json_cards_array(raw: &str) -> (r: Result<Deck, ImportError>)
    ensures
        match json_doc_of(raw@) {
            Some(j) => (match j {
                JVal::Arr(items) => {
                    let pairs = spec_shape_pairs(JShape::CardsArray, items);
                    match r {
                        Ok(deck) => pairs.len() > 0 && deck@.cards == spec_cards_from_pairs(pairs)
                            && deck@.name == "JSON Cards Deck"@ && deck@.description is None,
                        Err(e) => pairs.len() == 0 && e == ImportError::Unsupported(
                            FormatKind::Json,
                        ),
                    }
                },
                _ => r == Result::<Deck, ImportError>::Err(
                    ImportError::Unsupported(FormatKind::Json),
                ),
            }),
            None => r == Result::<Deck, ImportError>::Err(
                ImportError::Unsupported(FormatKind::Json),
            ),
        },
{
    let fail: ImportError = ImportError::Unsupported(FormatKind::Json);
    match parse_json(raw) {
        Some(JsonValue::Arr(items)) => {
            let pairs = collect_shape_pairs(&items, JShape::CardsArray);
            let n = pairs.len();
            let cards = cards_from_pairs(pairs);
            if n == 0 {
                Err(fail)
            } else {
                Ok(Deck { name: "JSON Cards Deck".to_owned(), description: None, cards })
            }
        },
        Some(_) => Err(fail),
        None => Err(fail),
    }
}

/// Array of bare strings: each becomes a term with the placeholder
/// definition `?` — never empty, never an error for a non-empty yield.
pub fn deck_from_json_string_array(raw: &str) -> (r: Result<Deck, ImportError>)
    ensures
        match json_doc_of(raw@) {
            Some(j) => (match j {
                JVal::Arr(items) => {
                    let pairs = spec_shape_pairs(JShape::StringArray, items);
                    match r {
                        Ok(deck) => pairs.len() > 0 && deck@.cards == spec_cards_from_pairs(pairs)
                            && deck@.name == "Term List Deck"@ && deck@.description is None,
                        Err(e) => pairs.len() == 0 && e == ImportError::Unsupported(
                            FormatKind::Json,
                        ),
                    }
                },
                _ => r == Result::<Deck, ImportError>::Err(
                    ImportError::Unsupported(FormatKind::Json),
                ),
            }),
            None => r == Result::<Deck, ImportError>::Err(
                ImportError::Unsupported(FormatKind::Json),
            ),
        },
{
    let fail: ImportError = ImportError::Unsupported(FormatKind::Json);
    match parse_json(raw) {
        Some(JsonValue::Arr(items)) => {
            let pairs = collect_shape_pairs(&items, JShape::StringArray);
            let n = pairs.len();
            let cards = cards_from_pairs(pairs);
            if n == 0 {
                Err(fail)
            } else {
                Ok(Deck { name: "Term List Deck".to_owned(), description: None, cards })
            }
        },
        Some(_) => Err(fail),
        None => Err(fail),
    }
}

/// Array of two-element `[term, definition]` arrays.
pub fn deck_from_json_pairs(raw: &str) -> (r: Result<Deck, ImportError>)
    ensures
        match json_doc_of(raw@) {
            Some(j) => (match j {
                JVal::Arr(items) => {
                    let pairs = spec_shape_pairs(JShape::PairsArray, items);
                    match r {
                        Ok(deck) => pairs.len() > 0 && deck@.cards == spec_cards_from_pairs(pairs)
                            && deck@.name == "JSON Pairs Deck"@ && deck@.description is None,
                        Err(e) => pairs.len() == 0 && e == ImportError::Unsupported(
                            FormatKind::Json,
                        ),
                    }
                },
                _ => r == Result::<Deck, ImportError>::Err(
                    ImportError::Unsupported(FormatKind::Json),
                ),
            }),
            None => r == Result::<Deck, ImportError>::Err(
                ImportError::Unsupported(FormatKind::Json),
            ),
        },
{
    let fail: ImportError = ImportError::Unsupported(FormatKind::Json);
    match parse_json(raw) {
        Some(JsonValue::Arr(items)) => {
            let pairs = collect_shape_pairs(&items, JShape::PairsArray);
            let n = pairs.len();
            let cards = cards_from_pairs(pairs);
            if n == 0 {
                Err(fail)
            } else {
                Ok(Deck { name: "JSON Pairs Deck".to_owned(), description: None, cards })
            }
        },
        Some(_) => Err(fail),
        None => Err(fail),
    }
}

/// Flat object mapping term strings to definition strings; entries with a
/// non-string value are skipped.
pub fn deck_from_json_map(raw: &str) -> (r: Result<Deck, ImportError>)
    ensures
        match json_doc_of(raw@) {
            Some(j) => (match j {
                JVal::Obj(entries) => {
                    let pairs = spec_map_pairs(entries);
                    match r {
                        Ok(deck) => pairs.len() > 0 && deck@.cards == spec_cards_from_pairs(pairs)
                            && deck@.name == "JSON Dictionary Deck"@ && deck@.description is None,
                        Err(e) => pairs.len() == 0 && e == ImportError::Unsupported(
                            FormatKind::Json,
                        ),
                    }
                },
                _ => r == Result::<Deck, ImportError>::Err(
                    ImportError::Unsupported(FormatKind::Json),
                ),
            }),
            None => r == Result::<Deck, ImportError>::Err(
                ImportError::Unsupported(FormatKind::Json),
            ),
        },
{
    let fail: ImportError = ImportError::Unsupported(FormatKind::Json);
    match parse_json(raw) {
        Some(JsonValue::Obj(entries)) => {
            proof {
                lemma_jview_entries(entries@);
            }
            let ghost ev = jview_entries(entries@);
            let mut pairs: Vec<(String, String)> = Vec::new();
            let mut i: usize = 0;
            assert(ev.take(0) =~= Seq::<(Seq<char>, JVal)>::empty());
            while i < entries.len()
                invariant
                    0 <= i <= entries.len(),
                    ev == jview_entries(entries@),
                    ev.len() == entries@.len(),
                    forall|j: int|
                        0 <= j < entries@.len() ==> ev[j] == ((#[trigger] entries@[j]).0@, jview(
                            entries@[j].1,
                        )),
                    pairs@.map_values(|p: (String, String)| (p.0@, p.1@)) =~= spec_map_pairs(
                        ev.take(i as int),
                    ),
                decreases entries.len() - i,
            {
                proof {
                    assert(ev.take(i + 1).drop_last() =~= ev.take(i as int));
                    assert(ev.take(i + 1).last() == ev[i as int]);
                }
                let ghost prev = pairs@.map_values(|p: (String, String)| (p.0@, p.1@));
                match &entries[i].1 {
                    JsonValue::Str(d) => {
                        let t = entries[i].0.clone();
                        let dd = d.clone();
                        let ghost prev_pairs = pairs@;
                        pairs.push((t, dd));
                        proof {
                            assert(pairs@ =~= prev_pairs.push(pairs@[pairs@.len() - 1]));
                            assert(pairs@.map_values(|p: (String, String)| (p.0@, p.1@))
                                =~= prev.push(
                                (pairs@[pairs@.len() - 1].0@, pairs@[pairs@.len() - 1].1@),
                            ));
                            assert(pairs@.map_values(|p: (String, String)| (p.0@, p.1@))
                                =~= spec_map_pairs(ev.take(i + 1)));
                        }
                    },
                    _ => {
                        assert(spec_map_pairs(ev.take(i + 1)) =~= spec_map_pairs(
                            ev.take(i as int),
                        ));
                    },
                }
                i = i + 1;
            }
            assert(ev.take(entries@.len() as int) =~= ev);
            let n = pairs.len();
            let cards = cards_from_pairs(pairs);
            if n == 0 {
                Err(fail)
            } else {
                Ok(Deck { name: "JSON Dictionary Deck".to_owned(), description: None, cards })
            }
        },
        Some(_) => Err(fail),
        None => Err(fail),
    }
}

/// Object mapping category names to arrays of `[term, definition]` pairs;
/// category names are discarded and the cards flattened in order.
pub fn deck_from_json_category_map(raw: &str) -> (r: Result<Deck, ImportError>)
    ensures
        match json_doc_of(raw@) {
            Some(j) => (match j {
                JVal::Obj(entries) => {
                    let pairs = spec_category_pairs(entries);
                    match r {
                        Ok(deck) => pairs.len() > 0 && deck@.cards == spec_cards_from_pairs(pairs)
                            && deck@.name == "JSON Category Deck"@ && deck@.description is None,
                        Err(e) => pairs.len() == 0 && e == ImportError::Unsupported(
                            FormatKind::Json,
                        ),
                    }
                },
                _ => r == Result::<Deck, ImportError>::Err(
                    ImportError::Unsupported(FormatKind::Json),
                ),
            }),
            None => r == Result::<Deck, ImportError>::Err(
                ImportError::Unsupported(FormatKind::Json),
            ),
        },
{
    let fail: ImportError = ImportError::Unsupported(FormatKind::Json);
    match parse_json(raw) {
        Some(JsonValue::Obj(entries)) => {
            proof {
                lemma_jview_entries(entries@);
            }
            let ghost ev = jview_entries(entries@);
            let mut pairs: Vec<(String, String)> = Vec::new();
            let mut i: usize = 0;
            assert(ev.take(0) =~= Seq::<(Seq<char>, JVal)>::empty());
            while i < entries.len()
                invariant
                    0 <= i <= entries.len(),
                    ev == jview_entries(entries@),
                    ev.len() == entries@.len(),
                    forall|j: int|
                        0 <= j < entries@.len() ==> ev[j] == ((#[trigger] entries@[j]).0@, jview(
                            entries@[j].1,
                        )),
                    pairs@.map_values(|p: (String, String)| (p.0@, p.1@)) =~= spec_category_pairs(
                        ev.take(i as int),
                    ),
                decreases entries.len() - i,
            {
                proof {
                    assert(ev.take(i + 1).drop_last() =~= ev.take(i as int));
                    assert(ev.take(i + 1).last() == ev[i as int]);
                }
                let ghost prev = pairs@.map_values(|p: (String, String)| (p.0@, p.1@));
                match &entries[i].1 {
                    JsonValue::Arr(items) => {
                        let mut inner = collect_shape_pairs(items, JShape::PairsArray);
                        let ghost inner_view = inner@.map_values(
                            |p: (String, String)| (p.0@, p.1@),
                        );
                        let ghost prev_pairs = pairs@;
                        pairs.append(&mut inner);
                        proof {
                            assert(pairs@.map_values(|p: (String, String)| (p.0@, p.1@))
                                =~= prev + inner_view);
                            assert(pairs@.map_values(|p: (String, String)| (p.0@, p.1@))
                                =~= spec_category_pairs(ev.take(i + 1)));
                        }
                    },
                    _ => {
                        assert(spec_category_pairs(ev.take(i + 1)) =~= spec_category_pairs(
                            ev.take(i as int),
                        ));
                    },
                }
                i = i + 1;
            }
            assert(ev.take(entries@.len() as int) =~= ev);
            let n = pairs.len();
            let cards = cards_from_pairs(pairs);
            if n == 0 {
                Err(fail)
            } else {
                Ok(Deck { name: "JSON Category Deck".to_owned(), description: None, cards })
            }
        },
        Some(_) => Err(fail),
        None => Err(fail),
    }
}

/// Whether the canonical-deck shape wins inside the fallback chain: it must
/// parse and hold at least one card.
pub open spec fn spec_any_json_deck(j: JVal) -> Option<DeckModel> {
    match spec_json_deck(j) {
        Some(dm) => if dm.cards.len() > 0 {
            Some(dm)
        } else {
            None
        },
        None => None,
    }
}

/// The JSON object a plain card serialises to.
pub open spec fn spec_card_json(c: CardModel) -> JVal {
    JVal::Obj(
        seq![
            ("id"@, JVal::Int(c.id as i64)),
            ("term"@, JVal::Str(c.term)),
            ("definition"@, JVal::Str(c.definition)),
        ],
    )
}

/// The JSON object a plain deck serialises to: name, description (null
/// when absent) and the card array, in field order.
pub open spec fn spec_deck_json(d: DeckModel) -> JVal {
    JVal::Obj(
        seq![
            ("name"@, JVal::Str(d.name)),
            ("description"@, match d.description {
                Some(s) => JVal::Str(s),
                None => JVal::Null,
            }),
            ("cards"@, JVal::Arr(d.cards.map_values(|c: CardModel| spec_card_json(c)))),
        ],
    )
}

proof fn deck_strlit_keys()
    ensures
        "name"@.len() == 4,
        "description"@.len() == 11,
        "cards"@.len() == 5,
        "id"@.len() == 2,
        "term"@.len() == 4,
        "definition"@.len() == 10,
{
    reveal_strlit("name");
    reveal_strlit("description");
    reveal_strlit("cards");
    reveal_strlit("id");
    reveal_strlit("term");
    reveal_strlit("definition");
}

proof fn lemma_deck_json_distinct(d: DeckModel)
    ensures
        crate::jsonval::jval_keys_distinct(spec_deck_json(d)),
{
    deck_strlit_keys();
    let cards = d.cards.map_values(|c: CardModel| spec_card_json(c));
    assert forall|i: int| 0 <= i < cards.len() implies crate::jsonval::jval_keys_distinct(
        #[trigger] cards[i],
    ) by {
        let o = (match spec_card_json(d.cards[i]) {
            JVal::Obj(o) => o,
            _ => Seq::empty(),
        });
        assert(cards[i] == spec_card_json(d.cards[i]));
        assert(o.len() == 3);
        assert forall|x: int, y: int| 0 <= x < y < o.len() implies (#[trigger] o[x]).0 != (
        #[trigger] o[y]).0 by {
            deck_strlit_keys();
        }
        assert forall|x: int|
            0 <= x < o.len() implies crate::jsonval::jval_keys_distinct((#[trigger] o[x]).1) by {}
    }
    assert(crate::jsonval::jval_keys_distinct(JVal::Arr(cards)));
    let o = (match spec_deck_json(d) {
        JVal::Obj(o) => o,
        _ => Seq::empty(),
    });
    assert(o.len() == 3);
    assert forall|x: int, y: int| 0 <= x < y < o.len() implies (#[trigger] o[x]).0 != (
    #[trigger] o[y]).0 by {
        deck_strlit_keys();
    }
    assert forall|x: int|
        0 <= x < o.len() implies crate::jsonval::jval_keys_distinct((#[trigger] o[x]).1) by {
        assert(crate::jsonval::jval_keys_distinct(JVal::Arr(cards)));
    }
}

/// A serialised card object nests one container level.
proof fn lemma_plain_card_json_depth(c: CardModel)
    ensures
        crate::jsonval::jval_depth(spec_card_json(c)) <= 1,
{
    let o = (match spec_card_json(c) {
        JVal::Obj(o) => o,
        _ => Seq::empty(),
    });
    assert(forall|i: int|
        0 <= i < o.len() ==> crate::jsonval::jval_depth((#[trigger] o[i]).1) <= 0);
    crate::jsonval::lemma_entries_depth_bound(o, 0);
}

/// A serialised plain deck nests at most three container levels — far
/// inside the reader's limit.
proof fn lemma_plain_deck_json_depth(d: DeckModel)
    ensures
        crate::jsonval::jval_depth(spec_deck_json(d)) <= 3,
{
    let cards = d.cards.map_values(|c: CardModel| spec_card_json(c));
    assert forall|i: int| 0 <= i < cards.len() implies crate::jsonval::jval_depth(
        #[trigger] cards[i],
    ) <= 1 by {
        assert(cards[i] == spec_card_json(d.cards[i]));
        lemma_plain_card_json_depth(d.cards[i]);
    }
    crate::jsonval::lemma_seq_depth_bound(cards, 1);
    let o = (match spec_deck_json(d) {
        JVal::Obj(o) => o,
        _ => Seq::empty(),
    });
    assert forall|i: int| 0 <= i < o.len() implies crate::jsonval::jval_depth(
        (#[trigger] o[i]).1,
    ) <= 2 by {
        assert(crate::jsonval::jval_seq_depth(cards) <= 1);
    }
    crate::jsonval::lemma_entries_depth_bound(o, 2);
}

/// Serialise a plain deck as JSON text in the shape [`deck_from_json_deck`]
/// reads: what the text parses back to is pinned exactly.
pub fn deck_to_json_text(deck: &Deck) -> (r: String)
    ensures
        json_doc_of(r@) == Some(spec_deck_json(deck@)),
{
    let mut cards: Vec<JsonValue> = Vec::new();
    let mut i: usize = 0;
    while i < deck.cards.len()
        invariant
            0 <= i <= deck.cards@.len(),
            cards@.len() == i,
            forall|j: int|
                0 <= j < i ==> jview(#[trigger] cards@[j]) == spec_card_json(deck.cards@[j]@),
        decreases deck.cards@.len() - i,
    {
        let c = &deck.cards[i];
        let mut entries: Vec<(String, JsonValue)> = Vec::new();
        entries.push(("id".to_owned(), JsonValue::Int(c.id as i64)));
        entries.push(("term".to_owned(), JsonValue::Str(c.term.clone())));
        entries.push(("definition".to_owned(), JsonValue::Str(c.definition.clone())));
        proof {
            lemma_jview_entries(entries@);
            let o = (match spec_card_json(deck.cards@[i as int]@) {
                JVal::Obj(o) => o,
                _ => Seq::empty(),
            });
            assert(entries@.len() == 3);
            assert forall|k: int| 0 <= k < 3 implies jview_entries(entries@)[k] == o[k] by {
                assert(jview_entries(entries@)[k] == (entries@[k].0@, jview(entries@[k].1)));
            }
            assert(jview_entries(entries@) =~= o);
        }
        cards.push(JsonValue::Obj(entries));
        i = i + 1;
    }
    proof {
        lemma_jview_seq(cards@);
        assert forall|j: int| 0 <= j < deck.cards@.len() implies jview_seq(cards@)[j]
            == deck@.cards.map_values(|c: CardModel| spec_card_json(c))[j] by {
            assert(jview_seq(cards@)[j] == jview(cards@[j]));
            assert(deck@.cards[j] == deck.cards@[j]@);
        }
        assert(jview_seq(cards@) =~= deck@.cards.map_values(|c: CardModel| spec_card_json(c)));
    }

    let mut entries: Vec<(String, JsonValue)> = Vec::new();
    entries.push(("name".to_owned(), JsonValue::Str(deck.name.clone())));
    entries.push(
        (
            "description".to_owned(),
            match deck.description {
                Some(ref d) => JsonValue::Str(d.clone()),
                None => JsonValue::Null,
            },
        ),
    );
    entries.push(("cards".to_owned(), JsonValue::Arr(cards)));
    proof {
        lemma_jview_entries(entries@);
        let o = (match spec_deck_json(deck@) {
            JVal::Obj(o) => o,
            _ => Seq::empty(),
        });
        assert(entries@.len() == 3);
        assert forall|k: int| 0 <= k < 3 implies jview_entries(entries@)[k] == o[k] by {
            assert(jview_entries(entries@)[k] == (entries@[k].0@, jview(entries@[k].1)));
        }
        assert(jview_entries(entries@) =~= o);
        lemma_deck_json_distinct(deck@);
        lemma_plain_deck_json_depth(deck@);
    }
    crate::jsonval::render_json(&JsonValue::Obj(entries))
}

/// A saved plain deck reads back as itself through the canonical deck
/// shape: name and description kept, cards kept with their stored ids
/// (which the JSON number range bounds).
pub proof fn lemma_deck_json_round_trip(d: DeckModel)
    requires
        forall|i: int| 0 <= i < d.cards.len() ==> (#[trigger] d.cards[i]).id <= i64::MAX,
    ensures
        spec_json_deck(spec_deck_json(d)) == Some(d),
{
    deck_strlit_keys();
    let o = (match spec_deck_json(d) {
        JVal::Obj(o) => o,
        _ => Seq::empty(),
    });
    lemma_obj_get_at3(o, "name"@, 0);
    lemma_obj_get_at3(o, "description"@, 1);
    lemma_obj_get_at3(o, "cards"@, 2);
    let cards = d.cards.map_values(|c: CardModel| spec_card_json(c));
    lemma_deck_cards_round(d.cards);
    assert(spec_json_deck_cards(cards) == Some(d.cards));
}

proof fn lemma_deck_cards_round(cs: Seq<CardModel>)
    requires
        forall|i: int| 0 <= i < cs.len() ==> (#[trigger] cs[i]).id <= i64::MAX,
    ensures
        spec_json_deck_cards(cs.map_values(|c: CardModel| spec_card_json(c))) == Some(cs),
    decreases cs.len(),
{
    let mapped = cs.map_values(|c: CardModel| spec_card_json(c));
    if cs.len() > 0 {
        lemma_deck_cards_round(cs.drop_last());
        assert(mapped.drop_last() =~= cs.drop_last().map_values(
            |c: CardModel| spec_card_json(c),
        ));
        assert(mapped.last() == spec_card_json(cs.last()));
        lemma_card_json_round(cs.last());
        assert(cs.drop_last().push(cs.last()) =~= cs);
    } else {
        assert(mapped.len() == 0);
    }
}

proof fn lemma_card_json_round(c: CardModel)
    requires
        c.id <= i64::MAX,
    ensures
        spec_json_card(spec_card_json(c)) == Some(c),
{
    deck_strlit_keys();
    let o = (match spec_card_json(c) {
        JVal::Obj(o) => o,
        _ => Seq::empty(),
    });
    lemma_obj_get_at3(o, "id"@, 0);
    lemma_obj_get_at3(o, "term"@, 1);
    lemma_obj_get_at3(o, "definition"@, 2);
}

proof fn lemma_obj_get_at3(entries: Seq<(Seq<char>, JVal)>, key: Seq<char>, k: int)
    requires
        0 <= k < entries.len(),
        entries[k].0 == key,
        forall|i: int| 0 <= i < k ==> (#[trigger] entries[i]).0 != key,
    ensures
        spec_obj_get(entries, key) == Some(entries[k].1),
    decreases k,
{
    if k > 0 {
        assert(entries[0].0 != key);
        lemma_obj_get_at3(entries.drop_first(), key, k - 1);
        assert(entries.drop_first()[k - 1] == entries[k]);
    }
}

/// The cards the looser shapes yield when the canonical deck shape does
/// not apply: the first of cards array, dictionary object, string array,
/// pairs array, category object that yields any, in that order.
pub open spec fn spec_json_fallback_cards(j: JVal) -> Option<Seq<CardModel>> {
    match j {
        JVal::Arr(items) => {
            let cpairs = spec_shape_pairs(JShape::CardsArray, items);
            let spairs = spec_shape_pairs(JShape::StringArray, items);
            let ppairs = spec_shape_pairs(JShape::PairsArray, items);
            if cpairs.len() > 0 {
                Some(spec_cards_from_pairs(cpairs))
            } else if spairs.len() > 0 {
                Some(spec_cards_from_pairs(spairs))
            } else if ppairs.len() > 0 {
                Some(spec_cards_from_pairs(ppairs))
            } else {
                None
            }
        },
        JVal::Obj(entries) => {
            let mpairs = spec_map_pairs(entries);
            let kpairs = spec_category_pairs(entries);
            if mpairs.len() > 0 {
                Some(spec_cards_from_pairs(mpairs))
            } else if kpairs.len() > 0 {
                Some(spec_cards_from_pairs(kpairs))
            } else {
                None
            }
        },
        _ => None,
    }
}

/// Structured-data import: try each shape in order — full deck object,
/// cards array, dictionary object, bare string array, pairs array,
/// category object — until one yields at least one card; when none does,
/// fail with an unsupported-JSON error, never an empty deck.
pub fn deck_from_any_json(raw: &str) -> (r: Result<Deck, ImportError>)
    ensures
        match json_doc_of(raw@) {
            Some(j) => (match spec_any_json_deck(j) {
                Some(dm) => r is Ok && r->Ok_0@ == dm,
                None => match j {
                    JVal::Arr(items) => {
                        let cpairs = spec_shape_pairs(JShape::CardsArray, items);
                        let spairs = spec_shape_pairs(JShape::StringArray, items);
                        let ppairs = spec_shape_pairs(JShape::PairsArray, items);
                        if cpairs.len() > 0 {
                            r is Ok && r->Ok_0@.cards == spec_cards_from_pairs(cpairs)
                                && r->Ok_0@.name == "JSON Cards Deck"@
                        } else if spairs.len() > 0 {
                            r is Ok && r->Ok_0@.cards == spec_cards_from_pairs(spairs)
                                && r->Ok_0@.name == "Term List Deck"@
                        } else if ppairs.len() > 0 {
                            r is Ok && r->Ok_0@.cards == spec_cards_from_pairs(ppairs)
                                && r->Ok_0@.name == "JSON Pairs Deck"@
                        } else {
                            r == Result::<Deck, ImportError>::Err(
                                ImportError::Unsupported(FormatKind::Json),
                            )
                        }
                    },
                    JVal::Obj(entries) => {
                        let mpairs = spec_map_pairs(entries);
                        let kpairs = spec_category_pairs(entries);
                        if mpairs.len() > 0 {
                            r is Ok && r->Ok_0@.cards == spec_cards_from_pairs(mpairs)
                                && r->Ok_0@.name == "JSON Dictionary Deck"@
                        } else if kpairs.len() > 0 {
                            r is Ok && r->Ok_0@.cards == spec_cards_from_pairs(kpairs)
                                && r->Ok_0@.name == "JSON Category Deck"@
                        } else {
                            r == Result::<Deck, ImportError>::Err(
                                ImportError::Unsupported(FormatKind::Json),
                            )
                        }
                    },
                    _ => r == Result::<Deck, ImportError>::Err(
                        ImportError::Unsupported(FormatKind::Json),
                    ),
                },
            }),
            None => r == Result::<Deck, ImportError>::Err(
                ImportError::Unsupported(FormatKind::Json),
            ),
        },
{
    match deck_from_json_deck(raw) {
        Ok(deck) => {
            if deck.cards.len() > 0 {
                proof {
                    assert(deck@.cards.len() == deck.cards@.len());
                }
                return Ok(deck);
            }
        },
        Err(_) => {},
    }
    match deck_from_json_cards_array(raw) {
        Ok(deck) => {
            return Ok(deck);
        },
        Err(_) => {},
    }
    match deck_from_json_map(raw) {
        Ok(deck) => {
            return Ok(deck);
        },
        Err(_) => {},
    }
    match deck_from_json_string_array(raw) {
        Ok(deck) => {
            return Ok(deck);
        },
        Err(_) => {},
    }
    match deck_from_json_pairs(raw) {
        Ok(deck) => {
            return Ok(deck);
        },
        Err(_) => {},
    }
    deck_from_json_category_map(raw)
}

} // verus!
