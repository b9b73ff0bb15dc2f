//! Tabular (comma-delimited) importer.
//!
//! The flexible path hands the raw text to a structured reader that
//! tolerates quoted fields and varying column counts, detects and skips a
//! header row (a first row whose first two cells match a small vocabulary of
//! header synonyms, case-insensitively), and keeps rows whose first two
//! cells are both non-empty after trimming. If that path yields nothing,
//! a byte-naive fallback splits each line at its first comma.
use vstd::prelude::*;

use crate::model::{Card, CardModel, Deck, ParseError};
use crate::text::{
    chars_vec, find_sub, lemma_find_spec, eq_ignore_ascii_case, spec_eq_ignore_ascii_case,
    spec_find, spec_split, spec_trim, split_chars, string_of_chars, subvec, trim_vec, SepKind,
};
use crate::txt::spec_cards_from_pairs;

verus! {

/// What the structured reader tokenises `s` into: one record per row, one
/// string per cell. `None` when the reader reports an error.
pub uninterp spec fn csv_records_of(s: Seq<char>) -> Option<Seq<Seq<Seq<char>>>>;

/// Relies on `csv::ReaderBuilder` / `Reader::records` (headers off,
/// flexible columns): tokenises comma-separated rows with quoting. The
/// records depend on the input text alone.
#[verifier::external_body]
fn csv_parse_records(raw: &str) -> (r: Option<Vec<Vec<String>>>)
    ensures
        match r {
            Some(v) => csv_records_of(raw@) == Some(v.deep_view()),
            None => csv_records_of(raw@) is None,
        },
{
    let mut rdr = csv::ReaderBuilder::new()
        .has_headers(false)
        .flexible(true)
        .from_reader(raw.as_bytes());
    let mut out: Vec<Vec<String>> = Vec::new();
    for rec in rdr.records() {
        match rec {
            Ok(r) => out.push(r.iter().map(|f| f.to_string()).collect()),
            Err(_) => return None,
        }
    }
    Some(out)
}

/// The header synonyms accepted for the first (term) column.
pub open spec fn spec_is_front_word(s: Seq<char>) -> bool {
    spec_eq_ignore_ascii_case(s, "term"@) || spec_eq_ignore_ascii_case(s, "front"@)
        || spec_eq_ignore_ascii_case(s, "question"@) || spec_eq_ignore_ascii_case(s, "word"@)
        || spec_eq_ignore_ascii_case(s, "prompt"@)
}

/// The header synonyms accepted for the second (definition) column.
pub open spec fn spec_is_back_word(s: Seq<char>) -> bool {
    spec_eq_ignore_ascii_case(s, "definition"@) || spec_eq_ignore_ascii_case(s, "back"@)
        || spec_eq_ignore_ascii_case(s, "answer"@) || spec_eq_ignore_ascii_case(s, "meaning"@)
        || spec_eq_ignore_ascii_case(s, "translation"@)
}

/// A first row is a header exactly when both cells match the vocabulary.
pub open spec fn spec_looks_like_header(first: Seq<char>, second: Seq<char>) -> bool {
    spec_is_front_word(first) && spec_is_back_word(second)
}

/// Whether two (already trimmed) cells form a header row such as
/// "term,definition" or "front,back"; matching is exact up to ASCII case.
pub fn looks_like_header(first: &str, second: &str) -> (r: bool)
    ensures
        r == spec_looks_like_header(first@, second@),
{
    let f = chars_vec(first);
    let s = chars_vec(second);
    let front = eq_ignore_ascii_case(&f, &chars_vec("term")) || eq_ignore_ascii_case(
        &f,
        &chars_vec("front"),
    ) || eq_ignore_ascii_case(&f, &chars_vec("question")) || eq_ignore_ascii_case(
        &f,
        &chars_vec("word"),
    ) || eq_ignore_ascii_case(&f, &chars_vec("prompt"));
    let back = eq_ignore_ascii_case(&s, &chars_vec("definition")) || eq_ignore_ascii_case(
        &s,
        &chars_vec("back"),
    ) || eq_ignore_ascii_case(&s, &chars_vec("answer")) || eq_ignore_ascii_case(
        &s,
        &chars_vec("meaning"),
    ) || eq_ignore_ascii_case(&s, &chars_vec("translation"));
    front && back
}

/// The first two cells of a record, trimmed; missing cells read as empty.
pub open spec fn spec_record_cells(rec: Seq<Seq<char>>) -> (Seq<char>, Seq<char>) {
    (
        spec_trim(if rec.len() >= 1 { rec[0] } else { Seq::<char>::empty() }),
        spec_trim(if rec.len() >= 2 { rec[1] } else { Seq::<char>::empty() }),
    )
}

/// The pair a record contributes: its first two trimmed cells, kept only
/// when both are non-empty.
pub open spec fn spec_record_pair(rec: Seq<Seq<char>>) -> Option<(Seq<char>, Seq<char>)> {
    let (first, second) = spec_record_cells(rec);
    if first.len() == 0 || second.len() == 0 {
        None
    } else {
        Some((first, second))
    }
}

/// The pairs a run of records contributes, in order.
pub open spec fn spec_records_pairs(recs: Seq<Seq<Seq<char>>>) -> Seq<(Seq<char>, Seq<char>)>
    decreases recs.len(),
{
    if recs.len() == 0 {
        Seq::empty()
    } else {
        spec_records_pairs(recs.drop_last()) + match spec_record_pair(recs.last()) {
            Some(p) => seq![p],
            None => Seq::empty(),
        }
    }
}

/// The pairs of a whole table: as [`spec_records_pairs`], except that a
/// first row that looks like a header is skipped entirely.
pub open spec fn spec_flexible_pairs(recs: Seq<Seq<Seq<char>>>) -> Seq<(Seq<char>, Seq<char>)> {
    if recs.len() > 0 && {
        let (first, second) = spec_record_cells(recs[0]);
        spec_looks_like_header(first, second)
    } {
        spec_records_pairs(recs.skip(1))
    } else {
        spec_records_pairs(recs)
    }
}

/// What the flexible path yields on text `s`: `None` when the reader fails
/// or no card survives, otherwise the cards with sequential ids.
pub open spec fn spec_flexible_cards(s: Seq<char>) -> Option<Seq<CardModel>> {
    match csv_records_of(s) {
        None => None,
        Some(recs) => {
            let pairs = spec_flexible_pairs(recs);
            if pairs.len() == 0 {
                None
            } else {
                Some(spec_cards_from_pairs(pairs))
            }
        },
    }
}

/// The pair one line contributes under the fallback: split at the first
/// comma, both sides trimmed, kept only when both are non-empty (so a line
/// without a comma is dropped).
pub open spec fn spec_legacy_pair(line: Seq<char>) -> Option<(Seq<char>, Seq<char>)> {
    let t = spec_trim(line);
    match spec_find(t, seq![',']) {
        Some(i) => {
            let term = spec_trim(t.take(i));
            let def = spec_trim(t.skip(i + 1));
            if term.len() == 0 || def.len() == 0 {
                None
            } else {
                Some((term, def))
            }
        },
        None => None,
    }
}

/// The pairs of all lines under the fallback, in order.
pub open spec fn spec_legacy_pairs(lines: Seq<Seq<char>>) -> Seq<(Seq<char>, Seq<char>)>
    decreases lines.len(),
{
    if lines.len() == 0 {
        Seq::empty()
    } else {
        spec_legacy_pairs(lines.drop_last()) + match spec_legacy_pair(lines.last()) {
            Some(p) => seq![p],
            None => Seq::empty(),
        }
    }
}

/// What the fallback yields on text `s`.
pub open spec fn spec_legacy_cards(s: Seq<char>) -> Option<Seq<CardModel>> {
    let pairs = spec_legacy_pairs(spec_split(SepKind::Line, s));
    if pairs.len() == 0 {
        None
    } else {
        Some(spec_cards_from_pairs(pairs))
    }
}

/// Build the deck from the structured reader's records: first two trimmed
/// cells of each record become term and definition, a header first row is
/// skipped, rows missing either cell are dropped; an empty result is an
/// error, never an empty deck.
pub fn deck_from_csv_records(records: &Vec<Vec<String>>) -> (r: Result<Deck, ParseError>)
    ensures
        ({
            let pairs = spec_flexible_pairs(records.deep_view());
            match r {
                Ok(deck) => pairs.len() > 0 && deck@.cards == spec_cards_from_pairs(pairs)
                    && deck@.name == "CSV Deck"@ && deck@.description is None,
                Err(e) => pairs.len() == 0 && e == ParseError::NoCards,
            }
        }),
{
    let ghost recs = records.deep_view();
    let mut start: usize = 0;
    if records.len() > 0 {
        let (first, second) = record_cells(&records[0]);
        proof {
            assert(records@[0].deep_view() == recs[0]);
        }
        if looks_like_header(string_of_chars(&first).as_str(), string_of_chars(&second).as_str()) {
            start = 1;
        }
    }
    let ghost body = if start == 1 { recs.skip(1) } else { recs };
    assert(spec_flexible_pairs(recs) == spec_records_pairs(body));

    let mut cards: Vec<Card> = Vec::new();
    let mut i: usize = start;
    assert(body =~= recs.skip(start as int));
    assert(recs.skip(start as int).take(0) =~= Seq::<Seq<Seq<char>>>::empty());
    while i < records.len()
        invariant
            start <= i <= records.len(),
            recs == records.deep_view(),
            body == recs.skip(start as int),
            cards@.map_values(|c: Card| c@) =~= spec_cards_from_pairs(
                spec_records_pairs(body.take(i - start)),
            ),
            cards@.len() == spec_records_pairs(body.take(i - start)).len(),
            cards@.len() <= i,
        decreases records.len() - i,
    {
        let rec = &records[i];
        proof {
            assert(records@[i as int].deep_view() == recs[i as int]);
            assert(body[i - start] == recs[i as int]);
            assert(body.take(i - start + 1).drop_last() =~= body.take(i - start));
            assert(body.take(i - start + 1).last() == body[i - start]);
        }
        let (first, second) = record_cells(rec);
        if first.len() > 0 && second.len() > 0 {
            assert(cards.len() < records.len());
            let id: u64 = (cards.len() as u64) + 1;
            let card = Card {
                id,
                term: string_of_chars(&first),
                definition: string_of_chars(&second),
            };
            let ghost prev_cards = cards@;
            let ghost prev_pairs = spec_records_pairs(body.take(i - start));
            cards.push(card);
            proof {
                assert(spec_record_pair(body[i - start]) == Some((first@, second@)));
                let pairs = spec_records_pairs(body.take(i - start + 1));
                assert(pairs =~= prev_pairs.push((first@, second@)));
                assert(cards@ =~= prev_cards.push(card));
                assert(cards@.map_values(|c: Card| c@) =~= prev_cards.map_values(
                    |c: Card| c@,
                ).push(card@));
                assert(card@ == CardModel {
                    id: (prev_pairs.len() + 1) as u64,
                    term: first@,
                    definition: second@,
                });
                assert(cards@.map_values(|c: Card| c@) =~= spec_cards_from_pairs(pairs));
            }
        } else {
            assert(spec_record_pair(body[i - start]) is None);
            assert(spec_records_pairs(body.take(i - start + 1)) =~= spec_records_pairs(
                body.take(i - start),
            ));
        }
        i = i + 1;
    }
    assert(body.take(records.len() - start) =~= body);

    if cards.len() == 0 {
        return Err(ParseError::NoCards);
    }
    Ok(Deck { name: "CSV Deck".to_owned(), description: None, cards })
}

/// The first two cells of a record, trimmed; the executable twin of
/// [`spec_record_cells`].
fn record_cells(rec: &Vec<String>) -> (r: (Vec<char>, Vec<char>))
    ensures
        (r.0@, r.1@) == spec_record_cells(rec.deep_view()),
{
    let first = if rec.len() >= 1 {
        trim_vec(&chars_vec(rec[0].as_str()))
    } else {
        let empty: Vec<char> = Vec::new();
        assert(empty@ =~= spec_trim(Seq::<char>::empty()));
        empty
    };
    let second = if rec.len() >= 2 {
        trim_vec(&chars_vec(rec[1].as_str()))
    } else {
        let empty: Vec<char> = Vec::new();
        assert(empty@ =~= spec_trim(Seq::<char>::empty()));
        empty
    };
    proof {
        if rec.len() >= 1 {
            assert(rec.deep_view()[0] == rec@[0]@);
        }
        if rec.len() >= 2 {
            assert(rec.deep_view()[1] == rec@[1]@);
        }
    }
    (first, second)
}

/// The flexible path: structured reader plus [`deck_from_csv_records`].
pub fn deck_from_flexible_csv(raw: &str) -> (r: Result<Deck, ParseError>)
    ensures
        match r {
            Ok(deck) => spec_flexible_cards(raw@) == Some(deck@.cards) && deck@.name
                == "CSV Deck"@ && deck@.description is None,
            Err(_) => spec_flexible_cards(raw@) is None,
        },
{
    match csv_parse_records(raw) {
        Some(records) => deck_from_csv_records(&records),
        None => Err(ParseError::Malformed),
    }
}

/// The byte-naive fallback: split each line at its first comma.
pub fn deck_from_legacy_csv(raw: &str) -> (r: Result<Deck, ParseError>)
    ensures
        match r {
            Ok(deck) => spec_legacy_cards(raw@) == Some(deck@.cards) && deck@.name == "CSV Deck"@
                && deck@.description is None,
            Err(e) => spec_legacy_cards(raw@) is None && e == ParseError::NoCards,
        },
{
    let v = chars_vec(raw);
    let lines = split_chars(&v, SepKind::Line);
    let ghost lines_view = spec_split(SepKind::Line, raw@);
    assert(lines.deep_view() == lines_view);

    let comma: Vec<char> = {
        let mut c: Vec<char> = Vec::new();
        c.push(',');
        c
    };
    assert(comma@ =~= seq![',']);

    let mut cards: Vec<Card> = Vec::new();
    let mut i: usize = 0;
    assert(lines_view.take(0) =~= Seq::<Seq<char>>::empty());
    while i < lines.len()
        invariant
            0 <= i <= lines.len(),
            lines.deep_view() == lines_view,
            comma@ == seq![','],
            cards@.map_values(|c: Card| c@) =~= spec_cards_from_pairs(
                spec_legacy_pairs(lines_view.take(i as int)),
            ),
            cards@.len() == spec_legacy_pairs(lines_view.take(i as int)).len(),
            cards@.len() <= i,
        decreases lines.len() - i,
    {
        let line = &lines[i];
        assert(line@ == lines_view[i as int]);
        proof {
            assert(lines_view.take(i + 1).drop_last() =~= lines_view.take(i as int));
            assert(lines_view.take(i + 1).last() == lines_view[i as int]);
        }
        let t = trim_vec(line);
        let mut contributed: bool = false;
        let ghost prev_pairs = spec_legacy_pairs(lines_view.take(i as int));
        if let Some(p) = find_sub(&t, &comma) {
            proof {
                lemma_find_spec(t@, comma@);
            }
            let term = trim_vec(&subvec(&t, 0, p));
            let def = trim_vec(&subvec(&t, p + 1, t.len()));
            proof {
                assert(t@.subrange(0, p as int) =~= t@.take(p as int));
                assert(t@.subrange(p + 1, t@.len() as int) =~= t@.skip(p + 1));
            }
            if term.len() > 0 && def.len() > 0 {
                assert(cards.len() < lines.len());
                let id: u64 = (cards.len() as u64) + 1;
                let card = Card {
                    id,
                    term: string_of_chars(&term),
                    definition: string_of_chars(&def),
                };
                let ghost prev_cards = cards@;
                cards.push(card);
                contributed = true;
                proof {
                    assert(spec_legacy_pair(lines_view[i as int]) == Some((term@, def@)));
                    let pairs = spec_legacy_pairs(lines_view.take(i + 1));
                    assert(pairs =~= prev_pairs.push((term@, def@)));
                    assert(cards@ =~= prev_cards.push(card));
                    assert(cards@.map_values(|c: Card| c@) =~= prev_cards.map_values(
                        |c: Card| c@,
                    ).push(card@));
                    assert(card@ == CardModel {
                        id: (prev_pairs.len() + 1) as u64,
                        term: term@,
                        definition: def@,
                    });
                    assert(cards@.map_values(|c: Card| c@) =~= spec_cards_from_pairs(pairs));
                }
            }
        }
        if !contributed {
            proof {
                assert(spec_legacy_pair(lines_view[i as int]) is None);
                assert(spec_legacy_pairs(lines_view.take(i + 1)) =~= prev_pairs);
            }
        }
        i = i + 1;
    }
    assert(lines_view.take(lines.len() as int) =~= lines_view);

    if cards.len() == 0 {
        return Err(ParseError::NoCards);
    }
    Ok(Deck { name: "CSV Deck".to_owned(), description: None, cards })
}

/// Tabular import: try the structured reader first; if it fails or yields
/// nothing, fall back to the byte-naive split. Only when both paths yield
/// nothing does the import fail.
pub fn deck_from_csv(raw: &str) -> (r: Result<Deck, ParseError>)
    ensures
        match spec_flexible_cards(raw@) {
            Some(cards) => r is Ok && r->Ok_0@.cards == cards && r->Ok_0@.name == "CSV Deck"@
                && r->Ok_0@.description is None,
            None => match spec_legacy_cards(raw@) {
                Some(cards) => r is Ok && r->Ok_0@.cards == cards && r->Ok_0@.name == "CSV Deck"@
                    && r->Ok_0@.description is None,
                None => r is Err,
            },
        },
{
    match deck_from_flexible_csv(raw) {
        Ok(deck) => Ok(deck),
        Err(_) => deck_from_legacy_csv(raw),
    }
}

} // verus!
