//! Delimited-text importer: "Term - Definition" / "Term,Definition" style
//! rows, the universal fallback format.
//!
//! Rows are separated by newlines or semicolons (mixed use allowed). Within
//! a row the term/definition separator is the first match from an ordered
//! preference list: tab, " - ", " \u{2013} " (en dash), " \u{2014} " (em
//! dash), then comma. A bare hyphen is deliberately not a separator, so
//! hyphenated terms such as "mother-in-law" stay whole. A row without any
//! separator becomes a term-only entry with an empty definition.
use vstd::prelude::*;

use crate::model::{Card, CardModel, Deck, DeckModel};
use crate::text::{
    chars_vec, find_sub, lemma_find_spec, normalize_crlf, spec_find, spec_normalize_crlf,
    spec_split, spec_trim, split_chars, string_of_chars, subvec, trim_vec, SepKind,
};

verus! {

/// The term/definition separators, most specific first.
pub open spec fn sep_patterns() -> Seq<Seq<char>> {
    seq![
        seq!['\t'],
        seq![' ', '-', ' '],
        seq![' ', '\u{2013}', ' '],
        seq![' ', '\u{2014}', ' '],
        seq![','],
    ]
}

/// Split a row at position `i`, dropping a separator of length `m` and
/// trimming both sides.
pub open spec fn spec_split_at(s: Seq<char>, i: int, m: int) -> (Seq<char>, Seq<char>) {
    (spec_trim(s.take(i)), spec_trim(s.skip(i + m)))
}

/// The first separator (in preference order) that occurs in `s`, as the
/// index into [`sep_patterns`].
pub open spec fn spec_first_sep(s: Seq<char>) -> Option<int> {
    if spec_find(s, sep_patterns()[0]) is Some {
        Some(0)
    } else if spec_find(s, sep_patterns()[1]) is Some {
        Some(1)
    } else if spec_find(s, sep_patterns()[2]) is Some {
        Some(2)
    } else if spec_find(s, sep_patterns()[3]) is Some {
        Some(3)
    } else if spec_find(s, sep_patterns()[4]) is Some {
        Some(4)
    } else {
        None
    }
}

/// Where a row divides into term and definition: at the first occurrence of
/// the preferred separator, both sides trimmed; a row without a separator is
/// all term, with an empty definition.
pub open spec fn spec_split_term_def(s: Seq<char>) -> (Seq<char>, Seq<char>) {
    match spec_first_sep(s) {
        Some(k) => {
            let pat = sep_patterns()[k];
            spec_split_at(s, spec_find(s, pat)->Some_0, pat.len() as int)
        },
        None => (spec_trim(s), Seq::<char>::empty()),
    }
}

/// The term/definition pair a row contributes, if any: empty rows and rows
/// whose term trims to nothing are dropped.
pub open spec fn spec_row_pair(row: Seq<char>) -> Option<(Seq<char>, Seq<char>)> {
    let t = spec_trim(row);
    if t.len() == 0 {
        None
    } else {
        let p = spec_split_term_def(t);
        if p.0.len() == 0 {
            None
        } else {
            Some(p)
        }
    }
}

/// The pairs contributed by a sequence of rows, in order.
pub open spec fn spec_rows_pairs(rows: Seq<Seq<char>>) -> Seq<(Seq<char>, Seq<char>)>
    decreases rows.len(),
{
    if rows.len() == 0 {
        Seq::empty()
    } else {
        spec_rows_pairs(rows.drop_last()) + match spec_row_pair(rows.last()) {
            Some(p) => seq![p],
            None => Seq::empty(),
        }
    }
}

/// Cards built from pairs, ids assigned sequentially from 1 by position.
pub open spec fn spec_cards_from_pairs(pairs: Seq<(Seq<char>, Seq<char>)>) -> Seq<CardModel> {
    Seq::new(
        pairs.len(),
        |i: int| CardModel { id: (i + 1) as u64, term: pairs[i].0, definition: pairs[i].1 },
    )
}

/// The cards that delimited text `s` parses to.
pub open spec fn spec_txt_cards(s: Seq<char>) -> Seq<CardModel> {
    spec_cards_from_pairs(spec_rows_pairs(spec_split(SepKind::Row, spec_normalize_crlf(s))))
}

/// Split one trimmed row into term and definition; the executable twin of
/// [`spec_split_term_def`].
pub fn split_term_and_definition(s: &Vec<char>) -> (r: (Vec<char>, Vec<char>))
    ensures
        (r.0@, r.1@) == spec_split_term_def(s@),
{
    let mut pats: Vec<Vec<char>> = Vec::new();
    let mut p: Vec<char> = Vec::new();
    p.push('\t');
    pats.push(p);
    let mut p: Vec<char> = Vec::new();
    p.push(' ');
    p.push('-');
    p.push(' ');
    pats.push(p);
    let mut p: Vec<char> = Vec::new();
    p.push(' ');
    p.push('\u{2013}');
    p.push(' ');
    pats.push(p);
    let mut p: Vec<char> = Vec::new();
    p.push(' ');
    p.push('\u{2014}');
    p.push(' ');
    pats.push(p);
    let mut p: Vec<char> = Vec::new();
    p.push(',');
    pats.push(p);
    assert(pats.deep_view() =~~= sep_patterns());

    let mut k: usize = 0;
    while k < 5
        invariant
            0 <= k <= 5,
            pats.deep_view() =~~= sep_patterns(),
            pats@.len() == 5,
            forall|j: int| 0 <= j < k ==> spec_find(s@, sep_patterns()[j]) is None,
        decreases 5 - k,
    {
        let pat = &pats[k];
        assert(pat@ == sep_patterns()[k as int]);
        if let Some(i) = find_sub(s, pat) {
            proof {
                lemma_find_spec(s@, pat@);
                assert(spec_first_sep(s@) == Some(k as int));
            }
            let left = trim_vec(&subvec(s, 0, i));
            let right = trim_vec(&subvec(s, i + pat.len(), s.len()));
            proof {
                assert(s@.subrange(0, i as int) =~= s@.take(i as int));
                assert(s@.subrange(i + pat@.len(), s@.len() as int) =~= s@.skip(i + pat@.len()));
            }
            return (left, right);
        }
        k = k + 1;
    }
    assert(spec_first_sep(s@) is None);
    let t = trim_vec(s);
    let empty: Vec<char> = Vec::new();
    (t, empty)
}

/// Parse delimited text into a deck named `name`. The cards are exactly
/// [`spec_txt_cards`] of the raw text: one card per non-empty row whose term
/// survives trimming, ids assigned sequentially from 1.
pub fn deck_from_txt(name: &str, description: Option<String>, raw: &str) -> (r: Deck)
    ensures
        r@.name == name@,
        r@.description == (match description {
            Some(d) => Some(d@),
            None => None::<Seq<char>>,
        }),
        r@.cards == spec_txt_cards(raw@),
{
    let v = chars_vec(raw);
    let n = normalize_crlf(&v);
    let rows = split_chars(&n, SepKind::Row);
    let ghost rows_view = spec_split(SepKind::Row, spec_normalize_crlf(raw@));
    assert(rows.deep_view() == rows_view);

    let mut cards: Vec<Card> = Vec::new();
    let mut i: usize = 0;
    assert(rows_view.take(0) =~= Seq::<Seq<char>>::empty());
    while i < rows.len()
        invariant
            0 <= i <= rows.len(),
            rows.deep_view() == rows_view,
            cards@.map_values(|c: Card| c@) =~= spec_cards_from_pairs(
                spec_rows_pairs(rows_view.take(i as int)),
            ),
            cards@.len() == spec_rows_pairs(rows_view.take(i as int)).len(),
            cards@.len() <= i,
        decreases rows.len() - i,
    {
        let row = &rows[i];
        assert(row@ == rows_view[i as int]);
        proof {
            assert(rows_view.take(i + 1).drop_last() =~= rows_view.take(i as int));
            assert(rows_view.take(i + 1).last() == rows_view[i as int]);
        }
        let t = trim_vec(row);
        if t.len() > 0 {
            let (term, def) = split_term_and_definition(&t);
            if term.len() > 0 {
                assert(cards.len() < rows.len());
                let id: u64 = (cards.len() as u64) + 1;
                let card = Card {
                    id,
                    term: string_of_chars(&term),
                    definition: string_of_chars(&def),
                };
                let ghost prev_cards = cards@;
                let ghost prev_pairs = spec_rows_pairs(rows_view.take(i as int));
                cards.push(card);
                proof {
                    assert(spec_row_pair(rows_view[i as int]) == Some((term@, def@)));
                    let pairs = spec_rows_pairs(rows_view.take(i + 1));
                    assert(pairs =~= prev_pairs.push((term@, def@)));
                    assert(cards@ =~= prev_cards.push(card));
                    assert(cards@.map_values(|c: Card| c@) =~= prev_cards.map_values(
                        |c: Card| c@,
                    ).push(card@));
                    assert(card@ == CardModel {
                        id: (prev_pairs.len() + 1) as u64,
                        term: term@,
                        definition: def@,
                    });
                    assert(cards@.map_values(|c: Card| c@) =~= spec_cards_from_pairs(pairs));
                }
            } else {
                assert(spec_row_pair(rows_view[i as int]) is None);
                assert(spec_rows_pairs(rows_view.take(i + 1)) =~= spec_rows_pairs(
                    rows_view.take(i as int),
                ));
            }
        } else {
            assert(spec_row_pair(rows_view[i as int]) is None);
            assert(spec_rows_pairs(rows_view.take(i + 1)) =~= spec_rows_pairs(
                rows_view.take(i as int),
            ));
        }
        i = i + 1;
    }
    assert(rows_view.take(rows.len() as int) =~= rows_view);

    Deck { name: name.to_owned(), description, cards }
}

/// Alias kept for callers that know the importer under its paste name.
pub fn deck_from_paste(name: &str, description: Option<String>, raw: &str) -> (r: Deck)
    ensures
        r@.name == name@,
        r@.description == (match description {
            Some(d) => Some(d@),
            None => None::<Seq<char>>,
        }),
        r@.cards == spec_txt_cards(raw@),
{
    deck_from_txt(name, description, raw)
}

/// Law: a row in which no separator occurs is never split — it becomes all
/// term with an empty definition, whatever characters (bare hyphens
/// included) it contains.
pub proof fn lemma_no_separator_no_split(s: Seq<char>)
    requires
        forall|k: int| 0 <= k < sep_patterns().len() ==> spec_find(s, #[trigger] sep_patterns()[k]) is None,
    ensures
        spec_split_term_def(s) == (spec_trim(s), Seq::<char>::empty()),
{
    assert(spec_find(s, sep_patterns()[0]) is None);
    assert(spec_find(s, sep_patterns()[1]) is None);
    assert(spec_find(s, sep_patterns()[2]) is None);
    assert(spec_find(s, sep_patterns()[3]) is None);
    assert(spec_find(s, sep_patterns()[4]) is None);
}

} // verus!
