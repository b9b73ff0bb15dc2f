//! The import dispatcher: route text by extension to a parser family and
//! normalize whatever comes back.
//!
//! Routing (extensions matched up to ASCII case): `json` to the
//! structured-data chain, `csv` to the tabular reader, `md`/`markdown` to
//! the Markdown chain, `xml` fails explicitly as unsupported, and anything
//! else — `txt` included — falls back to the delimited-text parser. The
//! binary-package extension never reaches here: such a file is not text,
//! and its path-based import lives with the caller.
//!
//! Every successful import is normalized: terms and definitions trimmed,
//! cards missing either dropped, ids reassigned sequentially from 1, and
//! the deck named by the source's declared title when the format carries
//! one, else by the file stem handed in.
use vstd::prelude::*;

use crate::json::{
    deck_from_any_json, deck_from_json_deck, spec_any_json_deck, spec_json_fallback_cards,
};
use crate::jsonval::json_doc_of;
use crate::markdown::{deck_from_markdown, spec_markdown_cards};
use crate::model::{Card, CardModel, Deck, FormatKind, ImportError};
use crate::tabular::{deck_from_csv, spec_flexible_cards, spec_legacy_cards};
use crate::text::{chars_vec, eq_ignore_ascii_case, spec_eq_ignore_ascii_case, spec_trim, trim_vec};
use crate::txt::{deck_from_txt, spec_cards_from_pairs, spec_txt_cards};

verus! {

/// Which parser family an extension routes to.
pub open spec fn spec_route(e: Seq<char>) -> FormatKind {
    if spec_eq_ignore_ascii_case(e, "json"@) {
        FormatKind::Json
    } else if spec_eq_ignore_ascii_case(e, "csv"@) {
        FormatKind::Csv
    } else if spec_eq_ignore_ascii_case(e, "md"@) || spec_eq_ignore_ascii_case(e, "markdown"@) {
        FormatKind::Markdown
    } else if spec_eq_ignore_ascii_case(e, "xml"@) {
        FormatKind::Xml
    } else if spec_eq_ignore_ascii_case(e, "apkg"@) {
        FormatKind::Apkg
    } else {
        FormatKind::Txt
    }
}

/// Executable twin of [`spec_route`].
pub fn route_extension(ext: &str) -> (r: FormatKind)
    ensures
        r == spec_route(ext@),
{
    let e = chars_vec(ext);
    if eq_ignore_ascii_case(&e, &chars_vec("json")) {
        FormatKind::Json
    } else if eq_ignore_ascii_case(&e, &chars_vec("csv")) {
        FormatKind::Csv
    } else if eq_ignore_ascii_case(&e, &chars_vec("md")) || eq_ignore_ascii_case(
        &e,
        &chars_vec("markdown"),
    ) {
        FormatKind::Markdown
    } else if eq_ignore_ascii_case(&e, &chars_vec("xml")) {
        FormatKind::Xml
    } else if eq_ignore_ascii_case(&e, &chars_vec("apkg")) {
        FormatKind::Apkg
    } else {
        FormatKind::Txt
    }
}

/// There is no XML reader: the import fails explicitly rather than
/// producing a silently empty deck.
pub fn deck_from_xml(raw: &str) -> (r: Result<Deck, ImportError>)
    ensures
        r == Result::<Deck, ImportError>::Err(ImportError::Unsupported(FormatKind::Xml)),
{
    let _ = raw;
    Err(ImportError::Unsupported(FormatKind::Xml))
}

/// The trimmed term/definition pairs of the cards that survive
/// normalization: both sides trimmed, cards missing either side dropped.
pub open spec fn spec_normalize_pairs(cards: Seq<CardModel>) -> Seq<(Seq<char>, Seq<char>)>
    decreases cards.len(),
{
    if cards.len() == 0 {
        Seq::empty()
    } else {
        spec_normalize_pairs(cards.drop_last()) + {
            let t = spec_trim(cards.last().term);
            let d = spec_trim(cards.last().definition);
            if t.len() == 0 || d.len() == 0 {
                Seq::empty()
            } else {
                seq![(t, d)]
            }
        }
    }
}

/// Cards after normalization: trimmed, non-empty on both sides, ids
/// reassigned sequentially from 1.
pub open spec fn spec_normalized_cards(cards: Seq<CardModel>) -> Seq<CardModel> {
    spec_cards_from_pairs(spec_normalize_pairs(cards))
}

/// Normalize a parsed card list; the executable twin of
/// [`spec_normalized_cards`].
pub fn normalize_cards(cards: &Vec<Card>) -> (r: Vec<Card>)
    ensures
        r@.map_values(|c: Card| c@) == spec_normalized_cards(cards@.map_values(|c: Card| c@)),
{
    let ghost cm = cards@.map_values(|c: Card| c@);
    let mut out: Vec<Card> = Vec::new();
    let mut i: usize = 0;
    assert(cm.take(0) =~= Seq::<CardModel>::empty());
    while i < cards.len()
        invariant
            0 <= i <= cards@.len(),
            cm == cards@.map_values(|c: Card| c@),
            cm.len() == cards@.len(),
            out@.map_values(|c: Card| c@) =~= spec_normalized_cards(cm.take(i as int)),
            out@.len() == spec_normalize_pairs(cm.take(i as int)).len(),
            out@.len() <= i,
        decreases cards@.len() - i,
    {
        proof {
            assert(cm.take(i + 1).drop_last() =~= cm.take(i as int));
            assert(cm.take(i + 1).last() == cm[i as int]);
            assert(cm[i as int] == cards@[i as int]@);
        }
        let ghost prev_pairs = spec_normalize_pairs(cm.take(i as int));
        let t = trim_vec(&chars_vec(cards[i].term.as_str()));
        let d = trim_vec(&chars_vec(cards[i].definition.as_str()));
        if t.len() > 0 && d.len() > 0 {
            assert(out.len() < cards.len());
            let id: u64 = (out.len() as u64) + 1;
            let card = Card {
                id,
                term: crate::text::string_of_chars(&t),
                definition: crate::text::string_of_chars(&d),
            };
            let ghost prev_cards = out@;
            out.push(card);
            proof {
                let pairs = spec_normalize_pairs(cm.take(i + 1));
                assert(pairs =~= prev_pairs.push((t@, d@)));
                assert(out@ =~= prev_cards.push(card));
                assert(out@.map_values(|c: Card| c@) =~= prev_cards.map_values(|c: Card| c@).push(
                    card@,
                ));
                assert(card@ == CardModel {
                    id: (prev_pairs.len() + 1) as u64,
                    term: t@,
                    definition: d@,
                });
                assert(out@.map_values(|c: Card| c@) =~= spec_cards_from_pairs(pairs));
            }
        } else {
            proof {
                assert(spec_normalize_pairs(cm.take(i + 1)) =~= prev_pairs);
            }
        }
        i = i + 1;
    }
    assert(cm.take(cards@.len() as int) =~= cm);
    out
}

proof fn lemma_normalize_pairs_shape(cards: Seq<CardModel>)
    ensures
        forall|i: int|
            0 <= i < spec_normalize_pairs(cards).len() ==> {
                let p = #[trigger] spec_normalize_pairs(cards)[i];
                &&& p.0.len() > 0
                &&& p.1.len() > 0
                &&& spec_trim(p.0) == p.0
                &&& spec_trim(p.1) == p.1
            },
    decreases cards.len(),
{
    if cards.len() > 0 {
        lemma_normalize_pairs_shape(cards.drop_last());
        crate::text::lemma_trim_idempotent(cards.last().term);
        crate::text::lemma_trim_idempotent(cards.last().definition);
        let prefix = spec_normalize_pairs(cards.drop_last());
        assert forall|i: int| 0 <= i < spec_normalize_pairs(cards).len() implies {
            let p = #[trigger] spec_normalize_pairs(cards)[i];
            &&& p.0.len() > 0
            &&& p.1.len() > 0
            &&& spec_trim(p.0) == p.0
            &&& spec_trim(p.1) == p.1
        } by {
            if i < prefix.len() {
                assert(spec_normalize_pairs(cards)[i] == prefix[i]);
            } else {
                assert(spec_normalize_pairs(cards)[i] == (
                    spec_trim(cards.last().term),
                    spec_trim(cards.last().definition),
                ));
            }
        }
    }
}

/// Law: the normalization guarantee. Every card of a normalized list
/// carries a non-empty term and a non-empty definition, both already
/// trimmed of surrounding whitespace, and ids are freshly assigned
/// sequentially starting at 1.
pub proof fn lemma_normalization_guarantee(cards: Seq<CardModel>)
    requires
        spec_normalize_pairs(cards).len() <= u64::MAX,
    ensures
        forall|i: int|
            0 <= i < spec_normalized_cards(cards).len() ==> {
                let c = #[trigger] spec_normalized_cards(cards)[i];
                &&& c.id == i + 1
                &&& c.term.len() > 0
                &&& c.definition.len() > 0
                &&& spec_trim(c.term) == c.term
                &&& spec_trim(c.definition) == c.definition
            },
{
    lemma_normalize_pairs_shape(cards);
}

/// Import text content routed by extension, then normalize. `stem` is the
/// source file's stem, used as the deck name wherever the format declares
/// no title of its own (only the canonical JSON deck object does).
pub fn import_deck_text(ext: &str, stem: &str, content: &str) -> (r: Result<Deck, ImportError>)
    ensures
        ({
            match spec_route(ext@) {
                FormatKind::Xml => r == Result::<Deck, ImportError>::Err(
                    ImportError::Unsupported(FormatKind::Xml),
                ),
                FormatKind::Apkg => r == Result::<Deck, ImportError>::Err(
                    ImportError::Unsupported(FormatKind::Apkg),
                ),
                FormatKind::Txt => r is Ok && r->Ok_0@.name == stem@ && r->Ok_0@.description
                    is None && r->Ok_0@.cards == spec_normalized_cards(spec_txt_cards(content@)),
                FormatKind::Csv => (match spec_flexible_cards(content@) {
                    Some(cards) => r is Ok && r->Ok_0@.name == stem@ && r->Ok_0@.description
                        is None && r->Ok_0@.cards == spec_normalized_cards(cards),
                    None => match spec_legacy_cards(content@) {
                        Some(cards) => r is Ok && r->Ok_0@.name == stem@ && r->Ok_0@.description
                            is None && r->Ok_0@.cards == spec_normalized_cards(cards),
                        None => r == Result::<Deck, ImportError>::Err(
                            ImportError::Unsupported(FormatKind::Csv),
                        ),
                    },
                }),
                FormatKind::Markdown => (match spec_markdown_cards(content@) {
                    Some(cards) => r is Ok && r->Ok_0@.name == stem@ && r->Ok_0@.description
                        is None && r->Ok_0@.cards == spec_normalized_cards(cards),
                    None => r == Result::<Deck, ImportError>::Err(
                        ImportError::Unsupported(FormatKind::Markdown),
                    ),
                }),
                FormatKind::Json => (match json_doc_of(content@) {
                    None => r == Result::<Deck, ImportError>::Err(
                        ImportError::Unsupported(FormatKind::Json),
                    ),
                    Some(j) => match spec_any_json_deck(j) {
                        Some(dm) => r is Ok && r->Ok_0@.name == dm.name && r->Ok_0@.description
                            == dm.description && r->Ok_0@.cards == spec_normalized_cards(dm.cards),
                        None => match spec_json_fallback_cards(j) {
                            Some(cards) => r is Ok && r->Ok_0@.name == stem@
                                && r->Ok_0@.description is None && r->Ok_0@.cards
                                == spec_normalized_cards(cards),
                            None => r == Result::<Deck, ImportError>::Err(
                                ImportError::Unsupported(FormatKind::Json),
                            ),
                        },
                    },
                }),
            }
        }),
{
    match route_extension(ext) {
        FormatKind::Xml => Err(ImportError::Unsupported(FormatKind::Xml)),
        FormatKind::Apkg => Err(ImportError::Unsupported(FormatKind::Apkg)),
        FormatKind::Txt => {
            let deck = deck_from_txt(stem, None, content);
            Ok(Deck { name: stem.to_owned(), description: None, cards: normalize_cards(&deck.cards) })
        },
        FormatKind::Csv => match deck_from_csv(content) {
            Ok(deck) => Ok(
                Deck {
                    name: stem.to_owned(),
                    description: None,
                    cards: normalize_cards(&deck.cards),
                },
            ),
            Err(_) => Err(ImportError::Unsupported(FormatKind::Csv)),
        },
        FormatKind::Markdown => match deck_from_markdown(content) {
            Ok(deck) => Ok(
                Deck {
                    name: stem.to_owned(),
                    description: None,
                    cards: normalize_cards(&deck.cards),
                },
            ),
            Err(e) => Err(e),
        },
        FormatKind::Json => {
            match deck_from_json_deck(content) {
                Ok(deck) => {
                    if deck.cards.len() > 0 {
                        return Ok(
                            Deck {
                                name: deck.name.clone(),
                                description: match deck.description {
                                    Some(ref d) => Some(d.clone()),
                                    None => None,
                                },
                                cards: normalize_cards(&deck.cards),
                            },
                        );
                    }
                },
                Err(_) => {},
            }
            match deck_from_any_json(content) {
                Ok(deck) => Ok(
                    Deck {
                        name: stem.to_owned(),
                        description: None,
                        cards: normalize_cards(&deck.cards),
                    },
                ),
                Err(e) => Err(e),
            }
        },
    }
}

} // verus!
