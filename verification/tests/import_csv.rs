//! Tabular-text parsing: header detection, quoted fields through the
//! structured reader, and the byte-naive fallback.
use morflash::tabular::{deck_from_csv, deck_from_legacy_csv, looks_like_header};

#[test]
fn header_row_is_skipped_entirely() {
    let deck = deck_from_csv("term,definition\napple,fruit").unwrap();
    assert_eq!(deck.cards.len(), 1);
    assert_eq!(deck.cards[0].term, "apple");
    assert_eq!(deck.cards[0].definition, "fruit");
    assert_eq!(deck.cards[0].id, 1);
}

#[test]
fn plain_first_row_is_a_data_row() {
    let deck = deck_from_csv("apple,fruit\nbanana,also fruit").unwrap();
    assert_eq!(deck.cards.len(), 2);
    assert_eq!(deck.cards[0].term, "apple");
}

#[test]
fn header_synonyms_and_case_insensitivity() {
    assert!(looks_like_header("term", "definition"));
    assert!(looks_like_header("Front", "Back"));
    assert!(looks_like_header("QUESTION", "ANSWER"));
    assert!(looks_like_header("word", "meaning"));
    assert!(looks_like_header("prompt", "translation"));
    assert!(!looks_like_header("apple", "fruit"));
    assert!(!looks_like_header("term", "fruit"));
    assert!(!looks_like_header("apple", "definition"));
}

#[test]
fn quoted_fields_keep_embedded_commas() {
    let deck = deck_from_csv("\"salt, pepper\",seasoning").unwrap();
    assert_eq!(deck.cards.len(), 1);
    assert_eq!(deck.cards[0].term, "salt, pepper");
    assert_eq!(deck.cards[0].definition, "seasoning");
}

#[test]
fn extra_columns_are_ignored_and_rows_missing_cells_dropped() {
    let deck = deck_from_csv("a,b,extra,columns\nonly-term\n,only-def\nc,d").unwrap();
    assert_eq!(deck.cards.len(), 2);
    assert_eq!(deck.cards[0].term, "a");
    assert_eq!(deck.cards[1].term, "c");
    assert_eq!(deck.cards[1].id, 2);
}

#[test]
fn empty_input_is_an_error_not_an_empty_deck() {
    assert!(deck_from_csv("").is_err());
    assert!(deck_from_csv("\n\n").is_err());
}

#[test]
fn deck_name_is_the_fixed_csv_label() {
    let deck = deck_from_csv("a,b").unwrap();
    assert_eq!(deck.name, "CSV Deck");
    assert!(deck.description.is_none());
}

#[test]
fn legacy_fallback_splits_on_first_comma() {
    let deck = deck_from_legacy_csv("a,b,c\n , \nd,e").unwrap();
    assert_eq!(deck.cards.len(), 2);
    assert_eq!(deck.cards[0].term, "a");
    assert_eq!(deck.cards[0].definition, "b,c");
    assert_eq!(deck.cards[1].term, "d");
}

#[test]
fn legacy_fallback_errors_on_no_pairs() {
    assert!(deck_from_legacy_csv("no comma here").is_err());
}
