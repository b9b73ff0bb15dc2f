//! Delimited-text parsing: separator preference, hyphen safety, row
//! separators, and the paste alias.
use morflash::txt::{deck_from_paste, deck_from_txt};

#[test]
fn spaced_dash_splits_term_and_definition() {
    let deck = deck_from_txt("t", None, "apple - a fruit\nbanana - a fruit too");
    assert_eq!(deck.cards.len(), 2);
    assert_eq!(deck.cards[0].term, "apple");
    assert_eq!(deck.cards[0].definition, "a fruit");
    assert_eq!(deck.cards[0].id, 1);
    assert_eq!(deck.cards[1].term, "banana");
    assert_eq!(deck.cards[1].definition, "a fruit too");
    assert_eq!(deck.cards[1].id, 2);
    assert_eq!(deck.name, "t");
}

#[test]
fn embedded_hyphen_is_not_a_separator() {
    let deck = deck_from_txt("t", None, "mother-in-law - relative");
    assert_eq!(deck.cards.len(), 1);
    assert_eq!(deck.cards[0].term, "mother-in-law");
    assert_eq!(deck.cards[0].definition, "relative");
}

#[test]
fn tab_beats_spaced_dash_and_comma() {
    let deck = deck_from_txt("t", None, "a\tb - c, d");
    assert_eq!(deck.cards[0].term, "a");
    assert_eq!(deck.cards[0].definition, "b - c, d");
}

#[test]
fn comma_is_the_last_resort_separator() {
    let deck = deck_from_txt("t", None, "red, a color");
    assert_eq!(deck.cards[0].term, "red");
    assert_eq!(deck.cards[0].definition, "a color");
}

#[test]
fn en_and_em_dash_separators_work() {
    let deck = deck_from_txt("t", None, "a \u{2013} b\nc \u{2014} d");
    assert_eq!(deck.cards[0].definition, "b");
    assert_eq!(deck.cards[1].definition, "d");
}

#[test]
fn semicolon_and_newline_rows_mix() {
    let deck = deck_from_txt("t", None, "a - b;c - d\ne - f");
    assert_eq!(deck.cards.len(), 3);
    assert_eq!(deck.cards[2].term, "e");
}

#[test]
fn row_without_separator_keeps_empty_definition() {
    let deck = deck_from_txt("t", None, "standalone");
    assert_eq!(deck.cards.len(), 1);
    assert_eq!(deck.cards[0].term, "standalone");
    assert_eq!(deck.cards[0].definition, "");
}

#[test]
fn blank_rows_and_windows_line_endings() {
    let deck = deck_from_txt("t", None, "a - b\r\n\r\nc - d\r\n");
    assert_eq!(deck.cards.len(), 2);
    assert_eq!(deck.cards[1].term, "c");
}

#[test]
fn empty_input_gives_empty_deck() {
    let deck = deck_from_txt("t", Some("desc".to_string()), "");
    assert_eq!(deck.cards.len(), 0);
    assert_eq!(deck.description.as_deref(), Some("desc"));
}

#[test]
fn paste_alias_matches_txt() {
    let a = deck_from_txt("t", None, "x - y");
    let b = deck_from_paste("t", None, "x - y");
    assert_eq!(a.cards.len(), b.cards.len());
    assert_eq!(a.cards[0].term, b.cards[0].term);
    assert_eq!(a.cards[0].definition, b.cards[0].definition);
}
