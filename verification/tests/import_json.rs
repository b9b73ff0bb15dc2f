//! Structured-data parsing: the six JSON shapes and their dispatch order.
use morflash::json::{
    deck_from_any_json, deck_from_json_cards_array, deck_from_json_category_map,
    deck_from_json_deck, deck_from_json_map, deck_from_json_pairs, deck_from_json_string_array,
};
use morflash::model::{FormatKind, ImportError};

#[test]
fn full_deck_object_keeps_stored_ids() {
    let text = "{\"name\":\"D\",\"description\":null,\"cards\":[{\"id\":5,\"term\":\"t\",\"definition\":\"d\"}]}";
    let deck = deck_from_json_deck(text).unwrap();
    assert_eq!(deck.name, "D");
    assert!(deck.description.is_none());
    assert_eq!(deck.cards.len(), 1);
    assert_eq!(deck.cards[0].id, 5);
    assert_eq!(deck.cards[0].term, "t");
}

#[test]
fn full_deck_description_may_be_a_string_or_absent() {
    let with = "{\"name\":\"D\",\"description\":\"about\",\"cards\":[]}";
    assert_eq!(deck_from_json_deck(with).unwrap().description.as_deref(), Some("about"));
    let without = "{\"name\":\"D\",\"cards\":[]}";
    assert!(deck_from_json_deck(without).unwrap().description.is_none());
}

#[test]
fn full_deck_requires_name_and_cards() {
    assert!(deck_from_json_deck("{\"cards\":[]}").is_err());
    assert!(deck_from_json_deck("{\"name\":\"D\"}").is_err());
    assert!(deck_from_json_deck("{\"name\":\"D\",\"cards\":[{\"term\":\"x\"}]}").is_err());
}

#[test]
fn cards_array_shape() {
    let text = "[{\"term\":\"a\",\"definition\":\"b\"},{\"note\":\"skipped\"},{\"term\":\"c\",\"definition\":\"d\"}]";
    let deck = deck_from_json_cards_array(text).unwrap();
    assert_eq!(deck.cards.len(), 2);
    assert_eq!(deck.cards[0].term, "a");
    assert_eq!(deck.cards[1].id, 2);
    assert_eq!(deck.name, "JSON Cards Deck");
}

#[test]
fn dictionary_shape_keeps_document_order() {
    let deck = deck_from_json_map("{\"zebra\":\"animal\",\"apple\":\"fruit\"}").unwrap();
    assert_eq!(deck.cards.len(), 2);
    assert_eq!(deck.cards[0].term, "zebra");
    assert_eq!(deck.cards[1].term, "apple");
    assert_eq!(deck.name, "JSON Dictionary Deck");
}

#[test]
fn bare_string_array_gets_placeholder_definitions() {
    let deck = deck_from_any_json("[\"x\",\"y\"]").unwrap();
    assert_eq!(deck.cards.len(), 2);
    assert_eq!(deck.cards[0].term, "x");
    assert_eq!(deck.cards[0].definition, "?");
    assert_eq!(deck.cards[1].term, "y");
    assert_eq!(deck.cards[1].definition, "?");
    assert_eq!(deck.name, "Term List Deck");
}

#[test]
fn string_array_directly() {
    let deck = deck_from_json_string_array("[\"only\"]").unwrap();
    assert_eq!(deck.cards[0].definition, "?");
}

#[test]
fn pairs_shape() {
    let deck = deck_from_json_pairs("[[\"a\",\"b\"],[\"c\",\"d\"],[\"too\",\"many\",\"items\"]]").unwrap();
    assert_eq!(deck.cards.len(), 2);
    assert_eq!(deck.cards[1].term, "c");
    assert_eq!(deck.name, "JSON Pairs Deck");
}

#[test]
fn category_map_flattens_in_order() {
    let text = "{\"Animals\":[[\"dog\",\"mammal\"]],\"Fruit\":[[\"apple\",\"sweet\"]]}";
    let deck = deck_from_json_category_map(text).unwrap();
    assert_eq!(deck.cards.len(), 2);
    assert_eq!(deck.cards[0].term, "dog");
    assert_eq!(deck.cards[1].term, "apple");
    assert_eq!(deck.cards[1].id, 2);
    assert_eq!(deck.name, "JSON Category Deck");
}

#[test]
fn any_json_tries_shapes_in_order() {
    // An array of card objects is recognised before the pairs shape.
    let deck = deck_from_any_json("[{\"term\":\"a\",\"definition\":\"b\"}]").unwrap();
    assert_eq!(deck.name, "JSON Cards Deck");
    // An empty full-deck object falls through; the dictionary shape then
    // reads its string-valued entries.
    let deck = deck_from_any_json("{\"name\":\"D\",\"cards\":[]}").unwrap();
    assert_eq!(deck.name, "JSON Dictionary Deck");
    assert_eq!(deck.cards.len(), 1);
    assert_eq!(deck.cards[0].term, "name");
    // When no entry has a string value, every shape fails.
    assert!(deck_from_any_json("{\"name\":[],\"cards\":[]}").is_err());
}

#[test]
fn unsupported_documents_are_terminal_errors() {
    assert_eq!(
        deck_from_any_json("42").unwrap_err(),
        ImportError::Unsupported(FormatKind::Json)
    );
    assert!(deck_from_any_json("[]").is_err());
    assert!(deck_from_any_json("not json at all").is_err());
    assert_eq!(
        deck_from_any_json("{}").unwrap_err().describe(),
        "unsupported JSON deck format"
    );
}
