//! The canonical deck codec: round trip, validation causes, and the
//! payload helpers.
use morflash::json::deck_to_json_text;
use morflash::json::deck_from_json_deck;
use morflash::mflash::{
    decode_mflash_deck, deck_from_mflash, encode_mflash_deck, mflash_from_deck, MflashCard,
    MflashDeck,
};
use morflash::model::{Card, CodecError, Deck};

fn sample_deck() -> Deck {
    Deck {
        name: "Sample".to_string(),
        description: Some("two cards".to_string()),
        cards: vec![
            Card { id: 1, term: "dog".to_string(), definition: "mammal".to_string() },
            Card { id: 2, term: "apple".to_string(), definition: "fruit".to_string() },
        ],
    }
}

#[test]
fn save_then_load_reproduces_pairs_in_order() {
    let deck = sample_deck();
    let text = encode_mflash_deck(&deck);
    let loaded = decode_mflash_deck(&text).unwrap();
    assert_eq!(loaded.name, deck.name);
    assert_eq!(loaded.description, deck.description);
    assert_eq!(loaded.cards.len(), deck.cards.len());
    for (a, b) in loaded.cards.iter().zip(deck.cards.iter()) {
        assert_eq!(a.term, b.term);
        assert_eq!(a.definition, b.definition);
    }
    // Ids come back sequential from 1.
    assert_eq!(loaded.cards[0].id, 1);
    assert_eq!(loaded.cards[1].id, 2);
}

#[test]
fn encoded_payload_has_the_fixed_tag_and_version() {
    let text = encode_mflash_deck(&sample_deck());
    assert!(text.contains("\"format\""));
    assert!(text.contains("\"mflash\""));
    assert!(text.contains("\"version\""));
}

#[test]
fn wrong_format_tag_is_distinct_from_corruption() {
    let text = "{\"format\":\"other\",\"version\":1,\"title\":\"T\"}";
    assert_eq!(decode_mflash_deck(text).unwrap_err(), CodecError::WrongFormatTag);
}

#[test]
fn unsupported_version_is_distinct() {
    let text = "{\"format\":\"mflash\",\"version\":2,\"title\":\"T\"}";
    assert_eq!(decode_mflash_deck(text).unwrap_err(), CodecError::UnsupportedVersion);
}

#[test]
fn malformed_payloads_are_malformed() {
    assert_eq!(decode_mflash_deck("not json").unwrap_err(), CodecError::Malformed);
    assert_eq!(decode_mflash_deck("[1,2]").unwrap_err(), CodecError::Malformed);
    // Missing required title.
    assert_eq!(
        decode_mflash_deck("{\"format\":\"mflash\",\"version\":1}").unwrap_err(),
        CodecError::Malformed
    );
    // A card missing its definition.
    let bad = "{\"format\":\"mflash\",\"version\":1,\"title\":\"T\",\"cards\":[{\"term\":\"x\"}]}";
    assert_eq!(decode_mflash_deck(bad).unwrap_err(), CodecError::Malformed);
    assert_eq!(
        decode_mflash_deck("nope").unwrap_err().describe(),
        "malformed deck payload"
    );
}

#[test]
fn minimal_valid_payload_loads_with_defaults() {
    let text = "{\"format\":\"mflash\",\"version\":1,\"title\":\"Tiny\"}";
    let deck = decode_mflash_deck(text).unwrap();
    assert_eq!(deck.name, "Tiny");
    assert!(deck.description.is_none());
    assert_eq!(deck.cards.len(), 0);
}

#[test]
fn payload_wrapping_is_lossless_on_the_texts() {
    let deck = sample_deck();
    let payload: MflashDeck = mflash_from_deck(&deck);
    assert_eq!(payload.format, "mflash");
    assert_eq!(payload.version, 1);
    assert_eq!(payload.title, "Sample");
    assert!(payload.snippet.is_none());
    assert!(payload.deck_tags.is_empty());
    let back = deck_from_mflash(&payload);
    assert_eq!(back.cards[1].term, "apple");
    assert_eq!(back.cards[1].id, 2);
}

#[test]
fn effective_language_prefers_the_card_override() {
    let mut payload = mflash_from_deck(&sample_deck());
    payload.default_term_lang = Some("en".to_string());
    payload.default_def_lang = Some("en".to_string());
    let card = MflashCard {
        term: "t".to_string(),
        definition: "d".to_string(),
        term_lang: Some("ja".to_string()),
        def_lang: None,
        hyperlink: None,
        media: None,
        tags: vec![],
        examples: vec![],
    };
    assert_eq!(payload.effective_term_lang(&card), Some("ja"));
    assert_eq!(payload.effective_def_lang(&card), Some("en"));
}

#[test]
fn plain_deck_json_round_trips_through_the_deck_shape() {
    let deck = sample_deck();
    let text = deck_to_json_text(&deck);
    let loaded = deck_from_json_deck(&text).unwrap();
    assert_eq!(loaded.name, deck.name);
    assert_eq!(loaded.description, deck.description);
    assert_eq!(loaded.cards.len(), 2);
    assert_eq!(loaded.cards[0].id, 1);
    assert_eq!(loaded.cards[1].term, "apple");
}
