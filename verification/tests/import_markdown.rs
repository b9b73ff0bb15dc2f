//! Markdown parsing: each sub-dialect, their precedence, and the terminal
//! fallback error.
use morflash::markdown::{
    deck_from_markdown, try_markdown_bullets, try_markdown_flashcard_blocks,
    try_markdown_glossary_style, try_markdown_heading_pairs, try_markdown_table_2col,
    try_markdown_term_colon_def,
};
use morflash::model::{FormatKind, ImportError};

#[test]
fn heading_pairs_dialect() {
    let deck = try_markdown_heading_pairs("## Photosynthesis\nThe process in plants").unwrap();
    assert_eq!(deck.cards.len(), 1);
    assert_eq!(deck.cards[0].term, "Photosynthesis");
    assert_eq!(deck.cards[0].definition, "The process in plants");
    assert_eq!(deck.name, "Markdown Deck (Headings)");
}

#[test]
fn heading_without_definition_keeps_placeholder() {
    let deck = try_markdown_heading_pairs("# A\n# B\nb def").unwrap();
    assert_eq!(deck.cards.len(), 2);
    assert_eq!(deck.cards[0].term, "A");
    assert_eq!(deck.cards[0].definition, "(no definition)");
    assert_eq!(deck.cards[1].term, "B");
    assert_eq!(deck.cards[1].definition, "b def");
}

#[test]
fn trailing_heading_without_definition_is_discarded() {
    let deck = try_markdown_heading_pairs("# A\na def\n# B").unwrap();
    assert_eq!(deck.cards.len(), 1);
    assert_eq!(deck.cards[0].term, "A");
}

#[test]
fn bullet_dialect() {
    let deck = try_markdown_bullets("- Dog: A domesticated mammal\n* Cat: A small carnivore").unwrap();
    assert_eq!(deck.cards.len(), 2);
    assert_eq!(deck.cards[0].term, "Dog");
    assert_eq!(deck.cards[1].term, "Cat");
    assert_eq!(deck.cards[1].definition, "A small carnivore");
}

#[test]
fn table_dialect() {
    let text = "| Term | Definition |\n|------|------------|\n| Dog | A mammal |\n| Cat | Small |";
    let deck = try_markdown_table_2col(text).unwrap();
    assert_eq!(deck.cards.len(), 2);
    assert_eq!(deck.cards[0].term, "Dog");
    assert_eq!(deck.cards[0].definition, "A mammal");
}

#[test]
fn table_requires_leading_bar() {
    assert!(try_markdown_table_2col("Term | Definition").is_err());
}

#[test]
fn flashcard_block_dialect() {
    let text = "```card\nTerm: Dog\nDefinition: A mammal\n```";
    let deck = try_markdown_flashcard_blocks(text).unwrap();
    assert_eq!(deck.cards.len(), 1);
    assert_eq!(deck.cards[0].term, "Dog");
    assert_eq!(deck.cards[0].definition, "A mammal");
}

#[test]
fn block_without_term_is_dropped() {
    let text = "```card\nDefinition: orphan\n```\n```card\nTerm: Kept\nDefinition: yes\n```";
    let deck = try_markdown_flashcard_blocks(text).unwrap();
    assert_eq!(deck.cards.len(), 1);
    assert_eq!(deck.cards[0].term, "Kept");
}

#[test]
fn glossary_dialect_uses_em_dash() {
    let deck = try_markdown_glossary_style("**Dog** \u{2014} A mammal").unwrap();
    assert_eq!(deck.cards.len(), 1);
    assert_eq!(deck.cards[0].term, "Dog");
    assert_eq!(deck.cards[0].definition, "A mammal");
}

#[test]
fn colon_dialect() {
    let deck = try_markdown_term_colon_def("Dog: A mammal\nCat: Small").unwrap();
    assert_eq!(deck.cards.len(), 2);
    assert_eq!(deck.cards[1].term, "Cat");
}

#[test]
fn dispatcher_prefers_stricter_dialects() {
    // Headings beat the colon dialect even though both would match.
    let deck = deck_from_markdown("# Dog\nA: mammal").unwrap();
    assert_eq!(deck.name, "Markdown Deck (Headings)");
    // Without headings, bullets win over bare colon lines.
    let deck = deck_from_markdown("- Dog: A mammal\nCat: small").unwrap();
    assert_eq!(deck.name, "Markdown Deck (Bullets)");
}

#[test]
fn unrecognised_markdown_is_a_terminal_error() {
    let r = deck_from_markdown("just some prose\nwith no structure at all");
    assert_eq!(r.unwrap_err(), ImportError::Unsupported(FormatKind::Markdown));
}

#[test]
fn error_reports_the_attempted_format() {
    let e = deck_from_markdown("plain words").unwrap_err();
    assert_eq!(e.describe(), "unsupported Markdown deck format");
}
