//! The import dispatcher's routing and normalization, the package-export
//! helpers, and the interface state model.
use morflash::apkg::{
    choose_collection_name, collection_file_candidates, finalize_deck_from_synthetic_txt,
    strip_anki_markup, synthetic_txt_from_notes,
};
use morflash::dispatch::{deck_from_xml, import_deck_text, route_extension};
use morflash::model::{FormatKind, ImportError};
use morflash::ui::{
    builder_to_mflash, menu_focus_down, menu_focus_up, parse_index_text, render_index_text,
    safe_file_name, screen_after_completion, screen_after_main_menu, screen_mode_for_width,
    BackgroundChoice, BuilderCard, CardColorMode, CompletionAction, DeckBuilderState, FontChoice,
    MainMenuAction, NewCardMode, Screen, ScreenMode, SoundSlotConfig, SoundSource,
};

#[test]
fn extensions_route_case_insensitively() {
    assert_eq!(route_extension("json"), FormatKind::Json);
    assert_eq!(route_extension("JSON"), FormatKind::Json);
    assert_eq!(route_extension("csv"), FormatKind::Csv);
    assert_eq!(route_extension("md"), FormatKind::Markdown);
    assert_eq!(route_extension("Markdown"), FormatKind::Markdown);
    assert_eq!(route_extension("xml"), FormatKind::Xml);
    assert_eq!(route_extension("apkg"), FormatKind::Apkg);
    assert_eq!(route_extension("txt"), FormatKind::Txt);
    assert_eq!(route_extension(""), FormatKind::Txt);
    assert_eq!(route_extension("weird"), FormatKind::Txt);
}

#[test]
fn unknown_extensions_fall_back_to_delimited_text() {
    let deck = import_deck_text("", "notes", "a - b").unwrap();
    assert_eq!(deck.name, "notes");
    assert_eq!(deck.cards.len(), 1);
    assert_eq!(deck.cards[0].term, "a");
}

#[test]
fn normalization_drops_term_only_rows_and_reassigns_ids() {
    let deck = import_deck_text("txt", "n", "solo\na - b\nc - d").unwrap();
    assert_eq!(deck.cards.len(), 2);
    assert_eq!(deck.cards[0].term, "a");
    assert_eq!(deck.cards[0].id, 1);
    assert_eq!(deck.cards[1].term, "c");
    assert_eq!(deck.cards[1].id, 2);
}

#[test]
fn csv_and_markdown_imports_take_the_file_stem_as_name() {
    let deck = import_deck_text("csv", "vocab", "a,b").unwrap();
    assert_eq!(deck.name, "vocab");
    let deck = import_deck_text("md", "notes", "- a: b").unwrap();
    assert_eq!(deck.name, "notes");
}

#[test]
fn json_deck_import_keeps_the_declared_title() {
    let text = "{\"name\":\"Declared\",\"cards\":[{\"id\":9,\"term\":\"t\",\"definition\":\"d\"}]}";
    let deck = import_deck_text("json", "stem", text).unwrap();
    assert_eq!(deck.name, "Declared");
    // Ids are still normalized sequentially.
    assert_eq!(deck.cards[0].id, 1);
    // Other JSON shapes have no declared title and take the stem.
    let deck = import_deck_text("json", "stem", "[\"x\",\"y\"]").unwrap();
    assert_eq!(deck.name, "stem");
    assert_eq!(deck.cards.len(), 2);
}

#[test]
fn xml_fails_explicitly() {
    assert_eq!(
        deck_from_xml("<cards/>").unwrap_err(),
        ImportError::Unsupported(FormatKind::Xml)
    );
    assert_eq!(
        import_deck_text("xml", "n", "<cards/>").unwrap_err().describe(),
        "XML import is not supported"
    );
}

#[test]
fn failed_family_chains_surface_terminal_errors() {
    assert!(import_deck_text("md", "n", "no structure").is_err());
    assert!(import_deck_text("csv", "n", "").is_err());
    assert!(import_deck_text("json", "n", "{}").is_err());
}

#[test]
fn markup_stripping_removes_sound_and_tts_spans() {
    assert_eq!(strip_anki_markup("hello [sound:foo.mp3]world"), "hello world");
    assert_eq!(strip_anki_markup("[anki:tts lang=en]spoken[/anki:tts]rest"), "rest");
    assert_eq!(strip_anki_markup("a[sound:x][sound:y]b"), "ab");
    // Malformed markup is kept as plain text.
    assert_eq!(strip_anki_markup("open [sound:endless"), "open [sound:endless");
    assert_eq!(strip_anki_markup("[anki:tts no close"), "[anki:tts no close");
    assert_eq!(strip_anki_markup("plain"), "plain");
}

#[test]
fn synthetic_text_from_note_fields() {
    let notes = vec![
        "front\u{1f}back\u{1f}ignored".to_string(),
        "\u{1f}".to_string(),
        "solo".to_string(),
    ];
    let text = synthetic_txt_from_notes(&notes).unwrap();
    assert_eq!(text, "front\tback\nsolo\t\n");
    let deck = finalize_deck_from_synthetic_txt("pack", &text);
    assert_eq!(deck.name, "pack");
    assert_eq!(deck.cards.len(), 2);
    assert_eq!(deck.cards[0].term, "front");
    assert_eq!(deck.cards[0].definition, "back");
}

#[test]
fn empty_notes_are_a_hard_failure() {
    let notes = vec!["\u{1f}".to_string(), "[sound:only.mp3]".to_string()];
    assert_eq!(
        synthetic_txt_from_notes(&notes).unwrap_err(),
        ImportError::Unsupported(FormatKind::Apkg)
    );
}

#[test]
fn notes_whose_lines_parse_to_no_card_are_a_hard_failure() {
    // An empty term with a definition starting with a comma yields the
    // line "\t,x\n": non-blank text, yet the comma splits off an empty
    // term and the row is dropped — zero cards must still be an error.
    let notes = vec!["\u{1f},x".to_string()];
    assert_eq!(
        synthetic_txt_from_notes(&notes).unwrap_err(),
        ImportError::Unsupported(FormatKind::Apkg)
    );
}

#[test]
fn database_entry_choice_prefers_newer_schema() {
    let names = vec![
        "media".to_string(),
        "collection.anki2".to_string(),
        "sub/collection.anki21b".to_string(),
    ];
    assert_eq!(choose_collection_name(&names).as_deref(), Some("sub/collection.anki21b"));
    let older = vec!["media".to_string(), "collection.anki2".to_string()];
    assert_eq!(choose_collection_name(&older).as_deref(), Some("collection.anki2"));
    assert!(choose_collection_name(&vec!["media".to_string()]).is_none());
    assert_eq!(
        collection_file_candidates(),
        vec!["collection.anki21b", "collection.anki21", "collection.anki2"]
    );
}

#[test]
fn interface_defaults() {
    assert_eq!(CardColorMode::default(), CardColorMode::BuiltIn);
    assert_eq!(BackgroundChoice::default(), BackgroundChoice::BuiltIn);
    assert_eq!(FontChoice::default(), FontChoice::MorflashSerif);
    assert_eq!(SoundSource::default(), SoundSource::BuiltIn);
    let slot = SoundSlotConfig::default();
    assert_eq!(slot.source, SoundSource::BuiltIn);
    assert!(slot.custom_path.is_none());
    assert_eq!(NewCardMode::default(), NewCardMode::Blank);
}

#[test]
fn screen_transitions_and_focus() {
    assert_eq!(screen_after_main_menu(MainMenuAction::NoAction), None);
    assert_eq!(screen_after_main_menu(MainMenuAction::ChooseDeck), Some(Screen::Study));
    assert_eq!(screen_after_main_menu(MainMenuAction::OpenOptions), Some(Screen::Options));
    assert_eq!(screen_after_completion(CompletionAction::BackToDecks), Some(Screen::DeckList));
    assert_eq!(screen_after_completion(CompletionAction::StudyAgain), Some(Screen::Study));
    assert_eq!(menu_focus_up(0), 0);
    assert_eq!(menu_focus_up(2), 1);
    assert_eq!(menu_focus_down(2, 3), 2);
    assert_eq!(menu_focus_down(1, 3), 2);
    assert_eq!(screen_mode_for_width(900), ScreenMode::Wide);
    assert_eq!(screen_mode_for_width(600), ScreenMode::Medium);
    assert_eq!(screen_mode_for_width(400), ScreenMode::Narrow);
    assert_eq!(screen_mode_for_width(100), ScreenMode::UltraNarrow);
}

#[test]
fn safe_file_names() {
    assert_eq!(safe_file_name("My Deck!"), "My_Deck_");
    assert_eq!(safe_file_name("  ok-name_9  "), "ok-name_9");
    assert_eq!(safe_file_name("   "), "new_deck");
    assert_eq!(safe_file_name(""), "new_deck");
}

#[test]
fn index_file_codec() {
    let rendered = render_index_text(&vec!["a.ttf".to_string(), "b.ttf".to_string()]);
    assert_eq!(rendered, "a.ttf\nb.ttf");
    let parsed = parse_index_text("a.ttf\n\n  b.ttf  \n");
    assert_eq!(parsed, vec!["a.ttf", "b.ttf"]);
    assert_eq!(parse_index_text(""), Vec::<String>::new());
    assert_eq!(parse_index_text(&rendered), vec!["a.ttf", "b.ttf"]);
}

fn builder_card(term: &str, lang: &str) -> BuilderCard {
    BuilderCard {
        term: term.to_string(),
        definition: "def".to_string(),
        term_lang: lang.to_string(),
        def_lang: "".to_string(),
        hyperlink: " https://x ".to_string(),
        media_path: "".to_string(),
        tags: vec!["t1".to_string()],
        examples: vec![],
    }
}

#[test]
fn builder_state_exports_to_a_payload() {
    let st = DeckBuilderState {
        file_name: "  My Deck  ".to_string(),
        tags: "greek, basics".to_string(),
        media_path: "".to_string(),
        cards: vec![builder_card("alpha", ""), builder_card("beta", " el ")],
    };
    let payload = builder_to_mflash(&st);
    assert_eq!(payload.format, "mflash");
    assert_eq!(payload.version, 1);
    assert_eq!(payload.title, "My Deck");
    assert_eq!(payload.description.as_deref(), Some("greek, basics"));
    assert_eq!(payload.deck_tags, vec!["greek", "basics"]);
    assert_eq!(payload.default_term_lang.as_deref(), Some("el"));
    assert!(payload.default_def_lang.is_none());
    assert_eq!(payload.cards.len(), 2);
    assert!(payload.cards[0].term_lang.is_none());
    assert_eq!(payload.cards[1].term_lang.as_deref(), Some("el"));
    assert_eq!(payload.cards[0].hyperlink.as_deref(), Some("https://x"));
    assert_eq!(payload.cards[0].tags, vec!["t1"]);
}
