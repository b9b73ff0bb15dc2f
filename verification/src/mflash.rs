//! The canonical on-disk deck format: a versioned, tagged JSON payload.
//!
//! Version 1 is a single JSON object whose `format` field must equal the
//! literal `"mflash"`. Saving wraps the plain in-memory deck in this
//! payload, leaving the metadata the plain model does not carry (languages,
//! tags, examples, media) absent or empty — a deliberately lossy export in
//! that direction. Loading validates `format` and `version` distinctly, so
//! callers can tell a wrong file type from a corrupt file from a version
//! this reader does not know, then flattens the payload into the plain
//! deck, discarding the extended metadata and assigning ids by position.
use vstd::prelude::*;

use crate::jsonval::{
    obj_get,
    json_doc_of, jval_keys_distinct, jview, jview_entries, jview_seq, lemma_jview_entries,
    lemma_jview_seq, parse_json, render_json, spec_obj_get, JVal, JsonValue,
};
use crate::model::{Card, CardModel, CodecError, Deck, DeckModel};

verus! {

/// A single card in a canonical deck payload.
#[derive(Debug, Clone)]
pub struct MflashCard {
    /// Prompt side.
    pub term: String,
    /// Answer side.
    pub definition: String,
    /// Language of `term`; overrides the deck default when present.
    pub term_lang: Option<String>,
    /// Language of `definition`; overrides the deck default when present.
    pub def_lang: Option<String>,
    /// Optional external URL.
    pub hyperlink: Option<String>,
    /// Optional relative media path.
    pub media: Option<String>,
    /// Per-card tags.
    pub tags: Vec<String>,
    /// Example sentences or usage notes.
    pub examples: Vec<String>,
}

/// Mathematical model of an [`MflashCard`].
pub ghost struct MflashCardModel {
    pub term: Seq<char>,
    pub definition: Seq<char>,
    pub term_lang: Option<Seq<char>>,
    pub def_lang: Option<Seq<char>>,
    pub hyperlink: Option<Seq<char>>,
    pub media: Option<Seq<char>>,
    pub tags: Seq<Seq<char>>,
    pub examples: Seq<Seq<char>>,
}

/// The view of an optional string.
pub open spec fn opt_view(o: Option<String>) -> Option<Seq<char>> {
    match o {
        Some(s) => Some(s@),
        None => None,
    }
}

/// The views of a list of strings.
pub open spec fn strs_view(l: Seq<String>) -> Seq<Seq<char>> {
    l.map_values(|s: String| s@)
}

impl View for MflashCard {
    type V = MflashCardModel;

    open spec fn view(&self) -> MflashCardModel {
        MflashCardModel {
            term: self.term@,
            definition: self.definition@,
            term_lang: opt_view(self.term_lang),
            def_lang: opt_view(self.def_lang),
            hyperlink: opt_view(self.hyperlink),
            media: opt_view(self.media),
            tags: strs_view(self.tags@),
            examples: strs_view(self.examples@),
        }
    }
}

/// The top-level canonical deck payload.
#[derive(Debug, Clone)]
pub struct MflashDeck {
    /// Must be the literal string `"mflash"`.
    pub format: String,
    /// Payload version; this reader supports version 1.
    pub version: u16,
    /// Human-readable deck title.
    pub title: String,
    /// Optional longer description.
    pub description: Option<String>,
    /// Optional short preview text.
    pub snippet: Option<String>,
    /// Default language for terms without their own override.
    pub default_term_lang: Option<String>,
    /// Default language for definitions without their own override.
    pub default_def_lang: Option<String>,
    /// Deck-level tags.
    pub deck_tags: Vec<String>,
    /// Optional relative path to a cover image.
    pub cover_media: Option<String>,
    /// All cards in the deck.
    pub cards: Vec<MflashCard>,
}

/// Mathematical model of an [`MflashDeck`].
pub ghost struct MflashDeckModel {
    pub format: Seq<char>,
    pub version: u16,
    pub title: Seq<char>,
    pub description: Option<Seq<char>>,
    pub snippet: Option<Seq<char>>,
    pub default_term_lang: Option<Seq<char>>,
    pub default_def_lang: Option<Seq<char>>,
    pub deck_tags: Seq<Seq<char>>,
    pub cover_media: Option<Seq<char>>,
    pub cards: Seq<MflashCardModel>,
}

impl View for MflashDeck {
    type V = MflashDeckModel;

    open spec fn view(&self) -> MflashDeckModel {
        MflashDeckModel {
            format: self.format@,
            version: self.version,
            title: self.title@,
            description: opt_view(self.description),
            snippet: opt_view(self.snippet),
            default_term_lang: opt_view(self.default_term_lang),
            default_def_lang: opt_view(self.default_def_lang),
            deck_tags: strs_view(self.deck_tags@),
            cover_media: opt_view(self.cover_media),
            cards: self.cards@.map_values(|c: MflashCard| c@),
        }
    }
}

/// Override-wins composition of a card language and a deck default.
pub open spec fn spec_effective_lang(
    own: Option<Seq<char>>,
    deck_default: Option<Seq<char>>,
) -> Option<Seq<char>> {
    if own is Some {
        own
    } else {
        deck_default
    }
}

impl MflashDeck {
    /// The language of a card's term: its own override when set, else the
    /// deck default.
    pub fn effective_term_lang<'a>(&'a self, card: &'a MflashCard) -> (r: Option<&'a str>)
        ensures
            (match r {
                Some(s) => Some(s@),
                None => None,
            }) == spec_effective_lang(card@.term_lang, self@.default_term_lang),
    {
        match card.term_lang {
            Some(ref s) => Some(s.as_str()),
            None => match self.default_term_lang {
                Some(ref s) => Some(s.as_str()),
                None => None,
            },
        }
    }

    /// The language of a card's definition: its own override when set, else
    /// the deck default.
    pub fn effective_def_lang<'a>(&'a self, card: &'a MflashCard) -> (r: Option<&'a str>)
        ensures
            (match r {
                Some(s) => Some(s@),
                None => None,
            }) == spec_effective_lang(card@.def_lang, self@.default_def_lang),
    {
        match card.def_lang {
            Some(ref s) => Some(s.as_str()),
            None => match self.default_def_lang {
                Some(ref s) => Some(s.as_str()),
                None => None,
            },
        }
    }
}

/// The payload a plain deck exports to: format tag and version fixed,
/// metadata the plain model lacks left absent or empty.
pub open spec fn spec_mflash_from_deck(deck: DeckModel) -> MflashDeckModel {
    MflashDeckModel {
        format: "mflash"@,
        version: 1,
        title: deck.name,
        description: deck.description,
        snippet: None,
        default_term_lang: None,
        default_def_lang: None,
        deck_tags: Seq::empty(),
        cover_media: None,
        cards: deck.cards.map_values(
            |c: CardModel| MflashCardModel {
                term: c.term,
                definition: c.definition,
                term_lang: None,
                def_lang: None,
                hyperlink: None,
                media: None,
                tags: Seq::empty(),
                examples: Seq::empty(),
            },
        ),
    }
}

/// Wrap a plain deck in the canonical payload shape; the executable twin of
/// [`spec_mflash_from_deck`].
pub fn mflash_from_deck(deck: &Deck) -> (r: MflashDeck)
    ensures
        r@ == spec_mflash_from_deck(deck@),
{
    let ghost target = spec_mflash_from_deck(deck@).cards;
    let mut cards: Vec<MflashCard> = Vec::new();
    let mut i: usize = 0;
    while i < deck.cards.len()
        invariant
            0 <= i <= deck.cards@.len(),
            target == spec_mflash_from_deck(deck@).cards,
            target.len() == deck.cards@.len(),
            cards@.len() == i,
            forall|j: int| 0 <= j < i ==> (#[trigger] cards@[j])@ == target[j],
        decreases deck.cards@.len() - i,
    {
        let c = &deck.cards[i];
        let mc = MflashCard {
            term: c.term.clone(),
            definition: c.definition.clone(),
            term_lang: None,
            def_lang: None,
            hyperlink: None,
            media: None,
            tags: Vec::new(),
            examples: Vec::new(),
        };
        proof {
            assert(mc@.tags =~= target[i as int].tags);
            assert(mc@.examples =~= target[i as int].examples);
            assert(mc@ == target[i as int]);
        }
        cards.push(mc);
        i = i + 1;
    }
    let r = MflashDeck {
        format: "mflash".to_owned(),
        version: 1,
        title: deck.name.clone(),
        description: match deck.description {
            Some(ref d) => Some(d.clone()),
            None => None,
        },
        snippet: None,
        default_term_lang: None,
        default_def_lang: None,
        deck_tags: Vec::new(),
        cover_media: None,
        cards,
    };
    proof {
        assert(r@.cards =~= spec_mflash_from_deck(deck@).cards);
        assert(r@.deck_tags =~= spec_mflash_from_deck(deck@).deck_tags);
    }
    r
}

/// The plain deck a payload flattens to: title and description kept, each
/// card reduced to its texts, ids assigned sequentially by position.
pub open spec fn spec_deck_from_mflash(m: MflashDeckModel) -> DeckModel {
    DeckModel {
        name: m.title,
        description: m.description,
        cards: Seq::new(
            m.cards.len(),
            |i: int| CardModel {
                id: (i + 1) as u64,
                term: m.cards[i].term,
                definition: m.cards[i].definition,
            },
        ),
    }
}

/// Flatten a payload into a plain deck; the executable twin of
/// [`spec_deck_from_mflash`]. Extended metadata is discarded.
pub fn deck_from_mflash(m: &MflashDeck) -> (r: Deck)
    ensures
        r@ == spec_deck_from_mflash(m@),
{
    let mut cards: Vec<Card> = Vec::new();
    let mut i: usize = 0;
    while i < m.cards.len()
        invariant
            0 <= i <= m.cards@.len(),
            cards@.len() == i,
            cards@.map_values(|c: Card| c@) =~= spec_deck_from_mflash(m@).cards.take(i as int),
        decreases m.cards@.len() - i,
    {
        let c = &m.cards[i];
        let id: u64 = (i as u64) + 1;
        let card = Card { id, term: c.term.clone(), definition: c.definition.clone() };
        let ghost prev = cards@;
        cards.push(card);
        proof {
            assert(cards@ =~= prev.push(card));
            assert(cards@.map_values(|c: Card| c@) =~= prev.map_values(|c: Card| c@).push(card@));
            assert(spec_deck_from_mflash(m@).cards.take(i + 1) =~= spec_deck_from_mflash(
                m@,
            ).cards.take(i as int).push(spec_deck_from_mflash(m@).cards[i as int]));
        }
        i = i + 1;
    }
    proof {
        assert(spec_deck_from_mflash(m@).cards.take(m.cards@.len() as int) =~= spec_deck_from_mflash(
            m@,
        ).cards);
    }
    let r = Deck {
        name: m.title.clone(),
        description: match m.description {
            Some(ref d) => Some(d.clone()),
            None => None,
        },
        cards,
    };
    proof {
        assert(r@.cards =~= spec_deck_from_mflash(m@).cards);
    }
    r
}

/// An optional string as a JSON value: the string, or null when absent.
pub open spec fn opt_jval(o: Option<Seq<char>>) -> JVal {
    match o {
        Some(s) => JVal::Str(s),
        None => JVal::Null,
    }
}

/// A list of strings as JSON string values.
pub open spec fn strs_jval(l: Seq<Seq<char>>) -> Seq<JVal> {
    l.map_values(|s: Seq<char>| JVal::Str(s))
}

/// The JSON object a card payload serialises to, fields in declaration
/// order.
pub open spec fn spec_mflash_card_json(c: MflashCardModel) -> JVal {
    JVal::Obj(
        seq![
            ("term"@, JVal::Str(c.term)),
            ("definition"@, JVal::Str(c.definition)),
            ("term_lang"@, opt_jval(c.term_lang)),
            ("def_lang"@, opt_jval(c.def_lang)),
            ("hyperlink"@, opt_jval(c.hyperlink)),
            ("media"@, opt_jval(c.media)),
            ("tags"@, JVal::Arr(strs_jval(c.tags))),
            ("examples"@, JVal::Arr(strs_jval(c.examples))),
        ],
    )
}

/// The JSON object a deck payload serialises to, fields in declaration
/// order.
pub open spec fn spec_mflash_json(m: MflashDeckModel) -> JVal {
    JVal::Obj(
        seq![
            ("format"@, JVal::Str(m.format)),
            ("version"@, JVal::Int(m.version as i64)),
            ("title"@, JVal::Str(m.title)),
            ("description"@, opt_jval(m.description)),
            ("snippet"@, opt_jval(m.snippet)),
            ("default_term_lang"@, opt_jval(m.default_term_lang)),
            ("default_def_lang"@, opt_jval(m.default_def_lang)),
            ("deck_tags"@, JVal::Arr(strs_jval(m.deck_tags))),
            ("cover_media"@, opt_jval(m.cover_media)),
            ("cards"@, JVal::Arr(m.cards.map_values(|c: MflashCardModel| spec_mflash_card_json(c)))),
        ],
    )
}

/// Build the JSON value of an optional string field.
fn opt_json(o: &Option<String>) -> (r: JsonValue)
    ensures
        jview(r) == opt_jval(opt_view(*o)),
{
    match o {
        Some(s) => JsonValue::Str(s.clone()),
        None => JsonValue::Null,
    }
}

/// Build the JSON values of a string list.
fn strs_json(l: &Vec<String>) -> (r: Vec<JsonValue>)
    ensures
        jview_seq(r@) == strs_jval(strs_view(l@)),
{
    let mut out: Vec<JsonValue> = Vec::new();
    let mut i: usize = 0;
    while i < l.len()
        invariant
            0 <= i <= l@.len(),
            out@.len() == i,
            forall|j: int| 0 <= j < i ==> jview(#[trigger] out@[j]) == JVal::Str(l@[j]@),
        decreases l@.len() - i,
    {
        out.push(JsonValue::Str(l[i].clone()));
        i = i + 1;
    }
    proof {
        lemma_jview_seq(out@);
        assert forall|j: int| 0 <= j < l@.len() implies jview_seq(out@)[j] == strs_jval(
            strs_view(l@),
        )[j] by {
            assert(jview_seq(out@)[j] == jview(out@[j]));
            assert(strs_view(l@)[j] == l@[j]@);
        }
        assert(jview_seq(out@) =~= strs_jval(strs_view(l@)));
    }
    out
}

/// Build the JSON object of one card payload.
fn mflash_card_json(c: &MflashCard) -> (r: JsonValue)
    ensures
        jview(r) == spec_mflash_card_json(c@),
{
    let mut entries: Vec<(String, JsonValue)> = Vec::new();
    entries.push(("term".to_owned(), JsonValue::Str(c.term.clone())));
    entries.push(("definition".to_owned(), JsonValue::Str(c.definition.clone())));
    entries.push(("term_lang".to_owned(), opt_json(&c.term_lang)));
    entries.push(("def_lang".to_owned(), opt_json(&c.def_lang)));
    entries.push(("hyperlink".to_owned(), opt_json(&c.hyperlink)));
    entries.push(("media".to_owned(), opt_json(&c.media)));
    entries.push(("tags".to_owned(), JsonValue::Arr(strs_json(&c.tags))));
    entries.push(("examples".to_owned(), JsonValue::Arr(strs_json(&c.examples))));
    proof {
        lemma_jview_entries(entries@);
        let o = (match spec_mflash_card_json(c@) {
            JVal::Obj(o) => o,
            _ => Seq::empty(),
        });
        assert(entries@.len() == 8);
        assert forall|k: int| 0 <= k < 8 implies jview_entries(entries@)[k] == o[k] by {
            assert(jview_entries(entries@)[k] == (entries@[k].0@, jview(entries@[k].1)));
        }
        assert(jview_entries(entries@) =~= o);
    }
    JsonValue::Obj(entries)
}

/// Build the JSON object of a whole deck payload.
fn mflash_json(m: &MflashDeck) -> (r: JsonValue)
    ensures
        jview(r) == spec_mflash_json(m@),
{
    let mut items: Vec<JsonValue> = Vec::new();
    let mut i: usize = 0;
    while i < m.cards.len()
        invariant
            0 <= i <= m.cards@.len(),
            items@.len() == i,
            forall|j: int|
                0 <= j < i ==> jview(#[trigger] items@[j]) == spec_mflash_card_json(
                    m.cards@[j]@,
                ),
        decreases m.cards@.len() - i,
    {
        items.push(mflash_card_json(&m.cards[i]));
        i = i + 1;
    }
    proof {
        lemma_jview_seq(items@);
        assert forall|j: int| 0 <= j < m.cards@.len() implies jview_seq(items@)[j]
            == m@.cards.map_values(|c: MflashCardModel| spec_mflash_card_json(c))[j] by {
            assert(jview_seq(items@)[j] == jview(items@[j]));
            assert(m@.cards[j] == m.cards@[j]@);
        }
        assert(jview_seq(items@) =~= m@.cards.map_values(
            |c: MflashCardModel| spec_mflash_card_json(c),
        ));
    }

    let mut entries: Vec<(String, JsonValue)> = Vec::new();
    entries.push(("format".to_owned(), JsonValue::Str(m.format.clone())));
    entries.push(("version".to_owned(), JsonValue::Int(m.version as i64)));
    entries.push(("title".to_owned(), JsonValue::Str(m.title.clone())));
    entries.push(("description".to_owned(), opt_json(&m.description)));
    entries.push(("snippet".to_owned(), opt_json(&m.snippet)));
    entries.push(("default_term_lang".to_owned(), opt_json(&m.default_term_lang)));
    entries.push(("default_def_lang".to_owned(), opt_json(&m.default_def_lang)));
    entries.push(("deck_tags".to_owned(), JsonValue::Arr(strs_json(&m.deck_tags))));
    entries.push(("cover_media".to_owned(), opt_json(&m.cover_media)));
    entries.push(("cards".to_owned(), JsonValue::Arr(items)));
    proof {
        lemma_jview_entries(entries@);
        let o = (match spec_mflash_json(m@) {
            JVal::Obj(o) => o,
            _ => Seq::empty(),
        });
        assert(entries@.len() == 10);
        assert forall|k: int| 0 <= k < 10 implies jview_entries(entries@)[k] == o[k] by {
            assert(jview_entries(entries@)[k] == (entries@[k].0@, jview(entries@[k].1)));
        }
        assert(jview_entries(entries@) =~= o);
    }
    JsonValue::Obj(entries)
}

/// A list of string values keeps every object key distinct (there are
/// none).
proof fn lemma_strs_jval_distinct(l: Seq<Seq<char>>)
    ensures
        forall|i: int| 0 <= i < strs_jval(l).len() ==> jval_keys_distinct(#[trigger] strs_jval(l)[i]),
{
}

/// The serialised payload never repeats a key in any object.
proof fn lemma_mflash_json_distinct(m: MflashDeckModel)
    ensures
        jval_keys_distinct(spec_mflash_json(m)),
{
    proof_strlit_keys();
    let cards = m.cards.map_values(|c: MflashCardModel| spec_mflash_card_json(c));
    assert forall|i: int| 0 <= i < cards.len() implies jval_keys_distinct(
        #[trigger] cards[i],
    ) by {
        let c = m.cards[i];
        assert(cards[i] == spec_mflash_card_json(c));
        lemma_card_json_distinct(c);
    }
    lemma_strs_jval_distinct(m.deck_tags);
    assert(jval_keys_distinct(JVal::Arr(cards)));
    let o = (match spec_mflash_json(m) {
        JVal::Obj(o) => o,
        _ => Seq::empty(),
    });
    assert(o.len() == 10);
    assert forall|x: int, y: int| 0 <= x < y < o.len() implies (#[trigger] o[x]).0 != (
    #[trigger] o[y]).0 by {
        proof_strlit_keys();
    }
    assert forall|x: int| 0 <= x < o.len() implies jval_keys_distinct((#[trigger] o[x]).1) by {
        lemma_strs_jval_distinct(m.deck_tags);
        assert(jval_keys_distinct(JVal::Arr(strs_jval(m.deck_tags))));
        let cards2 = m.cards.map_values(|c: MflashCardModel| spec_mflash_card_json(c));
        assert forall|i: int| 0 <= i < cards2.len() implies jval_keys_distinct(
            #[trigger] cards2[i],
        ) by {
            let c = m.cards[i];
            assert(cards2[i] == spec_mflash_card_json(c));
            lemma_card_json_distinct(c);
        }
        assert(jval_keys_distinct(JVal::Arr(cards2)));
    }
}

/// A serialised card object never repeats a key.
proof fn lemma_card_json_distinct(c: MflashCardModel)
    ensures
        jval_keys_distinct(spec_mflash_card_json(c)),
{
    proof_strlit_keys();
    let o = (match spec_mflash_card_json(c) {
        JVal::Obj(o) => o,
        _ => Seq::empty(),
    });
    assert(o.len() == 8);
    assert forall|x: int, y: int| 0 <= x < y < o.len() implies (#[trigger] o[x]).0 != (
    #[trigger] o[y]).0 by {
        proof_strlit_keys();
    }
    assert forall|x: int| 0 <= x < o.len() implies jval_keys_distinct((#[trigger] o[x]).1) by {
        lemma_strs_jval_distinct(c.tags);
        lemma_strs_jval_distinct(c.examples);
        assert(jval_keys_distinct(JVal::Arr(strs_jval(c.tags))));
        assert(jval_keys_distinct(JVal::Arr(strs_jval(c.examples))));
    }
    assert(jval_keys_distinct(spec_mflash_card_json(c)));
}

/// Reveal the key literals of the payload, so their views are concrete.
proof fn proof_strlit_keys()
    ensures
        "format"@.len() == 6,
        "version"@.len() == 7,
        "title"@.len() == 5,
        "description"@.len() == 11,
        "snippet"@.len() == 7,
        "default_term_lang"@.len() == 17,
        "default_def_lang"@.len() == 16,
        "deck_tags"@.len() == 9,
        "cover_media"@.len() == 11,
        "cards"@.len() == 5,
        "term"@.len() == 4,
        "definition"@.len() == 10,
        "term_lang"@.len() == 9,
        "def_lang"@.len() == 8,
        "hyperlink"@.len() == 9,
        "media"@.len() == 5,
        "tags"@.len() == 4,
        "examples"@.len() == 8,
        "version"@[0] == 'v',
        "snippet"@[0] == 's',
        "title"@[0] == 't',
        "cards"@[0] == 'c',
        "description"@[0] == 'd',
        "cover_media"@[0] == 'c',
        "description"@[1] == 'e',
        "cover_media"@[1] == 'o',
        "term"@[0] == 't',
        "tags"@[0] == 't',
        "term"@[1] == 'e',
        "tags"@[1] == 'a',
        "term_lang"@[0] == 't',
        "hyperlink"@[0] == 'h',
        "def_lang"@[0] == 'd',
        "examples"@[0] == 'e',
        "media"@[0] == 'm',
{
    reveal_strlit("format");
    reveal_strlit("version");
    reveal_strlit("title");
    reveal_strlit("description");
    reveal_strlit("snippet");
    reveal_strlit("default_term_lang");
    reveal_strlit("default_def_lang");
    reveal_strlit("deck_tags");
    reveal_strlit("cover_media");
    reveal_strlit("cards");
    reveal_strlit("term");
    reveal_strlit("definition");
    reveal_strlit("term_lang");
    reveal_strlit("def_lang");
    reveal_strlit("hyperlink");
    reveal_strlit("media");
    reveal_strlit("tags");
    reveal_strlit("examples");
}

/// How an optional string field reads back: absent or null is `None`, a
/// string is `Some`, anything else is invalid.
pub open spec fn spec_opt_field(o: Seq<(Seq<char>, JVal)>, key: Seq<char>) -> Option<
    Option<Seq<char>>,
> {
    match spec_obj_get(o, key) {
        None => Some(None),
        Some(JVal::Null) => Some(None),
        Some(JVal::Str(s)) => Some(Some(s)),
        Some(_) => None,
    }
}

/// A JSON array read back as a list of strings; any non-string element is
/// invalid.
pub open spec fn spec_strs_from(items: Seq<JVal>) -> Option<Seq<Seq<char>>>
    decreases items.len(),
{
    if items.len() == 0 {
        Some(Seq::empty())
    } else {
        match (spec_strs_from(items.drop_last()), items.last()) {
            (Some(ss), JVal::Str(s)) => Some(ss.push(s)),
            _ => None,
        }
    }
}

/// How a string-list field reads back: absent is the empty list, an array
/// of strings is itself, anything else is invalid.
pub open spec fn spec_strs_field(o: Seq<(Seq<char>, JVal)>, key: Seq<char>) -> Option<
    Seq<Seq<char>>,
> {
    match spec_obj_get(o, key) {
        None => Some(Seq::empty()),
        Some(JVal::Arr(items)) => spec_strs_from(items),
        Some(_) => None,
    }
}

/// How a card object reads back: `term` and `definition` are required
/// strings, the languages, hyperlink and media are optional strings, tags
/// and examples default to empty lists; unknown keys are ignored.
pub open spec fn spec_mflash_card_from_json(j: JVal) -> Option<MflashCardModel> {
    match j {
        JVal::Obj(o) => match (spec_obj_get(o, "term"@), spec_obj_get(o, "definition"@)) {
            (Some(JVal::Str(term)), Some(JVal::Str(definition))) => {
                match (
                    spec_opt_field(o, "term_lang"@),
                    spec_opt_field(o, "def_lang"@),
                    spec_opt_field(o, "hyperlink"@),
                    spec_opt_field(o, "media"@),
                    spec_strs_field(o, "tags"@),
                    spec_strs_field(o, "examples"@),
                ) {
                    (Some(tl), Some(dl), Some(hl), Some(md), Some(tags), Some(examples)) => Some(
                        MflashCardModel {
                            term,
                            definition,
                            term_lang: tl,
                            def_lang: dl,
                            hyperlink: hl,
                            media: md,
                            tags,
                            examples,
                        },
                    ),
                    _ => None,
                }
            },
            _ => None,
        },
        _ => None,
    }
}

/// How a card array reads back; any ill-shaped card is invalid.
pub open spec fn spec_mflash_cards_from_json(items: Seq<JVal>) -> Option<Seq<MflashCardModel>>
    decreases items.len(),
{
    if items.len() == 0 {
        Some(Seq::empty())
    } else {
        match (
            spec_mflash_cards_from_json(items.drop_last()),
            spec_mflash_card_from_json(items.last()),
        ) {
            (Some(cs), Some(c)) => Some(cs.push(c)),
            _ => None,
        }
    }
}

/// How a whole payload object reads back: `format` (string), `version`
/// (integer in the 16-bit range) and `title` (string) are required; the
/// descriptive fields are optional strings; `deck_tags` and `cards` default
/// to empty lists; unknown keys are ignored.
pub open spec fn spec_mflash_from_json(j: JVal) -> Option<MflashDeckModel> {
    match j {
        JVal::Obj(o) => match (
            spec_obj_get(o, "format"@),
            spec_obj_get(o, "version"@),
            spec_obj_get(o, "title"@),
        ) {
            (Some(JVal::Str(format)), Some(JVal::Int(version)), Some(JVal::Str(title))) => {
                if !(0 <= version <= u16::MAX) {
                    None
                } else {
                    let cards = match spec_obj_get(o, "cards"@) {
                        None => Some(Seq::<MflashCardModel>::empty()),
                        Some(JVal::Arr(items)) => spec_mflash_cards_from_json(items),
                        Some(_) => None,
                    };
                    match (
                        spec_opt_field(o, "description"@),
                        spec_opt_field(o, "snippet"@),
                        spec_opt_field(o, "default_term_lang"@),
                        spec_opt_field(o, "default_def_lang"@),
                        spec_strs_field(o, "deck_tags"@),
                        spec_opt_field(o, "cover_media"@),
                        cards,
                    ) {
                        (
                            Some(description),
                            Some(snippet),
                            Some(dtl),
                            Some(ddl),
                            Some(deck_tags),
                            Some(cover_media),
                            Some(cs),
                        ) => Some(
                            MflashDeckModel {
                                format,
                                version: version as u16,
                                title,
                                description,
                                snippet,
                                default_term_lang: dtl,
                                default_def_lang: ddl,
                                deck_tags,
                                cover_media,
                                cards: cs,
                            },
                        ),
                        _ => None,
                    }
                }
            },
            _ => None,
        },
        _ => None,
    }
}

/// A rendered string list nests no containers of its own.
proof fn lemma_strs_jval_depth(l: Seq<Seq<char>>)
    ensures
        crate::jsonval::jval_seq_depth(strs_jval(l)) == 0,
{
    assert(forall|i: int|
        0 <= i < strs_jval(l).len() ==> crate::jsonval::jval_depth(#[trigger] strs_jval(l)[i])
            <= 0);
    crate::jsonval::lemma_seq_depth_bound(strs_jval(l), 0);
}

/// A serialised card object nests at most two container levels.
proof fn lemma_card_json_depth(c: MflashCardModel)
    ensures
        crate::jsonval::jval_depth(spec_mflash_card_json(c)) <= 2,
{
    lemma_strs_jval_depth(c.tags);
    lemma_strs_jval_depth(c.examples);
    let o = (match spec_mflash_card_json(c) {
        JVal::Obj(o) => o,
        _ => Seq::empty(),
    });
    assert forall|i: int| 0 <= i < o.len() implies crate::jsonval::jval_depth(
        (#[trigger] o[i]).1,
    ) <= 1 by {
        lemma_strs_jval_depth(c.tags);
        lemma_strs_jval_depth(c.examples);
    }
    crate::jsonval::lemma_entries_depth_bound(o, 1);
}

/// A serialised payload nests at most four container levels — far inside
/// the reader's limit.
proof fn lemma_mflash_json_depth(m: MflashDeckModel)
    ensures
        crate::jsonval::jval_depth(spec_mflash_json(m)) <= 4,
{
    let cards = m.cards.map_values(|c: MflashCardModel| spec_mflash_card_json(c));
    assert forall|i: int| 0 <= i < cards.len() implies crate::jsonval::jval_depth(
        #[trigger] cards[i],
    ) <= 2 by {
        assert(cards[i] == spec_mflash_card_json(m.cards[i]));
        lemma_card_json_depth(m.cards[i]);
    }
    crate::jsonval::lemma_seq_depth_bound(cards, 2);
    lemma_strs_jval_depth(m.deck_tags);
    let o = (match spec_mflash_json(m) {
        JVal::Obj(o) => o,
        _ => Seq::empty(),
    });
    assert forall|i: int| 0 <= i < o.len() implies crate::jsonval::jval_depth(
        (#[trigger] o[i]).1,
    ) <= 3 by {
        lemma_strs_jval_depth(m.deck_tags);
        assert(crate::jsonval::jval_seq_depth(cards) <= 2);
    }
    crate::jsonval::lemma_entries_depth_bound(o, 3);
}

/// Serialise a plain deck as canonical payload text. What the text parses
/// back to is pinned exactly: the payload object of the wrapped deck.
pub fn encode_mflash_deck(deck: &Deck) -> (r: String)
    ensures
        json_doc_of(r@) == Some(spec_mflash_json(spec_mflash_from_deck(deck@))),
{
    let m = mflash_from_deck(deck);
    let v = mflash_json(&m);
    proof {
        lemma_mflash_json_distinct(m@);
        lemma_mflash_json_depth(m@);
    }
    render_json(&v)
}

/// Read an optional string field; the executable twin of
/// [`spec_opt_field`].
fn opt_field(entries: &Vec<(String, JsonValue)>, key: &str) -> (r: Result<
    Option<String>,
    CodecError,
>)
    ensures
        match r {
            Ok(o) => spec_opt_field(jview_entries(entries@), key@) == Some(opt_view(o)),
            Err(e) => spec_opt_field(jview_entries(entries@), key@) is None && e
                == CodecError::Malformed,
        },
{
    match obj_get(entries, key) {
        None => Ok(None),
        Some(JsonValue::Null) => Ok(None),
        Some(JsonValue::Str(s)) => Ok(Some(s.clone())),
        Some(_) => Err(CodecError::Malformed),
    }
}

proof fn lemma_strs_from_none(items: Seq<JVal>, k: int)
    requires
        0 <= k < items.len(),
        !(items[k] is Str),
    ensures
        spec_strs_from(items) is None,
    decreases items.len(),
{
    if k < items.len() - 1 {
        lemma_strs_from_none(items.drop_last(), k);
    }
}

/// Read a string-list field; the executable twin of [`spec_strs_field`].
#[verifier::loop_isolation(false)]
fn strs_field(entries: &Vec<(String, JsonValue)>, key: &str) -> (r: Result<
    Vec<String>,
    CodecError,
>)
    ensures
        match r {
            Ok(l) => spec_strs_field(jview_entries(entries@), key@) == Some(strs_view(l@)),
            Err(e) => spec_strs_field(jview_entries(entries@), key@) is None && e
                == CodecError::Malformed,
        },
{
    match obj_get(entries, key) {
        None => {
            let empty: Vec<String> = Vec::new();
            assert(strs_view(empty@) =~= Seq::<Seq<char>>::empty());
            Ok(empty)
        },
        Some(JsonValue::Arr(items)) => {
            proof {
                lemma_jview_seq(items@);
            }
            let ghost iv = jview_seq(items@);
            let mut out: Vec<String> = Vec::new();
            let mut i: usize = 0;
            assert(iv.take(0) =~= Seq::<JVal>::empty());
            assert(strs_view(out@) =~= Seq::<Seq<char>>::empty());
            while i < items.len()
                invariant
                    0 <= i <= items@.len(),
                    spec_strs_from(iv.take(i as int)) == Some(strs_view(out@)),
                decreases items@.len() - i,
            {
                proof {
                    assert(iv.take(i + 1).drop_last() =~= iv.take(i as int));
                    assert(iv.take(i + 1).last() == iv[i as int]);
                }
                match &items[i] {
                    JsonValue::Str(s) => {
                        let ghost prev = out@;
                        out.push(s.clone());
                        proof {
                            assert(out@ =~= prev.push(out@[out@.len() - 1]));
                            assert(strs_view(out@) =~= strs_view(prev).push(
                                out@[out@.len() - 1]@,
                            ));
                        }
                    },
                    _ => {
                        proof {
                            lemma_strs_from_none(iv, i as int);
                        }
                        return Err(CodecError::Malformed);
                    },
                }
                i = i + 1;
            }
            assert(iv.take(items@.len() as int) =~= iv);
            Ok(out)
        },
        Some(_) => Err(CodecError::Malformed),
    }
}

/// Read one card object; the executable twin of
/// [`spec_mflash_card_from_json`].
fn mflash_card_from_json(v: &JsonValue) -> (r: Result<MflashCard, CodecError>)
    ensures
        match r {
            Ok(c) => spec_mflash_card_from_json(jview(*v)) == Some(c@),
            Err(e) => spec_mflash_card_from_json(jview(*v)) is None && e == CodecError::Malformed,
        },
{
    match v {
        JsonValue::Obj(entries) => {
            let term: String = match obj_get(entries, "term") {
                Some(JsonValue::Str(s)) => s.clone(),
                _ => {
                    return Err(CodecError::Malformed);
                },
            };
            let definition: String = match obj_get(entries, "definition") {
                Some(JsonValue::Str(s)) => s.clone(),
                _ => {
                    return Err(CodecError::Malformed);
                },
            };
            let term_lang = match opt_field(entries, "term_lang") {
                Ok(o) => o,
                Err(e) => {
                    return Err(e);
                },
            };
            let def_lang = match opt_field(entries, "def_lang") {
                Ok(o) => o,
                Err(e) => {
                    return Err(e);
                },
            };
            let hyperlink = match opt_field(entries, "hyperlink") {
                Ok(o) => o,
                Err(e) => {
                    return Err(e);
                },
            };
            let media = match opt_field(entries, "media") {
                Ok(o) => o,
                Err(e) => {
                    return Err(e);
                },
            };
            let tags = match strs_field(entries, "tags") {
                Ok(l) => l,
                Err(e) => {
                    return Err(e);
                },
            };
            let examples = match strs_field(entries, "examples") {
                Ok(l) => l,
                Err(e) => {
                    return Err(e);
                },
            };
            Ok(MflashCard { term, definition, term_lang, def_lang, hyperlink, media, tags, examples })
        },
        _ => Err(CodecError::Malformed),
    }
}

proof fn lemma_mflash_cards_none(items: Seq<JVal>, k: int)
    requires
        0 <= k < items.len(),
        spec_mflash_card_from_json(items[k]) is None,
    ensures
        spec_mflash_cards_from_json(items) is None,
    decreases items.len(),
{
    if k < items.len() - 1 {
        lemma_mflash_cards_none(items.drop_last(), k);
    }
}

/// Read a whole payload object; the executable twin of
/// [`spec_mflash_from_json`]. Every failure is reported as a malformed
/// payload — the format and version checks come after.
#[verifier::loop_isolation(false)]
pub fn mflash_from_json(v: &JsonValue) -> (r: Result<MflashDeck, CodecError>)
    ensures
        match r {
            Ok(m) => spec_mflash_from_json(jview(*v)) == Some(m@),
            Err(e) => spec_mflash_from_json(jview(*v)) is None && e == CodecError::Malformed,
        },
{
    match v {
        JsonValue::Obj(entries) => {
            let format: String = match obj_get(entries, "format") {
                Some(JsonValue::Str(s)) => s.clone(),
                _ => {
                    return Err(CodecError::Malformed);
                },
            };
            let version_i: i64 = match obj_get(entries, "version") {
                Some(JsonValue::Int(n)) => *n,
                _ => {
                    return Err(CodecError::Malformed);
                },
            };
            if !(0 <= version_i && version_i <= u16::MAX as i64) {
                return Err(CodecError::Malformed);
            }
            let version: u16 = version_i as u16;
            let title: String = match obj_get(entries, "title") {
                Some(JsonValue::Str(s)) => s.clone(),
                _ => {
                    return Err(CodecError::Malformed);
                },
            };
            let description = match opt_field(entries, "description") {
                Ok(o) => o,
                Err(e) => {
                    return Err(e);
                },
            };
            let snippet = match opt_field(entries, "snippet") {
                Ok(o) => o,
                Err(e) => {
                    return Err(e);
                },
            };
            let default_term_lang = match opt_field(entries, "default_term_lang") {
                Ok(o) => o,
                Err(e) => {
                    return Err(e);
                },
            };
            let default_def_lang = match opt_field(entries, "default_def_lang") {
                Ok(o) => o,
                Err(e) => {
                    return Err(e);
                },
            };
            let deck_tags = match strs_field(entries, "deck_tags") {
                Ok(l) => l,
                Err(e) => {
                    return Err(e);
                },
            };
            let cover_media = match opt_field(entries, "cover_media") {
                Ok(o) => o,
                Err(e) => {
                    return Err(e);
                },
            };
            let cards: Vec<MflashCard> = match obj_get(entries, "cards") {
                None => {
                    let empty: Vec<MflashCard> = Vec::new();
                    assert(empty@.map_values(|c: MflashCard| c@) =~= Seq::<
                        MflashCardModel,
                    >::empty());
                    empty
                },
                Some(JsonValue::Arr(items)) => {
                    proof {
                        lemma_jview_seq(items@);
                    }
                    let ghost iv = jview_seq(items@);
                    let mut out: Vec<MflashCard> = Vec::new();
                    let mut i: usize = 0;
                    assert(iv.take(0) =~= Seq::<JVal>::empty());
                    assert(out@.map_values(|c: MflashCard| c@) =~= Seq::<MflashCardModel>::empty());
                    while i < items.len()
                        invariant
                            0 <= i <= items@.len(),
                            spec_mflash_cards_from_json(iv.take(i as int)) == Some(
                                out@.map_values(|c: MflashCard| c@),
                            ),
                        decreases items@.len() - i,
                    {
                        proof {
                            assert(iv.take(i + 1).drop_last() =~= iv.take(i as int));
                            assert(iv.take(i + 1).last() == iv[i as int]);
                        }
                        match mflash_card_from_json(&items[i]) {
                            Ok(card) => {
                                let ghost prev = out@;
                                out.push(card);
                                proof {
                                    assert(out@ =~= prev.push(out@[out@.len() - 1]));
                                    assert(out@.map_values(|c: MflashCard| c@) =~= prev.map_values(
                                        |c: MflashCard| c@,
                                    ).push(out@[out@.len() - 1]@));
                                }
                            },
                            Err(e) => {
                                proof {
                                    lemma_mflash_cards_none(iv, i as int);
                                }
                                return Err(e);
                            },
                        }
                        i = i + 1;
                    }
                    assert(iv.take(items@.len() as int) =~= iv);
                    out
                },
                Some(_) => {
                    return Err(CodecError::Malformed);
                },
            };
            Ok(MflashDeck {
                format,
                version,
                title,
                description,
                snippet,
                default_term_lang,
                default_def_lang,
                deck_tags,
                cover_media,
                cards,
            })
        },
        _ => Err(CodecError::Malformed),
    }
}

/// How canonical payload text decodes to a plain deck: a text that does not
/// parse, or whose payload is ill-shaped, is malformed; a parsed payload
/// with the wrong format tag, or an unsupported version, fails with that
/// distinct cause; otherwise the payload flattens to the deck.
pub open spec fn spec_decode_mflash(s: Seq<char>) -> Result<DeckModel, CodecError> {
    match json_doc_of(s) {
        None => Err(CodecError::Malformed),
        Some(j) => match spec_mflash_from_json(j) {
            None => Err(CodecError::Malformed),
            Some(m) => if m.format != "mflash"@ {
                Err(CodecError::WrongFormatTag)
            } else if m.version != 1 {
                Err(CodecError::UnsupportedVersion)
            } else {
                Ok(spec_deck_from_mflash(m))
            },
        },
    }
}

/// Decode canonical payload text into a plain deck; the executable twin of
/// [`spec_decode_mflash`].
pub fn decode_mflash_deck(text: &str) -> (r: Result<Deck, CodecError>)
    ensures
        match r {
            Ok(d) => spec_decode_mflash(text@) == Ok::<DeckModel, CodecError>(d@),
            Err(e) => spec_decode_mflash(text@) == Err::<DeckModel, CodecError>(e),
        },
{
    let v = match parse_json(text) {
        Some(v) => v,
        None => {
            return Err(CodecError::Malformed);
        },
    };
    let m = match mflash_from_json(&v) {
        Ok(m) => m,
        Err(e) => {
            return Err(e);
        },
    };
    let tag = crate::text::chars_vec(m.format.as_str());
    let expected = crate::text::chars_vec("mflash");
    if !crate::text::eq_chars(&tag, &expected) {
        return Err(CodecError::WrongFormatTag);
    }
    if m.version != 1 {
        return Err(CodecError::UnsupportedVersion);
    }
    Ok(deck_from_mflash(&m))
}

/// [`spec_obj_get`] finds the entry at position `k` when no earlier entry
/// carries the key.
proof fn lemma_obj_get_at(entries: Seq<(Seq<char>, JVal)>, key: Seq<char>, k: int)
    requires
        0 <= k < entries.len(),
        entries[k].0 == key,
        forall|i: int| 0 <= i < k ==> (#[trigger] entries[i]).0 != key,
    ensures
        spec_obj_get(entries, key) == Some(entries[k].1),
    decreases k,
{
    if k > 0 {
        assert(entries[0].0 != key);
        lemma_obj_get_at(entries.drop_first(), key, k - 1);
        assert(entries.drop_first()[k - 1] == entries[k]);
    }
}

/// A rendered string list reads back as itself.
proof fn lemma_strs_round(l: Seq<Seq<char>>)
    ensures
        spec_strs_from(strs_jval(l)) == Some(l),
    decreases l.len(),
{
    if l.len() > 0 {
        lemma_strs_round(l.drop_last());
        assert(strs_jval(l).drop_last() =~= strs_jval(l.drop_last()));
        assert(strs_jval(l).last() == JVal::Str(l.last()));
        assert(l.drop_last().push(l.last()) =~= l);
    } else {
        assert(strs_jval(l).len() == 0);
    }
}

/// A rendered card object reads back as itself.
proof fn lemma_card_json_round(c: MflashCardModel)
    ensures
        spec_mflash_card_from_json(spec_mflash_card_json(c)) == Some(c),
{
    proof_strlit_keys();
    let o = (match spec_mflash_card_json(c) {
        JVal::Obj(o) => o,
        _ => Seq::empty(),
    });
    lemma_obj_get_at(o, "term"@, 0);
    lemma_obj_get_at(o, "definition"@, 1);
    lemma_obj_get_at(o, "term_lang"@, 2);
    lemma_obj_get_at(o, "def_lang"@, 3);
    lemma_obj_get_at(o, "hyperlink"@, 4);
    lemma_obj_get_at(o, "media"@, 5);
    lemma_obj_get_at(o, "tags"@, 6);
    lemma_obj_get_at(o, "examples"@, 7);
    lemma_strs_round(c.tags);
    lemma_strs_round(c.examples);
}

/// A rendered card array reads back as itself.
proof fn lemma_cards_json_round(cs: Seq<MflashCardModel>)
    ensures
        spec_mflash_cards_from_json(
            cs.map_values(|c: MflashCardModel| spec_mflash_card_json(c)),
        ) == Some(cs),
    decreases cs.len(),
{
    let mapped = cs.map_values(|c: MflashCardModel| spec_mflash_card_json(c));
    if cs.len() > 0 {
        lemma_cards_json_round(cs.drop_last());
        assert(mapped.drop_last() =~= cs.drop_last().map_values(
            |c: MflashCardModel| spec_mflash_card_json(c),
        ));
        assert(mapped.last() == spec_mflash_card_json(cs.last()));
        lemma_card_json_round(cs.last());
        assert(cs.drop_last().push(cs.last()) =~= cs);
    } else {
        assert(mapped.len() == 0);
    }
}

/// A rendered payload reads back as itself.
pub proof fn lemma_mflash_json_round(m: MflashDeckModel)
    ensures
        spec_mflash_from_json(spec_mflash_json(m)) == Some(m),
{
    proof_strlit_keys();
    let o = (match spec_mflash_json(m) {
        JVal::Obj(o) => o,
        _ => Seq::empty(),
    });
    lemma_obj_get_at(o, "format"@, 0);
    lemma_obj_get_at(o, "version"@, 1);
    lemma_obj_get_at(o, "title"@, 2);
    lemma_obj_get_at(o, "description"@, 3);
    lemma_obj_get_at(o, "snippet"@, 4);
    lemma_obj_get_at(o, "default_term_lang"@, 5);
    lemma_obj_get_at(o, "default_def_lang"@, 6);
    lemma_obj_get_at(o, "deck_tags"@, 7);
    lemma_obj_get_at(o, "cover_media"@, 8);
    lemma_obj_get_at(o, "cards"@, 9);
    lemma_strs_round(m.deck_tags);
    lemma_cards_json_round(m.cards);
}

/// Law: the canonical codec round-trips a deck. The saved payload reads
/// back as itself, passes the format and version checks, and flattens to a
/// deck with the same term/definition pairs in the same order, the name and
/// description kept, and ids reassigned sequentially from 1. The extended
/// metadata a plain deck does not carry is saved empty: the loss is in the
/// export direction only, and deliberate.
pub proof fn lemma_mflash_round_trip(deck: DeckModel)
    ensures
        spec_mflash_from_json(spec_mflash_json(spec_mflash_from_deck(deck))) == Some(
            spec_mflash_from_deck(deck),
        ),
        spec_mflash_from_deck(deck).format == "mflash"@,
        spec_mflash_from_deck(deck).version == 1,
        spec_deck_from_mflash(spec_mflash_from_deck(deck)).name == deck.name,
        spec_deck_from_mflash(spec_mflash_from_deck(deck)).description == deck.description,
        spec_deck_from_mflash(spec_mflash_from_deck(deck)).pairs() == deck.pairs(),
        deck.cards.len() <= u64::MAX ==> spec_deck_from_mflash(
            spec_mflash_from_deck(deck),
        ).ids_sequential(),
        forall|text: Seq<char>|
            #[trigger] json_doc_of(text) == Some(spec_mflash_json(spec_mflash_from_deck(deck)))
                ==> spec_decode_mflash(text) == Ok::<DeckModel, CodecError>(
                spec_deck_from_mflash(spec_mflash_from_deck(deck)),
            ),
{
    let m = spec_mflash_from_deck(deck);
    lemma_mflash_json_round(m);
    assert(spec_deck_from_mflash(m).pairs() =~= deck.pairs());
}

} // verus!
