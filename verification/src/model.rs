//! Canonical in-memory deck model: a deck of term/definition cards plus the
//! per-card spaced-repetition state.
use vstd::prelude::*;

verus! {

/// A single flashcard: a stable id together with a prompt (`term`) and an
/// answer (`definition`).
#[derive(Debug, Clone)]
pub struct Card {
    pub id: u64,
    pub term: String,
    pub definition: String,
}

/// Mathematical model of a [`Card`]: the id with both texts as
/// character sequences.
pub ghost struct CardModel {
    pub id: u64,
    pub term: Seq<char>,
    pub definition: Seq<char>,
}

impl View for Card {
    type V = CardModel;

    open spec fn view(&self) -> CardModel {
        CardModel { id: self.id, term: self.term@, definition: self.definition@ }
    }
}

/// A named, ordered collection of cards.
#[derive(Debug, Clone)]
pub struct Deck {
    pub name: String,
    pub description: Option<String>,
    pub cards: Vec<Card>,
}

/// Mathematical model of a [`Deck`].
pub ghost struct DeckModel {
    pub name: Seq<char>,
    pub description: Option<Seq<char>>,
    pub cards: Seq<CardModel>,
}

impl View for Deck {
    type V = DeckModel;

    open spec fn view(&self) -> DeckModel {
        DeckModel {
            name: self.name@,
            description: match self.description {
                Some(ref d) => Some(d@),
                None => None,
            },
            cards: self.cards@.map_values(|c: Card| c@),
        }
    }
}

impl DeckModel {
    /// The term/definition pairs of the deck, in deck order, without ids.
    pub open spec fn pairs(self) -> Seq<(Seq<char>, Seq<char>)> {
        self.cards.map_values(|c: CardModel| (c.term, c.definition))
    }

    /// Ids are the positions shifted by one: card `i` carries id `i + 1`.
    pub open spec fn ids_sequential(self) -> bool {
        forall|i: int| 0 <= i < self.cards.len() ==> #[trigger] self.cards[i].id == i + 1
    }
}

/// Per-card scheduling record. All quantities are integers:
/// the review interval is kept in whole seconds, the ease factor in
/// hundredths (so `250` stands for an ease of 2.5), and timestamps are
/// seconds on an absolute (Unix-style) scale.
#[derive(Debug, Clone, Copy, PartialEq, Eq, Structural)]
pub struct ReviewState {
    /// Back-reference to the card this record schedules (an id, not a pointer).
    pub card_id: u64,
    /// Current review interval in seconds; one day is 86_400.
    pub interval_secs: u64,
    /// Ease factor in hundredths; the floor of 1.3 is the value 130.
    pub ease_centi: u32,
    /// Count of consecutive non-lapsing reviews.
    pub repetitions: u32,
    /// Absolute timestamp (seconds) at which the card next becomes due.
    pub next_review: i64,
}

/// A sub-format's input did not match its grammar. Recoverable: the caller
/// falls through to the next candidate parser.
#[derive(Debug, Clone, Copy, PartialEq, Eq, Structural)]
pub enum ParseError {
    /// The reader could not tokenise the input at all.
    Malformed,
    /// Parsing ran, but no usable card survived.
    NoCards,
}

/// The source formats the importer distinguishes.
#[derive(Debug, Clone, Copy, PartialEq, Eq, Structural)]
pub enum FormatKind {
    Json,
    Csv,
    Markdown,
    Xml,
    Txt,
    Apkg,
}

/// Terminal import failure: no parser in the applicable family succeeded, or
/// the extension maps to a format this importer cannot read. Carries the
/// format that was attempted.
#[derive(Debug, Clone, Copy, PartialEq, Eq, Structural)]
pub enum ImportError {
    Unsupported(FormatKind),
}

impl ImportError {
    /// A short report of which format was attempted.
    pub fn describe(&self) -> (r: String)
        ensures
            *self == ImportError::Unsupported(FormatKind::Json) ==> r@
                == "unsupported JSON deck format"@,
            *self == ImportError::Unsupported(FormatKind::Csv) ==> r@
                == "no cards parsed from CSV"@,
            *self == ImportError::Unsupported(FormatKind::Markdown) ==> r@
                == "unsupported Markdown deck format"@,
            *self == ImportError::Unsupported(FormatKind::Xml) ==> r@
                == "XML import is not supported"@,
            *self == ImportError::Unsupported(FormatKind::Txt) ==> r@
                == "no cards parsed from delimited text"@,
            *self == ImportError::Unsupported(FormatKind::Apkg) ==> r@
                == "no usable notes in the package export"@,
    {
        match self {
            ImportError::Unsupported(FormatKind::Json) => "unsupported JSON deck format".to_owned(),
            ImportError::Unsupported(FormatKind::Csv) => "no cards parsed from CSV".to_owned(),
            ImportError::Unsupported(FormatKind::Markdown) => "unsupported Markdown deck format".to_owned(),
            ImportError::Unsupported(FormatKind::Xml) => "XML import is not supported".to_owned(),
            ImportError::Unsupported(FormatKind::Txt) => "no cards parsed from delimited text".to_owned(),
            ImportError::Unsupported(FormatKind::Apkg) => "no usable notes in the package export".to_owned(),
        }
    }
}

/// Why loading a canonical deck file failed; each cause is distinct so a
/// caller can tell "not a deck file" from "corrupt file" from "a version
/// this reader cannot handle".
#[derive(Debug, Clone, Copy, PartialEq, Eq, Structural)]
pub enum CodecError {
    /// The payload is not well-formed, or lacks the required fields.
    Malformed,
    /// The `format` tag is not the expected literal.
    WrongFormatTag,
    /// The `version` field names a version this reader does not support.
    UnsupportedVersion,
}

impl CodecError {
    /// A short report of why the load failed.
    pub fn describe(&self) -> (r: String)
        ensures
            *self == CodecError::Malformed ==> r@ == "malformed deck payload"@,
            *self == CodecError::WrongFormatTag ==> r@ == "not a deck file: wrong format tag"@,
            *self == CodecError::UnsupportedVersion ==> r@ == "deck file from an unsupported version"@,
    {
        match self {
            CodecError::Malformed => "malformed deck payload".to_owned(),
            CodecError::WrongFormatTag => "not a deck file: wrong format tag".to_owned(),
            CodecError::UnsupportedVersion => "deck file from an unsupported version".to_owned(),
        }
    }
}

/// Ease factor a fresh record starts with: 2.5.
pub const EASE_START_CENTI: u32 = 250;

impl ReviewState {
    /// The state a card is in right after a deck is loaded: immediately due,
    /// no interval yet, ease at its starting value.
    pub open spec fn spec_new(card_id: u64, now: i64) -> ReviewState {
        ReviewState {
            card_id,
            interval_secs: 0,
            ease_centi: EASE_START_CENTI,
            repetitions: 0,
            next_review: now,
        }
    }

    /// Create the initial scheduling record for a card: due at `now`.
    pub fn new(card_id: u64, now: i64) -> (r: ReviewState)
        ensures
            r == ReviewState::spec_new(card_id, now),
    {
        ReviewState {
            card_id,
            interval_secs: 0,
            ease_centi: EASE_START_CENTI,
            repetitions: 0,
            next_review: now,
        }
    }
}

} // verus!
