//! A flashcard study library: decks of term/definition cards imported from
//! varied text and binary formats, scheduled for review by a
//! spaced-repetition engine, and saved in a versioned canonical format.
//!
//! The import parsers, the scheduler, the review-state store and the
//! canonical codec are specified by contracts and verified; the thin shell
//! that does file, terminal and package I/O lives outside the library.
pub mod apkg;
pub mod dispatch;
pub mod json;
pub mod jsonval;
pub mod markdown;
pub mod mflash;
pub mod model;
pub mod srs;
pub mod store;
pub mod text;
pub mod tabular;
pub mod txt;
pub mod ui;
