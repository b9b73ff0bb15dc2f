//! The compute half of the binary-package importer.
//!
//! A package export is a ZIP container (or an already-unpacked directory)
//! wrapping a relational database whose note rows carry the card fields.
//! Opening the container, extracting the database and querying the note
//! rows is file I/O and lives with the caller; everything that decides or
//! transforms is here: choosing the database entry (newer schema markers
//! preferred), splitting each note's fields at the unit separator,
//! stripping the two known inline markup patterns, assembling the synthetic
//! delimited text, and the final hand-off to the delimited-text parser.
use vstd::prelude::*;

use crate::model::{Deck, FormatKind, ImportError};
use crate::text::{
    chars_vec, find_sub, lemma_find_spec, spec_find, spec_matches_at, spec_split, spec_trim,
    split_chars, string_of_chars, subvec, trim_vec, SepKind,
};
use crate::txt::{deck_from_txt, spec_txt_cards};

verus! {

/// One scan-and-splice pass: remove every region running from an
/// occurrence of `open_pat` to the end of the first occurrence of
/// `close_pat` after it; an opening with no close after it is kept as
/// plain text.
pub open spec fn spec_strip_spans(s: Seq<char>, open_pat: Seq<char>, close_pat: Seq<char>) -> Seq<
    char,
>
    decreases s.len()
        when open_pat.len() > 0 && close_pat.len() > 0
        via spec_strip_spans_decreases
{
    match spec_find(s, open_pat) {
        None => s,
        Some(i) => match spec_find(s.skip(i), close_pat) {
            Some(j) => s.take(i) + spec_strip_spans(
                s.skip(i + j + close_pat.len()),
                open_pat,
                close_pat,
            ),
            None => s,
        },
    }
}

#[via_fn]
proof fn spec_strip_spans_decreases(s: Seq<char>, open_pat: Seq<char>, close_pat: Seq<char>) {
    lemma_find_spec(s, open_pat);
    match spec_find(s, open_pat) {
        None => {},
        Some(i) => {
            lemma_find_spec(s.skip(i), close_pat);
            match spec_find(s.skip(i), close_pat) {
                Some(j) => {
                    assert(spec_matches_at(s, open_pat, i));
                    assert(spec_matches_at(s.skip(i), close_pat, j));
                },
                None => {},
            }
        },
    }
}

/// Both markup passes: `[sound:...]` tags first (closed by the first `]`),
/// then `[anki:tts ...]...[/anki:tts]` spans.
pub open spec fn spec_strip_anki_markup(s: Seq<char>) -> Seq<char> {
    spec_strip_spans(spec_strip_spans(s, "[sound:"@, "]"@), "[anki:tts"@, "[/anki:tts]"@)
}

/// Executable twin of [`spec_strip_spans`].
fn strip_spans(v: &Vec<char>, open_pat: &Vec<char>, close_pat: &Vec<char>) -> (r: Vec<char>)
    requires
        open_pat.len() > 0,
        close_pat.len() > 0,
    ensures
        r@ == spec_strip_spans(v@, open_pat@, close_pat@),
    decreases v@.len(),
{
    match find_sub(v, open_pat) {
        None => subvec(v, 0, v.len()),
        Some(i) => {
            proof {
                lemma_find_spec(v@, open_pat@);
                assert(spec_matches_at(v@, open_pat@, i as int));
            }
            let rest = subvec(v, i, v.len());
            assert(rest@ =~= v@.skip(i as int));
            match find_sub(&rest, close_pat) {
                None => subvec(v, 0, v.len()),
                Some(j) => {
                    proof {
                        lemma_find_spec(rest@, close_pat@);
                        assert(spec_matches_at(rest@, close_pat@, j as int));
                    }
                    let cut: usize = i + j + close_pat.len();
                    let tail = subvec(v, cut, v.len());
                    assert(tail@ =~= v@.skip(cut as int));
                    let stripped = strip_spans(&tail, open_pat, close_pat);
                    let mut out = subvec(v, 0, i);
                    assert(out@ =~= v@.take(i as int));
                    let mut s2 = stripped;
                    out.append(&mut s2);
                    out
                },
            }
        },
    }
}

/// Strip the two known inline markup patterns from a note field: every
/// `[sound:...]` tag, then every `[anki:tts ...]...[/anki:tts]` span.
/// A plain scan and splice, not markup parsing.
pub fn strip_anki_markup(s: &str) -> (r: String)
    ensures
        r@ == spec_strip_anki_markup(s@),
{
    let v = chars_vec(s);
    let open1 = chars_vec("[sound:");
    let close1 = chars_vec("]");
    let open2 = chars_vec("[anki:tts");
    let close2 = chars_vec("[/anki:tts]");
    proof {
        reveal_strlit("[sound:");
        reveal_strlit("]");
        reveal_strlit("[anki:tts");
        reveal_strlit("[/anki:tts]");
    }
    let pass1 = strip_spans(&v, &open1, &close1);
    let pass2 = strip_spans(&pass1, &open2, &close2);
    string_of_chars(&pass2)
}

/// The synthetic delimited-text line one note contributes: field 0 as
/// term, field 1 as definition, both trimmed before and after markup
/// stripping; a note empty on both sides contributes nothing.
pub open spec fn spec_note_line(flds: Seq<char>) -> Seq<char> {
    let parts = spec_split(SepKind::Field, flds);
    let term_raw = spec_trim(parts[0]);
    let def_raw = spec_trim(if parts.len() >= 2 { parts[1] } else { Seq::<char>::empty() });
    let term = spec_strip_anki_markup(term_raw);
    let def = spec_strip_anki_markup(def_raw);
    if spec_trim(term).len() == 0 && spec_trim(def).len() == 0 {
        Seq::empty()
    } else {
        spec_trim(term) + seq!['\t'] + spec_trim(def) + seq!['\n']
    }
}

/// The synthetic text of a whole run of notes, in order.
pub open spec fn spec_synthetic_txt(notes: Seq<Seq<char>>) -> Seq<char>
    decreases notes.len(),
{
    if notes.len() == 0 {
        Seq::empty()
    } else {
        spec_synthetic_txt(notes.drop_last()) + spec_note_line(notes.last())
    }
}

/// Assemble the synthetic delimited text from the notes' field strings.
/// A text that would parse to zero cards is a hard failure — an
/// apparently successful but empty package import must not pass as a
/// valid deck.
#[verifier::loop_isolation(false)]
pub fn synthetic_txt_from_notes(notes: &Vec<String>) -> (r: Result<String, ImportError>)
    ensures
        match r {
            Ok(s) => s@ == spec_synthetic_txt(notes.deep_view()) && spec_txt_cards(s@).len() > 0,
            Err(e) => spec_txt_cards(spec_synthetic_txt(notes.deep_view())).len() == 0 && e
                == ImportError::Unsupported(FormatKind::Apkg),
        },
{
    let ghost nv = notes.deep_view();
    let mut out: Vec<char> = Vec::new();
    let mut i: usize = 0;
    assert(nv.take(0) =~= Seq::<Seq<char>>::empty());
    assert(out@ =~= spec_synthetic_txt(nv.take(0)));
    while i < notes.len()
        invariant
            0 <= i <= notes@.len(),
            out@ == spec_synthetic_txt(nv.take(i as int)),
        decreases notes@.len() - i,
    {
        proof {
            assert(nv[i as int] == notes@[i as int]@);
            assert(nv.take(i + 1).drop_last() =~= nv.take(i as int));
            assert(nv.take(i + 1).last() == nv[i as int]);
        }
        let flds = chars_vec(notes[i].as_str());
        let parts = split_chars(&flds, SepKind::Field);
        proof {
            crate::text::lemma_split_nonempty(SepKind::Field, flds@);
            crate::text::lemma_lines_deep(parts, 0);
            if parts@.len() >= 2 {
                crate::text::lemma_lines_deep(parts, 1);
            }
        }
        let term_raw = trim_vec(&parts[0]);
        let def_raw = if parts.len() >= 2 {
            trim_vec(&parts[1])
        } else {
            let empty: Vec<char> = Vec::new();
            assert(empty@ =~= spec_trim(Seq::<char>::empty()));
            empty
        };
        let term = trim_vec(
            &chars_vec(strip_anki_markup(string_of_chars(&term_raw).as_str()).as_str()),
        );
        let def = trim_vec(
            &chars_vec(strip_anki_markup(string_of_chars(&def_raw).as_str()).as_str()),
        );
        if term.len() == 0 && def.len() == 0 {
            proof {
                assert(spec_note_line(nv[i as int]) =~= Seq::<char>::empty());
                assert(out@ =~= spec_synthetic_txt(nv.take(i + 1)));
            }
        } else {
            let ghost prev = out@;
            let mut t2 = term;
            out.append(&mut t2);
            out.push('\t');
            let mut d2 = def;
            out.append(&mut d2);
            out.push('\n');
            proof {
                assert(out@ =~= prev + spec_note_line(nv[i as int]));
                assert(out@ =~= spec_synthetic_txt(nv.take(i + 1)));
            }
        }
        i = i + 1;
    }
    assert(nv.take(notes@.len() as int) =~= nv);

    let text = string_of_chars(&out);
    // Probe the text with the delimited-text parser itself: the import is
    // only usable if at least one card survives.
    let probe = deck_from_txt("", None, text.as_str());
    proof {
        assert(probe@.cards.len() == probe.cards@.len());
    }
    if probe.cards.len() == 0 {
        return Err(ImportError::Unsupported(FormatKind::Apkg));
    }
    Ok(text)
}

/// Which name first contains `pat`, scanning in order.
pub open spec fn spec_first_containing(names: Seq<Seq<char>>, pat: Seq<char>) -> Option<int>
    decreases names.len(),
{
    if names.len() == 0 {
        None
    } else if spec_find(names[0], pat) is Some {
        Some(0)
    } else {
        match spec_first_containing(names.drop_first(), pat) {
            Some(i) => Some(i + 1),
            None => None,
        }
    }
}

/// The first name containing `pat`, if any.
#[verifier::loop_isolation(false)]
fn first_containing(names: &Vec<String>, pat: &str) -> (r: Option<String>)
    ensures
        match r {
            Some(s) => (match spec_first_containing(names.deep_view(), pat@) {
                Some(i) => s@ == names.deep_view()[i],
                None => false,
            }),
            None => spec_first_containing(names.deep_view(), pat@) is None,
        },
{
    let ghost nv = names.deep_view();
    let pv = chars_vec(pat);
    let mut i: usize = 0;
    assert(nv.skip(0) =~= nv);
    while i < names.len()
        invariant
            0 <= i <= names@.len(),
            spec_first_containing(nv, pat@) == (match spec_first_containing(
                nv.skip(i as int),
                pat@,
            ) {
                Some(k) => Some(k + i),
                None => None::<int>,
            }),
        decreases names@.len() - i,
    {
        proof {
            assert(nv[i as int] == names@[i as int]@);
            assert(nv.skip(i as int)[0] == nv[i as int]);
            assert(nv.skip(i as int).drop_first() =~= nv.skip(i + 1));
        }
        let name = chars_vec(names[i].as_str());
        if find_sub(&name, &pv).is_some() {
            assert(spec_first_containing(nv.skip(i as int), pat@) == Some(0int));
            return Some(names[i].clone());
        }
        i = i + 1;
    }
    assert(nv.skip(names@.len() as int) =~= Seq::<Seq<char>>::empty());
    None
}

/// Choose the database entry among an archive's file names: prefer any
/// name containing `collection.anki21`, fall back to any containing
/// `collection.anki2`, in listed order.
pub fn choose_collection_name(names: &Vec<String>) -> (r: Option<String>)
    ensures
        match spec_first_containing(names.deep_view(), "collection.anki21"@) {
            Some(i) => r is Some && r->0@ == names.deep_view()[i],
            None => match spec_first_containing(names.deep_view(), "collection.anki2"@) {
                Some(i) => r is Some && r->0@ == names.deep_view()[i],
                None => r is None,
            },
        },
{
    match first_containing(names, "collection.anki21") {
        Some(s) => Some(s),
        None => first_containing(names, "collection.anki2"),
    }
}

/// The database file names probed inside an unpacked package directory, in
/// preference order: newer schema markers first.
pub fn collection_file_candidates() -> (r: Vec<String>)
    ensures
        r.deep_view() =~= seq!["collection.anki21b"@, "collection.anki21"@, "collection.anki2"@],
{
    let mut v: Vec<String> = Vec::new();
    v.push("collection.anki21b".to_owned());
    v.push("collection.anki21".to_owned());
    v.push("collection.anki2".to_owned());
    assert forall|k: int| 0 <= k < 3 implies v.deep_view()[k] == seq![
        "collection.anki21b"@,
        "collection.anki21"@,
        "collection.anki2"@,
    ][k] by {
        assert(v.deep_view()[k] == v@[k].deep_view());
    }
    v
}

/// Finish a package import: run the synthetic delimited text through the
/// delimited-text parser under the package's name.
pub fn finalize_deck_from_synthetic_txt(name: &str, synthetic_txt: &str) -> (r: Deck)
    ensures
        r@.name == name@,
        r@.description is None,
        r@.cards == spec_txt_cards(synthetic_txt@),
{
    deck_from_txt(name, None, synthetic_txt)
}

} // verus!
