//! Markdown importer: tries six sub-dialects in a fixed order and returns
//! the first that yields at least one card.
//!
//! The order, strict to loose: heading-per-term, bullet list
//! (`- term: definition`), two-column pipe table, fenced card blocks,
//! bold-glossary (`**Term** <em dash> Definition`), and bare
//! `term: definition` lines. A dialect that runs but yields nothing counts
//! as a failure, causing fallthrough; when every dialect fails the import
//! reports an unsupported Markdown format.
use vstd::prelude::*;

use crate::model::{Card, CardModel, Deck, FormatKind, ImportError};
use crate::text::{
    chars_vec, spec_nonempty_trimmed, eq_chars, eq_ignore_ascii_case, spec_eq_ignore_ascii_case, spec_split,
    spec_split_once_trimmed, spec_starts_with, spec_strip_prefix_all, spec_strip_suffix_all,
    spec_trim, split_chars, split_once_trimmed, starts_with, string_of_chars, strip_prefix_all,
    strip_suffix_all, trim_vec, SepKind,
};
use crate::txt::spec_cards_from_pairs;

verus! {

/// The stateless line-shaped dialects.
#[derive(Debug, Clone, Copy, PartialEq, Eq, Structural)]
pub enum MdLineRule {
    /// `- term: definition` or `* term: definition` bullets.
    Bullet,
    /// `**Term**` followed by an em dash and the definition.
    Glossary,
    /// Bare `term: definition` lines.
    Colon,
}

/// The pair one line contributes under a stateless dialect, if any.
pub open spec fn spec_line_pair(rule: MdLineRule, raw: Seq<char>) -> Option<
    (Seq<char>, Seq<char>),
> {
    let line = spec_trim(raw);
    match rule {
        MdLineRule::Bullet => {
            if !(spec_starts_with(line, seq!['-', ' ']) || spec_starts_with(
                line,
                seq!['*', ' '],
            )) {
                None
            } else {
                let item = spec_trim(
                    spec_strip_prefix_all(
                        spec_strip_prefix_all(line, seq!['-', ' ']),
                        seq!['*', ' '],
                    ),
                );
                spec_split_once_trimmed(item, seq![':'])
            }
        },
        MdLineRule::Glossary => {
            if !spec_starts_with(line, seq!['*', '*']) {
                None
            } else {
                match spec_split_once_trimmed(line, seq!['\u{2014}']) {
                    Some(p) => Some(
                        (
                            spec_strip_suffix_all(
                                spec_strip_prefix_all(p.0, seq!['*', '*']),
                                seq!['*', '*'],
                            ),
                            p.1,
                        ),
                    ),
                    None => None,
                }
            }
        },
        MdLineRule::Colon => spec_split_once_trimmed(line, seq![':']),
    }
}

/// The pairs all lines contribute under a stateless dialect, in order.
pub open spec fn spec_line_pairs(rule: MdLineRule, lines: Seq<Seq<char>>) -> Seq<
    (Seq<char>, Seq<char>),
>
    decreases lines.len(),
{
    if lines.len() == 0 {
        Seq::empty()
    } else {
        spec_line_pairs(rule, lines.drop_last()) + match spec_line_pair(rule, lines.last()) {
            Some(p) => seq![p],
            None => Seq::empty(),
        }
    }
}

/// Executable twin of [`spec_line_pair`].
fn md_line_pair(rule: MdLineRule, raw: &Vec<char>) -> (r: Option<(Vec<char>, Vec<char>)>)
    ensures
        match r {
            Some(p) => spec_line_pair(rule, raw@) == Some((p.0@, p.1@)),
            None => spec_line_pair(rule, raw@) is None,
        },
{
    let line = trim_vec(raw);
    let mut dash_sp: Vec<char> = Vec::new();
    dash_sp.push('-');
    dash_sp.push(' ');
    let mut star_sp: Vec<char> = Vec::new();
    star_sp.push('*');
    star_sp.push(' ');
    let mut stars: Vec<char> = Vec::new();
    stars.push('*');
    stars.push('*');
    let mut colon: Vec<char> = Vec::new();
    colon.push(':');
    let mut em_dash: Vec<char> = Vec::new();
    em_dash.push('\u{2014}');
    assert(dash_sp@ =~= seq!['-', ' ']);
    assert(star_sp@ =~= seq!['*', ' ']);
    assert(stars@ =~= seq!['*', '*']);
    assert(colon@ =~= seq![':']);
    assert(em_dash@ =~= seq!['\u{2014}']);
    match rule {
        MdLineRule::Bullet => {
            if !(starts_with(&line, &dash_sp) || starts_with(&line, &star_sp)) {
                None
            } else {
                let item = trim_vec(&strip_prefix_all(&strip_prefix_all(&line, &dash_sp), &star_sp));
                split_once_trimmed(&item, &colon)
            }
        },
        MdLineRule::Glossary => {
            if !starts_with(&line, &stars) {
                None
            } else {
                match split_once_trimmed(&line, &em_dash) {
                    Some(p) => {
                        let term = strip_suffix_all(&strip_prefix_all(&p.0, &stars), &stars);
                        Some((term, p.1))
                    },
                    None => None,
                }
            }
        },
        MdLineRule::Colon => split_once_trimmed(&line, &colon),
    }
}

/// Collect the cards of a stateless dialect over all lines, ids sequential
/// from 1.
fn collect_line_cards(lines: &Vec<Vec<char>>, rule: MdLineRule) -> (r: Vec<Card>)
    ensures
        r@.map_values(|c: Card| c@) == spec_cards_from_pairs(
            spec_line_pairs(rule, lines.deep_view()),
        ),
{
    let ghost lv = lines.deep_view();
    let mut cards: Vec<Card> = Vec::new();
    let mut i: usize = 0;
    assert(lv.take(0) =~= Seq::<Seq<char>>::empty());
    while i < lines.len()
        invariant
            0 <= i <= lines.len(),
            lv == lines.deep_view(),
            cards@.map_values(|c: Card| c@) =~= spec_cards_from_pairs(
                spec_line_pairs(rule, lv.take(i as int)),
            ),
            cards@.len() == spec_line_pairs(rule, lv.take(i as int)).len(),
            cards@.len() <= i,
        decreases lines.len() - i,
    {
        let line = &lines[i];
        assert(line@ == lv[i as int]);
        proof {
            assert(lv.take(i + 1).drop_last() =~= lv.take(i as int));
            assert(lv.take(i + 1).last() == lv[i as int]);
        }
        let ghost prev_pairs = spec_line_pairs(rule, lv.take(i as int));
        match md_line_pair(rule, line) {
            Some((term, def)) => {
                assert(cards.len() < lines.len());
                let id: u64 = (cards.len() as u64) + 1;
                let card = Card {
                    id,
                    term: string_of_chars(&term),
                    definition: string_of_chars(&def),
                };
                let ghost prev_cards = cards@;
                cards.push(card);
                proof {
                    let pairs = spec_line_pairs(rule, lv.take(i + 1));
                    assert(pairs =~= prev_pairs.push((term@, def@)));
                    assert(cards@ =~= prev_cards.push(card));
                    assert(cards@.map_values(|c: Card| c@) =~= prev_cards.map_values(
                        |c: Card| c@,
                    ).push(card@));
                    assert(card@ == CardModel {
                        id: (prev_pairs.len() + 1) as u64,
                        term: term@,
                        definition: def@,
                    });
                    assert(cards@.map_values(|c: Card| c@) =~= spec_cards_from_pairs(pairs));
                }
            },
            None => {
                proof {
                    assert(spec_line_pairs(rule, lv.take(i + 1)) =~= prev_pairs);
                }
            },
        }
        i = i + 1;
    }
    assert(lv.take(lines.len() as int) =~= lv);
    cards
}

/// One step of the heading dialect: a heading line flushes any pending term
/// with a placeholder definition and opens a new term; the first non-blank
/// line after a heading becomes its definition; blank lines change nothing.
pub open spec fn spec_heading_step(
    st: (Option<Seq<char>>, Seq<(Seq<char>, Seq<char>)>),
    raw: Seq<char>,
) -> (Option<Seq<char>>, Seq<(Seq<char>, Seq<char>)>) {
    let line = spec_trim(raw);
    if spec_starts_with(line, seq!['#']) {
        let pairs = match st.0 {
            Some(t) => st.1.push((t, "(no definition)"@)),
            None => st.1,
        };
        (Some(spec_trim(spec_strip_prefix_all(line, seq!['#']))), pairs)
    } else if line.len() > 0 {
        match st.0 {
            Some(t) => (None, st.1.push((t, line))),
            None => st,
        }
    } else {
        st
    }
}

/// The heading dialect run over a sequence of lines. A term still pending
/// at the end of the input is discarded.
pub open spec fn spec_heading_scan(lines: Seq<Seq<char>>) -> (
    Option<Seq<char>>,
    Seq<(Seq<char>, Seq<char>)>,
)
    decreases lines.len(),
{
    if lines.len() == 0 {
        (None, Seq::empty())
    } else {
        spec_heading_step(spec_heading_scan(lines.drop_last()), lines.last())
    }
}

/// What the heading dialect yields on text `s`: `None` when no card results.
pub open spec fn spec_heading_cards(s: Seq<char>) -> Option<Seq<CardModel>> {
    let pairs = spec_heading_scan(spec_split(SepKind::Line, s)).1;
    if pairs.len() == 0 {
        None
    } else {
        Some(spec_cards_from_pairs(pairs))
    }
}

/// Heading-per-term dialect: a heading line gives the term, the next
/// non-blank line its definition; a heading with no definition before the
/// next heading keeps a "(no definition)" placeholder.
pub fn try_markdown_heading_pairs(raw: &str) -> (r: Result<Deck, ImportError>)
    ensures
        match r {
            Ok(deck) => spec_heading_cards(raw@) == Some(deck@.cards) && deck@.name
                == "Markdown Deck (Headings)"@ && deck@.description is None,
            Err(e) => spec_heading_cards(raw@) is None && e == ImportError::Unsupported(
                FormatKind::Markdown,
            ),
        },
{
    let v = chars_vec(raw);
    let lines = split_chars(&v, SepKind::Line);
    let ghost lv = spec_split(SepKind::Line, raw@);
    assert(lines.deep_view() == lv);

    let mut hash: Vec<char> = Vec::new();
    hash.push('#');
    assert(hash@ =~= seq!['#']);
    let no_def: &str = "(no definition)";

    let mut cur: Option<Vec<char>> = None;
    let mut cards: Vec<Card> = Vec::new();
    let mut i: usize = 0;
    assert(lv.take(0) =~= Seq::<Seq<char>>::empty());
    while i < lines.len()
        invariant
            0 <= i <= lines.len(),
            lv == lines.deep_view(),
            hash@ == seq!['#'],
            no_def@ == "(no definition)"@,
            ({
                let st = spec_heading_scan(lv.take(i as int));
                &&& st.0 == (match cur {
                    Some(ref t) => Some(t@),
                    None => None::<Seq<char>>,
                })
                &&& cards@.map_values(|c: Card| c@) == spec_cards_from_pairs(st.1)
                &&& cards@.len() == st.1.len()
            }),
            cards@.len() <= i,
        decreases lines.len() - i,
    {
        let line_raw = &lines[i];
        assert(line_raw@ == lv[i as int]);
        proof {
            assert(lv.take(i + 1).drop_last() =~= lv.take(i as int));
            assert(lv.take(i + 1).last() == lv[i as int]);
        }
        let ghost st = spec_heading_scan(lv.take(i as int));
        let line = trim_vec(line_raw);
        if starts_with(&line, &hash) {
            if let Some(t) = cur.take() {
                assert(cards.len() < lines.len());
                let id: u64 = (cards.len() as u64) + 1;
                let card = Card { id, term: string_of_chars(&t), definition: no_def.to_owned() };
                let ghost prev_cards = cards@;
                cards.push(card);
                proof {
                    assert(cards@ =~= prev_cards.push(card));
                    assert(cards@.map_values(|c: Card| c@) =~= prev_cards.map_values(
                        |c: Card| c@,
                    ).push(card@));
                    assert(cards@.map_values(|c: Card| c@) =~= spec_cards_from_pairs(
                        st.1.push((t@, "(no definition)"@)),
                    ));
                }
            }
            cur = Some(trim_vec(&strip_prefix_all(&line, &hash)));
        } else if line.len() > 0 {
            if let Some(t) = cur.take() {
                assert(cards.len() < lines.len());
                let id: u64 = (cards.len() as u64) + 1;
                let card = Card {
                    id,
                    term: string_of_chars(&t),
                    definition: string_of_chars(&line),
                };
                let ghost prev_cards = cards@;
                cards.push(card);
                proof {
                    assert(cards@ =~= prev_cards.push(card));
                    assert(cards@.map_values(|c: Card| c@) =~= prev_cards.map_values(
                        |c: Card| c@,
                    ).push(card@));
                    assert(cards@.map_values(|c: Card| c@) =~= spec_cards_from_pairs(
                        st.1.push((t@, line@)),
                    ));
                }
            }
        }
        i = i + 1;
    }
    assert(lv.take(lines.len() as int) =~= lv);

    if cards.len() == 0 {
        return Err(ImportError::Unsupported(FormatKind::Markdown));
    }
    Ok(Deck { name: "Markdown Deck (Headings)".to_owned(), description: None, cards })
}

/// The non-empty trimmed cells of a pipe-table row, in order.
pub open spec fn spec_table_cells(line: Seq<char>) -> Seq<Seq<char>> {
    spec_nonempty_trimmed(spec_split(SepKind::Pipe, line))
}

/// The pair a table row contributes: its first two non-empty cells, when it
/// has at least two.
pub open spec fn spec_table_pair(line: Seq<char>) -> Option<(Seq<char>, Seq<char>)> {
    let cells = spec_table_cells(line);
    if cells.len() >= 2 {
        Some((cells[0], cells[1]))
    } else {
        None
    }
}

/// The pairs of all table rows, in order.
pub open spec fn spec_table_pairs(rows: Seq<Seq<char>>) -> Seq<(Seq<char>, Seq<char>)>
    decreases rows.len(),
{
    if rows.len() == 0 {
        Seq::empty()
    } else {
        spec_table_pairs(rows.drop_last()) + match spec_table_pair(rows.last()) {
            Some(p) => seq![p],
            None => Seq::empty(),
        }
    }
}

/// What the table dialect yields on text `s`: the first line must start
/// (after trimming) with a bar, the second (separator) line is skipped, and
/// each later row's first two non-empty cells become a card.
pub open spec fn spec_table_cards(s: Seq<char>) -> Option<Seq<CardModel>> {
    let lines = spec_split(SepKind::Line, s);
    let header = spec_trim(lines[0]);
    if header.len() == 0 || header[0] != '|' {
        None
    } else {
        let rows = if lines.len() >= 2 {
            lines.skip(2)
        } else {
            Seq::<Seq<char>>::empty()
        };
        let pairs = spec_table_pairs(rows);
        if pairs.len() == 0 {
            None
        } else {
            Some(spec_cards_from_pairs(pairs))
        }
    }
}

/// The non-empty trimmed cells of a row; executable twin of
/// [`spec_table_cells`].
fn table_cells(line: &Vec<char>) -> (r: Vec<Vec<char>>)
    ensures
        r.deep_view() == spec_table_cells(line@),
{
    let pieces = split_chars(line, SepKind::Pipe);
    let ghost pv = spec_split(SepKind::Pipe, line@);
    assert(pieces.deep_view() == pv);
    let mut cells: Vec<Vec<char>> = Vec::new();
    let mut i: usize = 0;
    assert(pv.take(0) =~= Seq::<Seq<char>>::empty());
    assert(cells.deep_view() =~~= spec_nonempty_trimmed(pv.take(0)));
    while i < pieces.len()
        invariant
            0 <= i <= pieces.len(),
            pv == pieces.deep_view(),
            cells.deep_view() =~~= spec_nonempty_trimmed(pv.take(i as int)),
        decreases pieces.len() - i,
    {
        let piece = &pieces[i];
        assert(piece@ == pv[i as int]);
        proof {
            assert(pv.take(i + 1).drop_last() =~= pv.take(i as int));
            assert(pv.take(i + 1).last() == pv[i as int]);
        }
        let ghost prev = cells.deep_view();
        let t = trim_vec(piece);
        if t.len() > 0 {
            cells.push(t);
            assert(cells.deep_view() =~~= prev.push(spec_trim(pv[i as int])));
            assert(cells.deep_view() =~~= spec_nonempty_trimmed(pv.take(i + 1)));
        } else {
            assert(spec_nonempty_trimmed(pv.take(i + 1)) =~~= prev);
        }
        i = i + 1;
    }
    assert(pv.take(pieces.len() as int) =~= pv);
    cells
}

/// Two-column pipe-table dialect: a header row, a separator row, then one
/// card per data row from its first two non-empty cells.
pub fn try_markdown_table_2col(raw: &str) -> (r: Result<Deck, ImportError>)
    ensures
        match r {
            Ok(deck) => spec_table_cards(raw@) == Some(deck@.cards) && deck@.name
                == "Markdown Deck (Table)"@ && deck@.description is None,
            Err(e) => spec_table_cards(raw@) is None && e == ImportError::Unsupported(
                FormatKind::Markdown,
            ),
        },
{
    let v = chars_vec(raw);
    let lines = split_chars(&v, SepKind::Line);
    let ghost lv = spec_split(SepKind::Line, raw@);
    assert(lines.deep_view() == lv);
    proof {
        crate::text::lemma_split_nonempty(SepKind::Line, raw@);
        assert(lines@.len() == lv.len());
        crate::text::lemma_lines_deep(lines, 0);
    }
    assert(lines.len() >= 1);
    assert(lines@[0]@ == lv[0]);

    let header = trim_vec(&lines[0]);
    if header.len() == 0 || header[0] != '|' {
        return Err(ImportError::Unsupported(FormatKind::Markdown));
    }

    let start: usize = if lines.len() >= 2 {
        2
    } else {
        lines.len()
    };
    let ghost rows = if lv.len() >= 2 { lv.skip(2) } else { Seq::<Seq<char>>::empty() };
    assert(rows =~= lv.skip(start as int));

    let mut cards: Vec<Card> = Vec::new();
    let mut i: usize = start;
    assert(rows.take(0) =~= Seq::<Seq<char>>::empty());
    while i < lines.len()
        invariant
            start <= i <= lines.len(),
            lv == lines.deep_view(),
            rows == lv.skip(start as int),
            cards@.map_values(|c: Card| c@) =~= spec_cards_from_pairs(
                spec_table_pairs(rows.take(i - start)),
            ),
            cards@.len() == spec_table_pairs(rows.take(i - start)).len(),
            cards@.len() <= i,
        decreases lines.len() - i,
    {
        let line = &lines[i];
        proof {
            crate::text::lemma_lines_deep(lines, i as int);
            assert(line@ == lv[i as int]);
            assert(rows[i - start] == lv[i as int]);
            assert(rows.take(i - start + 1).drop_last() =~= rows.take(i - start));
            assert(rows.take(i - start + 1).last() == rows[i - start]);
        }
        let ghost prev_pairs = spec_table_pairs(rows.take(i - start));
        let cells = table_cells(line);
        if cells.len() >= 2 {
            assert(cards.len() < lines.len());
            let id: u64 = (cards.len() as u64) + 1;
            let term = &cells[0];
            let def = &cells[1];
            proof {
                crate::text::lemma_lines_deep(cells, 0);
                crate::text::lemma_lines_deep(cells, 1);
                assert(term@ == spec_table_cells(lv[i as int])[0]);
                assert(def@ == spec_table_cells(lv[i as int])[1]);
            }
            let card = Card { id, term: string_of_chars(term), definition: string_of_chars(def) };
            let ghost prev_cards = cards@;
            cards.push(card);
            proof {
                assert(spec_table_pair(rows[i - start]) == Some((term@, def@)));
                let pairs = spec_table_pairs(rows.take(i - start + 1));
                assert(pairs =~= prev_pairs.push((term@, def@)));
                assert(cards@ =~= prev_cards.push(card));
                assert(cards@.map_values(|c: Card| c@) =~= prev_cards.map_values(
                    |c: Card| c@,
                ).push(card@));
                assert(card@ == CardModel {
                    id: (prev_pairs.len() + 1) as u64,
                    term: term@,
                    definition: def@,
                });
                assert(cards@.map_values(|c: Card| c@) =~= spec_cards_from_pairs(pairs));
            }
        } else {
            proof {
                assert(cells.deep_view().len() < 2);
                assert(spec_table_pair(rows[i - start]) is None);
                assert(spec_table_pairs(rows.take(i - start + 1)) =~= prev_pairs);
            }
        }
        i = i + 1;
    }
    assert(rows.take(lines.len() - start) =~= rows);

    proof {
        assert(cards@.map_values(|c: Card| c@).len() == cards@.len());
        assert(spec_cards_from_pairs(spec_table_pairs(rows)).len() == spec_table_pairs(
            rows,
        ).len());
    }
    if cards.len() == 0 {
        return Err(ImportError::Unsupported(FormatKind::Markdown));
    }
    Ok(Deck { name: "Markdown Deck (Table)".to_owned(), description: None, cards })
}

/// One step of the fenced-block dialect. An opening fence clears the
/// pending fields; a closing fence emits a card when a term was set; inside
/// a block, `Term:` and `Definition:` lines (matched up to ASCII case) set
/// the fields.
pub open spec fn spec_block_step(
    st: (bool, Seq<char>, Seq<char>, Seq<(Seq<char>, Seq<char>)>),
    raw: Seq<char>,
) -> (bool, Seq<char>, Seq<char>, Seq<(Seq<char>, Seq<char>)>) {
    let line = spec_trim(raw);
    if line == "```card"@ {
        (true, Seq::<char>::empty(), Seq::<char>::empty(), st.3)
    } else if line == "```"@ {
        (
            false,
            st.1,
            st.2,
            if st.0 && st.1.len() > 0 {
                st.3.push((st.1, st.2))
            } else {
                st.3
            },
        )
    } else if st.0 {
        match spec_split_once_trimmed(line, seq![':']) {
            Some(p) => {
                if spec_eq_ignore_ascii_case(p.0, "term"@) {
                    (true, p.1, st.2, st.3)
                } else if spec_eq_ignore_ascii_case(p.0, "definition"@) {
                    (true, st.1, p.1, st.3)
                } else {
                    st
                }
            },
            None => st,
        }
    } else {
        st
    }
}

/// The fenced-block dialect run over a sequence of lines.
pub open spec fn spec_block_scan(lines: Seq<Seq<char>>) -> (
    bool,
    Seq<char>,
    Seq<char>,
    Seq<(Seq<char>, Seq<char>)>,
)
    decreases lines.len(),
{
    if lines.len() == 0 {
        (false, Seq::<char>::empty(), Seq::<char>::empty(), Seq::empty())
    } else {
        spec_block_step(spec_block_scan(lines.drop_last()), lines.last())
    }
}

/// What the fenced-block dialect yields on text `s`.
pub open spec fn spec_block_cards(s: Seq<char>) -> Option<Seq<CardModel>> {
    let pairs = spec_block_scan(spec_split(SepKind::Line, s)).3;
    if pairs.len() == 0 {
        None
    } else {
        Some(spec_cards_from_pairs(pairs))
    }
}

/// Fenced card blocks: a block opened by a `card` fence holding `Term:` and
/// `Definition:` lines becomes one card when the fence closes.
pub fn try_markdown_flashcard_blocks(raw: &str) -> (r: Result<Deck, ImportError>)
    ensures
        match r {
            Ok(deck) => spec_block_cards(raw@) == Some(deck@.cards) && deck@.name
                == "Markdown Deck (Card Blocks)"@ && deck@.description is None,
            Err(e) => spec_block_cards(raw@) is None && e == ImportError::Unsupported(
                FormatKind::Markdown,
            ),
        },
{
    let v = chars_vec(raw);
    let lines = split_chars(&v, SepKind::Line);
    let ghost lv = spec_split(SepKind::Line, raw@);
    assert(lines.deep_view() == lv);

    let open_fence = chars_vec("```card");
    let close_fence = chars_vec("```");
    let term_key = chars_vec("term");
    let def_key = chars_vec("definition");
    let mut colon: Vec<char> = Vec::new();
    colon.push(':');
    assert(colon@ =~= seq![':']);

    let mut in_block: bool = false;
    let mut term: Vec<char> = Vec::new();
    let mut def: Vec<char> = Vec::new();
    let mut cards: Vec<Card> = Vec::new();
    let mut i: usize = 0;
    assert(lv.take(0) =~= Seq::<Seq<char>>::empty());
    assert(term@ =~= Seq::<char>::empty());
    assert(def@ =~= Seq::<char>::empty());
    while i < lines.len()
        invariant
            0 <= i <= lines.len(),
            lv == lines.deep_view(),
            open_fence@ == "```card"@,
            close_fence@ == "```"@,
            term_key@ == "term"@,
            def_key@ == "definition"@,
            colon@ == seq![':'],
            ({
                let st = spec_block_scan(lv.take(i as int));
                &&& st.0 == in_block
                &&& st.1 == term@
                &&& st.2 == def@
                &&& cards@.map_values(|c: Card| c@) == spec_cards_from_pairs(st.3)
                &&& cards@.len() == st.3.len()
            }),
            cards@.len() <= i,
        decreases lines.len() - i,
    {
        let line_raw = &lines[i];
        assert(line_raw@ == lv[i as int]);
        proof {
            assert(lv.take(i + 1).drop_last() =~= lv.take(i as int));
            assert(lv.take(i + 1).last() == lv[i as int]);
        }
        let ghost st = spec_block_scan(lv.take(i as int));
        let line = trim_vec(line_raw);
        if eq_chars(&line, &open_fence) {
            in_block = true;
            term = Vec::new();
            def = Vec::new();
            assert(term@ =~= Seq::<char>::empty());
            assert(def@ =~= Seq::<char>::empty());
        } else if eq_chars(&line, &close_fence) {
            if in_block && term.len() > 0 {
                assert(cards.len() < lines.len());
                let id: u64 = (cards.len() as u64) + 1;
                let card = Card {
                    id,
                    term: string_of_chars(&term),
                    definition: string_of_chars(&def),
                };
                let ghost prev_cards = cards@;
                cards.push(card);
                proof {
                    assert(cards@ =~= prev_cards.push(card));
                    assert(cards@.map_values(|c: Card| c@) =~= prev_cards.map_values(
                        |c: Card| c@,
                    ).push(card@));
                    assert(cards@.map_values(|c: Card| c@) =~= spec_cards_from_pairs(
                        st.3.push((term@, def@)),
                    ));
                }
            }
            in_block = false;
        } else if in_block {
            match split_once_trimmed(&line, &colon) {
                Some((k, val)) => {
                    if eq_ignore_ascii_case(&k, &term_key) {
                        term = val;
                    } else if eq_ignore_ascii_case(&k, &def_key) {
                        def = val;
                    }
                },
                None => {},
            }
        }
        i = i + 1;
    }
    assert(lv.take(lines.len() as int) =~= lv);

    if cards.len() == 0 {
        return Err(ImportError::Unsupported(FormatKind::Markdown));
    }
    Ok(Deck { name: "Markdown Deck (Card Blocks)".to_owned(), description: None, cards })
}

/// Bullet-list dialect: `- term: definition` (or `* `) lines.
pub fn try_markdown_bullets(raw: &str) -> (r: Result<Deck, ImportError>)
    ensures
        ({
            let pairs = spec_line_pairs(MdLineRule::Bullet, spec_split(SepKind::Line, raw@));
            match r {
                Ok(deck) => pairs.len() > 0 && deck@.cards == spec_cards_from_pairs(pairs)
                    && deck@.name == "Markdown Deck (Bullets)"@ && deck@.description is None,
                Err(e) => pairs.len() == 0 && e == ImportError::Unsupported(FormatKind::Markdown),
            }
        }),
{
    let v = chars_vec(raw);
    let lines = split_chars(&v, SepKind::Line);
    let cards = collect_line_cards(&lines, MdLineRule::Bullet);
    proof {
        let pairs = spec_line_pairs(MdLineRule::Bullet, spec_split(SepKind::Line, raw@));
        assert(cards@.map_values(|c: Card| c@).len() == cards@.len());
        assert(spec_cards_from_pairs(pairs).len() == pairs.len());
    }
    if cards.len() == 0 {
        return Err(ImportError::Unsupported(FormatKind::Markdown));
    }
    Ok(Deck { name: "Markdown Deck (Bullets)".to_owned(), description: None, cards })
}

/// Bold-glossary dialect: `**Term**` then an em dash then the definition.
pub fn try_markdown_glossary_style(raw: &str) -> (r: Result<Deck, ImportError>)
    ensures
        ({
            let pairs = spec_line_pairs(MdLineRule::Glossary, spec_split(SepKind::Line, raw@));
            match r {
                Ok(deck) => pairs.len() > 0 && deck@.cards == spec_cards_from_pairs(pairs)
                    && deck@.name == "Markdown Deck (Glossary)"@ && deck@.description is None,
                Err(e) => pairs.len() == 0 && e == ImportError::Unsupported(FormatKind::Markdown),
            }
        }),
{
    let v = chars_vec(raw);
    let lines = split_chars(&v, SepKind::Line);
    let cards = collect_line_cards(&lines, MdLineRule::Glossary);
    proof {
        let pairs = spec_line_pairs(MdLineRule::Glossary, spec_split(SepKind::Line, raw@));
        assert(cards@.map_values(|c: Card| c@).len() == cards@.len());
        assert(spec_cards_from_pairs(pairs).len() == pairs.len());
    }
    if cards.len() == 0 {
        return Err(ImportError::Unsupported(FormatKind::Markdown));
    }
    Ok(Deck { name: "Markdown Deck (Glossary)".to_owned(), description: None, cards })
}

/// Bare `term: definition` dialect.
pub fn try_markdown_term_colon_def(raw: &str) -> (r: Result<Deck, ImportError>)
    ensures
        ({
            let pairs = spec_line_pairs(MdLineRule::Colon, spec_split(SepKind::Line, raw@));
            match r {
                Ok(deck) => pairs.len() > 0 && deck@.cards == spec_cards_from_pairs(pairs)
                    && deck@.name == "Markdown Deck (Colon Format)"@ && deck@.description is None,
                Err(e) => pairs.len() == 0 && e == ImportError::Unsupported(FormatKind::Markdown),
            }
        }),
{
    let v = chars_vec(raw);
    let lines = split_chars(&v, SepKind::Line);
    let cards = collect_line_cards(&lines, MdLineRule::Colon);
    proof {
        let pairs = spec_line_pairs(MdLineRule::Colon, spec_split(SepKind::Line, raw@));
        assert(cards@.map_values(|c: Card| c@).len() == cards@.len());
        assert(spec_cards_from_pairs(pairs).len() == pairs.len());
    }
    if cards.len() == 0 {
        return Err(ImportError::Unsupported(FormatKind::Markdown));
    }
    Ok(Deck { name: "Markdown Deck (Colon Format)".to_owned(), description: None, cards })
}

/// The cards of the first dialect that yields any, in dialect order —
/// what a successful Markdown import produces.
pub open spec fn spec_markdown_cards(s: Seq<char>) -> Option<Seq<CardModel>> {
    match spec_heading_cards(s) {
        Some(c) => Some(c),
        None => {
            let b = spec_line_pairs(MdLineRule::Bullet, spec_split(SepKind::Line, s));
            if b.len() > 0 {
                Some(spec_cards_from_pairs(b))
            } else {
                match spec_table_cards(s) {
                    Some(c) => Some(c),
                    None => match spec_block_cards(s) {
                        Some(c) => Some(c),
                        None => {
                            let g = spec_line_pairs(
                                MdLineRule::Glossary,
                                spec_split(SepKind::Line, s),
                            );
                            if g.len() > 0 {
                                Some(spec_cards_from_pairs(g))
                            } else {
                                let k = spec_line_pairs(
                                    MdLineRule::Colon,
                                    spec_split(SepKind::Line, s),
                                );
                                if k.len() > 0 {
                                    Some(spec_cards_from_pairs(k))
                                } else {
                                    None
                                }
                            }
                        },
                    },
                }
            }
        },
    }
}

/// Markdown import: try every dialect in order, strict to loose; the first
/// that yields at least one card wins, and when none does the import fails
/// with an unsupported-Markdown error — never an empty deck.
pub fn deck_from_markdown(raw: &str) -> (r: Result<Deck, ImportError>)
    ensures
        match spec_heading_cards(raw@) {
            Some(cards) => r is Ok && r->Ok_0@.cards == cards && r->Ok_0@.name
                == "Markdown Deck (Headings)"@,
            None => match spec_line_pairs(
                MdLineRule::Bullet,
                spec_split(SepKind::Line, raw@),
            ).len() > 0 {
                true => r is Ok && r->Ok_0@.cards == spec_cards_from_pairs(
                    spec_line_pairs(MdLineRule::Bullet, spec_split(SepKind::Line, raw@)),
                ) && r->Ok_0@.name == "Markdown Deck (Bullets)"@,
                false => match spec_table_cards(raw@) {
                    Some(cards) => r is Ok && r->Ok_0@.cards == cards && r->Ok_0@.name
                        == "Markdown Deck (Table)"@,
                    None => match spec_block_cards(raw@) {
                        Some(cards) => r is Ok && r->Ok_0@.cards == cards && r->Ok_0@.name
                            == "Markdown Deck (Card Blocks)"@,
                        None => match spec_line_pairs(
                            MdLineRule::Glossary,
                            spec_split(SepKind::Line, raw@),
                        ).len() > 0 {
                            true => r is Ok && r->Ok_0@.cards == spec_cards_from_pairs(
                                spec_line_pairs(
                                    MdLineRule::Glossary,
                                    spec_split(SepKind::Line, raw@),
                                ),
                            ) && r->Ok_0@.name == "Markdown Deck (Glossary)"@,
                            false => match spec_line_pairs(
                                MdLineRule::Colon,
                                spec_split(SepKind::Line, raw@),
                            ).len() > 0 {
                                true => r is Ok && r->Ok_0@.cards == spec_cards_from_pairs(
                                    spec_line_pairs(
                                        MdLineRule::Colon,
                                        spec_split(SepKind::Line, raw@),
                                    ),
                                ) && r->Ok_0@.name == "Markdown Deck (Colon Format)"@,
                                false => r == Result::<Deck, ImportError>::Err(
                                    ImportError::Unsupported(FormatKind::Markdown),
                                ),
                            },
                        },
                    },
                },
            },
        },
{
    match try_markdown_heading_pairs(raw) {
        Ok(deck) => Ok(deck),
        Err(_) => match try_markdown_bullets(raw) {
            Ok(deck) => Ok(deck),
            Err(_) => match try_markdown_table_2col(raw) {
                Ok(deck) => Ok(deck),
                Err(_) => match try_markdown_flashcard_blocks(raw) {
                    Ok(deck) => Ok(deck),
                    Err(_) => match try_markdown_glossary_style(raw) {
                        Ok(deck) => Ok(deck),
                        Err(_) => try_markdown_term_colon_def(raw),
                    },
                },
            },
        },
    }
}

} // verus!
