//! The interface-facing state model: plain data the presentation layer
//! carries, with the decisions it makes modelled as pure functions.
//!
//! Nothing here draws or reads input. The drawing loop hands events in as
//! plain values (an action chosen on a screen, a window width, a focus
//! index) and applies the state these functions decide. The deck-builder
//! state also lives here, with its conversion into a canonical deck
//! payload, and the line-per-entry codec of the custom-asset index files.
use vstd::prelude::*;

use crate::mflash::{
    opt_view, strs_view, MflashCard, MflashCardModel, MflashDeck, MflashDeckModel,
};
use crate::text::{
    chars_vec, spec_nonempty_trimmed, spec_split, spec_trim, split_chars, string_of_chars,
    trim_vec, SepKind,
};

verus! {

/// Window-width bands the layout adapts to.
#[derive(Debug, Clone, Copy, PartialEq, Eq, Structural)]
pub enum ScreenMode {
    Wide,
    Medium,
    Narrow,
    UltraNarrow,
}

/// The screens of the application.
#[derive(Debug, Clone, Copy, PartialEq, Eq, Structural)]
pub enum Screen {
    MainMenu,
    DeckList,
    Study,
    Options,
    Completion,
    DeckBuilder,
}

/// What the user chose on the main menu.
#[derive(Debug, Clone, Copy, PartialEq, Eq, Structural)]
pub enum MainMenuAction {
    NoAction,
    ChooseDeck,
    OpenDeckBuilder,
    OpenOptions,
}

/// What the user chose on the completion screen.
#[derive(Debug, Clone, Copy, PartialEq, Eq, Structural)]
pub enum CompletionAction {
    NoAction,
    BackToDecks,
    StudyAgain,
}

/// What the study widgets report back.
#[derive(Debug, Clone, Copy, PartialEq, Eq, Structural)]
pub enum StudyAction {
    NoAction,
    ChoseTerm,
    BackToDeckList,
}

/// What the study footer reports back.
#[derive(Debug, Clone, Copy, PartialEq, Eq, Structural)]
pub struct FooterResponse {
    pub back_clicked: bool,
}

/// How study cards choose their color.
#[derive(Debug, Clone, Copy, PartialEq, Eq, Structural)]
pub enum CardColorMode {
    BuiltIn,
    Custom,
}

impl Default for CardColorMode {
    /// Built-in colors by default.
    fn default() -> (r: CardColorMode)
        ensures
            r == CardColorMode::BuiltIn,
    {
        CardColorMode::BuiltIn
    }
}

/// Where the tiling background comes from.
#[derive(Debug, Clone, Copy, PartialEq, Eq, Structural)]
pub enum BackgroundChoice {
    BuiltIn,
    Custom,
}

impl Default for BackgroundChoice {
    /// The built-in background by default.
    fn default() -> (r: BackgroundChoice)
        ensures
            r == BackgroundChoice::BuiltIn,
    {
        BackgroundChoice::BuiltIn
    }
}

/// Which font family the interface uses.
#[derive(Debug, Clone, Copy, PartialEq, Eq, Structural)]
pub enum FontChoice {
    MorflashSerif,
    Pixel,
    System,
    Custom,
}

impl Default for FontChoice {
    /// The serif face by default.
    fn default() -> (r: FontChoice)
        ensures
            r == FontChoice::MorflashSerif,
    {
        FontChoice::MorflashSerif
    }
}

/// Where a sound comes from.
#[derive(Debug, Clone, Copy, PartialEq, Eq, Structural)]
pub enum SoundSource {
    BuiltIn,
    Custom,
}

impl Default for SoundSource {
    /// The built-in sound by default.
    fn default() -> (r: SoundSource)
        ensures
            r == SoundSource::BuiltIn,
    {
        SoundSource::BuiltIn
    }
}

/// Configuration of one sound slot.
#[derive(Debug, Clone)]
pub struct SoundSlotConfig {
    pub source: SoundSource,
    /// Path to the custom sound file, if any.
    pub custom_path: Option<String>,
}

impl Default for SoundSlotConfig {
    /// Built-in source, no custom file.
    fn default() -> (r: SoundSlotConfig)
        ensures
            r.source == SoundSource::BuiltIn,
            r.custom_path is None,
    {
        SoundSlotConfig { source: SoundSource::BuiltIn, custom_path: None }
    }
}

/// A language offered by the deck-builder dropdowns.
#[derive(Debug, Clone)]
pub struct LanguageEntry {
    /// Human-readable name, such as "English".
    pub name: String,
    /// Language code, such as "en" or "ja".
    pub code: String,
    /// Whether the dropdowns offer it.
    pub enabled: bool,
}

/// How a freshly added builder card starts out.
#[derive(Debug, Clone, Copy, PartialEq, Eq, Structural)]
pub enum NewCardMode {
    /// Completely blank.
    Blank,
    /// Copying the previous card's structure.
    ClonePrevious,
}

impl Default for NewCardMode {
    /// Blank cards by default.
    fn default() -> (r: NewCardMode)
        ensures
            r == NewCardMode::Blank,
    {
        NewCardMode::Blank
    }
}

/// The layout band for a window width given in whole points.
pub open spec fn spec_screen_mode(width: u32) -> ScreenMode {
    if width >= 800 {
        ScreenMode::Wide
    } else if width >= 500 {
        ScreenMode::Medium
    } else if width >= 350 {
        ScreenMode::Narrow
    } else {
        ScreenMode::UltraNarrow
    }
}

/// Decide the layout band; the executable twin of [`spec_screen_mode`].
pub fn screen_mode_for_width(width: u32) -> (r: ScreenMode)
    ensures
        r == spec_screen_mode(width),
{
    if width >= 800 {
        ScreenMode::Wide
    } else if width >= 500 {
        ScreenMode::Medium
    } else if width >= 350 {
        ScreenMode::Narrow
    } else {
        ScreenMode::UltraNarrow
    }
}

/// The screen a completed main-menu action moves to, if any: choosing a
/// deck starts a study session, the other two open their screens.
pub fn screen_after_main_menu(action: MainMenuAction) -> (r: Option<Screen>)
    ensures
        action == MainMenuAction::NoAction ==> r is None,
        action == MainMenuAction::ChooseDeck ==> r == Some(Screen::Study),
        action == MainMenuAction::OpenDeckBuilder ==> r == Some(Screen::DeckBuilder),
        action == MainMenuAction::OpenOptions ==> r == Some(Screen::Options),
{
    match action {
        MainMenuAction::NoAction => None,
        MainMenuAction::ChooseDeck => Some(Screen::Study),
        MainMenuAction::OpenDeckBuilder => Some(Screen::DeckBuilder),
        MainMenuAction::OpenOptions => Some(Screen::Options),
    }
}

/// The screen a completion-screen action moves to, if any.
pub fn screen_after_completion(action: CompletionAction) -> (r: Option<Screen>)
    ensures
        action == CompletionAction::NoAction ==> r is None,
        action == CompletionAction::BackToDecks ==> r == Some(Screen::DeckList),
        action == CompletionAction::StudyAgain ==> r == Some(Screen::Study),
{
    match action {
        CompletionAction::NoAction => None,
        CompletionAction::BackToDecks => Some(Screen::DeckList),
        CompletionAction::StudyAgain => Some(Screen::Study),
    }
}

/// Move the keyboard focus one menu item up, stopping at the first.
pub fn menu_focus_up(focus: usize) -> (r: usize)
    ensures
        r == (if focus > 0 { focus - 1 } else { 0int }),
{
    if focus > 0 {
        focus - 1
    } else {
        0
    }
}

/// Move the keyboard focus one menu item down, stopping at the last of
/// `items` entries.
pub fn menu_focus_down(focus: usize, items: usize) -> (r: usize)
    requires
        items >= 1,
    ensures
        r == (if focus + 1 < items { focus + 1 } else { items - 1 }),
{
    if focus < items - 1 {
        focus + 1
    } else {
        items - 1
    }
}

/// One flashcard being edited in the deck builder.
#[derive(Debug, Clone)]
pub struct BuilderCard {
    pub term: String,
    pub definition: String,
    /// Language code for the term, for example "en" or "ja".
    pub term_lang: String,
    /// Language code for the definition.
    pub def_lang: String,
    /// Optional hyperlink, kept as entered.
    pub hyperlink: String,
    /// Optional media path, kept as entered.
    pub media_path: String,
    /// Per-card tags.
    pub tags: Vec<String>,
    /// Example sentences.
    pub examples: Vec<String>,
}

/// Mathematical model of a [`BuilderCard`].
pub ghost struct BuilderCardModel {
    pub term: Seq<char>,
    pub definition: Seq<char>,
    pub term_lang: Seq<char>,
    pub def_lang: Seq<char>,
    pub hyperlink: Seq<char>,
    pub media_path: Seq<char>,
    pub tags: Seq<Seq<char>>,
    pub examples: Seq<Seq<char>>,
}

impl View for BuilderCard {
    type V = BuilderCardModel;

    open spec fn view(&self) -> BuilderCardModel {
        BuilderCardModel {
            term: self.term@,
            definition: self.definition@,
            term_lang: self.term_lang@,
            def_lang: self.def_lang@,
            hyperlink: self.hyperlink@,
            media_path: self.media_path@,
            tags: strs_view(self.tags@),
            examples: strs_view(self.examples@),
        }
    }
}

/// The whole deck-builder screen state.
#[derive(Debug, Clone)]
pub struct DeckBuilderState {
    /// Suggested file name, without extension.
    pub file_name: String,
    /// Deck-level tags, comma- or whitespace-separated as typed.
    pub tags: String,
    /// Optional deck thumbnail or media path.
    pub media_path: String,
    /// All cards being edited.
    pub cards: Vec<BuilderCard>,
}

/// Mathematical model of a [`DeckBuilderState`].
pub ghost struct DeckBuilderStateModel {
    pub file_name: Seq<char>,
    pub tags: Seq<char>,
    pub media_path: Seq<char>,
    pub cards: Seq<BuilderCardModel>,
}

impl View for DeckBuilderState {
    type V = DeckBuilderStateModel;

    open spec fn view(&self) -> DeckBuilderStateModel {
        DeckBuilderStateModel {
            file_name: self.file_name@,
            tags: self.tags@,
            media_path: self.media_path@,
            cards: self.cards@.map_values(|c: BuilderCard| c@),
        }
    }
}

/// A text field as optional metadata: trimmed, and absent when that leaves
/// nothing.
pub open spec fn spec_opt_trimmed(s: Seq<char>) -> Option<Seq<char>> {
    if spec_trim(s).len() == 0 {
        None
    } else {
        Some(spec_trim(s))
    }
}

/// The first card whose term language survives trimming sets the deck
/// default.
pub open spec fn spec_first_term_lang(cards: Seq<BuilderCardModel>) -> Option<Seq<char>>
    decreases cards.len(),
{
    if cards.len() == 0 {
        None
    } else if spec_trim(cards[0].term_lang).len() > 0 {
        Some(spec_trim(cards[0].term_lang))
    } else {
        spec_first_term_lang(cards.drop_first())
    }
}

/// The first card whose definition language survives trimming sets the
/// deck default.
pub open spec fn spec_first_def_lang(cards: Seq<BuilderCardModel>) -> Option<Seq<char>>
    decreases cards.len(),
{
    if cards.len() == 0 {
        None
    } else if spec_trim(cards[0].def_lang).len() > 0 {
        Some(spec_trim(cards[0].def_lang))
    } else {
        spec_first_def_lang(cards.drop_first())
    }
}

/// The payload card a builder card exports to: texts as typed, the
/// optional fields trimmed and absent when empty, tags and examples kept.
pub open spec fn spec_builder_card_mflash(c: BuilderCardModel) -> MflashCardModel {
    MflashCardModel {
        term: c.term,
        definition: c.definition,
        term_lang: spec_opt_trimmed(c.term_lang),
        def_lang: spec_opt_trimmed(c.def_lang),
        hyperlink: spec_opt_trimmed(c.hyperlink),
        media: spec_opt_trimmed(c.media_path),
        tags: c.tags,
        examples: c.examples,
    }
}

/// The base deck name: the trimmed file name, or a fixed fallback when
/// that leaves nothing.
pub open spec fn spec_builder_base_name(file_name: Seq<char>) -> Seq<char> {
    if spec_trim(file_name).len() == 0 {
        "new_deck"@
    } else {
        spec_trim(file_name)
    }
}

/// The payload a builder state exports to: title from the file name, the
/// tag field doubling as description and as the whitespace- or
/// comma-separated deck tag list, per-card languages with the first
/// non-empty one as the deck default.
pub open spec fn spec_builder_mflash(st: DeckBuilderStateModel) -> MflashDeckModel {
    MflashDeckModel {
        format: "mflash"@,
        version: 1,
        title: spec_builder_base_name(st.file_name),
        description: spec_opt_trimmed(st.tags),
        snippet: None,
        default_term_lang: spec_first_term_lang(st.cards),
        default_def_lang: spec_first_def_lang(st.cards),
        deck_tags: spec_nonempty_trimmed(spec_split(SepKind::Tag, st.tags)),
        cover_media: None,
        cards: st.cards.map_values(|c: BuilderCardModel| spec_builder_card_mflash(c)),
    }
}

/// A text field as optional metadata; the executable twin of
/// [`spec_opt_trimmed`].
fn opt_trimmed(s: &String) -> (r: Option<String>)
    ensures
        opt_view(r) == spec_opt_trimmed(s@),
{
    let t = trim_vec(&chars_vec(s.as_str()));
    if t.len() == 0 {
        None
    } else {
        Some(string_of_chars(&t))
    }
}

/// The deck-default term language: the first card's non-empty trimmed
/// entry.
#[verifier::loop_isolation(false)]
fn first_term_lang(cards: &Vec<BuilderCard>) -> (r: Option<String>)
    ensures
        opt_view(r) == spec_first_term_lang(cards@.map_values(|c: BuilderCard| c@)),
{
    let ghost cm = cards@.map_values(|c: BuilderCard| c@);
    let mut i: usize = 0;
    assert(cm.skip(0) =~= cm);
    while i < cards.len()
        invariant
            0 <= i <= cards@.len(),
            spec_first_term_lang(cm) == spec_first_term_lang(cm.skip(i as int)),
        decreases cards@.len() - i,
    {
        proof {
            assert(cm.skip(i as int)[0] == cm[i as int]);
            assert(cm.skip(i as int).drop_first() =~= cm.skip(i + 1));
            assert(cm[i as int] == cards@[i as int]@);
        }
        let t = trim_vec(&chars_vec(cards[i].term_lang.as_str()));
        if t.len() > 0 {
            return Some(string_of_chars(&t));
        }
        i = i + 1;
    }
    assert(cm.skip(cards@.len() as int) =~= Seq::<BuilderCardModel>::empty());
    None
}

/// The deck-default definition language: the first card's non-empty
/// trimmed entry.
#[verifier::loop_isolation(false)]
fn first_def_lang(cards: &Vec<BuilderCard>) -> (r: Option<String>)
    ensures
        opt_view(r) == spec_first_def_lang(cards@.map_values(|c: BuilderCard| c@)),
{
    let ghost cm = cards@.map_values(|c: BuilderCard| c@);
    let mut i: usize = 0;
    assert(cm.skip(0) =~= cm);
    while i < cards.len()
        invariant
            0 <= i <= cards@.len(),
            spec_first_def_lang(cm) == spec_first_def_lang(cm.skip(i as int)),
        decreases cards@.len() - i,
    {
        proof {
            assert(cm.skip(i as int)[0] == cm[i as int]);
            assert(cm.skip(i as int).drop_first() =~= cm.skip(i + 1));
            assert(cm[i as int] == cards@[i as int]@);
        }
        let t = trim_vec(&chars_vec(cards[i].def_lang.as_str()));
        if t.len() > 0 {
            return Some(string_of_chars(&t));
        }
        i = i + 1;
    }
    assert(cm.skip(cards@.len() as int) =~= Seq::<BuilderCardModel>::empty());
    None
}

/// Convert the builder state into a canonical deck payload; the executable
/// twin of [`spec_builder_mflash`].
#[verifier::loop_isolation(false)]
pub fn builder_to_mflash(st: &DeckBuilderState) -> (r: MflashDeck)
    ensures
        r@ == spec_builder_mflash(st@),
{
    let ghost cm = st.cards@.map_values(|c: BuilderCard| c@);
    let default_term_lang = first_term_lang(&st.cards);
    let default_def_lang = first_def_lang(&st.cards);
    assert(opt_view(default_term_lang) == spec_first_term_lang(cm));
    assert(opt_view(default_def_lang) == spec_first_def_lang(cm));

    let mut cards: Vec<MflashCard> = Vec::new();
    let mut i: usize = 0;
    while i < st.cards.len()
        invariant
            0 <= i <= st.cards@.len(),
            cards@.len() == i,
            forall|j: int|
                0 <= j < i ==> (#[trigger] cards@[j])@ == spec_builder_card_mflash(cm[j]),
        decreases st.cards@.len() - i,
    {
        let c = &st.cards[i];
        let mc = MflashCard {
            term: c.term.clone(),
            definition: c.definition.clone(),
            term_lang: opt_trimmed(&c.term_lang),
            def_lang: opt_trimmed(&c.def_lang),
            hyperlink: opt_trimmed(&c.hyperlink),
            media: opt_trimmed(&c.media_path),
            tags: c.tags.clone(),
            examples: c.examples.clone(),
        };
        proof {
            assert(cm[i as int] == st.cards@[i as int]@);
            assert(mc@.tags =~= cm[i as int].tags);
            assert(mc@.examples =~= cm[i as int].examples);
            assert(mc@ == spec_builder_card_mflash(cm[i as int]));
        }
        cards.push(mc);
        i = i + 1;
    }

    let base = {
        let t = trim_vec(&chars_vec(st.file_name.as_str()));
        if t.len() == 0 {
            "new_deck".to_owned()
        } else {
            string_of_chars(&t)
        }
    };

    let tag_pieces = split_chars(&chars_vec(st.tags.as_str()), SepKind::Tag);
    let ghost pv = spec_split(SepKind::Tag, st.tags@);
    let mut deck_tags: Vec<String> = Vec::new();
    let mut i: usize = 0;
    assert(pv.take(0) =~= Seq::<Seq<char>>::empty());
    assert(strs_view(deck_tags@) =~= spec_nonempty_trimmed(pv.take(0)));
    while i < tag_pieces.len()
        invariant
            0 <= i <= tag_pieces@.len(),
            strs_view(deck_tags@) =~= spec_nonempty_trimmed(pv.take(i as int)),
        decreases tag_pieces@.len() - i,
    {
        proof {
            crate::text::lemma_lines_deep(tag_pieces, i as int);
            assert(pv.take(i + 1).drop_last() =~= pv.take(i as int));
            assert(pv.take(i + 1).last() == pv[i as int]);
        }
        let ghost prev = deck_tags@;
        let t = trim_vec(&tag_pieces[i]);
        if t.len() > 0 {
            deck_tags.push(string_of_chars(&t));
            proof {
                assert(deck_tags@ =~= prev.push(deck_tags@[deck_tags@.len() - 1]));
                assert(strs_view(deck_tags@) =~= strs_view(prev).push(
                    deck_tags@[deck_tags@.len() - 1]@,
                ));
                assert(strs_view(deck_tags@) =~= spec_nonempty_trimmed(pv.take(i + 1)));
            }
        } else {
            assert(spec_nonempty_trimmed(pv.take(i + 1)) =~= spec_nonempty_trimmed(
                pv.take(i as int),
            ));
        }
        i = i + 1;
    }
    assert(pv.take(tag_pieces@.len() as int) =~= pv);

    let r = MflashDeck {
        format: "mflash".to_owned(),
        version: 1,
        title: base,
        description: opt_trimmed(&st.tags),
        snippet: None,
        default_term_lang,
        default_def_lang,
        deck_tags,
        cover_media: None,
        cards,
    };
    proof {
        assert(r@.cards =~= spec_builder_mflash(st@).cards);
        assert(r@.deck_tags =~= spec_builder_mflash(st@).deck_tags);
    }
    r
}

/// A character as a file name keeps it: ASCII letters, digits, hyphen and
/// underscore pass; anything else becomes an underscore.
pub open spec fn spec_safe_char(c: char) -> char {
    let n = c as u32;
    if (0x30 <= n && n <= 0x39) || (0x41 <= n && n <= 0x5A) || (0x61 <= n && n <= 0x7A) || c == '-'
        || c == '_' {
        c
    } else {
        '_'
    }
}

/// The file-safe form of a deck name: the base name with every character
/// outside ASCII letters, digits, hyphen and underscore replaced.
pub open spec fn spec_safe_file_name(name: Seq<char>) -> Seq<char> {
    spec_builder_base_name(name).map_values(|c: char| spec_safe_char(c))
}

/// Derive a safe file stem from a typed deck name; the executable twin of
/// [`spec_safe_file_name`].
pub fn safe_file_name(name: &str) -> (r: String)
    ensures
        r@ == spec_safe_file_name(name@),
{
    let t = trim_vec(&chars_vec(name));
    let base = if t.len() == 0 {
        chars_vec("new_deck")
    } else {
        t
    };
    assert(base@ == spec_builder_base_name(name@));
    let mut out: Vec<char> = Vec::new();
    let mut i: usize = 0;
    while i < base.len()
        invariant
            0 <= i <= base@.len(),
            out@.len() == i,
            forall|j: int| 0 <= j < i ==> out@[j] == spec_safe_char(base@[j]),
        decreases base@.len() - i,
    {
        let c = base[i];
        let n = c as u32;
        let keep = (0x30 <= n && n <= 0x39) || (0x41 <= n && n <= 0x5A) || (0x61 <= n && n
            <= 0x7A) || c == '-' || c == '_';
        if keep {
            out.push(c);
        } else {
            out.push('_');
        }
        i = i + 1;
    }
    assert(out@ =~= spec_safe_file_name(name@));
    string_of_chars(&out)
}

/// The entries of a custom-asset index file: one per line, trimmed, empty
/// lines dropped.
pub open spec fn spec_index_entries(s: Seq<char>) -> Seq<Seq<char>> {
    spec_nonempty_trimmed(spec_split(SepKind::Line, s))
}

/// Parse an index file's text; the executable twin of
/// [`spec_index_entries`].
#[verifier::loop_isolation(false)]
pub fn parse_index_text(text: &str) -> (r: Vec<String>)
    ensures
        strs_view(r@) == spec_index_entries(text@),
{
    let lines = split_chars(&chars_vec(text), SepKind::Line);
    let ghost lv = spec_split(SepKind::Line, text@);
    let mut out: Vec<String> = Vec::new();
    let mut i: usize = 0;
    assert(lv.take(0) =~= Seq::<Seq<char>>::empty());
    assert(strs_view(out@) =~= spec_nonempty_trimmed(lv.take(0)));
    while i < lines.len()
        invariant
            0 <= i <= lines@.len(),
            strs_view(out@) =~= spec_nonempty_trimmed(lv.take(i as int)),
        decreases lines@.len() - i,
    {
        proof {
            crate::text::lemma_lines_deep(lines, i as int);
            assert(lv.take(i + 1).drop_last() =~= lv.take(i as int));
            assert(lv.take(i + 1).last() == lv[i as int]);
        }
        let ghost prev = out@;
        let t = trim_vec(&lines[i]);
        if t.len() > 0 {
            out.push(string_of_chars(&t));
            proof {
                assert(out@ =~= prev.push(out@[out@.len() - 1]));
                assert(strs_view(out@) =~= strs_view(prev).push(out@[out@.len() - 1]@));
                assert(strs_view(out@) =~= spec_nonempty_trimmed(lv.take(i + 1)));
            }
        } else {
            assert(spec_nonempty_trimmed(lv.take(i + 1)) =~= spec_nonempty_trimmed(
                lv.take(i as int),
            ));
        }
        i = i + 1;
    }
    assert(lv.take(lines@.len() as int) =~= lv);
    out
}

/// Entries joined with single newlines, as the index file stores them.
pub open spec fn spec_join_lines(l: Seq<Seq<char>>) -> Seq<char>
    decreases l.len(),
{
    if l.len() == 0 {
        Seq::empty()
    } else if l.len() == 1 {
        l[0]
    } else {
        spec_join_lines(l.drop_last()) + seq!['\n'] + l.last()
    }
}

/// Render an index file's text; the executable twin of
/// [`spec_join_lines`].
#[verifier::loop_isolation(false)]
pub fn render_index_text(list: &Vec<String>) -> (r: String)
    ensures
        r@ == spec_join_lines(strs_view(list@)),
{
    let ghost lv = strs_view(list@);
    let mut out: Vec<char> = Vec::new();
    let mut i: usize = 0;
    assert(lv.take(0) =~= Seq::<Seq<char>>::empty());
    while i < list.len()
        invariant
            0 <= i <= list@.len(),
            out@ == spec_join_lines(lv.take(i as int)),
        decreases list@.len() - i,
    {
        proof {
            assert(lv[i as int] == list@[i as int]@);
            assert(lv.take(i + 1).drop_last() =~= lv.take(i as int));
            assert(lv.take(i + 1).last() == lv[i as int]);
        }
        let ghost prev = out@;
        if i > 0 {
            out.push('\n');
        }
        let mut piece = chars_vec(list[i].as_str());
        out.append(&mut piece);
        proof {
            if i == 0 {
                assert(lv.take(1).len() == 1);
                assert(out@ =~= lv[0]);
                assert(out@ =~= spec_join_lines(lv.take(1)));
            } else {
                assert(out@ =~= spec_join_lines(lv.take(i as int)) + seq!['\n'] + lv[i as int]);
                assert(out@ =~= spec_join_lines(lv.take(i + 1)));
            }
        }
        i = i + 1;
    }
    assert(lv.take(list@.len() as int) =~= lv);
    string_of_chars(&out)
}

} // verus!
