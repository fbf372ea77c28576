//! The values that the lookup, the store and the popup exchange, with their
//! mathematical views.
use vstd::prelude::*;

verus! {

// ---------------------------------------------------------------------------
// Views.
pub struct SenseView {
    pub part_of_speech: Seq<char>,
    pub definitions: Seq<Seq<char>>,
}

pub struct EntryView {
    pub word: Seq<char>,
    pub phonetic: Option<Seq<char>>,
    pub senses: Seq<SenseView>,
}

pub struct KeywordView {
    pub word: Seq<char>,
    pub part_of_speech: Option<Seq<char>>,
    pub brief_definition: Seq<char>,
}

pub struct WordPayloadView {
    pub source_text: Seq<char>,
    pub normalized_text: Seq<char>,
    pub lemma: Seq<char>,
    pub phonetic: Option<Seq<char>>,
    pub senses: Seq<SenseView>,
}

pub struct PhrasePayloadView {
    pub source_text: Seq<char>,
    pub normalized_text: Seq<char>,
    pub translation: Seq<char>,
    pub keywords: Seq<KeywordView>,
}

pub enum PayloadView {
    Word(WordPayloadView),
    Phrase(PhrasePayloadView),
    Sentence(PhrasePayloadView),
}

impl PayloadView {
    pub open spec fn normalized_text(self) -> Seq<char> {
        match self {
            PayloadView::Word(p) => p.normalized_text,
            PayloadView::Phrase(p) => p.normalized_text,
            PayloadView::Sentence(p) => p.normalized_text,
        }
    }

    pub open spec fn source_text(self) -> Seq<char> {
        match self {
            PayloadView::Word(p) => p.source_text,
            PayloadView::Phrase(p) => p.source_text,
            PayloadView::Sentence(p) => p.source_text,
        }
    }

    /// The lemma of a word, the source text of a phrase or sentence.
    pub open spec fn display_title(self) -> Seq<char> {
        match self {
            PayloadView::Word(p) => p.lemma,
            PayloadView::Phrase(p) => p.source_text,
            PayloadView::Sentence(p) => p.source_text,
        }
    }

    pub open spec fn entry_type(self) -> Seq<char> {
        match self {
            PayloadView::Word(_) => "word"@,
            PayloadView::Phrase(_) => "phrase"@,
            PayloadView::Sentence(_) => "sentence"@,
        }
    }
}

pub struct LookupResultView {
    pub payload: PayloadView,
    pub is_starred: bool,
}

pub struct StarredView {
    pub id: Seq<char>,
    pub entry_type: Seq<char>,
    pub source_text: Seq<char>,
    pub normalized_text: Seq<char>,
    pub display_title: Seq<char>,
    pub payload: PayloadView,
    pub created_at: Seq<char>,
    pub updated_at: Seq<char>,
}

pub struct ConfigView {
    pub hotkey: Seq<char>,
    pub trigger_source: Seq<char>,
    pub auto_start: bool,
    pub max_text_length: usize,
    pub close_on_focus_loss: bool,
    pub popup_width: u32,
    pub popup_height: u32,
}

// ---------------------------------------------------------------------------
// Configuration.
/// The user's settings. The popup's font scale, a floating-point number, is
/// kept beside this by the application.
#[derive(Debug)]
pub struct AppConfig {
    pub hotkey: String,
    pub trigger_source: String,
    pub auto_start: bool,
    pub max_text_length: usize,
    pub close_on_focus_loss: bool,
    pub popup_width: u32,
    pub popup_height: u32,
}

impl View for AppConfig {
    type V = ConfigView;

    open spec fn view(&self) -> ConfigView {
        ConfigView {
            hotkey: self.hotkey@,
            trigger_source: self.trigger_source@,
            auto_start: self.auto_start,
            max_text_length: self.max_text_length,
            close_on_focus_loss: self.close_on_focus_loss,
            popup_width: self.popup_width,
            popup_height: self.popup_height,
        }
    }
}

/// The settings of a fresh installation.
pub open spec fn default_config() -> ConfigView {
    ConfigView {
        hotkey: "Ctrl+Shift+D"@,
        trigger_source: "keyboard"@,
        auto_start: false,
        max_text_length: 280,
        close_on_focus_loss: true,
        popup_width: 380,
        popup_height: 400,
    }
}

impl Default for AppConfig {
    fn default() -> (r: Self)
        ensures
            r@ == default_config(),
    {
        AppConfig {
            hotkey: String::from_str("Ctrl+Shift+D"),
            trigger_source: String::from_str("keyboard"),
            auto_start: false,
            max_text_length: 280,
            close_on_focus_loss: true,
            popup_width: 380,
            popup_height: 400,
        }
    }
}

impl Clone for AppConfig {
    fn clone(&self) -> (r: Self)
        ensures
            r@ == self@,
    {
        AppConfig {
            hotkey: self.hotkey.clone(),
            trigger_source: self.trigger_source.clone(),
            auto_start: self.auto_start,
            max_text_length: self.max_text_length,
            close_on_focus_loss: self.close_on_focus_loss,
            popup_width: self.popup_width,
            popup_height: self.popup_height,
        }
    }
}

// ---------------------------------------------------------------------------
// Dictionary data.
#[derive(Debug)]
pub struct DictionarySense {
    pub part_of_speech: String,
    pub definitions: Vec<String>,
}

impl View for DictionarySense {
    type V = SenseView;

    open spec fn view(&self) -> SenseView {
        SenseView {
            part_of_speech: self.part_of_speech@,
            definitions: self.definitions.deep_view(),
        }
    }
}

impl DeepView for DictionarySense {
    type V = SenseView;

    open spec fn deep_view(&self) -> SenseView {
        self@
    }
}

pub fn clone_strings(v: &Vec<String>) -> (r: Vec<String>)
    ensures
        r.deep_view() == v.deep_view(),
{
    let r = v.clone();
    assert(r.deep_view() =~= v.deep_view());
    r
}

impl Clone for DictionarySense {
    fn clone(&self) -> (r: Self)
        ensures
            r@ == self@,
    {
        DictionarySense {
            part_of_speech: self.part_of_speech.clone(),
            definitions: clone_strings(&self.definitions),
        }
    }
}

pub fn clone_senses(v: &Vec<DictionarySense>) -> (r: Vec<DictionarySense>)
    ensures
        r.deep_view() == v.deep_view(),
{
    let r = v.clone();
    assert(r.deep_view() =~= v.deep_view());
    r
}

#[derive(Debug)]
pub struct DictionaryEntry {
    pub word: String,
    pub phonetic: Option<String>,
    pub senses: Vec<DictionarySense>,
}

impl View for DictionaryEntry {
    type V = EntryView;

    open spec fn view(&self) -> EntryView {
        EntryView {
            word: self.word@,
            phonetic: self.phonetic.deep_view(),
            senses: self.senses.deep_view(),
        }
    }
}

impl DeepView for DictionaryEntry {
    type V = EntryView;

    open spec fn deep_view(&self) -> EntryView {
        self@
    }
}

pub fn clone_opt_string(v: &Option<String>) -> (r: Option<String>)
    ensures
        r.deep_view() == v.deep_view(),
{
    match v {
        Some(s) => Some(s.clone()),
        None => None,
    }
}

impl Clone for DictionaryEntry {
    fn clone(&self) -> (r: Self)
        ensures
            r@ == self@,
    {
        DictionaryEntry {
            word: self.word.clone(),
            phonetic: clone_opt_string(&self.phonetic),
            senses: clone_senses(&self.senses),
        }
    }
}

#[derive(Debug)]
pub struct KeywordDefinition {
    pub word: String,
    pub part_of_speech: Option<String>,
    pub brief_definition: String,
}

impl View for KeywordDefinition {
    type V = KeywordView;

    open spec fn view(&self) -> KeywordView {
        KeywordView {
            word: self.word@,
            part_of_speech: self.part_of_speech.deep_view(),
            brief_definition: self.brief_definition@,
        }
    }
}

impl DeepView for KeywordDefinition {
    type V = KeywordView;

    open spec fn deep_view(&self) -> KeywordView {
        self@
    }
}

impl Clone for KeywordDefinition {
    fn clone(&self) -> (r: Self)
        ensures
            r@ == self@,
    {
        KeywordDefinition {
            word: self.word.clone(),
            part_of_speech: clone_opt_string(&self.part_of_speech),
            brief_definition: self.brief_definition.clone(),
        }
    }
}

pub fn clone_keywords(v: &Vec<KeywordDefinition>) -> (r: Vec<KeywordDefinition>)
    ensures
        r.deep_view() == v.deep_view(),
{
    let r = v.clone();
    assert(r.deep_view() =~= v.deep_view());
    r
}

// ---------------------------------------------------------------------------
// Lookup payloads.
#[derive(Debug)]
pub struct WordLookupPayload {
    pub source_text: String,
    pub normalized_text: String,
    pub lemma: String,
    pub phonetic: Option<String>,
    pub senses: Vec<DictionarySense>,
}

impl View for WordLookupPayload {
    type V = WordPayloadView;

    open spec fn view(&self) -> WordPayloadView {
        WordPayloadView {
            source_text: self.source_text@,
            normalized_text: self.normalized_text@,
            lemma: self.lemma@,
            phonetic: self.phonetic.deep_view(),
            senses: self.senses.deep_view(),
        }
    }
}

impl Clone for WordLookupPayload {
    fn clone(&self) -> (r: Self)
        ensures
            r@ == self@,
    {
        WordLookupPayload {
            source_text: self.source_text.clone(),
            normalized_text: self.normalized_text.clone(),
            lemma: self.lemma.clone(),
            phonetic: clone_opt_string(&self.phonetic),
            senses: clone_senses(&self.senses),
        }
    }
}

#[derive(Debug)]
pub struct PhraseLookupPayload {
    pub source_text: String,
    pub normalized_text: String,
    pub translation: String,
    pub keywords: Vec<KeywordDefinition>,
}

impl View for PhraseLookupPayload {
    type V = PhrasePayloadView;

    open spec fn view(&self) -> PhrasePayloadView {
        PhrasePayloadView {
            source_text: self.source_text@,
            normalized_text: self.normalized_text@,
            translation: self.translation@,
            keywords: self.keywords.deep_view(),
        }
    }
}

impl Clone for PhraseLookupPayload {
    fn clone(&self) -> (r: Self)
        ensures
            r@ == self@,
    {
        PhraseLookupPayload {
            source_text: self.source_text.clone(),
            normalized_text: self.normalized_text.clone(),
            translation: self.translation.clone(),
            keywords: clone_keywords(&self.keywords),
        }
    }
}

/// What a lookup found: a single word, a phrase, or a sentence.
#[derive(Debug)]
pub enum LookupPayload {
    Word(WordLookupPayload),
    Phrase(PhraseLookupPayload),
    Sentence(PhraseLookupPayload),
}

impl View for LookupPayload {
    type V = PayloadView;

    open spec fn view(&self) -> PayloadView {
        match self {
            LookupPayload::Word(p) => PayloadView::Word(p@),
            LookupPayload::Phrase(p) => PayloadView::Phrase(p@),
            LookupPayload::Sentence(p) => PayloadView::Sentence(p@),
        }
    }
}

impl Clone for LookupPayload {
    fn clone(&self) -> (r: Self)
        ensures
            r@ == self@,
    {
        match self {
            LookupPayload::Word(p) => LookupPayload::Word(p.clone()),
            LookupPayload::Phrase(p) => LookupPayload::Phrase(p.clone()),
            LookupPayload::Sentence(p) => LookupPayload::Sentence(p.clone()),
        }
    }
}

impl LookupPayload {
    pub fn normalized_text(&self) -> (r: &str)
        ensures
            r@ == self@.normalized_text(),
    {
        match self {
            LookupPayload::Word(payload) => payload.normalized_text.as_str(),
            LookupPayload::Phrase(payload) => payload.normalized_text.as_str(),
            LookupPayload::Sentence(payload) => payload.normalized_text.as_str(),
        }
    }

    pub fn source_text(&self) -> (r: &str)
        ensures
            r@ == self@.source_text(),
    {
        match self {
            LookupPayload::Word(payload) => payload.source_text.as_str(),
            LookupPayload::Phrase(payload) => payload.source_text.as_str(),
            LookupPayload::Sentence(payload) => payload.source_text.as_str(),
        }
    }

    pub fn display_title(&self) -> (r: String)
        ensures
            r@ == self@.display_title(),
    {
        match self {
            LookupPayload::Word(payload) => payload.lemma.clone(),
            LookupPayload::Phrase(payload) => payload.source_text.clone(),
            LookupPayload::Sentence(payload) => payload.source_text.clone(),
        }
    }

    pub fn entry_type(&self) -> (r: &'static str)
        ensures
            r@ == self@.entry_type(),
    {
        match self {
            LookupPayload::Word(_) => "word",
            LookupPayload::Phrase(_) => "phrase",
            LookupPayload::Sentence(_) => "sentence",
        }
    }
}

#[derive(Debug)]
pub struct LookupResult {
    pub payload: LookupPayload,
    pub is_starred: bool,
}

impl View for LookupResult {
    type V = LookupResultView;

    open spec fn view(&self) -> LookupResultView {
        LookupResultView { payload: self.payload@, is_starred: self.is_starred }
    }
}

// ---------------------------------------------------------------------------
// Popup events.
#[derive(Debug, Clone, Copy, PartialEq, Eq)]
pub struct AnchorPoint {
    pub x: i32,
    pub y: i32,
}

#[derive(Debug)]
pub struct LookupEvent {
    pub anchor: AnchorPoint,
    pub result: LookupResult,
}

#[derive(Debug)]
pub struct LookupLoadingEvent {
    pub anchor: AnchorPoint,
    pub text: String,
}

#[derive(Debug)]
pub struct LookupErrorEvent {
    pub anchor: Option<AnchorPoint>,
    pub text: Option<String>,
    pub message: String,
}

// ---------------------------------------------------------------------------
// Starred entries.
#[derive(Debug)]
pub struct StarredEntry {
    pub id: String,
    pub entry_type: String,
    pub source_text: String,
    pub normalized_text: String,
    pub display_title: String,
    pub payload: LookupPayload,
    pub created_at: String,
    pub updated_at: String,
}

impl View for StarredEntry {
    type V = StarredView;

    open spec fn view(&self) -> StarredView {
        StarredView {
            id: self.id@,
            entry_type: self.entry_type@,
            source_text: self.source_text@,
            normalized_text: self.normalized_text@,
            display_title: self.display_title@,
            payload: self.payload@,
            created_at: self.created_at@,
            updated_at: self.updated_at@,
        }
    }
}

impl DeepView for StarredEntry {
    type V = StarredView;

    open spec fn deep_view(&self) -> StarredView {
        self@
    }
}

impl Clone for StarredEntry {
    fn clone(&self) -> (r: Self)
        ensures
            r@ == self@,
    {
        StarredEntry {
            id: self.id.clone(),
            entry_type: self.entry_type.clone(),
            source_text: self.source_text.clone(),
            normalized_text: self.normalized_text.clone(),
            display_title: self.display_title.clone(),
            payload: self.payload.clone(),
            created_at: self.created_at.clone(),
            updated_at: self.updated_at.clone(),
        }
    }
}

#[derive(Debug)]
pub struct StarredQuery {
    pub search: Option<String>,
    pub entry_type: Option<String>,
}

impl Default for StarredQuery {
    fn default() -> (r: Self)
        ensures
            r.search is None,
            r.entry_type is None,
    {
        StarredQuery { search: None, entry_type: None }
    }
}

#[derive(Debug)]
pub struct ToggleStarredResponse {
    pub is_starred: bool,
    pub entry: Option<StarredEntry>,
}

#[derive(Debug)]
pub struct ManualLookupRequest {
    pub text: String,
}

} // verus!
