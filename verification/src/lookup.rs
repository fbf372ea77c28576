//! Building the answer to a lookup: a word from the dictionary or the online
//! dictionary, a phrase or sentence with its translation and keywords.
use vstd::prelude::*;

use crate::dictionary::{
    entry_kind, infer_entry_kind, is_single_word, lemma_of, lemmatize_word, normalize_text,
    normalized, tokens, Dictionary,
};
use crate::models::{
    DictionarySense, EntryView, LookupPayload, LookupResult, LookupResultView, PayloadView,
    PhraseLookupPayload, PhrasePayloadView, SenseView, WordLookupPayload, WordPayloadView,
    clone_opt_string, clone_senses,
};
use crate::models::StarredView;
use crate::store::{has_normalized, lemma_toggle_flips_starred, toggle_result, Store};
use crate::text::{chars_equal, chars_of, trim, trim_chars, string_from_chars, CharClass};
use crate::translator::{
    extract_keywords, keywords_of, local_translate_text, local_translation, OnlineWordResult,
    OnlineWordView,
};

verus! {

/// Why a lookup has no answer.
#[derive(Debug, Clone, Copy, PartialEq, Eq)]
pub enum LookupError {
    /// The selection holds nothing but whitespace.
    EmptySelection,
}

impl LookupError {
    pub fn message(&self) -> (r: String)
        ensures
            r@ == "没能抓到选中文本，请确认文本仍保持选中状态"@,
    {
        String::from_str("没能抓到选中文本，请确认文本仍保持选中状态")
    }
}

/// The sense given for a word found nowhere.
pub open spec fn unknown_sense() -> SenseView {
    SenseView { part_of_speech: "未知"@, definitions: seq!["未找到释义"@] }
}

/// The answer for a single word: the dictionary's entry for its lemma, or
/// else the online dictionary's answer, or else a placeholder.
pub open spec fn word_payload(
    dict: Map<Seq<char>, EntryView>,
    text: Seq<char>,
    online: Option<OnlineWordView>,
) -> PayloadView {
    let lemma = lemma_of(dict.dom(), normalized(text));
    let source = trim(text);
    if dict.contains_key(lemma) {
        PayloadView::Word(
            WordPayloadView {
                source_text: source,
                normalized_text: lemma,
                lemma,
                phonetic: dict[lemma].phonetic,
                senses: dict[lemma].senses,
            },
        )
    } else {
        match online {
            Some(w) => PayloadView::Word(
                WordPayloadView {
                    source_text: source,
                    normalized_text: w.lemma,
                    lemma: w.lemma,
                    phonetic: w.phonetic,
                    senses: w.senses,
                },
            ),
            None => PayloadView::Word(
                WordPayloadView {
                    source_text: source,
                    normalized_text: lemma,
                    lemma,
                    phonetic: None,
                    senses: seq![unknown_sense()],
                },
            ),
        }
    }
}

/// The answer for a phrase or sentence: the online translation where there
/// is one, else the local one, with up to four keywords.
pub open spec fn phrase_payload(
    dict: Map<Seq<char>, EntryView>,
    text: Seq<char>,
    online_translation: Option<Seq<char>>,
) -> PayloadView {
    let p = PhrasePayloadView {
        source_text: trim(text),
        normalized_text: normalized(text),
        translation: match online_translation {
            Some(t) => t,
            None => local_translation(dict, text),
        },
        keywords: keywords_of(dict, text, 4),
    };
    if entry_kind(text) == "sentence"@ {
        PayloadView::Sentence(p)
    } else {
        PayloadView::Phrase(p)
    }
}

/// The answer to a lookup of `text`, and whether it is starred.
pub open spec fn lookup_result(
    dict: Map<Seq<char>, EntryView>,
    starred: Seq<StarredView>,
    text: Seq<char>,
    online_word: Option<OnlineWordView>,
    online_translation: Option<Seq<char>>,
) -> Result<LookupResultView, LookupError> {
    let n = normalized(text);
    if n.len() == 0 {
        Err(LookupError::EmptySelection)
    } else {
        let payload = if tokens(n).len() == 1 {
            word_payload(dict, text, online_word)
        } else {
            phrase_payload(dict, text, online_translation)
        };
        Ok(LookupResultView { payload, is_starred: has_normalized(starred, payload.normalized_text()) })
    }
}

/// What a lookup needs from the network.
#[derive(Debug)]
pub enum LookupPlan {
    /// Nothing to look up: the selection is blank.
    Nothing,
    /// A single word whose lemma the dictionary holds.
    LocalWord,
    /// A single word whose lemma the online dictionary is to be asked for.
    OnlineWord(String),
    /// A phrase or sentence, which the online translator is to be asked for.
    Phrase,
}

/// Decides what the lookup of `text` needs from the network: the online
/// dictionary for a single word that the local one lacks, the online
/// translator for a phrase or sentence.
pub fn plan_lookup(dictionary: &Dictionary, text: &str) -> (r: LookupPlan)
    ensures
        ({
            let n = normalized(text@);
            let lemma = lemma_of(dictionary@.dom(), n);
            match r {
                LookupPlan::Nothing => n.len() == 0,
                LookupPlan::LocalWord => n.len() > 0 && tokens(n).len() == 1
                    && dictionary@.contains_key(lemma),
                LookupPlan::OnlineWord(w) => n.len() > 0 && tokens(n).len() == 1
                    && !dictionary@.contains_key(lemma) && w@ == lemma,
                LookupPlan::Phrase => n.len() > 0 && tokens(n).len() != 1,
            }
        }),
{
    let normalized_text = normalize_text(text);
    if normalized_text.as_str().unicode_len() == 0 {
        return LookupPlan::Nothing;
    }
    if is_single_word(normalized_text.as_str()) {
        let lemma = lemmatize_word(dictionary, normalized_text.as_str());
        if dictionary.contains(lemma.as_str()) {
            LookupPlan::LocalWord
        } else {
            LookupPlan::OnlineWord(lemma)
        }
    } else {
        LookupPlan::Phrase
    }
}

fn trimmed_string(text: &str) -> (r: String)
    ensures
        r@ == trim(text@),
{
    let v = chars_of(text);
    let t = trim_chars(&v, CharClass::Whitespace);
    string_from_chars(&t)
}

/// The answer for a single word, given the online dictionary's answer for its
/// lemma (`None` where it was not asked, failed, or had no entry).
pub fn build_word_payload(dictionary: &Dictionary, text: &str, online: Option<OnlineWordResult>) -> (r: LookupPayload)
    ensures
        r@ == word_payload(
            dictionary@,
            text@,
            match online {
                Some(w) => Some(w@),
                None => None,
            },
        ),
{
    let normalized_text = normalize_text(text);
    let lemma = lemmatize_word(dictionary, normalized_text.as_str());
    if let Some(entry) = dictionary.get(lemma.as_str()) {
        return LookupPayload::Word(
            WordLookupPayload {
                source_text: trimmed_string(text),
                normalized_text: lemma.clone(),
                lemma,
                phonetic: clone_opt_string(&entry.phonetic),
                senses: clone_senses(&entry.senses),
            },
        );
    }
    if let Some(entry) = online {
        return LookupPayload::Word(
            WordLookupPayload {
                source_text: trimmed_string(text),
                normalized_text: entry.lemma.clone(),
                lemma: entry.lemma,
                phonetic: entry.phonetic,
                senses: entry.senses,
            },
        );
    }
    let mut definitions: Vec<String> = Vec::new();
    definitions.push(String::from_str("未找到释义"));
    let mut senses: Vec<DictionarySense> = Vec::new();
    assert(definitions.deep_view() =~= seq!["未找到释义"@]);
    senses.push(DictionarySense { part_of_speech: String::from_str("未知"), definitions });
    assert(senses.deep_view() =~= seq![unknown_sense()]);
    let r = LookupPayload::Word(
        WordLookupPayload {
            source_text: trimmed_string(text),
            normalized_text: lemma.clone(),
            lemma,
            phonetic: None,
            senses,
        },
    );
    r
}

/// The answer for a phrase or sentence, given the online translator's
/// translation (`None` where it failed or found none).
pub fn build_phrase_payload(dictionary: &Dictionary, text: &str, online_translation: Option<String>) -> (r: LookupPayload)
    ensures
        r@ == phrase_payload(dictionary@, text@, online_translation.deep_view()),
{
    let normalized_text = normalize_text(text);
    let translation = match online_translation {
        Some(t) => t,
        None => local_translate_text(dictionary, text),
    };
    let payload = PhraseLookupPayload {
        source_text: trimmed_string(text),
        normalized_text,
        translation,
        keywords: extract_keywords(dictionary, text, 4),
    };
    let kind = chars_of(infer_entry_kind(text));
    let sentence = chars_of("sentence");
    if chars_equal(&kind, &sentence) {
        LookupPayload::Sentence(payload)
    } else {
        LookupPayload::Phrase(payload)
    }
}

/// The answer to a lookup of `text`, given what the network answered (each
/// `None` where it was not asked or failed), and whether it is starred.
pub fn build_lookup_result(
    dictionary: &Dictionary,
    store: &Store,
    text: &str,
    online_word: Option<OnlineWordResult>,
    online_translation: Option<String>,
) -> (r: Result<LookupResult, LookupError>)
    ensures
        match r {
            Ok(res) => lookup_result(
                dictionary@,
                store@.starred,
                text@,
                match online_word {
                    Some(w) => Some(w@),
                    None => None,
                },
                online_translation.deep_view(),
            ) == Ok::<LookupResultView, LookupError>(res@),
            Err(e) => lookup_result(
                dictionary@,
                store@.starred,
                text@,
                match online_word {
                    Some(w) => Some(w@),
                    None => None,
                },
                online_translation.deep_view(),
            ) == Err::<LookupResultView, LookupError>(e),
        },
{
    let normalized_text = normalize_text(text);
    if normalized_text.as_str().unicode_len() == 0 {
        return Err(LookupError::EmptySelection);
    }
    let payload = if is_single_word(normalized_text.as_str()) {
        build_word_payload(dictionary, text, online_word)
    } else {
        build_phrase_payload(dictionary, text, online_translation)
    };
    let is_starred = store.is_starred(payload.normalized_text());
    Ok(LookupResult { payload, is_starred })
}

/// Local first, and the network only as planned: the answer to a blank
/// selection or to a word whose lemma the dictionary holds reads neither
/// network answer; a single word's answer never reads the translator's, and a
/// phrase's never reads the online dictionary's.
pub proof fn lemma_network_answers_read_as_planned(
    dict: Map<Seq<char>, EntryView>,
    starred: Seq<StarredView>,
    text: Seq<char>,
    word_a: Option<OnlineWordView>,
    word_b: Option<OnlineWordView>,
    translation_a: Option<Seq<char>>,
    translation_b: Option<Seq<char>>,
)
    ensures
        ({
            let n = normalized(text);
            &&& (n.len() == 0 || (tokens(n).len() == 1 && dict.contains_key(lemma_of(dict.dom(), n))))
                ==> lookup_result(dict, starred, text, word_a, translation_a) == lookup_result(
                dict,
                starred,
                text,
                word_b,
                translation_b,
            )
            &&& tokens(n).len() == 1 ==> lookup_result(dict, starred, text, word_a, translation_a)
                == lookup_result(dict, starred, text, word_a, translation_b)
            &&& tokens(n).len() != 1 ==> lookup_result(dict, starred, text, word_a, translation_a)
                == lookup_result(dict, starred, text, word_b, translation_a)
        }),
{
}

/// Toggling the star of a lookup's answer and looking the same text up again
/// gives the same answer with its star flipped.
pub proof fn lemma_lookup_after_toggle(
    dict: Map<Seq<char>, EntryView>,
    s: crate::store::StoreView,
    text: Seq<char>,
    online_word: Option<OnlineWordView>,
    online_translation: Option<Seq<char>>,
    id: Seq<char>,
    now: Seq<char>,
)
    requires
        lookup_result(dict, s.starred, text, online_word, online_translation) is Ok,
        toggle_result(
            s,
            lookup_result(dict, s.starred, text, online_word, online_translation)->Ok_0.payload,
            id,
            now,
        ).1 is Ok,
    ensures
        ({
            let before = lookup_result(dict, s.starred, text, online_word, online_translation)->Ok_0;
            let after = toggle_result(s, before.payload, id, now).0;
            lookup_result(dict, after.starred, text, online_word, online_translation)
                == Ok::<LookupResultView, LookupError>(
                LookupResultView { payload: before.payload, is_starred: !before.is_starred },
            )
        }),
{
    let before = lookup_result(dict, s.starred, text, online_word, online_translation)->Ok_0;
    lemma_toggle_flips_starred(s, before.payload, id, now);
}

} // verus!
