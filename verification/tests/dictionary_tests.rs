use reading_assistant::dictionary::{
    infer_entry_kind, is_single_word, lemmatize_word, normalize_text, tokenize_words, Dictionary,
};
use reading_assistant::models::{DictionaryEntry, DictionarySense};

fn entry(word: &str, pos: &str, defs: &[&str]) -> DictionaryEntry {
    DictionaryEntry {
        word: word.to_string(),
        phonetic: None,
        senses: vec![DictionarySense {
            part_of_speech: pos.to_string(),
            definitions: defs.iter().map(|d| d.to_string()).collect(),
        }],
    }
}

fn sample_dictionary() -> Dictionary {
    Dictionary::from_entries(&vec![
        entry("study", "v", &["学习"]),
        entry("run", "v", &["跑"]),
        entry("make", "v", &["做"]),
        entry("stop", "v", &["停止"]),
        entry("box", "n", &["盒子"]),
    ])
}

#[test]
fn normalize_collapses_whitespace_and_lowercases() {
    assert_eq!(normalize_text("  Hello   WORLD\tfoo\n"), "hello world foo");
    assert_eq!(normalize_text(""), "");
    assert_eq!(normalize_text(" \u{3000}\t "), "");
}

#[test]
fn normalize_lowercases_beyond_ascii() {
    assert_eq!(normalize_text("ÄPFEL  Über"), "äpfel über");
}

#[test]
fn tokenize_splits_on_non_letters() {
    assert_eq!(
        tokenize_words("Don't stop-believing, 'quoted' 123 words!"),
        vec!["don't", "stop", "believing", "quoted", "words"]
    );
    assert!(tokenize_words("''  ' 42").is_empty());
    assert_eq!(tokenize_words("naïve"), vec!["na", "ve"]);
}

#[test]
fn single_word_needs_exactly_one_token() {
    assert!(is_single_word("Hello"));
    assert!(is_single_word("  (hello)  "));
    assert!(!is_single_word("hello world"));
    assert!(!is_single_word(""));
    assert!(!is_single_word("..."));
}

#[test]
fn entry_kind_of_words_phrases_and_sentences() {
    assert_eq!(infer_entry_kind("hello"), "word");
    assert_eq!(infer_entry_kind(""), "word");
    assert_eq!(infer_entry_kind("good morning"), "phrase");
    assert_eq!(infer_entry_kind("Hi there."), "sentence");
    assert_eq!(infer_entry_kind("really? yes"), "sentence");
    assert_eq!(infer_entry_kind("one two three four five"), "phrase");
    assert_eq!(infer_entry_kind("one two three four five six"), "sentence");
}

#[test]
fn lemmatize_finds_base_forms() {
    let d = sample_dictionary();
    assert_eq!(lemmatize_word(&d, "Studies"), "study");
    assert_eq!(lemmatize_word(&d, "running"), "run");
    assert_eq!(lemmatize_word(&d, "making"), "make");
    assert_eq!(lemmatize_word(&d, "stopped"), "stop");
    assert_eq!(lemmatize_word(&d, "boxes"), "box");
    assert_eq!(lemmatize_word(&d, "study"), "study");
}

#[test]
fn lemmatize_keeps_unknown_tokens() {
    let d = sample_dictionary();
    assert_eq!(lemmatize_word(&d, "cats"), "cats");
    assert_eq!(lemmatize_word(&d, "  Hello!! "), "hello");
    assert_eq!(lemmatize_word(&d, ""), "");
    assert_eq!(lemmatize_word(&d, "?!"), "");
}

#[test]
fn lemmatize_tries_es_before_s() {
    let d = Dictionary::from_entries(&vec![entry("use", "v", &["用"]), entry("us", "pron", &["我们"])]);
    assert_eq!(lemmatize_word(&d, "uses"), "us");
}

#[test]
fn dictionary_get_and_contains_agree() {
    let d = sample_dictionary();
    assert!(d.contains("run"));
    assert_eq!(d.get("run").unwrap().senses[0].definitions[0], "跑");
    assert!(!d.contains("walk"));
    assert!(d.get("walk").is_none());
}

#[test]
fn later_entries_replace_earlier_ones() {
    let d = Dictionary::from_entries(&vec![entry("run", "v", &["跑"]), entry("run", "n", &["奔跑"])]);
    assert_eq!(d.get("run").unwrap().senses[0].part_of_speech, "n");
}

#[test]
fn normalising_ascii_text_twice_changes_nothing() {
    for text in ["  Hello   WORLD \t again\n", "", "   ", "One", "It's  A-OK!"] {
        let once = normalize_text(text);
        assert_eq!(normalize_text(&once), once, "{:?}", text);
    }
    assert_eq!(normalize_text("  Hello   WORLD \t again\n"), "hello world again");
}

#[test]
fn a_lemma_is_its_own_lemma() {
    let d = Dictionary::from_entries(&vec![entry("study", "v", &["学习"]), entry("run", "v", &["跑"])]);
    for raw in ["Studies", "running", "RUN!", "zzyzx", "(unknown)", ""] {
        let lemma = lemmatize_word(&d, raw);
        assert_eq!(lemmatize_word(&d, &lemma), lemma, "{:?}", raw);
    }
    assert_eq!(lemmatize_word(&d, "running"), "run");
}
