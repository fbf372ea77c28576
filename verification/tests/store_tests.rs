use reading_assistant::models::{
    AppConfig, LookupPayload, PhraseLookupPayload, StarredEntry, StarredQuery, WordLookupPayload,
};
use reading_assistant::stamps::rfc3339_of_reading;
use reading_assistant::store::{Store, StoreError};

fn word_payload(word: &str) -> LookupPayload {
    LookupPayload::Word(WordLookupPayload {
        source_text: format!(" {} ", word),
        normalized_text: word.to_string(),
        lemma: word.to_string(),
        phonetic: None,
        senses: vec![],
    })
}

fn phrase_payload(text: &str) -> LookupPayload {
    LookupPayload::Phrase(PhraseLookupPayload {
        source_text: text.to_string(),
        normalized_text: text.to_lowercase(),
        translation: "译文".to_string(),
        keywords: vec![],
    })
}

fn config_tuple(c: &AppConfig) -> (String, String, bool, usize, bool, u32, u32) {
    (
        c.hotkey.clone(),
        c.trigger_source.clone(),
        c.auto_start,
        c.max_text_length,
        c.close_on_focus_loss,
        c.popup_width,
        c.popup_height,
    )
}

#[test]
fn fresh_store_gives_default_config() {
    let store = Store::new();
    assert_eq!(
        config_tuple(&store.config()),
        ("Ctrl+Shift+D".to_string(), "keyboard".to_string(), false, 280, true, 380, 400)
    );
    assert_eq!(config_tuple(&store.config()), config_tuple(&AppConfig::default()));
}

#[test]
fn stored_settings_are_parsed_and_clamped() {
    let mut store = Store::new();
    store.load_setting("popup_width".to_string(), "1000".to_string());
    store.load_setting("popup_height".to_string(), "+90".to_string());
    store.load_setting("max_text_length".to_string(), "abc".to_string());
    store.load_setting("auto_start".to_string(), "TRUE".to_string());
    store.load_setting("close_on_focus_loss".to_string(), "false".to_string());
    store.load_setting("trigger_source".to_string(), "mouse_middle".to_string());
    store.load_setting("unknown".to_string(), "x".to_string());
    let c = store.config();
    assert_eq!(
        config_tuple(&c),
        ("Ctrl+Shift+D".to_string(), "mouse_middle".to_string(), false, 280, false, 520, 120)
    );
}

#[test]
fn numbers_that_do_not_parse_are_ignored() {
    let mut store = Store::new();
    store.load_setting("popup_width".to_string(), "-350".to_string());
    store.load_setting("popup_height".to_string(), "99999999999".to_string());
    store.load_setting("max_text_length".to_string(), "0042".to_string());
    let c = store.config();
    assert_eq!((c.popup_width, c.popup_height, c.max_text_length), (380, 400, 42));
}

#[test]
fn saved_config_reads_back() {
    let mut store = Store::new();
    let config = AppConfig {
        hotkey: "Alt+Q".to_string(),
        trigger_source: "mouse_x1".to_string(),
        auto_start: true,
        max_text_length: 1234567,
        close_on_focus_loss: false,
        popup_width: 300,
        popup_height: 680,
    };
    let returned = store.save_config(&config);
    assert_eq!(config_tuple(&returned), config_tuple(&config));
    assert_eq!(config_tuple(&store.config()), config_tuple(&config));
}

#[test]
fn toggle_stars_then_unstars() {
    let mut store = Store::new();
    let payload = word_payload("apple");
    assert!(!store.is_starred("apple"));
    let first = store
        .toggle_starred_with(&payload, "id-1".to_string(), "2024-01-01T00:00:00+00:00".to_string())
        .unwrap();
    assert!(first.is_starred);
    let entry = first.entry.unwrap();
    assert_eq!(entry.id, "id-1");
    assert_eq!(entry.entry_type, "word");
    assert_eq!(entry.source_text, " apple ");
    assert_eq!(entry.display_title, "apple");
    assert_eq!(entry.created_at, entry.updated_at);
    assert!(store.is_starred("apple"));
    assert_eq!(store.find_starred("apple").unwrap().id, "id-1");

    let second = store
        .toggle_starred_with(&payload, "id-2".to_string(), "2024-01-02T00:00:00+00:00".to_string())
        .unwrap();
    assert!(!second.is_starred);
    assert_eq!(second.entry.unwrap().id, "id-1");
    assert!(!store.is_starred("apple"));
    assert!(store.find_starred("apple").is_none());
}

#[test]
fn toggle_with_a_taken_id_is_refused() {
    let mut store = Store::new();
    store.toggle_starred_with(&word_payload("apple"), "id-1".to_string(), "t".to_string()).unwrap();
    let r = store.toggle_starred_with(&phrase_payload("Good Day"), "id-1".to_string(), "t".to_string());
    assert_eq!(r.err(), Some(StoreError::DuplicateId));
    assert!(!store.is_starred("good day"));
    assert_eq!(
        StoreError::DuplicateId.message(),
        "UNIQUE constraint failed: starred_entries.id"
    );
    assert_eq!(StoreError::ClockUnreadable.message(), "system time before Unix epoch");
    assert_eq!(StoreError::RandomUnavailable.message(), "could not retrieve random bytes for uuid");
}

#[test]
fn toggle_with_fresh_identifiers() {
    let mut store = Store::new();
    let r = store.toggle_starred(&phrase_payload("Good Day")).unwrap();
    assert!(r.is_starred);
    let entry = r.entry.unwrap();
    assert_eq!(entry.entry_type, "phrase");
    assert_eq!(entry.display_title, "Good Day");
    assert!(!entry.id.is_empty());
    // The identifier is a version 4 UUID in hyphenated lowercase.
    assert_eq!(entry.id.len(), 36);
    for (i, c) in entry.id.chars().enumerate() {
        if i == 8 || i == 13 || i == 18 || i == 23 {
            assert_eq!(c, '-');
        } else {
            assert!(c.is_ascii_digit() || ('a'..='f').contains(&c), "{}", entry.id);
        }
    }
    assert_eq!(entry.id.chars().nth(14), Some('4'));
    assert!("89ab".contains(entry.id.chars().nth(19).unwrap()));
    // The time is the current UTC time in RFC 3339.
    assert_eq!(entry.created_at, entry.updated_at);
    assert!(entry.created_at.starts_with("20"), "{}", entry.created_at);
    assert!(entry.created_at.ends_with("+00:00"), "{}", entry.created_at);
    assert_eq!(&entry.created_at[4..5], "-");
    assert_eq!(&entry.created_at[10..11], "T");
    assert_ne!(entry.id, entry.created_at);
    assert!(store.is_starred("good day"));
    let r = store.toggle_starred(&phrase_payload("Good Day")).unwrap();
    assert!(!r.is_starred);
    assert!(!store.is_starred("good day"));
}

#[test]
fn remove_by_identifier() {
    let mut store = Store::new();
    store.toggle_starred_with(&word_payload("apple"), "a".to_string(), "t".to_string()).unwrap();
    store.toggle_starred_with(&word_payload("pear"), "p".to_string(), "t".to_string()).unwrap();
    assert!(store.remove_starred("a"));
    assert!(!store.is_starred("apple"));
    assert!(store.is_starred("pear"));
    assert!(!store.remove_starred("missing"));
    assert!(store.is_starred("pear"));
}

#[test]
fn loading_duplicate_entries_is_refused() {
    let mut store = Store::new();
    let make = |id: &str, text: &str| StarredEntry {
        id: id.to_string(),
        entry_type: "word".to_string(),
        source_text: text.to_string(),
        normalized_text: text.to_string(),
        display_title: text.to_string(),
        payload: word_payload(text),
        created_at: "t".to_string(),
        updated_at: "t".to_string(),
    };
    assert_eq!(store.load_entry(make("1", "apple")), Ok(()));
    assert_eq!(store.load_entry(make("2", "apple")), Err(StoreError::DuplicateText));
    assert_eq!(store.load_entry(make("1", "pear")), Err(StoreError::DuplicateId));
    assert!(store.is_starred("apple"));
    assert!(!store.is_starred("pear"));
}

fn listing_store() -> Store {
    let mut store = Store::new();
    store
        .toggle_starred_with(&word_payload("Apple"), "a".to_string(), "2024-01-02T00:00:00+00:00".to_string())
        .unwrap();
    store
        .toggle_starred_with(&phrase_payload("Good Morning"), "b".to_string(), "2024-03-01T00:00:00+00:00".to_string())
        .unwrap();
    store
        .toggle_starred_with(&word_payload("pineapple"), "c".to_string(), "2024-02-01T00:00:00+00:00".to_string())
        .unwrap();
    store
        .toggle_starred_with(&word_payload("100%"), "d".to_string(), "2023-12-31T00:00:00+00:00".to_string())
        .unwrap();
    store
}

fn ids(entries: &[StarredEntry]) -> Vec<String> {
    entries.iter().map(|e| e.id.clone()).collect()
}

#[test]
fn empty_query_lists_everything_newest_first() {
    let store = listing_store();
    let all = store.list_starred(StarredQuery::default());
    assert_eq!(ids(&all), vec!["b", "c", "a", "d"]);
    let blank = store.list_starred(StarredQuery { search: Some(String::new()), entry_type: Some(String::new()) });
    assert_eq!(ids(&blank), vec!["b", "c", "a", "d"]);
}

#[test]
fn search_matches_title_or_source_in_either_case() {
    let store = listing_store();
    let apples = store.list_starred(StarredQuery { search: Some("APPLE".to_string()), entry_type: None });
    assert_eq!(ids(&apples), vec!["c", "a"]);
    let morning = store.list_starred(StarredQuery { search: Some("morn".to_string()), entry_type: None });
    assert_eq!(ids(&morning), vec!["b"]);
    let none = store.list_starred(StarredQuery { search: Some("banana".to_string()), entry_type: None });
    assert!(none.is_empty());
}

#[test]
fn search_reads_like_wildcards() {
    let store = listing_store();
    let underscore = store.list_starred(StarredQuery { search: Some("n_a".to_string()), entry_type: None });
    assert_eq!(ids(&underscore), vec!["c"]);
    let percent = store.list_starred(StarredQuery { search: Some("g%g".to_string()), entry_type: None });
    assert_eq!(ids(&percent), vec!["b"]);
    let digit = store.list_starred(StarredQuery { search: Some("0%".to_string()), entry_type: None });
    assert_eq!(ids(&digit), vec!["d"]);
}

#[test]
fn entry_type_filters_the_list() {
    let store = listing_store();
    let words = store.list_starred(StarredQuery { search: None, entry_type: Some("word".to_string()) });
    assert_eq!(ids(&words), vec!["c", "a", "d"]);
    let phrases = store.list_starred(StarredQuery { search: Some("good".to_string()), entry_type: Some("phrase".to_string()) });
    assert_eq!(ids(&phrases), vec!["b"]);
    let sentences = store.list_starred(StarredQuery { search: None, entry_type: Some("sentence".to_string()) });
    assert!(sentences.is_empty());
}

#[test]
fn fresh_identifiers_differ() {
    let mut store = Store::new();
    let a = store.toggle_starred(&word_payload("one")).unwrap().entry.unwrap();
    let b = store.toggle_starred(&word_payload("two")).unwrap().entry.unwrap();
    assert_ne!(a.id, b.id);
}

#[test]
fn clock_readings_are_written_in_rfc3339() {
    assert_eq!(rfc3339_of_reading(None), None);
    assert_eq!(rfc3339_of_reading(Some((0, 0))), Some("1970-01-01T00:00:00+00:00".to_string()));
    assert_eq!(
        rfc3339_of_reading(Some((1_700_000_000, 500_000_000))),
        Some("2023-11-14T22:13:20.500+00:00".to_string())
    );
    assert_eq!(rfc3339_of_reading(Some((86_400, 1_000))), Some("1970-01-02T00:00:00.000001+00:00".to_string()));
    assert_eq!(rfc3339_of_reading(Some((5, 123))), Some("1970-01-01T00:00:05.000000123+00:00".to_string()));
    assert_eq!(rfc3339_of_reading(Some((u64::MAX, 0))), None);
}
