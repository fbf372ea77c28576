use reading_assistant::dictionary::Dictionary;
use reading_assistant::lookup::{
    build_lookup_result, build_phrase_payload, build_word_payload, plan_lookup, LookupError,
    LookupPlan,
};
use reading_assistant::models::{DictionaryEntry, DictionarySense, LookupPayload};
use reading_assistant::store::Store;
use reading_assistant::translator::OnlineWordResult;

fn entry(word: &str, pos: &str, defs: &[&str]) -> DictionaryEntry {
    DictionaryEntry {
        word: word.to_string(),
        phonetic: Some(format!("/{}/", word)),
        senses: vec![DictionarySense {
            part_of_speech: pos.to_string(),
            definitions: defs.iter().map(|d| d.to_string()).collect(),
        }],
    }
}

fn sample_dictionary() -> Dictionary {
    Dictionary::from_entries(&vec![
        entry("study", "v", &["学习"]),
        entry("good", "adj", &["好的"]),
        entry("morning", "n", &["早晨"]),
    ])
}

fn online_apple() -> OnlineWordResult {
    OnlineWordResult {
        lemma: "apple".to_string(),
        phonetic: Some("[ˈæpl]".to_string()),
        senses: vec![DictionarySense {
            part_of_speech: "名词".to_string(),
            definitions: vec!["苹果".to_string()],
        }],
    }
}

#[test]
fn plans_follow_the_selection() {
    let d = sample_dictionary();
    assert!(matches!(plan_lookup(&d, "  \t"), LookupPlan::Nothing));
    assert!(matches!(plan_lookup(&d, " Studies "), LookupPlan::LocalWord));
    match plan_lookup(&d, "Apples") {
        LookupPlan::OnlineWord(lemma) => assert_eq!(lemma, "apples"),
        _ => panic!("expected an online lookup"),
    }
    assert!(matches!(plan_lookup(&d, "good morning"), LookupPlan::Phrase));
}

#[test]
fn word_from_the_dictionary() {
    let d = sample_dictionary();
    match build_word_payload(&d, "  Studies ", Some(online_apple())) {
        LookupPayload::Word(p) => {
            assert_eq!(p.source_text, "Studies");
            assert_eq!(p.normalized_text, "study");
            assert_eq!(p.lemma, "study");
            assert_eq!(p.phonetic, Some("/study/".to_string()));
            assert_eq!(p.senses[0].definitions, vec!["学习"]);
        }
        _ => panic!("expected a word"),
    }
}

#[test]
fn word_from_the_online_dictionary() {
    let d = sample_dictionary();
    match build_word_payload(&d, "Apple", Some(online_apple())) {
        LookupPayload::Word(p) => {
            assert_eq!(p.source_text, "Apple");
            assert_eq!(p.normalized_text, "apple");
            assert_eq!(p.phonetic, Some("[ˈæpl]".to_string()));
            assert_eq!(p.senses[0].part_of_speech, "名词");
        }
        _ => panic!("expected a word"),
    }
}

#[test]
fn word_found_nowhere() {
    let d = sample_dictionary();
    match build_word_payload(&d, "Zzyzx!", None) {
        LookupPayload::Word(p) => {
            assert_eq!(p.source_text, "Zzyzx!");
            assert_eq!(p.normalized_text, "zzyzx");
            assert_eq!(p.phonetic, None);
            assert_eq!(p.senses.len(), 1);
            assert_eq!(p.senses[0].part_of_speech, "未知");
            assert_eq!(p.senses[0].definitions, vec!["未找到释义"]);
        }
        _ => panic!("expected a word"),
    }
}

#[test]
fn phrase_with_online_translation() {
    let d = sample_dictionary();
    match build_phrase_payload(&d, " Good  Morning ", Some("早上好".to_string())) {
        LookupPayload::Phrase(p) => {
            assert_eq!(p.source_text, "Good  Morning");
            assert_eq!(p.normalized_text, "good morning");
            assert_eq!(p.translation, "早上好");
            let words: Vec<_> = p.keywords.iter().map(|k| k.word.clone()).collect();
            assert_eq!(words, vec!["good", "morning"]);
        }
        _ => panic!("expected a phrase"),
    }
}

#[test]
fn sentence_with_local_translation() {
    let d = sample_dictionary();
    match build_phrase_payload(&d, "Good morning.", None) {
        LookupPayload::Sentence(p) => {
            assert_eq!(p.translation, "本地兜底翻译：好的 早晨");
        }
        _ => panic!("expected a sentence"),
    }
}

#[test]
fn blank_lookup_is_refused() {
    let d = sample_dictionary();
    let store = Store::new();
    let r = build_lookup_result(&d, &store, " \n ", None, None);
    assert_eq!(r.err(), Some(LookupError::EmptySelection));
    assert_eq!(LookupError::EmptySelection.message(), "没能抓到选中文本，请确认文本仍保持选中状态");
}

#[test]
fn lookup_reports_the_star_and_toggling_flips_it() {
    let d = sample_dictionary();
    let mut store = Store::new();
    let first = build_lookup_result(&d, &store, "studies", None, None).unwrap();
    assert!(!first.is_starred);
    store.toggle_starred_with(&first.payload, "id".to_string(), "t".to_string()).unwrap();
    let second = build_lookup_result(&d, &store, "studies", None, None).unwrap();
    assert!(second.is_starred);
    assert_eq!(second.payload.normalized_text(), "study");
}

#[test]
fn payload_accessors() {
    let d = sample_dictionary();
    let word = build_word_payload(&d, " Studies ", None);
    assert_eq!(word.entry_type(), "word");
    assert_eq!(word.source_text(), "Studies");
    assert_eq!(word.display_title(), "study");
    let phrase = build_phrase_payload(&d, "Good Morning", Some("早上好".to_string()));
    assert_eq!(phrase.entry_type(), "phrase");
    assert_eq!(phrase.display_title(), "Good Morning");
    assert_eq!(phrase.normalized_text(), "good morning");
    let sentence = build_phrase_payload(&d, "Good morning!", Some("早上好！".to_string()));
    assert_eq!(sentence.entry_type(), "sentence");
}

#[test]
fn network_answers_are_read_only_as_planned() {
    let d = sample_dictionary();
    let store = Store::new();
    let local = build_lookup_result(&d, &store, "studies", None, None).unwrap();
    let with_network =
        build_lookup_result(&d, &store, "studies", Some(online_apple()), Some("学习".to_string())).unwrap();
    assert_eq!(format!("{:?}", local), format!("{:?}", with_network));

    let phrase = build_lookup_result(&d, &store, "good morning", None, Some("早上好".to_string())).unwrap();
    let phrase_with_word =
        build_lookup_result(&d, &store, "good morning", Some(online_apple()), Some("早上好".to_string())).unwrap();
    assert_eq!(format!("{:?}", phrase), format!("{:?}", phrase_with_word));

    let word = build_lookup_result(&d, &store, "apple", Some(online_apple()), None).unwrap();
    let word_with_translation =
        build_lookup_result(&d, &store, "apple", Some(online_apple()), Some("苹果".to_string())).unwrap();
    assert_eq!(format!("{:?}", word), format!("{:?}", word_with_translation));
    assert_eq!(word.payload.normalized_text(), "apple");
}
