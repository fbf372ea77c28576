use reading_assistant::dictionary::Dictionary;
use reading_assistant::models::{DictionaryEntry, DictionarySense, KeywordDefinition};
use reading_assistant::translator::{
    clean_html_text, decode_response_text, extract_keywords, html_entity_decode,
    local_translate_text, normalize_part_of_speech, online_lookup_word, online_translate_text,
    phonetic_from_capture, senses_from_items, split_youdao_definition, translation_from_capture,
};

fn chars(s: &str) -> Vec<char> {
    s.chars().collect()
}

fn text(v: &[char]) -> String {
    v.iter().collect()
}

fn entry(word: &str, pos: &str, defs: &[&str]) -> DictionaryEntry {
    DictionaryEntry {
        word: word.to_string(),
        phonetic: None,
        senses: vec![DictionarySense {
            part_of_speech: pos.to_string(),
            definitions: defs.iter().map(|d| d.to_string()).collect(),
        }],
    }
}

fn keyword_tuple(k: &KeywordDefinition) -> (String, Option<String>, String) {
    (k.word.clone(), k.part_of_speech.clone(), k.brief_definition.clone())
}

fn sample_dictionary() -> Dictionary {
    Dictionary::from_entries(&vec![
        entry("study", "v", &["学习"]),
        entry("computer", "n", &["电脑", "计算机"]),
        entry("hello", "int", &["你好"]),
        DictionaryEntry { word: "empty".to_string(), phonetic: None, senses: vec![] },
    ])
}

#[test]
fn local_translation_of_blank_text() {
    let d = sample_dictionary();
    assert_eq!(local_translate_text(&d, "  123 "), "没有可翻译的内容。");
}

#[test]
fn local_translation_word_by_word() {
    let d = sample_dictionary();
    assert_eq!(local_translate_text(&d, "Hello, world studies!"), "本地兜底翻译：你好 world 学习");
    assert_eq!(local_translate_text(&d, "empty"), "本地兜底翻译：empty");
}

#[test]
fn keywords_known_first_then_fallbacks() {
    let d = sample_dictionary();
    let ks = extract_keywords(&d, "The students study computers and the studies", 4);
    let got: Vec<_> = ks.iter().map(keyword_tuple).collect();
    assert_eq!(
        got,
        vec![
            ("study".to_string(), Some("v".to_string()), "学习".to_string()),
            ("computer".to_string(), Some("n".to_string()), "电脑".to_string()),
            ("students".to_string(), None, "暂无本地释义".to_string()),
        ]
    );
}

#[test]
fn keywords_stop_at_the_limit() {
    let d = sample_dictionary();
    let ks = extract_keywords(&d, "The students study computers and the studies", 1);
    let got: Vec<_> = ks.iter().map(|k| k.word.clone()).collect();
    assert_eq!(got, vec!["study"]);
}

#[test]
fn keywords_with_zero_limit() {
    let d = sample_dictionary();
    assert!(extract_keywords(&d, "students study", 0).is_empty());
    let ks = extract_keywords(&d, "study students", 0);
    let got: Vec<_> = ks.iter().map(|k| k.word.clone()).collect();
    assert_eq!(got, vec!["study"]);
}

#[test]
fn keyword_of_an_entry_without_senses() {
    let d = sample_dictionary();
    let ks = extract_keywords(&d, "empty", 4);
    assert_eq!(keyword_tuple(&ks[0]), ("empty".to_string(), None, "未找到释义".to_string()));
}

#[test]
fn keywords_skip_short_and_stop_words() {
    let d = sample_dictionary();
    assert!(extract_keywords(&d, "it is an ox, to be or not", 4).is_empty());
}

#[test]
fn entities_are_decoded_in_order() {
    let out = html_entity_decode(&chars("a&nbsp;b &amp;lt; &lt;i&gt; &quot;q&quot; it&#39;s"));
    assert_eq!(text(&out), "a b < <i> \"q\" it's");
}

#[test]
fn line_breaks_are_removed() {
    assert_eq!(text(&clean_html_text(&chars("a\r\nb\nc\r"))), "abc");
}

#[test]
fn part_of_speech_labels() {
    assert_eq!(normalize_part_of_speech(&chars(" vt. ")), "动词");
    assert_eq!(normalize_part_of_speech(&chars("n")), "名词");
    assert_eq!(normalize_part_of_speech(&chars("adj.")), "形容词");
    assert_eq!(normalize_part_of_speech(&chars("int.")), "感叹词");
    assert_eq!(normalize_part_of_speech(&chars(" prefix. ")), "prefix.");
}

#[test]
fn dictionary_line_is_split() {
    let (pos, defs) = split_youdao_definition(&chars("n.&nbsp;apple；fruit; ;tree"));
    assert_eq!(pos, "名词");
    assert_eq!(defs, vec!["apple", "fruit", "tree"]);
    let (pos, defs) = split_youdao_definition(&chars("无空格定义；第二"));
    assert_eq!(pos, "释义");
    assert_eq!(defs, vec!["无空格定义", "第二"]);
    let (_, defs) = split_youdao_definition(&chars("adv. ;"));
    assert!(defs.is_empty());
}

#[test]
fn utf8_pages_are_read_as_utf8() {
    assert_eq!(text(&decode_response_text("hello 世界".as_bytes())), "hello 世界");
}

#[test]
fn gb18030_pages_are_decoded() {
    let bytes = [0xC4u8, 0xE3, 0xBA, 0xC3];
    assert_eq!(text(&decode_response_text(&bytes)), "你好");
}

#[test]
fn garbled_utf8_is_decoded_as_gb18030() {
    let bytes = "锟".as_bytes().to_vec();
    let out = text(&decode_response_text(&bytes));
    assert_ne!(out, "锟");
}

#[test]
fn translation_is_read_from_the_page() {
    let page = "<html><ul id=\"translateResult\">\r\n  <li> 你好世界 </li></ul></html>";
    assert_eq!(online_translate_text(page.as_bytes()), Some("你好世界".to_string()));
    assert_eq!(online_translate_text(b"<html>nothing</html>"), None);
    let blank = "<ul id=\"translateResult\"><li>   </li></ul>";
    assert_eq!(online_translate_text(blank.as_bytes()), None);
}

#[test]
fn captured_translation_is_trimmed() {
    assert_eq!(translation_from_capture(Some(" x ".to_string())), Some("x".to_string()));
    assert_eq!(translation_from_capture(Some(" ".to_string())), None);
    assert_eq!(translation_from_capture(None), None);
}

#[test]
fn phonetic_is_bracketed() {
    assert_eq!(phonetic_from_capture(Some(" ˈæpl ".to_string())), Some("[ˈæpl]".to_string()));
    assert_eq!(phonetic_from_capture(None), None);
}

#[test]
fn senses_from_list_items() {
    let items = vec![
        Some("n. 苹果；苹果树".to_string()),
        Some("   ".to_string()),
        None,
        Some("adj.&nbsp;苹果的".to_string()),
        Some("v. ;".to_string()),
    ];
    let senses = senses_from_items(&items);
    assert_eq!(senses.len(), 2);
    assert_eq!(senses[0].part_of_speech, "名词");
    assert_eq!(senses[0].definitions, vec!["苹果", "苹果树"]);
    assert_eq!(senses[1].part_of_speech, "形容词");
    assert_eq!(senses[1].definitions, vec!["苹果的"]);
}

#[test]
fn word_is_read_from_the_dictionary_page() {
    let page = "<span class=\"phonetic\">[ ˈæpl ]</span>\n<div id=\"ec\">\n<h2>x</h2><ul><li>n. 苹果；苹果树</li><li>  </li><li>adj.&nbsp;苹果的</li></ul></div>";
    let word = online_lookup_word("Apple", page.as_bytes()).unwrap();
    assert_eq!(word.lemma, "apple");
    assert_eq!(word.phonetic, Some("[ˈæpl]".to_string()));
    assert_eq!(word.senses.len(), 2);
    assert_eq!(word.senses[1].definitions, vec!["苹果的"]);
}

#[test]
fn page_without_senses_gives_no_word() {
    assert!(online_lookup_word("apple", b"<html></html>").is_none());
    let empty_list = "<div id=\"ec\"><ul><li> </li></ul></div>";
    assert!(online_lookup_word("apple", empty_list.as_bytes()).is_none());
}

#[test]
fn translation_holds_no_line_breaks() {
    let page = "<ul id=\"translateResult\"><li>第一行\r\n第二行\n</li></ul>";
    assert_eq!(online_translate_text(page.as_bytes()), Some("第一行第二行".to_string()));
}
