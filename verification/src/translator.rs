//! Local translation and keyword extraction over the dictionary, and the
//! reading of the online dictionary's pages.
use vstd::prelude::*;

use crate::dictionary::{lemma_of, lemmatize_word, tokenize_words, tokens, Dictionary};
use crate::models::{DictionaryEntry, DictionarySense, EntryView, KeywordDefinition, KeywordView, SenseView};
use crate::text::{
    starts_with_at,
    append_chars, chars_equal, chars_of, find_char, first_index_of, join_chars, join_with,
    keep_nonempty, nonempty_parts, replace_all, replace_str, split_chars, split_class,
    string_from_chars, strings_from_parts, sub_chars, trim, trim_chars, trim_class, trim_each,
    trim_end_chars, trim_end_class, unicode_lowercase, to_lowercase, CharClass,
};
use vstd::utf8::{decode_utf8, valid_utf8};

verus! {

// ---------------------------------------------------------------------------
// Stop words.
/// The words too common to be keywords.
pub open spec fn stop_words() -> Seq<Seq<char>> {
    seq![
        "a"@, "about"@, "after"@, "all"@, "also"@, "an"@, "and"@, "any"@, "are"@, "as"@, "at"@,
        "be"@, "been"@, "being"@, "but"@, "by"@, "can"@, "could"@, "did"@, "do"@, "does"@, "for"@,
        "from"@, "had"@, "has"@, "have"@, "he"@, "her"@, "his"@, "i"@, "if"@, "in"@, "into"@,
        "is"@, "it"@, "its"@, "may"@, "more"@, "most"@, "not"@, "of"@, "on"@, "or"@, "our"@,
        "she"@, "should"@, "so"@, "such"@, "than"@, "that"@, "the"@, "their"@, "them"@, "there"@,
        "these"@, "they"@, "this"@, "those"@, "to"@, "was"@, "we"@, "were"@, "which"@, "who"@,
        "will"@, "with"@, "would"@, "you"@, "your"@,
    ]
}

fn stop_word_list() -> (r: Vec<&'static str>)
    ensures
        r@.map_values(|w: &str| w@) == stop_words(),
{
    let r = vec![
        "a", "about", "after", "all", "also", "an", "and", "any", "are", "as", "at", "be", "been",
        "being", "but", "by", "can", "could", "did", "do", "does", "for", "from", "had", "has",
        "have", "he", "her", "his", "i", "if", "in", "into", "is", "it", "its", "may", "more",
        "most", "not", "of", "on", "or", "our", "she", "should", "so", "such", "than", "that",
        "the", "their", "them", "there", "these", "they", "this", "those", "to", "was", "we",
        "were", "which", "who", "will", "with", "would", "you", "your",
    ];
    assert(r@.map_values(|w: &str| w@) =~= stop_words());
    r
}

fn is_stop_word(token: &Vec<char>) -> (r: bool)
    ensures
        r == stop_words().contains(token@),
{
    let list = stop_word_list();
    let mut i: usize = 0;
    while i < list.len()
        invariant
            i <= list.len(),
            list@.map_values(|w: &str| w@) == stop_words(),
            forall|k: int| 0 <= k < i ==> stop_words()[k] != token@,
        decreases list.len() - i,
    {
        let w = chars_of(list[i]);
        assert(stop_words()[i as int] == list@[i as int]@);
        if crate::text::chars_equal(&w, token) {
            return true;
        }
        i = i + 1;
    }
    false
}

// ---------------------------------------------------------------------------
// Local translation.
/// The first definition of the entry's first sense.
pub open spec fn primary_definition(e: EntryView) -> Option<Seq<char>> {
    if e.senses.len() > 0 && e.senses[0].definitions.len() > 0 {
        Some(e.senses[0].definitions[0])
    } else {
        None
    }
}

fn local_primary_definition(entry: &DictionaryEntry) -> (r: Option<&String>)
    ensures
        r.deep_view() == primary_definition(entry@),
{
    if entry.senses.len() > 0 && entry.senses[0].definitions.len() > 0 {
        Some(&entry.senses[0].definitions[0])
    } else {
        None
    }
}

/// The primary definition of a token's dictionary form, or the token itself.
pub open spec fn local_word(dict: Map<Seq<char>, EntryView>, token: Seq<char>) -> Seq<char> {
    let lemma = lemma_of(dict.dom(), token);
    if dict.contains_key(lemma) && primary_definition(dict[lemma]) is Some {
        primary_definition(dict[lemma])->0
    } else {
        token
    }
}

/// The word-by-word translation of a text, or a notice that it holds no words.
pub open spec fn local_translation(dict: Map<Seq<char>, EntryView>, s: Seq<char>) -> Seq<char> {
    let ts = tokens(s);
    if ts.len() == 0 {
        "没有可翻译的内容。"@
    } else {
        "本地兜底翻译："@ + join_with(ts.map_values(|t: Seq<char>| local_word(dict, t)), seq![' '])
    }
}

pub fn local_translate_text(dictionary: &Dictionary, text: &str) -> (r: String)
    ensures
        r@ == local_translation(dictionary@, text@),
{
    let tokens = tokenize_words(text);
    if tokens.len() == 0 {
        return String::from_str("没有可翻译的内容。");
    }
    let mut translated: Vec<Vec<char>> = Vec::new();
    let mut j: usize = 0;
    while j < tokens.len()
        invariant
            j <= tokens.len(),
            tokens.deep_view() == crate::dictionary::tokens(text@),
            translated.deep_view() == tokens.deep_view().take(j as int).map_values(
                |t: Seq<char>| local_word(dictionary@, t),
            ),
        decreases tokens.len() - j,
    {
        let token = &tokens[j];
        let lemma = lemmatize_word(dictionary, token.as_str());
        let word = match dictionary.get(lemma.as_str()) {
            Some(entry) => match local_primary_definition(entry) {
                Some(definition) => chars_of(definition.as_str()),
                None => chars_of(token.as_str()),
            },
            None => chars_of(token.as_str()),
        };
        assert(tokens.deep_view()[j as int] == token@);
        assert(word@ == local_word(dictionary@, token@));
        let ghost old_t = translated.deep_view();
        assert(word.deep_view() =~= word@);
        translated.push(word);
        assert(translated.deep_view() =~= old_t.push(word@));
        j = j + 1;
        assert(translated.deep_view() =~= tokens.deep_view().take(j as int).map_values(
            |t: Seq<char>| local_word(dictionary@, t),
        ));
    }
    assert(tokens.deep_view().take(tokens.len() as int) =~= tokens.deep_view());
    let mut out = chars_of("本地兜底翻译：");
    let mut sep: Vec<char> = Vec::new();
    sep.push(' ');
    assert(sep@ =~= seq![' ']);
    let joined = join_chars(&translated, &sep);
    append_chars(&mut out, &joined);
    string_from_chars(&out)
}

// ---------------------------------------------------------------------------
// Keywords.
/// A keyword found in the dictionary: its first sense's part of speech and
/// first definition.
pub open spec fn known_keyword(lemma: Seq<char>, e: EntryView) -> KeywordView {
    KeywordView {
        word: lemma,
        part_of_speech: if e.senses.len() > 0 {
            Some(e.senses[0].part_of_speech)
        } else {
            None
        },
        brief_definition: if e.senses.len() > 0 && e.senses[0].definitions.len() > 0 {
            e.senses[0].definitions[0]
        } else {
            "未找到释义"@
        },
    }
}

/// A keyword that the dictionary does not hold.
pub open spec fn unknown_keyword(lemma: Seq<char>) -> KeywordView {
    KeywordView { word: lemma, part_of_speech: None, brief_definition: "暂无本地释义"@ }
}

/// What the scan over a text's tokens has gathered so far.
pub struct KeywordScan {
    pub keywords: Seq<KeywordView>,
    pub fallbacks: Seq<KeywordView>,
    pub seen: Seq<Seq<char>>,
    pub stopped: bool,
}

/// One token of the scan: tokens shorter than three letters, stop words and
/// lemmas seen before are passed over; a new lemma becomes a keyword where the
/// dictionary holds it, a fallback where not; the scan stops once it holds
/// `limit` keywords.
pub open spec fn scan_step(
    dict: Map<Seq<char>, EntryView>,
    st: KeywordScan,
    token: Seq<char>,
    limit: nat,
) -> KeywordScan {
    if token.len() < 3 || stop_words().contains(token) {
        st
    } else {
        let lemma = lemma_of(dict.dom(), token);
        if st.seen.contains(lemma) {
            st
        } else if dict.contains_key(lemma) {
            let kws = st.keywords.push(known_keyword(lemma, dict[lemma]));
            KeywordScan {
                keywords: kws,
                fallbacks: st.fallbacks,
                seen: st.seen.push(lemma),
                stopped: kws.len() >= limit,
            }
        } else {
            KeywordScan {
                keywords: st.keywords,
                fallbacks: st.fallbacks.push(unknown_keyword(lemma)),
                seen: st.seen.push(lemma),
                stopped: st.keywords.len() >= limit,
            }
        }
    }
}

pub open spec fn keyword_scan(dict: Map<Seq<char>, EntryView>, ts: Seq<Seq<char>>, limit: nat) -> KeywordScan
    decreases ts.len(),
{
    if ts.len() == 0 {
        KeywordScan {
            keywords: Seq::empty(),
            fallbacks: Seq::empty(),
            seen: Seq::empty(),
            stopped: false,
        }
    } else {
        let st = keyword_scan(dict, ts.drop_last(), limit);
        if st.stopped {
            st
        } else {
            scan_step(dict, st, ts.last(), limit)
        }
    }
}

/// The keywords of a text: those the dictionary holds, in order, then the
/// others while fewer than `limit` are listed.
pub open spec fn keywords_of(dict: Map<Seq<char>, EntryView>, s: Seq<char>, limit: nat) -> Seq<KeywordView> {
    let st = keyword_scan(dict, tokens(s), limit);
    let room: int = if st.keywords.len() >= limit {
        0
    } else if st.fallbacks.len() <= limit - st.keywords.len() {
        st.fallbacks.len() as int
    } else {
        limit - st.keywords.len()
    };
    st.keywords + st.fallbacks.take(room)
}

proof fn lemma_scan_stays_stopped(
    dict: Map<Seq<char>, EntryView>,
    ts: Seq<Seq<char>>,
    limit: nat,
    j: int,
    m: int,
)
    requires
        0 <= j <= m <= ts.len(),
        keyword_scan(dict, ts.take(j), limit).stopped,
    ensures
        keyword_scan(dict, ts.take(m), limit) == keyword_scan(dict, ts.take(j), limit),
    decreases m - j,
{
    if m > j {
        lemma_scan_stays_stopped(dict, ts, limit, j, m - 1);
        assert(ts.take(m).drop_last() =~= ts.take(m - 1));
    }
}

fn contains_word(seen: &Vec<Vec<char>>, w: &Vec<char>) -> (r: bool)
    ensures
        r == seen.deep_view().contains(w@),
{
    let mut i: usize = 0;
    while i < seen.len()
        invariant
            i <= seen.len(),
            forall|k: int| 0 <= k < i ==> seen.deep_view()[k] != w@,
        decreases seen.len() - i,
    {
        assert(seen.deep_view()[i as int] =~= seen[i as int]@);
        if crate::text::chars_equal(&seen[i], w) {
            return true;
        }
        i = i + 1;
    }
    false
}

fn keyword_from_entry(lemma: &String, entry: &DictionaryEntry) -> (r: KeywordDefinition)
    ensures
        r@ == known_keyword(lemma@, entry@),
{
    let part_of_speech = if entry.senses.len() > 0 {
        Some(entry.senses[0].part_of_speech.clone())
    } else {
        None
    };
    let brief_definition = if entry.senses.len() > 0 && entry.senses[0].definitions.len() > 0 {
        entry.senses[0].definitions[0].clone()
    } else {
        String::from_str("未找到释义")
    };
    KeywordDefinition { word: lemma.clone(), part_of_speech, brief_definition }
}

pub fn extract_keywords(dictionary: &Dictionary, text: &str, limit: usize) -> (r: Vec<KeywordDefinition>)
    ensures
        r.deep_view() == keywords_of(dictionary@, text@, limit as nat),
        distinct_words(r.deep_view()),
        limit > 0 ==> r.len() <= limit,
{
    proof {
        lemma_keywords_bounded_distinct(dictionary@, text@, limit as nat);
    }
    let tokens = tokenize_words(text);
    let ghost ts = tokens.deep_view();
    let mut seen: Vec<Vec<char>> = Vec::new();
    let mut keywords: Vec<KeywordDefinition> = Vec::new();
    let mut fallback_keywords: Vec<KeywordDefinition> = Vec::new();
    let mut stopped = false;
    let mut j: usize = 0;
    assert(ts.take(0) =~= Seq::<Seq<char>>::empty());
    assert(keywords.deep_view() =~= Seq::<KeywordView>::empty());
    assert(fallback_keywords.deep_view() =~= Seq::<KeywordView>::empty());
    assert(seen.deep_view() =~= Seq::<Seq<char>>::empty());
    while j < tokens.len() && !stopped
        invariant
            j <= tokens.len(),
            ts == tokens.deep_view(),
            ts == crate::dictionary::tokens(text@),
            ({
                let st = keyword_scan(dictionary@, ts.take(j as int), limit as nat);
                &&& keywords.deep_view() == st.keywords
                &&& fallback_keywords.deep_view() == st.fallbacks
                &&& seen.deep_view() == st.seen
                &&& stopped == st.stopped
            }),
        decreases tokens.len() - j,
    {
        let ghost st = keyword_scan(dictionary@, ts.take(j as int), limit as nat);
        let ghost t = ts.take(j + 1);
        assert(t.drop_last() =~= ts.take(j as int));
        assert(t.last() == tokens[j as int]@);
        let token = chars_of(tokens[j].as_str());
        if token.len() < 3 || is_stop_word(&token) {
            j = j + 1;
            continue;
        }
        let lemma = lemmatize_word(dictionary, tokens[j].as_str());
        let lemma_chars = chars_of(lemma.as_str());
        if contains_word(&seen, &lemma_chars) {
            j = j + 1;
            continue;
        }
        assert(lemma_chars.deep_view() =~= lemma_chars@);
        seen.push(lemma_chars);
        match dictionary.get(lemma.as_str()) {
            Some(entry) => {
                let keyword = keyword_from_entry(&lemma, entry);
                keywords.push(keyword);
            },
            None => {
                let keyword = KeywordDefinition {
                    word: lemma,
                    part_of_speech: None,
                    brief_definition: String::from_str("暂无本地释义"),
                };
                fallback_keywords.push(keyword);
            },
        }
        j = j + 1;
        let ghost nt = scan_step(dictionary@, st, t.last(), limit as nat);
        assert(keywords.deep_view() =~= nt.keywords);
        assert(fallback_keywords.deep_view() =~= nt.fallbacks);
        assert(seen.deep_view() =~= nt.seen);
        if keywords.len() >= limit {
            stopped = true;
        }
    }
    proof {
        if stopped {
            lemma_scan_stays_stopped(dictionary@, ts, limit as nat, j as int, ts.len() as int);
        }
        assert(ts.take(ts.len() as int) =~= ts);
    }
    let ghost kw = keywords.deep_view();
    let ghost fb = fallback_keywords.deep_view();
    let ghost room: int = if kw.len() >= limit {
        0
    } else if fb.len() <= limit - kw.len() {
        fb.len() as int
    } else {
        limit - kw.len()
    };
    let mut k: usize = 0;
    assert(fb.take(0) =~= Seq::<KeywordView>::empty());
    assert(kw + fb.take(0) =~= kw);
    while k < fallback_keywords.len()
        invariant
            k <= fallback_keywords.len(),
            fb == fallback_keywords.deep_view(),
            keywords.len() == kw.len() + k,
            keywords.deep_view() == kw + fb.take(k as int),
            k > 0 ==> kw.len() + k <= limit,
            room == (if kw.len() >= limit {
                0
            } else if fb.len() <= limit - kw.len() {
                fb.len() as int
            } else {
                limit - kw.len()
            }),
        ensures
            keywords.deep_view() == kw + fb.take(room),
        decreases fallback_keywords.len() - k,
    {
        if keywords.len() >= limit {
            break;
        }
        let keyword = fallback_keywords[k].clone();
        let ghost old_k = keywords.deep_view();
        assert(fb[k as int] == fallback_keywords[k as int]@);
        keywords.push(keyword);
        assert(keywords.deep_view() =~= old_k.push(fb[k as int]));
        k = k + 1;
        assert(keywords.deep_view() =~= kw + fb.take(k as int));
    }
    keywords
}

/// The scan's invariant: every listed word has been seen, no word is listed
/// twice, and, for a positive limit, at most `limit` keywords are listed,
/// fewer while the scan goes on.
pub open spec fn scan_wf(st: KeywordScan, limit: nat) -> bool {
    &&& forall|i: int| 0 <= i < st.keywords.len() ==> st.seen.contains(#[trigger] st.keywords[i].word)
    &&& forall|i: int| 0 <= i < st.fallbacks.len() ==> st.seen.contains(#[trigger] st.fallbacks[i].word)
    &&& distinct_words(st.keywords + st.fallbacks)
    &&& limit > 0 ==> st.keywords.len() <= limit
    &&& limit > 0 && !st.stopped ==> st.keywords.len() < limit
}

/// No two keywords are for the same word.
pub open spec fn distinct_words(ks: Seq<KeywordView>) -> bool {
    forall|i: int, j: int| 0 <= i < j < ks.len() ==> #[trigger] ks[i].word != #[trigger] ks[j].word
}

proof fn lemma_scan_wf(dict: Map<Seq<char>, EntryView>, ts: Seq<Seq<char>>, limit: nat)
    ensures
        scan_wf(keyword_scan(dict, ts, limit), limit),
    decreases ts.len(),
{
    if ts.len() == 0 {
        let st = keyword_scan(dict, ts, limit);
        assert(st.keywords + st.fallbacks =~= Seq::<KeywordView>::empty());
    } else {
        lemma_scan_wf(dict, ts.drop_last(), limit);
        let st = keyword_scan(dict, ts.drop_last(), limit);
        let nt = keyword_scan(dict, ts, limit);
        let token = ts.last();
        if !st.stopped && !(token.len() < 3 || stop_words().contains(token)) {
            let lemma = lemma_of(dict.dom(), token);
            if !st.seen.contains(lemma) {
                let old_all = st.keywords + st.fallbacks;
                let all = nt.keywords + nt.fallbacks;
                assert forall|i: int| 0 <= i < old_all.len() implies #[trigger] old_all[i].word != lemma by {
                    if i < st.keywords.len() {
                        assert(old_all[i] == st.keywords[i]);
                    } else {
                        assert(old_all[i] == st.fallbacks[i - st.keywords.len()]);
                    }
                }
                assert forall|i: int| 0 <= i < nt.keywords.len() implies nt.seen.contains(
                    #[trigger] nt.keywords[i].word,
                ) by {
                    if i < st.keywords.len() {
                        assert(nt.keywords[i] == st.keywords[i]);
                        let k = choose|k: int| 0 <= k < st.seen.len() && st.seen[k] == st.keywords[i].word;
                        assert(nt.seen[k] == st.seen[k]);
                    } else {
                        assert(nt.seen[st.seen.len() as int] == lemma);
                    }
                }
                assert forall|i: int| 0 <= i < nt.fallbacks.len() implies nt.seen.contains(
                    #[trigger] nt.fallbacks[i].word,
                ) by {
                    if i < st.fallbacks.len() {
                        assert(nt.fallbacks[i] == st.fallbacks[i]);
                        let k = choose|k: int| 0 <= k < st.seen.len() && st.seen[k] == st.fallbacks[i].word;
                        assert(nt.seen[k] == st.seen[k]);
                    } else {
                        assert(nt.seen[st.seen.len() as int] == lemma);
                    }
                }
                assert forall|i: int, j: int| 0 <= i < j < all.len() implies #[trigger] all[i].word
                    != #[trigger] all[j].word by {
                    let ki = st.keywords.len();
                    let nk = nt.keywords.len();
                    if dict.contains_key(lemma) {
                        // the new keyword sits at index `ki`
                        let oi = if i < ki {
                            i
                        } else if i == ki {
                            -1
                        } else {
                            i - 1
                        };
                        let oj = if j < ki {
                            j
                        } else if j == ki {
                            -1
                        } else {
                            j - 1
                        };
                        if i == ki {
                            assert(all[i].word == lemma);
                            assert(all[j] == old_all[oj]);
                        } else if j == ki {
                            assert(all[j].word == lemma);
                            assert(all[i] == old_all[oi]);
                        } else {
                            assert(all[i] == old_all[oi]);
                            assert(all[j] == old_all[oj]);
                        }
                    } else {
                        // the new fallback is the last one
                        if j == all.len() - 1 {
                            assert(all[j].word == lemma);
                            assert(all[i] == old_all[i]);
                        } else {
                            assert(all[i] == old_all[i]);
                            assert(all[j] == old_all[j]);
                        }
                    }
                }
            }
        }
    }
}

/// A token long enough and common enough to be a keyword: three letters or
/// more, and not a stop word.
pub open spec fn keyword_token(t: Seq<char>) -> bool {
    t.len() >= 3 && !stop_words().contains(t)
}

spec fn scan_facts(dict: Map<Seq<char>, EntryView>, ts: Seq<Seq<char>>, limit: nat, st: KeywordScan) -> bool {
    &&& forall|i: int|
        0 <= i < st.keywords.len() ==> dict.contains_key(#[trigger] st.keywords[i].word) && st.keywords[i]
            == known_keyword(st.keywords[i].word, dict[st.keywords[i].word])
    &&& forall|i: int|
        0 <= i < st.fallbacks.len() ==> !dict.contains_key(#[trigger] st.fallbacks[i].word) && st.fallbacks[i]
            == unknown_keyword(st.fallbacks[i].word)
    &&& forall|m: int|
        0 <= m < st.seen.len() && dict.contains_key(#[trigger] st.seen[m]) ==> exists|i: int|
            0 <= i < st.keywords.len() && st.keywords[i].word == st.seen[m]
    &&& st.stopped ==> st.keywords.len() >= limit
    &&& forall|k: int|
        0 <= k < ts.len() && keyword_token(#[trigger] ts[k]) && dict.contains_key(lemma_of(dict.dom(), ts[k]))
            ==> st.stopped || exists|i: int|
            0 <= i < st.keywords.len() && st.keywords[i].word == lemma_of(dict.dom(), ts[k])
}

proof fn lemma_scan_facts(dict: Map<Seq<char>, EntryView>, ts: Seq<Seq<char>>, limit: nat)
    ensures
        scan_facts(dict, ts, limit, keyword_scan(dict, ts, limit)),
    decreases ts.len(),
{
    if ts.len() > 0 {
        let d = ts.drop_last();
        lemma_scan_facts(dict, d, limit);
        let st = keyword_scan(dict, d, limit);
        let nt = keyword_scan(dict, ts, limit);
        let token = ts.last();
        assert(token == ts[ts.len() - 1]);
        assert forall|k: int| 0 <= k < d.len() implies #[trigger] ts[k] == d[k] by {}
        if st.stopped || !keyword_token(token) {
            assert(nt == st);
            assert forall|k: int|
                0 <= k < ts.len() && keyword_token(#[trigger] ts[k]) && dict.contains_key(
                    lemma_of(dict.dom(), ts[k]),
                ) implies nt.stopped || exists|i: int|
                0 <= i < nt.keywords.len() && nt.keywords[i].word == lemma_of(dict.dom(), ts[k]) by {
                if k < d.len() {
                    assert(ts[k] == d[k]);
                }
            }
        } else {
            let lemma = lemma_of(dict.dom(), token);
            if st.seen.contains(lemma) {
                assert(nt == st);
                assert forall|k: int|
                    0 <= k < ts.len() && keyword_token(#[trigger] ts[k]) && dict.contains_key(
                        lemma_of(dict.dom(), ts[k]),
                    ) implies nt.stopped || exists|i: int|
                    0 <= i < nt.keywords.len() && nt.keywords[i].word == lemma_of(dict.dom(), ts[k]) by {
                    if k < d.len() {
                        assert(ts[k] == d[k]);
                    } else {
                        let m = choose|m: int| 0 <= m < st.seen.len() && st.seen[m] == lemma;
                        assert(dict.contains_key(st.seen[m]));
                    }
                }
            } else if dict.contains_key(lemma) {
                let kw = known_keyword(lemma, dict[lemma]);
                assert(nt.keywords == st.keywords.push(kw));
                assert(nt.seen == st.seen.push(lemma));
                assert(nt.fallbacks == st.fallbacks);
                assert forall|i: int| 0 <= i < nt.keywords.len() implies dict.contains_key(
                    #[trigger] nt.keywords[i].word,
                ) && nt.keywords[i] == known_keyword(nt.keywords[i].word, dict[nt.keywords[i].word]) by {
                    if i < st.keywords.len() {
                        assert(nt.keywords[i] == st.keywords[i]);
                    }
                }
                assert forall|m: int|
                    0 <= m < nt.seen.len() && dict.contains_key(#[trigger] nt.seen[m]) implies exists|i: int|
                    0 <= i < nt.keywords.len() && nt.keywords[i].word == nt.seen[m] by {
                    if m < st.seen.len() {
                        assert(nt.seen[m] == st.seen[m]);
                        let i = choose|i: int| 0 <= i < st.keywords.len() && st.keywords[i].word == st.seen[m];
                        assert(nt.keywords[i] == st.keywords[i]);
                    } else {
                        assert(nt.keywords[st.keywords.len() as int].word == lemma);
                    }
                }
                assert forall|k: int|
                    0 <= k < ts.len() && keyword_token(#[trigger] ts[k]) && dict.contains_key(
                        lemma_of(dict.dom(), ts[k]),
                    ) implies nt.stopped || exists|i: int|
                    0 <= i < nt.keywords.len() && nt.keywords[i].word == lemma_of(dict.dom(), ts[k]) by {
                    if k < d.len() {
                        assert(ts[k] == d[k]);
                        let i = choose|i: int|
                            0 <= i < st.keywords.len() && st.keywords[i].word == lemma_of(dict.dom(), d[k]);
                        assert(nt.keywords[i] == st.keywords[i]);
                    } else {
                        assert(nt.keywords[st.keywords.len() as int].word == lemma);
                    }
                }
            } else {
                let fb = unknown_keyword(lemma);
                assert(nt.keywords == st.keywords);
                assert(nt.seen == st.seen.push(lemma));
                assert(nt.fallbacks == st.fallbacks.push(fb));
                assert forall|i: int| 0 <= i < nt.fallbacks.len() implies !dict.contains_key(
                    #[trigger] nt.fallbacks[i].word,
                ) && nt.fallbacks[i] == unknown_keyword(nt.fallbacks[i].word) by {
                    if i < st.fallbacks.len() {
                        assert(nt.fallbacks[i] == st.fallbacks[i]);
                    }
                }
                assert forall|m: int|
                    0 <= m < nt.seen.len() && dict.contains_key(#[trigger] nt.seen[m]) implies exists|i: int|
                    0 <= i < nt.keywords.len() && nt.keywords[i].word == nt.seen[m] by {
                    if m < st.seen.len() {
                        assert(nt.seen[m] == st.seen[m]);
                    }
                }
                assert forall|k: int|
                    0 <= k < ts.len() && keyword_token(#[trigger] ts[k]) && dict.contains_key(
                        lemma_of(dict.dom(), ts[k]),
                    ) implies nt.stopped || exists|i: int|
                    0 <= i < nt.keywords.len() && nt.keywords[i].word == lemma_of(dict.dom(), ts[k]) by {
                    if k < d.len() {
                        assert(ts[k] == d[k]);
                    }
                }
            }
        }
    }
}

/// Dictionary words first, and never crowded out. Every keyword that the
/// dictionary holds comes before every keyword it lacks, with the part of
/// speech and first definition of the dictionary's first sense; one it lacks
/// has no part of speech and a placeholder definition. And the lemma of every
/// token of three letters or more that is not a stop word, where the
/// dictionary holds it, is a keyword, unless `limit` dictionary keywords
/// already lead the list.
pub proof fn lemma_keywords_known_first(dict: Map<Seq<char>, EntryView>, s: Seq<char>, limit: nat)
    ensures
        ({
            let r = keywords_of(dict, s, limit);
            &&& forall|i: int, j: int|
                0 <= i < j < r.len() && dict.contains_key(#[trigger] r[j].word) ==> dict.contains_key(
                    #[trigger] r[i].word,
                )
            &&& forall|j: int|
                0 <= j < r.len() && dict.contains_key(#[trigger] r[j].word) ==> r[j].part_of_speech == (if dict[
                    r[j].word].senses.len() > 0 {
                    Some(dict[r[j].word].senses[0].part_of_speech)
                } else {
                    None
                }) && r[j].brief_definition == (if dict[r[j].word].senses.len() > 0
                    && dict[r[j].word].senses[0].definitions.len() > 0 {
                    dict[r[j].word].senses[0].definitions[0]
                } else {
                    "未找到释义"@
                })
            &&& forall|j: int|
                0 <= j < r.len() && !dict.contains_key(#[trigger] r[j].word) ==> r[j].part_of_speech is None
                    && r[j].brief_definition == "暂无本地释义"@
            &&& forall|k: int|
                0 <= k < tokens(s).len() && keyword_token(#[trigger] tokens(s)[k]) && dict.contains_key(
                    lemma_of(dict.dom(), tokens(s)[k]),
                ) ==> (exists|j: int| 0 <= j < r.len() && r[j].word == lemma_of(dict.dom(), tokens(s)[k])) || (
                r.len() >= limit && forall|j: int| 0 <= j < limit ==> dict.contains_key(#[trigger] r[j].word))
        }),
{
    let ts = tokens(s);
    let st = keyword_scan(dict, ts, limit);
    lemma_scan_facts(dict, ts, limit);
    let r = keywords_of(dict, s, limit);
    let kw = st.keywords;
    let fb = st.fallbacks;
    let room: int = if kw.len() >= limit {
        0
    } else if fb.len() <= limit - kw.len() {
        fb.len() as int
    } else {
        limit - kw.len()
    };
    assert(r == kw + fb.take(room));
    assert forall|j: int| 0 <= j < r.len() implies (#[trigger] r[j] == if j < kw.len() {
        kw[j]
    } else {
        fb[j - kw.len()]
    }) by {}
    assert forall|i: int, j: int|
        0 <= i < j < r.len() && dict.contains_key(#[trigger] r[j].word) implies dict.contains_key(
        #[trigger] r[i].word,
    ) by {
        if j >= kw.len() {
            assert(r[j] == fb[j - kw.len()]);
        }
        assert(r[i] == kw[i]);
    }
    assert forall|j: int| 0 <= j < r.len() && dict.contains_key(#[trigger] r[j].word) implies r[j].part_of_speech
        == (if dict[r[j].word].senses.len() > 0 {
        Some(dict[r[j].word].senses[0].part_of_speech)
    } else {
        None
    }) && r[j].brief_definition == (if dict[r[j].word].senses.len() > 0 && dict[r[j].word].senses[0].definitions.len()
        > 0 {
        dict[r[j].word].senses[0].definitions[0]
    } else {
        "未找到释义"@
    }) by {
        if j >= kw.len() {
            assert(r[j] == fb[j - kw.len()]);
        } else {
            assert(r[j] == kw[j]);
        }
    }
    assert forall|j: int| 0 <= j < r.len() && !dict.contains_key(#[trigger] r[j].word) implies r[j].part_of_speech
        is None && r[j].brief_definition == "暂无本地释义"@ by {
        if j < kw.len() {
            assert(r[j] == kw[j]);
        } else {
            assert(r[j] == fb[j - kw.len()]);
        }
    }
    assert forall|k: int|
        0 <= k < ts.len() && keyword_token(#[trigger] ts[k]) && dict.contains_key(lemma_of(dict.dom(), ts[k]))
            implies (exists|j: int| 0 <= j < r.len() && r[j].word == lemma_of(dict.dom(), ts[k])) || (r.len()
        >= limit && forall|j: int| 0 <= j < limit ==> dict.contains_key(#[trigger] r[j].word)) by {
        if st.stopped {
            assert(r =~= kw);
            assert forall|j: int| 0 <= j < limit implies dict.contains_key(#[trigger] r[j].word) by {
                assert(r[j] == kw[j]);
            }
        } else {
            let i = choose|i: int| 0 <= i < kw.len() && kw[i].word == lemma_of(dict.dom(), ts[k]);
            assert(r[i] == kw[i]);
        }
    }
}

/// The keywords of a text are for distinct words, and for a positive limit
/// there are at most `limit` of them.
pub proof fn lemma_keywords_bounded_distinct(dict: Map<Seq<char>, EntryView>, s: Seq<char>, limit: nat)
    ensures
        distinct_words(keywords_of(dict, s, limit)),
        limit > 0 ==> keywords_of(dict, s, limit).len() <= limit,
{
    let st = keyword_scan(dict, tokens(s), limit);
    lemma_scan_wf(dict, tokens(s), limit);
    let all = st.keywords + st.fallbacks;
    let r = keywords_of(dict, s, limit);
    assert forall|i: int, j: int| 0 <= i < j < r.len() implies #[trigger] r[i].word != #[trigger] r[j].word by {
        assert(r[i] == all[i]);
        assert(r[j] == all[j]);
    }
}

// ---------------------------------------------------------------------------
// Page text.
/// The page without carriage returns and line feeds.
pub open spec fn clean_html(s: Seq<char>) -> Seq<char> {
    replace_all(replace_all(s, "\r"@, ""@), "\n"@, ""@)
}

pub fn clean_html_text(input: &Vec<char>) -> (r: Vec<char>)
    ensures
        r@ == clean_html(input@),
{
    proof {
        reveal_strlit("\r");
        reveal_strlit("\n");
    }
    let a = replace_str(input, "\r", "");
    replace_str(&a, "\n", "")
}

/// The text with the entities `&nbsp;`, `&amp;`, `&lt;`, `&gt;`, `&quot;` and
/// `&#39;` replaced, in that order.
pub open spec fn entities_decoded(s: Seq<char>) -> Seq<char> {
    let a = replace_all(s, "&nbsp;"@, " "@);
    let b = replace_all(a, "&amp;"@, "&"@);
    let c = replace_all(b, "&lt;"@, "<"@);
    let d = replace_all(c, "&gt;"@, ">"@);
    let e = replace_all(d, "&quot;"@, "\""@);
    replace_all(e, "&#39;"@, "'"@)
}

pub fn html_entity_decode(input: &Vec<char>) -> (r: Vec<char>)
    ensures
        r@ == entities_decoded(input@),
{
    proof {
        reveal_strlit("&nbsp;");
        reveal_strlit("&amp;");
        reveal_strlit("&lt;");
        reveal_strlit("&gt;");
        reveal_strlit("&quot;");
        reveal_strlit("&#39;");
    }
    let a = replace_str(input, "&nbsp;", " ");
    let b = replace_str(&a, "&amp;", "&");
    let c = replace_str(&b, "&lt;", "<");
    let d = replace_str(&c, "&gt;", ">");
    let e = replace_str(&d, "&quot;", "\"");
    replace_str(&e, "&#39;", "'")
}

/// Characters that UTF-8 text read as another encoding is full of.
pub open spec fn looks_mojibake_text(s: Seq<char>) -> bool {
    exists|i: int|
        0 <= i < s.len() && (s[i] == '锟' || s[i] == '閿' || s[i] == '鍙' || s[i] == '鐨' || s[i]
            == '寮' || s[i] == '璇' || s[i] == '鏂' || s[i] == '銆' || s[i] == '鈥')
}

fn looks_mojibake(text: &Vec<char>) -> (r: bool)
    ensures
        r == looks_mojibake_text(text@),
{
    let mut i: usize = 0;
    while i < text.len()
        invariant
            i <= text.len(),
            forall|k: int|
                0 <= k < i ==> !(text@[k] == '锟' || text@[k] == '閿' || text@[k] == '鍙' || text@[k]
                    == '鐨' || text@[k] == '寮' || text@[k] == '璇' || text@[k] == '鏂' || text@[k]
                    == '銆' || text@[k] == '鈥'),
        decreases text.len() - i,
    {
        let c = text[i];
        if c == '锟' || c == '閿' || c == '鍙' || c == '鐨' || c == '寮' || c == '璇' || c == '鏂' || c
            == '銆' || c == '鈥' {
            return true;
        }
        i = i + 1;
    }
    false
}

/// Names what `encoding_rs::GB18030.decode` gives for a page's bytes.
pub uninterp spec fn gb18030_text(bytes: Seq<u8>) -> Seq<char>;

/// `encoding_rs::Encoding::decode` with `GB18030`: the page's bytes decoded,
/// named by `gb18030_text`. It depends on the bytes alone: a leading byte
/// order mark, sniffed by `decode`, is part of them.
#[verifier::external_body]
fn decode_gb18030(bytes: &[u8]) -> (r: String)
    ensures
        r@ == gb18030_text(bytes@),
{
    let (text, _, _) = encoding_rs::GB18030.decode(bytes);
    text.into_owned()
}

/// `std::str::from_utf8`: the text that valid UTF-8 bytes encode, `None` for
/// other bytes.
#[verifier::external_body]
fn utf8_text(bytes: &[u8]) -> (r: Option<String>)
    ensures
        r is Some <==> valid_utf8(bytes@),
        r matches Some(s) ==> s@ == decode_utf8(bytes@),
{
    match std::str::from_utf8(bytes) {
        Ok(text) => Some(text.to_string()),
        Err(_) => None,
    }
}

/// The text of a page: its UTF-8 reading where that is valid and does not
/// look garbled, its GB18030 reading otherwise.
pub open spec fn response_text(bytes: Seq<u8>) -> Seq<char> {
    if valid_utf8(bytes) && !looks_mojibake_text(decode_utf8(bytes)) {
        decode_utf8(bytes)
    } else {
        gb18030_text(bytes)
    }
}

pub fn decode_response_text(bytes: &[u8]) -> (r: Vec<char>)
    ensures
        r@ == response_text(bytes@),
{
    if let Some(text) = utf8_text(bytes) {
        let chars = chars_of(text.as_str());
        if !looks_mojibake(&chars) {
            return chars;
        }
    }
    let decoded = decode_gb18030(bytes);
    chars_of(decoded.as_str())
}

// ---------------------------------------------------------------------------
// Dictionary lines.
/// The Chinese name of an English part-of-speech abbreviation (a trailing
/// full stop and surrounding whitespace ignored); other text, trimmed.
pub open spec fn part_of_speech_label(raw: Seq<char>) -> Seq<char> {
    let k = trim_end_class(trim(raw), CharClass::Period);
    if k == "n"@ {
        "名词"@
    } else if k == "v"@ || k == "vt"@ || k == "vi"@ {
        "动词"@
    } else if k == "adj"@ {
        "形容词"@
    } else if k == "adv"@ {
        "副词"@
    } else if k == "prep"@ {
        "介词"@
    } else if k == "pron"@ {
        "代词"@
    } else if k == "conj"@ {
        "连词"@
    } else if k == "aux"@ {
        "助动词"@
    } else if k == "num"@ {
        "数词"@
    } else if k == "int"@ {
        "感叹词"@
    } else if k == "art"@ {
        "冠词"@
    } else {
        trim(raw)
    }
}

proof fn lemma_trim_start_pad(pre: Seq<char>, x: Seq<char>, cls: CharClass)
    requires
        forall|k: int| 0 <= k < pre.len() ==> crate::text::in_class(cls, #[trigger] pre[k]),
        x.len() > 0,
        !crate::text::in_class(cls, x[0]),
    ensures
        crate::text::trim_start_class(pre + x, cls) == x,
    decreases pre.len(),
{
    if pre.len() == 0 {
        assert(pre + x =~= x);
    } else {
        let p1 = pre.drop_first();
        assert forall|k: int| 0 <= k < p1.len() implies crate::text::in_class(cls, #[trigger] p1[k]) by {
            assert(p1[k] == pre[k + 1]);
        }
        lemma_trim_start_pad(p1, x, cls);
        assert((pre + x)[0] == pre[0]);
        assert((pre + x).drop_first() =~= p1 + x);
    }
}

proof fn lemma_trim_end_pad(x: Seq<char>, post: Seq<char>, cls: CharClass)
    requires
        forall|k: int| 0 <= k < post.len() ==> crate::text::in_class(cls, #[trigger] post[k]),
        x.len() > 0,
        !crate::text::in_class(cls, x.last()),
    ensures
        trim_end_class(x + post, cls) == x,
    decreases post.len(),
{
    if post.len() == 0 {
        assert(x + post =~= x);
    } else {
        let p1 = post.drop_last();
        assert forall|k: int| 0 <= k < p1.len() implies crate::text::in_class(cls, #[trigger] p1[k]) by {
            assert(p1[k] == post[k]);
        }
        lemma_trim_end_pad(x, p1, cls);
        assert((x + post).last() == post.last());
        assert(post.last() == post[post.len() - 1]);
        assert((x + post).drop_last() =~= x + p1);
    }
}

/// The abbreviation that a part-of-speech label is looked up by: an
/// abbreviation `a` (no whitespace or full stop at its ends) padded with
/// whitespace and followed by full stops is read as `a`.
proof fn lemma_label_key(pre: Seq<char>, a: Seq<char>, dots: Seq<char>, post: Seq<char>)
    requires
        forall|k: int| 0 <= k < pre.len() ==> crate::text::is_whitespace(#[trigger] pre[k]),
        forall|k: int| 0 <= k < post.len() ==> crate::text::is_whitespace(#[trigger] post[k]),
        forall|k: int| 0 <= k < dots.len() ==> #[trigger] dots[k] == '.',
        a.len() > 0,
        !crate::text::is_whitespace(a[0]),
        !crate::text::is_whitespace(a.last()),
        a.last() != '.',
    ensures
        trim_end_class(trim(pre + a + dots + post), CharClass::Period) == a,
{
    let x = a + dots;
    assert(x[0] == a[0]);
    assert(x.len() > 0);
    assert(!crate::text::is_whitespace(x.last())) by {
        if dots.len() > 0 {
            assert(x.last() == dots[dots.len() - 1]);
        } else {
            assert(x.last() == a.last());
        }
    }
    assert(pre + a + dots + post =~= pre + (x + post));
    lemma_trim_start_pad(pre, x + post, CharClass::Whitespace);
    assert((x + post)[0] == x[0]);
    lemma_trim_end_pad(x, post, CharClass::Whitespace);
    assert forall|k: int| 0 <= k < dots.len() implies crate::text::in_class(CharClass::Period, #[trigger] dots[k]) by {}
    lemma_trim_end_pad(a, dots, CharClass::Period);
}

/// Each English part-of-speech abbreviation, with whitespace around it and
/// full stops after it, is named in Chinese: `n` a noun (名词); `v`, `vt` and
/// `vi` a verb (动词); `adj`, `adv`, `prep`, `pron`, `conj`, `aux`, `num`,
/// `int` and `art` an adjective, adverb, preposition, pronoun, conjunction,
/// auxiliary, numeral, interjection and article.
pub proof fn lemma_part_of_speech_labels(pre: Seq<char>, dots: Seq<char>, post: Seq<char>)
    requires
        forall|k: int| 0 <= k < pre.len() ==> crate::text::is_whitespace(#[trigger] pre[k]),
        forall|k: int| 0 <= k < post.len() ==> crate::text::is_whitespace(#[trigger] post[k]),
        forall|k: int| 0 <= k < dots.len() ==> #[trigger] dots[k] == '.',
    ensures
        part_of_speech_label(pre + seq!['n'] + dots + post) == "名词"@,
        part_of_speech_label(pre + seq!['v'] + dots + post) == "动词"@,
        part_of_speech_label(pre + seq!['v', 't'] + dots + post) == "动词"@,
        part_of_speech_label(pre + seq!['v', 'i'] + dots + post) == "动词"@,
        part_of_speech_label(pre + seq!['a', 'd', 'j'] + dots + post) == "形容词"@,
        part_of_speech_label(pre + seq!['a', 'd', 'v'] + dots + post) == "副词"@,
        part_of_speech_label(pre + seq!['p', 'r', 'e', 'p'] + dots + post) == "介词"@,
        part_of_speech_label(pre + seq!['p', 'r', 'o', 'n'] + dots + post) == "代词"@,
        part_of_speech_label(pre + seq!['c', 'o', 'n', 'j'] + dots + post) == "连词"@,
        part_of_speech_label(pre + seq!['a', 'u', 'x'] + dots + post) == "助动词"@,
        part_of_speech_label(pre + seq!['n', 'u', 'm'] + dots + post) == "数词"@,
        part_of_speech_label(pre + seq!['i', 'n', 't'] + dots + post) == "感叹词"@,
        part_of_speech_label(pre + seq!['a', 'r', 't'] + dots + post) == "冠词"@,
{
    reveal_strlit("n");
    reveal_strlit("v");
    reveal_strlit("vt");
    reveal_strlit("vi");
    reveal_strlit("adj");
    reveal_strlit("adv");
    reveal_strlit("prep");
    reveal_strlit("pron");
    reveal_strlit("conj");
    reveal_strlit("aux");
    reveal_strlit("num");
    reveal_strlit("int");
    reveal_strlit("art");
    lemma_label_key(pre, seq!['n'], dots, post);
    lemma_label_key(pre, seq!['v'], dots, post);
    lemma_label_key(pre, seq!['v', 't'], dots, post);
    lemma_label_key(pre, seq!['v', 'i'], dots, post);
    lemma_label_key(pre, seq!['a', 'd', 'j'], dots, post);
    lemma_label_key(pre, seq!['a', 'd', 'v'], dots, post);
    lemma_label_key(pre, seq!['p', 'r', 'e', 'p'], dots, post);
    lemma_label_key(pre, seq!['p', 'r', 'o', 'n'], dots, post);
    lemma_label_key(pre, seq!['c', 'o', 'n', 'j'], dots, post);
    lemma_label_key(pre, seq!['a', 'u', 'x'], dots, post);
    lemma_label_key(pre, seq!['n', 'u', 'm'], dots, post);
    lemma_label_key(pre, seq!['i', 'n', 't'], dots, post);
    lemma_label_key(pre, seq!['a', 'r', 't'], dots, post);
    assert("n"@ =~= seq!['n']);
    assert("v"@ =~= seq!['v']);
    assert("vt"@ =~= seq!['v', 't']);
    assert("vi"@ =~= seq!['v', 'i']);
    assert("adj"@ =~= seq!['a', 'd', 'j']);
    assert("adv"@ =~= seq!['a', 'd', 'v']);
    assert("prep"@ =~= seq!['p', 'r', 'e', 'p']);
    assert("pron"@ =~= seq!['p', 'r', 'o', 'n']);
    assert("conj"@ =~= seq!['c', 'o', 'n', 'j']);
    assert("aux"@ =~= seq!['a', 'u', 'x']);
    assert("num"@ =~= seq!['n', 'u', 'm']);
    assert("int"@ =~= seq!['i', 'n', 't']);
    assert("art"@ =~= seq!['a', 'r', 't']);
    assert(seq!['v'][0] != seq!['n'][0]);
}

fn same_as(v: &Vec<char>, s: &str) -> (r: bool)
    ensures
        r == (v@ == s@),
{
    let w = chars_of(s);
    chars_equal(v, &w)
}

pub fn normalize_part_of_speech(raw: &Vec<char>) -> (r: String)
    ensures
        r@ == part_of_speech_label(raw@),
{
    let t = trim_chars(raw, CharClass::Whitespace);
    let k = trim_end_chars(&t, CharClass::Period);
    if same_as(&k, "n") {
        String::from_str("名词")
    } else if same_as(&k, "v") || same_as(&k, "vt") || same_as(&k, "vi") {
        String::from_str("动词")
    } else if same_as(&k, "adj") {
        String::from_str("形容词")
    } else if same_as(&k, "adv") {
        String::from_str("副词")
    } else if same_as(&k, "prep") {
        String::from_str("介词")
    } else if same_as(&k, "pron") {
        String::from_str("代词")
    } else if same_as(&k, "conj") {
        String::from_str("连词")
    } else if same_as(&k, "aux") {
        String::from_str("助动词")
    } else if same_as(&k, "num") {
        String::from_str("数词")
    } else if same_as(&k, "int") {
        String::from_str("感叹词")
    } else if same_as(&k, "art") {
        String::from_str("冠词")
    } else {
        string_from_chars(&t)
    }
}

/// A dictionary line with `&nbsp;` as spaces and full-width semicolons as
/// ASCII ones.
pub open spec fn youdao_line(line: Seq<char>) -> Seq<char> {
    replace_all(replace_all(line, "&nbsp;"@, " "@), "；"@, ";"@)
}

/// The part of speech before the line's first space (or a generic label
/// where there is none), and the non-empty trimmed definitions after it that
/// semicolons separate.
pub open spec fn definition_parts(line: Seq<char>) -> (Seq<char>, Seq<Seq<char>>) {
    let n = youdao_line(line);
    let pos = match first_index_of(n, ' ') {
        Some(i) => part_of_speech_label(n.take(i)),
        None => "释义"@,
    };
    let detail = match first_index_of(n, ' ') {
        Some(i) => trim(n.skip(i + 1)),
        None => trim(n),
    };
    (
        pos,
        nonempty_parts(
            split_class(detail, CharClass::Semicolon).map_values(
                |p: Seq<char>| trim_class(p, CharClass::Whitespace),
            ),
        ),
    )
}

pub fn split_youdao_definition(line: &Vec<char>) -> (r: (String, Vec<String>))
    ensures
        (r.0@, r.1.deep_view()) == definition_parts(line@),
{
    proof {
        reveal_strlit("&nbsp;");
        reveal_strlit("；");
    }
    let a = replace_str(line, "&nbsp;", " ");
    let normalized = replace_str(&a, "；", ";");
    let (pos, detail) = match find_char(&normalized, ' ') {
        Some(i) => {
            let head = sub_chars(&normalized, 0, i);
            let tail = sub_chars(&normalized, i + 1, normalized.len());
            assert(head@ =~= normalized@.take(i as int));
            assert(tail@ =~= normalized@.skip(i + 1));
            (normalize_part_of_speech(&head), trim_chars(&tail, CharClass::Whitespace))
        },
        None => (String::from_str("释义"), trim_chars(&normalized, CharClass::Whitespace)),
    };
    let parts = split_chars(&detail, CharClass::Semicolon);
    let trimmed = trim_each(&parts, CharClass::Whitespace);
    let kept = keep_nonempty(&trimmed);
    (pos, strings_from_parts(&kept))
}

// ---------------------------------------------------------------------------
// Online dictionary pages.
/// The translation on the online translator's page.
pub const TRANSLATION_PATTERN: &'static str = r#"<ul id="translateResult">\s*<li>(.*?)</li>"#;

/// The phonetic transcription on a dictionary page.
pub const PHONETIC_PATTERN: &'static str = r#"<span class="phonetic">\[(.*?)\]</span>"#;

/// The list of senses on a dictionary page.
pub const SENSE_PATTERN: &'static str = r#"(?s)<div id="ec".*?<ul>(.*?)</ul>"#;

/// One sense of that list.
pub const ITEM_PATTERN: &'static str = r#"<li>(.*?)</li>"#;

/// Whether `part` occurs in `whole` as a run of consecutive characters (a
/// capture is a slice of the text it was found in).
pub open spec fn occurs_in(part: Seq<char>, whole: Seq<char>) -> bool {
    exists|i: int| 0 <= i && i + part.len() <= whole.len() && #[trigger] whole.subrange(i, i + part.len()) == part
}

/// Whether the text holds no carriage return and no line feed.
pub open spec fn single_line(s: Seq<char>) -> bool {
    forall|k: int| 0 <= k < s.len() ==> #[trigger] s[k] != '\r' && s[k] != '\n'
}

proof fn lemma_replace_drops(s: Seq<char>, c: char)
    ensures
        forall|k: int|
            0 <= k < replace_all(s, seq![c], Seq::<char>::empty()).len() ==> #[trigger] replace_all(
                s,
                seq![c],
                Seq::<char>::empty(),
            )[k] != c && s.contains(replace_all(s, seq![c], Seq::<char>::empty())[k]),
    decreases s.len(),
{
    let p = seq![c];
    let e = Seq::<char>::empty();
    if s.len() > 0 {
        if starts_with_at(s, 0, p) {
            lemma_replace_drops(s.skip(1), c);
            let r = replace_all(s, p, e);
            assert(r =~= e + replace_all(s.skip(1), p, e));
            assert forall|k: int| 0 <= k < r.len() implies #[trigger] r[k] != c && s.contains(r[k]) by {
                let t = s.skip(1);
                assert(t.contains(r[k]));
                let j = choose|j: int| 0 <= j < t.len() && t[j] == r[k];
                assert(s[j + 1] == r[k]);
            }
        } else {
            lemma_replace_drops(s.skip(1), c);
            let r = replace_all(s, p, e);
            let rest = replace_all(s.skip(1), p, e);
            assert(s.subrange(0, 1) =~= seq![s[0]]);
            assert(s[0] != c);
            assert forall|k: int| 0 <= k < r.len() implies #[trigger] r[k] != c && s.contains(r[k]) by {
                if k == 0 {
                    assert(r[0] == s[0]);
                } else {
                    assert(r[k] == rest[k - 1]);
                    let t = s.skip(1);
                    let j = choose|j: int| 0 <= j < t.len() && t[j] == rest[k - 1];
                    assert(s[j + 1] == r[k]);
                }
            }
        }
    }
}

/// The page with its line breaks removed holds none.
pub proof fn lemma_clean_html_single_line(s: Seq<char>)
    ensures
        single_line(clean_html(s)),
{
    reveal_strlit("\r");
    reveal_strlit("\n");
    reveal_strlit("");
    let e = Seq::<char>::empty();
    let a = replace_all(s, seq!['\r'], e);
    assert("\r"@ =~= seq!['\r']);
    assert("\n"@ =~= seq!['\n']);
    assert(""@ =~= e);
    lemma_replace_drops(s, '\r');
    lemma_replace_drops(a, '\n');
    let b = replace_all(a, seq!['\n'], e);
    assert forall|k: int| 0 <= k < b.len() implies #[trigger] b[k] != '\r' && b[k] != '\n' by {
        assert(a.contains(b[k]));
        let j = choose|j: int| 0 <= j < a.len() && a[j] == b[k];
        assert(a[j] != '\r');
    }
}

proof fn lemma_single_line_part(part: Seq<char>, whole: Seq<char>)
    requires
        occurs_in(part, whole),
        single_line(whole),
    ensures
        single_line(part),
        single_line(trim(part)),
{
    let i = choose|i: int| 0 <= i && i + part.len() <= whole.len() && #[trigger] whole.subrange(i, i + part.len()) == part;
    assert forall|k: int| 0 <= k < part.len() implies #[trigger] part[k] != '\r' && part[k] != '\n' by {
        assert(part[k] == whole[i + k]);
    }
    let q = |ch: char| ch != '\r' && ch != '\n';
    crate::text::lemma_trim_class_chars(part, CharClass::Whitespace, q);
    assert forall|k: int| 0 <= k < trim(part).len() implies #[trigger] trim(part)[k] != '\r' && trim(part)[k]
        != '\n' by {
        assert(q(trim(part)[k]));
    }
}

/// Names what the `regex` crate finds for `pattern` in `haystack`: the text of
/// capture group 1 of the leftmost match, `None` where nothing matches, the
/// group took no part, or the pattern does not compile.
pub uninterp spec fn regex_group1(pattern: Seq<char>, haystack: Seq<char>) -> Option<Seq<char>>;

/// Names what the `regex` crate finds for `pattern` in `haystack` match by
/// match: the text of capture group 1 of each successive non-overlapping
/// match; empty where the pattern does not compile.
pub uninterp spec fn regex_group1_all(pattern: Seq<char>, haystack: Seq<char>) -> Seq<Option<Seq<char>>>;

/// `regex::Regex::new` then `Regex::captures`: capture group 1 of the
/// leftmost match, named by `regex_group1`.
#[verifier::external_body]
fn first_capture(pattern: &str, haystack: &str) -> (r: Option<String>)
    ensures
        r.deep_view() == regex_group1(pattern@, haystack@),
        r matches Some(c) ==> occurs_in(c@, haystack@),
{
    let re = match regex::Regex::new(pattern) {
        Ok(re) => re,
        Err(_) => return None,
    };
    let caps = match re.captures(haystack) {
        Some(caps) => caps,
        None => return None,
    };
    match caps.get(1) {
        Some(m) => Some(m.as_str().to_string()),
        None => None,
    }
}

/// `regex::Regex::new` then `Regex::captures_iter`: capture group 1 of each
/// match, named by `regex_group1_all`.
#[verifier::external_body]
fn all_captures(pattern: &str, haystack: &str) -> (r: Vec<Option<String>>)
    ensures
        r.deep_view() == regex_group1_all(pattern@, haystack@),
        forall|k: int| 0 <= k < r.len() ==> (#[trigger] r[k] matches Some(c) ==> occurs_in(c@, haystack@)),
{
    let mut out = Vec::new();
    if let Ok(re) = regex::Regex::new(pattern) {
        for caps in re.captures_iter(haystack) {
            out.push(caps.get(1).map(|m| m.as_str().to_string()));
        }
    }
    out
}

/// The captured translation, trimmed, where it is not empty.
pub open spec fn translation_of(capture: Option<Seq<char>>) -> Option<Seq<char>> {
    match capture {
        Some(t) => if trim(t).len() > 0 {
            Some(trim(t))
        } else {
            None
        },
        None => None,
    }
}

/// Reads the translation out of the captured text of the translator's page.
pub fn translation_from_capture(capture: Option<String>) -> (r: Option<String>)
    ensures
        r.deep_view() == translation_of(capture.deep_view()),
{
    match capture {
        Some(text) => {
            let v = chars_of(text.as_str());
            let t = trim_chars(&v, CharClass::Whitespace);
            if t.len() > 0 {
                Some(string_from_chars(&t))
            } else {
                None
            }
        },
        None => None,
    }
}

/// The translation on the online translator's page, given the page's bytes.
pub open spec fn page_translation(page: Seq<u8>) -> Option<Seq<char>> {
    translation_of(regex_group1(TRANSLATION_PATTERN@, clean_html(response_text(page))))
}

/// Reads the translation out of the online translator's answer (the bytes of
/// a successful response).
pub fn online_translate_text(page: &[u8]) -> (r: Option<String>)
    ensures
        r.deep_view() == page_translation(page@),
        r matches Some(t) ==> t@.len() > 0 && single_line(t@),
{
    let text = decode_response_text(page);
    let html = clean_html_text(&text);
    let html_string = string_from_chars(&html);
    let capture = first_capture(TRANSLATION_PATTERN, html_string.as_str());
    proof {
        lemma_clean_html_single_line(text@);
        if capture is Some {
            lemma_single_line_part(capture->0@, html_string@);
        }
    }
    translation_from_capture(capture)
}

pub struct OnlineWordView {
    pub lemma: Seq<char>,
    pub phonetic: Option<Seq<char>>,
    pub senses: Seq<SenseView>,
}

/// A word as the online dictionary gives it.
#[derive(Debug)]
pub struct OnlineWordResult {
    pub lemma: String,
    pub phonetic: Option<String>,
    pub senses: Vec<DictionarySense>,
}

impl View for OnlineWordResult {
    type V = OnlineWordView;

    open spec fn view(&self) -> OnlineWordView {
        OnlineWordView {
            lemma: self.lemma@,
            phonetic: self.phonetic.deep_view(),
            senses: self.senses.deep_view(),
        }
    }
}

/// The captured transcription, trimmed, in square brackets.
pub open spec fn phonetic_of(capture: Option<Seq<char>>) -> Option<Seq<char>> {
    match capture {
        Some(t) => Some(seq!['['] + trim(t) + seq![']']),
        None => None,
    }
}

/// Writes the captured transcription of a dictionary page in square brackets.
pub fn phonetic_from_capture(capture: Option<String>) -> (r: Option<String>)
    ensures
        r.deep_view() == phonetic_of(capture.deep_view()),
{
    match capture {
        Some(text) => {
            let v = chars_of(text.as_str());
            let t = trim_chars(&v, CharClass::Whitespace);
            let mut out: Vec<char> = Vec::new();
            out.push('[');
            append_chars(&mut out, &t);
            out.push(']');
            assert(out@ =~= seq!['['] + t@ + seq![']']);
            Some(string_from_chars(&out))
        },
        None => None,
    }
}

/// The sense that one captured list item gives: its trimmed text with
/// entities decoded, split into a part of speech and definitions; none for an
/// empty line or a line without definitions.
pub open spec fn sense_of_item(item: Option<Seq<char>>) -> Option<SenseView> {
    match item {
        None => None,
        Some(t) => {
            let line = entities_decoded(trim(t));
            if line.len() == 0 {
                None
            } else if definition_parts(line).1.len() == 0 {
                None
            } else {
                Some(
                    SenseView {
                        part_of_speech: definition_parts(line).0,
                        definitions: definition_parts(line).1,
                    },
                )
            }
        },
    }
}

pub open spec fn senses_of_items(items: Seq<Option<Seq<char>>>) -> Seq<SenseView>
    decreases items.len(),
{
    if items.len() == 0 {
        Seq::<SenseView>::empty()
    } else {
        let prev = senses_of_items(items.drop_last());
        match sense_of_item(items.last()) {
            Some(sense) => prev.push(sense),
            None => prev,
        }
    }
}

/// Reads the senses out of the captured items of a dictionary page's list.
pub fn senses_from_items(items: &Vec<Option<String>>) -> (r: Vec<DictionarySense>)
    ensures
        r.deep_view() == senses_of_items(items.deep_view()),
{
    let mut senses: Vec<DictionarySense> = Vec::new();
    let mut j: usize = 0;
    assert(items.deep_view().take(0) =~= Seq::<Option<Seq<char>>>::empty());
    while j < items.len()
        invariant
            j <= items.len(),
            senses.deep_view() == senses_of_items(items.deep_view().take(j as int)),
        decreases items.len() - j,
    {
        let ghost t = items.deep_view().take(j + 1);
        assert(t.drop_last() =~= items.deep_view().take(j as int));
        assert(t.last() == items[j as int].deep_view());
        if let Some(item) = &items[j] {
            let v = chars_of(item.as_str());
            let trimmed = trim_chars(&v, CharClass::Whitespace);
            let line = html_entity_decode(&trimmed);
            if line.len() > 0 {
                let (part_of_speech, definitions) = split_youdao_definition(&line);
                if definitions.len() > 0 {
                    let ghost old_s = senses.deep_view();
                    let sense = DictionarySense { part_of_speech, definitions };
                    senses.push(sense);
                    assert(senses.deep_view() =~= old_s.push(sense_of_item(t.last())->0));
                }
            }
        }
        j = j + 1;
    }
    assert(items.deep_view().take(items.len() as int) =~= items.deep_view());
    senses
}

/// The word that the online dictionary's page gives, looked up as `word`:
/// none where the page has no list of senses or no sense in it.
pub open spec fn page_word(word: Seq<char>, page: Seq<u8>) -> Option<OnlineWordView> {
    let html = clean_html(response_text(page));
    match regex_group1(SENSE_PATTERN@, html) {
        None => None,
        Some(list) => {
            let senses = senses_of_items(regex_group1_all(ITEM_PATTERN@, list));
            if senses.len() == 0 {
                None
            } else {
                Some(
                    OnlineWordView {
                        lemma: unicode_lowercase(word),
                        phonetic: phonetic_of(regex_group1(PHONETIC_PATTERN@, html)),
                        senses,
                    },
                )
            }
        },
    }
}

/// Reads a word out of the online dictionary's answer (the bytes of a
/// successful response) for `word`.
pub fn online_lookup_word(word: &str, page: &[u8]) -> (r: Option<OnlineWordResult>)
    ensures
        match r {
            Some(w) => page_word(word@, page@) == Some(w@),
            None => page_word(word@, page@) is None,
        },
        r matches Some(w) ==> w.senses.len() > 0,
{
    let text = decode_response_text(page);
    let html = clean_html_text(&text);
    let html_string = string_from_chars(&html);
    let phonetic = phonetic_from_capture(first_capture(PHONETIC_PATTERN, html_string.as_str()));
    let list_html = match first_capture(SENSE_PATTERN, html_string.as_str()) {
        Some(list) => list,
        None => return None,
    };
    let items = all_captures(ITEM_PATTERN, list_html.as_str());
    let senses = senses_from_items(&items);
    if senses.len() == 0 {
        return None;
    }
    Some(OnlineWordResult { lemma: to_lowercase(word), phonetic, senses })
}

} // verus!
