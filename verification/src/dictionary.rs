//! The local dictionary, and the normalising, tokenising and lemmatising of
//! selected text.
use vstd::prelude::*;
use vstd::hash_map::StringHashMap;

use crate::models::{DictionaryEntry, EntryView};
use crate::text::{
    append_chars, ascii_lower_chars, ascii_lower_seq, chars_of, contains_char, ends_with, ends_with_chars,
    join_chars, join_with, keep_nonempty, split_chars, split_class, string_from_chars, sub_chars,
    to_lowercase, trim_chars, trim_class, unicode_lowercase, words, CharClass, is_word_char,
    is_ascii_lower, lemma_split_class_parts, lemma_trim_class_chars, lemma_split_class_nonempty,
    ascii_lower, is_ascii_text, is_whitespace, in_class, lemma_join_chars, lemma_lower_join, lemma_words_chars,
    lemma_words_of_join,
};

verus! {

/// The entries of the local dictionary, found by their word.
pub struct Dictionary {
    entries: StringHashMap<DictionaryEntry>,
}

/// The map that a list of entries gives, a later entry of a word replacing an
/// earlier one.
pub open spec fn entries_map(list: Seq<EntryView>) -> Map<Seq<char>, EntryView>
    decreases list.len(),
{
    if list.len() == 0 {
        Map::empty()
    } else {
        entries_map(list.drop_last()).insert(list.last().word, list.last())
    }
}

impl View for Dictionary {
    type V = Map<Seq<char>, EntryView>;

    closed spec fn view(&self) -> Map<Seq<char>, EntryView> {
        self.entries@.map_values(|e: DictionaryEntry| e@)
    }
}

impl Dictionary {
    /// The dictionary of the given entries (what the bundled dictionary file lists).
    pub fn from_entries(list: &Vec<DictionaryEntry>) -> (r: Dictionary)
        ensures
            r@ == entries_map(list.deep_view()),
    {
        let mut entries: StringHashMap<DictionaryEntry> = StringHashMap::new();
        let mut j: usize = 0;
        assert(list.deep_view().take(0) =~= Seq::<EntryView>::empty());
        assert(entries@.map_values(|e: DictionaryEntry| e@) =~= Map::<Seq<char>, EntryView>::empty());
        while j < list.len()
            invariant
                j <= list.len(),
                entries@.map_values(|e: DictionaryEntry| e@) == entries_map(list.deep_view().take(j as int)),
            decreases list.len() - j,
        {
            let ghost t = list.deep_view().take(j + 1);
            assert(t.drop_last() =~= list.deep_view().take(j as int));
            let entry = list[j].clone();
            let key = entry.word.clone();
            let ghost old_map = entries@;
            entries.insert(key, entry);
            assert(entries@.map_values(|e: DictionaryEntry| e@) =~= old_map.map_values(
                |e: DictionaryEntry| e@,
            ).insert(t.last().word, t.last()));
            j = j + 1;
        }
        assert(list.deep_view().take(list.len() as int) =~= list.deep_view());
        Dictionary { entries }
    }

    pub fn get(&self, word: &str) -> (r: Option<&DictionaryEntry>)
        ensures
            match r {
                Some(e) => self@.contains_key(word@) && e@ == self@[word@],
                None => !self@.contains_key(word@),
            },
    {
        self.entries.get(word)
    }

    pub fn contains(&self, word: &str) -> (r: bool)
        ensures
            r == self@.contains_key(word@),
    {
        self.entries.contains_key(word)
    }
}

// ---------------------------------------------------------------------------
// Normalising.
/// The selection with its runs of whitespace collapsed to single spaces, no
/// whitespace at either end, in lowercase.
pub open spec fn normalized(s: Seq<char>) -> Seq<char> {
    unicode_lowercase(join_with(words(s), seq![' ']))
}

/// The normal form of ASCII text, where Unicode lowercasing is ASCII
/// lowercasing.
pub open spec fn normalized_ascii(s: Seq<char>) -> Seq<char> {
    ascii_lower_seq(join_with(words(s), seq![' ']))
}

pub fn normalize_text(text: &str) -> (r: String)
    ensures
        r@ == normalized(text@),
        is_ascii_text(text@) ==> r@ == normalized_ascii(text@),
{
    let v = chars_of(text);
    let parts = split_chars(&v, CharClass::Whitespace);
    let ws = keep_nonempty(&parts);
    let mut sep: Vec<char> = Vec::new();
    sep.push(' ');
    assert(sep@ =~= seq![' ']);
    let joined = join_chars(&ws, &sep);
    let s = string_from_chars(&joined);
    proof {
        if is_ascii_text(text@) {
            let q = |c: char| (c as u32) < 128;
            lemma_words_chars(text@, q);
            lemma_join_chars(words(text@), seq![' '], q);
            assert(is_ascii_text(s@));
        }
    }
    to_lowercase(s.as_str())
}

proof fn lemma_ascii_lower_char(c: char)
    requires
        (c as u32) < 128,
    ensures
        (ascii_lower(c) as u32) < 128,
        ascii_lower(ascii_lower(c)) == ascii_lower(c),
        is_whitespace(ascii_lower(c)) == is_whitespace(c),
{
}

/// Normalising ASCII text gives ASCII text whose words are the text's words
/// lowercased, and normalising that again gives it back.
pub proof fn lemma_normalized_ascii_idempotent(s: Seq<char>)
    requires
        is_ascii_text(s),
    ensures
        is_ascii_text(normalized_ascii(s)),
        words(normalized_ascii(s)) == words(s).map_values(|w: Seq<char>| ascii_lower_seq(w)),
        normalized_ascii(normalized_ascii(s)) == normalized_ascii(s),
{
    let q = |c: char| (c as u32) < 128;
    let f = |w: Seq<char>| ascii_lower_seq(w);
    let ws = words(s);
    lemma_words_chars(s, q);
    let lw = ws.map_values(f);
    assert forall|i: int| 0 <= i < lw.len() implies #[trigger] lw[i].len() > 0 by {
        assert(lw[i] == ascii_lower_seq(ws[i]));
    }
    assert forall|i: int, k: int| 0 <= i < lw.len() && 0 <= k < lw[i].len() implies !is_whitespace(
        #[trigger] lw[i][k],
    ) && q(lw[i][k]) by {
        assert(lw[i] == ascii_lower_seq(ws[i]));
        assert(lw[i][k] == ascii_lower(ws[i][k]));
        assert(q(ws[i][k]));
        lemma_ascii_lower_char(ws[i][k]);
    }
    lemma_lower_join(ws);
    let n = normalized_ascii(s);
    assert(n == join_with(lw, seq![' ']));
    lemma_words_of_join(lw);
    lemma_join_chars(lw, seq![' '], q);
    assert(is_ascii_text(n));
    lemma_lower_join(lw);
    assert(lw.map_values(f) =~= lw) by {
        assert forall|i: int| 0 <= i < lw.len() implies #[trigger] lw.map_values(f)[i] == lw[i] by {
            assert(lw[i] == ascii_lower_seq(ws[i]));
            assert(ascii_lower_seq(lw[i]) =~= lw[i]) by {
                assert forall|k: int| 0 <= k < lw[i].len() implies #[trigger] ascii_lower_seq(lw[i])[k] == lw[i][k] by {
                    assert(lw[i][k] == ascii_lower(ws[i][k]));
                    assert(q(ws[i][k]));
                    lemma_ascii_lower_char(ws[i][k]);
                }
            }
        }
    }
}

// ---------------------------------------------------------------------------
// Tokenising.
/// A run of letters and apostrophes, without apostrophes at its ends, in
/// ASCII lowercase.
pub open spec fn word_token(part: Seq<char>) -> Seq<char> {
    ascii_lower_seq(trim_class(part, CharClass::Apostrophe))
}

/// The non-empty tokens of the parts, in order.
pub open spec fn clean_tokens(parts: Seq<Seq<char>>) -> Seq<Seq<char>>
    decreases parts.len(),
{
    if parts.len() == 0 {
        Seq::<Seq<char>>::empty()
    } else {
        let prev = clean_tokens(parts.drop_last());
        if word_token(parts.last()).len() > 0 {
            prev.push(word_token(parts.last()))
        } else {
            prev
        }
    }
}

/// The words of a text: its maximal runs of ASCII letters and apostrophes,
/// with the apostrophes at their ends removed, lowercased, empty ones left out.
pub open spec fn tokens(s: Seq<char>) -> Seq<Seq<char>> {
    clean_tokens(split_class(s, CharClass::NotWordChar))
}

pub fn tokenize_words(text: &str) -> (r: Vec<String>)
    ensures
        r.deep_view() == tokens(text@),
        forall|i: int| 0 <= i < r.len() ==> is_lower_word(#[trigger] r[i]@),
{
    proof {
        lemma_tokens_are_lower_words(text@);
    }
    let v = chars_of(text);
    let parts = split_chars(&v, CharClass::NotWordChar);
    let mut r: Vec<String> = Vec::new();
    let mut j: usize = 0;
    assert(parts.deep_view().take(0) =~= Seq::<Seq<char>>::empty());
    while j < parts.len()
        invariant
            j <= parts.len(),
            r.deep_view() == clean_tokens(parts.deep_view().take(j as int)),
        decreases parts.len() - j,
    {
        let ghost t = parts.deep_view().take(j + 1);
        assert(t.drop_last() =~= parts.deep_view().take(j as int));
        assert(parts[j as int]@ =~= t.last());
        let trimmed = trim_chars(&parts[j], CharClass::Apostrophe);
        let lowered = ascii_lower_chars(&trimmed);
        if lowered.len() > 0 {
            let ghost old_r = r.deep_view();
            let token = string_from_chars(&lowered);
            r.push(token);
            assert(r.deep_view() =~= old_r.push(lowered@));
        }
        j = j + 1;
    }
    assert(parts.deep_view().take(parts.len() as int) =~= parts.deep_view());
    assert(r.deep_view() == tokens(text@));
    assert forall|i: int| 0 <= i < r.len() implies is_lower_word(#[trigger] r[i]@) by {
        assert(r.deep_view()[i] == r[i]@);
        assert(tokens(text@)[i] == r[i]@);
    }
    r
}

pub fn is_single_word(text: &str) -> (r: bool)
    ensures
        r == (tokens(text@).len() == 1),
{
    let tokens = tokenize_words(text);
    tokens.len() == 1
}

/// `"word"` for at most one token; `"sentence"` for text with a full stop,
/// an exclamation or question mark, or more than five tokens; else `"phrase"`.
pub open spec fn entry_kind(s: Seq<char>) -> Seq<char> {
    if tokens(s).len() <= 1 {
        "word"@
    } else if s.contains('.') || s.contains('!') || s.contains('?') || tokens(s).len() > 5 {
        "sentence"@
    } else {
        "phrase"@
    }
}

/// A selection of at most one word is a word; of two words or more, it is a
/// sentence where a full stop, an exclamation mark or a question mark stands
/// anywhere in it, or where it has more than five words, and a phrase
/// otherwise.
pub proof fn lemma_entry_kinds(s: Seq<char>, i: int)
    ensures
        tokens(s).len() <= 1 ==> entry_kind(s) == "word"@,
        (tokens(s).len() >= 2 && 0 <= i < s.len() && (s[i] == '.' || s[i] == '!' || s[i] == '?'))
            ==> entry_kind(s) == "sentence"@,
        tokens(s).len() > 5 ==> entry_kind(s) == "sentence"@,
        (2 <= tokens(s).len() <= 5 && forall|k: int| 0 <= k < s.len() ==> #[trigger] s[k] != '.' && s[k]
            != '!' && s[k] != '?') ==> entry_kind(s) == "phrase"@,
{
    if tokens(s).len() >= 2 && 0 <= i < s.len() && (s[i] == '.' || s[i] == '!' || s[i] == '?') {
        assert(s.contains(s[i]));
    }
}

pub fn infer_entry_kind(text: &str) -> (r: &'static str)
    ensures
        r@ == entry_kind(text@),
{
    let tokens = tokenize_words(text);
    let v = chars_of(text);
    if tokens.len() <= 1 {
        "word"
    } else if contains_char(&v, '.') || contains_char(&v, '!') || contains_char(&v, '?')
        || tokens.len() > 5 {
        "sentence"
    } else {
        "phrase"
    }
}

// ---------------------------------------------------------------------------
// Lemmatising.
/// The lookup token of a selection: its normalised form without the
/// characters other than letters and apostrophes at either end.
pub open spec fn lemma_token(raw: Seq<char>) -> Seq<char> {
    trim_class(normalized(raw), CharClass::NotWordChar)
}

/// The stem itself, the stem with an `e`, and, where the stem ends in a
/// doubled character, the stem without its last character.
pub open spec fn inflection_variants(stem: Seq<char>) -> Seq<Seq<char>> {
    seq![stem, stem.push('e')] + if stem.len() >= 2 && stem[stem.len() - 1] == stem[stem.len() - 2] {
        seq![stem.drop_last()]
    } else {
        Seq::<Seq<char>>::empty()
    }
}

/// The base forms to try for an inflected token, in the order tried.
pub open spec fn lemma_candidates(t: Seq<char>) -> Seq<Seq<char>> {
    (if ends_with(t, seq!['i', 'e', 's']) {
        seq![t.take(t.len() - 3).push('y')]
    } else {
        Seq::<Seq<char>>::empty()
    }) + (if ends_with(t, seq!['i', 'n', 'g']) {
        inflection_variants(t.take(t.len() - 3))
    } else {
        Seq::<Seq<char>>::empty()
    }) + (if ends_with(t, seq!['e', 'd']) {
        inflection_variants(t.take(t.len() - 2))
    } else {
        Seq::<Seq<char>>::empty()
    }) + (if ends_with(t, seq!['e', 's']) {
        seq![t.take(t.len() - 2)]
    } else {
        Seq::<Seq<char>>::empty()
    }) + (if ends_with(t, seq!['s']) {
        seq![t.take(t.len() - 1)]
    } else {
        Seq::<Seq<char>>::empty()
    })
}

/// The first candidate that is a key.
pub open spec fn first_known(cands: Seq<Seq<char>>, keys: Set<Seq<char>>) -> Option<Seq<char>>
    decreases cands.len(),
{
    if cands.len() == 0 {
        None
    } else if keys.contains(cands[0]) {
        Some(cands[0])
    } else {
        first_known(cands.drop_first(), keys)
    }
}

/// The dictionary form of a selection: its token where that is empty or
/// known, else the first known base form, else the token.
pub open spec fn lemma_of(keys: Set<Seq<char>>, raw: Seq<char>) -> Seq<char> {
    lemma_of_token(keys, lemma_token(raw))
}

/// The dictionary form of a lookup token: the token where it is empty or
/// known, else its first known base form, else the token.
pub open spec fn lemma_of_token(keys: Set<Seq<char>>, t: Seq<char>) -> Seq<char> {
    if t.len() == 0 || keys.contains(t) {
        t
    } else {
        match first_known(lemma_candidates(t), keys) {
            Some(v) => v,
            None => t,
        }
    }
}

pub proof fn lemma_first_known(cands: Seq<Seq<char>>, keys: Set<Seq<char>>)
    ensures
        first_known(cands, keys) matches Some(v) ==> keys.contains(v) && cands.contains(v),
    decreases cands.len(),
{
    if cands.len() > 0 && !keys.contains(cands[0]) {
        lemma_first_known(cands.drop_first(), keys);
        if let Some(v) = first_known(cands.drop_first(), keys) {
            let k = choose|k: int| 0 <= k < cands.drop_first().len() && cands.drop_first()[k] == v;
            assert(cands[k + 1] == v);
        }
    } else if cands.len() > 0 {
        assert(cands[0] == cands[0]);
    }
}

fn push_inflection_variants(variants: &mut Vec<Vec<char>>, stem: &Vec<char>)
    ensures
        final(variants).deep_view() == old(variants).deep_view() + inflection_variants(stem@),
{
    let ghost start = variants.deep_view();
    let first = sub_chars(stem, 0, stem.len());
    assert(first@ =~= stem@);
    assert(first.deep_view() =~= first@);
    variants.push(first);
    let mut with_e = sub_chars(stem, 0, stem.len());
    with_e.push('e');
    assert(with_e.deep_view() =~= with_e@);
    variants.push(with_e);
    let n = stem.len();
    if n >= 2 && stem[n - 1] == stem[n - 2] {
        let shorter = sub_chars(stem, 0, n - 1);
        assert(shorter@ =~= stem@.drop_last());
        assert(shorter.deep_view() =~= shorter@);
        variants.push(shorter);
    }
    assert(variants.deep_view() =~= start + inflection_variants(stem@));
}

/// Appends `v` to `out` when `v` ends in `suffix`, less that suffix.
fn push_stem_if_suffix(out: &mut Vec<Vec<char>>, v: &Vec<char>, suffix: &Vec<char>) -> (r: bool)
    ensures
        r == ends_with(v@, suffix@),
        final(out).deep_view() == old(out).deep_view() + if r {
            seq![v@.take(v@.len() - suffix@.len())]
        } else {
            Seq::<Seq<char>>::empty()
        },
{
    let ghost start = out.deep_view();
    let r = ends_with_chars(v, suffix);
    if r {
        let stem = sub_chars(v, 0, v.len() - suffix.len());
        assert(stem@ =~= v@.take(v@.len() - suffix@.len()));
        assert(stem.deep_view() =~= stem@);
        out.push(stem);
    }
    assert(out.deep_view() =~= start + if r {
        seq![v@.take(v@.len() - suffix@.len())]
    } else {
        Seq::<Seq<char>>::empty()
    });
    r
}

fn candidates_of(t: &Vec<char>) -> (r: Vec<Vec<char>>)
    ensures
        r.deep_view() == lemma_candidates(t@),
{
    let mut r: Vec<Vec<char>> = Vec::new();
    let ies = vec!['i', 'e', 's'];
    let ing = vec!['i', 'n', 'g'];
    let ed = vec!['e', 'd'];
    let es = vec!['e', 's'];
    let s = vec!['s'];
    assert(ies@ =~= seq!['i', 'e', 's']);
    assert(ing@ =~= seq!['i', 'n', 'g']);
    assert(ed@ =~= seq!['e', 'd']);
    assert(es@ =~= seq!['e', 's']);
    assert(s@ =~= seq!['s']);
    let ghost r0 = r.deep_view();
    assert(r0 =~= Seq::<Seq<char>>::empty());
    if ends_with_chars(t, &ies) {
        let mut stem = sub_chars(t, 0, t.len() - 3);
        stem.push('y');
        assert(stem.deep_view() =~= stem@);
        r.push(stem);
    }
    let ghost r1 = r.deep_view();
    assert(r1 =~= r0 + (if ends_with(t@, seq!['i', 'e', 's']) {
        seq![t@.take(t@.len() - 3).push('y')]
    } else {
        Seq::<Seq<char>>::empty()
    }));
    if ends_with_chars(t, &ing) {
        let stem = sub_chars(t, 0, t.len() - 3);
        push_inflection_variants(&mut r, &stem);
    }
    let ghost r2 = r.deep_view();
    assert(r2 =~= r1 + (if ends_with(t@, seq!['i', 'n', 'g']) {
        inflection_variants(t@.take(t@.len() - 3))
    } else {
        Seq::<Seq<char>>::empty()
    }));
    if ends_with_chars(t, &ed) {
        let stem = sub_chars(t, 0, t.len() - 2);
        push_inflection_variants(&mut r, &stem);
    }
    let ghost r3 = r.deep_view();
    assert(r3 =~= r2 + (if ends_with(t@, seq!['e', 'd']) {
        inflection_variants(t@.take(t@.len() - 2))
    } else {
        Seq::<Seq<char>>::empty()
    }));
    push_stem_if_suffix(&mut r, t, &es);
    push_stem_if_suffix(&mut r, t, &s);
    r
}

/// The lookup token of ASCII text, whose lowercase is ASCII lowercase.
pub open spec fn lemma_token_ascii(raw: Seq<char>) -> Seq<char> {
    trim_class(normalized_ascii(raw), CharClass::NotWordChar)
}

pub fn lemmatize_word(dictionary: &Dictionary, raw: &str) -> (r: String)
    ensures
        r@ == lemma_of(dictionary@.dom(), raw@),
        r@ == lemma_token(raw@) || dictionary@.contains_key(r@),
        is_ascii_text(raw@) ==> r@ == lemma_of_token(dictionary@.dom(), lemma_token_ascii(raw@)),
{
    let normalized_text = normalize_text(raw);
    let n = chars_of(normalized_text.as_str());
    let t = trim_chars(&n, CharClass::NotWordChar);
    let token = string_from_chars(&t);
    if t.len() == 0 {
        return token;
    }
    if dictionary.contains(token.as_str()) {
        return token;
    }
    let cands = candidates_of(&t);
    let mut k: usize = 0;
    assert(cands.deep_view().skip(0) =~= cands.deep_view());
    while k < cands.len()
        invariant
            k <= cands.len(),
            t@ == lemma_token(raw@),
            is_ascii_text(raw@) ==> lemma_token(raw@) == lemma_token_ascii(raw@),
            t@.len() > 0,
            !dictionary@.dom().contains(t@),
            cands.deep_view() == lemma_candidates(t@),
            first_known(cands.deep_view(), dictionary@.dom()) == first_known(
                cands.deep_view().skip(k as int),
                dictionary@.dom(),
            ),
        decreases cands.len() - k,
    {
        let variant = string_from_chars(&cands[k]);
        assert(cands[k as int].deep_view() =~= cands[k as int]@);
        assert(cands.deep_view().skip(k as int)[0] == cands[k as int]@);
        assert(cands.deep_view().skip(k as int).drop_first() =~= cands.deep_view().skip(k + 1));
        if dictionary.contains(variant.as_str()) {
            proof {
                lemma_first_known(cands.deep_view(), dictionary@.dom());
            }
            return variant;
        }
        k = k + 1;
    }
    assert(cands.deep_view().skip(cands.len() as int) =~= Seq::<Seq<char>>::empty());
    proof {
        lemma_first_known(cands.deep_view(), dictionary@.dom());
    }
    token
}

/// An ASCII character that is not an uppercase letter.
pub open spec fn ascii_not_upper(c: char) -> bool {
    (c as u32) < 128 && !crate::text::is_ascii_upper(c)
}

/// ASCII text without uppercase letters or whitespace, whose ends (where it
/// has any) are letters or apostrophes, is its own normal form and its own
/// lookup token.
proof fn lemma_plain_word_is_own_token(t: Seq<char>)
    requires
        forall|k: int| 0 <= k < t.len() ==> ascii_not_upper(#[trigger] t[k]) && !is_whitespace(t[k]),
        t.len() > 0 ==> is_word_char(t[0]) && is_word_char(t.last()),
    ensures
        is_ascii_text(t),
        lemma_token_ascii(t) == t,
{
    assert forall|k: int| 0 <= k < t.len() implies (#[trigger] t[k] as u32) < 128 by {
        assert(ascii_not_upper(t[k]));
    }
    let n = normalized_ascii(t);
    if t.len() == 0 {
        lemma_words_of_join(Seq::<Seq<char>>::empty());
        assert(join_with(Seq::<Seq<char>>::empty(), seq![' ']) == Seq::<char>::empty());
        assert(t =~= Seq::<char>::empty());
        assert(n =~= Seq::<char>::empty());
    } else {
        let ws = seq![t];
        assert forall|i: int, k: int| 0 <= i < ws.len() && 0 <= k < ws[i].len() implies !is_whitespace(
            #[trigger] ws[i][k],
        ) by {
            assert(ws[i] == t);
        }
        lemma_words_of_join(ws);
        assert(join_with(ws, seq![' ']) == t);
        assert(words(t) == ws);
        assert(ascii_lower_seq(t) =~= t) by {
            assert forall|k: int| 0 <= k < t.len() implies #[trigger] ascii_lower_seq(t)[k] == t[k] by {
                assert(ascii_not_upper(t[k]));
            }
        }
        assert(n == t);
        assert(!in_class(CharClass::NotWordChar, t[0]));
        assert(!in_class(CharClass::NotWordChar, t.last()));
        assert(crate::text::trim_start_class(t, CharClass::NotWordChar) == t);
        assert(crate::text::trim_end_class(t, CharClass::NotWordChar) == t);
    }
}

/// Lemmatising a one-word lemma gives it back: where the dictionary's words
/// are lowercase words, the selection is ASCII and its lookup token holds no
/// whitespace, the lemma found is ASCII and is its own lemma.
pub proof fn lemma_lemma_is_its_own_lemma(keys: Set<Seq<char>>, raw: Seq<char>)
    requires
        forall|w: Seq<char>| #[trigger] keys.contains(w) ==> is_lower_word(w),
        is_ascii_text(raw),
        forall|k: int| 0 <= k < lemma_token_ascii(raw).len() ==> !is_whitespace(#[trigger] lemma_token_ascii(raw)[k]),
    ensures
        is_ascii_text(lemma_of_token(keys, lemma_token_ascii(raw))),
        lemma_of_token(keys, lemma_token_ascii(lemma_of_token(keys, lemma_token_ascii(raw))))
            == lemma_of_token(keys, lemma_token_ascii(raw)),
{
    let tk = lemma_token_ascii(raw);
    let l = lemma_of_token(keys, tk);
    let q = |c: char| (c as u32) < 128;
    let j = join_with(words(raw), seq![' ']);
    lemma_words_chars(raw, q);
    lemma_join_chars(words(raw), seq![' '], q);
    let n = normalized_ascii(raw);
    assert forall|k: int| 0 <= k < n.len() implies ascii_not_upper(#[trigger] n[k]) by {
        assert(n[k] == ascii_lower(j[k]));
        assert(q(j[k]));
    }
    let qa = |c: char| ascii_not_upper(c);
    lemma_trim_class_chars(n, CharClass::NotWordChar, qa);
    assert forall|k: int| 0 <= k < tk.len() implies ascii_not_upper(#[trigger] tk[k]) && !is_whitespace(tk[k]) by {
        assert(qa(tk[k]));
    }
    if l == tk {
        lemma_plain_word_is_own_token(tk);
    } else {
        lemma_first_known(lemma_candidates(tk), keys);
        assert(keys.contains(l));
        assert(is_lower_word(l));
        assert forall|k: int| 0 <= k < l.len() implies ascii_not_upper(#[trigger] l[k]) && !is_whitespace(l[k]) by {
            assert(is_ascii_lower(l[k]) || l[k] == '\'');
        }
        assert(is_word_char(l[0]));
        assert(l.last() == l[l.len() - 1]);
        assert(is_word_char(l[l.len() - 1]));
        lemma_plain_word_is_own_token(l);
    }
}

// ---------------------------------------------------------------------------
// Laws of lemmatising.
/// The base forms of a stem before `-ing` or `-ed`, tried in this order: the
/// stem, the stem with `e`, and, for a doubled last letter, the stem without
/// it; the token itself where none is a dictionary word.
spec fn stem_forms_result(keys: Set<Seq<char>>, t: Seq<char>, stem: Seq<char>) -> Seq<char> {
    if keys.contains(stem) {
        stem
    } else if keys.contains(stem.push('e')) {
        stem.push('e')
    } else if stem.len() >= 2 && stem[stem.len() - 1] == stem[stem.len() - 2] && keys.contains(
        stem.drop_last(),
    ) {
        stem.drop_last()
    } else {
        t
    }
}

proof fn lemma_ends_with_facts(t: Seq<char>)
    ensures
        ends_with(t, seq!['i', 'e', 's']) <==> (t.len() >= 3 && t[t.len() - 3] == 'i' && t[t.len() - 2] == 'e'
            && t[t.len() - 1] == 's'),
        ends_with(t, seq!['i', 'n', 'g']) <==> (t.len() >= 3 && t[t.len() - 3] == 'i' && t[t.len() - 2] == 'n'
            && t[t.len() - 1] == 'g'),
        ends_with(t, seq!['e', 'd']) <==> (t.len() >= 2 && t[t.len() - 2] == 'e' && t[t.len() - 1] == 'd'),
        ends_with(t, seq!['e', 's']) <==> (t.len() >= 2 && t[t.len() - 2] == 'e' && t[t.len() - 1] == 's'),
        ends_with(t, seq!['s']) <==> (t.len() >= 1 && t[t.len() - 1] == 's'),
{
    if t.len() >= 3 {
        let k = t.skip(t.len() - 3);
        assert(k[0] == t[t.len() - 3] && k[1] == t[t.len() - 2] && k[2] == t[t.len() - 1]);
        if t[t.len() - 3] == 'i' && t[t.len() - 2] == 'e' && t[t.len() - 1] == 's' {
            assert(k =~= seq!['i', 'e', 's']);
        }
        if t[t.len() - 3] == 'i' && t[t.len() - 2] == 'n' && t[t.len() - 1] == 'g' {
            assert(k =~= seq!['i', 'n', 'g']);
        }
    }
    if t.len() >= 2 {
        let k = t.skip(t.len() - 2);
        assert(k[0] == t[t.len() - 2] && k[1] == t[t.len() - 1]);
        if t[t.len() - 2] == 'e' && t[t.len() - 1] == 'd' {
            assert(k =~= seq!['e', 'd']);
        }
        if t[t.len() - 2] == 'e' && t[t.len() - 1] == 's' {
            assert(k =~= seq!['e', 's']);
        }
    }
    if t.len() >= 1 {
        let k = t.skip(t.len() - 1);
        assert(k[0] == t[t.len() - 1]);
        if t[t.len() - 1] == 's' {
            assert(k =~= seq!['s']);
        }
    }
}

proof fn lemma_first_known_forms(keys: Set<Seq<char>>, t: Seq<char>, stem: Seq<char>)
    ensures
        match first_known(inflection_variants(stem), keys) {
            Some(v) => v,
            None => t,
        } == stem_forms_result(keys, t, stem),
{
    let c = inflection_variants(stem);
    reveal_with_fuel(first_known, 4);
    assert(c[0] == stem && c[1] == stem.push('e'));
    assert(c.drop_first()[0] == stem.push('e'));
    if stem.len() >= 2 && stem[stem.len() - 1] == stem[stem.len() - 2] {
        assert(c.len() == 3 && c[2] == stem.drop_last());
        assert(c.drop_first().drop_first()[0] == stem.drop_last());
        assert(c.drop_first().drop_first().drop_first().len() == 0);
    } else {
        assert(c.len() == 2);
        assert(c.drop_first().drop_first().len() == 0);
    }
}

/// A word ending in `-ed` that the dictionary lacks is looked up as its stem,
/// then its stem with `e` (`liked` as `like`), then, for a doubled last
/// letter, its stem without it (`stopped` as `stop`); else it stays.
pub proof fn lemma_ed_forms(keys: Set<Seq<char>>, t: Seq<char>)
    requires
        t.len() >= 2,
        t[t.len() - 2] == 'e',
        t[t.len() - 1] == 'd',
        !keys.contains(t),
    ensures
        ({
            let stem = t.take(t.len() - 2);
            lemma_of_token(keys, t) == if keys.contains(stem) {
                stem
            } else if keys.contains(stem.push('e')) {
                stem.push('e')
            } else if stem.len() >= 2 && stem[stem.len() - 1] == stem[stem.len() - 2] && keys.contains(
                stem.drop_last(),
            ) {
                stem.drop_last()
            } else {
                t
            }
        }),
{
    lemma_ends_with_facts(t);
    let c = lemma_candidates(t);
    assert(c =~= inflection_variants(t.take(t.len() - 2)));
    lemma_first_known_forms(keys, t, t.take(t.len() - 2));
}

/// A word ending in `-ing` that the dictionary lacks is looked up as its
/// stem, then its stem with `e` (`making` as `make`), then, for a doubled last
/// letter, its stem without it (`running` as `run`); else it stays.
pub proof fn lemma_ing_forms(keys: Set<Seq<char>>, t: Seq<char>)
    requires
        t.len() >= 3,
        t[t.len() - 3] == 'i',
        t[t.len() - 2] == 'n',
        t[t.len() - 1] == 'g',
        !keys.contains(t),
    ensures
        ({
            let stem = t.take(t.len() - 3);
            lemma_of_token(keys, t) == if keys.contains(stem) {
                stem
            } else if keys.contains(stem.push('e')) {
                stem.push('e')
            } else if stem.len() >= 2 && stem[stem.len() - 1] == stem[stem.len() - 2] && keys.contains(
                stem.drop_last(),
            ) {
                stem.drop_last()
            } else {
                t
            }
        }),
{
    lemma_ends_with_facts(t);
    let c = lemma_candidates(t);
    assert(c =~= inflection_variants(t.take(t.len() - 3)));
    lemma_first_known_forms(keys, t, t.take(t.len() - 3));
}

/// A word ending in `-ies` that the dictionary lacks is looked up with `y`
/// for `ies` (`studies` as `study`), then without `es`, then without `s`;
/// else it stays.
pub proof fn lemma_ies_forms(keys: Set<Seq<char>>, t: Seq<char>)
    requires
        t.len() >= 3,
        t[t.len() - 3] == 'i',
        t[t.len() - 2] == 'e',
        t[t.len() - 1] == 's',
        !keys.contains(t),
    ensures
        lemma_of_token(keys, t) == if keys.contains(t.take(t.len() - 3).push('y')) {
            t.take(t.len() - 3).push('y')
        } else if keys.contains(t.take(t.len() - 2)) {
            t.take(t.len() - 2)
        } else if keys.contains(t.take(t.len() - 1)) {
            t.take(t.len() - 1)
        } else {
            t
        },
{
    lemma_ends_with_facts(t);
    let c = lemma_candidates(t);
    assert(c =~= seq![t.take(t.len() - 3).push('y'), t.take(t.len() - 2), t.take(t.len() - 1)]);
    reveal_with_fuel(first_known, 4);
    assert(c.drop_first()[0] == t.take(t.len() - 2));
    assert(c.drop_first().drop_first()[0] == t.take(t.len() - 1));
    assert(c.drop_first().drop_first().drop_first().len() == 0);
}

/// A word ending in `-es` but not `-ies` that the dictionary lacks is looked
/// up without `es` (`boxes` as `box`), then without `s`; else it stays.
pub proof fn lemma_es_forms(keys: Set<Seq<char>>, t: Seq<char>)
    requires
        t.len() >= 2,
        t[t.len() - 2] == 'e',
        t[t.len() - 1] == 's',
        t.len() < 3 || t[t.len() - 3] != 'i',
        !keys.contains(t),
    ensures
        lemma_of_token(keys, t) == if keys.contains(t.take(t.len() - 2)) {
            t.take(t.len() - 2)
        } else if keys.contains(t.take(t.len() - 1)) {
            t.take(t.len() - 1)
        } else {
            t
        },
{
    lemma_ends_with_facts(t);
    let c = lemma_candidates(t);
    assert(c =~= seq![t.take(t.len() - 2), t.take(t.len() - 1)]);
    reveal_with_fuel(first_known, 3);
    assert(c.drop_first()[0] == t.take(t.len() - 1));
    assert(c.drop_first().drop_first().len() == 0);
}

/// A word ending in `-s` but not `-es` that the dictionary lacks is looked up
/// without `s` (`cats` as `cat`); else it stays.
pub proof fn lemma_s_forms(keys: Set<Seq<char>>, t: Seq<char>)
    requires
        t.len() >= 1,
        t[t.len() - 1] == 's',
        t.len() < 2 || t[t.len() - 2] != 'e',
        !keys.contains(t),
    ensures
        lemma_of_token(keys, t) == if keys.contains(t.take(t.len() - 1)) {
            t.take(t.len() - 1)
        } else {
            t
        },
{
    lemma_ends_with_facts(t);
    let c = lemma_candidates(t);
    assert(c =~= seq![t.take(t.len() - 1)]);
    reveal_with_fuel(first_known, 2);
    assert(c.drop_first().len() == 0);
}

/// A word the dictionary holds, and a word with none of these endings, is
/// its own lemma.
pub proof fn lemma_known_or_plain_stays(keys: Set<Seq<char>>, t: Seq<char>)
    requires
        keys.contains(t) || !(t.len() >= 1 && t[t.len() - 1] == 's') && !(t.len() >= 2 && t[t.len() - 2] == 'e'
            && t[t.len() - 1] == 'd') && !(t.len() >= 3 && t[t.len() - 3] == 'i' && t[t.len() - 2] == 'n'
            && t[t.len() - 1] == 'g'),
    ensures
        lemma_of_token(keys, t) == t,
{
    lemma_ends_with_facts(t);
    if !keys.contains(t) && t.len() > 0 {
        assert(lemma_candidates(t) =~= Seq::<Seq<char>>::empty());
    }
}

/// A non-empty run of lowercase ASCII letters and apostrophes that neither
/// starts nor ends with an apostrophe.
pub open spec fn is_lower_word(t: Seq<char>) -> bool {
    &&& t.len() > 0
    &&& t[0] != '\''
    &&& t.last() != '\''
    &&& forall|k: int| 0 <= k < t.len() ==> is_ascii_lower(#[trigger] t[k]) || t[k] == '\''
}

proof fn lemma_word_token_shape(part: Seq<char>)
    requires
        forall|k: int| 0 <= k < part.len() ==> is_word_char(#[trigger] part[k]),
    ensures
        word_token(part).len() > 0 ==> is_lower_word(word_token(part)),
{
    let q = |c: char| is_word_char(c);
    lemma_trim_class_chars(part, CharClass::Apostrophe, q);
    let tr = trim_class(part, CharClass::Apostrophe);
    let w = word_token(part);
    assert(w.len() == tr.len());
    assert forall|k: int| 0 <= k < w.len() implies is_ascii_lower(#[trigger] w[k]) || w[k] == '\'' by {
        assert(q(tr[k]));
        assert(w[k] == crate::text::ascii_lower(tr[k]));
    }
    if w.len() > 0 {
        assert(w[0] == crate::text::ascii_lower(tr[0]));
        assert(w.last() == crate::text::ascii_lower(tr.last()));
        assert(q(tr[0]));
        assert(q(tr[tr.len() - 1]));
    }
}

proof fn lemma_clean_tokens_shape(parts: Seq<Seq<char>>)
    requires
        forall|i: int, k: int|
            0 <= i < parts.len() && 0 <= k < parts[i].len() ==> is_word_char(#[trigger] parts[i][k]),
    ensures
        forall|i: int| 0 <= i < clean_tokens(parts).len() ==> is_lower_word(#[trigger] clean_tokens(parts)[i]),
    decreases parts.len(),
{
    if parts.len() > 0 {
        let prev = parts.drop_last();
        assert forall|i: int, k: int| 0 <= i < prev.len() && 0 <= k < prev[i].len() implies is_word_char(
            #[trigger] prev[i][k],
        ) by {
            assert(prev[i] == parts[i]);
        }
        lemma_clean_tokens_shape(prev);
        let last = parts.last();
        assert forall|k: int| 0 <= k < last.len() implies is_word_char(#[trigger] last[k]) by {
            assert(last == parts[parts.len() - 1]);
        }
        lemma_word_token_shape(last);
        let pt = clean_tokens(prev);
        let ct = clean_tokens(parts);
        assert forall|i: int| 0 <= i < ct.len() implies is_lower_word(#[trigger] ct[i]) by {
            if i < pt.len() {
                assert(ct[i] == pt[i]);
            } else {
                assert(ct[i] == word_token(last));
            }
        }
    }
}

/// Every token of a text is a non-empty run of lowercase ASCII letters and
/// apostrophes that neither starts nor ends with an apostrophe.
pub proof fn lemma_tokens_are_lower_words(s: Seq<char>)
    ensures
        forall|i: int| 0 <= i < tokens(s).len() ==> is_lower_word(#[trigger] tokens(s)[i]),
{
    let parts = split_class(s, CharClass::NotWordChar);
    lemma_split_class_parts(s, CharClass::NotWordChar);
    assert forall|i: int, k: int| 0 <= i < parts.len() && 0 <= k < parts[i].len() implies is_word_char(
        #[trigger] parts[i][k],
    ) by {
        assert(!crate::text::in_class(CharClass::NotWordChar, parts[i][k]));
    }
    lemma_clean_tokens_shape(parts);
}

} // verus!
