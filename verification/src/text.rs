//! Character-level text routines shared by the dictionary, translator and
//! store modules: classification, trimming, splitting, joining, replacing,
//! ASCII lowercasing and decimal numbers, each stated over `Seq<char>`.
use vstd::prelude::*;

verus! {

/// The classes of characters that the text routines split on or trim.
#[derive(Clone, Copy, PartialEq, Eq, Debug)]
pub enum CharClass {
    /// `char::is_whitespace`: the Unicode `White_Space` property.
    Whitespace,
    /// Anything but an ASCII letter or an apostrophe.
    NotWordChar,
    /// The apostrophe `'`.
    Apostrophe,
    /// The full stop `.`.
    Period,
    /// The ASCII semicolon `;` or the full-width semicolon `；`.
    Semicolon,
    /// The ASCII space ` ` only.
    Space,
}

/// The Unicode `White_Space` property, which `char::is_whitespace` tests.
pub open spec fn is_whitespace(c: char) -> bool {
    ||| ('\t' <= c && c <= '\r')
    ||| c == ' '
    ||| c == '\u{85}'
    ||| c == '\u{A0}'
    ||| c == '\u{1680}'
    ||| ('\u{2000}' <= c && c <= '\u{200A}')
    ||| c == '\u{2028}'
    ||| c == '\u{2029}'
    ||| c == '\u{202F}'
    ||| c == '\u{205F}'
    ||| c == '\u{3000}'
}

pub open spec fn is_ascii_upper(c: char) -> bool {
    'A' <= c && c <= 'Z'
}

pub open spec fn is_ascii_lower(c: char) -> bool {
    'a' <= c && c <= 'z'
}

pub open spec fn is_ascii_alphabetic(c: char) -> bool {
    is_ascii_upper(c) || is_ascii_lower(c)
}

/// A letter or apostrophe: the characters that words are made of.
pub open spec fn is_word_char(c: char) -> bool {
    is_ascii_alphabetic(c) || c == '\''
}

pub open spec fn in_class(cls: CharClass, c: char) -> bool {
    match cls {
        CharClass::Whitespace => is_whitespace(c),
        CharClass::NotWordChar => !is_word_char(c),
        CharClass::Apostrophe => c == '\'',
        CharClass::Period => c == '.',
        CharClass::Semicolon => c == ';' || c == '；',
        CharClass::Space => c == ' ',
    }
}

pub fn char_is_whitespace(c: char) -> (r: bool)
    ensures
        r == is_whitespace(c),
{
    ('\t' <= c && c <= '\r') || c == ' ' || c == '\u{85}' || c == '\u{A0}' || c == '\u{1680}'
        || ('\u{2000}' <= c && c <= '\u{200A}') || c == '\u{2028}' || c == '\u{2029}' || c
        == '\u{202F}' || c == '\u{205F}' || c == '\u{3000}'
}

pub fn char_is_word_char(c: char) -> (r: bool)
    ensures
        r == is_word_char(c),
{
    ('A' <= c && c <= 'Z') || ('a' <= c && c <= 'z') || c == '\''
}

pub fn char_in_class(cls: CharClass, c: char) -> (r: bool)
    ensures
        r == in_class(cls, c),
{
    match cls {
        CharClass::Whitespace => char_is_whitespace(c),
        CharClass::NotWordChar => !char_is_word_char(c),
        CharClass::Apostrophe => c == '\'',
        CharClass::Period => c == '.',
        CharClass::Semicolon => c == ';' || c == '；',
        CharClass::Space => c == ' ',
    }
}

/// `char::to_ascii_lowercase`.
pub open spec fn ascii_lower(c: char) -> char {
    if is_ascii_upper(c) {
        ((c as u32) + 32) as char
    } else {
        c
    }
}

pub open spec fn ascii_lower_seq(s: Seq<char>) -> Seq<char> {
    s.map_values(|c: char| ascii_lower(c))
}

pub fn char_to_ascii_lower(c: char) -> (r: char)
    ensures
        r == ascii_lower(c),
{
    if 'A' <= c && c <= 'Z' {
        let b: u8 = c as u8;
        (b + 32) as char
    } else {
        c
    }
}

// ---------------------------------------------------------------------------
// Conversions between `&str`, `String` and `Vec<char>`.
pub fn chars_of(s: &str) -> (r: Vec<char>)
    ensures
        r@ == s@,
{
    let mut r: Vec<char> = Vec::new();
    for c in it: s.chars()
        invariant
            it.seq() == s@,
            r@ == it.seq().take(it.index() as int),
    {
        r.push(c);
    }
    r
}

/// Collects characters into a `String` (`FromIterator<&char> for String`).
#[verifier::external_body]
pub(crate) fn string_from_chars(v: &Vec<char>) -> (r: String)
    ensures
        r@ == v@,
{
    v.iter().collect()
}


// ---------------------------------------------------------------------------
// Trimming.
/// What `trim_start_matches` leaves: `s` without its leading characters of `cls`.
pub open spec fn trim_start_class(s: Seq<char>, cls: CharClass) -> Seq<char>
    decreases s.len(),
{
    if s.len() > 0 && in_class(cls, s[0]) {
        trim_start_class(s.drop_first(), cls)
    } else {
        s
    }
}

/// What `trim_end_matches` leaves: `s` without its trailing characters of `cls`.
pub open spec fn trim_end_class(s: Seq<char>, cls: CharClass) -> Seq<char>
    decreases s.len(),
{
    if s.len() > 0 && in_class(cls, s.last()) {
        trim_end_class(s.drop_last(), cls)
    } else {
        s
    }
}

/// What `trim_matches` leaves: `s` without the characters of `cls` at either end.
pub open spec fn trim_class(s: Seq<char>, cls: CharClass) -> Seq<char> {
    trim_end_class(trim_start_class(s, cls), cls)
}

/// `str::trim`.
pub open spec fn trim(s: Seq<char>) -> Seq<char> {
    trim_class(s, CharClass::Whitespace)
}

/// Copies `v[from..to]`.
pub fn sub_chars(v: &Vec<char>, from: usize, to: usize) -> (r: Vec<char>)
    requires
        from <= to <= v.len(),
    ensures
        r@ == v@.subrange(from as int, to as int),
{
    let mut r: Vec<char> = Vec::new();
    let mut i = from;
    while i < to
        invariant
            from <= i <= to <= v.len(),
            r@ == v@.subrange(from as int, i as int),
        decreases to - i,
    {
        r.push(v[i]);
        i = i + 1;
        assert(r@ =~= v@.subrange(from as int, i as int));
    }
    r
}

pub fn trim_start_chars(v: &Vec<char>, cls: CharClass) -> (r: Vec<char>)
    ensures
        r@ == trim_start_class(v@, cls),
{
    let mut a: usize = 0;
    assert(v@.subrange(0, v@.len() as int) =~= v@);
    while a < v.len() && char_in_class(cls, v[a])
        invariant
            a <= v.len(),
            trim_start_class(v@, cls) == trim_start_class(v@.subrange(a as int, v@.len() as int), cls),
        decreases v.len() - a,
    {
        assert(v@.subrange(a as int, v@.len() as int).drop_first() =~= v@.subrange(a + 1, v@.len() as int));
        a = a + 1;
    }
    sub_chars(v, a, v.len())
}

pub fn trim_end_chars(v: &Vec<char>, cls: CharClass) -> (r: Vec<char>)
    ensures
        r@ == trim_end_class(v@, cls),
{
    let mut b: usize = v.len();
    assert(v@.subrange(0, v@.len() as int) =~= v@);
    while b > 0 && char_in_class(cls, v[b - 1])
        invariant
            b <= v.len(),
            trim_end_class(v@, cls) == trim_end_class(v@.subrange(0, b as int), cls),
        decreases b,
    {
        assert(v@.subrange(0, b as int).drop_last() =~= v@.subrange(0, b - 1));
        b = b - 1;
    }
    sub_chars(v, 0, b)
}

pub fn trim_chars(v: &Vec<char>, cls: CharClass) -> (r: Vec<char>)
    ensures
        r@ == trim_class(v@, cls),
{
    let t = trim_start_chars(v, cls);
    trim_end_chars(&t, cls)
}

// ---------------------------------------------------------------------------
// Splitting and joining.
/// What `str::split` with a character predicate yields: the parts between
/// the characters of `cls`, empty ones included (`n` separators give `n + 1` parts).
pub open spec fn split_class(s: Seq<char>, cls: CharClass) -> Seq<Seq<char>>
    decreases s.len(),
{
    if s.len() == 0 {
        seq![Seq::<char>::empty()]
    } else {
        let prev = split_class(s.drop_last(), cls);
        if in_class(cls, s.last()) {
            prev.push(Seq::<char>::empty())
        } else {
            prev.update(prev.len() - 1, prev.last().push(s.last()))
        }
    }
}

pub proof fn lemma_split_class_nonempty(s: Seq<char>, cls: CharClass)
    ensures
        split_class(s, cls).len() >= 1,
    decreases s.len(),
{
    if s.len() > 0 {
        lemma_split_class_nonempty(s.drop_last(), cls);
    }
}

/// The parts of `parts` that are not empty, in order.
pub open spec fn nonempty_parts(parts: Seq<Seq<char>>) -> Seq<Seq<char>>
    decreases parts.len(),
{
    if parts.len() == 0 {
        Seq::<Seq<char>>::empty()
    } else {
        let prev = nonempty_parts(parts.drop_last());
        if parts.last().len() > 0 {
            prev.push(parts.last())
        } else {
            prev
        }
    }
}

/// What `str::split_whitespace` yields.
pub open spec fn words(s: Seq<char>) -> Seq<Seq<char>> {
    nonempty_parts(split_class(s, CharClass::Whitespace))
}

/// What `join(sep)` gives for the parts `ws`.
pub open spec fn join_with(ws: Seq<Seq<char>>, sep: Seq<char>) -> Seq<char>
    decreases ws.len(),
{
    if ws.len() == 0 {
        Seq::<char>::empty()
    } else if ws.len() == 1 {
        ws[0]
    } else {
        join_with(ws.drop_last(), sep) + sep + ws.last()
    }
}

pub fn split_chars(v: &Vec<char>, cls: CharClass) -> (r: Vec<Vec<char>>)
    ensures
        r.deep_view() == split_class(v@, cls),
{
    let mut done: Vec<Vec<char>> = Vec::new();
    let mut cur: Vec<char> = Vec::new();
    let mut i: usize = 0;
    assert(v@.take(0) =~= Seq::<char>::empty());
    assert(done.deep_view().push(cur@) =~= split_class(v@.take(0), cls));
    while i < v.len()
        invariant
            i <= v.len(),
            done.deep_view().push(cur@) == split_class(v@.take(i as int), cls),
        decreases v.len() - i,
    {
        let c = v[i];
        let ghost t = v@.take(i + 1);
        assert(t.drop_last() =~= v@.take(i as int));
        assert(t.last() == c);
        proof {
            lemma_split_class_nonempty(v@.take(i as int), cls);
        }
        if char_in_class(cls, c) {
            let ghost old_done = done.deep_view();
            let ghost old_cur = cur@;
            assert(cur.deep_view() =~= cur@);
            let finished = cur;
            done.push(finished);
            cur = Vec::new();
            assert(done.deep_view() =~= old_done.push(old_cur));
            assert(done.deep_view().push(cur@) =~= split_class(t, cls));
        } else {
            let ghost old_done = done.deep_view();
            cur.push(c);
            assert(done.deep_view() == old_done);
            assert(done.deep_view().push(cur@) =~= split_class(t, cls));
        }
        i = i + 1;
    }
    assert(v@.take(v.len() as int) =~= v@);
    let ghost old_done = done.deep_view();
    let ghost old_cur = cur@;
    assert(cur.deep_view() =~= cur@);
    done.push(cur);
    assert(done.deep_view() =~= old_done.push(old_cur));
    assert(done.deep_view() =~= split_class(v@, cls));
    done
}

pub fn keep_nonempty(parts: &Vec<Vec<char>>) -> (r: Vec<Vec<char>>)
    ensures
        r.deep_view() == nonempty_parts(parts.deep_view()),
{
    let mut r: Vec<Vec<char>> = Vec::new();
    let mut j: usize = 0;
    while j < parts.len()
        invariant
            j <= parts.len(),
            r.deep_view() == nonempty_parts(parts.deep_view().take(j as int)),
        decreases parts.len() - j,
    {
        let ghost t = parts.deep_view().take(j + 1);
        assert(t.drop_last() =~= parts.deep_view().take(j as int));
        if parts[j].len() > 0 {
            let part = sub_chars(&parts[j], 0, parts[j].len());
            assert(part@ =~= parts[j as int]@);
            r.push(part);
            assert(r.deep_view() =~= nonempty_parts(t));
        }
        j = j + 1;
    }
    assert(parts.deep_view().take(parts.len() as int) =~= parts.deep_view());
    r
}

pub fn join_chars(ws: &Vec<Vec<char>>, sep: &Vec<char>) -> (r: Vec<char>)
    ensures
        r@ == join_with(ws.deep_view(), sep@),
{
    let mut r: Vec<char> = Vec::new();
    let mut j: usize = 0;
    assert(ws.deep_view().take(0) =~= Seq::<Seq<char>>::empty());
    while j < ws.len()
        invariant
            j <= ws.len(),
            r@ == join_with(ws.deep_view().take(j as int), sep@),
        decreases ws.len() - j,
    {
        let ghost t = ws.deep_view().take(j + 1);
        assert(t.drop_last() =~= ws.deep_view().take(j as int));
        if j > 0 {
            append_chars(&mut r, sep);
        }
        append_chars(&mut r, &ws[j]);
        j = j + 1;
        assert(r@ =~= join_with(t, sep@));
    }
    assert(ws.deep_view().take(ws.len() as int) =~= ws.deep_view());
    r
}

pub fn append_chars(r: &mut Vec<char>, extra: &Vec<char>)
    ensures
        final(r)@ == old(r)@ + extra@,
{
    let mut k: usize = 0;
    let ghost start = r@;
    while k < extra.len()
        invariant
            k <= extra.len(),
            r@ == start + extra@.take(k as int),
        decreases extra.len() - k,
    {
        r.push(extra[k]);
        k = k + 1;
        assert(r@ =~= start + extra@.take(k as int));
    }
    assert(extra@.take(extra.len() as int) =~= extra@);
}

pub fn ascii_lower_chars(v: &Vec<char>) -> (r: Vec<char>)
    ensures
        r@ == ascii_lower_seq(v@),
{
    let mut r: Vec<char> = Vec::new();
    let mut i: usize = 0;
    while i < v.len()
        invariant
            i <= v.len(),
            r@ == ascii_lower_seq(v@.take(i as int)),
        decreases v.len() - i,
    {
        r.push(char_to_ascii_lower(v[i]));
        i = i + 1;
        assert(r@ =~= ascii_lower_seq(v@.take(i as int)));
    }
    assert(v@.take(v.len() as int) =~= v@);
    r
}

// ---------------------------------------------------------------------------
// Substrings.
pub open spec fn starts_with_at(s: Seq<char>, i: int, pat: Seq<char>) -> bool {
    0 <= i && i + pat.len() <= s.len() && s.subrange(i, i + pat.len()) == pat
}

pub open spec fn ends_with(s: Seq<char>, suffix: Seq<char>) -> bool {
    suffix.len() <= s.len() && s.skip(s.len() - suffix.len()) == suffix
}

/// What `str::replace(pat, rep)` gives for a non-empty `pat`: the
/// occurrences of `pat`, found from the left without overlapping, replaced.
pub open spec fn replace_all(s: Seq<char>, pat: Seq<char>, rep: Seq<char>) -> Seq<char>
    decreases s.len(),
{
    if s.len() == 0 {
        s
    } else if pat.len() > 0 && starts_with_at(s, 0, pat) {
        rep + replace_all(s.skip(pat.len() as int), pat, rep)
    } else {
        seq![s[0]] + replace_all(s.skip(1), pat, rep)
    }
}

pub fn matches_at(v: &Vec<char>, i: usize, pat: &Vec<char>) -> (r: bool)
    ensures
        r == starts_with_at(v@, i as int, pat@),
{
    if i > v.len() || pat.len() > v.len() - i {
        return false;
    }
    let mut k: usize = 0;
    while k < pat.len()
        invariant
            i + pat.len() <= v.len(),
            k <= pat.len(),
            forall|m: int| 0 <= m < k ==> v@[i + m] == pat@[m],
        decreases pat.len() - k,
    {
        if v[i + k] != pat[k] {
            assert(v@.subrange(i as int, i + pat.len())[k as int] != pat@[k as int]);
            return false;
        }
        k = k + 1;
    }
    assert(v@.subrange(i as int, i + pat.len()) =~= pat@);
    true
}

pub fn ends_with_chars(v: &Vec<char>, suffix: &Vec<char>) -> (r: bool)
    ensures
        r == ends_with(v@, suffix@),
{
    if suffix.len() > v.len() {
        return false;
    }
    let r = matches_at(v, v.len() - suffix.len(), suffix);
    assert(v@.subrange(v.len() - suffix.len(), v.len() - suffix.len() + suffix.len()) =~= v@.skip(
        v.len() - suffix.len(),
    ));
    r
}

pub fn replace_chars(v: &Vec<char>, pat: &Vec<char>, rep: &Vec<char>) -> (r: Vec<char>)
    requires
        pat.len() > 0,
    ensures
        r@ == replace_all(v@, pat@, rep@),
{
    let mut out: Vec<char> = Vec::new();
    let mut i: usize = 0;
    assert(v@.skip(0) =~= v@);
    while i < v.len()
        invariant
            pat.len() > 0,
            i <= v.len(),
            out@ + replace_all(v@.skip(i as int), pat@, rep@) == replace_all(v@, pat@, rep@),
        decreases v.len() - i,
    {
        let ghost t = v@.skip(i as int);
        let ghost old_out = out@;
        if matches_at(v, i, pat) {
            assert(t.subrange(0, pat@.len() as int) =~= v@.subrange(i as int, i + pat@.len()));
            assert(t.skip(pat@.len() as int) =~= v@.skip(i + pat@.len()));
            append_chars(&mut out, rep);
            i = i + pat.len();
            assert(out@ + replace_all(v@.skip(i as int), pat@, rep@) =~= old_out + replace_all(t, pat@, rep@));
        } else {
            assert(!starts_with_at(t, 0, pat@)) by {
                if starts_with_at(t, 0, pat@) {
                    assert(t.subrange(0, pat@.len() as int) =~= v@.subrange(i as int, i + pat@.len()));
                }
            }
            assert(t.skip(1) =~= v@.skip(i + 1));
            out.push(v[i]);
            i = i + 1;
            assert(out@ + replace_all(v@.skip(i as int), pat@, rep@) =~= old_out + replace_all(t, pat@, rep@));
        }
    }
    assert(v@.skip(v.len() as int) =~= Seq::<char>::empty());
    assert(out@ + Seq::<char>::empty() =~= out@);
    out
}

pub fn contains_char(v: &Vec<char>, c: char) -> (r: bool)
    ensures
        r == v@.contains(c),
{
    let mut i: usize = 0;
    while i < v.len()
        invariant
            i <= v.len(),
            forall|k: int| 0 <= k < i ==> v@[k] != c,
        decreases v.len() - i,
    {
        if v[i] == c {
            return true;
        }
        i = i + 1;
    }
    false
}

pub fn chars_equal(a: &Vec<char>, b: &Vec<char>) -> (r: bool)
    ensures
        r == (a@ == b@),
{
    if a.len() != b.len() {
        return false;
    }
    let r = matches_at(a, 0, b);
    assert(a@.subrange(0, b@.len() as int) =~= a@);
    r
}

// ---------------------------------------------------------------------------
// Decimal numbers.
pub open spec fn is_digit(c: char) -> bool {
    '0' <= c && c <= '9'
}

pub open spec fn digit_char(d: nat) -> char {
    (48 + d) as char
}

/// The decimal digits of `n`, as `to_string` writes an unsigned integer.
pub open spec fn decimal(n: nat) -> Seq<char>
    decreases n,
{
    if n < 10 {
        seq![digit_char(n)]
    } else {
        decimal(n / 10).push(digit_char(n % 10))
    }
}

pub open spec fn digits_value(s: Seq<char>) -> nat
    decreases s.len(),
{
    if s.len() == 0 {
        0
    } else {
        digits_value(s.drop_last()) * 10 + ((s.last() as int) - 48) as nat
    }
}

pub open spec fn all_digits(s: Seq<char>) -> bool {
    forall|i: int| 0 <= i < s.len() ==> is_digit(#[trigger] s[i])
}

/// What `str::parse` gives for an unsigned integer type whose largest value
/// is `max`: an optional `+`, then at least one decimal digit and nothing
/// else, of a value no larger than `max`.
pub open spec fn parse_unsigned(s: Seq<char>, max: nat) -> Option<nat> {
    let body = if s.len() > 0 && s[0] == '+' {
        s.drop_first()
    } else {
        s
    };
    if body.len() > 0 && all_digits(body) && digits_value(body) <= max {
        Some(digits_value(body))
    } else {
        None
    }
}

pub proof fn lemma_digit_char(d: nat)
    requires
        d < 10,
    ensures
        digit_char(d) as int == 48 + d,
        is_digit(digit_char(d)),
{
}

pub proof fn lemma_decimal_digits(n: nat)
    ensures
        decimal(n).len() > 0,
        all_digits(decimal(n)),
        digits_value(decimal(n)) == n,
    decreases n,
{
    lemma_digit_char(n % 10);
    if n < 10 {
        assert(decimal(n).drop_last() =~= Seq::<char>::empty());
        assert(digits_value(Seq::<char>::empty()) == 0);
        assert(decimal(n).last() == digit_char(n));
    } else {
        lemma_decimal_digits(n / 10);
        let d = decimal(n / 10);
        assert(decimal(n).drop_last() =~= d);
        assert(decimal(n).last() == digit_char(n % 10));
        assert(digits_value(decimal(n)) == digits_value(d) * 10 + (n % 10));
        assert((n / 10) * 10 + n % 10 == n);
        assert forall|i: int| 0 <= i < decimal(n).len() implies is_digit(#[trigger] decimal(n)[i]) by {
            if i < d.len() {
                assert(decimal(n)[i] == d[i]);
            }
        }
    }
}

/// Writing an unsigned number in decimal and parsing it back gives the number.
pub proof fn lemma_parse_decimal(n: nat, max: nat)
    requires
        n <= max,
    ensures
        parse_unsigned(decimal(n), max) == Some(n),
{
    lemma_decimal_digits(n);
}

pub proof fn lemma_digits_value_prefix(s: Seq<char>, i: int)
    requires
        0 <= i <= s.len(),
        all_digits(s),
    ensures
        digits_value(s.take(i)) <= digits_value(s),
    decreases s.len() - i,
{
    if i < s.len() {
        lemma_digits_value_prefix(s, i + 1);
        assert(s.take(i + 1).drop_last() =~= s.take(i));
        assert(is_digit(s[i]));
    } else {
        assert(s.take(i) =~= s);
    }
}

pub fn format_decimal(n: u64) -> (r: Vec<char>)
    ensures
        r@ == decimal(n as nat),
    decreases n,
{
    let d: u8 = (n % 10) as u8;
    let c: char = (48u8 + d) as char;
    if n < 10 {
        let mut r: Vec<char> = Vec::new();
        r.push(c);
        assert(r@ =~= decimal(n as nat));
        r
    } else {
        let mut r = format_decimal(n / 10);
        r.push(c);
        r
    }
}

pub fn parse_unsigned_chars(v: &Vec<char>, max: u64) -> (r: Option<u64>)
    ensures
        r matches Some(x) ==> parse_unsigned(v@, max as nat) == Some(x as nat),
        r is None ==> parse_unsigned(v@, max as nat) is None,
{
    let start: usize = if v.len() > 0 && v[0] == '+' {
        1
    } else {
        0
    };
    let ghost body = if v@.len() > 0 && v@[0] == '+' {
        v@.drop_first()
    } else {
        v@
    };
    assert(body =~= v@.skip(start as int));
    if start >= v.len() {
        return None;
    }
    let mut acc: u64 = 0;
    let mut i: usize = start;
    while i < v.len()
        invariant
            start <= i <= v.len(),
            body == v@.skip(start as int),
            body == (if v@.len() > 0 && v@[0] == '+' {
                v@.drop_first()
            } else {
                v@
            }),
            all_digits(body.take(i - start)),
            acc as nat == digits_value(body.take(i - start)),
            acc <= max,
        decreases v.len() - i,
    {
        let c = v[i];
        let ghost t = body.take(i - start + 1);
        assert(t.drop_last() =~= body.take(i - start));
        assert(t.last() == c);
        assert(body[i - start] == v@[i as int]);
        if !('0' <= c && c <= '9') {
            assert(!is_digit(body[i - start]));
            return None;
        }
        let d: u64 = ((c as u32) - 48) as u64;
        if d > max || acc > (max - d) / 10 {
            proof {
                assert(all_digits(t)) by {
                    assert forall|k: int| 0 <= k < t.len() implies is_digit(#[trigger] t[k]) by {
                        if k < t.len() - 1 {
                            assert(t[k] == body.take(i - start)[k]);
                        }
                    }
                }
                if all_digits(body) {
                    lemma_digits_value_prefix(body, i - start + 1);
                    if d <= max {
                        assert(acc * 10 + d > max) by (nonlinear_arith)
                            requires
                                acc > (max - d) / 10,
                                d <= max,
                        ;
                    }
                }
            }
            return None;
        }
        assert(acc * 10 + d <= max) by (nonlinear_arith)
            requires
                acc <= (max - d) / 10,
                d <= max,
        ;
        acc = acc * 10 + d;
        i = i + 1;
        assert(all_digits(t)) by {
            assert forall|k: int| 0 <= k < t.len() implies is_digit(#[trigger] t[k]) by {
                if k < t.len() - 1 {
                    assert(t[k] == body.take(i - 1 - start)[k]);
                }
            }
        }
    }
    assert(body.take(v.len() - start) =~= body);
    Some(acc)
}

// ---------------------------------------------------------------------------
// Unicode lowercase.
/// Names what `str::to_lowercase` gives for a string: each character replaced
/// by its Unicode lowercase mapping (which may be several characters).
pub uninterp spec fn unicode_lowercase(s: Seq<char>) -> Seq<char>;

/// Whether every character is ASCII.
pub open spec fn is_ascii_text(s: Seq<char>) -> bool {
    forall|k: int| 0 <= k < s.len() ==> (#[trigger] s[k] as u32) < 128
}

/// `str::to_lowercase`; the result is named by `unicode_lowercase`. Of ASCII
/// text (the empty text among it) the Unicode lowercase is the ASCII one:
/// `A` to `Z` become `a` to `z`, and every other character stays.
#[verifier::external_body]
pub(crate) fn to_lowercase(s: &str) -> (r: String)
    ensures
        r@ == unicode_lowercase(s@),
        is_ascii_text(s@) ==> r@ == ascii_lower_seq(s@),
{
    s.to_lowercase()
}

// ---------------------------------------------------------------------------
// Facts about splitting, joining and lowercasing.
/// Every character of every part of a split is a character of the text.
pub proof fn lemma_split_class_chars(s: Seq<char>, cls: CharClass, q: spec_fn(char) -> bool)
    requires
        forall|k: int| 0 <= k < s.len() ==> q(#[trigger] s[k]),
    ensures
        forall|i: int, k: int|
            0 <= i < split_class(s, cls).len() && 0 <= k < split_class(s, cls)[i].len() ==> q(
                #[trigger] split_class(s, cls)[i][k],
            ),
    decreases s.len(),
{
    if s.len() > 0 {
        let d = s.drop_last();
        assert forall|k: int| 0 <= k < d.len() implies q(#[trigger] d[k]) by {
            assert(d[k] == s[k]);
        }
        lemma_split_class_chars(d, cls, q);
        lemma_split_class_nonempty(d, cls);
        let prev = split_class(d, cls);
        let cur = split_class(s, cls);
        assert(q(s[s.len() - 1]));
        assert forall|i: int, k: int| 0 <= i < cur.len() && 0 <= k < cur[i].len() implies q(
            #[trigger] cur[i][k],
        ) by {
            if !in_class(cls, s.last()) && i == prev.len() - 1 {
                if k < prev[i].len() {
                    assert(cur[i][k] == prev[i][k]);
                }
            } else if i < prev.len() {
                assert(cur[i] == prev[i]);
            }
        }
    }
}

/// The parts kept are non-empty parts of the list.
pub proof fn lemma_nonempty_parts_props(parts: Seq<Seq<char>>)
    ensures
        forall|i: int|
            0 <= i < nonempty_parts(parts).len() ==> #[trigger] nonempty_parts(parts)[i].len() > 0
                && parts.contains(nonempty_parts(parts)[i]),
    decreases parts.len(),
{
    if parts.len() > 0 {
        let d = parts.drop_last();
        lemma_nonempty_parts_props(d);
        let r = nonempty_parts(parts);
        let rd = nonempty_parts(d);
        assert forall|i: int| 0 <= i < r.len() implies #[trigger] r[i].len() > 0 && parts.contains(r[i]) by {
            if i < rd.len() {
                assert(r[i] == rd[i]);
                let m = choose|m: int| 0 <= m < d.len() && d[m] == rd[i];
                assert(parts[m] == d[m]);
            } else {
                assert(r[i] == parts.last());
                assert(parts[parts.len() - 1] == parts.last());
            }
        }
    }
}

/// Every character of the words of a text is a character of the text, and
/// none is whitespace; no word is empty.
pub proof fn lemma_words_chars(s: Seq<char>, q: spec_fn(char) -> bool)
    requires
        forall|k: int| 0 <= k < s.len() ==> q(#[trigger] s[k]),
    ensures
        forall|i: int| 0 <= i < words(s).len() ==> #[trigger] words(s)[i].len() > 0,
        forall|i: int, k: int|
            0 <= i < words(s).len() && 0 <= k < words(s)[i].len() ==> q(#[trigger] words(s)[i][k])
                && !is_whitespace(words(s)[i][k]),
{
    let parts = split_class(s, CharClass::Whitespace);
    lemma_split_class_chars(s, CharClass::Whitespace, q);
    lemma_split_class_parts(s, CharClass::Whitespace);
    lemma_nonempty_parts_props(parts);
    let w = words(s);
    assert forall|i: int, k: int| 0 <= i < w.len() && 0 <= k < w[i].len() implies q(#[trigger] w[i][k])
        && !is_whitespace(w[i][k]) by {
        let m = choose|m: int| 0 <= m < parts.len() && parts[m] == w[i];
        assert(w[i][k] == parts[m][k]);
        assert(!in_class(CharClass::Whitespace, parts[m][k]));
    }
}

/// Every character of a join is a character of a part or of the separator.
pub proof fn lemma_join_chars(ws: Seq<Seq<char>>, sep: Seq<char>, q: spec_fn(char) -> bool)
    requires
        forall|i: int, k: int| 0 <= i < ws.len() && 0 <= k < ws[i].len() ==> q(#[trigger] ws[i][k]),
        forall|k: int| 0 <= k < sep.len() ==> q(#[trigger] sep[k]),
    ensures
        forall|k: int| 0 <= k < join_with(ws, sep).len() ==> q(#[trigger] join_with(ws, sep)[k]),
    decreases ws.len(),
{
    if ws.len() == 1 {
        assert forall|k: int| 0 <= k < ws[0].len() implies q(#[trigger] ws[0][k]) by {}
    } else if ws.len() > 1 {
        let d = ws.drop_last();
        assert forall|i: int, k: int| 0 <= i < d.len() && 0 <= k < d[i].len() implies q(#[trigger] d[i][k]) by {
            assert(d[i] == ws[i]);
        }
        lemma_join_chars(d, sep, q);
        let a = join_with(d, sep);
        let l = ws.last();
        assert(l == ws[ws.len() - 1]);
        let j = join_with(ws, sep);
        assert(j == a + sep + l);
        assert forall|k: int| 0 <= k < j.len() implies q(#[trigger] j[k]) by {
            if k < a.len() {
                assert(j[k] == a[k]);
            } else if k < a.len() + sep.len() {
                assert(j[k] == sep[k - a.len()]);
            } else {
                assert(j[k] == l[k - a.len() - sep.len()]);
            }
        }
    }
}

/// Splitting a text extended by characters outside the class extends the
/// last part.
proof fn lemma_split_class_extend(x: Seq<char>, y: Seq<char>, cls: CharClass)
    requires
        forall|k: int| 0 <= k < y.len() ==> !in_class(cls, #[trigger] y[k]),
    ensures
        split_class(x + y, cls) == split_class(x, cls).update(
            split_class(x, cls).len() - 1,
            split_class(x, cls).last() + y,
        ),
    decreases y.len(),
{
    lemma_split_class_nonempty(x, cls);
    let sx = split_class(x, cls);
    if y.len() == 0 {
        assert(x + y =~= x);
        assert(sx.last() + y =~= sx.last());
        assert(sx.update(sx.len() - 1, sx.last()) =~= sx);
    } else {
        let y1 = y.drop_last();
        assert forall|k: int| 0 <= k < y1.len() implies !in_class(cls, #[trigger] y1[k]) by {
            assert(y1[k] == y[k]);
        }
        lemma_split_class_extend(x, y1, cls);
        assert((x + y).drop_last() =~= x + y1);
        assert((x + y).last() == y[y.len() - 1]);
        let prev = split_class(x + y1, cls);
        assert(prev.last() =~= sx.last() + y1);
        assert((sx.last() + y1).push(y.last()) =~= sx.last() + y);
        assert(split_class(x + y, cls) =~= sx.update(sx.len() - 1, sx.last() + y));
    }
}

/// The words of single-spaced words are those words.
pub proof fn lemma_words_of_join(ws: Seq<Seq<char>>)
    requires
        forall|i: int| 0 <= i < ws.len() ==> #[trigger] ws[i].len() > 0,
        forall|i: int, k: int| 0 <= i < ws.len() && 0 <= k < ws[i].len() ==> !is_whitespace(#[trigger] ws[i][k]),
    ensures
        words(join_with(ws, seq![' '])) == ws,
        split_class(join_with(ws, seq![' ']), CharClass::Whitespace).last().len() > 0 || ws.len() == 0,
    decreases ws.len(),
{
    let sp = seq![' '];
    if ws.len() == 0 {
        let pe = seq![Seq::<char>::empty()];
        assert(split_class(Seq::<char>::empty(), CharClass::Whitespace) == pe);
        assert(pe.drop_last() =~= Seq::<Seq<char>>::empty());
        assert(nonempty_parts(pe.drop_last()) == Seq::<Seq<char>>::empty());
        assert(nonempty_parts(pe) =~= Seq::<Seq<char>>::empty());
        assert(join_with(ws, sp) == Seq::<char>::empty());
    } else {
        let l = ws.last();
        assert(l == ws[ws.len() - 1]);
        assert forall|k: int| 0 <= k < l.len() implies !in_class(CharClass::Whitespace, #[trigger] l[k]) by {
            assert(l[k] == ws[ws.len() - 1][k]);
        }
        if ws.len() == 1 {
            let e = Seq::<char>::empty();
            lemma_split_class_extend(e, l, CharClass::Whitespace);
            assert(e + l =~= l);
            assert(split_class(e, CharClass::Whitespace) == seq![e]);
            let sl = split_class(l, CharClass::Whitespace);
            assert(sl =~= seq![l]);
            assert(sl.drop_last() =~= Seq::<Seq<char>>::empty());
            assert(nonempty_parts(sl.drop_last()) == Seq::<Seq<char>>::empty());
            assert(sl.last() == l);
            assert(nonempty_parts(sl) =~= seq![l]);
            assert(ws =~= seq![l]);
        } else {
            let d = ws.drop_last();
            assert forall|i: int| 0 <= i < d.len() implies #[trigger] d[i].len() > 0 by {
                assert(d[i] == ws[i]);
            }
            assert forall|i: int, k: int| 0 <= i < d.len() && 0 <= k < d[i].len() implies !is_whitespace(
                #[trigger] d[i][k],
            ) by {
                assert(d[i] == ws[i]);
            }
            lemma_words_of_join(d);
            let a = join_with(d, sp);
            let sa = split_class(a, CharClass::Whitespace);
            lemma_split_class_nonempty(a, CharClass::Whitespace);
            let b = a.push(' ');
            assert(b.drop_last() =~= a);
            assert(in_class(CharClass::Whitespace, b.last()));
            let sb = split_class(b, CharClass::Whitespace);
            assert(sb == sa.push(Seq::<char>::empty()));
            lemma_split_class_extend(b, l, CharClass::Whitespace);
            assert(join_with(ws, sp) =~= b + l);
            let sj = split_class(b + l, CharClass::Whitespace);
            assert(sb.last() + l =~= l);
            assert(sj =~= sa.push(l));
            assert(sj.drop_last() =~= sa);
            assert(nonempty_parts(sj) == nonempty_parts(sa).push(l));
            assert(ws =~= d.push(l));
        }
    }
}

/// Lowercasing single-spaced words lowercases each word.
pub proof fn lemma_lower_join(ws: Seq<Seq<char>>)
    ensures
        ascii_lower_seq(join_with(ws, seq![' '])) == join_with(
            ws.map_values(|w: Seq<char>| ascii_lower_seq(w)),
            seq![' '],
        ),
    decreases ws.len(),
{
    let f = |w: Seq<char>| ascii_lower_seq(w);
    let m = ws.map_values(f);
    if ws.len() == 0 {
        assert(ascii_lower_seq(Seq::<char>::empty()) =~= Seq::<char>::empty());
    } else if ws.len() == 1 {
        assert(m[0] == ascii_lower_seq(ws[0]));
    } else {
        let d = ws.drop_last();
        lemma_lower_join(d);
        assert(m.drop_last() =~= d.map_values(f));
        assert(m.last() == ascii_lower_seq(ws.last()));
        let a = join_with(d, seq![' ']);
        assert(join_with(ws, seq![' ']) == a + seq![' '] + ws.last());
        assert(ascii_lower_seq(a + seq![' '] + ws.last()) =~= ascii_lower_seq(a) + seq![' ']
            + ascii_lower_seq(ws.last()));
    }
}

// ---------------------------------------------------------------------------
// Facts about splitting and trimming.
/// No part of a split holds a separator.
pub proof fn lemma_split_class_parts(s: Seq<char>, cls: CharClass)
    ensures
        forall|i: int, k: int|
            0 <= i < split_class(s, cls).len() && 0 <= k < split_class(s, cls)[i].len()
                ==> !in_class(cls, #[trigger] split_class(s, cls)[i][k]),
    decreases s.len(),
{
    if s.len() > 0 {
        lemma_split_class_parts(s.drop_last(), cls);
        lemma_split_class_nonempty(s.drop_last(), cls);
        let prev = split_class(s.drop_last(), cls);
        let cur = split_class(s, cls);
        assert forall|i: int, k: int| 0 <= i < cur.len() && 0 <= k < cur[i].len() implies !in_class(
            cls,
            #[trigger] cur[i][k],
        ) by {
            if !in_class(cls, s.last()) && i == prev.len() - 1 {
                if k < prev[i].len() {
                    assert(cur[i][k] == prev[i][k]);
                }
            } else if i < prev.len() {
                assert(cur[i] == prev[i]);
            }
        }
    }
}

pub proof fn lemma_trim_start_chars(s: Seq<char>, cls: CharClass, q: spec_fn(char) -> bool)
    requires
        forall|k: int| 0 <= k < s.len() ==> q(#[trigger] s[k]),
    ensures
        forall|k: int|
            0 <= k < trim_start_class(s, cls).len() ==> q(#[trigger] trim_start_class(s, cls)[k]),
        trim_start_class(s, cls).len() > 0 ==> !in_class(cls, trim_start_class(s, cls)[0]),
    decreases s.len(),
{
    if s.len() > 0 && in_class(cls, s[0]) {
        assert forall|k: int| 0 <= k < s.drop_first().len() implies q(#[trigger] s.drop_first()[k]) by {
            assert(s.drop_first()[k] == s[k + 1]);
        }
        lemma_trim_start_chars(s.drop_first(), cls, q);
    }
}

pub proof fn lemma_trim_end_chars(s: Seq<char>, cls: CharClass, q: spec_fn(char) -> bool)
    requires
        forall|k: int| 0 <= k < s.len() ==> q(#[trigger] s[k]),
    ensures
        forall|k: int| 0 <= k < trim_end_class(s, cls).len() ==> q(#[trigger] trim_end_class(s, cls)[k]),
        trim_end_class(s, cls).len() > 0 ==> !in_class(cls, trim_end_class(s, cls).last()),
        trim_end_class(s, cls).len() > 0 ==> trim_end_class(s, cls)[0] == s[0],
    decreases s.len(),
{
    if s.len() > 0 && in_class(cls, s.last()) {
        assert forall|k: int| 0 <= k < s.drop_last().len() implies q(#[trigger] s.drop_last()[k]) by {
            assert(s.drop_last()[k] == s[k]);
        }
        lemma_trim_end_chars(s.drop_last(), cls, q);
    }
}

/// Whatever holds of every character of `s` holds of every character of
/// `trim_class(s, cls)`, which neither starts nor ends with a character of `cls`.
pub proof fn lemma_trim_class_chars(s: Seq<char>, cls: CharClass, q: spec_fn(char) -> bool)
    requires
        forall|k: int| 0 <= k < s.len() ==> q(#[trigger] s[k]),
    ensures
        forall|k: int| 0 <= k < trim_class(s, cls).len() ==> q(#[trigger] trim_class(s, cls)[k]),
        trim_class(s, cls).len() > 0 ==> !in_class(cls, trim_class(s, cls)[0]),
        trim_class(s, cls).len() > 0 ==> !in_class(cls, trim_class(s, cls).last()),
{
    lemma_trim_start_chars(s, cls, q);
    lemma_trim_end_chars(trim_start_class(s, cls), cls, q);
}

// ---------------------------------------------------------------------------
// Lists of parts.
pub fn strings_from_parts(v: &Vec<Vec<char>>) -> (r: Vec<String>)
    ensures
        r.deep_view() == v.deep_view(),
{
    let mut r: Vec<String> = Vec::new();
    let mut j: usize = 0;
    while j < v.len()
        invariant
            j <= v.len(),
            r.deep_view() == v.deep_view().take(j as int),
        decreases v.len() - j,
    {
        let ghost old_r = r.deep_view();
        let s = string_from_chars(&v[j]);
        r.push(s);
        assert(v.deep_view()[j as int] =~= v[j as int]@);
        assert(r.deep_view() =~= old_r.push(v[j as int]@));
        j = j + 1;
        assert(r.deep_view() =~= v.deep_view().take(j as int));
    }
    assert(v.deep_view().take(v.len() as int) =~= v.deep_view());
    r
}

pub fn trim_each(v: &Vec<Vec<char>>, cls: CharClass) -> (r: Vec<Vec<char>>)
    ensures
        r.deep_view() == v.deep_view().map_values(|p: Seq<char>| trim_class(p, cls)),
{
    let mut r: Vec<Vec<char>> = Vec::new();
    let mut j: usize = 0;
    while j < v.len()
        invariant
            j <= v.len(),
            r.deep_view() == v.deep_view().take(j as int).map_values(|p: Seq<char>| trim_class(p, cls)),
        decreases v.len() - j,
    {
        let ghost old_r = r.deep_view();
        let t = trim_chars(&v[j], cls);
        assert(v.deep_view()[j as int] =~= v[j as int]@);
        assert(t.deep_view() =~= t@);
        r.push(t);
        assert(r.deep_view() =~= old_r.push(trim_class(v[j as int]@, cls)));
        j = j + 1;
        assert(r.deep_view() =~= v.deep_view().take(j as int).map_values(|p: Seq<char>| trim_class(p, cls)));
    }
    assert(v.deep_view().take(v.len() as int) =~= v.deep_view());
    r
}

/// The index of the first `c` in `s`.
pub open spec fn first_index_of(s: Seq<char>, c: char) -> Option<int>
    decreases s.len(),
{
    if s.len() == 0 {
        None
    } else if s[0] == c {
        Some(0)
    } else {
        match first_index_of(s.drop_first(), c) {
            Some(i) => Some(i + 1),
            None => None,
        }
    }
}

pub fn find_char(v: &Vec<char>, c: char) -> (r: Option<usize>)
    ensures
        match first_index_of(v@, c) {
            Some(i) => r == Some(i as usize) && 0 <= i < v.len(),
            None => r is None,
        },
{
    let mut i: usize = 0;
    assert(v@.skip(0) =~= v@);
    while i < v.len()
        invariant
            i <= v.len(),
            first_index_of(v@, c) == match first_index_of(v@.skip(i as int), c) {
                Some(k) => Some(k + i),
                None => None,
            },
        decreases v.len() - i,
    {
        let ghost t = v@.skip(i as int);
        assert(t[0] == v@[i as int]);
        if v[i] == c {
            return Some(i);
        }
        assert(t.drop_first() =~= v@.skip(i + 1));
        i = i + 1;
    }
    assert(v@.skip(v.len() as int) =~= Seq::<char>::empty());
    None
}

pub fn replace_str(v: &Vec<char>, pat: &str, rep: &str) -> (r: Vec<char>)
    requires
        pat@.len() > 0,
    ensures
        r@ == replace_all(v@, pat@, rep@),
{
    let p = chars_of(pat);
    let q = chars_of(rep);
    replace_chars(v, &p, &q)
}

} // verus!
