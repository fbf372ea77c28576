//! Listing the starred entries: which of them a search finds, reading the
//! search as an SQL `LIKE` pattern does, and their order, the most recently
//! updated first.
use vstd::prelude::*;

use crate::models::{StarredEntry, StarredView};
use crate::text::{ascii_lower, char_to_ascii_lower, chars_equal, chars_of};

verus! {

// ---------------------------------------------------------------------------
// Matching.
/// Whether `t` matches the `LIKE` pattern `p` as SQLite reads one by default:
/// `%` stands for any run of characters, `_` for any one character, and every
/// other character for itself, ASCII letters in either case.
pub open spec fn like_match(p: Seq<char>, t: Seq<char>) -> bool
    decreases p.len(), t.len(),
{
    if p.len() == 0 {
        t.len() == 0
    } else if p[0] == '%' {
        like_match(p.drop_first(), t) || (t.len() > 0 && like_match(p, t.drop_first()))
    } else if t.len() == 0 {
        false
    } else if p[0] == '_' || ascii_lower(p[0]) == ascii_lower(t[0]) {
        like_match(p.drop_first(), t.drop_first())
    } else {
        false
    }
}

/// The pattern of a search: the search text anywhere in the text.
pub open spec fn search_pattern(search: Seq<char>) -> Seq<char> {
    seq!['%'] + search + seq!['%']
}

/// Whether a search and an entry type, each ignored where empty, list an
/// entry: its title or its source text matches the search, and its type is
/// the one asked for.
pub open spec fn entry_listed(e: StarredView, search: Seq<char>, entry_type: Seq<char>) -> bool {
    &&& (search.len() == 0 || like_match(search_pattern(search), e.display_title) || like_match(
        search_pattern(search),
        e.source_text,
    ))
    &&& (entry_type.len() == 0 || e.entry_type == entry_type)
}

/// The entries that a search and an entry type list, in their order.
pub open spec fn listed_entries(s: Seq<StarredView>, search: Seq<char>, entry_type: Seq<char>) -> Seq<
    StarredView,
>
    decreases s.len(),
{
    if s.len() == 0 {
        s
    } else {
        let prev = listed_entries(s.drop_last(), search, entry_type);
        if entry_listed(s.last(), search, entry_type) {
            prev.push(s.last())
        } else {
            prev
        }
    }
}

/// A query's text, empty where it is absent.
pub open spec fn query_text(o: Option<Seq<char>>) -> Seq<char> {
    match o {
        Some(t) => t,
        None => Seq::<char>::empty(),
    }
}

// ---------------------------------------------------------------------------
// Order.
/// Whether `a` comes no later than `b` when their characters are compared one
/// by one by code point, a prefix first (for UTF-8 text, the order of its
/// bytes, in which SQLite compares text).
pub open spec fn text_le(a: Seq<char>, b: Seq<char>) -> bool
    decreases a.len(),
{
    if a.len() == 0 {
        true
    } else if b.len() == 0 {
        false
    } else if a[0] != b[0] {
        a[0] < b[0]
    } else {
        text_le(a.drop_first(), b.drop_first())
    }
}

/// The most recently updated entries first.
pub open spec fn newest_first(s: Seq<StarredView>) -> bool {
    forall|i: int, j: int|
        0 <= i < j < s.len() ==> text_le(#[trigger] s[j].updated_at, #[trigger] s[i].updated_at)
}

/// Of two texts, one comes no later than the other.
pub proof fn lemma_text_le_total(a: Seq<char>, b: Seq<char>)
    ensures
        text_le(a, b) || text_le(b, a),
    decreases a.len(),
{
    if a.len() > 0 && b.len() > 0 && a[0] == b[0] {
        lemma_text_le_total(a.drop_first(), b.drop_first());
    }
}

/// The order of texts is transitive.
pub proof fn lemma_text_le_transitive(a: Seq<char>, b: Seq<char>, c: Seq<char>)
    requires
        text_le(a, b),
        text_le(b, c),
    ensures
        text_le(a, c),
    decreases a.len(),
{
    if a.len() > 0 && b.len() > 0 && c.len() > 0 && a[0] == b[0] && b[0] == c[0] {
        lemma_text_le_transitive(a.drop_first(), b.drop_first(), c.drop_first());
    }
}

fn text_le_chars(a: &Vec<char>, b: &Vec<char>) -> (r: bool)
    ensures
        r == text_le(a@, b@),
{
    let mut i: usize = 0;
    assert(a@.skip(0) =~= a@);
    assert(b@.skip(0) =~= b@);
    while i < a.len()
        invariant
            i <= a.len(),
            i <= b.len(),
            text_le(a@, b@) == text_le(a@.skip(i as int), b@.skip(i as int)),
        decreases a.len() - i,
    {
        if i >= b.len() {
            return false;
        }
        assert(a@.skip(i as int)[0] == a@[i as int]);
        assert(b@.skip(i as int)[0] == b@[i as int]);
        if a[i] != b[i] {
            return a[i] < b[i];
        }
        assert(a@.skip(i as int).drop_first() =~= a@.skip(i + 1));
        assert(b@.skip(i as int).drop_first() =~= b@.skip(i + 1));
        i = i + 1;
    }
    true
}

/// One step of matching the rest of a pattern from position `i` against the
/// rest of a text from position `j`.
proof fn lemma_like_step(p: Seq<char>, t: Seq<char>, i: int, j: int)
    requires
        0 <= i < p.len(),
        0 <= j <= t.len(),
    ensures
        like_match(p.skip(i), t.skip(j)) == if p[i] == '%' {
            like_match(p.skip(i + 1), t.skip(j)) || (j < t.len() && like_match(p.skip(i), t.skip(j + 1)))
        } else if j == t.len() {
            false
        } else if p[i] == '_' || ascii_lower(p[i]) == ascii_lower(t[j]) {
            like_match(p.skip(i + 1), t.skip(j + 1))
        } else {
            false
        },
{
    assert(p.skip(i)[0] == p[i]);
    assert(p.skip(i).drop_first() =~= p.skip(i + 1));
    if j < t.len() {
        assert(t.skip(j)[0] == t[j]);
        assert(t.skip(j).drop_first() =~= t.skip(j + 1));
    }
}

fn falses(n: usize) -> (r: Vec<bool>)
    ensures
        r.len() == n,
        forall|x: int| 0 <= x < n ==> !r[x],
{
    let mut r: Vec<bool> = Vec::new();
    let mut k: usize = 0;
    while k < n
        invariant
            k <= n,
            r.len() == k,
            forall|x: int| 0 <= x < k ==> !r[x],
        decreases n - k,
    {
        r.push(false);
        k = k + 1;
    }
    r
}

/// Whether the text matches the pattern, row by row of the table of which
/// rest of the pattern matches which rest of the text.
fn like_matches(p: &Vec<char>, t: &Vec<char>) -> (r: bool)
    ensures
        r == like_match(p@, t@),
{
    let n = t.len();
    let m = p.len();
    let mut next = falses(n);
    let mut next_end = true;
    assert(p@.skip(m as int) =~= Seq::<char>::empty());
    let mut i: usize = m;
    while i > 0
        invariant
            i <= m,
            m == p.len(),
            n == t.len(),
            next.len() == n,
            forall|x: int| 0 <= x < n ==> next[x] == like_match(p@.skip(i as int), t@.skip(x)),
            next_end == like_match(p@.skip(i as int), t@.skip(n as int)),
        decreases i,
    {
        i = i - 1;
        let pc = p[i];
        proof {
            lemma_like_step(p@, t@, i as int, n as int);
        }
        let cur_end = if pc == '%' {
            next_end
        } else {
            false
        };
        let mut cur = falses(n);
        let mut j: usize = n;
        while j > 0
            invariant
                j <= n,
                i < m,
                m == p.len(),
                n == t.len(),
                pc == p@[i as int],
                next.len() == n,
                cur.len() == n,
                forall|x: int| 0 <= x < n ==> next[x] == like_match(p@.skip(i + 1), t@.skip(x)),
                next_end == like_match(p@.skip(i + 1), t@.skip(n as int)),
                forall|x: int| j <= x < n ==> cur[x] == like_match(p@.skip(i as int), t@.skip(x)),
                cur_end == like_match(p@.skip(i as int), t@.skip(n as int)),
            decreases j,
        {
            j = j - 1;
            let later = if j + 1 < n {
                cur[j + 1]
            } else {
                cur_end
            };
            let next_later = if j + 1 < n {
                next[j + 1]
            } else {
                next_end
            };
            let v = if pc == '%' {
                next[j] || later
            } else if pc == '_' || char_to_ascii_lower(pc) == char_to_ascii_lower(t[j]) {
                next_later
            } else {
                false
            };
            proof {
                lemma_like_step(p@, t@, i as int, j as int);
            }
            cur[j] = v;
        }
        next = cur;
        next_end = cur_end;
    }
    assert(p@.skip(0) =~= p@);
    assert(t@.skip(0) =~= t@);
    if n == 0 {
        next_end
    } else {
        next[0]
    }
}

/// Whether a search (with its pattern) and an entry type list the entry.
pub(crate) fn entry_listed_chars(
    e: &StarredEntry,
    search: &Vec<char>,
    pattern: &Vec<char>,
    entry_type: &Vec<char>,
) -> (r: bool)
    requires
        pattern@ == search_pattern(search@),
    ensures
        r == entry_listed(e@, search@, entry_type@),
{
    let search_ok = if search.len() == 0 {
        true
    } else {
        like_matches(pattern, &chars_of(e.display_title.as_str())) || like_matches(
            pattern,
            &chars_of(e.source_text.as_str()),
        )
    };
    let type_ok = entry_type.len() == 0 || chars_equal(&chars_of(e.entry_type.as_str()), entry_type);
    search_ok && type_ok
}

/// The pattern of a search.
pub(crate) fn search_pattern_chars(search: &Vec<char>) -> (r: Vec<char>)
    ensures
        r@ == search_pattern(search@),
{
    let mut r: Vec<char> = Vec::new();
    r.push('%');
    crate::text::append_chars(&mut r, search);
    r.push('%');
    assert(r@ =~= search_pattern(search@));
    r
}

/// Where an entry updated at `key` goes in a list with the most recent first:
/// after every entry updated no earlier.
fn insert_position(sorted: &Vec<StarredEntry>, key: &Vec<char>) -> (k: usize)
    ensures
        k <= sorted.len(),
        forall|x: int| 0 <= x < k ==> text_le(key@, #[trigger] sorted.deep_view()[x].updated_at),
        k < sorted.len() ==> !text_le(key@, sorted.deep_view()[k as int].updated_at),
{
    let mut k: usize = 0;
    while k < sorted.len()
        invariant
            k <= sorted.len(),
            forall|x: int| 0 <= x < k ==> text_le(key@, #[trigger] sorted.deep_view()[x].updated_at),
        decreases sorted.len() - k,
    {
        let other = chars_of(sorted[k].updated_at.as_str());
        assert(sorted.deep_view()[k as int] == sorted[k as int]@);
        if !text_le_chars(key, &other) {
            return k;
        }
        k = k + 1;
    }
    k
}

/// Inserts an entry into a list with the most recently updated first, after
/// the entries updated no earlier.
pub(crate) fn insert_newest_first(sorted: &mut Vec<StarredEntry>, entry: StarredEntry)
    requires
        newest_first(old(sorted).deep_view()),
    ensures
        newest_first(final(sorted).deep_view()),
        final(sorted).deep_view().to_multiset() == old(sorted).deep_view().to_multiset().insert(entry@),
{
    let key = chars_of(entry.updated_at.as_str());
    let k = insert_position(sorted, &key);
    let ghost s = sorted.deep_view();
    let ghost e = entry@;
    sorted.insert(k, entry);
    assert(sorted.deep_view() =~= s.insert(k as int, e));
    proof {
        vstd::seq_lib::to_multiset_insert(s, k as int, e);
        let ns = sorted.deep_view();
        assert forall|i: int, j: int| 0 <= i < j < ns.len() implies text_le(
            #[trigger] ns[j].updated_at,
            #[trigger] ns[i].updated_at,
        ) by {
            if j < k {
                assert(ns[i] == s[i] && ns[j] == s[j]);
            } else if j == k {
                assert(ns[i] == s[i] && ns[j] == e);
            } else if i < k {
                assert(ns[i] == s[i] && ns[j] == s[j - 1]);
            } else if i == k {
                assert(ns[i] == e && ns[j] == s[j - 1]);
                lemma_text_le_total(e.updated_at, s[k as int].updated_at);
                if j - 1 > k {
                    assert(text_le(s[j - 1].updated_at, s[k as int].updated_at));
                    lemma_text_le_transitive(s[j - 1].updated_at, s[k as int].updated_at, e.updated_at);
                }
            } else {
                assert(ns[i] == s[i - 1] && ns[j] == s[j - 1]);
            }
        }
    }
}

// ---------------------------------------------------------------------------
// Laws of the listing.
proof fn lemma_like_same_letters(p: Seq<char>, t: Seq<char>)
    requires
        p.len() == t.len(),
        forall|i: int| 0 <= i < p.len() ==> ascii_lower(#[trigger] p[i]) == ascii_lower(t[i]),
    ensures
        like_match(p, t),
    decreases p.len(),
{
    if p.len() > 0 {
        let p1 = p.drop_first();
        let t1 = t.drop_first();
        assert forall|i: int| 0 <= i < p1.len() implies ascii_lower(#[trigger] p1[i]) == ascii_lower(t1[i]) by {
            assert(p1[i] == p[i + 1] && t1[i] == t[i + 1]);
        }
        lemma_like_same_letters(p1, t1);
        assert(ascii_lower(p[0]) == ascii_lower(t[0]));
        if p[0] == '%' {
            assert(t1.len() == p1.len());
            assert(like_match(p, t1)) by {
                if t1.len() == 0 {
                    assert(p1.len() == 0);
                } else {
                    assert(like_match(p1, t1));
                }
            }
        }
    }
}

proof fn lemma_like_any(t: Seq<char>)
    ensures
        like_match(seq!['%'], t),
    decreases t.len(),
{
    let p = seq!['%'];
    assert(p[0] == '%');
    assert(p.drop_first() =~= Seq::<char>::empty());
    if t.len() == 0 {
        assert(like_match(p.drop_first(), t));
    } else {
        lemma_like_any(t.drop_first());
        assert(like_match(p, t.drop_first()));
    }
}

proof fn lemma_like_concat(p: Seq<char>, t: Seq<char>, q: Seq<char>, u: Seq<char>)
    requires
        like_match(p, t),
        like_match(q, u),
    ensures
        like_match(p + q, t + u),
    decreases p.len(), t.len(),
{
    if p.len() == 0 {
        assert(p + q =~= q);
        assert(t + u =~= u);
    } else {
        assert((p + q)[0] == p[0]);
        assert((p + q).drop_first() =~= p.drop_first() + q);
        if t.len() > 0 {
            assert((t + u)[0] == t[0]);
            assert((t + u).drop_first() =~= t.drop_first() + u);
        }
        if p[0] == '%' {
            if like_match(p.drop_first(), t) {
                lemma_like_concat(p.drop_first(), t, q, u);
            } else {
                lemma_like_concat(p, t.drop_first(), q, u);
            }
        } else {
            lemma_like_concat(p.drop_first(), t.drop_first(), q, u);
        }
    }
}

/// A search lists every entry whose title or source text holds the search
/// text, its ASCII letters in either case.
pub proof fn lemma_search_finds_contained(
    e: StarredView,
    search: Seq<char>,
    before: Seq<char>,
    found: Seq<char>,
    after: Seq<char>,
)
    requires
        crate::text::ascii_lower_seq(found) == crate::text::ascii_lower_seq(search),
        e.display_title == before + found + after || e.source_text == before + found + after,
    ensures
        entry_listed(e, search, Seq::<char>::empty()),
{
    let lf = crate::text::ascii_lower_seq(found);
    let ls = crate::text::ascii_lower_seq(search);
    assert(found.len() == lf.len() && search.len() == ls.len());
    assert forall|i: int| 0 <= i < search.len() implies ascii_lower(#[trigger] search[i]) == ascii_lower(
        found[i],
    ) by {
        assert(ls[i] == ascii_lower(search[i]));
        assert(lf[i] == ascii_lower(found[i]));
    }
    lemma_like_same_letters(search, found);
    lemma_like_any(before);
    lemma_like_any(after);
    lemma_like_concat(seq!['%'], before, search, found);
    lemma_like_concat(seq!['%'] + search, before + found, seq!['%'], after);
    assert(search_pattern(search) =~= seq!['%'] + search + seq!['%']);
}

/// A query with neither a search nor an entry type lists every entry.
pub proof fn lemma_empty_query_lists_all(s: Seq<StarredView>)
    ensures
        listed_entries(s, Seq::<char>::empty(), Seq::<char>::empty()) == s,
    decreases s.len(),
{
    if s.len() > 0 {
        lemma_empty_query_lists_all(s.drop_last());
        assert(s.drop_last().push(s.last()) =~= s);
    }
}

/// Every listed entry is a starred entry that the query lists.
pub proof fn lemma_listed_are_starred(s: Seq<StarredView>, search: Seq<char>, entry_type: Seq<char>)
    ensures
        forall|k: int|
            0 <= k < listed_entries(s, search, entry_type).len() ==> s.contains(
                #[trigger] listed_entries(s, search, entry_type)[k],
            ) && entry_listed(listed_entries(s, search, entry_type)[k], search, entry_type),
    decreases s.len(),
{
    if s.len() > 0 {
        let d = s.drop_last();
        lemma_listed_are_starred(d, search, entry_type);
        let l = listed_entries(s, search, entry_type);
        let ld = listed_entries(d, search, entry_type);
        assert forall|k: int| 0 <= k < l.len() implies s.contains(#[trigger] l[k]) && entry_listed(
            l[k],
            search,
            entry_type,
        ) by {
            if k < ld.len() {
                assert(l[k] == ld[k]);
                let m = choose|m: int| 0 <= m < d.len() && d[m] == ld[k];
                assert(s[m] == d[m]);
            } else {
                assert(l[k] == s.last());
                assert(s[s.len() - 1] == s.last());
            }
        }
    }
}

/// What a listing holds: every listed entry has the entry type asked for
/// (where one is) and its title or source text matches the search (where one
/// is given); and every starred entry that has that type and matches is
/// listed.
pub proof fn lemma_listing_filters(s: Seq<StarredView>, search: Seq<char>, entry_type: Seq<char>)
    ensures
        forall|k: int|
            0 <= k < listed_entries(s, search, entry_type).len() ==> {
                let e = #[trigger] listed_entries(s, search, entry_type)[k];
                &&& s.contains(e)
                &&& entry_type.len() > 0 ==> e.entry_type == entry_type
                &&& search.len() > 0 ==> like_match(seq!['%'] + search + seq!['%'], e.display_title)
                    || like_match(seq!['%'] + search + seq!['%'], e.source_text)
            },
        forall|e: StarredView|
            s.contains(e) && (entry_type.len() == 0 || e.entry_type == entry_type) && (search.len() == 0
                || like_match(seq!['%'] + search + seq!['%'], e.display_title) || like_match(
                seq!['%'] + search + seq!['%'],
                e.source_text,
            )) ==> #[trigger] listed_entries(s, search, entry_type).contains(e),
    decreases s.len(),
{
    lemma_listed_are_starred(s, search, entry_type);
    if s.len() > 0 {
        let d = s.drop_last();
        lemma_listing_filters(d, search, entry_type);
        let l = listed_entries(s, search, entry_type);
        let ld = listed_entries(d, search, entry_type);
        assert forall|e: StarredView|
            s.contains(e) && (entry_type.len() == 0 || e.entry_type == entry_type) && (search.len() == 0
                || like_match(seq!['%'] + search + seq!['%'], e.display_title) || like_match(
                seq!['%'] + search + seq!['%'],
                e.source_text,
            )) implies #[trigger] l.contains(e) by {
            let m = choose|m: int| 0 <= m < s.len() && s[m] == e;
            if m < d.len() {
                assert(d[m] == e);
                assert(ld.contains(e));
                let j = choose|j: int| 0 <= j < ld.len() && ld[j] == e;
                assert(l[j] == ld[j]);
            } else {
                assert(e == s.last());
                assert(entry_listed(e, search, entry_type));
                assert(l[l.len() - 1] == e);
            }
        }
    }
}

} // verus!
