//! The user's settings and starred entries, as the application's database
//! holds them: one value per setting key, at most one starred entry per
//! normalised text and per identifier.
use vstd::prelude::*;
use vstd::hash_map::StringHashMap;

use crate::models::{
    default_config, AppConfig, ConfigView, LookupPayload, PayloadView, StarredEntry, StarredQuery,
    StarredView, ToggleStarredResponse,
};
use crate::stamps::{is_clock_text, is_uuid_v4_text, new_entry_id, now_rfc3339};
use crate::starred::{
    lemma_listing_filters, like_match,
    entry_listed_chars, insert_newest_first, listed_entries, newest_first, query_text,
    search_pattern, search_pattern_chars,
};
use crate::text::{chars_equal, chars_of, decimal, format_decimal, parse_unsigned, parse_unsigned_chars, string_from_chars};

verus! {

// ---------------------------------------------------------------------------
// Settings.
/// `value` as a number clamped into `[lo, hi]`.
pub open spec fn clamp(value: nat, lo: nat, hi: nat) -> nat {
    if value < lo {
        lo
    } else if value > hi {
        hi
    } else {
        value
    }
}

pub open spec fn bool_text(b: bool) -> Seq<char> {
    if b {
        "true"@
    } else {
        "false"@
    }
}

/// The configuration that the stored settings give: each known key's value
/// read over the defaults, numbers that do not parse ignored, the popup's size
/// clamped to `[300, 520] x [120, 680]`.
pub open spec fn config_from(settings: Map<Seq<char>, Seq<char>>) -> ConfigView {
    let d = default_config();
    ConfigView {
        hotkey: if settings.contains_key("hotkey"@) {
            settings["hotkey"@]
        } else {
            d.hotkey
        },
        trigger_source: if settings.contains_key("trigger_source"@) {
            settings["trigger_source"@]
        } else {
            d.trigger_source
        },
        auto_start: if settings.contains_key("auto_start"@) {
            settings["auto_start"@] == "true"@
        } else {
            d.auto_start
        },
        max_text_length: if settings.contains_key("max_text_length"@) && parse_unsigned(
            settings["max_text_length"@],
            usize::MAX as nat,
        ) is Some {
            parse_unsigned(settings["max_text_length"@], usize::MAX as nat)->0 as usize
        } else {
            d.max_text_length
        },
        close_on_focus_loss: if settings.contains_key("close_on_focus_loss"@) {
            settings["close_on_focus_loss"@] == "true"@
        } else {
            d.close_on_focus_loss
        },
        popup_width: if settings.contains_key("popup_width"@) && parse_unsigned(
            settings["popup_width"@],
            u32::MAX as nat,
        ) is Some {
            clamp(parse_unsigned(settings["popup_width"@], u32::MAX as nat)->0, 300, 520) as u32
        } else {
            d.popup_width
        },
        popup_height: if settings.contains_key("popup_height"@) && parse_unsigned(
            settings["popup_height"@],
            u32::MAX as nat,
        ) is Some {
            clamp(parse_unsigned(settings["popup_height"@], u32::MAX as nat)->0, 120, 680) as u32
        } else {
            d.popup_height
        },
    }
}

/// The settings after `c` is saved: each of its fields written under its key.
pub open spec fn settings_with(settings: Map<Seq<char>, Seq<char>>, c: ConfigView) -> Map<Seq<char>, Seq<char>> {
    settings.insert("hotkey"@, c.hotkey).insert("trigger_source"@, c.trigger_source).insert(
        "auto_start"@,
        bool_text(c.auto_start),
    ).insert("max_text_length"@, decimal(c.max_text_length as nat)).insert(
        "close_on_focus_loss"@,
        bool_text(c.close_on_focus_loss),
    ).insert("popup_width"@, decimal(c.popup_width as nat)).insert(
        "popup_height"@,
        decimal(c.popup_height as nat),
    )
}

// ---------------------------------------------------------------------------
// Starred entries.
pub open spec fn has_normalized(s: Seq<StarredView>, n: Seq<char>) -> bool {
    exists|i: int| 0 <= i < s.len() && #[trigger] s[i].normalized_text == n
}

pub open spec fn has_id(s: Seq<StarredView>, id: Seq<char>) -> bool {
    exists|i: int| 0 <= i < s.len() && #[trigger] s[i].id == id
}

/// No two entries share a normalised text or an identifier.
pub open spec fn unique_entries(s: Seq<StarredView>) -> bool {
    &&& forall|i: int, j: int|
        0 <= i < s.len() && 0 <= j < s.len() && i != j ==> #[trigger] s[i].normalized_text
            != #[trigger] s[j].normalized_text
    &&& forall|i: int, j: int|
        0 <= i < s.len() && 0 <= j < s.len() && i != j ==> #[trigger] s[i].id != #[trigger] s[j].id
}

/// The entries without those of normalised text `n`.
pub open spec fn without_normalized(s: Seq<StarredView>, n: Seq<char>) -> Seq<StarredView>
    decreases s.len(),
{
    if s.len() == 0 {
        s
    } else {
        let prev = without_normalized(s.drop_last(), n);
        if s.last().normalized_text == n {
            prev
        } else {
            prev.push(s.last())
        }
    }
}

/// The entries without those of identifier `id`.
pub open spec fn without_id(s: Seq<StarredView>, id: Seq<char>) -> Seq<StarredView>
    decreases s.len(),
{
    if s.len() == 0 {
        s
    } else {
        let prev = without_id(s.drop_last(), id);
        if s.last().id == id {
            prev
        } else {
            prev.push(s.last())
        }
    }
}

/// The entry that starring a payload records.
pub open spec fn starred_from(payload: PayloadView, id: Seq<char>, now: Seq<char>) -> StarredView {
    StarredView {
        id,
        entry_type: payload.entry_type(),
        source_text: payload.source_text(),
        normalized_text: payload.normalized_text(),
        display_title: payload.display_title(),
        payload,
        created_at: now,
        updated_at: now,
    }
}

pub struct StoreView {
    pub settings: Map<Seq<char>, Seq<char>>,
    pub starred: Seq<StarredView>,
}

pub struct ToggleView {
    pub is_starred: bool,
    pub entry: Option<StarredView>,
}

/// Why the store refused a change.
#[derive(Debug, Clone, Copy, PartialEq, Eq)]
pub enum StoreError {
    /// Another entry already has the identifier.
    DuplicateId,
    /// Another entry already has the normalised text.
    DuplicateText,
    /// The system clock reads a time before 1970 (or past what a timestamp
    /// holds), so no time can be stamped.
    ClockUnreadable,
    /// The system gave no random bytes, so no identifier can be drawn.
    RandomUnavailable,
}

impl StoreError {
    pub fn message(&self) -> (r: String)
        ensures
            r@ == match self {
                StoreError::DuplicateId => "UNIQUE constraint failed: starred_entries.id"@,
                StoreError::DuplicateText => "UNIQUE constraint failed: starred_entries.normalized_text"@,
                StoreError::ClockUnreadable => "system time before Unix epoch"@,
                StoreError::RandomUnavailable => "could not retrieve random bytes for uuid"@,
            },
    {
        match self {
            StoreError::DuplicateId => String::from_str("UNIQUE constraint failed: starred_entries.id"),
            StoreError::DuplicateText => String::from_str(
                "UNIQUE constraint failed: starred_entries.normalized_text",
            ),
            StoreError::ClockUnreadable => String::from_str("system time before Unix epoch"),
            StoreError::RandomUnavailable => String::from_str("could not retrieve random bytes for uuid"),
        }
    }
}

/// What toggling the payload does to the store: an entry of its normalised
/// text is removed and handed back; otherwise a new entry is added (unless
/// its identifier is taken) and handed back.
pub open spec fn toggle_result(
    s: StoreView,
    payload: PayloadView,
    id: Seq<char>,
    now: Seq<char>,
) -> (StoreView, Result<ToggleView, StoreError>) {
    let n = payload.normalized_text();
    if has_normalized(s.starred, n) {
        let i = choose|i: int| 0 <= i < s.starred.len() && s.starred[i].normalized_text == n;
        (
            StoreView { settings: s.settings, starred: without_normalized(s.starred, n) },
            Ok(ToggleView { is_starred: false, entry: Some(s.starred[i]) }),
        )
    } else if has_id(s.starred, id) {
        (s, Err(StoreError::DuplicateId))
    } else {
        let e = starred_from(payload, id, now);
        (
            StoreView { settings: s.settings, starred: s.starred.push(e) },
            Ok(ToggleView { is_starred: true, entry: Some(e) }),
        )
    }
}

pub open spec fn toggle_view(r: &ToggleStarredResponse) -> ToggleView {
    ToggleView {
        is_starred: r.is_starred,
        entry: match r.entry {
            Some(e) => Some(e@),
            None => None,
        },
    }
}

/// The settings and starred entries.
pub struct Store {
    settings: StringHashMap<String>,
    starred: Vec<StarredEntry>,
}

impl View for Store {
    type V = StoreView;

    closed spec fn view(&self) -> StoreView {
        StoreView {
            settings: self.settings@.map_values(|v: String| v@),
            starred: self.starred.deep_view(),
        }
    }
}

impl Store {
    #[verifier::type_invariant]
    closed spec fn entries_unique(self) -> bool {
        unique_entries(self.starred.deep_view())
    }

    /// A store with no settings and no starred entries.
    pub fn new() -> (r: Store)
        ensures
            r@.settings == Map::<Seq<char>, Seq<char>>::empty(),
            r@.starred == Seq::<StarredView>::empty(),
            unique_entries(r@.starred),
    {
        let r = Store { settings: StringHashMap::new(), starred: Vec::new() };
        assert(r.settings@.map_values(|v: String| v@) =~= Map::<Seq<char>, Seq<char>>::empty());
        assert(r.starred.deep_view() =~= Seq::<StarredView>::empty());
        r
    }

    /// Records a stored setting.
    pub fn load_setting(&mut self, key: String, value: String)
        ensures
            final(self)@ == (StoreView {
                settings: old(self)@.settings.insert(key@, value@),
                starred: old(self)@.starred,
            }),
            unique_entries(final(self)@.starred),
    {
        proof {
            use_type_invariant(&*self);
        }
        let ghost k = key@;
        let ghost v = value@;
        let ghost before = self.settings@;
        let mut settings: StringHashMap<String> = StringHashMap::new();
        std::mem::swap(&mut settings, &mut self.settings);
        settings.insert(key, value);
        self.settings = settings;
        assert(self.settings@.map_values(|v: String| v@) =~= before.map_values(|v: String| v@).insert(
            k,
            v,
        ));
    }

    /// Records a stored entry; refused where its normalised text or its
    /// identifier is taken.
    pub fn load_entry(&mut self, entry: StarredEntry) -> (r: Result<(), StoreError>)
        ensures
            r is Ok <==> !has_normalized(old(self)@.starred, entry@.normalized_text) && !has_id(
                old(self)@.starred,
                entry@.id,
            ),
            r is Ok ==> final(self)@ == (StoreView {
                settings: old(self)@.settings,
                starred: old(self)@.starred.push(entry@),
            }),
            r is Err ==> final(self)@ == old(self)@,
            r == Err::<(), StoreError>(StoreError::DuplicateText) <==> has_normalized(
                old(self)@.starred,
                entry@.normalized_text,
            ),
            unique_entries(final(self)@.starred),
    {
        proof {
            use_type_invariant(&*self);
        }
        if self.position_of_normalized(entry.normalized_text.as_str()).is_some() {
            return Err(StoreError::DuplicateText);
        }
        if self.id_taken(entry.id.as_str()) {
            return Err(StoreError::DuplicateId);
        }
        let ghost old_s = self.starred.deep_view();
        let ghost e = entry@;
        let mut starred: Vec<StarredEntry> = Vec::new();
        std::mem::swap(&mut starred, &mut self.starred);
        starred.push(entry);
        assert(starred.deep_view() =~= old_s.push(e));
        assert(unique_entries(starred.deep_view()));
        self.starred = starred;
        Ok(())
    }

    fn position_of_normalized(&self, normalized_text: &str) -> (r: Option<usize>)
        ensures
            match r {
                Some(i) => i < self@.starred.len() && self@.starred[i as int].normalized_text
                    == normalized_text@,
                None => !has_normalized(self@.starred, normalized_text@),
            },
    {
        let n = chars_of(normalized_text);
        let mut i: usize = 0;
        while i < self.starred.len()
            invariant
                i <= self.starred.len(),
                n@ == normalized_text@,
                forall|k: int|
                    0 <= k < i ==> #[trigger] self.starred.deep_view()[k].normalized_text != n@,
            decreases self.starred.len() - i,
        {
            let t = chars_of(self.starred[i].normalized_text.as_str());
            assert(self.starred.deep_view()[i as int] == self.starred[i as int]@);
            if chars_equal(&t, &n) {
                return Some(i);
            }
            i = i + 1;
        }
        None
    }

    fn id_taken(&self, id: &str) -> (r: bool)
        ensures
            r == has_id(self@.starred, id@),
    {
        let n = chars_of(id);
        let mut i: usize = 0;
        while i < self.starred.len()
            invariant
                i <= self.starred.len(),
                n@ == id@,
                forall|k: int| 0 <= k < i ==> #[trigger] self.starred.deep_view()[k].id != n@,
            decreases self.starred.len() - i,
        {
            let t = chars_of(self.starred[i].id.as_str());
            assert(self.starred.deep_view()[i as int] == self.starred[i as int]@);
            if chars_equal(&t, &n) {
                assert(self@.starred[i as int].id == id@);
                return true;
            }
            i = i + 1;
        }
        false
    }

    /// Whether an entry of this normalised text is starred.
    pub fn is_starred(&self, normalized_text: &str) -> (r: bool)
        ensures
            r == has_normalized(self@.starred, normalized_text@),
    {
        self.position_of_normalized(normalized_text).is_some()
    }

    /// The starred entry of this normalised text.
    pub fn find_starred(&self, normalized_text: &str) -> (r: Option<StarredEntry>)
        ensures
            match r {
                Some(e) => exists|i: int|
                    0 <= i < self@.starred.len() && self@.starred[i] == e@ && e@.normalized_text
                        == normalized_text@,
                None => !has_normalized(self@.starred, normalized_text@),
            },
    {
        match self.position_of_normalized(normalized_text) {
            Some(i) => {
                let e = self.starred[i].clone();
                assert(self@.starred[i as int] == e@);
                Some(e)
            },
            None => None,
        }
    }
}

// ---------------------------------------------------------------------------
// Facts about the entry lists.
proof fn lemma_without_normalized_none(s: Seq<StarredView>, n: Seq<char>)
    requires
        !has_normalized(s, n),
    ensures
        without_normalized(s, n) == s,
    decreases s.len(),
{
    if s.len() > 0 {
        assert(!has_normalized(s.drop_last(), n)) by {
            if has_normalized(s.drop_last(), n) {
                let k = choose|k: int| 0 <= k < s.drop_last().len() && #[trigger] s.drop_last()[k].normalized_text == n;
                assert(s[k].normalized_text == n);
            }
        }
        lemma_without_normalized_none(s.drop_last(), n);
        assert(s.last().normalized_text != n) by {
            if s.last().normalized_text == n {
                assert(s[s.len() - 1].normalized_text == n);
            }
        }
        assert(s.drop_last().push(s.last()) =~= s);
    }
}

proof fn lemma_without_normalized_one(s: Seq<StarredView>, n: Seq<char>, i: int)
    requires
        0 <= i < s.len(),
        s[i].normalized_text == n,
        unique_entries(s),
    ensures
        without_normalized(s, n) == s.remove(i),
    decreases s.len(),
{
    let d = s.drop_last();
    if i == s.len() - 1 {
        assert(!has_normalized(d, n)) by {
            if has_normalized(d, n) {
                let k = choose|k: int| 0 <= k < d.len() && #[trigger] d[k].normalized_text == n;
                assert(s[k].normalized_text == s[i].normalized_text);
            }
        }
        lemma_without_normalized_none(d, n);
        assert(s.remove(i) =~= d);
    } else {
        assert(unique_entries(d)) by {
            assert forall|a: int, b: int|
                0 <= a < d.len() && 0 <= b < d.len() && a != b implies d[a].normalized_text
                != d[b].normalized_text && d[a].id != d[b].id by {
                assert(d[a] == s[a] && d[b] == s[b]);
            }
        }
        lemma_without_normalized_one(d, n, i);
        assert(s.last().normalized_text != n) by {
            assert(s[s.len() - 1] == s.last());
        }
        assert(d.remove(i).push(s.last()) =~= s.remove(i));
    }
}

proof fn lemma_without_id_none(s: Seq<StarredView>, id: Seq<char>)
    requires
        !has_id(s, id),
    ensures
        without_id(s, id) == s,
    decreases s.len(),
{
    if s.len() > 0 {
        assert(!has_id(s.drop_last(), id)) by {
            if has_id(s.drop_last(), id) {
                let k = choose|k: int| 0 <= k < s.drop_last().len() && #[trigger] s.drop_last()[k].id == id;
                assert(s[k].id == id);
            }
        }
        lemma_without_id_none(s.drop_last(), id);
        assert(s.last().id != id) by {
            if s.last().id == id {
                assert(s[s.len() - 1].id == id);
            }
        }
        assert(s.drop_last().push(s.last()) =~= s);
    }
}

proof fn lemma_without_id_one(s: Seq<StarredView>, id: Seq<char>, i: int)
    requires
        0 <= i < s.len(),
        s[i].id == id,
        unique_entries(s),
    ensures
        without_id(s, id) == s.remove(i),
    decreases s.len(),
{
    let d = s.drop_last();
    if i == s.len() - 1 {
        assert(!has_id(d, id)) by {
            if has_id(d, id) {
                let k = choose|k: int| 0 <= k < d.len() && #[trigger] d[k].id == id;
                assert(s[k].id == s[i].id);
            }
        }
        lemma_without_id_none(d, id);
        assert(s.remove(i) =~= d);
    } else {
        assert(unique_entries(d)) by {
            assert forall|a: int, b: int|
                0 <= a < d.len() && 0 <= b < d.len() && a != b implies d[a].normalized_text
                != d[b].normalized_text && d[a].id != d[b].id by {
                assert(d[a] == s[a] && d[b] == s[b]);
            }
        }
        lemma_without_id_one(d, id, i);
        assert(s.last().id != id) by {
            assert(s[s.len() - 1] == s.last());
        }
        assert(d.remove(i).push(s.last()) =~= s.remove(i));
    }
}

proof fn lemma_unique_remove(s: Seq<StarredView>, i: int)
    requires
        0 <= i < s.len(),
        unique_entries(s),
    ensures
        unique_entries(s.remove(i)),
{
    let r = s.remove(i);
    assert forall|a: int, b: int|
        0 <= a < r.len() && 0 <= b < r.len() && a != b implies r[a].normalized_text
        != r[b].normalized_text && r[a].id != r[b].id by {
        let a2 = if a < i {
            a
        } else {
            a + 1
        };
        let b2 = if b < i {
            b
        } else {
            b + 1
        };
        assert(r[a] == s[a2] && r[b] == s[b2]);
    }
}

proof fn lemma_unique_push(s: Seq<StarredView>, e: StarredView)
    requires
        unique_entries(s),
        !has_normalized(s, e.normalized_text),
        !has_id(s, e.id),
    ensures
        unique_entries(s.push(e)),
{
    let r = s.push(e);
    assert forall|a: int, b: int|
        0 <= a < r.len() && 0 <= b < r.len() && a != b implies r[a].normalized_text
        != r[b].normalized_text && r[a].id != r[b].id by {
        if a == s.len() {
            assert(r[b] == s[b]);
        } else if b == s.len() {
            assert(r[a] == s[a]);
        } else {
            assert(r[a] == s[a] && r[b] == s[b]);
        }
    }
}

/// Whether the store's outcome of a toggle is the given one.
pub open spec fn toggle_outcome_view(r: &Result<ToggleStarredResponse, StoreError>) -> Result<ToggleView, StoreError> {
    match r {
        Ok(resp) => Ok(toggle_view(resp)),
        Err(e) => Err(*e),
    }
}

impl Store {
    fn setting(&self, key: &str) -> (r: Option<&String>)
        ensures
            match r {
                Some(v) => self@.settings.contains_key(key@) && v@ == self@.settings[key@],
                None => !self@.settings.contains_key(key@),
            },
    {
        self.settings.get(key)
    }

    fn setting_is_true(&self, key: &str) -> (r: Option<bool>)
        ensures
            match r {
                Some(b) => self@.settings.contains_key(key@) && b == (self@.settings[key@] == "true"@),
                None => !self@.settings.contains_key(key@),
            },
    {
        match self.setting(key) {
            Some(v) => {
                let c = chars_of(v.as_str());
                let t = chars_of("true");
                Some(chars_equal(&c, &t))
            },
            None => None,
        }
    }

    fn setting_number(&self, key: &str, max: u64) -> (r: Option<u64>)
        ensures
            match r {
                Some(n) => self@.settings.contains_key(key@) && parse_unsigned(self@.settings[key@], max as nat)
                    == Some(n as nat),
                None => !self@.settings.contains_key(key@) || parse_unsigned(
                    self@.settings[key@],
                    max as nat,
                ) is None,
            },
    {
        match self.setting(key) {
            Some(v) => {
                let c = chars_of(v.as_str());
                parse_unsigned_chars(&c, max)
            },
            None => None,
        }
    }

    /// The configuration that the stored settings give.
    pub fn config(&self) -> (r: AppConfig)
        ensures
            r@ == config_from(self@.settings),
    {
        let mut config = AppConfig::default();
        if let Some(v) = self.setting("hotkey") {
            config.hotkey = v.clone();
        }
        if let Some(v) = self.setting("trigger_source") {
            config.trigger_source = v.clone();
        }
        if let Some(b) = self.setting_is_true("auto_start") {
            config.auto_start = b;
        }
        if let Some(n) = self.setting_number("max_text_length", usize::MAX as u64) {
            config.max_text_length = n as usize;
        }
        if let Some(b) = self.setting_is_true("close_on_focus_loss") {
            config.close_on_focus_loss = b;
        }
        if let Some(n) = self.setting_number("popup_width", u32::MAX as u64) {
            config.popup_width = if n < 300 {
                300
            } else if n > 520 {
                520
            } else {
                n as u32
            };
        }
        if let Some(n) = self.setting_number("popup_height", u32::MAX as u64) {
            config.popup_height = if n < 120 {
                120
            } else if n > 680 {
                680
            } else {
                n as u32
            };
        }
        config
    }

    /// Writes each field of the configuration under its key, and hands the
    /// configuration back.
    pub fn save_config(&mut self, config: &AppConfig) -> (r: AppConfig)
        ensures
            final(self)@.settings == settings_with(old(self)@.settings, config@),
            final(self)@.starred == old(self)@.starred,
            r@ == config@,
            unique_entries(final(self)@.starred),
    {
        proof {
            use_type_invariant(&*self);
        }
        let ghost before = self@.settings;
        let mut settings: StringHashMap<String> = StringHashMap::new();
        std::mem::swap(&mut settings, &mut self.settings);
        let auto_start = if config.auto_start {
            String::from_str("true")
        } else {
            String::from_str("false")
        };
        let close_on_focus_loss = if config.close_on_focus_loss {
            String::from_str("true")
        } else {
            String::from_str("false")
        };
        let max_text_length = string_from_chars(&format_decimal(config.max_text_length as u64));
        let popup_width = string_from_chars(&format_decimal(config.popup_width as u64));
        let popup_height = string_from_chars(&format_decimal(config.popup_height as u64));
        settings.insert(String::from_str("hotkey"), config.hotkey.clone());
        settings.insert(String::from_str("trigger_source"), config.trigger_source.clone());
        settings.insert(String::from_str("auto_start"), auto_start);
        settings.insert(String::from_str("max_text_length"), max_text_length);
        settings.insert(String::from_str("close_on_focus_loss"), close_on_focus_loss);
        settings.insert(String::from_str("popup_width"), popup_width);
        settings.insert(String::from_str("popup_height"), popup_height);
        self.settings = settings;
        assert(self@.settings =~= settings_with(before, config@));
        config.clone()
    }

    /// Stars or unstars the payload with the given identifier and time: an
    /// entry of its normalised text is removed and handed back; otherwise a
    /// new entry is added and handed back, unless the identifier is taken.
    pub fn toggle_starred_with(&mut self, payload: &LookupPayload, id: String, now: String) -> (r: Result<
        ToggleStarredResponse,
        StoreError,
    >)
        ensures
            (final(self)@, toggle_outcome_view(&r)) == toggle_result(old(self)@, payload@, id@, now@),
            unique_entries(final(self)@.starred),
    {
        proof {
            use_type_invariant(&*self);
        }
        let ghost before = self@;
        let normalized_text = payload.normalized_text();
        match self.position_of_normalized(normalized_text) {
            Some(i) => {
                let mut starred: Vec<StarredEntry> = Vec::new();
                std::mem::swap(&mut starred, &mut self.starred);
                let ghost old_s = starred.deep_view();
                let existing = starred.remove(i);
                proof {
                    lemma_without_normalized_one(old_s, normalized_text@, i as int);
                    lemma_unique_remove(old_s, i as int);
                    assert(starred.deep_view() =~= old_s.remove(i as int));
                    let k = choose|k: int| 0 <= k < old_s.len() && old_s[k].normalized_text == normalized_text@;
                    assert(k == i);
                }
                self.starred = starred;
                Ok(ToggleStarredResponse { is_starred: false, entry: Some(existing) })
            },
            None => {
                if self.id_taken(id.as_str()) {
                    return Err(StoreError::DuplicateId);
                }
                let entry = StarredEntry {
                    id,
                    entry_type: String::from_str(payload.entry_type()),
                    source_text: String::from_str(payload.source_text()),
                    normalized_text: String::from_str(normalized_text),
                    display_title: payload.display_title(),
                    payload: payload.clone(),
                    created_at: now.clone(),
                    updated_at: now,
                };
                let ghost e = entry@;
                assert(e == starred_from(payload@, id@, now@));
                let returned = entry.clone();
                let mut starred: Vec<StarredEntry> = Vec::new();
                std::mem::swap(&mut starred, &mut self.starred);
                let ghost old_s = starred.deep_view();
                starred.push(entry);
                proof {
                    assert(starred.deep_view() =~= old_s.push(e));
                    lemma_unique_push(old_s, e);
                }
                self.starred = starred;
                Ok(ToggleStarredResponse { is_starred: true, entry: Some(returned) })
            },
        }
    }

    /// Stars or unstars the payload. An entry of its normalised text is
    /// removed and handed back; otherwise a new entry, stamped with a fresh
    /// random UUID and the current UTC time, is added and handed back, unless
    /// the clock or the random source fails or the identifier drawn is taken.
    pub fn toggle_starred(&mut self, payload: &LookupPayload) -> (r: Result<ToggleStarredResponse, StoreError>)
        ensures
            has_normalized(old(self)@.starred, payload@.normalized_text()) ==> (
            final(self)@,
            toggle_outcome_view(&r),
            ) == toggle_result(old(self)@, payload@, Seq::<char>::empty(), Seq::<char>::empty()),
            !has_normalized(old(self)@.starred, payload@.normalized_text()) ==> match r {
                Err(StoreError::ClockUnreadable) => final(self)@ == old(self)@,
                Err(StoreError::RandomUnavailable) => final(self)@ == old(self)@,
                _ => exists|id: Seq<char>, now: Seq<char>|
                    is_uuid_v4_text(id) && is_clock_text(now) && (final(self)@, toggle_outcome_view(&r))
                        == toggle_result(old(self)@, payload@, id, now),
            },
            match r {
                Ok(t) => t.is_starred ==> match t.entry {
                    Some(e) => is_uuid_v4_text(e@.id) && is_clock_text(e@.created_at) && e@.updated_at
                        == e@.created_at,
                    None => false,
                },
                Err(_) => true,
            },
            unique_entries(final(self)@.starred),
    {
        proof {
            use_type_invariant(&*self);
        }
        if self.is_starred(payload.normalized_text()) {
            return self.toggle_starred_with(payload, String::new(), String::new());
        }
        let now = match now_rfc3339() {
            Some(t) => t,
            None => return Err(StoreError::ClockUnreadable),
        };
        let id = match new_entry_id() {
            Some(i) => i,
            None => return Err(StoreError::RandomUnavailable),
        };
        let ghost id_v = id@;
        let ghost now_v = now@;
        let r = self.toggle_starred_with(payload, id, now);
        assert(is_uuid_v4_text(id_v) && is_clock_text(now_v) && (self@, toggle_outcome_view(&r))
            == toggle_result(old(self)@, payload@, id_v, now_v));
        r
    }

    /// Removes the entry of this identifier, if there is one, and says
    /// whether there was.
    pub fn remove_starred(&mut self, id: &str) -> (r: bool)
        ensures
            r == has_id(old(self)@.starred, id@),
            final(self)@.starred == without_id(old(self)@.starred, id@),
            final(self)@.settings == old(self)@.settings,
            unique_entries(final(self)@.starred),
    {
        proof {
            use_type_invariant(&*self);
        }
        let n = chars_of(id);
        let mut i: usize = 0;
        while i < self.starred.len()
            invariant
                i <= self.starred.len(),
                n@ == id@,
                self@ == old(self)@,
                unique_entries(self.starred.deep_view()),
                forall|k: int| 0 <= k < i ==> #[trigger] self.starred.deep_view()[k].id != n@,
            decreases self.starred.len() - i,
        {
            let t = chars_of(self.starred[i].id.as_str());
            assert(self.starred.deep_view()[i as int] == self.starred[i as int]@);
            if chars_equal(&t, &n) {
                let mut starred: Vec<StarredEntry> = Vec::new();
                std::mem::swap(&mut starred, &mut self.starred);
                let ghost old_s = starred.deep_view();
                let _removed = starred.remove(i);
                proof {
                    lemma_without_id_one(old_s, id@, i as int);
                    lemma_unique_remove(old_s, i as int);
                    assert(starred.deep_view() =~= old_s.remove(i as int));
                    assert(old_s[i as int].id == id@);
                }
                self.starred = starred;
                return true;
            }
            i = i + 1;
        }
        proof {
            lemma_without_id_none(self@.starred, id@);
        }
        false
    }
}

impl Store {
    /// The starred entries that the query lists (a search found in the title
    /// or the source text, as an SQL `LIKE` pattern with the search anywhere
    /// reads it; an entry type), the most recently updated first.
    pub fn list_starred(&self, query: StarredQuery) -> (r: Vec<StarredEntry>)
        ensures
            r.deep_view().to_multiset() == listed_entries(
                self@.starred,
                query_text(query.search.deep_view()),
                query_text(query.entry_type.deep_view()),
            ).to_multiset(),
            newest_first(r.deep_view()),
            forall|k: int|
                0 <= k < r.len() ==> {
                    let e = #[trigger] r[k]@;
                    let q_search = query_text(query.search.deep_view());
                    let q_type = query_text(query.entry_type.deep_view());
                    &&& self@.starred.contains(e)
                    &&& q_type.len() > 0 ==> e.entry_type == q_type
                    &&& q_search.len() > 0 ==> like_match(seq!['%'] + q_search + seq!['%'], e.display_title)
                        || like_match(seq!['%'] + q_search + seq!['%'], e.source_text)
                },
    {
        let search = match &query.search {
            Some(text) => chars_of(text.as_str()),
            None => Vec::new(),
        };
        let entry_type = match &query.entry_type {
            Some(text) => chars_of(text.as_str()),
            None => Vec::new(),
        };
        let ghost q_search = query_text(query.search.deep_view());
        let ghost q_type = query_text(query.entry_type.deep_view());
        assert(search@ == q_search);
        assert(entry_type@ == q_type);
        let pattern = search_pattern_chars(&search);
        let mut r: Vec<StarredEntry> = Vec::new();
        let mut j: usize = 0;
        assert(self.starred.deep_view().take(0) =~= Seq::<StarredView>::empty());
        assert(r.deep_view() =~= Seq::<StarredView>::empty());
        while j < self.starred.len()
            invariant
                j <= self.starred.len(),
                search@ == q_search,
                entry_type@ == q_type,
                pattern@ == search_pattern(search@),
                r.deep_view().to_multiset() == listed_entries(
                    self.starred.deep_view().take(j as int),
                    q_search,
                    q_type,
                ).to_multiset(),
                newest_first(r.deep_view()),
            decreases self.starred.len() - j,
        {
            let ghost prefix = self.starred.deep_view().take(j + 1);
            assert(prefix.drop_last() =~= self.starred.deep_view().take(j as int));
            assert(prefix.last() == self.starred[j as int]@);
            let e = &self.starred[j];
            if entry_listed_chars(e, &search, &pattern, &entry_type) {
                let ghost prev = listed_entries(self.starred.deep_view().take(j as int), q_search, q_type);
                insert_newest_first(&mut r, e.clone());
                proof {
                    vstd::seq_lib::to_multiset_build(prev, e@);
                }
            }
            j = j + 1;
        }
        assert(self.starred.deep_view().take(self.starred.len() as int) =~= self.starred.deep_view());
        proof {
            let l = listed_entries(self@.starred, q_search, q_type);
            lemma_listing_filters(self@.starred, q_search, q_type);
            assert forall|k: int| 0 <= k < r.len() implies {
                let e = #[trigger] r[k]@;
                &&& self@.starred.contains(e)
                &&& q_type.len() > 0 ==> e.entry_type == q_type
                &&& q_search.len() > 0 ==> like_match(seq!['%'] + q_search + seq!['%'], e.display_title)
                    || like_match(seq!['%'] + q_search + seq!['%'], e.source_text)
            } by {
                let e = r[k]@;
                assert(r.deep_view()[k] == e);
                vstd::seq_lib::to_multiset_contains(r.deep_view(), e);
                vstd::seq_lib::to_multiset_contains(l, e);
                let j = choose|j: int| 0 <= j < l.len() && l[j] == e;
                assert(l[j] == e);
            }
        }
        r
    }
}

// ---------------------------------------------------------------------------
// Laws of the store.
/// Starring a payload that is not starred, then toggling it again, leaves the
/// store as it was; the second toggle hands back the entry the first added.
pub proof fn lemma_toggle_twice_restores(
    s: StoreView,
    p: PayloadView,
    id1: Seq<char>,
    now1: Seq<char>,
    id2: Seq<char>,
    now2: Seq<char>,
)
    requires
        !has_normalized(s.starred, p.normalized_text()),
        !has_id(s.starred, id1),
    ensures
        ({
            let (s1, r1) = toggle_result(s, p, id1, now1);
            let (s2, r2) = toggle_result(s1, p, id2, now2);
            &&& r1 == Ok::<ToggleView, StoreError>(
                ToggleView { is_starred: true, entry: Some(starred_from(p, id1, now1)) },
            )
            &&& r2 == Ok::<ToggleView, StoreError>(
                ToggleView { is_starred: false, entry: Some(starred_from(p, id1, now1)) },
            )
            &&& s2 == s
        }),
{
    let n = p.normalized_text();
    let e = starred_from(p, id1, now1);
    let t = s.starred.push(e);
    assert(t[s.starred.len() as int].normalized_text == n);
    assert(has_normalized(t, n));
    let i = choose|i: int| 0 <= i < t.len() && t[i].normalized_text == n;
    if i != s.starred.len() {
        assert(s.starred[i].normalized_text == n);
    }
    assert(t.drop_last() =~= s.starred);
    lemma_without_normalized_none(s.starred, n);
}

proof fn lemma_without_normalized_gone(s: Seq<StarredView>, n: Seq<char>)
    ensures
        !has_normalized(without_normalized(s, n), n),
        forall|k: int|
            0 <= k < without_normalized(s, n).len() ==> s.contains(#[trigger] without_normalized(s, n)[k]),
    decreases s.len(),
{
    if s.len() > 0 {
        let d = s.drop_last();
        lemma_without_normalized_gone(d, n);
        let w = without_normalized(s, n);
        let wd = without_normalized(d, n);
        assert forall|k: int| 0 <= k < w.len() implies s.contains(#[trigger] w[k]) by {
            if k < wd.len() {
                assert(w[k] == wd[k]);
                let m = choose|m: int| 0 <= m < d.len() && d[m] == wd[k];
                assert(s[m] == d[m]);
            } else {
                assert(w[k] == s.last());
                assert(s[s.len() - 1] == s.last());
            }
        }
        assert(!has_normalized(w, n)) by {
            if has_normalized(w, n) {
                let k = choose|k: int| 0 <= k < w.len() && #[trigger] w[k].normalized_text == n;
                if k < wd.len() {
                    assert(w[k] == wd[k]);
                }
            }
        }
    }
}

/// A toggle that succeeds flips whether the payload's normalised text is
/// starred, and its answer says whether it now is; one that fails leaves the
/// store as it was.
pub proof fn lemma_toggle_flips_starred(s: StoreView, p: PayloadView, id: Seq<char>, now: Seq<char>)
    ensures
        ({
            let n = p.normalized_text();
            let (s1, r) = toggle_result(s, p, id, now);
            &&& r matches Ok(t) ==> t.is_starred == has_normalized(s1.starred, n) && t.is_starred
                == !has_normalized(s.starred, n)
            &&& r is Err ==> s1 == s && !has_normalized(s.starred, n) && has_id(s.starred, id)
            &&& s1.settings == s.settings
        }),
{
    let n = p.normalized_text();
    if has_normalized(s.starred, n) {
        lemma_without_normalized_gone(s.starred, n);
    } else if !has_id(s.starred, id) {
        let t = s.starred.push(starred_from(p, id, now));
        assert(t[s.starred.len() as int].normalized_text == n);
    }
}

proof fn lemma_without_id_gone(s: Seq<StarredView>, id: Seq<char>)
    ensures
        !has_id(without_id(s, id), id),
        forall|k: int| 0 <= k < without_id(s, id).len() ==> s.contains(#[trigger] without_id(s, id)[k]),
        forall|k: int| 0 <= k < s.len() && s[k].id != id ==> without_id(s, id).contains(#[trigger] s[k]),
    decreases s.len(),
{
    if s.len() > 0 {
        let d = s.drop_last();
        lemma_without_id_gone(d, id);
        let w = without_id(s, id);
        let wd = without_id(d, id);
        assert forall|k: int| 0 <= k < w.len() implies s.contains(#[trigger] w[k]) by {
            if k < wd.len() {
                assert(w[k] == wd[k]);
                let m = choose|m: int| 0 <= m < d.len() && d[m] == wd[k];
                assert(s[m] == d[m]);
            } else {
                assert(w[k] == s.last());
                assert(s[s.len() - 1] == s.last());
            }
        }
        assert forall|k: int| 0 <= k < s.len() && s[k].id != id implies w.contains(#[trigger] s[k]) by {
            if k < d.len() {
                assert(s[k] == d[k]);
                assert(wd.contains(d[k]));
                let m = choose|m: int| 0 <= m < wd.len() && wd[m] == d[k];
                assert(w[m] == wd[m]);
            } else {
                assert(s[k] == s.last());
                assert(w[w.len() - 1] == s.last());
            }
        }
        assert(!has_id(w, id)) by {
            if has_id(w, id) {
                let k = choose|k: int| 0 <= k < w.len() && #[trigger] w[k].id == id;
                if k < wd.len() {
                    assert(w[k] == wd[k]);
                }
            }
        }
    }
}

/// Removing an identifier leaves no entry of it, and every other entry.
pub proof fn lemma_remove_starred(s: Seq<StarredView>, id: Seq<char>)
    ensures
        !has_id(without_id(s, id), id),
        forall|e: StarredView| #[trigger] without_id(s, id).contains(e) <==> s.contains(e) && e.id != id,
{
    lemma_without_id_gone(s, id);
    let w = without_id(s, id);
    assert forall|e: StarredView| #[trigger] w.contains(e) <==> s.contains(e) && e.id != id by {
        if w.contains(e) {
            let k = choose|k: int| 0 <= k < w.len() && w[k] == e;
            assert(s.contains(w[k]));
            if e.id == id {
                assert(w[k].id == id);
            }
        }
        if s.contains(e) && e.id != id {
            let k = choose|k: int| 0 <= k < s.len() && s[k] == e;
            assert(w.contains(s[k]));
        }
    }
}

/// With no stored settings the configuration is the default one.
pub proof fn lemma_empty_settings_give_defaults()
    ensures
        config_from(Map::<Seq<char>, Seq<char>>::empty()) == default_config(),
{
}

/// Whatever the stored settings hold, the configuration read from them sizes
/// the popup within `[300, 520] x [120, 680]`.
pub proof fn lemma_config_read_in_bounds(settings: Map<Seq<char>, Seq<char>>)
    ensures
        300 <= config_from(settings).popup_width <= 520,
        120 <= config_from(settings).popup_height <= 680,
{
}

/// Saving a configuration and reading it back gives the configuration, where
/// its popup size lies within the bounds that reading clamps to.
pub proof fn lemma_saved_config_read_back(settings: Map<Seq<char>, Seq<char>>, c: ConfigView)
    requires
        300 <= c.popup_width <= 520,
        120 <= c.popup_height <= 680,
    ensures
        config_from(settings_with(settings, c)) == c,
{
    reveal_strlit("hotkey");
    reveal_strlit("trigger_source");
    reveal_strlit("auto_start");
    reveal_strlit("max_text_length");
    reveal_strlit("close_on_focus_loss");
    reveal_strlit("popup_width");
    reveal_strlit("popup_height");
    reveal_strlit("true");
    reveal_strlit("false");
    crate::text::lemma_parse_decimal(c.max_text_length as nat, usize::MAX as nat);
    crate::text::lemma_parse_decimal(c.popup_width as nat, u32::MAX as nat);
    crate::text::lemma_parse_decimal(c.popup_height as nat, u32::MAX as nat);
    let m = settings_with(settings, c);
    assert("hotkey"@.len() == 6);
    assert("trigger_source"@.len() == 14);
    assert("auto_start"@.len() == 10);
    assert("max_text_length"@.len() == 15);
    assert("close_on_focus_loss"@.len() == 19);
    assert("popup_width"@.len() == 11);
    assert("popup_height"@.len() == 12);
    assert(m["hotkey"@] == c.hotkey);
    assert(m["trigger_source"@] == c.trigger_source);
    assert(m["auto_start"@] == bool_text(c.auto_start));
    assert(m["max_text_length"@] == decimal(c.max_text_length as nat));
    assert(m["close_on_focus_loss"@] == bool_text(c.close_on_focus_loss));
    assert(m["popup_width"@] == decimal(c.popup_width as nat));
    assert(m["popup_height"@] == decimal(c.popup_height as nat));
    assert("true"@ != "false"@);
}

// ---------------------------------------------------------------------------
// Saving settings row by row.
/// The rows that saving a configuration writes, in order.
pub open spec fn config_rows(c: ConfigView) -> Seq<(Seq<char>, Seq<char>)> {
    seq![
        ("hotkey"@, c.hotkey),
        ("trigger_source"@, c.trigger_source),
        ("auto_start"@, bool_text(c.auto_start)),
        ("max_text_length"@, decimal(c.max_text_length as nat)),
        ("close_on_focus_loss"@, bool_text(c.close_on_focus_loss)),
        ("popup_width"@, decimal(c.popup_width as nat)),
        ("popup_height"@, decimal(c.popup_height as nat)),
    ]
}

/// The settings after each row is written in turn.
pub open spec fn apply_rows(m: Map<Seq<char>, Seq<char>>, rows: Seq<(Seq<char>, Seq<char>)>) -> Map<
    Seq<char>,
    Seq<char>,
>
    decreases rows.len(),
{
    if rows.len() == 0 {
        m
    } else {
        apply_rows(m, rows.drop_last()).insert(rows.last().0, rows.last().1)
    }
}

/// Writing the rows of a configuration one by one is saving it.
pub proof fn lemma_config_rows_save(m: Map<Seq<char>, Seq<char>>, c: ConfigView)
    ensures
        apply_rows(m, config_rows(c)) == settings_with(m, c),
{
    let r = config_rows(c);
    assert(r.drop_last().drop_last().drop_last().drop_last().drop_last().drop_last().drop_last()
        =~= Seq::<(Seq<char>, Seq<char>)>::empty());
    reveal_with_fuel(apply_rows, 8);
}

fn text_of_bool(b: bool) -> (r: String)
    ensures
        r@ == bool_text(b),
{
    if b {
        String::from_str("true")
    } else {
        String::from_str("false")
    }
}

/// The rows, key and value, that saving the configuration writes.
pub fn config_settings(config: &AppConfig) -> (r: Vec<(String, String)>)
    ensures
        r.deep_view() == config_rows(config@),
{
    let mut r: Vec<(String, String)> = Vec::new();
    r.push((String::from_str("hotkey"), config.hotkey.clone()));
    r.push((String::from_str("trigger_source"), config.trigger_source.clone()));
    r.push((String::from_str("auto_start"), text_of_bool(config.auto_start)));
    r.push(
        (
            String::from_str("max_text_length"),
            string_from_chars(&format_decimal(config.max_text_length as u64)),
        ),
    );
    r.push((String::from_str("close_on_focus_loss"), text_of_bool(config.close_on_focus_loss)));
    r.push((String::from_str("popup_width"), string_from_chars(&format_decimal(config.popup_width as u64))));
    r.push(
        (String::from_str("popup_height"), string_from_chars(&format_decimal(config.popup_height as u64))),
    );
    assert(r.deep_view() =~= config_rows(config@));
    r
}

impl Store {
    /// Rewrites the settings as the configuration they give, and hands that
    /// configuration back.
    pub fn initialize(&mut self) -> (r: AppConfig)
        ensures
            r@ == config_from(old(self)@.settings),
            final(self)@.settings == settings_with(old(self)@.settings, r@),
            final(self)@.starred == old(self)@.starred,
            config_from(final(self)@.settings) == config_from(old(self)@.settings),
            unique_entries(final(self)@.starred),
    {
        let config = self.config();
        let r = self.save_config(&config);
        proof {
            lemma_saved_config_read_back(old(self)@.settings, config@);
        }
        r
    }
}

} // verus!
