//! Persisted settings: theme, editor, find defaults, window geometry, and
//! the most-recently-used document list.
use vstd::prelude::*;
use crate::encoding::{LineEnding, TextEncoding};
use crate::platform::{paths_equal, same_path};
use crate::text::{chars_of, copy_string, same_text, string_of};

verus! {

/// Theme mode selection for the application.
#[derive(Debug, Clone, Copy, PartialEq, Eq, Structural)]
pub enum ThemeMode {
    /// Follow the desktop's light color scheme.
    Light,
    /// Follow the desktop's dark color scheme.
    Dark,
    /// Inherit the desktop's active color scheme.
    System,
    /// Tokyo Night (the classic dark "night" variant).
    TokyoNight,
    /// Tokyo Night Storm (lighter blue-grey background).
    TokyoNightStorm,
    /// Tokyo Night Moon (cooler moon background).
    TokyoNightMoon,
}

impl Default for ThemeMode {
    fn default() -> (m: Self)
        ensures
            m == ThemeMode::System,
    {
        ThemeMode::System
    }
}

/// The canonical snake_case identifier of a theme.
pub open spec fn theme_name(m: ThemeMode) -> Seq<char> {
    match m {
        ThemeMode::Light => "light"@,
        ThemeMode::Dark => "dark"@,
        ThemeMode::System => "system"@,
        ThemeMode::TokyoNight => "tokyo_night"@,
        ThemeMode::TokyoNightStorm => "tokyo_night_storm"@,
        ThemeMode::TokyoNightMoon => "tokyo_night_moon"@,
    }
}

/// The theme an identifier names; anything unknown (including "system")
/// selects `System`.
pub open spec fn theme_for_name(n: Seq<char>) -> ThemeMode {
    if n == "light"@ {
        ThemeMode::Light
    } else if n == "dark"@ {
        ThemeMode::Dark
    } else if n == "tokyo_night"@ {
        ThemeMode::TokyoNight
    } else if n == "tokyo_night_storm"@ {
        ThemeMode::TokyoNightStorm
    } else if n == "tokyo_night_moon"@ {
        ThemeMode::TokyoNightMoon
    } else {
        ThemeMode::System
    }
}

/// Unicode `White_Space` characters, the ones `str::trim` removes.
pub open spec fn is_unicode_whitespace(c: char) -> bool {
    let v = c as u32;
    ||| 0x09 <= v <= 0x0D
    ||| v == 0x20
    ||| v == 0x85
    ||| v == 0xA0
    ||| v == 0x1680
    ||| 0x2000 <= v <= 0x200A
    ||| v == 0x2028
    ||| v == 0x2029
    ||| v == 0x202F
    ||| v == 0x205F
    ||| v == 0x3000
}

/// `s` without leading whitespace.
pub open spec fn trim_start(s: Seq<char>) -> Seq<char>
    decreases s.len(),
{
    if s.len() > 0 && is_unicode_whitespace(s[0]) {
        trim_start(s.skip(1))
    } else {
        s
    }
}

/// `s` without trailing whitespace.
pub open spec fn trim_end(s: Seq<char>) -> Seq<char>
    decreases s.len(),
{
    if s.len() > 0 && is_unicode_whitespace(s.last()) {
        trim_end(s.drop_last())
    } else {
        s
    }
}

/// `s` without leading and trailing whitespace.
pub open spec fn trimmed(s: Seq<char>) -> Seq<char> {
    trim_end(trim_start(s))
}

pub open spec fn ascii_lower_char(c: char) -> char {
    if 'A' <= c <= 'Z' {
        ((c as u32) + 32) as char
    } else {
        c
    }
}

/// `s` with ASCII upper-case letters made lower-case.
pub open spec fn ascii_lowercase(s: Seq<char>) -> Seq<char> {
    Seq::new(s.len(), |i: int| ascii_lower_char(s[i]))
}

fn is_whitespace_char(c: char) -> (b: bool)
    ensures
        b == is_unicode_whitespace(c),
{
    let v = c as u32;
    (0x09 <= v && v <= 0x0D) || v == 0x20 || v == 0x85 || v == 0xA0 || v == 0x1680 || (0x2000 <= v
        && v <= 0x200A) || v == 0x2028 || v == 0x2029 || v == 0x202F || v == 0x205F || v == 0x3000
}

proof fn lemma_trim_start_skip(s: Seq<char>, i: int)
    requires
        0 <= i <= s.len(),
        forall|j: int| 0 <= j < i ==> is_unicode_whitespace(#[trigger] s[j]),
    ensures
        trim_start(s) == trim_start(s.skip(i)),
    decreases i,
{
    if i > 0 {
        assert(is_unicode_whitespace(s[0]));
        assert(s.skip(1).skip(i - 1) =~= s.skip(i));
        assert forall|j: int| 0 <= j < i - 1 implies is_unicode_whitespace(#[trigger] s.skip(1)[j]) by {
            assert(s.skip(1)[j] == s[j + 1]);
        }
        lemma_trim_start_skip(s.skip(1), i - 1);
    } else {
        assert(s.skip(0) =~= s);
    }
}

proof fn lemma_trim_end_take(s: Seq<char>, k: int)
    requires
        0 <= k <= s.len(),
        forall|j: int| k <= j < s.len() ==> is_unicode_whitespace(#[trigger] s[j]),
    ensures
        trim_end(s) == trim_end(s.take(k)),
    decreases s.len() - k,
{
    if k < s.len() {
        assert(s.drop_last().take(k) =~= s.take(k));
        lemma_trim_end_take(s.drop_last(), k);
    } else {
        assert(s.take(k) =~= s);
    }
}

/// The text with surrounding whitespace removed and ASCII letters lowered.
fn normalized_identifier(value: &str) -> (r: String)
    ensures
        r@ == ascii_lowercase(trimmed(value@)),
{
    let v = chars_of(value);
    let mut a: usize = 0;
    while a < v.len() && is_whitespace_char(v[a])
        invariant
            a <= v.len(),
            forall|j: int| 0 <= j < a ==> is_unicode_whitespace(#[trigger] v@[j]),
        decreases v.len() - a,
    {
        a = a + 1;
    }
    proof {
        lemma_trim_start_skip(v@, a as int);
    }
    let ghost rest = v@.skip(a as int);
    let mut b: usize = v.len();
    while b > a && is_whitespace_char(v[b - 1])
        invariant
            a <= b <= v.len(),
            rest == v@.skip(a as int),
            forall|j: int| b - a <= j < rest.len() ==> is_unicode_whitespace(#[trigger] rest[j]),
        decreases b - a,
    {
        b = b - 1;
    }
    proof {
        lemma_trim_end_take(rest, (b - a) as int);
        if b > a {
            assert(!is_unicode_whitespace(rest[(b - a - 1) as int]));
        }
        assert(a < v@.len() ==> !is_unicode_whitespace(rest[0]) || b == a);
    }
    let ghost core = rest.take((b - a) as int);
    assert(trim_end(core) == core) by {
        if core.len() > 0 {
            assert(core.last() == rest[(b - a - 1) as int]);
        }
    }
    assert(trim_start(rest) == rest) by {
        if rest.len() > 0 {
            assert(!is_unicode_whitespace(rest[0]));
        }
    }
    let mut out: Vec<char> = Vec::new();
    let mut i: usize = a;
    while i < b
        invariant
            a <= i <= b <= v.len(),
            out@.len() == i - a,
            forall|j: int| 0 <= j < i - a ==> out@[j] == #[trigger] ascii_lower_char(v@[a + j]),
        decreases b - i,
    {
        let c = v[i];
        let lowered = if 'A' <= c && c <= 'Z' {
            let code = (c as u32) + 32;
            match crate::platform::char_from_u32(code) {
                Some(l) => {
                    proof {
                        vstd::utf8::char_u32_cast(l, code);
                    }
                    l
                },
                None => {
                    assert(vstd::utf8::is_scalar(code));
                    c
                },
            }
        } else {
            c
        };
        assert(lowered == ascii_lower_char(v@[a + (i - a)]));
        out.push(lowered);
        i = i + 1;
    }
    assert forall|j: int| 0 <= j < core.len() implies core[j] == v@[a + j] by {}
    assert(out@ =~= ascii_lowercase(core));
    string_of(&out)
}

impl ThemeMode {
    /// Returns the canonical snake_case identifier used in persisted settings
    /// and across the UI.
    pub fn as_str(self) -> (s: &'static str)
        ensures
            s@ == theme_name(self),
    {
        match self {
            ThemeMode::Light => "light",
            ThemeMode::Dark => "dark",
            ThemeMode::System => "system",
            ThemeMode::TokyoNight => "tokyo_night",
            ThemeMode::TokyoNightStorm => "tokyo_night_storm",
            ThemeMode::TokyoNightMoon => "tokyo_night_moon",
        }
    }

    /// Parses a theme identifier (ignoring surrounding whitespace and ASCII
    /// case), falling back to `System` for any unknown value.
    pub fn from_str_lenient(value: &str) -> (m: Self)
        ensures
            m == theme_for_name(ascii_lowercase(trimmed(value@))),
    {
        let key = normalized_identifier(value);
        let k = key.as_str();
        if same_text(k, "light") {
            ThemeMode::Light
        } else if same_text(k, "dark") {
            ThemeMode::Dark
        } else if same_text(k, "tokyo_night") {
            ThemeMode::TokyoNight
        } else if same_text(k, "tokyo_night_storm") {
            ThemeMode::TokyoNightStorm
        } else if same_text(k, "tokyo_night_moon") {
            ThemeMode::TokyoNightMoon
        } else {
            ThemeMode::System
        }
    }
}

/// Indentation style preference.
#[derive(Debug, Clone, Copy, PartialEq, Eq, Structural)]
pub enum IndentType {
    Spaces,
    Tabs,
}

impl Default for IndentType {
    fn default() -> (t: Self)
        ensures
            t == IndentType::Spaces,
    {
        IndentType::Spaces
    }
}

/// UI-related settings persisted across sessions.
#[derive(Debug, Clone, Copy, PartialEq, Eq, Structural)]
pub struct UiSettings {
    pub word_wrap_enabled: bool,
    pub translucency_enabled: bool,
    pub shadow_enabled: bool,
    pub theme: ThemeMode,
}

/// Whether window shadows are on when a setting is missing.
pub fn default_shadow_enabled() -> (b: bool)
    ensures
        b,
{
    true
}

pub open spec fn default_ui_settings() -> UiSettings {
    UiSettings {
        word_wrap_enabled: false,
        translucency_enabled: false,
        shadow_enabled: true,
        theme: ThemeMode::System,
    }
}

impl Default for UiSettings {
    fn default() -> (s: Self)
        ensures
            s == default_ui_settings(),
    {
        UiSettings {
            word_wrap_enabled: false,
            translucency_enabled: false,
            shadow_enabled: default_shadow_enabled(),
            theme: ThemeMode::System,
        }
    }
}

/// Editor behavior settings.
#[derive(Debug, Clone)]
pub struct EditorSettings {
    pub font_family: String,
    pub font_size: u32,
    pub tab_stop_distance: u32,
    pub indent_type: IndentType,
    pub indent_size: u32,
}

/// The editor font family used when none is configured.
pub fn default_font_family() -> (f: String)
    ensures
        f@ == "monospace"@,
{
    copy_string("monospace")
}

/// The editor font size used when none is configured.
pub fn default_font_size() -> (n: u32)
    ensures
        n == 11,
{
    11
}

/// The tab width used when none is configured.
pub fn default_tab_stop() -> (n: u32)
    ensures
        n == 4,
{
    4
}

/// The indent width used when none is configured.
pub fn default_indent_size() -> (n: u32)
    ensures
        n == 4,
{
    4
}

impl Default for EditorSettings {
    fn default() -> (s: Self)
        ensures
            s.font_family@ == "monospace"@,
            s.font_size == 11,
            s.tab_stop_distance == 4,
            s.indent_type == IndentType::Spaces,
            s.indent_size == 4,
    {
        EditorSettings {
            font_family: default_font_family(),
            font_size: default_font_size(),
            tab_stop_distance: default_tab_stop(),
            indent_type: IndentType::Spaces,
            indent_size: default_indent_size(),
        }
    }
}

/// Find/search default options.
#[derive(Debug, Clone, Copy, PartialEq, Eq, Structural)]
pub struct FindDefaults {
    pub case_sensitive: bool,
    pub whole_word: bool,
    pub use_regex: bool,
    pub wrap_around: bool,
}

/// Whether search wraps around when a setting is missing.
pub fn default_wrap_around() -> (b: bool)
    ensures
        b,
{
    true
}

pub open spec fn default_find_defaults() -> FindDefaults {
    FindDefaults { case_sensitive: false, whole_word: false, use_regex: false, wrap_around: true }
}

impl Default for FindDefaults {
    fn default() -> (d: Self)
        ensures
            d == default_find_defaults(),
    {
        FindDefaults {
            case_sensitive: false,
            whole_word: false,
            use_regex: false,
            wrap_around: default_wrap_around(),
        }
    }
}

/// Window geometry state for restoration.
#[derive(Debug, Clone, Copy, PartialEq, Eq, Structural)]
pub struct WindowState {
    pub width: u32,
    pub height: u32,
    pub x: Option<i32>,
    pub y: Option<i32>,
}

/// The window width used when none is stored.
pub fn default_window_width() -> (n: u32)
    ensures
        n == 960,
{
    960
}

/// The window height used when none is stored.
pub fn default_window_height() -> (n: u32)
    ensures
        n == 620,
{
    620
}

pub open spec fn default_window_state() -> WindowState {
    WindowState { width: 960, height: 620, x: None, y: None }
}

impl Default for WindowState {
    fn default() -> (w: Self)
        ensures
            w == default_window_state(),
    {
        WindowState {
            width: default_window_width(),
            height: default_window_height(),
            x: None,
            y: None,
        }
    }
}

/// Serialized representation of a recently accessed document.
#[derive(Debug, PartialEq, Eq)]
pub struct RecentDocument {
    pub path: String,
    pub title: String,
    pub encoding: TextEncoding,
    pub line_ending: LineEnding,
    pub last_opened_epoch: u64,
}

/// What a recent-document entry holds.
pub struct RecentModel {
    pub path: Seq<char>,
    pub title: Seq<char>,
    pub encoding: TextEncoding,
    pub line_ending: LineEnding,
    pub last_opened_epoch: u64,
}

impl View for RecentDocument {
    type V = RecentModel;

    open spec fn view(&self) -> RecentModel {
        RecentModel {
            path: self.path@,
            title: self.title@,
            encoding: self.encoding,
            line_ending: self.line_ending,
            last_opened_epoch: self.last_opened_epoch,
        }
    }
}

/// The entries of a recent-document list, by their views.
pub open spec fn recent_views(s: Seq<RecentDocument>) -> Seq<RecentModel> {
    s.map_values(|r: RecentDocument| r@)
}

impl Clone for RecentDocument {
    fn clone(&self) -> (r: Self)
        ensures
            r@ == self@,
    {
        RecentDocument {
            path: self.path.clone(),
            title: self.title.clone(),
            encoding: self.encoding,
            line_ending: self.line_ending,
            last_opened_epoch: self.last_opened_epoch,
        }
    }
}

/// Everything the configuration file holds.
#[derive(Debug)]
pub struct ManagerConfig {
    pub recent_documents: Vec<RecentDocument>,
    pub ui: UiSettings,
    pub editor: EditorSettings,
    pub find_defaults: FindDefaults,
    pub window: WindowState,
}

impl Default for ManagerConfig {
    fn default() -> (c: Self)
        ensures
            c.recent_documents@ == Seq::<RecentDocument>::empty(),
            c.ui == default_ui_settings(),
            c.editor.font_family@ == "monospace"@,
            c.editor.font_size == 11,
            c.editor.tab_stop_distance == 4,
            c.editor.indent_type == IndentType::Spaces,
            c.editor.indent_size == 4,
            c.find_defaults == default_find_defaults(),
            c.window == default_window_state(),
    {
        ManagerConfig {
            recent_documents: Vec::new(),
            ui: UiSettings::default(),
            editor: EditorSettings::default(),
            find_defaults: FindDefaults::default(),
            window: WindowState::default(),
        }
    }
}

/// The entries of `s` whose path differs from `p` (as `std::path::Path`
/// compares them), in order.
pub open spec fn without_path(s: Seq<RecentModel>, p: Seq<char>) -> Seq<RecentModel>
    decreases s.len(),
{
    if s.len() == 0 {
        s
    } else {
        let rest = without_path(s.drop_last(), p);
        if paths_equal(s.last().path, p) {
            rest
        } else {
            rest.push(s.last())
        }
    }
}

/// The most-recently-used list after `entry` is recorded: the entry first,
/// any older entry for the same path dropped, and the list cut to `limit`.
pub open spec fn recorded_recent(s: Seq<RecentModel>, entry: RecentModel, limit: usize) -> Seq<RecentModel> {
    let l = seq![entry] + without_path(s, entry.path);
    if l.len() > limit {
        l.take(limit as int)
    } else {
        l
    }
}

/// Records `entry` as the most recently used document.
pub fn record_recent_entry(recent: &mut Vec<RecentDocument>, entry: RecentDocument, limit: usize)
    ensures
        recent_views(final(recent)@) == recorded_recent(recent_views(old(recent)@), entry@, limit),
{
    let mut kept: Vec<RecentDocument> = Vec::new();
    let ghost orig = recent_views(recent@);
    let mut i: usize = 0;
    assert(orig.len() == recent.len());
    while recent.len() > 0
        invariant
            orig.len() <= usize::MAX,
            i <= orig.len(),
            recent@.len() + i == orig.len(),
            recent_views(recent@) == orig.skip(i as int),
            recent_views(kept@) == without_path(orig.take(i as int), entry@.path),
        decreases recent.len(),
    {
        let ghost before = recent@;
        let item = recent.remove(0);
        proof {
            assert(recent_views(before)[0] == item@);
            assert(item@ == orig[i as int]);
            assert(orig.take(i + 1).drop_last() =~= orig.take(i as int));
            assert(orig.take(i + 1).last() == item@);
            assert(recent_views(recent@) =~= recent_views(before).skip(1));
            assert(recent_views(recent@) =~= orig.skip(i + 1));
        }
        if !same_path(item.path.as_str(), entry.path.as_str()) {
            let ghost k0 = kept@;
            kept.push(item);
            assert(recent_views(kept@) =~= recent_views(k0).push(item@));
        }
        i = i + 1;
    }
    assert(orig.take(i as int) =~= orig);
    let ghost k1 = kept@;
    kept.insert(0, entry);
    assert(recent_views(kept@) =~= seq![entry@] + recent_views(k1));
    if kept.len() > limit {
        let ghost k2 = kept@;
        kept.truncate(limit);
        assert(recent_views(kept@) =~= recent_views(k2).take(limit as int));
    }
    *recent = kept;
}

/// No entry's path equals (as `std::path::Path` compares them) the path of
/// an entry before it.
pub open spec fn distinct_paths(s: Seq<RecentModel>) -> bool {
    forall|i: int, j: int| 0 <= i < j < s.len() ==> !paths_equal(s[j].path, s[i].path)
}

proof fn lemma_without_path(s: Seq<RecentModel>, p: Seq<char>)
    ensures
        forall|i: int| 0 <= i < without_path(s, p).len() ==> !paths_equal((#[trigger] without_path(s, p)[i]).path, p),
        forall|i: int| 0 <= i < without_path(s, p).len() ==> s.contains(#[trigger] without_path(s, p)[i]),
        without_path(s, p).len() <= s.len(),
        distinct_paths(s) ==> distinct_paths(without_path(s, p)),
    decreases s.len(),
{
    if s.len() > 0 {
        let rest = without_path(s.drop_last(), p);
        lemma_without_path(s.drop_last(), p);
        assert forall|i: int| 0 <= i < rest.len() implies s.contains(#[trigger] rest[i]) by {
            let k = choose|k: int| 0 <= k < s.drop_last().len() && s.drop_last()[k] == rest[i];
            assert(s[k] == rest[i]);
        }
        if distinct_paths(s) {
            assert(distinct_paths(s.drop_last())) by {
                assert forall|i: int, j: int| 0 <= i < j < s.drop_last().len() implies !paths_equal(
                    s.drop_last()[j].path,
                    s.drop_last()[i].path,
                ) by {
                    assert(s.drop_last()[i] == s[i] && s.drop_last()[j] == s[j]);
                }
            }
            if !paths_equal(s.last().path, p) {
                let w = rest.push(s.last());
                assert forall|i: int, j: int| 0 <= i < j < w.len() implies !paths_equal(w[j].path, w[i].path) by {
                    if j == w.len() - 1 {
                        let k = choose|k: int| 0 <= k < s.drop_last().len() && s.drop_last()[k] == rest[i];
                        assert(s[k] == w[i]);
                        assert(k < s.len() - 1);
                        assert(w[j] == s[s.len() - 1]);
                    }
                }
            }
        }
        assert(s.contains(s.last()));
    }
}

/// After recording a document, the list starts with it, keeps at most
/// `limit` entries, holds no other entry whose path equals the new one (as
/// `std::path::Path` compares them), and holds no path twice when it held
/// none twice before.
pub proof fn law_recent_list_shape(s: Seq<RecentModel>, entry: RecentModel, limit: usize)
    ensures
        recorded_recent(s, entry, limit).len() <= limit,
        limit > 0 ==> recorded_recent(s, entry, limit)[0] == entry,
        distinct_paths(s) ==> distinct_paths(recorded_recent(s, entry, limit)),
        forall|i: int|
            1 <= i < recorded_recent(s, entry, limit).len() ==> !paths_equal(
                (#[trigger] recorded_recent(s, entry, limit)[i]).path,
                entry.path,
            ),
{
    lemma_without_path(s, entry.path);
    let w = without_path(s, entry.path);
    let l = seq![entry] + w;
    let r = recorded_recent(s, entry, limit);
    assert forall|i: int| 1 <= i < l.len() implies !paths_equal((#[trigger] l[i]).path, entry.path) by {
        assert(l[i] == w[i - 1]);
    }
    if distinct_paths(s) {
        assert forall|i: int, j: int| 0 <= i < j < l.len() implies !paths_equal(l[j].path, l[i].path) by {
            if i > 0 {
                assert(l[i] == w[i - 1] && l[j] == w[j - 1]);
            } else {
                assert(l[j] == w[j - 1]);
            }
        }
    }
    assert forall|i: int| 1 <= i < r.len() implies !paths_equal((#[trigger] r[i]).path, entry.path) by {
        assert(r[i] == l[i]);
    }
    if distinct_paths(s) {
        assert forall|i: int, j: int| 0 <= i < j < r.len() implies !paths_equal(r[j].path, r[i].path) by {
            assert(r[i] == l[i] && r[j] == l[j]);
        }
    }
}

/// An entry's path differs from `p` (as `std::path::Path` compares them).
pub open spec fn path_differs_from(p: Seq<char>) -> spec_fn(RecentModel) -> bool {
    |x: RecentModel| !paths_equal(x.path, p)
}

proof fn lemma_without_path_is_filter(s: Seq<RecentModel>, p: Seq<char>)
    ensures
        without_path(s, p) == s.filter(path_differs_from(p)),
    decreases s.len(),
{
    reveal(Seq::filter);
    if s.len() > 0 {
        lemma_without_path_is_filter(s.drop_last(), p);
    }
}

/// Recording a document puts it first, followed by the earlier list in its
/// own order with the entries for the same path taken out. When that is
/// longer than `limit`, the oldest entries (those at the end) are the ones
/// cut: the result is its first `limit` entries.
pub proof fn law_recent_list_drops_the_oldest(s: Seq<RecentModel>, entry: RecentModel, limit: usize)
    ensures
        ({
            let kept = s.filter(path_differs_from(entry.path));
            let r = recorded_recent(s, entry, limit);
            &&& r.len() == if kept.len() + 1 <= limit {
                kept.len() + 1int
            } else {
                limit as int
            }
            &&& forall|i: int| 0 <= i < r.len() ==> #[trigger] r[i] == (seq![entry] + kept)[i]
            &&& limit > 0 ==> r[0] == entry
            &&& forall|i: int| 1 <= i < r.len() ==> #[trigger] r[i] == kept[i - 1]
        }),
{
    lemma_without_path_is_filter(s, entry.path);
    let kept = s.filter(path_differs_from(entry.path));
    let l = seq![entry] + kept;
    let r = recorded_recent(s, entry, limit);
    assert forall|i: int| 1 <= i < r.len() implies #[trigger] r[i] == kept[i - 1] by {
        assert(r[i] == l[i]);
    }
    if limit > 0 {
        assert(r[0] == l[0]);
    }
}

/// Each theme's identifier parses back to that theme.
pub proof fn law_theme_name_round_trip(m: ThemeMode)
    ensures
        theme_for_name(ascii_lowercase(trimmed(theme_name(m)))) == m,
{
    reveal_strlit("light");
    reveal_strlit("dark");
    reveal_strlit("system");
    reveal_strlit("tokyo_night");
    reveal_strlit("tokyo_night_storm");
    reveal_strlit("tokyo_night_moon");
    let n = theme_name(m);
    assert(n.len() > 0);
    assert(!is_unicode_whitespace(n[0]));
    assert(trim_start(n) == n);
    assert(!is_unicode_whitespace(n.last()));
    assert(trim_end(n) == n);
    assert(ascii_lowercase(n) =~= n);
}

} // verus!
