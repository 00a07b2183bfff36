//! Application preferences: values looked up in the user's configuration
//! document, with file-type specific values taking precedence, and a document of
//! defaults behind it.

use vstd::prelude::*;
use crate::search_select::{SearchSelectConfig, DEFAULT_MAX_RESULTS};
use crate::number::{parse_usize, spec_parse_usize};
use crate::open_mode::{exclusion_problem, parse, ExclusionError};
use crate::text::{chars_of, string_from_chars};

verus! {

/// A YAML document or node, as the YAML loader builds it.
#[derive(Debug, PartialEq)]
pub enum YamlValue {
    /// A floating point number, kept as written.
    Real(std::string::String),
    Integer(i64),
    String(std::string::String),
    Boolean(bool),
    Array(Vec<YamlValue>),
    /// A mapping, its entries in order.
    Hash(Vec<(YamlValue, YamlValue)>),
    Alias(usize),
    Null,
    /// What looking up a missing key gives.
    BadValue,
}

pub const LINE_COMMENT_PREFIX_KEY: &'static str = "line_comment_prefix";
pub const LINE_LENGTH_GUIDE_KEY: &'static str = "line_length_guide";
pub const LINE_WRAPPING_KEY: &'static str = "line_wrapping";
pub const OPEN_MODE_KEY: &'static str = "open_mode";
pub const OPEN_MODE_EXCLUSIONS_KEY: &'static str = "exclusions";
pub const SEARCH_SELECT_KEY: &'static str = "search_select";
pub const SOFT_TABS_KEY: &'static str = "soft_tabs";
pub const TAB_WIDTH_KEY: &'static str = "tab_width";
pub const THEME_KEY: &'static str = "theme";
pub const TYPES_KEY: &'static str = "types";
pub const TYPES_SYNTAX_KEY: &'static str = "syntax";

/// The position of the first entry in `entries[i..]` whose key is the string `key`.
pub open spec fn entry_position(entries: Seq<(YamlValue, YamlValue)>, key: Seq<char>, i: int) -> Option<int>
    decreases entries.len() - i,
{
    if i < 0 || i >= entries.len() {
        None
    } else if entries[i].0 matches YamlValue::String(s) && s@ == key {
        Some(i)
    } else {
        entry_position(entries, key, i + 1)
    }
}

/// `v[key]`: the value of the string key `key` in a mapping, or `BadValue` when
/// `v` is not a mapping or has no such key.
pub open spec fn yaml_get(v: YamlValue, key: Seq<char>) -> YamlValue {
    match v {
        YamlValue::Hash(entries) => match entry_position(entries@, key, 0) {
            Some(i) => entries@[i].1,
            None => YamlValue::BadValue,
        },
        _ => YamlValue::BadValue,
    }
}

/// Whether a value counts as missing: `Null` or `BadValue`.
pub open spec fn absent(v: YamlValue) -> bool {
    v is Null || v is BadValue
}

/// `a`, or `b` when `a` is missing.
pub open spec fn or_else(a: YamlValue, b: YamlValue) -> YamlValue {
    if absent(a) {
        b
    } else {
        a
    }
}

/// The value for `key` in `doc`: the one set for the file name under `types`,
/// else the one set for the file extension under `types`, else the general one.
pub open spec fn find_with_precedence(
    doc: YamlValue,
    key: Seq<char>,
    ext: Option<Seq<char>>,
    name: Option<Seq<char>>,
) -> YamlValue {
    let name_match = match name {
        Some(n) => yaml_get(yaml_get(yaml_get(doc, "types"@), n), key),
        None => YamlValue::Null,
    };
    let ext_match = match ext {
        Some(e) => yaml_get(yaml_get(yaml_get(doc, "types"@), e), key),
        None => YamlValue::Null,
    };
    or_else(or_else(name_match, ext_match), yaml_get(doc, key))
}

/// A preference value, as the preferences use it.
pub enum Setting {
    Text(Seq<char>),
    Integer(i64),
    Flag(bool),
    /// A value of another kind.
    Other,
    /// No value.
    Absent,
}

pub open spec fn setting_of(v: YamlValue) -> Setting {
    match v {
        YamlValue::String(s) => Setting::Text(s@),
        YamlValue::Integer(i) => Setting::Integer(i),
        YamlValue::Boolean(b) => Setting::Flag(b),
        YamlValue::Null => Setting::Absent,
        YamlValue::BadValue => Setting::Absent,
        _ => Setting::Other,
    }
}

/// The value of the first override of `key`, if any.
pub open spec fn override_of(overrides: Seq<(String, String)>, key: Seq<char>) -> Option<Seq<char>>
    decreases overrides.len(),
{
    if overrides.len() == 0 {
        None
    } else if overrides[0].0@ == key {
        Some(overrides[0].1@)
    } else {
        override_of(overrides.drop_first(), key)
    }
}

/// A preference: an in-memory override if there is one, else the value found in
/// the user's document (see `find_with_precedence`), else the one found in the
/// defaults.
pub open spec fn preference(
    overrides: Seq<(String, String)>,
    data: YamlValue,
    defaults: YamlValue,
    key: Seq<char>,
    ext: Option<Seq<char>>,
    name: Option<Seq<char>>,
) -> Setting {
    match override_of(overrides, key) {
        Some(v) => Setting::Text(v),
        None => setting_of(
            or_else(
                find_with_precedence(data, key, ext, name),
                find_with_precedence(defaults, key, ext, name),
            ),
        ),
    }
}

/// The text of an optional string.
pub open spec fn text_of(s: Option<&str>) -> Option<Seq<char>> {
    match s {
        Some(t) => Some(t@),
        None => None,
    }
}

#[verifier::external_type_specification]
#[verifier::external_body]
pub struct ExYaml(yaml_rust::Yaml);

/// The documents that `yaml_rust::YamlLoader::load_from_str` reads from a text,
/// in order, each node as a `YamlValue` (mappings keep their entries in order);
/// `None` when the loader refuses the text.
pub uninterp spec fn yaml_documents(text: Seq<char>) -> Option<Seq<YamlValue>>;

/// Calls `YamlLoader::load_from_str`, converting each document node for node.
#[verifier::external_body]
fn load_yaml(text: &str) -> (r: Option<Vec<YamlValue>>)
    ensures
        match yaml_documents(text@) {
            Some(d) => r matches Some(v) && v@ == d,
            None => r is None,
        },
{
    yaml_rust::YamlLoader::load_from_str(text).ok().map(|docs| docs.iter().map(yaml_node).collect())
}

/// Converts a `yaml_rust` node into a `YamlValue`, variant for variant, for
/// `load_yaml` (a wrapper's body cannot hold the recursion itself).
#[verifier::external_body]
fn yaml_node(node: &yaml_rust::Yaml) -> YamlValue {
    match node {
        yaml_rust::Yaml::Real(r) => YamlValue::Real(r.clone()),
        yaml_rust::Yaml::Integer(i) => YamlValue::Integer(*i),
        yaml_rust::Yaml::String(s) => YamlValue::String(s.clone()),
        yaml_rust::Yaml::Boolean(b) => YamlValue::Boolean(*b),
        yaml_rust::Yaml::Array(a) => YamlValue::Array(a.iter().map(yaml_node).collect()),
        yaml_rust::Yaml::Hash(h) => YamlValue::Hash(h.iter().map(|(k, v)| (yaml_node(k), yaml_node(v))).collect()),
        yaml_rust::Yaml::Alias(a) => YamlValue::Alias(*a),
        yaml_rust::Yaml::Null => YamlValue::Null,
        yaml_rust::Yaml::BadValue => YamlValue::BadValue,
    }
}

/// The first YAML document of a preference file's text, `Null` when the text
/// holds none; an error exactly when the text is not valid YAML.
pub fn parse_document(data: &str) -> (r: Result<YamlValue, PreferencesError>)
    ensures
        match yaml_documents(data@) {
            None => r == Err::<YamlValue, PreferencesError>(PreferencesError::Unparseable),
            Some(d) => r == Ok::<YamlValue, PreferencesError>(
                if d.len() > 0 {
                    d[0]
                } else {
                    YamlValue::Null
                },
            ),
        },
{
    match load_yaml(data) {
        None => Err(PreferencesError::Unparseable),
        Some(mut docs) => {
            if docs.len() > 0 {
                Ok(docs.remove(0))
            } else {
                Ok(YamlValue::Null)
            }
        },
    }
}

/// What `Path::extension` gives for a path, as text.
pub uninterp spec fn path_extension(path: Seq<char>) -> Option<Seq<char>>;

/// What `Path::file_name` gives for a path, as text.
pub uninterp spec fn path_file_name(path: Seq<char>) -> Option<Seq<char>>;

/// Calls `Path::extension` and `OsStr::to_str`.
#[verifier::external_body]
fn extension_of(path: &str) -> (r: Option<String>)
    ensures
        r matches Some(e) ==> path_extension(path@) == Some(e@),
        r is None ==> path_extension(path@) is None,
{
    std::path::Path::new(path).extension().and_then(|e| e.to_str()).map(|e| e.to_string())
}

/// Calls `Path::file_name` and `OsStr::to_str`.
#[verifier::external_body]
fn file_name_of(path: &str) -> (r: Option<String>)
    ensures
        r matches Some(n) ==> path_file_name(path@) == Some(n@),
        r is None ==> path_file_name(path@) is None,
{
    std::path::Path::new(path).file_name().and_then(|n| n.to_str()).map(|n| n.to_string())
}

/// The type of a file, for type-specific preferences: its extension, or else its
/// file name.
pub open spec fn file_type(path: Option<Seq<char>>) -> Option<Seq<char>> {
    match path {
        Some(p) => match path_extension(p) {
            Some(e) => Some(e),
            None => path_file_name(p),
        },
        None => None,
    }
}

/// The type of the file at `path` (see `file_type`): its extension, or else its
/// file name.
pub fn type_of_path(path: Option<&str>) -> (r: Option<String>)
    ensures
        r matches Some(t) ==> file_type(text_of(path)) == Some(t@),
        r is None ==> file_type(text_of(path)) is None,
{
    match path {
        Some(p) => match extension_of(p) {
            Some(e) => Some(e),
            None => file_name_of(p),
        },
        None => None,
    }
}

/// `v[key]`, `None` standing for `BadValue`.
fn get<'a>(v: &'a YamlValue, key: &str) -> (r: Option<&'a YamlValue>)
    ensures
        r matches Some(x) ==> *x == yaml_get(*v, key@) && !(*x is BadValue),
        r is None ==> yaml_get(*v, key@) is BadValue,
{
    match v {
        YamlValue::Hash(entries) => {
            let k = chars_of(key);
            let mut i: usize = 0;
            while i < entries.len()
                invariant
                    0 <= i <= entries@.len(),
                    k@ == key@,
                    *v == YamlValue::Hash(*entries),
                    entry_position(entries@, key@, 0) == entry_position(entries@, key@, i as int),
                decreases entries@.len() - i,
            {
                let matched = match &entries[i].0 {
                    YamlValue::String(s) => same_text(s, &k),
                    _ => false,
                };
                if matched {
                    assert(entries@[i as int].0 matches YamlValue::String(s) && s@ == key@);
                    assert(entry_position(entries@, key@, i as int) == Some(i as int));
                    let found = &entries[i].1;
                    assert(*found == entries@[i as int].1);
                    assert(yaml_get(*v, key@) == *found);
                    if let YamlValue::BadValue = found {
                        return None;
                    }
                    return Some(found);
                }
                i = i + 1;
            }
            None
        },
        _ => None,
    }
}

/// Whether `s` holds the characters `k`.
fn same_text(s: &String, k: &Vec<char>) -> (b: bool)
    ensures
        b == (s@ == k@),
{
    let c = chars_of(s.as_str());
    if c.len() != k.len() {
        return false;
    }
    let mut i: usize = 0;
    while i < c.len()
        invariant
            0 <= i <= c@.len(),
            c@.len() == k@.len(),
            c@ == s@,
            forall|j: int| 0 <= j < i ==> c@[j] == k@[j],
        decreases c@.len() - i,
    {
        if c[i] != k[i] {
            return false;
        }
        i = i + 1;
    }
    assert(c@ =~= k@);
    true
}

/// `v[a][b][c]` for string keys, `None` standing for `BadValue`.
fn get_path<'a>(v: &'a YamlValue, a: &str, b: &str, c: &str) -> (r: Option<&'a YamlValue>)
    ensures
        r matches Some(x) ==> *x == yaml_get(yaml_get(yaml_get(*v, a@), b@), c@),
        r is None ==> yaml_get(yaml_get(yaml_get(*v, a@), b@), c@) is BadValue,
{
    match get(v, a) {
        Some(x) => match get(x, b) {
            Some(y) => get(y, c),
            None => None,
        },
        None => None,
    }
}

/// A preference value, as the preferences use it (see `Setting`).
#[derive(Clone, Debug, PartialEq)]
pub enum SettingValue {
    Text(String),
    Integer(i64),
    Flag(bool),
    Other,
    Absent,
}

impl View for SettingValue {
    type V = Setting;

    open spec fn view(&self) -> Setting {
        match self {
            SettingValue::Text(s) => Setting::Text(s@),
            SettingValue::Integer(i) => Setting::Integer(*i),
            SettingValue::Flag(b) => Setting::Flag(*b),
            SettingValue::Other => Setting::Other,
            SettingValue::Absent => Setting::Absent,
        }
    }
}

/// The setting a found value gives, `None` standing for `BadValue`.
fn setting_from(v: Option<&YamlValue>) -> (r: SettingValue)
    ensures
        r@ == setting_of(
            match v {
                Some(x) => *x,
                None => YamlValue::BadValue,
            },
        ),
{
    match v {
        Some(YamlValue::String(s)) => SettingValue::Text(s.clone()),
        Some(YamlValue::Integer(i)) => SettingValue::Integer(*i),
        Some(YamlValue::Boolean(b)) => SettingValue::Flag(*b),
        Some(YamlValue::Null) => SettingValue::Absent,
        Some(YamlValue::BadValue) => SettingValue::Absent,
        None => SettingValue::Absent,
        Some(_) => SettingValue::Other,
    }
}

/// Whether a found value counts as missing, `None` standing for `BadValue`.
fn is_absent(v: Option<&YamlValue>) -> (b: bool)
    ensures
        b == absent(
            match v {
                Some(x) => *x,
                None => YamlValue::BadValue,
            },
        ),
{
    match v {
        Some(YamlValue::Null) => true,
        Some(YamlValue::BadValue) => true,
        None => true,
        Some(_) => false,
    }
}

/// The value for `key` in `doc` with type-specific values first, `None` standing
/// for `BadValue`.
fn find<'a>(doc: &'a YamlValue, key: &str, ext: Option<&str>, name: Option<&str>) -> (r: Option<&'a YamlValue>)
    ensures
        match r {
            Some(x) => *x == find_with_precedence(*doc, key@, text_of(ext), text_of(name)),
            None => find_with_precedence(*doc, key@, text_of(ext), text_of(name)) is BadValue,
        },
{
    let name_match = match name {
        Some(n) => get_path(doc, "types", n, key),
        None => None,
    };
    let ext_match = match ext {
        Some(e) => get_path(doc, "types", e, key),
        None => None,
    };
    // A missing name or extension counts as `Null`, which gives way as `BadValue` does.
    let first = if is_absent(name_match) {
        ext_match
    } else {
        name_match
    };
    if is_absent(first) {
        get(doc, key)
    } else {
        first
    }
}

/// Whether `v` is the text `s`.
pub open spec fn text_is(v: YamlValue, s: Seq<char>) -> bool {
    v matches YamlValue::String(t) && t@ == s
}

/// Whether `v` is a mapping of one entry, from the text `key` to a value `value`
/// satisfies.
pub open spec fn single_entry(v: YamlValue, key: Seq<char>, value: spec_fn(YamlValue) -> bool) -> bool {
    v matches YamlValue::Hash(e) && e@.len() == 1 && text_is(e@[0].0, key) && value(e@[0].1)
}

/// The preferences built into the editor: the theme `solarized_dark`, a tab
/// width of 2, soft tabs, a line length guide at 80, line wrapping, `**/.git`
/// excluded from open mode, 5 search results, and `//` as the line comment prefix
/// of Rust files.
pub open spec fn built_in_defaults(d: YamlValue) -> bool {
    d matches YamlValue::Hash(e) && e@.len() == 8
        && text_is(e@[0].0, THEME_KEY@) && text_is(e@[0].1, "solarized_dark"@)
        && text_is(e@[1].0, TAB_WIDTH_KEY@) && e@[1].1 == YamlValue::Integer(2)
        && text_is(e@[2].0, SOFT_TABS_KEY@) && e@[2].1 == YamlValue::Boolean(true)
        && text_is(e@[3].0, LINE_LENGTH_GUIDE_KEY@) && e@[3].1 == YamlValue::Integer(80)
        && text_is(e@[4].0, LINE_WRAPPING_KEY@) && e@[4].1 == YamlValue::Boolean(true)
        && text_is(e@[5].0, OPEN_MODE_KEY@) && single_entry(
            e@[5].1,
            OPEN_MODE_EXCLUSIONS_KEY@,
            |x: YamlValue| x matches YamlValue::Array(a) && a@.len() == 1 && text_is(a@[0], "**/.git"@),
        )
        && text_is(e@[6].0, SEARCH_SELECT_KEY@) && single_entry(
            e@[6].1,
            "max_results"@,
            |x: YamlValue| x == YamlValue::Integer(5),
        )
        && text_is(e@[7].0, TYPES_KEY@) && single_entry(
            e@[7].1,
            "rs"@,
            |x: YamlValue| single_entry(x, LINE_COMMENT_PREFIX_KEY@, |y: YamlValue| text_is(y, "//"@)),
        )
}

/// The text `s` as a YAML string.
fn text(s: &str) -> (v: YamlValue)
    ensures
        text_is(v, s@),
{
    YamlValue::String(String::from_str(s))
}

/// The preferences built into the editor (see `built_in_defaults`).
pub fn default_document() -> (d: YamlValue)
    ensures
        built_in_defaults(d),
{
    let exclusions = YamlValue::Hash(vec![(text(OPEN_MODE_EXCLUSIONS_KEY), YamlValue::Array(vec![text("**/.git")]))]);
    let search_select = YamlValue::Hash(vec![(text("max_results"), YamlValue::Integer(5))]);
    let rust = YamlValue::Hash(vec![(text(LINE_COMMENT_PREFIX_KEY), text("//"))]);
    let types = YamlValue::Hash(vec![(text("rs"), rust)]);
    YamlValue::Hash(
        vec![
            (text(THEME_KEY), text("solarized_dark")),
            (text(TAB_WIDTH_KEY), YamlValue::Integer(2)),
            (text(SOFT_TABS_KEY), YamlValue::Boolean(true)),
            (text(LINE_LENGTH_GUIDE_KEY), YamlValue::Integer(80)),
            (text(LINE_WRAPPING_KEY), YamlValue::Boolean(true)),
            (text(OPEN_MODE_KEY), exclusions),
            (text(SEARCH_SELECT_KEY), search_select),
            (text(TYPES_KEY), types),
        ],
    )
}

/// Loads and provides application preferences: a user document, in-memory
/// overrides (from the command line) and a document of defaults.
pub struct Preferences {
    data: YamlValue,
    defaults: YamlValue,
    overrides: Vec<(String, String)>,
}

impl Preferences {
    /// The user's document.
    pub closed spec fn data_view(&self) -> YamlValue {
        self.data
    }

    /// The defaults.
    pub closed spec fn defaults_view(&self) -> YamlValue {
        self.defaults
    }

    /// The in-memory overrides, by key.
    pub closed spec fn overrides_view(&self) -> Seq<(String, String)> {
        self.overrides@
    }

    /// The preference for `key` for a file of type `ext` named `name`.
    pub open spec fn setting(&self, key: Seq<char>, ext: Option<Seq<char>>, name: Option<Seq<char>>) -> Setting {
        preference(self.overrides_view(), self.data_view(), self.defaults_view(), key, ext, name)
    }

    /// Preferences from the user's document (an empty mapping when there is none)
    /// over the built-in defaults, without overrides.
    pub fn new(data: Option<YamlValue>) -> (p: Preferences)
        ensures
            data matches Some(d) ==> p.data_view() == d,
            data is None ==> (p.data_view() matches YamlValue::Hash(e) && e@.len() == 0),
            built_in_defaults(p.defaults_view()),
            p.overrides_view() == Seq::<(String, String)>::empty(),
    {
        Self::with_defaults(data, default_document())
    }

    /// Preferences from the user's document (an empty mapping when there is none)
    /// over `defaults`, without overrides.
    pub fn with_defaults(data: Option<YamlValue>, defaults: YamlValue) -> (p: Preferences)
        ensures
            data matches Some(d) ==> p.data_view() == d,
            data is None ==> (p.data_view() matches YamlValue::Hash(e) && e@.len() == 0),
            p.defaults_view() == defaults,
            p.overrides_view() == Seq::<(String, String)>::empty(),
    {
        let data = match data {
            Some(d) => d,
            None => YamlValue::Hash(Vec::new()),
        };
        Preferences { data, defaults, overrides: Vec::new() }
    }

    /// Preferences with in-memory overrides (key and value), which take
    /// precedence over the user's document and the built-in defaults.
    pub fn with_overrides(data: YamlValue, overrides: Vec<(String, String)>) -> (p: Preferences)
        ensures
            p.data_view() == data,
            built_in_defaults(p.defaults_view()),
            p.overrides_view() == overrides@,
    {
        Preferences { data, defaults: default_document(), overrides }
    }

    /// Replaces the user's document with `data`, as read again from disk: any
    /// in-memory change to it is dropped; the defaults and overrides stay.
    pub fn reload(&mut self, data: YamlValue)
        ensures
            final(self).data_view() == data,
            final(self).defaults_view() == old(self).defaults_view(),
            final(self).overrides_view() == old(self).overrides_view(),
    {
        self.data = data;
    }

    /// Locates the value for a given key. Searches, in this order: the
    /// overrides, file name specific settings (skipped if given as None), file
    /// extension specific settings (skipped if given as None), global options,
    /// and the defaults in the same order.
    pub fn value(&self, key: &str, ext: Option<&str>, name: Option<&str>) -> (r: SettingValue)
        ensures
            r@ == self.setting(key@, text_of(ext), text_of(name)),
    {
        let mut i: usize = 0;
        let k = chars_of(key);
        assert(self.overrides@.subrange(0, self.overrides@.len() as int) =~= self.overrides@);
        while i < self.overrides.len()
            invariant
                0 <= i <= self.overrides@.len(),
                k@ == key@,
                override_of(self.overrides@, key@) == override_of(self.overrides@.subrange(i as int, self.overrides@.len() as int), key@),
            decreases self.overrides@.len() - i,
        {
            let ghost rest = self.overrides@.subrange(i as int, self.overrides@.len() as int);
            assert(rest.drop_first() =~= self.overrides@.subrange(i + 1, self.overrides@.len() as int));
            if same_text(&self.overrides[i].0, &k) {
                return SettingValue::Text(self.overrides[i].1.clone());
            }
            i = i + 1;
        }
        let found = find(&self.data, key, ext, name);
        if is_absent(found) {
            setting_from(find(&self.defaults, key, ext, name))
        } else {
            setting_from(found)
        }
    }

    /// The theme's name.
    pub fn theme(&self) -> (t: String)
        requires
            self.setting(THEME_KEY@, None, None) is Text,
        ensures
            self.setting(THEME_KEY@, None, None) == Setting::Text(t@),
    {
        match self.value(THEME_KEY, None, None) {
            SettingValue::Text(t) => t,
            _ => {
                assert(false);
                String::new()
            },
        }
    }

    /// Sets the theme in the user's document (in memory only).
    pub fn set_theme(&mut self, theme: String)
        requires
            old(self).data_view() is Hash,
        ensures
            final(self).data_view() matches YamlValue::Hash(after) && old(self).data_view() matches YamlValue::Hash(
                before,
            ) && entry_set(before@, after@, THEME_KEY@, YamlValue::String(theme)),
            final(self).defaults_view() == old(self).defaults_view(),
            final(self).overrides_view() == old(self).overrides_view(),
    {
        let mut data = YamlValue::Null;
        std::mem::swap(&mut self.data, &mut data);
        match data {
            YamlValue::Hash(entries) => {
                let mut entries = entries;
                set_entry(&mut entries, THEME_KEY, YamlValue::String(theme));
                self.data = YamlValue::Hash(entries);
            },
            other => {
                self.data = other;
            },
        }
    }

    /// The width of a tab for a file at `path` (by its type, or the whole path).
    pub fn tab_width(&self, path: Option<&str>) -> (w: usize)
        requires
            valid_width(self.setting(TAB_WIDTH_KEY@, file_type(text_of(path)), text_of(path))),
        ensures
            w == width_of(self.setting(TAB_WIDTH_KEY@, file_type(text_of(path)), text_of(path))),
    {
        let ext = type_of_path(path);
        let v = self.value(TAB_WIDTH_KEY, as_str(&ext), path);
        match v {
            SettingValue::Text(s) => match parse_usize(&chars_of(s.as_str())) {
                Some(w) => w,
                None => {
                    assert(false);
                    0
                },
            },
            SettingValue::Integer(i) => i as usize,
            _ => {
                assert(false);
                0
            },
        }
    }

    /// The settings for search/select modes: the user's `search_select.max_results`
    /// when it is an integer.
    pub fn search_select_config(&self) -> (c: SearchSelectConfig)
        ensures
            c.max_results == (match yaml_get(yaml_get(self.data_view(), SEARCH_SELECT_KEY@), "max_results"@) {
                YamlValue::Integer(n) => n as usize,
                _ => DEFAULT_MAX_RESULTS,
            }),
    {
        let mut result = SearchSelectConfig::default();
        match get(&self.data, SEARCH_SELECT_KEY) {
            Some(section) => match get(section, "max_results") {
                Some(YamlValue::Integer(n)) => {
                    result.max_results = *n as usize;
                },
                _ => {},
            },
            None => {},
        }
        result
    }

    /// Whether indentation uses spaces for a file at `path`.
    pub fn soft_tabs(&self, path: Option<&str>) -> (b: bool)
        requires
            valid_flag(self.setting(SOFT_TABS_KEY@, file_type(text_of(path)), text_of(path))),
        ensures
            b == flag_of(self.setting(SOFT_TABS_KEY@, file_type(text_of(path)), text_of(path))),
            self.setting(SOFT_TABS_KEY@, file_type(text_of(path)), text_of(path)) matches Setting::Text(t) ==> b == (t
                == "true"@),
            self.setting(SOFT_TABS_KEY@, file_type(text_of(path)), text_of(path)) matches Setting::Flag(f) ==> b == f,
    {
        let ext = type_of_path(path);
        match self.value(SOFT_TABS_KEY, as_str(&ext), path) {
            SettingValue::Flag(b) => b,
            SettingValue::Text(s) => same_text(&s, &chars_of("true")),
            _ => {
                assert(false);
                false
            },
        }
    }

    /// The column of the line length guide for a file at `path`: a number, or
    /// `true` for the default column; `None` when disabled.
    pub fn line_length_guide(&self, path: Option<&str>) -> (g: Option<usize>)
        requires
            self.setting(LINE_LENGTH_GUIDE_KEY@, file_type(text_of(path)), text_of(path)) == Setting::Flag(true)
                ==> yaml_get(self.defaults_view(), LINE_LENGTH_GUIDE_KEY@) is Integer,
        ensures
            g == guide_of(
                self.setting(LINE_LENGTH_GUIDE_KEY@, file_type(text_of(path)), text_of(path)),
                yaml_get(self.defaults_view(), LINE_LENGTH_GUIDE_KEY@),
            ),
    {
        let ext = type_of_path(path);
        match self.value(LINE_LENGTH_GUIDE_KEY, as_str(&ext), path) {
            SettingValue::Integer(x) => Some(x as usize),
            SettingValue::Text(x) => parse_usize(&chars_of(x.as_str())),
            SettingValue::Flag(true) => match get(&self.defaults, LINE_LENGTH_GUIDE_KEY) {
                Some(YamlValue::Integer(x)) => Some(*x as usize),
                _ => {
                    assert(false);
                    None
                },
            },
            _ => None,
        }
    }

    /// Whether long lines are wrapped.
    pub fn line_wrapping(&self) -> (b: bool)
        requires
            self.setting(LINE_WRAPPING_KEY@, None, None) is Flag,
        ensures
            self.setting(LINE_WRAPPING_KEY@, None, None) == Setting::Flag(b),
    {
        match self.value(LINE_WRAPPING_KEY, None, None) {
            SettingValue::Flag(b) => b,
            _ => {
                assert(false);
                false
            },
        }
    }

    /// What a tab inserts in a file at `path`: as many spaces as the tab width with
    /// soft tabs, else a tab character.
    pub fn tab_content(&self, path: Option<&str>) -> (t: String)
        requires
            valid_flag(self.setting(SOFT_TABS_KEY@, file_type(text_of(path)), text_of(path))),
            flag_of(self.setting(SOFT_TABS_KEY@, file_type(text_of(path)), text_of(path))) ==> valid_width(
                self.setting(TAB_WIDTH_KEY@, file_type(text_of(path)), text_of(path)),
            ),
        ensures
            flag_of(self.setting(SOFT_TABS_KEY@, file_type(text_of(path)), text_of(path))) ==> t@
                == Seq::new(
                width_of(self.setting(TAB_WIDTH_KEY@, file_type(text_of(path)), text_of(path))) as nat,
                |i: int| ' ',
            ),
            !flag_of(self.setting(SOFT_TABS_KEY@, file_type(text_of(path)), text_of(path))) ==> t@
                == seq!['\t'],
    {
        if self.soft_tabs(path) {
            let width = self.tab_width(path);
            let mut spaces: Vec<char> = Vec::new();
            let mut i: usize = 0;
            while i < width
                invariant
                    0 <= i <= width,
                    spaces@ == Seq::new(i as nat, |j: int| ' '),
                decreases width - i,
            {
                spaces.push(' ');
                i = i + 1;
                assert(spaces@ =~= Seq::new(i as nat, |j: int| ' '));
            }
            string_from_chars(&spaces)
        } else {
            let tab = vec!['\t'];
            string_from_chars(&tab)
        }
    }

    /// The prefix of line comments for a file at `path` (by its extension, or its
    /// file name).
    pub fn line_comment_prefix(&self, path: &str) -> (p: Option<String>)
        ensures
            p matches Some(t) ==> self.setting(LINE_COMMENT_PREFIX_KEY@, path_extension(path@), path_file_name(path@))
                == Setting::Text(t@),
            p is None ==> !(self.setting(LINE_COMMENT_PREFIX_KEY@, path_extension(path@), path_file_name(path@)) is Text),
    {
        let ext = extension_of(path);
        let name = file_name_of(path);
        match self.value(LINE_COMMENT_PREFIX_KEY, as_str(&ext), as_str(&name)) {
            SettingValue::Text(t) => Some(t),
            _ => None,
        }
    }

    /// The name of the syntax definition chosen for a file at `path` (by its
    /// extension, or its file name).
    pub fn syntax_definition_name(&self, path: &str) -> (p: Option<String>)
        ensures
            p matches Some(t) ==> self.setting(TYPES_SYNTAX_KEY@, path_extension(path@), path_file_name(path@))
                == Setting::Text(t@),
            p is None ==> !(self.setting(TYPES_SYNTAX_KEY@, path_extension(path@), path_file_name(path@)) is Text),
    {
        let ext = extension_of(path);
        let name = file_name_of(path);
        match self.value(TYPES_SYNTAX_KEY, as_str(&ext), as_str(&name)) {
            SettingValue::Text(t) => Some(t),
            _ => None,
        }
    }
}

/// The text of an optional string, borrowed.
fn as_str(s: &Option<String>) -> (r: Option<&str>)
    ensures
        text_of(r) == match s {
            Some(t) => Some(t@),
            None => None,
        },
{
    match s {
        Some(t) => Some(t.as_str()),
        None => None,
    }
}

/// Whether a setting gives a tab width: an integer, or text holding a number.
pub open spec fn valid_width(s: Setting) -> bool {
    match s {
        Setting::Integer(_) => true,
        Setting::Text(t) => spec_parse_usize(t) is Some,
        _ => false,
    }
}

/// The tab width a setting gives.
pub open spec fn width_of(s: Setting) -> usize {
    match s {
        Setting::Integer(i) => i as usize,
        Setting::Text(t) => spec_parse_usize(t)->0,
        _ => 0,
    }
}

/// Whether a setting gives a flag: a boolean, or text.
pub open spec fn valid_flag(s: Setting) -> bool {
    s is Flag || s is Text
}

/// The flag a setting gives: a boolean, or whether text is `true`.
pub open spec fn flag_of(s: Setting) -> bool {
    match s {
        Setting::Flag(b) => b,
        Setting::Text(t) => t == "true"@,
        _ => false,
    }
}

/// The line length guide a setting gives: a number, `true` for the default's
/// number, or `None`.
pub open spec fn guide_of(s: Setting, default: YamlValue) -> Option<usize> {
    match s {
        Setting::Integer(x) => Some(x as usize),
        Setting::Text(x) => spec_parse_usize(x),
        Setting::Flag(true) => match default {
            YamlValue::Integer(x) => Some(x as usize),
            _ => None,
        },
        _ => None,
    }
}

/// `after` is `before` with `key` set to `value`, as a linked hash map stores it:
/// an existing entry for the key is moved to the end with the new value, or else a
/// new entry is appended.
pub open spec fn entry_set(
    before: Seq<(YamlValue, YamlValue)>,
    after: Seq<(YamlValue, YamlValue)>,
    key: Seq<char>,
    value: YamlValue,
) -> bool {
    match entry_position(before, key, 0) {
        Some(i) => after == before.remove(i).push((before[i].0, value)),
        None => {
            &&& after.len() == before.len() + 1
            &&& after.subrange(0, before.len() as int) == before
            &&& after.last().0 matches YamlValue::String(k) && k@ == key
            &&& after.last().1 == value
        },
    }
}

/// Sets `key` to `value` in a mapping's entries (see `entry_set`).
fn set_entry(entries: &mut Vec<(YamlValue, YamlValue)>, key: &str, value: YamlValue)
    ensures
        entry_set(old(entries)@, final(entries)@, key@, value),
{
    let k = chars_of(key);
    let mut i: usize = 0;
    while i < entries.len()
        invariant
            0 <= i <= entries@.len(),
            entries@ == old(entries)@,
            k@ == key@,
            entry_position(entries@, key@, 0) == entry_position(entries@, key@, i as int),
        decreases entries@.len() - i,
    {
        let matched = match &entries[i].0 {
            YamlValue::String(s) => same_text(s, &k),
            _ => false,
        };
        if matched {
            let (existing, _) = entries.remove(i);
            entries.push((existing, value));
            return;
        }
        i = i + 1;
    }
    entries.push((YamlValue::String(String::from_str(key)), value));
    assert(entries@.subrange(0, old(entries)@.len() as int) =~= old(entries)@);
}

/// Why the open mode exclusions could not be had.
#[derive(Clone, Debug, PartialEq)]
pub enum PreferencesError {
    /// The user's exclusions were refused.
    UserExclusions(ExclusionError),
    /// The default exclusions are not a list.
    MissingDefaultExclusions,
    /// The default exclusions were refused.
    DefaultExclusions(ExclusionError),
    /// The preference file is not valid YAML.
    Unparseable,
}

/// What `Preferences::open_mode_exclusions` gives: `Some(n)` for `n` patterns,
/// `None` for none, or the reason for refusal.
pub enum ExclusionsOutcome {
    Patterns(nat),
    Disabled,
    UserProblem(Option<Seq<char>>),
    DefaultsMissing,
    DefaultsProblem(Option<Seq<char>>),
}

/// The exclusions of the user's document: a list of patterns, `false` (or any
/// flag) to disable them, or else the defaults' list.
pub open spec fn exclusions_outcome(data: YamlValue, defaults: YamlValue) -> ExclusionsOutcome {
    let user = yaml_get(yaml_get(data, OPEN_MODE_KEY@), OPEN_MODE_EXCLUSIONS_KEY@);
    match user {
        YamlValue::Array(list) => match exclusion_problem(list@) {
            None => ExclusionsOutcome::Patterns(list@.len()),
            Some(p) => ExclusionsOutcome::UserProblem(p),
        },
        YamlValue::Boolean(_) => ExclusionsOutcome::Disabled,
        _ => match yaml_get(yaml_get(defaults, OPEN_MODE_KEY@), OPEN_MODE_EXCLUSIONS_KEY@) {
            YamlValue::Array(list) => match exclusion_problem(list@) {
                None => ExclusionsOutcome::Patterns(list@.len()),
                Some(p) => ExclusionsOutcome::DefaultsProblem(p),
            },
            _ => ExclusionsOutcome::DefaultsMissing,
        },
    }
}

/// Whether a refusal reason matches a problem found in a list of exclusions.
pub open spec fn reports(e: ExclusionError, p: Option<Seq<char>>) -> bool {
    match p {
        None => e == ExclusionError::NotAString,
        Some(q) => e matches ExclusionError::InvalidPattern(s) && s@ == q,
    }
}

impl Preferences {
    /// The patterns of paths that open mode leaves out of its index (see
    /// `exclusions_outcome`).
    pub fn open_mode_exclusions(&self) -> (r: Result<Option<Vec<bloodhound::ExclusionPattern>>, PreferencesError>)
        ensures
            match exclusions_outcome(self.data_view(), self.defaults_view()) {
                ExclusionsOutcome::Patterns(n) => r matches Ok(Some(v)) && v@.len() == n,
                ExclusionsOutcome::Disabled => r matches Ok(None),
                ExclusionsOutcome::UserProblem(p) => r matches Err(PreferencesError::UserExclusions(e))
                    && reports(e, p),
                ExclusionsOutcome::DefaultsMissing => r matches Err(PreferencesError::MissingDefaultExclusions),
                ExclusionsOutcome::DefaultsProblem(p) => r matches Err(PreferencesError::DefaultExclusions(e))
                    && reports(e, p),
            },
    {
        let user = match get(&self.data, OPEN_MODE_KEY) {
            Some(section) => get(section, OPEN_MODE_EXCLUSIONS_KEY),
            None => None,
        };
        match user {
            Some(YamlValue::Array(list)) => match parse(list) {
                Ok(v) => Ok(Some(v)),
                Err(e) => Err(PreferencesError::UserExclusions(e)),
            },
            Some(YamlValue::Boolean(_)) => Ok(None),
            _ => self.default_open_mode_exclusions(),
        }
    }

    fn default_open_mode_exclusions(&self) -> (r: Result<Option<Vec<bloodhound::ExclusionPattern>>, PreferencesError>)
        ensures
            match yaml_get(yaml_get(self.defaults_view(), OPEN_MODE_KEY@), OPEN_MODE_EXCLUSIONS_KEY@) {
                YamlValue::Array(list) => match exclusion_problem(list@) {
                    None => r matches Ok(Some(v)) && v@.len() == list@.len(),
                    Some(p) => r matches Err(PreferencesError::DefaultExclusions(e)) && reports(e, p),
                },
                _ => r matches Err(PreferencesError::MissingDefaultExclusions),
            },
    {
        let defaults = match get(&self.defaults, OPEN_MODE_KEY) {
            Some(section) => get(section, OPEN_MODE_EXCLUSIONS_KEY),
            None => None,
        };
        match defaults {
            Some(YamlValue::Array(list)) => match parse(list) {
                Ok(v) => Ok(Some(v)),
                Err(e) => Err(PreferencesError::DefaultExclusions(e)),
            },
            _ => Err(PreferencesError::MissingDefaultExclusions),
        }
    }
}

/// Whether a mapping key is the string `key`.
pub open spec fn key_is(k: YamlValue, key: Seq<char>) -> bool {
    k matches YamlValue::String(s) && s@ == key
}

/// Whether at most one entry has the string key `key`.
pub open spec fn unique_key(entries: Seq<(YamlValue, YamlValue)>, key: Seq<char>) -> bool {
    forall|i: int, j: int|
        0 <= i < j < entries.len() && key_is(#[trigger] entries[i].0, key) ==> !key_is(
            #[trigger] entries[j].0,
            key,
        )
}

pub proof fn lemma_entry_position(entries: Seq<(YamlValue, YamlValue)>, key: Seq<char>, i: int)
    requires
        0 <= i,
    ensures
        match entry_position(entries, key, i) {
            Some(p) => i <= p < entries.len() && key_is(entries[p].0, key) && forall|m: int|
                i <= m < p ==> !key_is(#[trigger] entries[m].0, key),
            None => forall|m: int| i <= m < entries.len() ==> !key_is(#[trigger] entries[m].0, key),
        },
    decreases entries.len() - i,
{
    if i < entries.len() && !key_is(entries[i].0, key) {
        lemma_entry_position(entries, key, i + 1);
    }
}

/// Setting a key that occurs at most once makes it occur once, in the last entry,
/// with the new value: looking it up gives the value that was set.
pub proof fn law_set_entry_reads_back(
    before: Seq<(YamlValue, YamlValue)>,
    after: Seq<(YamlValue, YamlValue)>,
    key: Seq<char>,
    value: YamlValue,
)
    requires
        entry_set(before, after, key, value),
        unique_key(before, key),
    ensures
        after.len() > 0,
        entry_position(after, key, 0) == Some(after.len() - 1),
        after.last().1 == value,
        unique_key(after, key),
{
    lemma_entry_position(before, key, 0);
    let n = after.len() - 1;
    match entry_position(before, key, 0) {
        Some(p) => {
            assert forall|m: int| 0 <= m < n implies !key_is(#[trigger] after[m].0, key) by {
                if m < p {
                    assert(after[m] == before[m]);
                } else {
                    assert(after[m] == before[m + 1]);
                    assert(key_is(before[p].0, key));
                }
            }
            assert(key_is(after[n].0, key));
        },
        None => {
            assert forall|m: int| 0 <= m < n implies !key_is(#[trigger] after[m].0, key) by {
                assert(after[m] == after.subrange(0, before.len() as int)[m]);
            }
        },
    }
    lemma_entry_position(after, key, 0);
}

/// In-memory overrides take precedence over both documents.
pub proof fn law_overrides_take_precedence(
    overrides: Seq<(String, String)>,
    data: YamlValue,
    defaults: YamlValue,
    key: Seq<char>,
    ext: Option<Seq<char>>,
    name: Option<Seq<char>>,
)
    requires
        override_of(overrides, key) is Some,
    ensures
        preference(overrides, data, defaults, key, ext, name) == Setting::Text(
            override_of(overrides, key)->0,
        ),
{
}

/// Without an override, a preference is the first value present among: the
/// user's value for the file name, for the file extension, the user's general
/// value, and then the defaults' values in the same order.
pub proof fn law_lookup_precedence(
    overrides: Seq<(String, String)>,
    data: YamlValue,
    defaults: YamlValue,
    key: Seq<char>,
    ext: Option<Seq<char>>,
    name: Option<Seq<char>>,
)
    requires
        override_of(overrides, key) is None,
    ensures
        ({
            let by_name = |doc: YamlValue| match name {
                Some(n) => yaml_get(yaml_get(yaml_get(doc, "types"@), n), key),
                None => YamlValue::Null,
            };
            let by_ext = |doc: YamlValue| match ext {
                Some(e) => yaml_get(yaml_get(yaml_get(doc, "types"@), e), key),
                None => YamlValue::Null,
            };
            let chosen = if !absent(by_name(data)) {
                by_name(data)
            } else if !absent(by_ext(data)) {
                by_ext(data)
            } else if !absent(yaml_get(data, key)) {
                yaml_get(data, key)
            } else if !absent(by_name(defaults)) {
                by_name(defaults)
            } else if !absent(by_ext(defaults)) {
                by_ext(defaults)
            } else {
                yaml_get(defaults, key)
            };
            preference(overrides, data, defaults, key, ext, name) == setting_of(chosen)
        }),
{
}

proof fn lemma_entry_at(entries: Seq<(YamlValue, YamlValue)>, key: Seq<char>, j: int, i: int)
    requires
        0 <= j <= i < entries.len(),
        text_is(entries[i].0, key),
        forall|k: int| j <= k < i ==> !text_is(#[trigger] entries[k].0, key),
    ensures
        entry_position(entries, key, j) == Some(i),
    decreases i - j,
{
    if j < i {
        assert(!text_is(entries[j].0, key));
        lemma_entry_at(entries, key, j + 1, i);
    }
}

/// Without user data or overrides, the built-in defaults apply: the theme
/// `solarized_dark`, a tab width of 2, soft tabs, and line wrapping.
pub proof fn law_built_in_defaults_apply(overrides: Seq<(String, String)>, data: YamlValue, defaults: YamlValue)
    requires
        overrides.len() == 0,
        data matches YamlValue::Hash(e) && e@.len() == 0,
        built_in_defaults(defaults),
    ensures
        preference(overrides, data, defaults, THEME_KEY@, None, None) == Setting::Text("solarized_dark"@),
        preference(overrides, data, defaults, TAB_WIDTH_KEY@, None, None) == Setting::Integer(2),
        preference(overrides, data, defaults, SOFT_TABS_KEY@, None, None) == Setting::Flag(true),
        preference(overrides, data, defaults, LINE_WRAPPING_KEY@, None, None) == Setting::Flag(true),
{
    reveal_strlit("theme");
    reveal_strlit("tab_width");
    reveal_strlit("soft_tabs");
    reveal_strlit("line_length_guide");
    reveal_strlit("line_wrapping");
    assert(THEME_KEY@ == "theme"@);
    assert(TAB_WIDTH_KEY@ == "tab_width"@);
    assert(SOFT_TABS_KEY@ == "soft_tabs"@);
    assert(LINE_LENGTH_GUIDE_KEY@ == "line_length_guide"@);
    assert(LINE_WRAPPING_KEY@ == "line_wrapping"@);
    assert(THEME_KEY@.len() == 5);
    assert(TAB_WIDTH_KEY@.len() == 9);
    assert(SOFT_TABS_KEY@[0] == 's');
    assert(TAB_WIDTH_KEY@[0] == 't' && TAB_WIDTH_KEY@[1] == 'a');
    assert(THEME_KEY@[1] == 'h');
    assert(LINE_LENGTH_GUIDE_KEY@[5] == 'l' && LINE_WRAPPING_KEY@[5] == 'w');
    let e = defaults->Hash_0@;
    let d = data->Hash_0@;
    assert(entry_position(d, THEME_KEY@, 0) is None);
    assert(entry_position(d, TAB_WIDTH_KEY@, 0) is None);
    assert(entry_position(d, SOFT_TABS_KEY@, 0) is None);
    assert(entry_position(d, LINE_WRAPPING_KEY@, 0) is None);
    assert(THEME_KEY@ != TAB_WIDTH_KEY@);
    assert(THEME_KEY@ != SOFT_TABS_KEY@);
    assert(TAB_WIDTH_KEY@ != SOFT_TABS_KEY@);
    assert(THEME_KEY@ != LINE_WRAPPING_KEY@);
    assert(TAB_WIDTH_KEY@ != LINE_WRAPPING_KEY@);
    assert(SOFT_TABS_KEY@ != LINE_WRAPPING_KEY@);
    assert(LINE_LENGTH_GUIDE_KEY@ != LINE_WRAPPING_KEY@);
    lemma_entry_at(e, THEME_KEY@, 0, 0);
    lemma_entry_at(e, TAB_WIDTH_KEY@, 0, 1);
    lemma_entry_at(e, SOFT_TABS_KEY@, 0, 2);
    lemma_entry_at(e, LINE_WRAPPING_KEY@, 0, 4);
}

/// Soft tabs are on for a boolean setting that is true, and for a text setting
/// exactly when the text is `true`; an override of the setting decides it the
/// same way, whatever the documents say.
pub proof fn law_soft_tabs_from_text_only_when_true(
    overrides: Seq<(String, String)>,
    data: YamlValue,
    defaults: YamlValue,
    ext: Option<Seq<char>>,
    name: Option<Seq<char>>,
)
    ensures
        ({
            let s = preference(overrides, data, defaults, SOFT_TABS_KEY@, ext, name);
            &&& s matches Setting::Text(t) ==> valid_flag(s) && (flag_of(s) <==> t == "true"@)
            &&& s matches Setting::Flag(f) ==> valid_flag(s) && flag_of(s) == f
            &&& override_of(overrides, SOFT_TABS_KEY@) matches Some(t) ==> valid_flag(s) && (flag_of(s) <==> t
                == "true"@)
        }),
{
}

} // verus!
