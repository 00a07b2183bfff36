//! EditorConfig files: sections selected by globs, and the properties they set.
//!
//! A file is read line by line. Blank lines and comments are skipped, a
//! `[glob]` line opens a section, and a `key = value` line sets a property of
//! the open section. Sections are kept latest first, so that the last section
//! that matches a file name is the one consulted for it.

use vstd::prelude::*;
use crate::glob::{glob_conversion, checked_glob_to_regex};
use crate::number::{parse_usize, spec_parse_usize};
use crate::text::{chars_of, string_from_chars, string_views, trim, trimmed};

verus! {

#[derive(Clone, Copy, Debug, PartialEq, Eq, Structural)]
pub enum IndentStyle {
    Tab,
    Space,
}

#[derive(Clone, Copy, Debug, PartialEq, Eq, Structural)]
pub enum IndentSize {
    Tab,
    Width(usize),
}

#[derive(Clone, Copy, Debug, PartialEq, Eq, Structural)]
pub enum EndOfLine {
    Lf,
    Cr,
    Crlf,
}

#[derive(Clone, Copy, Debug, PartialEq, Eq, Structural)]
pub enum Charset {
    Latin1,
    Utf8,
    Utf8Bom,
    Utf16Be,
    Utf16Le,
}

/// Why an EditorConfig file was refused.
#[derive(Clone, Copy, Debug, PartialEq, Eq, Structural)]
pub enum EditorConfigError {
    /// The line with this number (counting the lines that are neither blank nor
    /// comments, from 1) is neither a section header nor a property.
    ParseFailure(usize),
}

/// The pattern of a section header line, `[glob]`.
pub const SECTION_HEADER_PATTERN: &'static str = r"^\[(.*)\]";

/// The pattern of a property line, `key = value`.
pub const KEY_VALUE_PATTERN: &'static str = r"^(\w+)\s?=\s?([-\w\d]+)";

// ---------------------------------------------------------------------------
// Regular expressions
// ---------------------------------------------------------------------------

/// The position of the first line feed in `t[i..]`, or `t.len()`.
pub open spec fn first_newline(t: Seq<char>, i: int) -> int
    decreases t.len() - i,
{
    if i >= t.len() {
        t.len() as int
    } else if t[i] == '\n' {
        i
    } else {
        first_newline(t, i + 1)
    }
}

/// The largest `k` with `1 <= k < m` and `t[k] == ']'`, or 0 when there is none.
pub open spec fn last_close_before(t: Seq<char>, m: int) -> int
    decreases m,
{
    if m <= 1 {
        0
    } else if t[m - 1] == ']' {
        m - 1
    } else {
        last_close_before(t, m - 1)
    }
}

/// What the section header pattern `^\[(.*)\]` captures in `t`: the text between
/// the opening `[` and the last `]` before the first line feed.
pub open spec fn section_header(t: Seq<char>) -> Option<Seq<char>> {
    if t.len() > 0 && t[0] == '[' {
        let k = last_close_before(t, first_newline(t, 0));
        if k >= 1 {
            Some(t.subrange(1, k))
        } else {
            None
        }
    } else {
        None
    }
}

pub proof fn lemma_section_header_bounds(t: Seq<char>, i: int, m: int)
    requires
        0 <= i <= t.len(),
        m <= t.len(),
    ensures
        i <= first_newline(t, i) <= t.len(),
        0 <= last_close_before(t, m),
        m >= 1 ==> last_close_before(t, m) < m,
    decreases t.len() - i + if m > 0 { m } else { 0 },
{
    if i < t.len() && t[i] != '\n' {
        lemma_section_header_bounds(t, i + 1, m);
    }
    if m > 1 && t[m - 1] != ']' {
        lemma_section_header_bounds(t, i, m - 1);
    }
}

/// Calls `regex::Regex::captures` with the section header pattern and hands out the
/// glob it captures. The contract states what the pattern matches, as the
/// `regex` documentation describes it: `.` matches anything but a line feed and
/// `*` is greedy.
#[verifier::external_body]
fn section_header_capture(line: &str) -> (r: Option<String>)
    ensures
        r is None <==> section_header(line@) is None,
        r matches Some(g) ==> section_header(line@) == Some(g@),
{
    match regex::Regex::new(SECTION_HEADER_PATTERN) {
        Ok(re) => re.captures(line).map(|c| c[1].to_string()),
        Err(_) => None,
    }
}

/// The key and the value that the property pattern `^(\w+)\s?=\s?([-\w\d]+)`
/// captures in a line, if it matches.
pub uninterp spec fn key_value_pair(line: Seq<char>) -> Option<(Seq<char>, Seq<char>)>;

/// Calls `regex::Regex::captures` with the property pattern and hands out its two
/// groups; the contract names the result.
#[verifier::external_body]
fn key_value_capture(line: &str) -> (r: Option<(String, String)>)
    ensures
        r is None <==> key_value_pair(line@) is None,
        r matches Some((k, v)) ==> key_value_pair(line@) == Some((k@, v@)),
{
    match regex::Regex::new(KEY_VALUE_PATTERN) {
        Ok(re) => re.captures(line).map(|c| (c[1].to_string(), c[2].to_string())),
        Err(_) => None,
    }
}

/// Whether `regex::Regex::new` accepts a pattern.
pub uninterp spec fn regex_accepts(pattern: Seq<char>) -> bool;

/// Whether the regex compiled from `pattern` matches somewhere in `text`.
pub uninterp spec fn regex_matches(pattern: Seq<char>, text: Seq<char>) -> bool;

/// Calls `regex::Regex::new` and tells whether it accepted the pattern.
#[verifier::external_body]
fn regex_compiles(pattern: &str) -> (b: bool)
    ensures
        b == regex_accepts(pattern@),
{
    regex::Regex::new(pattern).is_ok()
}

/// Compiles `pattern` with `regex::Regex::new` and calls `is_match` on `text`.
#[verifier::external_body]
fn regex_is_match(pattern: &str, text: &str) -> (b: bool)
    requires
        regex_accepts(pattern@),
    ensures
        b == regex_matches(pattern@, text@),
{
    match regex::Regex::new(pattern) {
        Ok(re) => re.is_match(text),
        Err(_) => false,
    }
}

// ---------------------------------------------------------------------------
// Sections and their properties
// ---------------------------------------------------------------------------

/// A section: the regex that selects file names, and the properties set for them.
#[derive(Clone, Debug)]
pub struct Section {
    /// The source of the regex that selects the section's file names.
    pub regex: String,
    pub indent_style: Option<IndentStyle>,
    pub indent_size: Option<IndentSize>,
    pub tab_width: Option<usize>,
    pub end_of_line: Option<EndOfLine>,
    pub charset: Option<Charset>,
    pub trim_trailing_whitespace: Option<bool>,
    pub insert_final_newline: Option<bool>,
}

/// The value of a section.
pub struct SectionView {
    pub regex: Seq<char>,
    pub indent_style: Option<IndentStyle>,
    pub indent_size: Option<IndentSize>,
    pub tab_width: Option<usize>,
    pub end_of_line: Option<EndOfLine>,
    pub charset: Option<Charset>,
    pub trim_trailing_whitespace: Option<bool>,
    pub insert_final_newline: Option<bool>,
}

impl View for Section {
    type V = SectionView;

    open spec fn view(&self) -> SectionView {
        SectionView {
            regex: self.regex@,
            indent_style: self.indent_style,
            indent_size: self.indent_size,
            tab_width: self.tab_width,
            end_of_line: self.end_of_line,
            charset: self.charset,
            trim_trailing_whitespace: self.trim_trailing_whitespace,
            insert_final_newline: self.insert_final_newline,
        }
    }
}

/// The values of a sequence of sections.
pub open spec fn section_views(v: Seq<Section>) -> Seq<SectionView> {
    v.map_values(|s: Section| s@)
}

/// A section without properties.
pub open spec fn new_section(regex: Seq<char>) -> SectionView {
    SectionView {
        regex,
        indent_style: None,
        indent_size: None,
        tab_width: None,
        end_of_line: None,
        charset: None,
        trim_trailing_whitespace: None,
        insert_final_newline: None,
    }
}

/// The code point of `c` in lower case, for ASCII letters (as `char::to_ascii_lowercase`).
pub open spec fn ascii_lower(c: char) -> int {
    if 'A' <= c && c <= 'Z' {
        (c as int) + 32
    } else {
        c as int
    }
}

/// Whether `s` in ASCII lower case is `word`.
pub open spec fn lowercase_is(s: Seq<char>, word: Seq<char>) -> bool {
    s.len() == word.len() && forall|i: int|
        0 <= i < s.len() ==> ascii_lower(#[trigger] s[i]) == word[i] as int
}

/// A boolean property value.
pub open spec fn flag_value(v: Seq<char>) -> Option<bool> {
    if lowercase_is(v, "true"@) {
        Some(true)
    } else if lowercase_is(v, "false"@) {
        Some(false)
    } else {
        None
    }
}

pub open spec fn indent_style_value(v: Seq<char>) -> Option<IndentStyle> {
    if lowercase_is(v, "tab"@) {
        Some(IndentStyle::Tab)
    } else if lowercase_is(v, "space"@) {
        Some(IndentStyle::Space)
    } else {
        None
    }
}

pub open spec fn indent_size_value(v: Seq<char>) -> Option<IndentSize> {
    if lowercase_is(v, "tab"@) {
        Some(IndentSize::Tab)
    } else {
        match spec_parse_usize(v) {
            Some(w) => Some(IndentSize::Width(w)),
            None => None,
        }
    }
}

pub open spec fn end_of_line_value(v: Seq<char>) -> Option<EndOfLine> {
    if lowercase_is(v, "lf"@) {
        Some(EndOfLine::Lf)
    } else if lowercase_is(v, "cr"@) {
        Some(EndOfLine::Cr)
    } else if lowercase_is(v, "crlf"@) {
        Some(EndOfLine::Crlf)
    } else {
        None
    }
}

pub open spec fn charset_value(v: Seq<char>) -> Option<Charset> {
    if lowercase_is(v, "latin1"@) {
        Some(Charset::Latin1)
    } else if lowercase_is(v, "utf-8"@) {
        Some(Charset::Utf8)
    } else if lowercase_is(v, "utf-8-bom"@) {
        Some(Charset::Utf8Bom)
    } else if lowercase_is(v, "utf-16be"@) {
        Some(Charset::Utf16Be)
    } else if lowercase_is(v, "utf-16le"@) {
        Some(Charset::Utf16Le)
    } else {
        None
    }
}

/// The section after the property `name` is set to `value`: property names and
/// keyword values are compared without regard to ASCII case, a value that is
/// not understood clears the property, and unknown properties are ignored.
pub open spec fn with_property(s: SectionView, name: Seq<char>, value: Seq<char>) -> SectionView {
    if lowercase_is(name, "indent_style"@) {
        SectionView { indent_style: indent_style_value(value), ..s }
    } else if lowercase_is(name, "indent_size"@) {
        SectionView { indent_size: indent_size_value(value), ..s }
    } else if lowercase_is(name, "tab_width"@) {
        SectionView { tab_width: spec_parse_usize(value), ..s }
    } else if lowercase_is(name, "end_of_line"@) {
        SectionView { end_of_line: end_of_line_value(value), ..s }
    } else if lowercase_is(name, "charset"@) {
        SectionView { charset: charset_value(value), ..s }
    } else if lowercase_is(name, "trim_trailing_whitespace"@) {
        SectionView { trim_trailing_whitespace: flag_value(value), ..s }
    } else if lowercase_is(name, "insert_final_newline"@) {
        SectionView { insert_final_newline: flag_value(value), ..s }
    } else {
        s
    }
}

/// Whether `s` in ASCII lower case is `word`.
fn lowercase_eq(s: &Vec<char>, word: &str) -> (b: bool)
    ensures
        b == lowercase_is(s@, word@),
{
    let w = chars_of(word);
    if s.len() != w.len() {
        return false;
    }
    let mut i: usize = 0;
    while i < s.len()
        invariant
            0 <= i <= s@.len(),
            s@.len() == w@.len(),
            w@ == word@,
            forall|j: int| 0 <= j < i ==> ascii_lower(#[trigger] s@[j]) == w@[j] as int,
        decreases s@.len() - i,
    {
        let c = s[i];
        let d = w[i];
        let same = if 'A' <= c && c <= 'Z' {
            'a' <= d && d <= 'z' && (c as u32) + 32 == (d as u32)
        } else {
            c == d
        };
        assert(same == (ascii_lower(c) == d as int));
        if !same {
            assert(ascii_lower(s@[i as int]) != w@[i as int] as int);
            return false;
        }
        i = i + 1;
    }
    true
}

fn flag_of(v: &Vec<char>) -> (r: Option<bool>)
    ensures
        r == flag_value(v@),
{
    if lowercase_eq(v, "true") {
        Some(true)
    } else if lowercase_eq(v, "false") {
        Some(false)
    } else {
        None
    }
}

fn indent_style_of(v: &Vec<char>) -> (r: Option<IndentStyle>)
    ensures
        r == indent_style_value(v@),
{
    if lowercase_eq(v, "tab") {
        Some(IndentStyle::Tab)
    } else if lowercase_eq(v, "space") {
        Some(IndentStyle::Space)
    } else {
        None
    }
}

fn indent_size_of(v: &Vec<char>) -> (r: Option<IndentSize>)
    ensures
        r == indent_size_value(v@),
{
    if lowercase_eq(v, "tab") {
        Some(IndentSize::Tab)
    } else {
        match parse_usize(v) {
            Some(w) => Some(IndentSize::Width(w)),
            None => None,
        }
    }
}

fn end_of_line_of(v: &Vec<char>) -> (r: Option<EndOfLine>)
    ensures
        r == end_of_line_value(v@),
{
    if lowercase_eq(v, "lf") {
        Some(EndOfLine::Lf)
    } else if lowercase_eq(v, "cr") {
        Some(EndOfLine::Cr)
    } else if lowercase_eq(v, "crlf") {
        Some(EndOfLine::Crlf)
    } else {
        None
    }
}

fn charset_of(v: &Vec<char>) -> (r: Option<Charset>)
    ensures
        r == charset_value(v@),
{
    if lowercase_eq(v, "latin1") {
        Some(Charset::Latin1)
    } else if lowercase_eq(v, "utf-8") {
        Some(Charset::Utf8)
    } else if lowercase_eq(v, "utf-8-bom") {
        Some(Charset::Utf8Bom)
    } else if lowercase_eq(v, "utf-16be") {
        Some(Charset::Utf16Be)
    } else if lowercase_eq(v, "utf-16le") {
        Some(Charset::Utf16Le)
    } else {
        None
    }
}

impl Section {
    /// A section for the names that `regex` matches, with no property set.
    fn from(regex: String) -> (s: Section)
        ensures
            s@ == new_section(regex@),
    {
        Section {
            regex,
            indent_style: None,
            indent_size: None,
            tab_width: None,
            end_of_line: None,
            charset: None,
            trim_trailing_whitespace: None,
            insert_final_newline: None,
        }
    }

    /// Sets the property `name` to `value`.
    pub fn insert_property(&mut self, name: &Vec<char>, value: &Vec<char>)
        ensures
            final(self)@ == with_property(old(self)@, name@, value@),
    {
        if lowercase_eq(name, "indent_style") {
            self.indent_style = indent_style_of(value);
        } else if lowercase_eq(name, "indent_size") {
            self.indent_size = indent_size_of(value);
        } else if lowercase_eq(name, "tab_width") {
            self.tab_width = parse_usize(value);
        } else if lowercase_eq(name, "end_of_line") {
            self.end_of_line = end_of_line_of(value);
        } else if lowercase_eq(name, "charset") {
            self.charset = charset_of(value);
        } else if lowercase_eq(name, "trim_trailing_whitespace") {
            self.trim_trailing_whitespace = flag_of(value);
        } else if lowercase_eq(name, "insert_final_newline") {
            self.insert_final_newline = flag_of(value);
        }
    }

    /// Whether this section applies to `filename`.
    pub fn is_match(&self, filename: &str) -> (b: bool)
        requires
            regex_accepts(self@.regex),
        ensures
            b == regex_matches(self@.regex, filename@),
    {
        regex_is_match(self.regex.as_str(), filename)
    }
}

// ---------------------------------------------------------------------------
// Reading a file
// ---------------------------------------------------------------------------

/// The progress of reading a file: the sections closed so far, in the order of
/// their headers, the open section (if its glob gave a usable regex), and the
/// number the next significant line will have.
pub struct ScanState {
    pub closed: Seq<SectionView>,
    pub open: Option<SectionView>,
    pub line_number: nat,
}

/// The outcome of reading lines: still reading, stopped at a line that is neither a
/// header nor a property (with its number), or stopped at a header whose glob cannot
/// be converted (the conversion would cut a multi-byte character).
pub enum Scan {
    Reading(ScanState),
    Failed(nat),
    Unconvertible,
}

/// Blank lines and comments (`#` or `;`) carry nothing.
pub open spec fn insignificant(t: Seq<char>) -> bool {
    t.len() == 0 || t[0] == '#' || t[0] == ';'
}

/// The sections closed so far with the open one, in the order of their headers.
pub open spec fn all_sections(s: ScanState) -> Seq<SectionView> {
    match s.open {
        Some(c) => s.closed.push(c),
        None => s.closed,
    }
}

/// The state after one more line (before trimming).
pub open spec fn scan_line(s: ScanState, line: Seq<char>) -> Scan {
    let t = trimmed(line);
    if insignificant(t) {
        Scan::Reading(s)
    } else if section_header(t) is Some {
        match glob_conversion(section_header(t)->0) {
            None => Scan::Unconvertible,
            Some(regex) => Scan::Reading(
                ScanState {
                    closed: all_sections(s),
                    open: match regex {
                        Some(re) => if regex_accepts(re) {
                            Some(new_section(re))
                        } else {
                            None
                        },
                        None => None,
                    },
                    line_number: s.line_number + 1,
                },
            ),
        }
    } else if key_value_pair(t) is Some {
        let (k, v) = key_value_pair(t)->0;
        Scan::Reading(
            ScanState {
                closed: s.closed,
                open: match s.open {
                    Some(c) => Some(with_property(c, k, v)),
                    None => None,
                },
                line_number: s.line_number + 1,
            },
        )
    } else {
        Scan::Failed(s.line_number)
    }
}

/// The state before any line is read.
pub open spec fn initial_scan() -> ScanState {
    ScanState { closed: Seq::empty(), open: None, line_number: 1 }
}

/// The outcome of reading `lines` in order.
pub open spec fn scan_lines(lines: Seq<Seq<char>>) -> Scan
    decreases lines.len(),
{
    if lines.len() == 0 {
        Scan::Reading(initial_scan())
    } else {
        match scan_lines(lines.drop_last()) {
            Scan::Reading(s) => scan_line(s, lines.last()),
            stopped => stopped,
        }
    }
}

/// The sections of a fully read file, latest header first.
pub open spec fn loaded_sections(s: ScanState) -> Seq<SectionView> {
    all_sections(s).reverse()
}

/// Once reading stops, later lines change nothing.
proof fn lemma_scan_stopped(lines: Seq<Seq<char>>, n: int)
    requires
        0 <= n <= lines.len(),
        !(scan_lines(lines.subrange(0, n)) is Reading),
    ensures
        scan_lines(lines) == scan_lines(lines.subrange(0, n)),
    decreases lines.len() - n,
{
    if n < lines.len() {
        assert(lines.subrange(0, n + 1).drop_last() =~= lines.subrange(0, n));
        lemma_scan_stopped(lines, n + 1);
    } else {
        assert(lines.subrange(0, n) =~= lines);
    }
}

/// The value of a section that may be missing.
pub open spec fn open_view(open: Option<Section>) -> Option<SectionView> {
    match open {
        Some(c) => Some(c@),
        None => None,
    }
}

/// What a scan in exec code found.
enum ScanOutcome {
    Read(Vec<Section>, Option<Section>),
    Failed(usize),
    Unconvertible,
}

/// Whether every section has a pattern that `regex::Regex::new` accepts.
pub open spec fn all_accepted(v: Seq<SectionView>) -> bool {
    forall|i: int| 0 <= i < v.len() ==> regex_accepts(#[trigger] v[i].regex)
}

fn scan(lines: &Vec<String>) -> (r: ScanOutcome)
    requires
        lines@.len() < usize::MAX,
    ensures
        match r {
            ScanOutcome::Read(closed, open) => {
                &&& scan_lines(string_views(lines@)) is Reading
                &&& scan_lines(string_views(lines@))->Reading_0.closed == section_views(closed@)
                &&& scan_lines(string_views(lines@))->Reading_0.open == open_view(open)
                &&& all_accepted(section_views(closed@))
                &&& open matches Some(c) ==> regex_accepts(c@.regex)
            },
            ScanOutcome::Failed(n) => scan_lines(string_views(lines@)) == Scan::Failed(n as nat),
            ScanOutcome::Unconvertible => scan_lines(string_views(lines@)) is Unconvertible,
        },
{
    let ghost views = string_views(lines@);
    let mut closed: Vec<Section> = Vec::new();
    let mut open: Option<Section> = None;
    let mut line_number: usize = 1;
    let mut i: usize = 0;
    assert(views.subrange(0, 0) =~= Seq::<Seq<char>>::empty());
    assert(section_views(closed@) =~= Seq::<SectionView>::empty());
    while i < lines.len()
        invariant
            0 <= i <= lines@.len() < usize::MAX,
            views == string_views(lines@),
            1 <= line_number <= i + 1,
            scan_lines(views.subrange(0, i as int)) == Scan::Reading(
                ScanState {
                    closed: section_views(closed@),
                    open: open_view(open),
                    line_number: line_number as nat,
                },
            ),
            all_accepted(section_views(closed@)),
            open matches Some(c) ==> regex_accepts(c@.regex),
        decreases lines@.len() - i,
    {
        let ghost before = ScanState {
            closed: section_views(closed@),
            open: open_view(open),
            line_number: line_number as nat,
        };
        let ghost prefix = views.subrange(0, i as int + 1);
        assert(prefix.drop_last() =~= views.subrange(0, i as int));
        assert(prefix.last() == lines@[i as int]@);
        let raw = chars_of(lines[i].as_str());
        let t = trim(&raw);
        let text = string_from_chars(&t);
        if t.len() == 0 || t[0] == '#' || t[0] == ';' {
            // Blank lines and comments carry nothing.
        } else {
            match section_header_capture(text.as_str()) {
                Some(glob) => {
                    match checked_glob_to_regex(glob.as_str()) {
                        None => {
                            proof {
                                lemma_scan_stopped(views, i as int + 1);
                            }
                            return ScanOutcome::Unconvertible;
                        },
                        Some(regex) => {
                            let ghost old_closed = closed@;
                            match open {
                                Some(c) => {
                                    closed.push(c);
                                },
                                None => {},
                            }
                            assert(section_views(closed@) =~= all_sections(before));
                            open = match regex {
                                Some(re) => {
                                    if regex_compiles(re.as_str()) {
                                        Some(Section::from(re))
                                    } else {
                                        None
                                    }
                                },
                                None => None,
                            };
                            line_number = line_number + 1;
                        },
                    }
                },
                None => {
                    match key_value_capture(text.as_str()) {
                        Some((k, v)) => {
                            let key = chars_of(k.as_str());
                            let value = chars_of(v.as_str());
                            open = match open {
                                Some(c) => {
                                    let mut c = c;
                                    c.insert_property(&key, &value);
                                    Some(c)
                                },
                                None => None,
                            };
                            line_number = line_number + 1;
                        },
                        None => {
                            proof {
                                lemma_scan_stopped(views, i as int + 1);
                            }
                            return ScanOutcome::Failed(line_number);
                        },
                    }
                },
            }
        }
        i = i + 1;
    }
    assert(views.subrange(0, i as int) =~= views);
    ScanOutcome::Read(closed, open)
}

/// Whether the scan of `lines` stops at a header whose glob cannot be converted.
pub fn has_unconvertible_glob(lines: &Vec<String>) -> (b: bool)
    requires
        lines@.len() < usize::MAX,
    ensures
        b == scan_lines(string_views(lines@)) is Unconvertible,
{
    match scan(lines) {
        ScanOutcome::Unconvertible => true,
        _ => false,
    }
}

/// The sections of an EditorConfig file given as its lines, latest header first,
/// so that among the sections that set a property for a name, the last one in
/// the file is found first. A line that is neither blank, a comment, a section
/// header nor a property is refused with its number. Properties before the first
/// header, or under a header whose glob gives no usable regex, are dropped.
pub fn load_from_lines(lines: &Vec<String>) -> (r: Result<Vec<Section>, EditorConfigError>)
    requires
        lines@.len() < usize::MAX,
        !(scan_lines(string_views(lines@)) is Unconvertible),
    ensures
        match scan_lines(string_views(lines@)) {
            Scan::Reading(s) => r matches Ok(v) && section_views(v@) == loaded_sections(s)
                && all_accepted(section_views(v@)),
            Scan::Failed(n) => r matches Err(EditorConfigError::ParseFailure(m)) && m == n,
            Scan::Unconvertible => false,
        },
{
    match scan(lines) {
        ScanOutcome::Read(closed, open) => {
            let mut all = closed;
            match open {
                Some(c) => {
                    all.push(c);
                },
                None => {},
            }
            let ghost st = scan_lines(string_views(lines@))->Reading_0;
            assert(section_views(all@) =~= all_sections(st));
            let ghost n = all@.len();
            let ghost orig = section_views(all@);
            let mut out: Vec<Section> = Vec::new();
            assert(section_views(out@) =~= orig.reverse().subrange(0, 0));
            assert(section_views(all@) =~= orig.subrange(0, n as int));
            while all.len() > 0
                invariant
                    n == orig.len(),
                    out@.len() + all@.len() == n,
                    section_views(out@) == orig.reverse().subrange(0, out@.len() as int),
                    section_views(all@) == orig.subrange(0, all@.len() as int),
                    all_accepted(orig),
                decreases all@.len(),
            {
                let ghost k = all@.len() - 1;
                assert(section_views(all@)[k] == orig[k]);
                let last = all.pop();
                match last {
                    Some(c) => {
                        out.push(c);
                    },
                    None => {},
                }
                assert(section_views(all@) =~= orig.subrange(0, all@.len() as int));
                assert(section_views(out@) =~= orig.reverse().subrange(0, out@.len() as int));
            }
            assert(orig.reverse().subrange(0, n as int) =~= orig.reverse());
            assert(all_accepted(section_views(out@))) by {
                assert forall|i: int| 0 <= i < section_views(out@).len() implies regex_accepts(
                    #[trigger] section_views(out@)[i].regex,
                ) by {
                    assert(section_views(out@)[i] == orig[n - 1 - i]);
                }
            }
            Ok(out)
        },
        ScanOutcome::Failed(n) => Err(EditorConfigError::ParseFailure(n)),
        ScanOutcome::Unconvertible => {
            assert(false);
            Err(EditorConfigError::ParseFailure(0))
        },
    }
}

/// The position of the first section in `v[i..]` whose regex matches `filename`.
pub open spec fn first_match_from(v: Seq<SectionView>, filename: Seq<char>, i: int) -> Option<int>
    decreases v.len() - i,
{
    if i >= v.len() {
        None
    } else if regex_matches(v[i].regex, filename) {
        Some(i)
    } else {
        first_match_from(v, filename, i + 1)
    }
}

/// The settings of an EditorConfig file: its sections, latest header first.
pub struct EditorConfig {
    sections: Vec<Section>,
}

impl EditorConfig {
    /// The sections, latest header first.
    pub closed spec fn sections_view(&self) -> Seq<SectionView> {
        section_views(self.sections@)
    }

    #[verifier::type_invariant]
    spec fn patterns_accepted(&self) -> bool {
        all_accepted(section_views(self.sections@))
    }

    /// The settings of an EditorConfig file given as its lines (see `load_from_lines`).
    pub fn from_lines(lines: &Vec<String>) -> (r: Result<EditorConfig, EditorConfigError>)
        requires
            lines@.len() < usize::MAX,
            !(scan_lines(string_views(lines@)) is Unconvertible),
        ensures
            match scan_lines(string_views(lines@)) {
                Scan::Reading(s) => r matches Ok(c) && c.sections_view() == loaded_sections(s),
                Scan::Failed(n) => r matches Err(EditorConfigError::ParseFailure(m)) && m == n,
                Scan::Unconvertible => false,
            },
    {
        match load_from_lines(lines) {
            Ok(sections) => Ok(EditorConfig { sections }),
            Err(e) => Err(e),
        }
    }

    /// The section that applies to `filename`: the first, in the kept order, whose
    /// regex matches it.
    pub fn get(&self, filename: &str) -> (r: Option<&Section>)
        ensures
            match first_match_from(self.sections_view(), filename@, 0) {
                Some(k) => r matches Some(s) && s@ == self.sections_view()[k],
                None => r is None,
            },
    {
        proof {
            use_type_invariant(self);
        }
        let mut i: usize = 0;
        while i < self.sections.len()
            invariant
                0 <= i <= self.sections@.len(),
                all_accepted(section_views(self.sections@)),
                first_match_from(self.sections_view(), filename@, 0) == first_match_from(
                    self.sections_view(),
                    filename@,
                    i as int,
                ),
            decreases self.sections@.len() - i,
        {
            assert(section_views(self.sections@)[i as int] == self.sections@[i as int]@);
            if self.sections[i].is_match(filename) {
                return Some(&self.sections[i]);
            }
            i = i + 1;
        }
        None
    }
}

proof fn lemma_first_match_from(v: Seq<SectionView>, filename: Seq<char>, i: int)
    requires
        0 <= i <= v.len(),
    ensures
        match first_match_from(v, filename, i) {
            Some(k) => i <= k < v.len() && regex_matches(v[k].regex, filename) && forall|m: int|
                i <= m < k ==> !regex_matches(#[trigger] v[m].regex, filename),
            None => forall|m: int| i <= m < v.len() ==> !regex_matches(#[trigger] v[m].regex, filename),
        },
    decreases v.len() - i,
{
    if i < v.len() {
        lemma_first_match_from(v, filename, i + 1);
    }
}

/// Sections are consulted latest header first: of the sections, in the order of
/// their headers in the file, the one found for a name is the last that matches it,
/// and none is found when none matches.
pub proof fn law_last_matching_section_applies(in_file_order: Seq<SectionView>, filename: Seq<char>)
    ensures
        match first_match_from(in_file_order.reverse(), filename, 0) {
            Some(k) => {
                let j = in_file_order.len() - 1 - k;
                &&& 0 <= j < in_file_order.len()
                &&& regex_matches(in_file_order[j].regex, filename)
                &&& forall|m: int|
                    j < m < in_file_order.len() ==> !regex_matches(
                        #[trigger] in_file_order[m].regex,
                        filename,
                    )
            },
            None => forall|m: int|
                0 <= m < in_file_order.len() ==> !regex_matches(
                    #[trigger] in_file_order[m].regex,
                    filename,
                ),
        },
{
    let r = in_file_order.reverse();
    let n = in_file_order.len();
    lemma_first_match_from(r, filename, 0);
    match first_match_from(r, filename, 0) {
        Some(k) => {
            assert(r[k] == in_file_order[n - 1 - k]);
            assert forall|m: int| n - 1 - k < m < n implies !regex_matches(
                #[trigger] in_file_order[m].regex,
                filename,
            ) by {
                assert(r[n - 1 - m] == in_file_order[m]);
            }
        },
        None => {
            assert forall|m: int| 0 <= m < n implies !regex_matches(
                #[trigger] in_file_order[m].regex,
                filename,
            ) by {
                assert(r[n - 1 - m] == in_file_order[m]);
            }
        },
    }
}

} // verus!
