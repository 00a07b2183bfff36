//! Key bindings as written in keymap preferences.

use vstd::prelude::*;
use crate::preferences::YamlValue;
use crate::select_modes::{command_position, find_command, DisplayableCommand};
use crate::text::{chars_of, string_from_chars};

verus! {

/// A key that a keymap can bind: a character, or a character with Ctrl held.
#[derive(Clone, Copy, Debug, PartialEq, Eq, Hash, Structural)]
pub enum Key {
    Char(char),
    Ctrl(char),
}

/// Why a keymap, or one of its keys, was refused.
#[derive(Clone, Debug, PartialEq, Eq)]
pub enum KeyMapError {
    /// The key part (after the modifier, if any) is empty.
    InvalidKey(String),
    /// The modifier is not one that keymaps support.
    InvalidModifier(String),
    /// The keymap is not a mapping.
    NotAHash,
    /// A key of the mapping is not a string.
    KeyNotAString,
    /// A command of the mapping is not a string.
    CommandNotAString,
    /// No command goes by this name.
    UnknownCommand(String),
}

/// The position of the first `-` in `s[i..]`, or `s.len()`.
pub open spec fn next_dash(s: Seq<char>, i: int) -> int
    decreases s.len() - i,
{
    if i >= s.len() {
        s.len() as int
    } else if s[i] == '-' {
        i
    } else {
        next_dash(s, i + 1)
    }
}

pub proof fn lemma_next_dash(s: Seq<char>, i: int)
    requires
        0 <= i <= s.len(),
    ensures
        i <= next_dash(s, i) <= s.len(),
        next_dash(s, i) < s.len() ==> s[next_dash(s, i)] == '-',
    decreases s.len() - i,
{
    if i < s.len() && s[i] != '-' {
        lemma_next_dash(s, i + 1);
    }
}

/// What a keymap key denotes: `Ctrl-x` is `x` with Ctrl held, and a key without
/// a `-` is its first character. Only the first two `-`-separated parts count.
pub enum KeyParse {
    Bound(Key),
    BadKey(Seq<char>),
    BadModifier(Seq<char>),
}

pub open spec fn key_parse(data: Seq<char>) -> KeyParse {
    let d = next_dash(data, 0);
    let component = data.subrange(0, d);
    if d < data.len() {
        let e = next_dash(data, d + 1);
        let key = data.subrange(d + 1, e);
        if key.len() == 0 {
            KeyParse::BadKey(key)
        } else if component == "Ctrl"@ {
            KeyParse::Bound(Key::Ctrl(key[0]))
        } else {
            KeyParse::BadModifier(component)
        }
    } else if component.len() == 0 {
        KeyParse::BadKey(component)
    } else {
        KeyParse::Bound(Key::Char(component[0]))
    }
}

/// The characters `s[lo..hi]`.
fn copy_range(s: &Vec<char>, lo: usize, hi: usize) -> (r: Vec<char>)
    requires
        lo <= hi <= s@.len(),
    ensures
        r@ == s@.subrange(lo as int, hi as int),
{
    let mut r: Vec<char> = Vec::new();
    let mut i = lo;
    while i < hi
        invariant
            lo <= i <= hi <= s@.len(),
            r@ == s@.subrange(lo as int, i as int),
        decreases hi - i,
    {
        r.push(s[i]);
        i = i + 1;
        assert(r@ =~= s@.subrange(lo as int, i as int));
    }
    r
}

/// The first `-` in `s[i..]`, or `s.len()`.
fn find_dash(s: &Vec<char>, i: usize) -> (d: usize)
    requires
        i <= s@.len(),
    ensures
        d == next_dash(s@, i as int),
{
    let mut d = i;
    while d < s.len() && s[d] != '-'
        invariant
            i <= d <= s@.len(),
            next_dash(s@, i as int) == next_dash(s@, d as int),
        decreases s@.len() - d,
    {
        d = d + 1;
    }
    d
}

/// Whether `s` holds exactly the characters of `word`.
fn chars_are(s: &Vec<char>, word: &str) -> (b: bool)
    ensures
        b == (s@ == word@),
{
    let w = chars_of(word);
    if s.len() != w.len() {
        return false;
    }
    let mut i: usize = 0;
    while i < s.len()
        invariant
            0 <= i <= s@.len(),
            s@.len() == w@.len(),
            w@ == word@,
            forall|k: int| 0 <= k < i ==> s@[k] == w@[k],
        decreases s@.len() - i,
    {
        if s[i] != w[i] {
            return false;
        }
        i = i + 1;
    }
    assert(s@ =~= w@);
    true
}

/// Parses a keymap key (see `key_parse`).
pub fn parse_key(data: &str) -> (r: Result<Key, KeyMapError>)
    ensures
        match key_parse(data@) {
            KeyParse::Bound(k) => r == Ok::<Key, KeyMapError>(k),
            KeyParse::BadKey(k) => r matches Err(KeyMapError::InvalidKey(s)) && s@ == k,
            KeyParse::BadModifier(m) => r matches Err(KeyMapError::InvalidModifier(s)) && s@ == m,
        },
{
    let s = chars_of(data);
    let d = find_dash(&s, 0);
    proof {
        lemma_next_dash(s@, 0);
    }
    let component = copy_range(&s, 0, d);
    if d < s.len() {
        let e = find_dash(&s, d + 1);
        proof {
            lemma_next_dash(s@, d + 1);
        }
        let key = copy_range(&s, d + 1, e);
        if key.len() == 0 {
            Err(KeyMapError::InvalidKey(string_from_chars(&key)))
        } else if chars_are(&component, "Ctrl") {
            Ok(Key::Ctrl(key[0]))
        } else {
            Err(KeyMapError::InvalidModifier(string_from_chars(&component)))
        }
    } else if component.len() == 0 {
        Err(KeyMapError::InvalidKey(string_from_chars(&component)))
    } else {
        Ok(Key::Char(component[0]))
    }
}


/// Why a keymap is refused, as a value of the specification.
pub enum KeyMapFault {
    BadKey(Seq<char>),
    BadModifier(Seq<char>),
    NotAHash,
    KeyNotAString,
    CommandNotAString,
    UnknownCommand(Seq<char>),
}

/// Whether `e` reports `f`.
pub open spec fn reports(e: KeyMapError, f: KeyMapFault) -> bool {
    match f {
        KeyMapFault::BadKey(k) => e matches KeyMapError::InvalidKey(s) && s@ == k,
        KeyMapFault::BadModifier(m) => e matches KeyMapError::InvalidModifier(s) && s@ == m,
        KeyMapFault::NotAHash => e is NotAHash,
        KeyMapFault::KeyNotAString => e is KeyNotAString,
        KeyMapFault::CommandNotAString => e is CommandNotAString,
        KeyMapFault::UnknownCommand(c) => e matches KeyMapError::UnknownCommand(s) && s@ == c,
    }
}

/// The bindings of a keymap's entries, read in order: each entry binds the key it
/// names to the command it names (a later entry for the same key wins). The first
/// entry whose key is not a string or not a key, or whose command is not a string
/// or names no command, refuses the keymap.
pub open spec fn bindings<C>(
    entries: Seq<(YamlValue, YamlValue)>,
    commands: Seq<DisplayableCommand<C>>,
) -> Result<Map<Key, C>, KeyMapFault>
    decreases entries.len(),
{
    if entries.len() == 0 {
        Ok(Map::empty())
    } else {
        match bindings(entries.drop_last(), commands) {
            Err(f) => Err(f),
            Ok(m) => {
                let (k, c) = entries.last();
                match k {
                    YamlValue::String(ks) => match key_parse(ks@) {
                        KeyParse::BadKey(b) => Err(KeyMapFault::BadKey(b)),
                        KeyParse::BadModifier(b) => Err(KeyMapFault::BadModifier(b)),
                        KeyParse::Bound(key) => match c {
                            YamlValue::String(cs) => match command_position(commands, cs@) {
                                Some(i) => Ok(m.insert(key, commands[i].command)),
                                None => Err(KeyMapFault::UnknownCommand(cs@)),
                            },
                            _ => Err(KeyMapFault::CommandNotAString),
                        },
                    },
                    _ => Err(KeyMapFault::KeyNotAString),
                }
            },
        }
    }
}

/// The keymap that a keymap document denotes: the bindings of its entries, or
/// `NotAHash` when it is not a mapping.
pub open spec fn keymap_of<C>(
    data: YamlValue,
    commands: Seq<DisplayableCommand<C>>,
) -> Result<Map<Key, C>, KeyMapFault> {
    match data {
        YamlValue::Hash(entries) => bindings(entries@, commands),
        _ => Err(KeyMapFault::NotAHash),
    }
}

/// Commands bound to keys; no key is bound twice.
pub struct KeyMap<C> {
    entries: Vec<(Key, C)>,
}

/// The bindings held by a list of distinct keys.
pub open spec fn entries_map<C>(entries: Seq<(Key, C)>) -> Map<Key, C> {
    Map::new(
        |k: Key| exists|i: int| 0 <= i < entries.len() && #[trigger] entries[i].0 == k,
        |k: Key| entries[choose|i: int| 0 <= i < entries.len() && #[trigger] entries[i].0 == k].1,
    )
}

/// Whether no key occurs twice among the entries.
pub open spec fn distinct_keys<C>(entries: Seq<(Key, C)>) -> bool {
    forall|i: int, j: int| 0 <= i < j < entries.len() ==> #[trigger] entries[i].0 != #[trigger] entries[j].0
}

impl<C> KeyMap<C> {
    #[verifier::type_invariant]
    spec fn well_formed(self) -> bool {
        distinct_keys(self.entries@)
    }
}

impl<C> View for KeyMap<C> {
    type V = Map<Key, C>;

    /// The command bound to each key.
    closed spec fn view(&self) -> Map<Key, C> {
        entries_map(self.entries@)
    }
}

proof fn lemma_bind_existing<C>(before: Seq<(Key, C)>, i: int, key: Key, command: C)
    requires
        distinct_keys(before),
        0 <= i < before.len(),
        before[i].0 == key,
    ensures
        distinct_keys(before.update(i, (key, command))),
        entries_map(before.update(i, (key, command))) == entries_map(before).insert(key, command),
{
    let after = before.update(i, (key, command));
    assert forall|a: int, b: int| 0 <= a < b < after.len() implies #[trigger] after[a].0
        != #[trigger] after[b].0 by {
        assert(before[a].0 != before[b].0);
    }
    let m = entries_map(after);
    let n = entries_map(before).insert(key, command);
    assert forall|k: Key| m.dom().contains(k) <==> n.dom().contains(k) by {
        if k != key && n.dom().contains(k) {
            let j = choose|j: int| 0 <= j < before.len() && #[trigger] before[j].0 == k;
            assert(after[j].0 == k);
        }
        if m.dom().contains(k) && k != key {
            let j = choose|j: int| 0 <= j < after.len() && #[trigger] after[j].0 == k;
            assert(before[j].0 == k);
        }
        if k == key {
            assert(after[i].0 == key);
        }
    }
    assert forall|k: Key| m.dom().contains(k) implies m[k] == n[k] by {
        let j = choose|j: int| 0 <= j < after.len() && #[trigger] after[j].0 == k;
        if k == key {
            assert(after[i].0 == key);
            assert(j == i);
        } else {
            let j2 = choose|j2: int| 0 <= j2 < before.len() && #[trigger] before[j2].0 == k;
            assert(after[j2].0 == k);
            assert(j2 == j);
        }
    }
    assert(m =~= n);
}

proof fn lemma_bind_new<C>(before: Seq<(Key, C)>, key: Key, command: C)
    requires
        distinct_keys(before),
        forall|j: int| 0 <= j < before.len() ==> before[j].0 != key,
    ensures
        distinct_keys(before.push((key, command))),
        entries_map(before.push((key, command))) == entries_map(before).insert(key, command),
{
    let after = before.push((key, command));
    let last = before.len() as int;
    assert forall|a: int, b: int| 0 <= a < b < after.len() implies #[trigger] after[a].0
        != #[trigger] after[b].0 by {
        if b < before.len() {
            assert(before[a].0 != before[b].0);
        } else {
            assert(before[a].0 != key);
        }
    }
    let m = entries_map(after);
    let n = entries_map(before).insert(key, command);
    assert forall|k: Key| m.dom().contains(k) <==> n.dom().contains(k) by {
        if k != key && n.dom().contains(k) {
            let j = choose|j: int| 0 <= j < before.len() && #[trigger] before[j].0 == k;
            assert(after[j].0 == k);
        }
        if m.dom().contains(k) && k != key {
            let j = choose|j: int| 0 <= j < after.len() && #[trigger] after[j].0 == k;
            assert(before[j].0 == k);
        }
        if k == key {
            assert(after[last].0 == key);
        }
    }
    assert forall|k: Key| m.dom().contains(k) implies m[k] == n[k] by {
        let j = choose|j: int| 0 <= j < after.len() && #[trigger] after[j].0 == k;
        if k == key {
            assert(after[last].0 == key);
            assert(j == last);
        } else {
            let j2 = choose|j2: int| 0 <= j2 < before.len() && #[trigger] before[j2].0 == k;
            assert(after[j2].0 == k);
            assert(j2 == j);
        }
    }
    assert(m =~= n);
}

/// Binds `key` to `command` among the entries, replacing any command bound to it.
fn bind<C: Copy>(entries: &mut Vec<(Key, C)>, key: Key, command: C)
    requires
        distinct_keys(old(entries)@),
    ensures
        distinct_keys(final(entries)@),
        entries_map(final(entries)@) == entries_map(old(entries)@).insert(key, command),
{
    let ghost before = entries@;
    let mut i: usize = 0;
    while i < entries.len()
        invariant
            0 <= i <= entries@.len(),
            entries@ == before,
            before == old(entries)@,
            distinct_keys(before),
            forall|j: int| 0 <= j < i ==> entries@[j].0 != key,
        decreases entries@.len() - i,
    {
        if entries[i].0 == key {
            entries.set(i, (key, command));
            proof {
                lemma_bind_existing(before, i as int, key, command);
            }
            return;
        }
        i = i + 1;
    }
    entries.push((key, command));
    proof {
        lemma_bind_new(before, key, command);
    }
}

/// Once the entries read so far refuse the keymap, reading more keeps the refusal.
proof fn lemma_refusal_stays<C>(
    entries: Seq<(YamlValue, YamlValue)>,
    commands: Seq<DisplayableCommand<C>>,
    n: int,
)
    requires
        0 <= n <= entries.len(),
        bindings(entries.subrange(0, n), commands) is Err,
    ensures
        bindings(entries, commands) == bindings(entries.subrange(0, n), commands),
    decreases entries.len() - n,
{
    if n < entries.len() {
        assert(entries.subrange(0, n + 1).drop_last() =~= entries.subrange(0, n));
        lemma_refusal_stays(entries, commands, n + 1);
    } else {
        assert(entries.subrange(0, n) =~= entries);
    }
}

impl<C: Copy> KeyMap<C> {
    /// The keymap that `keymap_data` describes (see `keymap_of`), its commands
    /// found by name among `commands`.
    pub fn from(keymap_data: &YamlValue, commands: &Vec<DisplayableCommand<C>>) -> (r: Result<KeyMap<C>, KeyMapError>)
        ensures
            match keymap_of(*keymap_data, commands@) {
                Ok(m) => r matches Ok(k) && k.view() == m,
                Err(f) => r matches Err(e) && reports(e, f),
            },
    {
        let entries = match keymap_data {
            YamlValue::Hash(entries) => entries,
            _ => return Err(KeyMapError::NotAHash),
        };
        let mut bound: Vec<(Key, C)> = Vec::new();
        assert(entries_map(bound@) =~= Map::<Key, C>::empty());
        let mut i: usize = 0;
        while i < entries.len()
            invariant
                0 <= i <= entries@.len(),
                keymap_of(*keymap_data, commands@) == bindings(entries@, commands@),
                distinct_keys(bound@),
                bindings(entries@.subrange(0, i as int), commands@) == Ok::<Map<Key, C>, KeyMapFault>(
                    entries_map(bound@),
                ),
            decreases entries@.len() - i,
        {
            let ghost done = entries@.subrange(0, i as int);
            assert(entries@.subrange(0, i + 1).drop_last() =~= done);
            assert(entries@.subrange(0, i + 1).last() == entries@[i as int]);
            let (yaml_key, yaml_command) = &entries[i];
            let key_text = match yaml_key {
                YamlValue::String(s) => s,
                _ => {
                    proof {
                        lemma_refusal_stays(entries@, commands@, i + 1);
                    }
                    return Err(KeyMapError::KeyNotAString);
                },
            };
            let key = match parse_key(key_text.as_str()) {
                Ok(k) => k,
                Err(e) => {
                    proof {
                        lemma_refusal_stays(entries@, commands@, i + 1);
                    }
                    return Err(e);
                },
            };
            let command_text = match yaml_command {
                YamlValue::String(s) => s,
                _ => {
                    proof {
                        lemma_refusal_stays(entries@, commands@, i + 1);
                    }
                    return Err(KeyMapError::CommandNotAString);
                },
            };
            let command = match find_command(commands, command_text) {
                Some(n) => commands[n].command,
                None => {
                    proof {
                        lemma_refusal_stays(entries@, commands@, i + 1);
                    }
                    return Err(KeyMapError::UnknownCommand(command_text.clone()));
                },
            };
            bind(&mut bound, key, command);
            i = i + 1;
        }
        assert(entries@.subrange(0, i as int) =~= entries@);
        Ok(KeyMap { entries: bound })
    }

    /// The command bound to `key`, if any.
    pub fn get(&self, key: Key) -> (r: Option<C>)
        ensures
            self.view().dom().contains(key) ==> r == Some(self.view()[key]),
            !self.view().dom().contains(key) ==> r is None,
    {
        proof {
            use_type_invariant(self);
        }
        let mut i: usize = 0;
        while i < self.entries.len()
            invariant
                0 <= i <= self.entries@.len(),
                distinct_keys(self.entries@),
                forall|j: int| 0 <= j < i ==> self.entries@[j].0 != key,
            decreases self.entries@.len() - i,
        {
            if self.entries[i].0 == key {
                proof {
                    let j = choose|j: int| 0 <= j < self.entries@.len() && #[trigger] self.entries@[j].0 == key;
                    assert(self.entries@[i as int].0 == key);
                    assert(j == i);
                }
                return Some(self.entries[i].1);
            }
            i = i + 1;
        }
        None
    }
}
} // verus!
