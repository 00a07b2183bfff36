//! Search/select modes over themes, syntaxes, commands and open buffers.

use vstd::prelude::*;
use crate::search_select::{SearchSelectConfig, SearchSelectMode};
use crate::selectable_vec::SelectableVec;
use crate::matching::{find_matches, fuzzy_find};
use crate::text::string_views;

verus! {

/// The first `n` elements of `v` (all of them when it is shorter).
pub open spec fn take_at_most<T>(v: Seq<T>, n: nat) -> Seq<T> {
    if v.len() <= n {
        v
    } else {
        v.subrange(0, n as int)
    }
}

/// Copies of the first `n` strings of `v`.
fn clone_first(v: &Vec<String>, n: usize) -> (r: Vec<String>)
    ensures
        r@ == take_at_most(v@, n as nat),
{
    let count = if v.len() <= n { v.len() } else { n };
    let mut r: Vec<String> = Vec::new();
    let mut i: usize = 0;
    while i < count
        invariant
            0 <= i <= count <= v@.len(),
            count == (if v@.len() <= n { v@.len() } else { n as nat }),
            r@ == v@.subrange(0, i as int),
        decreases count - i,
    {
        r.push(v[i].clone());
        i = i + 1;
        assert(r@ =~= v@.subrange(0, i as int));
    }
    assert(v@.subrange(0, v@.len() as int) =~= v@);
    r
}

/// Selects a syntax definition by name.
pub struct SyntaxMode {
    insert: bool,
    input: String,
    syntaxes: Vec<String>,
    results: SelectableVec<String>,
    config: SearchSelectConfig,
}

impl SyntaxMode {
    /// The syntax names searched.
    pub closed spec fn syntaxes_view(&self) -> Seq<String> {
        self.syntaxes@
    }

    /// The settings in use.
    pub closed spec fn config_view(&self) -> SearchSelectConfig {
        self.config
    }

    pub fn new(config: SearchSelectConfig) -> (m: SyntaxMode)
        ensures
            m.insert_view(),
            m.query_view() == Seq::<char>::empty(),
            m.syntaxes_view() == Seq::<String>::empty(),
            m.results_view() == Seq::<String>::empty(),
            m.config_view() == config,
    {
        SyntaxMode {
            insert: true,
            input: String::new(),
            syntaxes: Vec::new(),
            results: SelectableVec::new(Vec::new()),
            config,
        }
    }

    /// Starts a new search over `syntaxes`.
    pub fn reset(&mut self, syntaxes: Vec<String>, config: SearchSelectConfig)
        ensures
            final(self).insert_view(),
            final(self).query_view() == Seq::<char>::empty(),
            final(self).syntaxes_view() == syntaxes@,
            final(self).results_view() == Seq::<String>::empty(),
            final(self).config_view() == config,
    {
        self.input = String::new();
        self.insert = true;
        self.syntaxes = syntaxes;
        self.results = SelectableVec::new(Vec::new());
        self.config = config;
    }
}

impl SearchSelectMode<String> for SyntaxMode {
    closed spec fn query_view(&self) -> Seq<char> {
        self.input@
    }

    closed spec fn insert_view(&self) -> bool {
        self.insert
    }

    closed spec fn results_view(&self) -> Seq<String> {
        self.results.items()
    }

    closed spec fn selected_view(&self) -> nat {
        self.results.index()
    }

    open spec fn search_config(&self) -> SearchSelectConfig {
        self.config_view()
    }

    fn query(&self) -> (q: &String) {
        &self.input
    }

    fn set_query(&mut self, query: String) {
        self.input = query;
    }

    /// The syntaxes that match the query, best first, at most `max_results` of them.
    fn search(&mut self)
        ensures
            string_views(final(self).results_view()) == fuzzy_find(
                old(self).query_view(),
                string_views(old(self).syntaxes_view()),
                old(self).config_view().max_results as nat,
            ),
            final(self).syntaxes_view() == old(self).syntaxes_view(),
            final(self).config_view() == old(self).config_view(),
    {
        let results = find_matches(self.input.as_str(), &self.syntaxes, self.config.max_results);
        self.results = SelectableVec::new(results);
    }

    fn insert_mode(&self) -> (b: bool) {
        self.insert
    }

    fn set_insert_mode(&mut self, insert_mode: bool) {
        self.insert = insert_mode;
    }

    fn results(&self) -> (r: &[String]) {
        self.results.as_slice()
    }

    fn selection(&self) -> (s: Option<&String>) {
        self.results.selection()
    }

    fn selected_index(&self) -> usize {
        self.results.selected_index()
    }

    fn select_previous(&mut self) {
        self.results.select_previous();
    }

    fn select_next(&mut self) {
        self.results.select_next();
    }

    fn config(&self) -> &SearchSelectConfig {
        &self.config
    }
}

/// Selects a colour theme by name.
pub struct ThemeMode {
    insert: bool,
    input: String,
    themes: Vec<String>,
    results: SelectableVec<String>,
    config: SearchSelectConfig,
}

impl ThemeMode {
    /// The theme names searched.
    pub closed spec fn themes_view(&self) -> Seq<String> {
        self.themes@
    }

    /// The settings in use.
    pub closed spec fn config_view(&self) -> SearchSelectConfig {
        self.config
    }

    pub fn new(config: SearchSelectConfig) -> (m: ThemeMode)
        ensures
            m.insert_view(),
            m.query_view() == Seq::<char>::empty(),
            m.themes_view() == Seq::<String>::empty(),
            m.results_view() == Seq::<String>::empty(),
            m.config_view() == config,
    {
        ThemeMode {
            insert: true,
            input: String::new(),
            themes: Vec::new(),
            results: SelectableVec::new(Vec::new()),
            config,
        }
    }

    /// Starts a new search over `themes`.
    pub fn reset(&mut self, themes: Vec<String>, config: SearchSelectConfig)
        ensures
            final(self).insert_view(),
            final(self).query_view() == Seq::<char>::empty(),
            final(self).themes_view() == themes@,
            final(self).results_view() == Seq::<String>::empty(),
            final(self).config_view() == config,
    {
        *self = ThemeMode {
            insert: true,
            input: String::new(),
            themes,
            results: SelectableVec::new(Vec::new()),
            config,
        };
    }
}

impl SearchSelectMode<String> for ThemeMode {
    closed spec fn query_view(&self) -> Seq<char> {
        self.input@
    }

    closed spec fn insert_view(&self) -> bool {
        self.insert
    }

    closed spec fn results_view(&self) -> Seq<String> {
        self.results.items()
    }

    closed spec fn selected_view(&self) -> nat {
        self.results.index()
    }

    open spec fn search_config(&self) -> SearchSelectConfig {
        self.config_view()
    }

    fn query(&self) -> (q: &String) {
        &self.input
    }

    fn set_query(&mut self, query: String) {
        self.input = query;
    }

    /// Without a query, the first `max_results` themes; otherwise the themes that
    /// match the query, best first, at most `max_results` of them.
    fn search(&mut self)
        ensures
            old(self).query_view().len() == 0 ==> final(self).results_view() == take_at_most(
                old(self).themes_view(),
                old(self).config_view().max_results as nat,
            ),
            old(self).query_view().len() > 0 ==> string_views(final(self).results_view())
                == fuzzy_find(
                old(self).query_view(),
                string_views(old(self).themes_view()),
                old(self).config_view().max_results as nat,
            ),
            final(self).themes_view() == old(self).themes_view(),
            final(self).config_view() == old(self).config_view(),
    {
        let results = if self.input.as_str().is_empty() {
            clone_first(&self.themes, self.config.max_results)
        } else {
            find_matches(self.input.as_str(), &self.themes, self.config.max_results)
        };
        self.results = SelectableVec::new(results);
    }

    fn insert_mode(&self) -> (b: bool) {
        self.insert
    }

    fn set_insert_mode(&mut self, insert_mode: bool) {
        self.insert = insert_mode;
    }

    fn results(&self) -> (r: &[String]) {
        self.results.as_slice()
    }

    fn selection(&self) -> (s: Option<&String>) {
        self.results.selection()
    }

    fn selected_index(&self) -> usize {
        self.results.selected_index()
    }

    fn select_previous(&mut self) {
        self.results.select_previous();
    }

    fn select_next(&mut self) {
        self.results.select_next();
    }

    fn config(&self) -> &SearchSelectConfig {
        &self.config
    }
}

/// A command made presentable in a search/select list by its description.
pub struct DisplayableCommand<C> {
    pub description: &'static str,
    pub command: C,
}

/// The position of the first command described by `d`.
pub open spec fn command_position<C>(commands: Seq<DisplayableCommand<C>>, d: Seq<char>) -> Option<int>
    decreases commands.len(),
{
    if commands.len() == 0 {
        None
    } else {
        match command_position(commands.drop_last(), d) {
            Some(i) => Some(i),
            None => if commands.last().description@ == d {
                Some(commands.len() - 1)
            } else {
                None
            },
        }
    }
}

/// The commands described by the entries of `found`, in order (entries that
/// describe no command are skipped).
pub open spec fn commands_for<C>(commands: Seq<DisplayableCommand<C>>, found: Seq<Seq<char>>) -> Seq<DisplayableCommand<C>>
    decreases found.len(),
{
    if found.len() == 0 {
        Seq::empty()
    } else {
        commands_for(commands, found.drop_last()) + match command_position(commands, found.last()) {
            Some(i) => seq![commands[i]],
            None => Seq::empty(),
        }
    }
}

/// The descriptions of the commands.
pub open spec fn descriptions<C>(commands: Seq<DisplayableCommand<C>>) -> Seq<Seq<char>> {
    commands.map_values(|c: DisplayableCommand<C>| c.description@)
}

/// The position of the first command described by `d`, by a scan of `commands`.
pub(crate) fn find_command<C>(commands: &Vec<DisplayableCommand<C>>, d: &String) -> (r: Option<usize>)
    ensures
        r matches Some(i) ==> command_position(commands@, d@) == Some(i as int) && i < commands@.len(),
        r is None ==> command_position(commands@, d@) is None,
{
    let mut i: usize = 0;
    while i < commands.len()
        invariant
            0 <= i <= commands@.len(),
            command_position(commands@.subrange(0, i as int), d@) is None,
        decreases commands@.len() - i,
    {
        let description = commands[i].description.to_owned();
        assert(commands@.subrange(0, i + 1).drop_last() =~= commands@.subrange(0, i as int));
        if description == *d {
            proof {
                lemma_command_position_prefix(commands@, d@, i + 1);
            }
            return Some(i);
        }
        i = i + 1;
    }
    assert(commands@.subrange(0, i as int) =~= commands@);
    None
}

proof fn lemma_command_position_prefix<C>(commands: Seq<DisplayableCommand<C>>, d: Seq<char>, n: int)
    requires
        0 <= n <= commands.len(),
        command_position(commands.subrange(0, n), d) is Some,
    ensures
        command_position(commands, d) == command_position(commands.subrange(0, n), d),
    decreases commands.len() - n,
{
    if n < commands.len() {
        assert(commands.subrange(0, n + 1).drop_last() =~= commands.subrange(0, n));
        lemma_command_position_prefix(commands, d, n + 1);
    } else {
        assert(commands.subrange(0, n) =~= commands);
    }
}

/// Runs an application command chosen by its description.
pub struct CommandMode<C> {
    insert: bool,
    input: String,
    commands: Vec<DisplayableCommand<C>>,
    results: SelectableVec<DisplayableCommand<C>>,
    config: SearchSelectConfig,
}

impl<C: Copy> CommandMode<C> {
    /// The commands searched.
    pub closed spec fn commands_view(&self) -> Seq<DisplayableCommand<C>> {
        self.commands@
    }

    /// The settings in use.
    pub closed spec fn config_view(&self) -> SearchSelectConfig {
        self.config
    }

    pub fn new(commands: Vec<DisplayableCommand<C>>, config: SearchSelectConfig) -> (m: CommandMode<C>)
        ensures
            m.insert_view(),
            m.query_view() == Seq::<char>::empty(),
            m.commands_view() == commands@,
            m.results_view() == Seq::<DisplayableCommand<C>>::empty(),
            m.config_view() == config,
    {
        CommandMode {
            insert: true,
            input: String::new(),
            commands,
            results: SelectableVec::new(Vec::new()),
            config,
        }
    }

    /// Clears the query and the results for a new search.
    pub fn reset(&mut self, config: SearchSelectConfig)
        ensures
            final(self).insert_view(),
            final(self).query_view() == Seq::<char>::empty(),
            final(self).commands_view() == old(self).commands_view(),
            final(self).results_view() == Seq::<DisplayableCommand<C>>::empty(),
            final(self).config_view() == config,
    {
        self.input = String::new();
        self.insert = true;
        self.results = SelectableVec::new(Vec::new());
        self.config = config;
    }
}

impl<C: Copy> SearchSelectMode<DisplayableCommand<C>> for CommandMode<C> {
    closed spec fn query_view(&self) -> Seq<char> {
        self.input@
    }

    closed spec fn insert_view(&self) -> bool {
        self.insert
    }

    closed spec fn results_view(&self) -> Seq<DisplayableCommand<C>> {
        self.results.items()
    }

    closed spec fn selected_view(&self) -> nat {
        self.results.index()
    }

    open spec fn search_config(&self) -> SearchSelectConfig {
        self.config_view()
    }

    fn query(&self) -> (q: &String) {
        &self.input
    }

    fn set_query(&mut self, query: String) {
        self.input = query;
    }

    /// The commands whose descriptions match the query, best first, at most
    /// `max_results` of them.
    fn search(&mut self)
        ensures
            final(self).results_view() == commands_for(
                old(self).commands_view(),
                fuzzy_find(
                    old(self).query_view(),
                    descriptions(old(self).commands_view()),
                    old(self).config_view().max_results as nat,
                ),
            ),
            final(self).commands_view() == old(self).commands_view(),
            final(self).config_view() == old(self).config_view(),
    {
        let mut names: Vec<String> = Vec::new();
        let mut i: usize = 0;
        while i < self.commands.len()
            invariant
                0 <= i <= self.commands@.len(),
                names@.len() == i,
                string_views(names@) == descriptions(self.commands@).subrange(0, i as int),
            decreases self.commands@.len() - i,
        {
            let ghost before = names@;
            let name = self.commands[i].description.to_owned();
            names.push(name);
            proof {
                assert forall|k: int| 0 <= k <= i implies #[trigger] string_views(names@)[k]
                    == descriptions(self.commands@)[k] by {
                    if k < i {
                        assert(names@[k] == before[k]);
                        assert(string_views(before)[k] == descriptions(self.commands@).subrange(0, i as int)[k]);
                    }
                }
            }
            i = i + 1;
            assert(string_views(names@) =~= descriptions(self.commands@).subrange(0, i as int));
        }
        assert(descriptions(self.commands@).subrange(0, i as int) =~= descriptions(self.commands@));
        let found = find_matches(self.input.as_str(), &names, self.config.max_results);
        let ghost found_views = string_views(found@);
        let mut results: Vec<DisplayableCommand<C>> = Vec::new();
        let mut j: usize = 0;
        assert(found_views.subrange(0, 0) =~= Seq::<Seq<char>>::empty());
        while j < found.len()
            invariant
                0 <= j <= found@.len(),
                found_views == string_views(found@),
                results@ == commands_for(self.commands@, found_views.subrange(0, j as int)),
            decreases found@.len() - j,
        {
            assert(found_views.subrange(0, j + 1).drop_last() =~= found_views.subrange(0, j as int));
            assert(found_views.subrange(0, j + 1).last() == found@[j as int]@);
            match find_command(&self.commands, &found[j]) {
                Some(k) => {
                    let c = DisplayableCommand {
                        description: self.commands[k].description,
                        command: self.commands[k].command,
                    };
                    results.push(c);
                    assert(results@ =~= commands_for(self.commands@, found_views.subrange(0, j + 1)));
                },
                None => {
                    assert(results@ =~= commands_for(self.commands@, found_views.subrange(0, j + 1)));
                },
            }
            j = j + 1;
        }
        assert(found_views.subrange(0, j as int) =~= found_views);
        self.results = SelectableVec::new(results);
    }

    fn insert_mode(&self) -> (b: bool) {
        self.insert
    }

    fn set_insert_mode(&mut self, insert_mode: bool) {
        self.insert = insert_mode;
    }

    fn results(&self) -> (r: &[DisplayableCommand<C>]) {
        self.results.as_slice()
    }

    fn selection(&self) -> (s: Option<&DisplayableCommand<C>>) {
        self.results.selection()
    }

    fn selected_index(&self) -> usize {
        self.results.selected_index()
    }

    fn select_previous(&mut self) {
        self.results.select_previous();
    }

    fn select_next(&mut self) {
        self.results.select_next();
    }

    fn config(&self) -> &SearchSelectConfig {
        &self.config
    }
}

} // verus!
