//! Jumping to a symbol (a function, class or struct name) of the current buffer.

use vstd::prelude::*;
use crate::matching::{find_matches, fuzzy_find, match_positions, matched_positions};
use crate::modes::Position;
use crate::search_select::{SearchSelectConfig, SearchSelectMode};
use crate::selectable_vec::SelectableVec;
use crate::text::string_views;

verus! {

/// A symbol of a buffer: its text and where it starts.
#[derive(Clone, Debug, PartialEq)]
pub struct Symbol {
    pub token: String,
    pub position: Position,
}

impl View for Symbol {
    type V = (Seq<char>, Position);

    open spec fn view(&self) -> (Seq<char>, Position) {
        (self.token@, self.position)
    }
}

/// The values of a sequence of symbols.
pub open spec fn symbol_views(ss: Seq<Symbol>) -> Seq<(Seq<char>, Position)> {
    ss.map_values(|s: Symbol| s@)
}

/// The texts of a sequence of symbols.
pub open spec fn symbol_tokens(ss: Seq<Symbol>) -> Seq<Seq<char>> {
    ss.map_values(|s: Symbol| s.token@)
}

/// The symbols at the positions that the matched texts `found` stand for (see
/// `matched_positions`).
pub open spec fn symbols_for(ss: Seq<Symbol>, found: Seq<Seq<char>>) -> Seq<(Seq<char>, Position)> {
    matched_positions(symbol_tokens(ss), found).map_values(|i: int| ss[i]@)
}

fn copy_symbol(s: &Symbol) -> (r: Symbol)
    ensures
        r@ == s@,
{
    Symbol { token: s.token.clone(), position: s.position }
}

/// Searches the symbols of the current buffer.
pub struct SymbolJumpMode {
    insert: bool,
    input: String,
    symbols: Vec<Symbol>,
    results: SelectableVec<Symbol>,
    config: SearchSelectConfig,
}

impl SymbolJumpMode {
    /// The symbols searched.
    pub closed spec fn symbols_view(&self) -> Seq<Symbol> {
        self.symbols@
    }

    /// The settings in use.
    pub closed spec fn config_view(&self) -> SearchSelectConfig {
        self.config
    }

    /// A search over `symbols` (the buffer's function, class and struct names).
    pub fn new(symbols: Vec<Symbol>, config: SearchSelectConfig) -> (m: SymbolJumpMode)
        ensures
            m.insert_view(),
            m.query_view() == Seq::<char>::empty(),
            m.symbols_view() == symbols@,
            m.results_view() == Seq::<Symbol>::empty(),
            m.config_view() == config,
    {
        SymbolJumpMode {
            insert: true,
            input: String::new(),
            symbols,
            results: SelectableVec::new(Vec::new()),
            config,
        }
    }
}

impl SearchSelectMode<Symbol> for SymbolJumpMode {
    closed spec fn query_view(&self) -> Seq<char> {
        self.input@
    }

    closed spec fn insert_view(&self) -> bool {
        self.insert
    }

    closed spec fn results_view(&self) -> Seq<Symbol> {
        self.results.items()
    }

    closed spec fn selected_view(&self) -> nat {
        self.results.index()
    }

    open spec fn search_config(&self) -> SearchSelectConfig {
        self.config_view()
    }

    fn query(&self) -> (q: &String) {
        &self.input
    }

    fn set_query(&mut self, query: String) {
        self.input = query;
    }

    /// The symbols whose text matches the query, best first, at most
    /// `max_results` of them.
    fn search(&mut self)
        ensures
            symbol_views(final(self).results_view()) == symbols_for(
                old(self).symbols_view(),
                fuzzy_find(
                    old(self).query_view(),
                    symbol_tokens(old(self).symbols_view()),
                    old(self).config_view().max_results as nat,
                ),
            ),
            final(self).symbols_view() == old(self).symbols_view(),
            final(self).config_view() == old(self).config_view(),
    {
        let ghost ss = self.symbols@;
        let mut tokens: Vec<String> = Vec::new();
        let mut i: usize = 0;
        while i < self.symbols.len()
            invariant
                0 <= i <= ss.len(),
                ss == self.symbols@,
                tokens@.len() == i,
                string_views(tokens@) == symbol_tokens(ss).subrange(0, i as int),
            decreases ss.len() - i,
        {
            let ghost before = tokens@;
            tokens.push(self.symbols[i].token.clone());
            assert(string_views(tokens@) =~= symbol_tokens(ss).subrange(0, i as int + 1)) by {
                assert forall|k: int| 0 <= k < i + 1 implies #[trigger] string_views(tokens@)[k]
                    == symbol_tokens(ss).subrange(0, i as int + 1)[k] by {
                    if k < i {
                        assert(tokens@[k] == before[k]);
                        assert(string_views(before)[k] == symbol_tokens(ss).subrange(0, i as int)[k]);
                    }
                }
            }
            i = i + 1;
        }
        assert(symbol_tokens(ss).subrange(0, i as int) =~= symbol_tokens(ss));
        let found = find_matches(self.input.as_str(), &tokens, self.config.max_results);
        let positions = match_positions(&tokens, &found);
        let ghost ps = matched_positions(symbol_tokens(ss), string_views(found@));
        let mut results: Vec<Symbol> = Vec::new();
        let mut j: usize = 0;
        while j < positions.len()
            invariant
                0 <= j <= positions@.len(),
                ss == self.symbols@,
                tokens@.len() == ss.len(),
                positions@.len() == ps.len(),
                forall|k: int| 0 <= k < positions@.len() ==> #[trigger] positions@[k] as int == ps[k]
                    && positions@[k] < tokens@.len(),
                results@.len() == j,
                forall|k: int| 0 <= k < j ==> (#[trigger] results@[k])@ == ss[ps[k]]@,
            decreases positions@.len() - j,
        {
            let p = positions[j];
            results.push(copy_symbol(&self.symbols[p]));
            j = j + 1;
        }
        assert(symbol_views(results@) =~= symbols_for(ss, string_views(found@)));
        self.results = SelectableVec::new(results);
    }

    fn insert_mode(&self) -> (b: bool) {
        self.insert
    }

    fn set_insert_mode(&mut self, insert_mode: bool) {
        self.insert = insert_mode;
    }

    fn results(&self) -> (r: &[Symbol]) {
        self.results.as_slice()
    }

    fn selection(&self) -> (s: Option<&Symbol>) {
        self.results.selection()
    }

    fn selected_index(&self) -> usize {
        self.results.selected_index()
    }

    fn select_previous(&mut self) {
        self.results.select_previous();
    }

    fn select_next(&mut self) {
        self.results.select_next();
    }

    fn config(&self) -> &SearchSelectConfig {
        &self.config
    }
}

} // verus!
