//! The query/results behaviour shared by the editor's search-and-select modes.

use vstd::prelude::*;
use crate::selectable_vec::{next_index, previous_index};
use crate::text::{chars_of, is_whitespace, spec_is_whitespace, string_from_chars, string_push};

verus! {

/// Settings shared by the search/select modes.
#[derive(Clone)]
pub struct SearchSelectConfig {
    pub max_results: usize,
}

/// The number of results shown when no other number is configured.
pub const DEFAULT_MAX_RESULTS: usize = 5;

impl Default for SearchSelectConfig {
    fn default() -> (c: SearchSelectConfig)
        ensures
            c.max_results == DEFAULT_MAX_RESULTS,
    {
        SearchSelectConfig { max_results: DEFAULT_MAX_RESULTS }
    }
}

/// The position up to which `pop_search_token` keeps the query: the start of the last
/// run of whitespace or non-whitespace characters (a query is taken to be preceded by
/// whitespace).
pub open spec fn token_boundary(q: Seq<char>) -> int
    decreases q.len(),
{
    if q.len() == 0 {
        0
    } else {
        let i = q.len() - 1;
        let previous_is_whitespace = if i == 0 {
            true
        } else {
            spec_is_whitespace(q[i - 1])
        };
        if spec_is_whitespace(q[i]) != previous_is_whitespace {
            i
        } else {
            token_boundary(q.drop_last())
        }
    }
}

/// The query left after removing its last token.
pub open spec fn without_last_token(q: Seq<char>) -> Seq<char> {
    q.subrange(0, token_boundary(q))
}

pub proof fn lemma_token_boundary_bounds(q: Seq<char>)
    ensures
        0 <= token_boundary(q) <= q.len(),
        q.len() > 0 ==> token_boundary(q) < q.len(),
    decreases q.len(),
{
    if q.len() > 0 {
        lemma_token_boundary_bounds(q.drop_last());
    }
}

/// The query without its last token (a run of whitespace or of other characters).
pub fn pop_token(query: &String) -> (r: String)
    ensures
        r@ == without_last_token(query@),
{
    let q = chars_of(query.as_str());
    let mut boundary: usize = 0;
    let mut was_whitespace = true;
    let mut i: usize = 0;
    assert(q@.subrange(0, 0) =~= Seq::<char>::empty());
    while i < q.len()
        invariant
            0 <= i <= q@.len(),
            boundary as int == token_boundary(q@.subrange(0, i as int)),
            boundary <= i,
            i > 0 ==> was_whitespace == spec_is_whitespace(q@[i - 1]),
            i == 0 ==> was_whitespace,
        decreases q@.len() - i,
    {
        let ws = is_whitespace(q[i]);
        assert(q@.subrange(0, i + 1).drop_last() =~= q@.subrange(0, i as int));
        if ws != was_whitespace {
            boundary = i;
        }
        was_whitespace = ws;
        i = i + 1;
    }
    assert(q@.subrange(0, i as int) =~= q@);
    let mut kept: Vec<char> = Vec::new();
    let mut j: usize = 0;
    while j < boundary
        invariant
            0 <= j <= boundary <= q@.len(),
            kept@ == q@.subrange(0, j as int),
        decreases boundary - j,
    {
        kept.push(q[j]);
        j = j + 1;
        assert(kept@ =~= q@.subrange(0, j as int));
    }
    string_from_chars(&kept)
}

/// The prompt shown for a query and its number of results.
pub open spec fn search_message(query: Seq<char>, result_count: nat) -> Option<Seq<char>> {
    if query.len() == 0 {
        Some("Enter a search query to start."@)
    } else if result_count == 0 {
        Some("No matching entries found."@)
    } else {
        None
    }
}

/// The prompt for a query and its number of results.
pub fn message_for(query: &String, result_count: usize) -> (m: Option<String>)
    ensures
        m is None <==> search_message(query@, result_count as nat) is None,
        m matches Some(x) ==> search_message(query@, result_count as nat) == Some(x@),
{
    if query.as_str().is_empty() {
        Some(String::from_str("Enter a search query to start."))
    } else if result_count == 0 {
        Some(String::from_str("No matching entries found."))
    } else {
        None
    }
}

/// A mode that searches a collection with a typed query and lets the user select one
/// of the results.
pub trait SearchSelectMode<T> {
    /// The query typed so far.
    spec fn query_view(&self) -> Seq<char>;

    /// Whether the query is being edited.
    spec fn insert_view(&self) -> bool;

    /// The current results.
    spec fn results_view(&self) -> Seq<T>;

    /// The index of the selected result.
    spec fn selected_view(&self) -> nat;

    /// The settings the mode searches with.
    spec fn search_config(&self) -> SearchSelectConfig;

    fn query(&self) -> (q: &String)
        ensures
            q@ == self.query_view(),
    ;

    /// Replaces the query, leaving the results and the insert flag as they are.
    fn set_query(&mut self, query: String)
        ensures
            final(self).query_view() == query@,
            final(self).insert_view() == old(self).insert_view(),
            final(self).results_view() == old(self).results_view(),
    ;

    /// Refreshes the results for the current query.
    fn search(&mut self)
        ensures
            final(self).query_view() == old(self).query_view(),
            final(self).insert_view() == old(self).insert_view(),
    ;

    fn insert_mode(&self) -> (b: bool)
        ensures
            b == self.insert_view(),
    ;

    fn set_insert_mode(&mut self, insert_mode: bool)
        ensures
            final(self).insert_view() == insert_mode,
            final(self).query_view() == old(self).query_view(),
            final(self).results_view() == old(self).results_view(),
    ;

    fn results(&self) -> (r: &[T])
        ensures
            r@ == self.results_view(),
    ;

    /// The selected result, or `None` when there are no results.
    fn selection(&self) -> (s: Option<&T>)
        ensures
            self.results_view().len() == 0 ==> s is None,
            self.results_view().len() > 0 ==> self.selected_view() < self.results_view().len() && s
                == Some(&self.results_view()[self.selected_view() as int]),
    ;

    /// The index of the selected result: within the results, or zero when there
    /// are none.
    fn selected_index(&self) -> (i: usize)
        ensures
            i == self.selected_view(),
            i < self.results_view().len() || (self.results_view().len() == 0 && i == 0),
    ;

    /// Moves the selection one step back, wrapping to the last result.
    fn select_previous(&mut self)
        requires
            old(self).results_view().len() > 0,
        ensures
            final(self).query_view() == old(self).query_view(),
            final(self).insert_view() == old(self).insert_view(),
            final(self).results_view() == old(self).results_view(),
            final(self).selected_view() == previous_index(
                old(self).results_view().len(),
                old(self).selected_view(),
            ),
            final(self).search_config() == old(self).search_config(),
    ;

    /// Moves the selection one step forward, wrapping to the first result.
    fn select_next(&mut self)
        requires
            old(self).results_view().len() > 0,
        ensures
            final(self).query_view() == old(self).query_view(),
            final(self).insert_view() == old(self).insert_view(),
            final(self).results_view() == old(self).results_view(),
            final(self).selected_view() == next_index(old(self).results_view().len(), old(self).selected_view()),
            final(self).search_config() == old(self).search_config(),
    ;

    /// The settings the mode searches with.
    fn config(&self) -> (c: &SearchSelectConfig)
        ensures
            *c == self.search_config(),
    ;

    /// A prompt for the user: a request for a query while it is empty, or a notice
    /// that nothing matched.
    fn message(&self) -> (m: Option<String>)
        ensures
            m is None <==> search_message(self.query_view(), self.results_view().len()) is None,
            m matches Some(x) ==> search_message(self.query_view(), self.results_view().len())
                == Some(x@),
    {
        let count = self.results().len();
        message_for(self.query(), count)
    }

    /// Appends a character to the query.
    fn push_search_char(&mut self, c: char)
        ensures
            final(self).query_view() == old(self).query_view().push(c),
            final(self).insert_view() == old(self).insert_view(),
            final(self).results_view() == old(self).results_view(),
    {
        let mut q = self.query().clone();
        string_push(&mut q, c);
        self.set_query(q);
    }

    /// Removes the query's last token: its trailing run of whitespace, or of other
    /// characters.
    fn pop_search_token(&mut self)
        ensures
            final(self).query_view() == without_last_token(old(self).query_view()),
            final(self).insert_view() == old(self).insert_view(),
            final(self).results_view() == old(self).results_view(),
    {
        let q = pop_token(self.query());
        self.set_query(q);
    }
}

} // verus!
