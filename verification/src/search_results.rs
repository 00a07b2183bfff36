//! Stepping through the matches of a search.

use vstd::prelude::*;
use crate::modes::Position;

verus! {

/// The index of the match after `n` among `len` matches, wrapping to the first.
pub open spec fn next_result(len: nat, n: nat) -> nat {
    if n + 1 < len {
        n + 1
    } else {
        0
    }
}

/// The index of the match before `n` among `len` matches, wrapping to the last.
pub open spec fn previous_result(len: nat, n: nat) -> nat {
    if n == 0 {
        (len - 1) as nat
    } else {
        (n - 1) as nat
    }
}

/// Steps through the positions of a search's matches.
pub struct SearchResultsMode {
    results: Vec<Position>,
    current_result_index: Option<usize>,
}

impl SearchResultsMode {
    /// A current match exists exactly when there are matches, and it is one of them.
    #[verifier::type_invariant]
    spec fn current_in_results(&self) -> bool {
        &&& self.results@.len() == 0 <==> self.current_result_index is None
        &&& self.current_result_index matches Some(i) ==> i < self.results@.len()
    }

    /// The matches.
    pub closed spec fn results_view(&self) -> Seq<Position> {
        self.results@
    }

    /// The index of the current match, if there are any.
    pub closed spec fn current_view(&self) -> Option<nat> {
        match self.current_result_index {
            Some(i) => Some(i as nat),
            None => None,
        }
    }

    /// The current match, if there are any matches.
    pub fn current_result(&self) -> (p: Option<Position>)
        ensures
            self.results_view().len() == 0 ==> p is None,
            self.results_view().len() > 0 ==> (self.current_view() matches Some(i) && i
                < self.results_view().len() && p == Some(self.results_view()[i as int])),
    {
        proof {
            use_type_invariant(self);
        }
        match self.current_result_index {
            Some(i) => Some(self.results[i]),
            None => None,
        }
    }

    /// Moves to the next match, wrapping to the first.
    pub fn select_next_result(&mut self)
        ensures
            final(self).results_view() == old(self).results_view(),
            final(self).current_view() == (match old(self).current_view() {
                Some(n) => Some(next_result(old(self).results_view().len(), n)),
                None => None,
            }),
    {
        proof {
            use_type_invariant(&*self);
        }
        self.current_result_index = match self.current_result_index {
            Some(n) => {
                if n < self.results.len() - 1 {
                    Some(n + 1)
                } else {
                    Some(0)
                }
            },
            None => None,
        }
    }

    /// Moves to the previous match, wrapping to the last.
    pub fn select_previous_result(&mut self)
        ensures
            final(self).results_view() == old(self).results_view(),
            final(self).current_view() == (match old(self).current_view() {
                Some(n) => Some(previous_result(old(self).results_view().len(), n)),
                None => None,
            }),
    {
        proof {
            use_type_invariant(&*self);
        }
        self.current_result_index = match self.current_result_index {
            Some(0) => Some(self.results.len() - 1),
            Some(n) => Some(n - 1),
            None => None,
        }
    }
}

/// A results mode over `results`, starting at the first match.
pub fn new(results: Vec<Position>) -> (m: SearchResultsMode)
    ensures
        m.results_view() == results@,
        m.current_view() == (if results@.len() > 0 {
            Some(0nat)
        } else {
            None
        }),
{
    let index = if results.len() == 0 {
        None
    } else {
        Some(0)
    };
    SearchResultsMode { results, current_result_index: index }
}

/// Moving to the next match and back to the previous one returns to where it
/// started, and so does moving back and then forward.
pub proof fn law_next_and_previous_result_are_inverse(len: nat, n: nat)
    requires
        n < len,
    ensures
        previous_result(len, next_result(len, n)) == n,
        next_result(len, previous_result(len, n)) == n,
        next_result(len, n) < len,
        previous_result(len, n) < len,
{
}

} // verus!
