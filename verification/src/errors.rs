//! Errors reported by the editor's library functions.

use vstd::prelude::*;

verus! {

/// The reasons a library operation can be refused.
#[derive(Debug, Clone, Copy, PartialEq, Eq, Structural)]
pub enum AmpError {
    /// A selection index lies outside the selectable set.
    SelectedIndexOutOfRange,
    /// A search was asked for without a query.
    SearchQueryMissing,
}

} // verus!
