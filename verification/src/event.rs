//! The events that drive the application.

use vstd::prelude::*;

verus! {

/// An event for the application: a key press, a resize of the terminal, or the
/// completion of the file index that open mode searches.
#[derive(Debug, PartialEq)]
pub enum Event<K, I> {
    Key(K),
    Resize,
    OpenModeIndexComplete(I),
}

} // verus!
