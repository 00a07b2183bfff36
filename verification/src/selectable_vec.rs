//! A vector with a single selected element whose selection wraps around.

use vstd::prelude::*;
use crate::errors::AmpError;

verus! {

/// The index that follows `i` in a set of `len` elements, wrapping to the first.
pub open spec fn next_index(len: nat, i: nat) -> nat {
    if i + 1 < len {
        i + 1
    } else {
        0
    }
}

/// The index that precedes `i` in a set of `len` elements, wrapping to the last.
pub open spec fn previous_index(len: nat, i: nat) -> nat {
    if i > 0 {
        (i - 1) as nat
    } else {
        (len - 1) as nat
    }
}

/// A simple decorator around a Vec that allows a single element to be selected.
/// The selection can be incremented/decremented in single steps, and the
/// selected value wraps when moved beyond either edge of the set.
pub struct SelectableVec<T> {
    set: Vec<T>,
    selected_index: usize,
}

impl<T> SelectableVec<T> {
    /// The selected index points into the set, or is zero for an empty set.
    #[verifier::type_invariant]
    spec fn index_in_bounds(self) -> bool {
        self.selected_index < self.set.len() || (self.set.len() == 0 && self.selected_index == 0)
    }

    /// The elements of the set, in order.
    pub closed spec fn items(&self) -> Seq<T> {
        self.set@
    }

    /// The index of the selected element.
    pub closed spec fn index(&self) -> nat {
        self.selected_index as nat
    }

    pub fn new(set: Vec<T>) -> (v: SelectableVec<T>)
        ensures
            v.items() == set@,
            v.index() == 0,
    {
        SelectableVec { set, selected_index: 0 }
    }

    /// Selects the element at `index`, refusing indices outside the set.
    pub fn set_selected_index(&mut self, index: usize) -> (r: Result<(), AmpError>)
        ensures
            final(self).items() == old(self).items(),
            index < old(self).items().len() ==> r is Ok && final(self).index() == index,
            index >= old(self).items().len() ==> r == Err::<(), AmpError>(
                AmpError::SelectedIndexOutOfRange,
            ) && final(self).index() == old(self).index(),
    {
        if index >= self.set.len() {
            return Err(AmpError::SelectedIndexOutOfRange);
        }
        self.selected_index = index;
        Ok(())
    }

    /// The index of the selected element: within the set, or zero for an empty set.
    pub fn selected_index(&self) -> (i: usize)
        ensures
            i == self.index(),
            i < self.items().len() || (self.items().len() == 0 && i == 0),
    {
        proof {
            use_type_invariant(self);
        }
        self.selected_index
    }

    /// The selected element, or `None` when the set is empty.
    pub fn selection(&self) -> (s: Option<&T>)
        ensures
            self.items().len() == 0 ==> s is None,
            self.items().len() > 0 ==> self.index() < self.items().len() && s == Some(
                &self.items()[self.index() as int],
            ),
    {
        proof {
            use_type_invariant(self);
        }
        if self.selected_index < self.set.len() {
            Some(&self.set[self.selected_index])
        } else {
            None
        }
    }

    /// Moves the selection one step back, wrapping to the last element.
    pub fn select_previous(&mut self)
        requires
            old(self).items().len() > 0,
        ensures
            final(self).items() == old(self).items(),
            final(self).index() == previous_index(old(self).items().len(), old(self).index()),
    {
        proof {
            use_type_invariant(&*self);
        }
        if self.selected_index > 0 {
            self.selected_index = self.selected_index - 1;
        } else {
            self.selected_index = self.set.len() - 1;
        }
    }

    /// Moves the selection one step forward, wrapping to the first element.
    pub fn select_next(&mut self)
        requires
            old(self).items().len() > 0,
        ensures
            final(self).items() == old(self).items(),
            final(self).index() == next_index(old(self).items().len(), old(self).index()),
    {
        proof {
            use_type_invariant(&*self);
        }
        if self.selected_index < self.set.len() - 1 {
            self.selected_index = self.selected_index + 1;
        } else {
            self.selected_index = 0;
        }
    }

    /// The number of elements in the set.
    pub fn len(&self) -> (n: usize)
        ensures
            n == self.items().len(),
    {
        self.set.len()
    }

    /// The element at `index`, if there is one.
    pub fn get(&self, index: usize) -> (e: Option<&T>)
        ensures
            index < self.items().len() ==> e == Some(&self.items()[index as int]),
            index >= self.items().len() ==> e is None,
    {
        if index < self.set.len() {
            Some(&self.set[index])
        } else {
            None
        }
    }

    /// Read access to the elements.
    pub fn as_slice(&self) -> (s: &[T])
        ensures
            s@ == self.items(),
    {
        self.set.as_slice()
    }
}

/// Stepping forward and then back over a non-empty set restores the selection, and so
/// does stepping back and then forward.
pub proof fn law_next_and_previous_are_inverse(len: nat, i: nat)
    requires
        i < len,
    ensures
        previous_index(len, next_index(len, i)) == i,
        next_index(len, previous_index(len, i)) == i,
        next_index(len, i) < len,
        previous_index(len, i) < len,
{
}

/// Stepping forward `len` times over a set of `len` elements returns to the start.
pub proof fn law_next_cycles(len: nat, i: nat, steps: nat)
    requires
        i < len,
        steps <= len,
    ensures
        steps_forward(len, i, steps) == (if i + steps < len { (i + steps) as int } else { i + steps - len }),
    decreases steps,
{
    if steps > 0 {
        law_next_cycles(len, i, (steps - 1) as nat);
    }
}

/// The index reached by `steps` forward moves from `i`.
pub open spec fn steps_forward(len: nat, i: nat, steps: nat) -> nat
    decreases steps,
{
    if steps == 0 {
        i
    } else {
        next_index(len, steps_forward(len, i, (steps - 1) as nat))
    }
}

} // verus!
