//! Small shared helpers: the poison wrapper for output read too early, and
//! the error for a widget too small for its requested decoration.

use vstd::prelude::*;

verus! {

/// Returned when an interactive widget's output is taken before it is ready:
/// the wrapped value is the widget's current, uncommitted state.
#[derive(Debug)]
pub struct PoisonError<T> {
    value: T,
}

impl<T> PoisonError<T> {
    /// Wrap an uncommitted value.
    pub fn new(i: T) -> (r: PoisonError<T>)
        ensures
            r.spec_inner() == i,
    {
        PoisonError { value: i }
    }

    /// The wrapped value.
    pub closed spec fn spec_inner(&self) -> T {
        self.value
    }

    /// Take the wrapped value out.
    pub fn into_inner(self) -> (r: T)
        ensures
            r == self.spec_inner(),
    {
        self.value
    }

    /// Borrow the wrapped value.
    pub fn get_ref(&self) -> (r: &T)
        ensures
            *r == self.spec_inner(),
    {
        &self.value
    }

    /// Borrow the wrapped value mutably.
    pub fn get_mut(&mut self) -> (r: &mut T)
        ensures
            *r == old(self).spec_inner(),
            final(self).spec_inner() == *final(r),
    {
        &mut self.value
    }
}

/// A widget's geometry cannot take the requested decoration.
#[derive(Debug)]
pub struct ConstructionError;

/// The widest of the first `i` texts, counted in characters.
pub open spec fn widest_text(entries: Seq<&str>, i: int) -> int
    decreases i,
{
    if i <= 0 {
        0
    } else if entries[i - 1]@.len() > widest_text(entries, i - 1) {
        entries[i - 1]@.len() as int
    } else {
        widest_text(entries, i - 1)
    }
}

} // verus!
