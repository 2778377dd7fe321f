//! Containers that are filled exactly once during start-up.

use vstd::prelude::*;

verus! {

/// A slot filled once; reading before, or filling twice, is a caller error.
pub struct OnceCell<T> {
    value: Option<T>,
}

impl<T> OnceCell<T> {
    /// The value held, if filled.
    pub closed spec fn spec_value(&self) -> Option<T> {
        self.value
    }

    /// An empty cell.
    pub fn new() -> (r: OnceCell<T>)
        ensures
            r.spec_value().is_none(),
    {
        OnceCell { value: None }
    }

    /// Whether the cell has been filled.
    pub fn is_initialized(&self) -> (r: bool)
        ensures
            r == self.spec_value().is_some(),
    {
        self.value.is_some()
    }

    /// Fills the cell.
    pub fn init(&mut self, value: T)
        requires
            old(self).spec_value().is_none(),
        ensures
            final(self).spec_value() == Some(value),
    {
        self.value = Some(value);
    }

    /// The value held.
    pub fn get(&self) -> (r: &T)
        requires
            self.spec_value().is_some(),
        ensures
            *r == self.spec_value().unwrap(),
    {
        self.value.as_ref().unwrap()
    }
}

/// A slot filled once at start-up and then used in place.
pub struct StaticCell<T> {
    value: Option<T>,
}

impl<T> StaticCell<T> {
    /// The value held, if filled.
    pub closed spec fn spec_value(&self) -> Option<T> {
        self.value
    }

    /// An empty cell.
    pub fn new() -> (r: StaticCell<T>)
        ensures
            r.spec_value().is_none(),
    {
        StaticCell { value: None }
    }

    /// Fills the cell.
    pub fn init(&mut self, value: T)
        requires
            old(self).spec_value().is_none(),
        ensures
            final(self).spec_value() == Some(value),
    {
        self.value = Some(value);
    }

    /// The value held.
    pub fn get(&self) -> (r: &T)
        requires
            self.spec_value().is_some(),
        ensures
            *r == self.spec_value().unwrap(),
    {
        self.value.as_ref().unwrap()
    }
}

} // verus!
