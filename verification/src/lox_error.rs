//! A list of accumulated diagnostics of one family. Scanning and parsing
//! never stop at the first fault: they collect every diagnostic of their
//! own kind and hand the whole list back.

use vstd::prelude::*;

verus! {

/// The diagnostics of one pass, in the order they were found.
#[derive(Clone, Debug)]
pub struct Errors<E> {
    pub items: Vec<E>,
}

impl<E> Errors<E> {
    /// Wraps an accumulated list.
    pub fn from_vec(items: Vec<E>) -> (r: Self)
        ensures
            r.items == items,
    {
        Errors { items }
    }

    /// How many diagnostics were collected.
    pub fn len(&self) -> (r: usize)
        ensures
            r == self.items@.len(),
    {
        self.items.len()
    }

    /// Whether no diagnostic was collected.
    pub fn is_empty(&self) -> (r: bool)
        ensures
            r == (self.items@.len() == 0),
    {
        self.items.len() == 0
    }
}

} // verus!
