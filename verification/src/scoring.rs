//! Standings: the ranked projection of player scores. Standings are derived
//! on demand and never persisted.

use vstd::prelude::*;

verus! {

/// An ordered list of score entries, best first.
#[derive(Debug)]
pub struct Standings<S> {
    pub scores: Vec<S>,
}

impl<S> View for Standings<S> {
    type V = Seq<S>;

    open spec fn view(&self) -> Seq<S> {
        self.scores@
    }
}

impl<S> Standings<S> {
    /// Wraps an already ranked list of entries.
    pub fn new(scores: Vec<S>) -> (r: Standings<S>)
        ensures
            r@ == scores@,
    {
        Standings { scores }
    }

    /// How many entries the standings hold.
    pub fn len(&self) -> (r: usize)
        ensures
            r == self@.len(),
    {
        self.scores.len()
    }
}

} // verus!
