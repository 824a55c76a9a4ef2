//! Places: the stable identifiers of arena slots.

use vstd::prelude::*;

verus! {

/// The identifier of one variable or constant slot of an arena. A place is an
/// index into the arena's backing store, never a reference to it.
#[derive(Clone, Copy, Debug, PartialEq, Eq, Hash, Structural)]
pub struct Place {
    index: usize,
}

impl View for Place {
    type V = nat;

    /// The position of the slot in its arena.
    closed spec fn view(&self) -> nat {
        self.index as nat
    }
}

impl Place {
    /// The place of the slot at position `n`.
    pub closed spec fn at(n: nat) -> Place {
        Place { index: n as usize }
    }

    /// Places are the same exactly when they name the same position.
    pub broadcast proof fn lemma_view_injective(a: Place, b: Place)
        ensures
            (#[trigger] a@ == #[trigger] b@) <==> a == b,
    {
    }

    /// `at` and the view are inverse to each other on machine-sized positions.
    pub broadcast proof fn lemma_at_view(n: nat)
        requires
            n <= usize::MAX,
        ensures
            (#[trigger] Place::at(n))@ == n,
    {
    }

    /// A place is the one at its own position.
    pub broadcast proof fn lemma_view_at(p: Place)
        ensures
            #[trigger] Place::at(p@) == p,
            p@ <= usize::MAX,
    {
    }

    /// The place of the slot at position `index`.
    pub fn new(index: usize) -> (p: Place)
        ensures
            p@ == index,
            p == Place::at(index as nat),
    {
        Place { index }
    }

    /// The position of the slot in its arena.
    pub fn index(&self) -> (i: usize)
        ensures
            i == self@,
    {
        self.index
    }
}

} // verus!
