//! The capability every reversible mutation implements.
use vstd::prelude::*;

verus! {

/// A self-contained reversible mutation of a shared store.
///
/// `apply` performs the forward effect and `undo` the reverse effect; both may
/// also rewrite the action value itself, so that the data needed to reverse an
/// effect (for example a value swapped out of the store) travels with the
/// action.  The two spec functions give the exact transition each method
/// performs on the pair of store and action value; every implementation states
/// its behaviour by defining them.
///
/// Whether `undo` truly inverts `apply` is the implementor's responsibility;
/// the engine's round-trip guarantees are proved under that hypothesis (see
/// [`crate::laws`]).
pub trait Action: Sized {
    /// The shared state this action mutates.
    type Store;

    /// The transition `apply` performs: from a store and an action value to
    /// the mutated store and the mutated action value.
    spec fn applied(s: Self::Store, a: Self) -> (Self::Store, Self);

    /// The transition `undo` performs, in the same form.
    spec fn undone(s: Self::Store, a: Self) -> (Self::Store, Self);

    /// Perform the forward effect on `store`.
    fn apply(&mut self, store: &mut Self::Store)
        ensures
            (*final(store), *final(self)) == Self::applied(*old(store), *old(self)),
    ;

    /// Reverse the most recent `apply`.
    fn undo(&mut self, store: &mut Self::Store)
        ensures
            (*final(store), *final(self)) == Self::undone(*old(store), *old(self)),
    ;
}

/// The hypothesis under which the engine's round-trip laws hold: undoing the
/// outcome of any `apply` restores the store that `apply` started from.
pub open spec fn undo_inverts<A: Action>() -> bool {
    forall|s: A::Store, a: A|
        (#[trigger] A::undone(A::applied(s, a).0, A::applied(s, a).1)).0 == s
}

} // verus!
