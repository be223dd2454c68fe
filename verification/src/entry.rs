//! The record attached to each history entry: the action value together with
//! its dispatch methods.
use vstd::prelude::*;
use crate::action::Action;

verus! {

/// One history entry's payload: the action value as it stood after its most
/// recent `apply` or `undo`, with the dispatch that reverses or replays it.
///
/// Dispatch is bound to the concrete action type by the type parameter, so an
/// open set of action types is served by instantiating the engine (typically
/// with an enum covering the application's actions).
#[derive(Debug, Clone)]
pub struct HistoryItem<A> {
    action: A,
}

impl<A> View for HistoryItem<A> {
    type V = A;

    closed spec fn view(&self) -> A {
        self.action
    }
}

impl<A: Action> HistoryItem<A> {
    /// Bind a freshly performed action value into an entry record.
    pub fn new(action: A) -> (r: Self)
        ensures
            r@ == action,
    {
        HistoryItem { action }
    }

    /// Reverse this entry's action against `store`, keeping the mutated
    /// action value for a later redo.
    pub fn undo(&mut self, store: &mut A::Store)
        ensures
            (*final(store), final(self)@) == A::undone(*old(store), old(self)@),
    {
        self.action.undo(store);
    }

    /// Replay this entry's action against `store`, keeping the mutated
    /// action value for a later undo.
    pub fn redo(&mut self, store: &mut A::Store)
        ensures
            (*final(store), final(self)@) == A::applied(*old(store), old(self)@),
    {
        self.action.apply(store);
    }

    /// The action value as it currently stands.
    pub fn action(&self) -> (r: &A)
        ensures
            *r == self@,
    {
        &self.action
    }

    /// Give the action value up, consuming the entry record.
    pub fn into_action(self) -> (r: A)
        ensures
            r == self@,
    {
        self.action
    }
}

} // verus!
