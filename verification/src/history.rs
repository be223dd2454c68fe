//! The ordered record of performed actions and its past/future cursor.
use vstd::prelude::*;
use std::collections::VecDeque;

verus! {

/// An opaque, stable reference to an entry held by the engine's entry
/// storage.  The history stores these handles; only the entry storage can
/// resolve one to an action value.
#[derive(Clone, Copy, PartialEq, Eq, Structural, Debug)]
pub struct EntryId(pub usize);

/// The mathematical view of a [`History`]: the handle sequence and the cursor.
pub struct HistoryView {
    pub items: Seq<EntryId>,
    pub index: int,
}

/// An ordered sequence of entry handles (oldest first) together with a cursor
/// splitting it into past (`items[..index]`) and future (`items[index..]`).
#[derive(Debug, Clone)]
pub struct History {
    pub items: VecDeque<EntryId>,
    pub index: usize,
}

impl View for History {
    type V = HistoryView;

    open spec fn view(&self) -> HistoryView {
        HistoryView { items: self.items@, index: self.index as int }
    }
}

impl HistoryView {
    /// The cursor always lies between the two ends of the sequence.
    pub open spec fn wf(self) -> bool {
        0 <= self.index <= self.items.len()
    }

    /// The handles of entries already applied, oldest first.
    pub open spec fn past(self) -> Seq<EntryId> {
        self.items.subrange(0, self.index)
    }

    /// The handles of entries waiting to be redone, earliest first.
    pub open spec fn future(self) -> Seq<EntryId> {
        self.items.subrange(self.index, self.items.len() as int)
    }

    /// The transition `back` performs, with the handle it yields.
    pub open spec fn spec_back(self) -> (HistoryView, Option<EntryId>) {
        if self.index > 0 {
            (HistoryView { items: self.items, index: self.index - 1 }, Some(self.items[self.index - 1]))
        } else {
            (self, None::<EntryId>)
        }
    }

    /// The transition `forward` performs, with the handle it yields.
    pub open spec fn spec_forward(self) -> (HistoryView, Option<EntryId>) {
        if self.index < self.items.len() {
            (HistoryView { items: self.items, index: self.index + 1 }, Some(self.items[self.index]))
        } else {
            (self, None::<EntryId>)
        }
    }

    /// The transition `push` performs, with the discarded future handles.
    pub open spec fn spec_push(self, entry: EntryId) -> (HistoryView, Seq<EntryId>) {
        (
            HistoryView { items: self.past().push(entry), index: self.index + 1 },
            self.future(),
        )
    }
}

impl History {
    /// A history whose past is exactly `past`, with nothing left to redo.
    pub fn new(past: Vec<EntryId>) -> (r: History)
        ensures
            r@.items == past@,
            r@.index == past@.len(),
    {
        let mut items: VecDeque<EntryId> = VecDeque::new();
        let n = past.len();
        let mut i: usize = 0;
        while i < n
            invariant
                i <= n,
                n == past@.len(),
                items@ == past@.subrange(0, i as int),
            decreases n - i,
        {
            items.push_back(past[i]);
            proof {
                assert(items@ =~= past@.subrange(0, i + 1));
            }
            i += 1;
        }
        proof {
            assert(items@ =~= past@);
        }
        History { index: items.len(), items }
    }

    /// Go back one step, returning the handle of the entry that thereby moved
    /// from the past into the future; none exactly when the cursor is at the
    /// start.
    pub fn back(&mut self) -> (r: Option<EntryId>)
        requires
            old(self)@.wf(),
        ensures
            (final(self)@, r) == old(self)@.spec_back(),
            final(self)@.wf(),
            r is None <==> old(self)@.index == 0,
    {
        if self.index > 0 {
            self.index -= 1;
            Some(self.items[self.index])
        } else {
            None
        }
    }

    /// Go forward one step, returning the handle of the entry that thereby
    /// moved from the future into the past; none exactly when the cursor is at
    /// the end.
    pub fn forward(&mut self) -> (r: Option<EntryId>)
        requires
            old(self)@.wf(),
        ensures
            (final(self)@, r) == old(self)@.spec_forward(),
            final(self)@.wf(),
            r is None <==> old(self)@.index == old(self)@.items.len(),
    {
        if self.index < self.items.len() {
            let entry = self.items[self.index];
            self.index += 1;
            Some(entry)
        } else {
            None
        }
    }

    /// Append `entry` to the past, discarding and returning every future
    /// handle; afterwards the cursor sits at the end, so there is nothing to
    /// redo.  The caller must destroy the entries behind the returned handles.
    pub fn push(&mut self, entry: EntryId) -> (removed: Vec<EntryId>)
        requires
            old(self)@.wf(),
        ensures
            (final(self)@, removed@) == old(self)@.spec_push(entry),
            final(self)@.wf(),
            final(self)@.index == final(self)@.items.len(),
    {
        let mut tail = self.items.split_off(self.index);
        let mut removed: Vec<EntryId> = Vec::new();
        proof {
            assert(removed@ + tail@ =~= old(self)@.future());
        }
        while tail.len() != 0
            invariant
                removed@ + tail@ == old(self)@.future(),
            decreases tail@.len(),
        {
            let e = tail.pop_front().unwrap();
            removed.push(e);
            proof {
                assert(removed@ + tail@ =~= old(self)@.future());
            }
        }
        proof {
            assert(removed@ =~= removed@ + tail@);
        }
        self.items.push_back(entry);
        self.index = self.items.len();
        proof {
            assert(self@.items =~= old(self)@.past().push(entry));
        }
        removed
    }

    /// Rewrite every stored handle through `f`, keeping order and cursor.
    /// Used when the entries behind the handles move to a different storage
    /// namespace, for example after persisted history is loaded back in.
    pub fn remap<F: Fn(EntryId) -> EntryId>(&mut self, f: &F)
        requires
            old(self)@.wf(),
            forall|e: EntryId| call_requires(*f, (e,)),
        ensures
            final(self)@.wf(),
            final(self)@.index == old(self)@.index,
            final(self)@.items.len() == old(self)@.items.len(),
            forall|i: int|
                0 <= i < old(self)@.items.len() ==> call_ensures(
                    *f,
                    (old(self)@.items[i],),
                    #[trigger] final(self)@.items[i],
                ),
    {
        let n = self.items.len();
        let mut out: VecDeque<EntryId> = VecDeque::new();
        let mut i: usize = 0;
        while i < n
            invariant
                i <= n,
                n == old(self)@.items.len(),
                self.items@ == old(self)@.items,
                self.index == old(self)@.index,
                out@.len() == i as int,
                forall|e: EntryId| call_requires(*f, (e,)),
                forall|j: int|
                    0 <= j < i as int ==> call_ensures(
                        *f,
                        (old(self)@.items[j],),
                        #[trigger] out@[j],
                    ),
            decreases n - i,
        {
            let e = f(self.items[i]);
            out.push_back(e);
            i += 1;
        }
        self.items = out;
    }
}

} // verus!
