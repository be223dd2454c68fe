//! The engine's context object: the entry storage and the history, kept
//! consistent with one another.
use vstd::prelude::*;
use crate::action::Action;
use crate::entry::HistoryItem;
use crate::history::{EntryId, History, HistoryView};

verus! {

/// The mathematical view of a [`Session`]: each entry slot's action value (or
/// none once the entry is destroyed), the stored handle values, and the
/// cursor.
pub struct SessionView<A> {
    pub entries: Seq<Option<A>>,
    pub items: Seq<int>,
    pub index: int,
}

/// Slots listed in `removed` vacated, everything else kept.
pub open spec fn clear_slots<A>(entries: Seq<Option<A>>, removed: Seq<int>) -> Seq<Option<A>> {
    entries.map(|k: int, o: Option<A>| if removed.contains(k) { None } else { o })
}

impl<A> SessionView<A> {
    /// The engine's invariant: the cursor is within bounds, every stored
    /// handle resolves to a live entry slot, and no handle is stored twice.
    pub open spec fn wf(self) -> bool {
        &&& 0 <= self.index <= self.items.len()
        &&& forall|i: int|
            0 <= i < self.items.len() ==> 0 <= #[trigger] self.items[i] < self.entries.len()
        &&& forall|i: int|
            0 <= i < self.items.len() ==> (#[trigger] self.entries[self.items[i]]) is Some
        &&& forall|i: int, j: int|
            0 <= i < j < self.items.len() ==> self.items[i] != self.items[j]
    }

    /// The handle values of entries already applied, oldest first.
    pub open spec fn past(self) -> Seq<int> {
        self.items.subrange(0, self.index)
    }

    /// The handle values of entries waiting to be redone, earliest first.
    pub open spec fn future(self) -> Seq<int> {
        self.items.subrange(self.index, self.items.len() as int)
    }
}

impl<A: Action> SessionView<A> {
    /// The transition a perform makes: the action applied to the store, the
    /// mutated action value stored in a fresh slot whose handle is appended to
    /// the past, and every future entry destroyed.
    pub open spec fn spec_perform(self, s: A::Store, a: A) -> (SessionView<A>, A::Store) {
        let (s1, a1) = A::applied(s, a);
        let id = self.entries.len() as int;
        (
            SessionView {
                entries: clear_slots(self.entries.push(Some(a1)), self.future()),
                items: self.past().push(id),
                index: self.index + 1,
            },
            s1,
        )
    }

    /// The transition an undo makes: at the history's start nothing changes
    /// and the flag is false; otherwise the cursor steps back and the entry it
    /// stepped over is undone against the store, its mutated action value
    /// written back into its slot.
    pub open spec fn spec_undo(self, s: A::Store) -> (SessionView<A>, A::Store, bool) {
        if self.index > 0 {
            let k = self.items[self.index - 1];
            let (s1, a1) = A::undone(s, self.entries[k]->Some_0);
            (
                SessionView { entries: self.entries.update(k, Some(a1)), items: self.items, index: self.index - 1 },
                s1,
                true,
            )
        } else {
            (self, s, false)
        }
    }

    /// The transition a redo makes: at the history's end nothing changes and
    /// the flag is false; otherwise the entry at the cursor is applied again
    /// and the cursor steps forward over it.
    pub open spec fn spec_redo(self, s: A::Store) -> (SessionView<A>, A::Store, bool) {
        if self.index < self.items.len() {
            let k = self.items[self.index];
            let (s1, a1) = A::applied(s, self.entries[k]->Some_0);
            (
                SessionView { entries: self.entries.update(k, Some(a1)), items: self.items, index: self.index + 1 },
                s1,
                true,
            )
        } else {
            (self, s, false)
        }
    }
}

/// The entry storage and the history.  Entries are created only by performing
/// an action and destroyed only when a later perform discards them from the
/// future; the invariant that every stored handle resolves to a live entry is
/// maintained by every operation, so dispatch never meets a vacant slot.
pub struct Session<A> {
    entries: Vec<Option<HistoryItem<A>>>,
    history: History,
}

impl<A> View for Session<A> {
    type V = SessionView<A>;

    closed spec fn view(&self) -> SessionView<A> {
        SessionView {
            entries: self.entries@.map_values(
                |o: Option<HistoryItem<A>>|
                    match o {
                        Some(h) => Some(h@),
                        None => None,
                    },
            ),
            items: self.history@.items.map_values(|e: EntryId| e.0 as int),
            index: self.history@.index,
        }
    }
}

impl<A: Action> Session<A> {
    /// A session with no entries and an empty history.
    pub fn new() -> (r: Session<A>)
        ensures
            r@.wf(),
            r@.entries == Seq::<Option<A>>::empty(),
            r@.items == Seq::<int>::empty(),
            r@.index == 0,
    {
        let r = Session { entries: Vec::new(), history: History::new(Vec::new()) };
        proof {
            assert(r@.entries =~= Seq::<Option<A>>::empty());
            assert(r@.items =~= Seq::<int>::empty());
        }
        r
    }

    /// The recorded history, for inspection or persistence.  Its handles
    /// carry the same values the view stores.
    pub fn history(&self) -> (h: &History)
        ensures
            h@.wf() <== self@.wf(),
            h@.index == self@.index,
            h@.items.len() == self@.items.len(),
            forall|i: int|
                0 <= i < h@.items.len() ==> #[trigger] h@.items[i].0 == self@.items[i],
    {
        &self.history
    }

    /// Look a handle up: the entry's current action value, or none if the
    /// handle was never issued or its entry has been destroyed.
    pub fn resolve(&self, id: EntryId) -> (r: Option<&A>)
        ensures
            match r {
                Some(a) => id.0 < self@.entries.len() && self@.entries[id.0 as int] == Some(*a),
                None => id.0 >= self@.entries.len() || self@.entries[id.0 as int] is None,
            },
    {
        if id.0 < self.entries.len() {
            match &self.entries[id.0] {
                Some(item) => Some(item.action()),
                None => None,
            }
        } else {
            None
        }
    }
}

impl<A> SessionView<A> {
    /// When a persisted pair of entry slots and history can be taken live
    /// again: the cursor in bounds, every stored handle naming a filled slot,
    /// and no handle stored twice.
    pub open spec fn restorable(entries: Seq<Option<A>>, h: HistoryView) -> bool {
        &&& 0 <= h.index <= h.items.len()
        &&& forall|i: int|
            0 <= i < h.items.len() ==> (#[trigger] h.items[i]).0 < entries.len()
        &&& forall|i: int|
            0 <= i < h.items.len() ==> entries[(#[trigger] h.items[i]).0 as int] is Some
        &&& forall|i: int, j: int|
            0 <= i < j < h.items.len() ==> h.items[i] != h.items[j]
    }
}

impl<A: Action> Session<A> {
    /// Take a persisted history live again: slot `k` of `actions` holds the
    /// action value of the entry that handle `k` names, or none for a slot
    /// whose entry was destroyed.  Returns none exactly when the pair is
    /// inconsistent; on success the session's view is the given pair.
    ///
    /// Handles persisted under another storage namespace must be rewritten
    /// with [`History::remap`] before this is called.
    pub fn restore(actions: Vec<Option<A>>, history: History) -> (r: Option<Session<A>>)
        requires
            history@.wf(),
        ensures
            r is Some <==> SessionView::restorable(actions@, history@),
            r is Some ==> {
                let v = r->Some_0@;
                &&& v.wf()
                &&& v.entries == actions@
                &&& v.index == history@.index
                &&& v.items.len() == history@.items.len()
                &&& forall|i: int|
                    0 <= i < v.items.len() ==> #[trigger] v.items[i] == history@.items[i].0 as int
            },
    {
        let n = history.items.len();
        let mut i: usize = 0;
        while i < n
            invariant
                i <= n,
                n == history@.items.len(),
                forall|k: int|
                    0 <= k < i as int ==> (#[trigger] history@.items[k]).0 < actions@.len(),
                forall|k: int|
                    0 <= k < i as int ==> actions@[(#[trigger] history@.items[k]).0 as int]
                        is Some,
                forall|p: int, q: int|
                    0 <= p < q < i as int ==> history@.items[p] != history@.items[q],
            decreases n - i,
        {
            let id = history.items[i];
            if id.0 >= actions.len() {
                return None;
            }
            if actions[id.0].is_none() {
                return None;
            }
            let mut j: usize = 0;
            while j < i
                invariant
                    j <= i < n,
                    n == history@.items.len(),
                    id == history@.items[i as int],
                    forall|p: int| 0 <= p < j as int ==> history@.items[p] != id,
                decreases i - j,
            {
                if history.items[j] == id {
                    return None;
                }
                j += 1;
            }
            i += 1;
        }
        let ghost acts0 = actions@;
        let mut rest = actions;
        let mut entries: Vec<Option<HistoryItem<A>>> = Vec::new();
        while rest.len() > 0
            invariant
                entries@.len() + rest@.len() == acts0.len(),
                rest@ == acts0.subrange(entries@.len() as int, acts0.len() as int),
                forall|k: int|
                    0 <= k < entries@.len() ==> (match #[trigger] entries@[k] {
                        Some(h) => acts0[k] == Some(h@),
                        None => acts0[k] is None,
                    }),
            decreases rest@.len(),
        {
            let a = rest.remove(0);
            match a {
                Some(x) => {
                    entries.push(Some(HistoryItem::new(x)));
                }
                None => {
                    entries.push(None);
                }
            }
            proof {
                assert(rest@ =~= acts0.subrange(entries@.len() as int, acts0.len() as int));
            }
        }
        let r = Session { entries, history };
        proof {
            assert(r@.entries =~= acts0);
            assert forall|p: int, q: int|
                0 <= p < q < r@.items.len() implies r@.items[p] != r@.items[q] by {
                assert(r.history@.items[p] != r.history@.items[q]);
            }
        }
        Some(r)
    }
}

/// The perform command: apply an action to the store and record it as a new
/// past entry, discarding the redo branch.
pub struct PerformAction<A> {
    pub action: A,
}

impl<A: Action> PerformAction<A> {
    /// Apply the carried action to `store`, move the mutated action value
    /// into a fresh entry, push the entry's handle onto the history, and
    /// destroy every entry the push discarded from the future.
    pub fn apply(self, session: &mut Session<A>, store: &mut A::Store)
        requires
            old(session)@.wf(),
        ensures
            final(session)@.wf(),
            (final(session)@, *final(store)) == old(session)@.spec_perform(
                *old(store),
                self.action,
            ),
    {
        let ghost pre = old(session)@;
        let ghost start = old(session).entries@;
        let ghost s0 = *old(store);
        let mut action = self.action;
        action.apply(store);
        let id = EntryId(session.entries.len());
        session.entries.push(Some(HistoryItem::new(action)));
        let ghost mid = session.entries@;
        let removed = session.history.push(id);
        let ghost hist_mid = session.history;
        proof {
            assert(pre.future() =~= removed@.map_values(|e: EntryId| e.0 as int));
            assert forall|j: int| 0 <= j < removed@.len() implies (#[trigger] removed@[j]).0
                < mid.len() by {
                assert(pre.items[pre.index + j] == removed@[j].0 as int);
            }
        }
        let n = removed.len();
        let mut i: usize = 0;
        while i < n
            invariant
                i <= n,
                n == removed@.len(),
                session.history == hist_mid,
                session.entries@.len() == mid.len(),
                forall|j: int| 0 <= j < n ==> (#[trigger] removed@[j]).0 < mid.len(),
                forall|k: int|
                    0 <= k < mid.len() ==> session.entries@[k] == (if (exists|j: int|
                        0 <= j < i && (#[trigger] removed@[j]).0 == k) {
                        None::<HistoryItem<A>>
                    } else {
                        mid[k]
                    }),
            decreases n - i,
        {
            let k = removed[i].0;
            session.entries[k] = None;
            proof {
                assert forall|m: int| 0 <= m < mid.len() implies session.entries@[m] == (if (
                exists|j: int| 0 <= j < i + 1 && (#[trigger] removed@[j]).0 == m) {
                    None::<HistoryItem<A>>
                } else {
                    mid[m]
                }) by {
                    if m == k as int {
                        assert(removed@[i as int].0 == m);
                    } else {
                        if exists|j: int| 0 <= j < i + 1 && (#[trigger] removed@[j]).0 == m {
                            let j = choose|j: int|
                                0 <= j < i + 1 && (#[trigger] removed@[j]).0 == m;
                            assert(0 <= j < i && removed@[j].0 == m);
                        }
                    }
                }
            }
            i += 1;
        }
        proof {
            let post = session@;
            let (s1, a1) = A::applied(s0, self.action);
            let midv = pre.entries.push(Some(a1));
            assert(pre.entries.len() == start.len());
            assert forall|k: int| 0 <= k < midv.len() implies post.entries[k] == clear_slots(
                midv,
                pre.future(),
            )[k] by {
                assert(clear_slots(midv, pre.future())[k] == (if pre.future().contains(k) {
                    None::<A>
                } else {
                    midv[k]
                }));
                if pre.future().contains(k) {
                    let j = choose|j: int| 0 <= j < pre.future().len() && pre.future()[j] == k;
                    assert(removed@[j].0 as int == k);
                    assert(session.entries@[k] is None);
                    assert(post.entries[k] is None);
                } else {
                    assert forall|j: int| 0 <= j < removed@.len() implies (#[trigger] removed@[j]).0
                        != k by {
                        if removed@[j].0 == k {
                            assert(pre.future()[j] == k);
                            assert(pre.future().contains(k));
                        }
                    }
                    assert(session.entries@[k] == mid[k]);
                    if k < pre.entries.len() {
                        assert(mid[k] == start[k]);
                        assert(post.entries[k] == pre.entries[k]);
                    } else {
                        assert(post.entries[k] == Some(a1));
                    }
                }
            }
            assert(post.entries =~= clear_slots(midv, pre.future()));
            assert forall|p: int| 0 <= p < post.items.len() implies post.items[p] == pre.past()
                .push(pre.entries.len() as int)[p] by {
                if p < pre.index {
                    assert(hist_mid@.items[p] == old(session).history@.items[p]);
                } else {
                    assert(hist_mid@.items[p] == id);
                }
            }
            assert(post.items =~= pre.past().push(pre.entries.len() as int));
            assert(post == pre.spec_perform(s0, self.action).0);
            assert(*store == pre.spec_perform(s0, self.action).1);
            assert forall|p: int| 0 <= p < post.items.len() implies 0 <= #[trigger] post.items[p]
                < post.entries.len() by {
                if p < pre.index {
                    assert(post.items[p] == pre.items[p]);
                }
            }
            assert forall|p: int| 0 <= p < post.items.len() implies (#[trigger] post.entries[post.items[p]]) is Some by {
                let k = post.items[p];
                if p < pre.index {
                    assert(pre.items[p] == k);
                    assert(!pre.future().contains(k)) by {
                        if pre.future().contains(k) {
                            let j = choose|j: int|
                                0 <= j < pre.future().len() && pre.future()[j] == k;
                            assert(pre.items[pre.index + j] == k);
                        }
                    }
                    assert(post.entries[k] == pre.entries[k]);
                } else {
                    assert(k == pre.entries.len() as int);
                    assert(!pre.future().contains(k)) by {
                        if pre.future().contains(k) {
                            let j = choose|j: int|
                                0 <= j < pre.future().len() && pre.future()[j] == k;
                            assert(pre.items[pre.index + j] == k);
                        }
                    }
                }
            }
            assert forall|p: int, q: int| 0 <= p < q < post.items.len() implies post.items[p]
                != post.items[q] by {
                if q < pre.index {
                    assert(post.items[p] == pre.items[p] && post.items[q] == pre.items[q]);
                } else {
                    assert(post.items[p] == pre.items[p]);
                    assert(pre.items[p] < pre.entries.len());
                }
            }
        }
    }
}

/// The undo command: step the cursor back and reverse the entry it stepped
/// over.
pub struct Undo;

impl Undo {
    /// If the history can go back, reverse the entry now at the cursor
    /// against `store` and report true; at the start of history, change
    /// nothing and report false.
    pub fn apply<A: Action>(self, session: &mut Session<A>, store: &mut A::Store) -> (r: bool)
        requires
            old(session)@.wf(),
        ensures
            final(session)@.wf(),
            (final(session)@, *final(store), r) == old(session)@.spec_undo(*old(store)),
            r <==> old(session)@.index > 0,
    {
        let ghost pre = old(session)@;
        let ghost s0 = *old(store);
        match session.history.back() {
            Some(id) => {
                proof {
                    assert(session.history@.items[pre.index - 1] == id);
                    assert(pre.items[pre.index - 1] == id.0 as int);
                    assert(pre.entries[id.0 as int] is Some);
                    assert(session.entries@.len() == pre.entries.len());
                }
                let k = id.0;
                let slot = &mut session.entries[k];
                match slot {
                    Some(item) => {
                        item.undo(store);
                    }
                    None => {}
                }
                proof {
                    let post = session@;
                    let ki = k as int;
                    let a0 = pre.entries[ki]->Some_0;
                    let (s1, a1) = A::undone(s0, a0);
                    assert(*store == s1);
                    assert forall|m: int| 0 <= m < post.entries.len() implies post.entries[m]
                        == pre.entries.update(ki, Some(a1))[m] by {
                        if m != ki {
                            assert(session.entries@[m] == old(session).entries@[m]);
                        } else {
                            assert(post.entries[ki] == Some(a1));
                        }
                    }
                    assert(post.entries =~= pre.entries.update(ki, Some(a1)));
                    assert(post.items == pre.items);
                    assert(post == pre.spec_undo(s0).0);
                    assert forall|p: int| 0 <= p < post.items.len() implies (#[trigger] post.entries[post.items[p]]) is Some by {
                        if post.items[p] != ki {
                            assert(post.entries[post.items[p]] == pre.entries[post.items[p]]);
                        }
                    }
                }
                true
            }
            None => {
                proof {
                    assert(session@.items == pre.items);
                    assert(session@ == pre);
                }
                false
            }
        }
    }
}

/// The redo command: replay the entry at the cursor and step the cursor
/// forward over it.
pub struct Redo;

impl Redo {
    /// If the history can go forward, replay the entry at the cursor against
    /// `store` and report true; at the end of history, change nothing and
    /// report false.
    pub fn apply<A: Action>(self, session: &mut Session<A>, store: &mut A::Store) -> (r: bool)
        requires
            old(session)@.wf(),
        ensures
            final(session)@.wf(),
            (final(session)@, *final(store), r) == old(session)@.spec_redo(*old(store)),
            r <==> old(session)@.index < old(session)@.items.len(),
    {
        let ghost pre = old(session)@;
        let ghost s0 = *old(store);
        match session.history.forward() {
            Some(id) => {
                proof {
                    assert(session.history@.items[pre.index] == id);
                    assert(pre.items[pre.index] == id.0 as int);
                    assert(pre.entries[id.0 as int] is Some);
                    assert(session.entries@.len() == pre.entries.len());
                }
                let k = id.0;
                let slot = &mut session.entries[k];
                match slot {
                    Some(item) => {
                        item.redo(store);
                    }
                    None => {}
                }
                proof {
                    let post = session@;
                    let ki = k as int;
                    let a0 = pre.entries[ki]->Some_0;
                    let (s1, a1) = A::applied(s0, a0);
                    assert(*store == s1);
                    assert forall|m: int| 0 <= m < post.entries.len() implies post.entries[m]
                        == pre.entries.update(ki, Some(a1))[m] by {
                        if m != ki {
                            assert(session.entries@[m] == old(session).entries@[m]);
                        } else {
                            assert(post.entries[ki] == Some(a1));
                        }
                    }
                    assert(post.entries =~= pre.entries.update(ki, Some(a1)));
                    assert(post.items == pre.items);
                    assert(post == pre.spec_redo(s0).0);
                    assert forall|p: int| 0 <= p < post.items.len() implies (#[trigger] post.entries[post.items[p]]) is Some by {
                        if post.items[p] != ki {
                            assert(post.entries[post.items[p]] == pre.entries[post.items[p]]);
                        }
                    }
                }
                true
            }
            None => {
                proof {
                    assert(session@.items == pre.items);
                    assert(session@ == pre);
                }
                false
            }
        }
    }
}

} // verus!
