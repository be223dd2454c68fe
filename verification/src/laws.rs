//! The engine's laws, proved once for every action type and every store.
//!
//! Each law is stated over the spec-level transitions ([`HistoryView`]'s and
//! [`SessionView`]'s `spec_` functions).  The executable operations ensure
//! that what they do to their views equals those transitions, so every law
//! here carries over to any run of the real commands.
use vstd::prelude::*;
use crate::action::{Action, undo_inverts};
use crate::history::{EntryId, HistoryView};
use crate::session::SessionView;

verus! {

/// `back` yields nothing exactly when the cursor is at the start.
pub proof fn lemma_back_none_iff_at_start(h: HistoryView)
    requires
        h.wf(),
    ensures
        h.spec_back().1 is None <==> h.index == 0,
{
}

/// `forward` yields nothing exactly when the cursor is at the end.
pub proof fn lemma_forward_none_iff_at_end(h: HistoryView)
    requires
        h.wf(),
    ensures
        h.spec_forward().1 is None <==> h.index == h.items.len(),
{
}

/// Immediately after any `push` there is no residual future: `forward`
/// yields nothing.
pub proof fn lemma_push_clears_future(h: HistoryView, entry: EntryId)
    requires
        h.wf(),
    ensures
        h.spec_push(entry).0.spec_forward().1 is None,
{
}

/// Running a sequence of performs, one after the other.
pub open spec fn spec_performs<A: Action>(v: SessionView<A>, s: A::Store, acts: Seq<A>) -> (
    SessionView<A>,
    A::Store,
)
    decreases acts.len(),
{
    if acts.len() <= 0 {
        (v, s)
    } else {
        let (v1, s1) = v.spec_perform(s, acts[0]);
        spec_performs(v1, s1, acts.drop_first())
    }
}

/// Running `n` undos, one after the other.
pub open spec fn spec_undos<A: Action>(v: SessionView<A>, s: A::Store, n: nat) -> (
    SessionView<A>,
    A::Store,
)
    decreases n,
{
    if n == 0 {
        (v, s)
    } else {
        let (v1, s1, b) = v.spec_undo(s);
        spec_undos(v1, s1, (n - 1) as nat)
    }
}

/// What one perform does to a well-formed view.
pub proof fn lemma_spec_perform_props<A: Action>(v: SessionView<A>, s: A::Store, a: A)
    requires
        v.wf(),
    ensures
        ({
            let (v1, s1) = v.spec_perform(s, a);
            &&& v1.wf()
            &&& v1.index == v1.items.len()
            &&& v1.index == v.index + 1
            &&& v1.entries.len() == v.entries.len() + 1
            &&& v1.items == v.past().push(v.entries.len() as int)
            &&& v1.entries[v.entries.len() as int] == Some(A::applied(s, a).1)
            &&& s1 == A::applied(s, a).0
            &&& (v.index == v.items.len() ==> forall|k: int|
                0 <= k < v.entries.len() ==> v1.entries[k] == v.entries[k])
        }),
{
    let (v1, s1) = v.spec_perform(s, a);
    let a1 = A::applied(s, a).1;
    let midv = v.entries.push(Some(a1));
    assert forall|k: int| 0 <= k < midv.len() && !v.future().contains(k) implies v1.entries[k]
        == midv[k] by {
    }
    assert(!v.future().contains(v.entries.len() as int)) by {
        if v.future().contains(v.entries.len() as int) {
            let j = choose|j: int|
                0 <= j < v.future().len() && v.future()[j] == v.entries.len() as int;
            assert(v.items[v.index + j] == v.entries.len() as int);
        }
    }
    assert forall|p: int| 0 <= p < v1.items.len() implies 0 <= #[trigger] v1.items[p]
        < v1.entries.len() by {
        if p < v.index {
            assert(v1.items[p] == v.items[p]);
        }
    }
    assert forall|p: int| 0 <= p < v1.items.len() implies (#[trigger] v1.entries[v1.items[p]])
        is Some by {
        let k = v1.items[p];
        assert(!v.future().contains(k)) by {
            if v.future().contains(k) {
                let j = choose|j: int| 0 <= j < v.future().len() && v.future()[j] == k;
                assert(v.items[v.index + j] == k);
                if p < v.index {
                    assert(v.items[p] == k);
                }
            }
        }
        if p < v.index {
            assert(v1.entries[k] == v.entries[k]);
        }
    }
    assert forall|p: int, q: int| 0 <= p < q < v1.items.len() implies v1.items[p]
        != v1.items[q] by {
        if q < v.index {
            assert(v1.items[p] == v.items[p] && v1.items[q] == v.items[q]);
        } else {
            assert(v1.items[p] == v.items[p]);
            assert(v.items[p] < v.entries.len());
        }
    }
    if v.index == v.items.len() {
        assert forall|k: int| 0 <= k < v.entries.len() implies v1.entries[k] == v.entries[k] by {
            assert(v.future().len() == 0);
            if v.future().contains(k) {
                let j = choose|j: int| 0 <= j < v.future().len() && v.future()[j] == k;
            }
        }
    }
}

/// What one successful undo does to a well-formed view.
pub proof fn lemma_spec_undo_props<A: Action>(v: SessionView<A>, s: A::Store)
    requires
        v.wf(),
        v.index > 0,
    ensures
        ({
            let k = v.items[v.index - 1];
            let (v1, s1, b) = v.spec_undo(s);
            &&& b
            &&& v1.wf()
            &&& v1.index == v.index - 1
            &&& v1.items == v.items
            &&& v1.entries.len() == v.entries.len()
            &&& (forall|m: int| 0 <= m < v.entries.len() && m != k ==> v1.entries[m] == v.entries[m])
            &&& v1.entries[k] == Some(A::undone(s, v.entries[k]->Some_0).1)
            &&& s1 == A::undone(s, v.entries[k]->Some_0).0
        }),
{
    let k = v.items[v.index - 1];
    let (v1, s1, b) = v.spec_undo(s);
    assert forall|p: int| 0 <= p < v1.items.len() implies (#[trigger] v1.entries[v1.items[p]])
        is Some by {
        if v1.items[p] != k {
            assert(v1.entries[v1.items[p]] == v.entries[v.items[p]]);
        }
    }
}

/// Undos compose: `m + k` undos are `m` undos followed by `k` more.
pub proof fn lemma_undos_split<A: Action>(v: SessionView<A>, s: A::Store, m: nat, k: nat)
    ensures
        spec_undos(v, s, m + k) == spec_undos(spec_undos(v, s, m).0, spec_undos(v, s, m).1, k),
    decreases m,
{
    if m > 0 {
        let (v1, s1, b) = v.spec_undo(s);
        lemma_undos_split(v1, s1, (m - 1) as nat, k);
    }
}

/// Performs compose: performing `acts` and then `b` is performing
/// `acts.push(b)`.
pub proof fn lemma_performs_split<A: Action>(v: SessionView<A>, s: A::Store, acts: Seq<A>, b: A)
    ensures
        spec_performs(v, s, acts.push(b)) == ({
            let (vm, sm) = spec_performs(v, s, acts);
            vm.spec_perform(sm, b)
        }),
    decreases acts.len(),
{
    if acts.len() == 0 {
        assert(acts.push(b)[0] == b);
        assert(acts.push(b).drop_first() =~= Seq::<A>::empty());
        assert(spec_performs(v, s, acts.push(b)) == spec_performs(
            v.spec_perform(s, b).0,
            v.spec_perform(s, b).1,
            Seq::<A>::empty(),
        ));
    } else {
        assert(acts.push(b)[0] == acts[0]);
        assert(acts.push(b).drop_first() =~= acts.drop_first().push(b));
        let (v1, s1) = v.spec_perform(s, acts[0]);
        lemma_performs_split(v1, s1, acts.drop_first(), b);
    }
}

/// The shape of a view after a run of performs: well-formed, no future, and
/// every pre-existing entry left alone once the first perform has cleared the
/// old future.
pub proof fn lemma_performs_props<A: Action>(v: SessionView<A>, s: A::Store, acts: Seq<A>)
    requires
        v.wf(),
    ensures
        ({
            let (vm, sm) = spec_performs(v, s, acts);
            &&& vm.wf()
            &&& vm.index == v.index + acts.len()
            &&& (acts.len() > 0 ==> vm.index == vm.items.len())
        }),
    decreases acts.len(),
{
    if acts.len() > 0 {
        let (v1, s1) = v.spec_perform(s, acts[0]);
        lemma_spec_perform_props(v, s, acts[0]);
        lemma_performs_props(v1, s1, acts.drop_first());
    }
}

/// The store a run of undos yields depends only on the part of the view at
/// and below the cursor.
pub proof fn lemma_undos_agree<A: Action>(
    va: SessionView<A>,
    vb: SessionView<A>,
    s: A::Store,
    n: nat,
)
    requires
        va.wf(),
        vb.wf(),
        n <= va.index,
        va.index == vb.index,
        va.items.subrange(0, va.index) == vb.items.subrange(0, vb.index),
        forall|j: int|
            0 <= j < va.index ==> va.entries[#[trigger] va.items[j]] == vb.entries[vb.items[j]],
    ensures
        spec_undos(va, s, n).1 == spec_undos(vb, s, n).1,
    decreases n,
{
    if n > 0 {
        let k = va.items[va.index - 1];
        assert(va.items.subrange(0, va.index)[va.index - 1] == k);
        assert(vb.items[vb.index - 1] == k);
        lemma_spec_undo_props(va, s);
        lemma_spec_undo_props(vb, s);
        let (va1, sa1, _) = va.spec_undo(s);
        let (vb1, sb1, _) = vb.spec_undo(s);
        assert(sa1 == sb1);
        assert forall|j: int| 0 <= j < va1.index implies va1.entries[#[trigger] va1.items[j]]
            == vb1.entries[vb1.items[j]] by {
            assert(va.items.subrange(0, va.index)[j] == va.items[j]);
            assert(vb.items[j] == va.items[j]);
            if va.items[j] == k {
                assert(va.entries[k]->Some_0 == vb.entries[k]->Some_0);
            } else {
                assert(va1.entries[va.items[j]] == va.entries[va.items[j]]);
                assert(vb1.entries[vb.items[j]] == vb.entries[vb.items[j]]);
            }
        }
        assert(va1.items.subrange(0, va1.index) =~= va.items.subrange(0, va.index).subrange(
            0,
            va1.index,
        ));
        assert(vb1.items.subrange(0, vb1.index) =~= vb.items.subrange(0, vb.index).subrange(
            0,
            vb1.index,
        ));
        lemma_undos_agree(va1, vb1, sa1, (n - 1) as nat);
    }
}

/// A perform leaves no residual future: a redo straight after it changes
/// nothing and reports the end of history.
pub proof fn lemma_no_redo_after_perform<A: Action>(v: SessionView<A>, s: A::Store, a: A)
    requires
        v.wf(),
    ensures
        ({
            let (v1, s1) = v.spec_perform(s, a);
            let (v2, s2, b) = v1.spec_redo(s1);
            &&& !b
            &&& v2 == v1
            &&& s2 == s1
        }),
{
    lemma_spec_perform_props(v, s, a);
}

/// The round-trip law: perform any sequence of actions, then undo as many
/// times, and the store is back exactly where it started — provided every
/// action's `undo` truly inverts its `apply`.
pub proof fn lemma_round_trip<A: Action>(v: SessionView<A>, s: A::Store, acts: Seq<A>)
    requires
        undo_inverts::<A>(),
        v.wf(),
    ensures
        ({
            let (vp, sp) = spec_performs(v, s, acts);
            spec_undos(vp, sp, acts.len()).1 == s
        }),
    decreases acts.len(),
{
    if acts.len() > 0 {
        let init = acts.drop_last();
        let last = acts.last();
        assert(acts =~= init.push(last));
        lemma_performs_split(v, s, init, last);
        let (vm, sm) = spec_performs(v, s, init);
        lemma_performs_props(v, s, init);
        lemma_spec_perform_props(vm, sm, last);
        let (vp, sp) = vm.spec_perform(sm, last);
        lemma_spec_undo_props(vp, sp);
        let (va, sa, _) = vp.spec_undo(sp);
        let k = vm.entries.len() as int;
        assert(vp.items[vp.index - 1] == k);
        assert(vp.entries[k] == Some(A::applied(sm, last).1));
        assert(A::undone(A::applied(sm, last).0, A::applied(sm, last).1).0 == sm);
        assert(sa == sm);
        lemma_undos_split(vp, sp, 1, init.len());
        assert(spec_undos(va, sa, 0) == (va, sa));
        assert(spec_undos(vp, sp, 1) == spec_undos(va, sa, 0));
        lemma_round_trip(v, s, init);
        if init.len() == 0 {
            assert(spec_performs(v, s, init) == (v, s));
            assert(spec_undos(vp, sp, acts.len()).1 == sa);
        } else {
            assert(vm.past() =~= vm.items);
            assert(va.items.subrange(0, va.index) =~= vm.items.subrange(0, vm.index));
            assert forall|j: int| 0 <= j < va.index implies va.entries[#[trigger] va.items[j]]
                == vm.entries[vm.items[j]] by {
                assert(vm.past().push(k)[j] == vm.items[j]);
                let id = vm.items[j];
                assert(id < vm.entries.len());
                assert(va.entries[id] == vp.entries[id]);
                assert(vp.entries[id] == vm.entries[id]);
            }
            lemma_undos_agree(va, vm, sm, init.len());
        }
    }
}

/// The oscillation law: undo, redo, undo on the most recently applied action
/// reproduces exactly the store that the first undo yielded — provided every
/// action's `undo` truly inverts its `apply`.  The action's own value may
/// keep evolving across the oscillation; the store does not.
pub proof fn lemma_undo_redo_undo<A: Action>(
    v: SessionView<A>,
    s0: A::Store,
    a0: A,
    s: A::Store,
)
    requires
        undo_inverts::<A>(),
        v.wf(),
        v.index > 0,
        v.entries[v.items[v.index - 1]] == Some(A::applied(s0, a0).1),
        s == A::applied(s0, a0).0,
    ensures
        ({
            let (v1, s1, b1) = v.spec_undo(s);
            let (v2, s2, b2) = v1.spec_redo(s1);
            let (v3, s3, b3) = v2.spec_undo(s2);
            &&& b1 && b2 && b3
            &&& s3 == s1
        }),
{
    let k = v.items[v.index - 1];
    lemma_spec_undo_props(v, s);
    let (v1, s1, b1) = v.spec_undo(s);
    assert(A::undone(A::applied(s0, a0).0, A::applied(s0, a0).1).0 == s0);
    assert(s1 == s0);
    let b = A::undone(s, A::applied(s0, a0).1).1;
    assert(v1.entries[k] == Some(b));
    let (v2, s2, b2) = v1.spec_redo(s1);
    assert(v1.items[v1.index] == k);
    assert(s2 == A::applied(s0, b).0);
    assert(v2.entries[k] == Some(A::applied(s0, b).1));
    assert(v2.index == v.index);
    assert(v2.items == v.items);
    let (v3, s3, b3) = v2.spec_undo(s2);
    assert(A::undone(A::applied(s0, b).0, A::applied(s0, b).1).0 == s0);
    assert(s3 == s0);
}

} // verus!
