//! Laws of the bridge, proved over the states of the runtime.

use crate::runtime::{occurrences, State};
use vstd::prelude::*;

verus! {

/// One use of a handle to an object, as the runtime sees it.
pub enum Use {
    /// A shared handle is cloned: one increment.
    Clone,
    /// A handle is dropped: one decrement.
    Drop,
    /// An exclusive handle is downgraded: the runtime is not involved.
    Downgrade,
}

/// The state after one use of a handle to `raw`.
pub open spec fn after_use(state: State, raw: usize, step: Use) -> State {
    match step {
        Use::Clone => state.retained(raw),
        Use::Drop => state.released(raw),
        Use::Downgrade => state,
    }
}

/// The use is legal in `state`: a clone needs a live object whose count can
/// grow, a drop a count that no pool holds.
pub open spec fn admits_use(state: State, raw: usize, step: Use) -> bool {
    match step {
        Use::Clone => state.live(raw) && state.count(raw) < usize::MAX,
        Use::Drop => state.owned(raw),
        Use::Downgrade => true,
    }
}

/// The state after the uses, in their order.
pub open spec fn after_uses(state: State, raw: usize, uses: Seq<Use>) -> State
    decreases uses.len(),
{
    if uses.len() == 0 {
        state
    } else {
        after_use(after_uses(state, raw, uses.drop_last()), raw, uses.last())
    }
}

/// Each use is legal in the state that the uses before it leave.
pub open spec fn admits_uses(state: State, raw: usize, uses: Seq<Use>) -> bool
    decreases uses.len(),
{
    uses.len() > 0 ==> admits_uses(state, raw, uses.drop_last()) && admits_use(
        after_uses(state, raw, uses.drop_last()),
        raw,
        uses.last(),
    )
}

/// The clones among the uses less the drops.
pub open spec fn net(uses: Seq<Use>) -> int
    decreases uses.len(),
{
    if uses.len() == 0 {
        0
    } else {
        net(uses.drop_last()) + match uses.last() {
            Use::Clone => 1int,
            Use::Drop => -1int,
            Use::Downgrade => 0int,
        }
    }
}

/// Over any legal sequence of clones, drops and downgrades of handles to one
/// object, its count grows by one for each clone and falls by one for each
/// drop, and by nothing else. No other object's count changes, and no deferred
/// release. Where the count has fallen to zero the object is deallocated, once.
pub proof fn law_uses_count(state: State, raw: usize, uses: Seq<Use>)
    requires
        state.wf(),
        admits_uses(state, raw, uses),
    ensures
        after_uses(state, raw, uses).wf(),
        after_uses(state, raw, uses).count(raw) == state.count(raw) + net(uses),
        forall|other: usize|
            other != raw ==> after_uses(state, raw, uses).count(other) == state.count(other),
        after_uses(state, raw, uses).pending == state.pending,
        after_uses(state, raw, uses).marks == state.marks,
        state.count(raw) + net(uses) == 0 ==> !after_uses(state, raw, uses).live(raw),
        state.live(raw) ==> after_uses(state, raw, uses).deallocated() == state.deallocated()
            + if state.count(raw) + net(uses) == 0 {
            1nat
        } else {
            0nat
        },
        state.live(raw) ==> after_uses(state, raw, uses).log == if state.count(raw) + net(uses)
            == 0 {
            state.log.push(raw)
        } else {
            state.log
        },
    decreases uses.len(),
{
    if uses.len() > 0 {
        let before = after_uses(state, raw, uses.drop_last());
        law_uses_count(state, raw, uses.drop_last());
        match uses.last() {
            Use::Clone => before.lemma_retained(raw),
            Use::Drop => before.lemma_released(raw),
            Use::Downgrade => {},
        }
    }
}

/// A downgrade changes no count: it leaves the whole state as it is.
pub proof fn law_downgrade_keeps_count(state: State, raw: usize)
    ensures
        admits_uses(state, raw, seq![Use::Downgrade]),
        after_uses(state, raw, seq![Use::Downgrade]) == state,
{
    let uses = seq![Use::Downgrade];
    assert(uses.drop_last().len() == 0);
    assert(after_uses(state, raw, uses.drop_last()) == state);
    assert(admits_uses(state, raw, uses.drop_last()));
}

/// A clone followed by a drop leaves the state as it was.
pub proof fn law_clone_then_drop(state: State, raw: usize)
    requires
        state.wf(),
        state.live(raw),
        state.count(raw) < usize::MAX,
    ensures
        state.retained(raw).wf(),
        state.retained(raw).owned(raw),
        state.retained(raw).released(raw) == state,
{
    state.lemma_retained(raw);
    assert(state.retained(raw).released(raw).objects =~= state.objects);
}

/// A capture of a thrown object equals the thrown object, it can be dropped,
/// and dropping it brings the count back to what it was before the throw.
pub proof fn law_capture_then_drop(state: State, raw: usize)
    requires
        state.wf(),
        state.live(raw),
        state.count(raw) < usize::MAX,
    ensures
        state.retained(raw).equal(raw, raw),
        state.retained(raw).owned(raw),
        state.retained(raw).count(raw) == state.count(raw) + 1,
        state.retained(raw).released(raw).count(raw) == state.count(raw),
        state.retained(raw).released(raw) == state,
{
    law_clone_then_drop(state, raw);
}

/// Nested pools: with an outer and an inner frame entered, an object
/// registered with the inner frame is released when that frame is left, once;
/// leaving the outer frame afterwards releases nothing.
pub proof fn law_nested_pools(state: State, raw: usize)
    requires
        state.wf(),
        state.owned(raw),
        state.pending.len() < usize::MAX,
    ensures
        state.entered().entered().autoreleased(raw).wf(),
        state.entered().entered().autoreleased(raw).exited() == state.released(raw).entered(),
        state.entered().entered().autoreleased(raw).exited().exited() == state.released(raw),
        state.entered().entered().autoreleased(raw).exited().count(raw) == state.count(raw) - 1,
        state.entered().entered().autoreleased(raw).exited().exited().count(raw) == state.count(
            raw,
        ) - 1,
        state.released(raw).wf(),
{
    let outer = state.entered();
    let inner = outer.entered();
    let registered = inner.autoreleased(raw);
    state.lemma_entered();
    outer.lemma_entered();
    inner.lemma_autoreleased(raw);
    state.lemma_released(raw);
    let batch = registered.innermost();
    assert(batch =~= seq![raw]);
    assert(batch.drop_last() =~= Seq::<usize>::empty());
    assert forall|other: usize| occurrences(batch, other) == if other == raw {
        1nat
    } else {
        0nat
    } by {
        assert(occurrences(batch.drop_last(), other) == 0);
    }
    let left = registered.exited();
    assert(registered.pending.last() == raw);
    assert(registered.drained(1) == registered.drained_one().drained(0));
    assert(left.log == state.released(raw).log);
    assert(left.objects =~= state.released(raw).objects);
    assert(left.pending =~= state.pending);
    assert(left.marks =~= outer.marks);
    let empty = left.innermost();
    assert(empty =~= Seq::<usize>::empty());
    assert forall|other: usize| occurrences(empty, other) == 0 by {}
    let done = left.exited();
    assert(left.drained(0) == left);
    assert(done.objects =~= state.released(raw).objects);
    assert(done.pending =~= state.pending);
    assert(done.marks =~= state.marks);
}

/// A frame that holds the last counts of two objects deallocates the one
/// that was registered last first.
pub proof fn law_pool_deallocates_in_reverse(state: State, first: usize, second: usize)
    requires
        state.wf(),
        state.depth() > 0,
        state.innermost() == seq![first, second],
        first != second,
        state.count(first) == 1,
        state.count(second) == 1,
    ensures
        state.exited().log == state.log.push(second).push(first),
        !state.exited().live(first),
        !state.exited().live(second),
{
    let batch = state.innermost();
    assert(state.marks[state.marks.len() - 1] <= state.pending.len());
    assert(batch.len() == 2 && batch[0] == first && batch[1] == second);
    assert(state.pending.len() == state.marks.last() + 2);
    assert(state.pending.last() == batch[1]);
    state.lemma_last_promised();
    let one = state.drained_one();
    assert(one.innermost() =~= batch.drop_last());
    assert(one.pending.last() == batch[0]);
    one.lemma_last_promised();
    let two = one.drained_one();
    assert(state.drained(2) == one.drained(1));
    assert(one.drained(1) == two.drained(0));
    state.lemma_exited();
    assert(batch.drop_last() =~= seq![first]);
    assert(batch.drop_last().drop_last() =~= Seq::<usize>::empty());
    assert(occurrences(Seq::<usize>::empty(), first) == 0);
    assert(occurrences(Seq::<usize>::empty(), second) == 0);
    assert(occurrences(batch.drop_last(), first) == 1);
    assert(occurrences(batch.drop_last(), second) == 0);
}

/// Leaving a frame releases what that frame holds and nothing of the frames
/// around it: the releases registered before it was entered stay registered.
pub proof fn law_exit_spares_outer_frames(state: State)
    requires
        state.wf(),
        state.depth() > 0,
    ensures
        state.exited().pending + state.innermost() == state.pending,
        state.exited().depth() == state.depth() - 1,
{
    assert(state.marks[state.marks.len() - 1] <= state.pending.len());
    assert(state.exited().pending + state.innermost() =~= state.pending);
}

/// Objects that the foreign equality reports as equal answer the same hash.
pub proof fn law_equal_hash_equal(state: State, a: usize, b: usize)
    requires
        state.equal(a, b),
    ensures
        state.hash(a) == state.hash(b),
{
}

/// The foreign equality, as modelled, is reflexive on known objects,
/// symmetric and transitive.
pub proof fn law_equality_is_equivalence(state: State, a: usize, b: usize, c: usize)
    ensures
        state.known(a) ==> state.equal(a, a),
        state.equal(a, b) ==> state.equal(b, a),
        state.equal(a, b) && state.equal(b, c) ==> state.equal(a, c),
{
}

} // verus!
