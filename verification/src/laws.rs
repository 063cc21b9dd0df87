//! What holds of the runtime as a whole.
//!
//! The contracts of the functions say what one call does. The statements
//! here relate several calls, or speak of every sequence of calls. They are
//! stated over the same models that the contracts use, and proved.

use crate::context::ContextView;
use crate::gstate::{created, Binding, State};
use crate::value::{AnyValue, StateType};
use crate::viewid::{child_path, descend_path, lemma_descend_path, path_before};
use vstd::prelude::*;

verus! {

/// Identity is stable and free of collisions: following keys from an
/// identity leads to the same identity exactly if the keys are the same.
/// So a tree that is rebuilt unchanged gives every node the identity it
/// had, and no two positions of a tree share an identity.
pub proof fn law_identity_stable(base: Seq<u64>, keys_a: Seq<u64>, keys_b: Seq<u64>)
    ensures
        keys_a == keys_b <==> descend_path(base, keys_a) == descend_path(base, keys_b),
{
    lemma_descend_path(base, keys_a);
    lemma_descend_path(base, keys_b);
    if base + keys_a == base + keys_b {
        assert(keys_a =~= (base + keys_a).skip(base.len() as int));
        assert(keys_b =~= (base + keys_b).skip(base.len() as int));
    }
}

/// Two children have the same identity only if they have the same parent
/// and the same key, and no child has the identity of its parent.
pub proof fn law_child_distinct(parent_a: Seq<u64>, key_a: u64, parent_b: Seq<u64>, key_b: u64)
    ensures
        child_path(parent_a, key_a) == child_path(parent_b, key_b) <==> parent_a == parent_b
            && key_a == key_b,
        child_path(parent_a, key_a) != parent_a,
        parent_a.is_prefix_of(child_path(parent_a, key_a)),
{
    let a = child_path(parent_a, key_a);
    let b = child_path(parent_b, key_b);
    if a == b {
        assert(parent_a =~= a.drop_last());
        assert(parent_b =~= b.drop_last());
        assert(key_a == a.last());
        assert(key_b == b.last());
    }
    assert(a.len() == parent_a.len() + 1);
    assert(parent_a =~= a.subrange(0, parent_a.len() as int));
}

/// The order of identities is a strict total order: no identity comes
/// before itself, of two different identities exactly one comes before the
/// other, and the order is transitive.
pub proof fn law_identity_order(a: Seq<u64>, b: Seq<u64>, c: Seq<u64>)
    ensures
        !path_before(a, a),
        a != b ==> (path_before(a, b) <==> !path_before(b, a)),
        path_before(a, b) && path_before(b, c) ==> path_before(a, c),
{
    crate::viewid::lemma_order_irreflexive(a);
    crate::viewid::lemma_order_total(a, b);
    if path_before(a, b) && path_before(b, c) {
        crate::viewid::lemma_order_transitive(a, b, c);
    }
}

/// Asking twice for the cell of one identity is asking once: the second
/// call of `State::new` leaves the context as the first call left it,
/// whatever value it offers to start from, and both bindings show the same
/// value.
pub proof fn law_get_or_create_idempotent<S: StateType, D: Fn() -> S, E: Fn() -> S>(
    first: D,
    second: E,
    p: Seq<u64>,
    start: ContextView,
    made: ContextView,
    again: ContextView,
    a: State<S>,
    b: State<S>,
)
    requires
        created(first, p, start, made),
        created(second, p, made, again),
        a@ == p,
        b@ == p,
    ensures
        made.store.contains_key(p),
        again == made,
        a.value_in(made) == b.value_in(again),
        !start.store.contains_key(p) ==> a.bound_in(made) && first.ensures((), a.value_in(made)),
{
    if !start.store.contains_key(p) {
        let d = choose|d: S|
            #[trigger] first.ensures((), d) && made == start.with_cell(p, d.erased());
        S::lemma_erased(d);
    }
}

/// State persists: when the cell of one identity is asked for once in each
/// of any number of rebuilds, and nothing is written in between, the
/// context after every rebuild is the context after the first, and a
/// binding to the cell shows the same value after every rebuild.
///
/// `trace[n]` is the context before the rebuild `n` and `trace[n + 1]` the
/// context after it; `defaults[n]` is what that rebuild offers to start
/// from.
pub proof fn law_state_persists<S: StateType, D: Fn() -> S>(
    defaults: Seq<D>,
    p: Seq<u64>,
    trace: Seq<ContextView>,
    state: State<S>,
    n: int,
)
    requires
        trace.len() == defaults.len() + 1,
        forall|i: int|
            0 <= i < defaults.len() ==> created(#[trigger] defaults[i], p, trace[i], trace[i + 1]),
        state@ == p,
        1 <= n < trace.len(),
    ensures
        trace[n].store.contains_key(p),
        trace[n] == trace[1],
        state.value_in(trace[n]) == state.value_in(trace[1]),
    decreases n,
{
    assert(created(defaults[0], p, trace[0], trace[1]));
    if n > 1 {
        law_state_persists(defaults, p, trace, state, n - 1);
        assert(created(defaults[n - 1], p, trace[n - 1], trace[n]));
    }
}

/// One thing that can happen to a context between two clearings of the
/// dirty flag: every operation of the runtime but the clearing itself.
pub enum Step {
    /// A request for the dirty mark.
    Mark,
    /// A request to wake the event loop.
    Wake,
    /// A cell is asked for at a path, with a value to start from.
    Ensure(Seq<u64>, AnyValue),
    /// The state at a path is written, leaving a value in its cell.
    Modify(Seq<u64>, AnyValue),
    /// Dirty marking is switched on or off.
    Track(bool),
    /// The cells whose identity is not in a set are removed.
    Sweep(Set<Seq<u64>>),
}

impl Step {
    /// The context after the step.
    pub open spec fn apply(self, cx: ContextView) -> ContextView {
        match self {
            Step::Mark => cx.marked(),
            Step::Wake => cx.woken(),
            Step::Ensure(p, v) => cx.ensured(p, v),
            Step::Modify(p, v) => cx.modified(p, v),
            Step::Track(on) => cx.tracking_set(on),
            Step::Sweep(live) => cx.swept(live),
        }
    }
}

/// The context after the steps, the first of them first.
pub open spec fn after(cx: ContextView, steps: Seq<Step>) -> ContextView
    decreases steps.len(),
{
    if steps.len() == 0 {
        cx
    } else {
        after(steps[0].apply(cx), steps.skip(1))
    }
}

/// The dirty flag is lost only by clearing it: once it is set, it stays
/// set through every sequence of operations that does not clear it.
pub proof fn law_dirty_until_cleared(cx: ContextView, steps: Seq<Step>)
    requires
        cx.dirty,
    ensures
        after(cx, steps).dirty,
    decreases steps.len(),
{
    if steps.len() > 0 {
        law_dirty_until_cleared(steps[0].apply(cx), steps.skip(1));
    }
}

/// `later` is what one operation that does not clear the dirty flag can
/// make of `earlier`: one of the steps, or a walk over the tree.
pub open spec fn follows(earlier: ContextView, later: ContextView) -> bool {
    earlier.kept_by(later) || exists|step: Step| later == #[trigger] step.apply(earlier)
}

/// The dirty flag survives walks too: in a sequence of contexts of which
/// each follows the one before, once the flag is set it is set in every
/// later context.
pub proof fn law_dirty_through_passes(trace: Seq<ContextView>, from: int, to: int)
    requires
        0 <= from <= to < trace.len(),
        trace[from].dirty,
        forall|i: int| 0 <= i < trace.len() - 1 ==> follows(#[trigger] trace[i], trace[i + 1]),
    ensures
        trace[to].dirty,
    decreases to - from,
{
    if from < to {
        assert(follows(trace[from], trace[from + 1]));
        law_dirty_through_passes(trace, from + 1, to);
    }
}

/// Dirty monotonicity: a write while dirty marking is on sets the dirty
/// flag, and the flag is then set after every sequence of operations that
/// does not clear it; right after clearing, the flag is not set.
pub proof fn law_dirty_monotone(cx: ContextView, p: Seq<u64>, value: AnyValue, steps: Seq<Step>)
    requires
        cx.tracking,
    ensures
        cx.modified(p, value).dirty,
        after(cx.modified(p, value), steps).dirty,
        !after(cx.modified(p, value), steps).cleared().dirty,
{
    law_dirty_until_cleared(cx.modified(p, value), steps);
}

/// A write that changes nothing is still a write: the store is as it was,
/// and the dirty mark and the wake are asked for all the same.
pub proof fn law_idle_write<S: StateType>(cx: ContextView, state: State<S>)
    requires
        state.bound_in(cx),
    ensures
        cx.modified(state@, state.value_in(cx).erased()) == cx.marked().woken(),
{
    S::lemma_recovered(cx.store[state@]);
    assert(cx.store.insert(state@, cx.store[state@]) =~= cx.store);
}

/// Every step of `steps` is a write.
pub open spec fn all_writes(steps: Seq<Step>) -> bool {
    forall|i: int| 0 <= i < steps.len() ==> #[trigger] steps[i] is Modify
}

/// Suppressed dirty scope: while dirty marking is off, writes leave the
/// dirty flag as it was, however many there are; once the scope is left
/// and marking is back on, the next write sets the flag.
pub proof fn law_suppressed_scope(
    cx: ContextView,
    inside: Seq<Step>,
    p: Seq<u64>,
    value: AnyValue,
)
    requires
        all_writes(inside),
    ensures
        after(cx.tracking_set(false), inside).dirty == cx.dirty,
        after(cx.tracking_set(false), inside).tracking == false,
        after(cx.tracking_set(false), inside).tracking_set(true).modified(p, value).dirty,
    decreases inside.len(),
{
    let quiet = cx.tracking_set(false);
    if inside.len() > 0 {
        let next = inside[0].apply(quiet);
        assert(inside[0] is Modify);
        assert(next.tracking_set(false) == next);
        assert(all_writes(inside.skip(1))) by {
            assert forall|i: int| 0 <= i < inside.skip(1).len() implies #[trigger] inside.skip(
                1,
            )[i] is Modify by {
                assert(inside[i + 1] is Modify);
            }
        }
        law_suppressed_scope(next, inside.skip(1), p, value);
    }
}

/// The queue after each closure of `fs` was scheduled, the first of them
/// first.
pub open spec fn scheduled<F>(queue: Seq<F>, fs: Seq<F>) -> Seq<F>
    decreases fs.len(),
{
    if fs.len() == 0 {
        queue
    } else {
        scheduled(queue.push(fs[0]), fs.skip(1))
    }
}

/// The work queue is first in, first out: what was scheduled waits behind
/// what was waiting before, in the order in which it was scheduled. The
/// queue is drained whole and run from the front, so closures run in the
/// order in which they were scheduled.
pub proof fn law_queue_fifo<F>(queue: Seq<F>, fs: Seq<F>)
    ensures
        scheduled(queue, fs) == queue + fs,
    decreases fs.len(),
{
    if fs.len() == 0 {
        assert(queue + fs == queue);
    } else {
        law_queue_fifo(queue.push(fs[0]), fs.skip(1));
        assert(queue.push(fs[0]) + fs.skip(1) == queue + fs);
    }
}

/// Closures that are scheduled on an empty queue are drained in the order
/// in which they were scheduled.
pub proof fn law_queue_order<F>(fs: Seq<F>)
    ensures
        scheduled(Seq::<F>::empty(), fs) == fs,
{
    law_queue_fifo(Seq::<F>::empty(), fs);
    assert(Seq::<F>::empty() + fs == fs);
}

/// Reachability decides what a sweep keeps: a cell whose identity the walk
/// did not report is gone, and a binding to it is stale; a cell whose
/// identity the walk reported is kept with its value, and a binding to it
/// shows what it showed before.
pub proof fn law_gc_reachability<S: StateType>(
    cx: ContextView,
    live: Set<Seq<u64>>,
    state: State<S>,
)
    ensures
        !live.contains(state@) ==> !cx.swept(live).store.contains_key(state@) && !state.bound_in(
            cx.swept(live),
        ),
        live.contains(state@) ==> state.bound_in(cx.swept(live)) == state.bound_in(cx),
        live.contains(state@) && state.bound_in(cx) ==> state.value_in(cx.swept(live))
            == state.value_in(cx),
{
}

} // verus!
