//! The evaluation context.
//!
//! Every pass over the tree carries one `Context`. It owns the state store,
//! the dirty flag that tells the render loop whether another pass is due, the
//! switch that suspends dirty marking, and the signal by which the host's
//! event loop is woken.

use crate::store::StateMap;
use crate::value::{AnyValue, TypeTag};
use crate::viewid::ViewID;
use vstd::prelude::*;

verus! {

/// What the host has to do after a call into the runtime.
#[derive(Clone, Copy, Debug, PartialEq, Eq, Structural)]
pub enum WakeAction {
    /// Nothing.
    Idle,
    /// Tell the event loop to run another iteration.
    Notify,
}

/// The wake signal: whether a host is there to be woken, and whether a wake
/// is waiting to be delivered to it.
///
/// The runtime only records the request. Delivering it is the host's part:
/// it takes the pending request with `take` and notifies its event loop.
#[derive(Clone, Copy, Debug, PartialEq, Eq, Structural)]
pub struct WakeSignal {
    /// A host has registered its event loop.
    pub host: bool,
    /// A wake was asked for and has not been taken yet.
    pub pending: bool,
}

impl WakeSignal {
    /// The signal after a wake was asked for: without a host nothing
    /// happens, with one the request waits to be taken.
    pub open spec fn woken(self) -> WakeSignal {
        WakeSignal { host: self.host, pending: self.pending || self.host }
    }

    /// The signal once the pending request was taken.
    pub open spec fn taken(self) -> WakeSignal {
        WakeSignal { host: self.host, pending: false }
    }

    /// What the host owes for the signal as it stands.
    pub open spec fn action(self) -> WakeAction {
        if self.pending {
            WakeAction::Notify
        } else {
            WakeAction::Idle
        }
    }

    /// A signal with no host and nothing pending.
    pub fn new() -> (signal: WakeSignal)
        ensures
            signal == (WakeSignal { host: false, pending: false }),
    {
        WakeSignal { host: false, pending: false }
    }

    /// Registers the host's event loop. Wakes asked for from now on are
    /// recorded.
    pub fn attach(&mut self)
        ensures
            *final(self) == (WakeSignal { host: true, pending: old(self).pending }),
    {
        self.host = true;
    }

    /// Takes the host away again. A request that is still pending is
    /// dropped: there is nobody left to deliver it to.
    pub fn detach(&mut self)
        ensures
            *final(self) == (WakeSignal { host: false, pending: false }),
    {
        self.host = false;
        self.pending = false;
    }

    /// Takes the pending request, if there is one, and says what the host
    /// has to do about it.
    pub fn take(&mut self) -> (action: WakeAction)
        ensures
            action == old(self).action(),
            *final(self) == old(self).taken(),
    {
        let action = if self.pending {
            WakeAction::Notify
        } else {
            WakeAction::Idle
        };
        self.pending = false;
        action
    }
}

/// The mathematical model of a `Context`.
pub struct ContextView {
    /// The value of every state cell, by the path of its identity.
    pub store: Map<Seq<u64>, AnyValue>,
    /// The dirty flag: a state was written since the flag was last cleared.
    pub dirty: bool,
    /// Dirty marking is switched on.
    pub tracking: bool,
    /// The wake signal.
    pub signal: WakeSignal,
}

impl ContextView {
    /// The context at the start: no state, clean, dirty marking on, no host.
    pub open spec fn fresh() -> ContextView {
        ContextView {
            store: Map::empty(),
            dirty: false,
            tracking: true,
            signal: WakeSignal { host: false, pending: false },
        }
    }

    /// After a request to mark the context dirty: honoured only while dirty
    /// marking is on.
    pub open spec fn marked(self) -> ContextView {
        ContextView { dirty: self.dirty || self.tracking, ..self }
    }

    /// After the dirty flag was cleared.
    pub open spec fn cleared(self) -> ContextView {
        ContextView { dirty: false, ..self }
    }

    /// After a wake was asked for.
    pub open spec fn woken(self) -> ContextView {
        ContextView { signal: self.signal.woken(), ..self }
    }

    /// With dirty marking switched to `on`.
    pub open spec fn tracking_set(self, on: bool) -> ContextView {
        ContextView { tracking: on, ..self }
    }

    /// With the cell at `p` holding `value`, whether or not `p` had a cell.
    pub open spec fn with_cell(self, p: Seq<u64>, value: AnyValue) -> ContextView {
        ContextView { store: self.store.insert(p, value), ..self }
    }

    /// After a cell was asked for at `p` with `value` to start from: a cell
    /// that is already there stays as it is.
    pub open spec fn ensured(self, p: Seq<u64>, value: AnyValue) -> ContextView {
        if self.store.contains_key(p) {
            self
        } else {
            self.with_cell(p, value)
        }
    }

    /// After the state at `p` was written, leaving `value` in its cell: the
    /// write asks for the dirty mark and for a wake.
    pub open spec fn modified(self, p: Seq<u64>, value: AnyValue) -> ContextView {
        self.with_cell(p, value).marked().woken()
    }

    /// After every cell whose identity is not in `live` was removed.
    pub open spec fn swept(self, live: Set<Seq<u64>>) -> ContextView {
        ContextView { store: self.store.restrict(live), ..self }
    }

    /// Nothing of `self` is lost in `later`: every cell is still there, with
    /// a value of the same type, and the dirty flag, if it was set, is still
    /// set.
    pub open spec fn kept_by(self, later: ContextView) -> bool {
        &&& forall|p: Seq<u64>| #[trigger]
            self.store.contains_key(p) ==> later.store.contains_key(p) && later.store[p].tag()
                == self.store[p].tag()
        &&& self.dirty ==> later.dirty
    }
}

/// The evaluation context of the passes over the view tree.
pub struct Context {
    store: StateMap,
    dirty: bool,
    tracking: bool,
    signal: WakeSignal,
}

impl View for Context {
    type V = ContextView;

    closed spec fn view(&self) -> ContextView {
        ContextView {
            store: self.store@,
            dirty: self.dirty,
            tracking: self.tracking,
            signal: self.signal,
        }
    }
}

impl Context {
    /// The store is sound. Every function of this crate that hands out a
    /// `Context` or changes one keeps this.
    pub closed spec fn wf(&self) -> bool {
        self.store.wf()
    }

    /// A context with no state, clean, with dirty marking on and no host.
    pub fn new() -> (cx: Context)
        ensures
            cx.wf(),
            cx@ == ContextView::fresh(),
    {
        Context { store: StateMap::new(), dirty: false, tracking: true, signal: WakeSignal::new() }
    }

    /// Whether `id` has a state cell.
    pub fn has_state(&self, id: &ViewID) -> (b: bool)
        requires
            self.wf(),
        ensures
            b == self@.store.contains_key(id@),
    {
        self.store.contains(id)
    }

    /// The number of state cells.
    pub fn state_count(&self) -> (n: usize)
        requires
            self.wf(),
        ensures
            self@.store.dom().finite(),
            n == self@.store.dom().len(),
    {
        self.store.len()
    }

    /// The type of the value in the cell of `id`; `None` where `id` has no
    /// cell.
    pub fn state_tag(&self, id: &ViewID) -> (t: Option<TypeTag>)
        requires
            self.wf(),
        ensures
            t is Some <==> self@.store.contains_key(id@),
            t matches Some(tag) ==> tag == self@.store[id@].tag(),
    {
        match self.store.get(id) {
            Some(v) => Some(v.type_tag()),
            None => None,
        }
    }

    /// Whether dirty marking is on.
    pub fn is_tracking(&self) -> (b: bool)
        ensures
            b == self@.tracking,
    {
        self.tracking
    }

    /// Registers the host's event loop with the context's wake signal.
    pub fn attach_host(&mut self)
        ensures
            final(self).wf() == old(self).wf(),
            final(self)@ == (ContextView {
                signal: WakeSignal { host: true, pending: old(self)@.signal.pending },
                ..old(self)@
            }),
    {
        self.signal.attach();
    }

    /// Takes the pending wake request, if there is one, and says what the
    /// host has to do about it.
    pub fn take_wake(&mut self) -> (action: WakeAction)
        ensures
            final(self).wf() == old(self).wf(),
            action == old(self)@.signal.action(),
            final(self)@ == (ContextView { signal: old(self)@.signal.taken(), ..old(self)@ }),
    {
        self.signal.take()
    }

    /// The state store.
    pub(crate) fn store(&self) -> (store: &StateMap)
        ensures
            store@ == self@.store,
            store.wf() == self.wf(),
    {
        &self.store
    }

    /// The state store, for writing.
    pub(crate) fn store_mut(&mut self) -> (store: &mut StateMap)
        ensures
            store@ == old(self)@.store,
            store.wf() == old(self).wf(),
            final(self)@ == (ContextView { store: final(store)@, ..old(self)@ }),
            final(self).wf() == final(store).wf(),
    {
        &mut self.store
    }

    /// The wake signal, for writing.
    pub(crate) fn signal_mut(&mut self) -> (signal: &mut WakeSignal)
        ensures
            *signal == old(self)@.signal,
            final(self)@ == (ContextView { signal: *final(signal), ..old(self)@ }),
            final(self).wf() == old(self).wf(),
    {
        &mut self.signal
    }
}

/// Whether a state was written since the dirty flag was last cleared. The
/// render loop asks this once per iteration to decide whether to run another
/// pass.
pub fn is_state_dirty(cx: &Context) -> (dirty: bool)
    ensures
        dirty == cx@.dirty,
{
    cx.dirty
}

/// Asks for the dirty mark: sets the dirty flag if dirty marking is on, and
/// does nothing if it is suspended.
pub fn set_state_dirty(cx: &mut Context)
    ensures
        final(cx).wf() == old(cx).wf(),
        final(cx)@ == old(cx)@.marked(),
{
    if cx.tracking {
        cx.dirty = true;
    }
}

/// Clears the dirty flag. For the render loop, once it has seen the flag and
/// finished the pass that answers it.
pub fn clear_state_dirty(cx: &mut Context)
    ensures
        final(cx).wf() == old(cx).wf(),
        final(cx)@ == old(cx)@.cleared(),
{
    cx.dirty = false;
}

/// Asks for the host's event loop to be woken. Without a registered host
/// this does nothing; with one, the request waits in the signal until the
/// host takes it.
pub fn wake_event_loop(signal: &mut WakeSignal)
    ensures
        *final(signal) == old(signal).woken(),
{
    if signal.host {
        signal.pending = true;
    }
}

/// Suspends dirty marking, and returns whether it was on. Until it is
/// restored, requests for the dirty mark do nothing.
///
/// This is one half of a scope, for callers that have to close the scope on
/// a path that `with_dirty_tracking_disabled` cannot see; whoever calls this
/// owes a call of `restore_dirty_tracking` with what this call returned.
pub fn suspend_dirty_tracking(cx: &mut Context) -> (prior: bool)
    ensures
        final(cx).wf() == old(cx).wf(),
        prior == old(cx)@.tracking,
        final(cx)@ == old(cx)@.tracking_set(false),
{
    let prior = cx.tracking;
    cx.tracking = false;
    prior
}

/// Puts dirty marking back to `prior`, the setting that was found when it
/// was suspended.
pub fn restore_dirty_tracking(cx: &mut Context, prior: bool)
    ensures
        final(cx).wf() == old(cx).wf(),
        final(cx)@ == old(cx)@.tracking_set(prior),
{
    cx.tracking = prior;
}

/// Runs `f` with dirty marking suspended, and puts the switch back to what
/// it was before, whatever `f` did with it. State that `f` writes does not
/// set the dirty flag.
pub fn with_dirty_tracking_disabled<T, F: FnOnce(&mut Context) -> T>(cx: &mut Context, f: F) -> (t:
    T)
    requires
        old(cx).wf(),
        forall|c: &mut Context| c.wf() && c@ == old(cx)@.tracking_set(false) ==> f.requires((c,)),
        forall|c: &mut Context, t: T| c.wf() && f.ensures((c,), t) ==> final(c).wf(),
    ensures
        final(cx).wf(),
        exists|c: &mut Context|
            c@ == old(cx)@.tracking_set(false) && f.ensures((c,), t)
                && final(cx)@ == final(c)@.tracking_set(old(cx)@.tracking),
{
    let prior = suspend_dirty_tracking(cx);
    let t = f(cx);
    restore_dirty_tracking(cx, prior);
    t
}

} // verus!
