//! The work queue.
//!
//! Any thread may hand the runtime a closure to run on the thread that owns
//! the user interface. The closures wait in a queue. Once per iteration the
//! loop takes the whole queue and runs what it took, first in first out;
//! what is scheduled while it runs waits for the next iteration.

use crate::context::{wake_event_loop, Context, WakeAction, WakeSignal};
use std::collections::VecDeque;
use vstd::prelude::*;

verus! {

/// The queue of closures that wait to be run on the main thread, with the
/// signal that wakes the event loop when one is added.
///
/// Its mathematical model is the sequence of the waiting closures, the one
/// that was scheduled first at the front (`queue@`).
pub struct WorkQueue<F> {
    work: VecDeque<F>,
    signal: WakeSignal,
}

impl<F> View for WorkQueue<F> {
    type V = Seq<F>;

    closed spec fn view(&self) -> Seq<F> {
        self.work@
    }
}

impl<F> WorkQueue<F> {
    /// The wake signal of the queue.
    pub closed spec fn signal(&self) -> WakeSignal {
        self.signal
    }

    /// An empty queue, with no host registered.
    pub fn new() -> (queue: WorkQueue<F>)
        ensures
            queue@ == Seq::<F>::empty(),
            queue.signal() == (WakeSignal { host: false, pending: false }),
    {
        WorkQueue { work: VecDeque::new(), signal: WakeSignal::new() }
    }

    /// How many closures are waiting.
    pub fn len(&self) -> (n: usize)
        ensures
            n == self@.len(),
    {
        self.work.len()
    }

    /// Whether no closure is waiting.
    pub fn is_empty(&self) -> (b: bool)
        ensures
            b == (self@.len() == 0),
    {
        self.work.len() == 0
    }

    /// Registers the host's event loop with the queue's wake signal.
    pub fn attach_host(&mut self)
        ensures
            final(self)@ == old(self)@,
            final(self).signal() == (WakeSignal { host: true, pending: old(self).signal().pending }),
    {
        self.signal.attach();
    }

    /// Takes the pending wake request, if there is one, and says what the
    /// host has to do about it.
    pub fn take_wake(&mut self) -> (action: WakeAction)
        ensures
            final(self)@ == old(self)@,
            action == old(self).signal().action(),
            final(self).signal() == old(self).signal().taken(),
    {
        self.signal.take()
    }

    /// Takes everything that is waiting, in the order in which it was
    /// scheduled, and leaves the queue empty.
    pub fn drain(&mut self) -> (work: VecDeque<F>)
        ensures
            work@ == old(self)@,
            final(self)@ == Seq::<F>::empty(),
            final(self).signal() == old(self).signal(),
    {
        let mut work: VecDeque<F> = VecDeque::new();
        std::mem::swap(&mut self.work, &mut work);
        work
    }
}

/// Schedules `f` to run on the main thread: puts it at the end of the queue
/// and asks for the event loop to be woken.
pub fn on_main<F: FnOnce(&mut Context) + Send + 'static>(queue: &mut WorkQueue<F>, f: F)
    ensures
        final(queue)@ == old(queue)@.push(f),
        final(queue).signal() == old(queue).signal().woken(),
{
    queue.work.push_back(f);
    wake_event_loop(&mut queue.signal);
}

/// Runs the closures of `work` on `cx`, the first of them first.
///
/// The contract speaks of a trace: a sequence of contexts, of which the
/// first is the context at the start and each of the others is what one
/// closure made of the one before it. Every closure must leave a sound
/// context sound, and must accept the context in which every trace through
/// the closures before it ends. The context at the end is the last context
/// of a trace through all of `work`.
#[verifier::loop_isolation(false)]
pub fn run_work<F: FnOnce(&mut Context)>(cx: &mut Context, work: VecDeque<F>)
    requires
        old(cx).wf(),
        forall|i: int, c: &mut Context|
            0 <= i < work@.len() && c.wf() && #[trigger] work@[i].ensures((c,), ()) ==> final(c).wf(),
        forall|i: int, t: Seq<Context>, c: &mut Context|
            #![trigger t[i], work@[i].requires((c,))]
            0 <= i < work@.len() && t.len() == i + 1 && t[0] == *old(cx) && *c == t[i]
                && (forall|j: int|
                    #![trigger t[j]]
                    0 <= j < i ==> t[j].wf() && exists|d: &mut Context|
                        *d == t[j] && *final(d) == t[j + 1] && #[trigger] work@[j].ensures((d,), ()))
                ==> work@[i].requires((c,)),
    ensures
        final(cx).wf(),
        exists|t: Seq<Context>|
            #![trigger t.len()]
            t.len() == work@.len() + 1 && t[0] == *old(cx) && t[work@.len() as int] == *final(cx)
                && (forall|j: int|
                    #![trigger t[j]]
                    0 <= j < work@.len() ==> t[j].wf() && exists|d: &mut Context|
                        *d == t[j] && *final(d) == t[j + 1] && #[trigger] work@[j].ensures((d,), ())),
{
    let mut rest = work;
    let ghost mut trace: Seq<Context> = seq![*cx];
    let ghost mut done: int = 0;
    while rest.len() > 0
        invariant
            cx.wf(),
            0 <= done <= work@.len(),
            rest@ == work@.skip(done),
            trace.len() == done + 1,
            trace[0] == *old(cx),
            trace[done] == *cx,
            forall|j: int|
                #![trigger trace[j]]
                0 <= j < done ==> trace[j].wf() && exists|d: &mut Context|
                    *d == trace[j] && *final(d) == trace[j + 1] && #[trigger] work@[j].ensures((d,), ()),
        decreases rest@.len(),
    {
        let f = rest.pop_front().unwrap();
        assert(f == work@[done]);
        f(cx);
        proof {
            let longer = trace.push(*cx);
            assert forall|j: int|
                #![trigger longer[j]]
                0 <= j < done + 1 implies longer[j].wf() && exists|d: &mut Context|
                *d == longer[j] && *final(d) == longer[j + 1] && #[trigger] work@[j].ensures((d,), ()) by {
                if j < done {
                    assert(trace[j] == longer[j]);
                    let d = choose|d: &mut Context|
                        *d == trace[j] && *final(d) == trace[j + 1] && work@[j].ensures((d,), ());
                    assert(*d == longer[j] && *final(d) == longer[j + 1] && work@[j].ensures((d,), ()));
                }
            }
            trace = longer;
            done = done + 1;
            assert(rest@ == work@.skip(done));
            assert(forall|j: int|
                #![trigger trace[j]]
                0 <= j < done ==> trace[j].wf() && exists|d: &mut Context|
                    *d == trace[j] && *final(d) == trace[j + 1] && #[trigger] work@[j].ensures((d,), ()));
        }
    }
}

} // verus!
