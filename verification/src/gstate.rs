//! Bindings to state, and the node that keeps state for a subtree.
//!
//! A `State<S>` is not the state itself. It is the right to open one cell of
//! the store: the identity of the node that owns the cell, and the type that
//! the cell is expected to hold. The cell is opened when the binding is used,
//! not when it is made or handed on. Whoever holds the context exclusively
//! holds every cell exclusively, so opening a cell for writing needs nothing
//! more than the `&mut Context`.
//!
//! A `StateView` is the node that owns a cell. It shows how a node takes
//! part in the walks: it asks for its cell, builds its child, and hands the
//! walk on to the child under the child's identity, the same in every walk.

use crate::context::{set_state_dirty, wake_event_loop, Context, ContextView};
use crate::value::StateType;
use crate::view::{Host, ViewNode};
use crate::viewid::{child_path, ViewID};
use std::marker::PhantomData;
use vstd::prelude::*;

verus! {

/// Why a binding cannot be opened.
#[derive(Clone, Copy, Debug, PartialEq, Eq, Structural)]
pub enum Fault {
    /// The identity has no cell: the binding is stale.
    Stale,
    /// The cell holds a value of another type than the binding expects.
    TypeMismatch,
}

/// Read and read-modify-write access to one value of type `S` that lives in
/// the context.
pub trait Binding<S> {
    /// The binding can be opened in `cx`. A binding that cannot fail is
    /// bound in every context.
    open spec fn bound_in(&self, cx: ContextView) -> bool {
        true
    }

    /// The value that the binding shows in `cx`. A binding that does not say
    /// what it shows promises nothing about it.
    open spec fn value_in(&self, cx: ContextView) -> S {
        arbitrary()
    }

    /// Calls `f` on the value and returns what `f` returns.
    fn with<T, F: FnOnce(&S) -> T>(&self, f: F, cx: &Context) -> (t: T)
        requires
            cx.wf(),
            self.bound_in(cx@),
            f.requires((&self.value_in(cx@),)),
        ensures
            f.ensures((&self.value_in(cx@),), t),
    ;

    /// Calls `f` on the value, for writing, and returns what `f` returns.
    /// Whether or not `f` changed the value, the call asks for the dirty mark
    /// and for the event loop to be woken.
    fn with_mut<T, F: FnOnce(&mut S) -> T>(&self, f: F, cx: &mut Context) -> (t: T)
        requires
            old(cx).wf(),
            self.bound_in(old(cx)@),
            forall|s: &mut S| *s == self.value_in(old(cx)@) ==> f.requires((s,)),
        ensures
            final(cx).wf(),
            self.bound_in(final(cx)@),
            exists|s: &mut S|
                *s == self.value_in(old(cx)@) && f.ensures((s,), t) && self.value_in(final(cx)@)
                    == *final(s),
            final(cx)@.dirty == (old(cx)@.dirty || old(cx)@.tracking),
            final(cx)@.tracking == old(cx)@.tracking,
            final(cx)@.signal == old(cx)@.signal.woken(),
            old(cx)@.kept_by(final(cx)@),
    ;
}

/// A binding to the state cell of one node.
///
/// Its mathematical model is the path of the identity whose cell it opens
/// (`state@`).
pub struct State<S> {
    id: ViewID,
    phantom: PhantomData<S>,
}

impl<S> View for State<S> {
    type V = Seq<u64>;

    closed spec fn view(&self) -> Seq<u64> {
        self.id@
    }
}

impl<S> Clone for State<S> {
    fn clone(&self) -> (state: State<S>)
        ensures
            state@ == self@,
    {
        State { id: self.id.clone(), phantom: PhantomData }
    }
}

/// `after` is what asking for a cell at `p` makes of `before`: nothing where
/// `p` has a cell, and otherwise a new cell that holds a value that `default`
/// can return.
pub open spec fn created<S: StateType, D: Fn() -> S>(
    default: D,
    p: Seq<u64>,
    before: ContextView,
    after: ContextView,
) -> bool {
    if before.store.contains_key(p) {
        after == before
    } else {
        exists|d: S| #[trigger] default.ensures((), d) && after == before.with_cell(p, d.erased())
    }
}

impl<S: StateType> State<S> {
    /// A binding to the cell of `id`. If `id` has no cell yet, one is made
    /// that holds `default()`; a cell that is already there is left as it is,
    /// whatever it holds, and `default` is not called.
    pub fn new(id: ViewID, default: &impl Fn() -> S, cx: &mut Context) -> (state: State<S>)
        requires
            old(cx).wf(),
            !old(cx)@.store.contains_key(id@) ==> default.requires(()),
        ensures
            final(cx).wf(),
            state@ == id@,
            created(*default, id@, old(cx)@, final(cx)@),
    {
        if !cx.has_state(&id) {
            let d = default();
            let ghost before = cx@;
            cx.store_mut().insert(id.clone(), d.into_any());
            assert(cx@ == before.with_cell(id@, d.erased()));
        }
        State { id, phantom: PhantomData }
    }

    /// The identity whose cell the binding opens.
    pub fn id(&self) -> (id: &ViewID)
        ensures
            id@ == self@,
    {
        &self.id
    }

    /// Whether the binding can be opened in `cx`, and if not, why not.
    pub fn resolve(&self, cx: &Context) -> (r: Result<(), Fault>)
        requires
            cx.wf(),
        ensures
            r is Ok <==> self.bound_in(cx@),
            r == Err::<(), Fault>(Fault::Stale) <==> !cx@.store.contains_key(self@),
            r == Err::<(), Fault>(Fault::TypeMismatch) <==> cx@.store.contains_key(self@)
                && cx@.store[self@].tag() != S::type_tag(),
    {
        match cx.store().get(&self.id) {
            None => Err(Fault::Stale),
            Some(v) => match S::downcast_ref(v) {
                Some(_) => Ok(()),
                None => Err(Fault::TypeMismatch),
            },
        }
    }
}

impl<S: StateType> Binding<S> for State<S> {
    /// The identity has a cell, and the cell holds an `S`.
    open spec fn bound_in(&self, cx: ContextView) -> bool {
        cx.store.contains_key(self@) && cx.store[self@].tag() == S::type_tag()
    }

    open spec fn value_in(&self, cx: ContextView) -> S {
        S::recovered(cx.store[self@])
    }

    fn with<T, F: FnOnce(&S) -> T>(&self, f: F, cx: &Context) -> (t: T) {
        let v = cx.store().get(&self.id).unwrap();
        let s = S::downcast_ref(v).unwrap();
        f(s)
    }

    fn with_mut<T, F: FnOnce(&mut S) -> T>(&self, f: F, cx: &mut Context) -> (t: T)
        ensures
            exists|s: &mut S|
                *s == self.value_in(old(cx)@) && f.ensures((s,), t)
                    && final(cx)@ == old(cx)@.modified(self@, (*final(s)).erased()),
    {
        proof {
            assert forall|x: S|
                (#[trigger] x.erased()).tag() == S::type_tag() && S::recovered(x.erased())
                    == x by {
                S::lemma_erased(x);
            }
        }
        set_state_dirty(cx);
        let v = cx.store_mut().get_mut(&self.id).unwrap();
        let s = S::downcast_mut(v).unwrap();
        let t = f(s);
        wake_event_loop(cx.signal_mut());
        t
    }
}

/// The node that gives a subtree its state.
///
/// It keeps one cell under its own identity. On every walk it asks for that
/// cell, builds its one child from a binding to the cell, and walks the
/// child under the identity that its key 0 derives.
pub struct StateView<S, V, D, F> {
    /// Makes the value that the cell holds at first.
    pub default: D,
    /// Builds the child from the binding and the context.
    pub func: F,
    /// The type of the state and the type of the child.
    pub phantom: PhantomData<(S, V)>,
}

impl<S, V, D, F> ViewNode for StateView<S, V, D, F> where
    S: StateType,
    V: ViewNode,
    D: Fn() -> S,
    F: Fn(State<S>, &Context) -> V,
 {
    type Host = V::Host;

    /// Where the cell is yet to be made, `default` can be called; and in
    /// every sound context that asking for the cell can leave, `func`
    /// accepts the binding and every child that it can build is ready under
    /// the child's identity.
    open spec fn ready(&self, id: Seq<u64>, cx: ContextView) -> bool {
        &&& !cx.store.contains_key(id) ==> self.default.requires(())
        &&& forall|s: State<S>, c: Context|
            s@ == id && c.wf() && created(self.default, id, cx, c@)
                ==> #[trigger] self.func.requires((s, &c))
        &&& forall|s: State<S>, c: Context, v: V|
            s@ == id && c.wf() && created(self.default, id, cx, c@)
                && #[trigger] self.func.ensures((s, &c), v)
                ==> v.ready(child_path(id, 0), c@)
    }

    fn process(
        &self,
        event: &<V::Host as Host>::Event,
        id: ViewID,
        cx: &mut Context,
        renderer: &mut <V::Host as Host>::Renderer,
    )
        ensures
            exists|
                s: State<S>,
                v: V,
                k: ViewID,
                c: &mut Context,
                g: &mut <V::Host as Host>::Renderer,
            |
                #![trigger self.func.ensures((s, &*c), v), call_ensures(V::process, (&v, event, k, c, g), ())]
                s@ == id@
                    && created(self.default, id@, old(cx)@, c@)
                    && self.func.ensures((s, &*c), v)
                    && k@ == child_path(id@, 0)
                    && *final(c) == *final(cx)
                    && *g == *old(renderer)
                    && *final(g) == *final(renderer)
                    && call_ensures(V::process, (&v, event, k, c, g), ()),
    {
        let child_id = id.child(0);
        let state = State::new(id, &self.default, cx);
        let ghost before = cx@;
        let child = (self.func)(state, &*cx);
        child.process(event, child_id, cx, renderer);
        proof {
            lemma_kept_after_created(self.default, id@, old(cx)@, before, cx@);
        }
    }

    fn draw(&self, id: ViewID, cx: &mut Context, renderer: &mut <V::Host as Host>::Renderer)
        ensures
            exists|
                s: State<S>,
                v: V,
                k: ViewID,
                c: &mut Context,
                g: &mut <V::Host as Host>::Renderer,
            |
                #![trigger self.func.ensures((s, &*c), v), call_ensures(V::draw, (&v, k, c, g), ())]
                s@ == id@
                    && created(self.default, id@, old(cx)@, c@)
                    && self.func.ensures((s, &*c), v)
                    && k@ == child_path(id@, 0)
                    && *final(c) == *final(cx)
                    && *g == *old(renderer)
                    && *final(g) == *final(renderer)
                    && call_ensures(V::draw, (&v, k, c, g), ()),
    {
        let child_id = id.child(0);
        let state = State::new(id, &self.default, cx);
        let ghost before = cx@;
        let child = (self.func)(state, &*cx);
        child.draw(child_id, cx, renderer);
        proof {
            lemma_kept_after_created(self.default, id@, old(cx)@, before, cx@);
        }
    }

    fn layout(
        &self,
        id: ViewID,
        sz: <V::Host as Host>::Size,
        cx: &mut Context,
        renderer: &mut <V::Host as Host>::Renderer,
    ) -> (size: <V::Host as Host>::Size)
        ensures
            exists|
                s: State<S>,
                v: V,
                k: ViewID,
                c: &mut Context,
                g: &mut <V::Host as Host>::Renderer,
            |
                #![trigger self.func.ensures((s, &*c), v), call_ensures(V::layout, (&v, k, sz, c, g), size)]
                s@ == id@
                    && created(self.default, id@, old(cx)@, c@)
                    && self.func.ensures((s, &*c), v)
                    && k@ == child_path(id@, 0)
                    && *final(c) == *final(cx)
                    && *g == *old(renderer)
                    && *final(g) == *final(renderer)
                    && call_ensures(V::layout, (&v, k, sz, c, g), size),
    {
        let child_id = id.child(0);
        let state = State::new(id, &self.default, cx);
        let ghost before = cx@;
        let child = (self.func)(state, &*cx);
        let size = child.layout(child_id, sz, cx, renderer);
        proof {
            lemma_kept_after_created(self.default, id@, old(cx)@, before, cx@);
        }
        size
    }

    fn hittest(
        &self,
        id: ViewID,
        pt: <V::Host as Host>::Point,
        cx: &mut Context,
        renderer: &mut <V::Host as Host>::Renderer,
    ) -> (hit: Option<ViewID>)
        ensures
            exists|
                s: State<S>,
                v: V,
                k: ViewID,
                c: &mut Context,
                g: &mut <V::Host as Host>::Renderer,
            |
                #![trigger self.func.ensures((s, &*c), v), call_ensures(V::hittest, (&v, k, pt, c, g), hit)]
                s@ == id@
                    && created(self.default, id@, old(cx)@, c@)
                    && self.func.ensures((s, &*c), v)
                    && k@ == child_path(id@, 0)
                    && *final(c) == *final(cx)
                    && *g == *old(renderer)
                    && *final(g) == *final(renderer)
                    && call_ensures(V::hittest, (&v, k, pt, c, g), hit),
    {
        let child_id = id.child(0);
        let state = State::new(id, &self.default, cx);
        let ghost before = cx@;
        let child = (self.func)(state, &*cx);
        let hit = child.hittest(child_id, pt, cx, renderer);
        proof {
            lemma_kept_after_created(self.default, id@, old(cx)@, before, cx@);
        }
        hit
    }

    fn commands(&self, id: ViewID, cx: &mut Context, cmds: &mut Vec<<V::Host as Host>::Command>)
        ensures
            exists|
                s: State<S>,
                v: V,
                k: ViewID,
                c: &mut Context,
                m: &mut Vec<<V::Host as Host>::Command>,
            |
                #![trigger self.func.ensures((s, &*c), v), call_ensures(V::commands, (&v, k, c, m), ())]
                s@ == id@
                    && created(self.default, id@, old(cx)@, c@)
                    && self.func.ensures((s, &*c), v)
                    && k@ == child_path(id@, 0)
                    && *final(c) == *final(cx)
                    && *m == *old(cmds)
                    && *final(m) == *final(cmds)
                    && call_ensures(V::commands, (&v, k, c, m), ()),
    {
        let child_id = id.child(0);
        let state = State::new(id, &self.default, cx);
        let ghost before = cx@;
        let child = (self.func)(state, &*cx);
        child.commands(child_id, cx, cmds);
        proof {
            lemma_kept_after_created(self.default, id@, old(cx)@, before, cx@);
        }
    }

    fn gc(&self, id: ViewID, cx: &mut Context, map: &mut Vec<ViewID>)
        ensures
            exists|
                s: State<S>,
                v: V,
                k: ViewID,
                c: &mut Context,
                m: &mut Vec<ViewID>,
            |
                #![trigger self.func.ensures((s, &*c), v), call_ensures(V::gc, (&v, k, c, m), ())]
                s@ == id@
                    && created(self.default, id@, old(cx)@, c@)
                    && self.func.ensures((s, &*c), v)
                    && k@ == child_path(id@, 0)
                    && *final(c) == *final(cx)
                    && m@.len() == old(map)@.len() + 1
                    && m@.drop_last() == old(map)@
                    && m@.last()@ == id@
                    && *final(m) == *final(map)
                    && call_ensures(V::gc, (&v, k, c, m), ()),
    {
        let child_id = id.child(0);
        map.push(id.clone());
        let ghost listed = map@;
        let state = State::new(id, &self.default, cx);
        let ghost before = cx@;
        let child = (self.func)(state, &*cx);
        child.gc(child_id, cx, map);
        proof {
            lemma_kept_after_created(self.default, id@, old(cx)@, before, cx@);
            assert(before.store.contains_key(id@));
            assert forall|i: int| old(map)@.len() <= i < map@.len() implies id@.is_prefix_of(
                (#[trigger] map@[i])@,
            ) && cx@.store.contains_key(map@[i]@) by {
                if i == old(map)@.len() {
                    assert(map@[i] == listed[i]);
                    assert(map@[i]@ == id@);
                } else {
                    assert(child_id@.is_prefix_of(map@[i]@));
                    assert(id@ == child_id@.subrange(0, id@.len() as int));
                }
            }
        }
    }

    fn access(
        &self,
        id: ViewID,
        cx: &mut Context,
        nodes: &mut Vec<(accesskit::NodeId, accesskit::Node)>,
    ) -> (node: Option<accesskit::NodeId>)
        ensures
            exists|
                s: State<S>,
                v: V,
                k: ViewID,
                c: &mut Context,
                n: &mut Vec<(accesskit::NodeId, accesskit::Node)>,
            |
                #![trigger self.func.ensures((s, &*c), v), call_ensures(V::access, (&v, k, c, n), node)]
                s@ == id@
                    && created(self.default, id@, old(cx)@, c@)
                    && self.func.ensures((s, &*c), v)
                    && k@ == child_path(id@, 0)
                    && *final(c) == *final(cx)
                    && *n == *old(nodes)
                    && *final(n) == *final(nodes)
                    && call_ensures(V::access, (&v, k, c, n), node),
    {
        let child_id = id.child(0);
        let state = State::new(id, &self.default, cx);
        let ghost before = cx@;
        let child = (self.func)(state, &*cx);
        let node = child.access(child_id, cx, nodes);
        proof {
            lemma_kept_after_created(self.default, id@, old(cx)@, before, cx@);
        }
        node
    }
}

/// Every cell that was there before a cell was asked for is still there,
/// with its type, after the walk that followed.
proof fn lemma_kept_after_created<S: StateType, D: Fn() -> S>(
    default: D,
    p: Seq<u64>,
    start: ContextView,
    made: ContextView,
    end: ContextView,
)
    requires
        created(default, p, start, made),
        made.kept_by(end),
    ensures
        start.kept_by(end),
{
    assert forall|q: Seq<u64>| #[trigger] start.store.contains_key(q) implies end.store.contains_key(q)
        && end.store[q].tag() == start.store[q].tag() by {
        assert(made.store.contains_key(q));
    }
}

/// What makes a `StateView` ready, spelled out: where the cell is yet to
/// be made, `default` can be called; and in every sound context that asking
/// for the cell can leave, `func` accepts the binding and builds only
/// children that are ready under the identity of the child.
pub proof fn lemma_state_view_ready<
    S: StateType,
    V: ViewNode,
    D: Fn() -> S,
    F: Fn(State<S>, &Context) -> V,
>(view: StateView<S, V, D, F>, id: Seq<u64>, cx: ContextView)
    requires
        !cx.store.contains_key(id) ==> view.default.requires(()),
        forall|s: State<S>, c: Context|
            s@ == id && c.wf() && created(view.default, id, cx, c@)
                ==> #[trigger] view.func.requires((s, &c)),
        forall|s: State<S>, c: Context, v: V|
            s@ == id && c.wf() && created(view.default, id, cx, c@)
                && #[trigger] view.func.ensures((s, &c), v)
                ==> v.ready(child_path(id, 0), c@),
    ensures
        view.ready(id, cx),
{
}

/// A node that keeps a state of type `S`, which `initial` makes when the
/// node is first visited, and whose child `f` builds from a binding to that
/// state.
pub fn state<S: StateType, V: ViewNode, D: Fn() -> S, F: Fn(State<S>, &Context) -> V>(
    initial: D,
    f: F,
) -> (view: StateView<S, V, D, F>)
    ensures
        view.default == initial,
        view.func == f,
{
    StateView { default: initial, func: f, phantom: PhantomData }
}

} // verus!
