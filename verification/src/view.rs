//! The view protocol.
//!
//! A view tree is walked once for each thing the runtime wants of it: to lay
//! it out, to draw it, to find what lies under a point, to route an event, to
//! list its commands, to export it to assistive technology, and to find out
//! which state is still in use. Every kind of node takes part in all seven
//! walks. In each of them a node gets its own identity, does its part, and
//! walks its children, each under the identity that it derives for that
//! child; the derived identity of a child must be the same in every walk.

use crate::context::{Context, ContextView};
use crate::viewid::ViewID;
use vstd::prelude::*;

verus! {

/// An accessibility node of the `accesskit` crate. The runtime carries such
/// nodes from the views to the host and never looks inside one.
#[verifier::external_type_specification]
#[verifier::external_body]
pub struct ExAccessNode(accesskit::Node);

/// The identifier of an accessibility node of the `accesskit` crate. The
/// runtime carries such identifiers and never looks inside one.
#[verifier::external_type_specification]
#[verifier::external_body]
pub struct ExAccessNodeId(accesskit::NodeId);

/// The types that the host of the runtime brings along: the runtime hands
/// values of these types through the walks and never looks inside one.
pub trait Host {
    /// An input event.
    type Event;

    /// The rendering backend.
    type Renderer;

    /// A size in the local coordinates of a node.
    type Size;

    /// A point in the local coordinates of a node.
    type Point;

    /// The description of a command that a node offers.
    type Command;
}

/// A host without a screen, for walks that are made for their effect on the
/// state alone.
pub struct Headless;

impl Host for Headless {
    type Event = ();

    type Renderer = ();

    type Size = ();

    type Point = ();

    type Command = ();
}

/// A node of the view tree.
///
/// What every walk owes the context: it leaves it sound, every cell that
/// was there before the walk is there after it, with a value of the same
/// type, and a dirty flag that was set is still set. A walk can make cells,
/// write to cells and mark the context dirty; it never removes a cell, never
/// changes the type of one, and never clears the flag.
pub trait ViewNode {
    /// The host whose types the walks of this node carry.
    type Host: Host;

    /// The node can be walked under the identity with path `id` in a context
    /// whose model is `cx`. A node that asks nothing of its surroundings is
    /// always ready.
    open spec fn ready(&self, id: Seq<u64>, cx: ContextView) -> bool {
        true
    }

    /// Routes `event` to the node and its descendants.
    fn process(
        &self,
        event: &<Self::Host as Host>::Event,
        id: ViewID,
        cx: &mut Context,
        renderer: &mut <Self::Host as Host>::Renderer,
    )
        requires
            old(cx).wf(),
            self.ready(id@, old(cx)@),
        ensures
            final(cx).wf(),
            old(cx)@.kept_by(final(cx)@),
    ;

    /// Draws the node and its descendants.
    fn draw(&self, id: ViewID, cx: &mut Context, renderer: &mut <Self::Host as Host>::Renderer)
        requires
            old(cx).wf(),
            self.ready(id@, old(cx)@),
        ensures
            final(cx).wf(),
            old(cx)@.kept_by(final(cx)@),
    ;

    /// Lays the node out in the space `sz` that its parent offers, and
    /// returns the size that the node takes.
    fn layout(
        &self,
        id: ViewID,
        sz: <Self::Host as Host>::Size,
        cx: &mut Context,
        renderer: &mut <Self::Host as Host>::Renderer,
    ) -> (size: <Self::Host as Host>::Size)
        requires
            old(cx).wf(),
            self.ready(id@, old(cx)@),
        ensures
            final(cx).wf(),
            old(cx)@.kept_by(final(cx)@),
    ;

    /// The identity of the node that lies under the point `pt`: the node
    /// itself or one of its descendants, or `None` if no node claims the
    /// point.
    fn hittest(
        &self,
        id: ViewID,
        pt: <Self::Host as Host>::Point,
        cx: &mut Context,
        renderer: &mut <Self::Host as Host>::Renderer,
    ) -> (hit: Option<ViewID>)
        requires
            old(cx).wf(),
            self.ready(id@, old(cx)@),
        ensures
            final(cx).wf(),
            old(cx)@.kept_by(final(cx)@),
            hit matches Some(h) ==> id@.is_prefix_of(h@),
    ;

    /// Adds the commands that the node and its descendants offer to `cmds`.
    fn commands(&self, id: ViewID, cx: &mut Context, cmds: &mut Vec<<Self::Host as Host>::Command>)
        requires
            old(cx).wf(),
            self.ready(id@, old(cx)@),
        ensures
            final(cx).wf(),
            old(cx)@.kept_by(final(cx)@),
            old(cmds)@.is_prefix_of(final(cmds)@),
    ;

    /// Adds to `map` the identity of every node, among this one and its
    /// descendants, that keeps state. Each identity that is added lies in the
    /// subtree of `id` and has a cell when the walk is over.
    fn gc(&self, id: ViewID, cx: &mut Context, map: &mut Vec<ViewID>)
        requires
            old(cx).wf(),
            self.ready(id@, old(cx)@),
        ensures
            final(cx).wf(),
            old(cx)@.kept_by(final(cx)@),
            old(map)@.is_prefix_of(final(map)@),
            forall|i: int|
                old(map)@.len() <= i < final(map)@.len() ==> id@.is_prefix_of(
                    (#[trigger] final(map)@[i])@,
                ) && final(cx)@.store.contains_key(final(map)@[i]@),
    ;

    /// Adds the accessibility nodes of the node and its descendants to
    /// `nodes`, and returns the identifier of the accessibility node that
    /// stands for this node, if it has one.
    fn access(
        &self,
        id: ViewID,
        cx: &mut Context,
        nodes: &mut Vec<(accesskit::NodeId, accesskit::Node)>,
    ) -> (node: Option<accesskit::NodeId>)
        requires
            old(cx).wf(),
            self.ready(id@, old(cx)@),
        ensures
            final(cx).wf(),
            old(cx)@.kept_by(final(cx)@),
            old(nodes)@.is_prefix_of(final(nodes)@),
    ;
}

/// A node with nothing in it: no children, no state, nothing to draw. It
/// takes the space it is offered and claims no point.
pub struct EmptyView<H> {
    host: core::marker::PhantomData<H>,
}

impl<H> EmptyView<H> {
    /// An empty node for the host `H`.
    pub fn new() -> (view: EmptyView<H>) {
        EmptyView { host: core::marker::PhantomData }
    }
}

impl<H: Host> ViewNode for EmptyView<H> {
    type Host = H;

    fn process(&self, event: &H::Event, id: ViewID, cx: &mut Context, renderer: &mut H::Renderer)
        ensures
            *final(cx) == *old(cx),
            *final(renderer) == *old(renderer),
    {
    }

    fn draw(&self, id: ViewID, cx: &mut Context, renderer: &mut H::Renderer)
        ensures
            *final(cx) == *old(cx),
            *final(renderer) == *old(renderer),
    {
    }

    fn layout(
        &self,
        id: ViewID,
        sz: H::Size,
        cx: &mut Context,
        renderer: &mut H::Renderer,
    ) -> (size: H::Size)
        ensures
            *final(cx) == *old(cx),
            *final(renderer) == *old(renderer),
            size == sz,
    {
        sz
    }

    fn hittest(
        &self,
        id: ViewID,
        pt: H::Point,
        cx: &mut Context,
        renderer: &mut H::Renderer,
    ) -> (hit: Option<ViewID>)
        ensures
            *final(cx) == *old(cx),
            *final(renderer) == *old(renderer),
            hit is None,
    {
        None
    }

    fn commands(&self, id: ViewID, cx: &mut Context, cmds: &mut Vec<H::Command>)
        ensures
            *final(cx) == *old(cx),
            *final(cmds) == *old(cmds),
    {
    }

    fn gc(&self, id: ViewID, cx: &mut Context, map: &mut Vec<ViewID>)
        ensures
            *final(cx) == *old(cx),
            *final(map) == *old(map),
    {
    }

    fn access(
        &self,
        id: ViewID,
        cx: &mut Context,
        nodes: &mut Vec<(accesskit::NodeId, accesskit::Node)>,
    ) -> (node: Option<accesskit::NodeId>)
        ensures
            *final(cx) == *old(cx),
            *final(nodes) == *old(nodes),
            node is None,
    {
        None
    }
}

} // verus!
