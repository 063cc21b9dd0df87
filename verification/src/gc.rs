//! Garbage collection of state.
//!
//! A cell is in use as long as the tree has a node at its identity. Nothing
//! tells the store when a node goes away: a branch is simply not built the
//! next time. So the collector walks the tree as it is now, lets every node
//! that keeps state report its identity, and removes the cells that nobody
//! reported.

use crate::context::Context;
use crate::view::ViewNode;
use crate::viewid::{path_set, ViewID};
use vstd::prelude::*;

verus! {

/// Walks the tree under `root` with the garbage-collection walk, removes
/// every cell whose identity the walk did not report, and returns the
/// identities that it did report, in the order of the walk.
///
/// Afterwards the store has a cell for exactly the reported identities, and
/// each of them holds what the walk left in it.
pub fn collect<V: ViewNode>(root: &V, cx: &mut Context) -> (live: Vec<ViewID>)
    requires
        old(cx).wf(),
        root.ready(Seq::<u64>::empty(), old(cx)@),
    ensures
        final(cx).wf(),
        final(cx)@.store.dom() == path_set(live@),
        exists|k: ViewID, c: &mut Context, m: &mut Vec<ViewID>|
            #![trigger call_ensures(V::gc, (root, k, c, m), ())]
            k@ == Seq::<u64>::empty() && *c == *old(cx) && m@ == Seq::<ViewID>::empty()
                && call_ensures(V::gc, (root, k, c, m), ()) && *final(m) == live && final(cx)@
                == final(c)@.swept(path_set(live@)),
{
    let mut live: Vec<ViewID> = Vec::new();
    root.gc(ViewID::root(), cx, &mut live);
    let ghost walked = cx@;
    cx.store_mut().retain(&live);
    proof {
        assert(cx@ == walked.swept(path_set(live@)));
        assert forall|p: Seq<u64>| path_set(live@).contains(p) implies walked.store.contains_key(
            p,
        ) by {
            let i = choose|i: int| 0 <= i < live@.len() && #[trigger] live@[i]@ == p;
            assert(walked.store.contains_key(live@[i]@));
        }
        assert(cx@.store.dom() =~= path_set(live@));
    }
    live
}

} // verus!
