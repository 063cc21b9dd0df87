//! The core of a declarative user-interface runtime.
//!
//! Application code describes its views anew on every pass. The description
//! is thrown away after the pass, so whatever has to outlive it is kept
//! elsewhere: in a store of state cells, each under the identity of the
//! node that owns it. This crate is that runtime, proved with Verus:
//!
//! - `viewid`: identities, the paths that address the nodes of a view tree;
//! - `value`: the tagged values that state cells hold;
//! - `store`: the table from identity to cell;
//! - `context`: the evaluation context, with the dirty flag and the wake
//!   signal;
//! - `gstate`: bindings to state, and the node that keeps state;
//! - `work`: the queue of closures that wait for the main thread;
//! - `view`: the protocol of the walks over the view tree;
//! - `gc`: the collection of state that no node owns any more;
//! - `laws`: what holds across calls.
//!
//! Nothing here is global. The context and the work queue are values; a
//! program that wants one of each for the whole process keeps them where it
//! sees fit. Nothing here talks to the host either: a request to wake the
//! event loop is recorded in a `WakeSignal`, and the host takes it from
//! there.

pub mod context;
pub mod gc;
pub mod gstate;
pub mod laws;
pub mod store;
pub mod value;
pub mod view;
pub mod viewid;
pub mod work;

pub use context::{
    clear_state_dirty, is_state_dirty, restore_dirty_tracking, set_state_dirty,
    suspend_dirty_tracking, wake_event_loop, with_dirty_tracking_disabled, Context, ContextView,
    WakeAction, WakeSignal,
};
pub use gc::collect;
pub use gstate::{state, Binding, Fault, State, StateView};
pub use store::{StateCell, StateMap};
pub use value::{AnyValue, StateType, TypeTag};
pub use view::{EmptyView, Headless, Host, ViewNode};
pub use viewid::ViewID;
pub use work::{on_main, run_work, WorkQueue};
