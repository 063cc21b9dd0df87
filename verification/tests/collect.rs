use rui::{
    collect, state, Binding, Context, EmptyView, Fault, Headless, State, ViewID, ViewNode,
};

/// A node that has its child or not.
struct Maybe<V> {
    child: Option<V>,
}

impl<V: ViewNode<Host = Headless>> ViewNode for Maybe<V> {
    type Host = Headless;

    fn process(&self, event: &(), id: ViewID, cx: &mut Context, vger: &mut ()) {
        if let Some(child) = &self.child {
            child.process(event, id.child(0), cx, vger);
        }
    }

    fn draw(&self, id: ViewID, cx: &mut Context, vger: &mut ()) {
        if let Some(child) = &self.child {
            child.draw(id.child(0), cx, vger);
        }
    }

    fn layout(&self, id: ViewID, sz: (), cx: &mut Context, vger: &mut ()) {
        if let Some(child) = &self.child {
            child.layout(id.child(0), sz, cx, vger);
        }
    }

    fn hittest(&self, id: ViewID, pt: (), cx: &mut Context, vger: &mut ()) -> Option<ViewID> {
        match &self.child {
            Some(child) => child.hittest(id.child(0), pt, cx, vger),
            None => None,
        }
    }

    fn commands(&self, id: ViewID, cx: &mut Context, cmds: &mut Vec<()>) {
        if let Some(child) = &self.child {
            child.commands(id.child(0), cx, cmds);
        }
    }

    fn gc(&self, id: ViewID, cx: &mut Context, map: &mut Vec<ViewID>) {
        if let Some(child) = &self.child {
            child.gc(id.child(0), cx, map);
        }
    }

    fn access(
        &self,
        id: ViewID,
        cx: &mut Context,
        nodes: &mut Vec<(accesskit::NodeId, accesskit::Node)>,
    ) -> Option<accesskit::NodeId> {
        match &self.child {
            Some(child) => child.access(id.child(0), cx, nodes),
            None => None,
        }
    }
}

/// A tree whose root keeps a flag and shows a counter while the flag is set.
fn tree() -> impl ViewNode<Host = Headless> {
    state(
        || true,
        |shown: State<bool>, cx: &Context| Maybe {
            child: if shown.with(|v: &bool| *v, cx) {
                Some(state(|| 7i32, |_n: State<i32>, _cx: &Context| EmptyView::<Headless>::new()))
            } else {
                None
            },
        },
    )
}

#[test]
fn collect_reports_what_the_walk_reaches() {
    let mut cx = Context::new();
    let live = collect(&tree(), &mut cx);
    let counter_id = ViewID::root().child(0).child(0);
    assert_eq!(live, vec![ViewID::root(), counter_id.clone()]);
    assert_eq!(cx.state_count(), 2);
    assert!(cx.has_state(&ViewID::root()));
    assert!(cx.has_state(&counter_id));
    assert!(!cx.has_state(&ViewID::root().child(0)));
}

#[test]
fn collect_removes_the_state_of_a_branch_that_is_gone() {
    let mut cx = Context::new();
    let counter_id = ViewID::root().child(0).child(0);

    let first = collect(&tree(), &mut cx);
    assert_eq!(first.len(), 2);
    let shown = State::<bool>::new(ViewID::root(), &|| true, &mut cx);
    let counter = State::<i32>::new(counter_id.clone(), &|| 0, &mut cx);
    counter.with_mut(|v: &mut i32| *v = 8, &mut cx);
    assert_eq!(counter.resolve(&cx), Ok(()));

    shown.with_mut(|v: &mut bool| *v = false, &mut cx);
    let second = collect(&tree(), &mut cx);
    assert_eq!(second, vec![ViewID::root()]);
    assert_eq!(cx.state_count(), 1);
    assert!(!cx.has_state(&counter_id));
    assert_eq!(counter.resolve(&cx), Err(Fault::Stale));
    assert_eq!(shown.resolve(&cx), Ok(()));
    assert!(!shown.with(|v: &bool| *v, &cx));
}

#[test]
fn a_branch_that_comes_back_starts_afresh() {
    let mut cx = Context::new();
    let counter_id = ViewID::root().child(0).child(0);
    collect(&tree(), &mut cx);
    let shown = State::<bool>::new(ViewID::root(), &|| true, &mut cx);
    let counter = State::<i32>::new(counter_id.clone(), &|| 0, &mut cx);
    counter.with_mut(|v: &mut i32| *v = 8, &mut cx);

    shown.with_mut(|v: &mut bool| *v = false, &mut cx);
    collect(&tree(), &mut cx);
    shown.with_mut(|v: &mut bool| *v = true, &mut cx);
    let live = collect(&tree(), &mut cx);
    assert_eq!(live.len(), 2);
    assert_eq!(counter.resolve(&cx), Ok(()));
    assert_eq!(counter.with(|v: &i32| *v, &cx), 7);
}

#[test]
fn collect_keeps_the_values_of_what_is_reachable() {
    let mut cx = Context::new();
    let counter_id = ViewID::root().child(0).child(0);
    collect(&tree(), &mut cx);
    let counter = State::<i32>::new(counter_id, &|| 0, &mut cx);
    counter.with_mut(|v: &mut i32| *v = 8, &mut cx);
    for _ in 0..3 {
        collect(&tree(), &mut cx);
        assert_eq!(counter.with(|v: &i32| *v, &cx), 8);
    }
}

#[test]
fn collect_removes_cells_that_no_node_owns() {
    let mut cx = Context::new();
    let stray = State::<u64>::new(ViewID::root().child(9), &|| 1, &mut cx);
    let live = collect(&EmptyView::<Headless>::new(), &mut cx);
    assert!(live.is_empty());
    assert_eq!(stray.resolve(&cx), Err(Fault::Stale));
    assert!(!cx.has_state(&ViewID::root().child(9)));
}

#[test]
fn collect_leaves_the_dirty_flag_alone() {
    let mut cx = Context::new();
    collect(&tree(), &mut cx);
    assert!(!rui::is_state_dirty(&cx));
    rui::set_state_dirty(&mut cx);
    collect(&tree(), &mut cx);
    assert!(rui::is_state_dirty(&cx));
}
