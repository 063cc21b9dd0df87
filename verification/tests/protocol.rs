use rui::{state, Binding, Context, EmptyView, Headless, State, ViewID, ViewNode};

/// A leaf that keeps a note of the identity under which each walk reached it.
struct Recorder {
    seen: std::rc::Rc<std::cell::RefCell<Vec<(String, Vec<u64>)>>>,
}

impl Recorder {
    fn note(&self, walk: &str, id: &ViewID) {
        self.seen.borrow_mut().push((walk.to_string(), id.keys()));
    }
}

impl ViewNode for Recorder {
    type Host = Headless;

    fn process(&self, _event: &(), id: ViewID, _cx: &mut Context, _vger: &mut ()) {
        self.note("process", &id);
    }

    fn draw(&self, id: ViewID, _cx: &mut Context, _vger: &mut ()) {
        self.note("draw", &id);
    }

    fn layout(&self, id: ViewID, sz: (), _cx: &mut Context, _vger: &mut ()) {
        self.note("layout", &id);
        sz
    }

    fn hittest(&self, id: ViewID, _pt: (), _cx: &mut Context, _vger: &mut ()) -> Option<ViewID> {
        self.note("hittest", &id);
        Some(id)
    }

    fn commands(&self, id: ViewID, _cx: &mut Context, cmds: &mut Vec<()>) {
        self.note("commands", &id);
        cmds.push(());
    }

    fn gc(&self, id: ViewID, _cx: &mut Context, _map: &mut Vec<ViewID>) {
        self.note("gc", &id);
    }

    fn access(
        &self,
        id: ViewID,
        _cx: &mut Context,
        nodes: &mut Vec<(accesskit::NodeId, accesskit::Node)>,
    ) -> Option<accesskit::NodeId> {
        self.note("access", &id);
        let node_id = accesskit::NodeId(7);
        nodes.push((node_id, accesskit::Node::new(accesskit::Role::Unknown)));
        Some(node_id)
    }
}

#[test]
fn state_view_walks_its_child_under_one_identity() {
    let seen = std::rc::Rc::new(std::cell::RefCell::new(Vec::new()));
    let log = seen.clone();
    let view = state(
        || 0i32,
        move |_s: State<i32>, _cx: &Context| Recorder { seen: log.clone() },
    );
    let mut cx = Context::new();
    let at = ViewID::root().child(4);
    view.process(&(), at.clone(), &mut cx, &mut ());
    view.draw(at.clone(), &mut cx, &mut ());
    view.layout(at.clone(), (), &mut cx, &mut ());
    let hit = view.hittest(at.clone(), (), &mut cx, &mut ());
    let mut cmds = Vec::new();
    view.commands(at.clone(), &mut cx, &mut cmds);
    let mut ids = Vec::new();
    view.gc(at.clone(), &mut cx, &mut ids);
    let mut nodes = Vec::new();
    let node = view.access(at.clone(), &mut cx, &mut nodes);

    let walks: Vec<String> = seen.borrow().iter().map(|(w, _)| w.clone()).collect();
    assert_eq!(walks, vec!["process", "draw", "layout", "hittest", "commands", "gc", "access"]);
    for (_, id) in seen.borrow().iter() {
        assert_eq!(id, &vec![4u64, 0u64]);
    }
    assert_eq!(hit.map(|h| h.keys()), Some(vec![4u64, 0u64]));
    assert_eq!(cmds.len(), 1);
    assert_eq!(ids.len(), 1);
    assert_eq!(ids[0].keys(), vec![4u64]);
    assert_eq!(node, Some(accesskit::NodeId(7)));
    assert_eq!(nodes.len(), 1);
    let _ = EmptyView::<Headless>::new();
}

#[test]
fn an_empty_view_changes_nothing() {
    let view = EmptyView::<Headless>::new();
    let mut cx = Context::new();
    let id = ViewID::root().child(1);
    view.process(&(), id.clone(), &mut cx, &mut ());
    view.draw(id.clone(), &mut cx, &mut ());
    view.layout(id.clone(), (), &mut cx, &mut ());
    assert!(view.hittest(id.clone(), (), &mut cx, &mut ()).is_none());
    let mut cmds = Vec::new();
    view.commands(id.clone(), &mut cx, &mut cmds);
    assert!(cmds.is_empty());
    let mut ids = vec![ViewID::root()];
    view.gc(id.clone(), &mut cx, &mut ids);
    assert_eq!(ids, vec![ViewID::root()]);
    let mut nodes = Vec::new();
    assert!(view.access(id.clone(), &mut cx, &mut nodes).is_none());
    assert!(nodes.is_empty());
    assert!(!cx.has_state(&id));
    assert!(!rui::is_state_dirty(&cx));
}

#[test]
fn every_walk_makes_the_cell_if_it_is_missing() {
    let at = ViewID::root().child(2);
    let make = || state(|| 5u64, |_s: State<u64>, _cx: &Context| EmptyView::<Headless>::new());

    let mut cx = Context::new();
    make().process(&(), at.clone(), &mut cx, &mut ());
    assert_eq!(cx.state_tag(&at), Some(rui::TypeTag::U64));

    let mut cx = Context::new();
    make().draw(at.clone(), &mut cx, &mut ());
    assert!(cx.has_state(&at));

    let mut cx = Context::new();
    make().layout(at.clone(), (), &mut cx, &mut ());
    assert!(cx.has_state(&at));

    let mut cx = Context::new();
    assert!(make().hittest(at.clone(), (), &mut cx, &mut ()).is_none());
    assert!(cx.has_state(&at));

    let mut cx = Context::new();
    make().commands(at.clone(), &mut cx, &mut Vec::new());
    assert!(cx.has_state(&at));

    let mut cx = Context::new();
    let mut ids = Vec::new();
    make().gc(at.clone(), &mut cx, &mut ids);
    assert!(cx.has_state(&at));
    assert_eq!(ids, vec![at.clone()]);

    let mut cx = Context::new();
    assert!(make().access(at.clone(), &mut cx, &mut Vec::new()).is_none());
    assert!(cx.has_state(&at));
    assert!(!cx.has_state(&at.child(0)));
    assert!(!rui::is_state_dirty(&cx));
}

#[test]
fn the_child_is_built_from_the_state_as_it_is() {
    let seen = std::rc::Rc::new(std::cell::RefCell::new(Vec::new()));
    let log = seen.clone();
    let view = state(
        || 1i32,
        move |s: State<i32>, cx: &Context| {
            log.borrow_mut().push(s.with(|v: &i32| *v, cx));
            EmptyView::<Headless>::new()
        },
    );
    let mut cx = Context::new();
    view.draw(ViewID::root(), &mut cx, &mut ());
    let binding = State::<i32>::new(ViewID::root(), &|| 100, &mut cx);
    binding.with_mut(|v: &mut i32| *v = 2, &mut cx);
    view.draw(ViewID::root(), &mut cx, &mut ());
    view.layout(ViewID::root(), (), &mut cx, &mut ());
    assert_eq!(*seen.borrow(), vec![1, 2, 2]);
}

#[test]
fn nested_state_views_keep_their_cells_apart() {
    let view = state(
        || 10i32,
        |_outer: State<i32>, _cx: &Context| {
            state(|| "inner".to_string(), |_inner: State<String>, _cx: &Context| {
                EmptyView::<Headless>::new()
            })
        },
    );
    let mut cx = Context::new();
    let mut ids = Vec::new();
    view.gc(ViewID::root(), &mut cx, &mut ids);
    assert_eq!(ids, vec![ViewID::root(), ViewID::root().child(0)]);
    let outer = State::<i32>::new(ViewID::root(), &|| 0, &mut cx);
    let inner = State::<String>::new(ViewID::root().child(0), &|| String::new(), &mut cx);
    assert_eq!(outer.with(|v: &i32| *v, &cx), 10);
    assert_eq!(inner.with(|v: &String| v.clone(), &cx), "inner");
    assert!(!cx.has_state(&ViewID::root().child(0).child(0)));
}

/// A leaf that sets its state when an event reaches it.
struct Button {
    pressed: State<bool>,
}
impl ViewNode for Button {
    type Host = Headless;

    fn process(&self, _event: &(), _id: ViewID, cx: &mut Context, _vger: &mut ()) {
        self.pressed.with_mut(|v: &mut bool| *v = true, cx);
    }

    fn draw(&self, _id: ViewID, _cx: &mut Context, _vger: &mut ()) {}

    fn layout(&self, _id: ViewID, sz: (), _cx: &mut Context, _vger: &mut ()) {
        sz
    }

    fn hittest(&self, id: ViewID, _pt: (), _cx: &mut Context, _vger: &mut ()) -> Option<ViewID> {
        Some(id)
    }

    fn commands(&self, _id: ViewID, _cx: &mut Context, _cmds: &mut Vec<()>) {}

    fn gc(&self, _id: ViewID, _cx: &mut Context, _map: &mut Vec<ViewID>) {}

    fn access(
        &self,
        _id: ViewID,
        _cx: &mut Context,
        _nodes: &mut Vec<(accesskit::NodeId, accesskit::Node)>,
    ) -> Option<accesskit::NodeId> {
        None
    }
}

#[test]
fn a_handler_that_writes_marks_the_context_dirty() {
    let view = state(|| false, |pressed: State<bool>, _cx: &Context| Button { pressed });
    let mut cx = Context::new();
    cx.attach_host();
    view.draw(ViewID::root(), &mut cx, &mut ());
    assert!(!rui::is_state_dirty(&cx));
    assert_eq!(cx.take_wake(), rui::WakeAction::Idle);
    view.process(&(), ViewID::root(), &mut cx, &mut ());
    assert!(rui::is_state_dirty(&cx));
    assert_eq!(cx.take_wake(), rui::WakeAction::Notify);
    let pressed = State::<bool>::new(ViewID::root(), &|| false, &mut cx);
    assert!(pressed.with(|v: &bool| *v, &cx));
    assert_eq!(
        view.hittest(ViewID::root(), (), &mut cx, &mut ()),
        Some(ViewID::root().child(0))
    );
}
