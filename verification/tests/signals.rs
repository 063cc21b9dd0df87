use rui::{
    on_main, wake_event_loop, Binding, Context, State, ViewID, WakeAction, WakeSignal, WorkQueue,
};

type Task = Box<dyn FnOnce(&mut Context) + Send>;

#[test]
fn a_wake_without_a_host_does_nothing() {
    let mut signal = WakeSignal::new();
    assert_eq!(signal, WakeSignal { host: false, pending: false });
    wake_event_loop(&mut signal);
    assert_eq!(signal, WakeSignal { host: false, pending: false });
    assert_eq!(signal.take(), WakeAction::Idle);
    signal.attach();
    assert_eq!(signal.take(), WakeAction::Idle);
}

#[test]
fn a_wake_with_a_host_waits_to_be_taken() {
    let mut signal = WakeSignal::new();
    signal.attach();
    assert_eq!(signal, WakeSignal { host: true, pending: false });
    wake_event_loop(&mut signal);
    wake_event_loop(&mut signal);
    assert_eq!(signal, WakeSignal { host: true, pending: true });
    assert_eq!(signal.take(), WakeAction::Notify);
    assert_eq!(signal, WakeSignal { host: true, pending: false });
    assert_eq!(signal.take(), WakeAction::Idle);
}

#[test]
fn detach_drops_what_is_pending() {
    let mut signal = WakeSignal::new();
    signal.attach();
    wake_event_loop(&mut signal);
    signal.detach();
    assert_eq!(signal, WakeSignal { host: false, pending: false });
    assert_eq!(signal.take(), WakeAction::Idle);
}

#[test]
fn every_write_asks_for_a_wake() {
    let mut cx = Context::new();
    let state = State::<i32>::new(ViewID::root(), &|| 0, &mut cx);
    state.with_mut(|v: &mut i32| *v = 1, &mut cx);
    assert_eq!(cx.take_wake(), WakeAction::Idle);
    cx.attach_host();
    assert_eq!(cx.take_wake(), WakeAction::Idle);
    let _ = state.with(|v: &i32| *v, &cx);
    assert_eq!(cx.take_wake(), WakeAction::Idle);
    state.with_mut(|_v: &mut i32| (), &mut cx);
    assert_eq!(cx.take_wake(), WakeAction::Notify);
    assert_eq!(cx.take_wake(), WakeAction::Idle);
}

#[test]
fn scheduling_asks_for_a_wake() {
    let mut queue: WorkQueue<Task> = WorkQueue::new();
    on_main(&mut queue, Box::new(|_cx: &mut Context| ()));
    assert_eq!(queue.take_wake(), WakeAction::Idle);
    queue.attach_host();
    on_main(&mut queue, Box::new(|_cx: &mut Context| ()));
    assert_eq!(queue.len(), 2);
    assert_eq!(queue.take_wake(), WakeAction::Notify);
    assert_eq!(queue.take_wake(), WakeAction::Idle);
    assert_eq!(queue.len(), 2);
}
