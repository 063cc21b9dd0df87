use rui::{on_main, run_work, Binding, Context, State, ViewID, WorkQueue};
use std::sync::{Arc, Mutex};

type Task = Box<dyn FnOnce(&mut Context) + Send>;

fn append(log: &State<String>, what: &'static str) -> Task {
    let log = log.clone();
    Box::new(move |cx: &mut Context| {
        log.with_mut(|s: &mut String| s.push_str(what), cx);
    })
}

#[test]
fn work_runs_in_the_order_it_was_scheduled() {
    let mut cx = Context::new();
    let log = State::<String>::new(ViewID::root(), &|| String::new(), &mut cx);
    let mut queue: WorkQueue<Task> = WorkQueue::new();
    assert!(queue.is_empty());
    on_main(&mut queue, append(&log, "f1 "));
    on_main(&mut queue, append(&log, "f2 "));
    on_main(&mut queue, append(&log, "f3 "));
    assert_eq!(queue.len(), 3);
    assert_eq!(log.with(|s: &String| s.clone(), &cx), "");
    let work = queue.drain();
    assert!(queue.is_empty());
    assert_eq!(queue.len(), 0);
    run_work(&mut cx, work);
    assert_eq!(log.with(|s: &String| s.clone(), &cx), "f1 f2 f3 ");
}

#[test]
fn draining_an_empty_queue_gives_nothing() {
    let mut cx = Context::new();
    let mut queue: WorkQueue<Task> = WorkQueue::new();
    let work = queue.drain();
    assert_eq!(work.len(), 0);
    run_work(&mut cx, work);
    assert!(queue.is_empty());
}

#[test]
fn work_scheduled_while_running_waits_for_the_next_drain() {
    let mut cx = Context::new();
    let log = State::<String>::new(ViewID::root(), &|| String::new(), &mut cx);
    let queue: Arc<Mutex<WorkQueue<Task>>> = Arc::new(Mutex::new(WorkQueue::new()));

    let again = {
        let queue = queue.clone();
        let log = log.clone();
        let task: Task = Box::new(move |cx: &mut Context| {
            log.with_mut(|s: &mut String| s.push_str("outer "), cx);
            on_main(&mut queue.lock().unwrap(), append(&log, "inner "));
        });
        task
    };
    on_main(&mut queue.lock().unwrap(), again);
    on_main(&mut queue.lock().unwrap(), append(&log, "next "));

    let first = queue.lock().unwrap().drain();
    assert_eq!(first.len(), 2);
    run_work(&mut cx, first);
    assert_eq!(log.with(|s: &String| s.clone(), &cx), "outer next ");
    assert_eq!(queue.lock().unwrap().len(), 1);

    let second = queue.lock().unwrap().drain();
    run_work(&mut cx, second);
    assert_eq!(log.with(|s: &String| s.clone(), &cx), "outer next inner ");
    assert!(queue.lock().unwrap().is_empty());
}
