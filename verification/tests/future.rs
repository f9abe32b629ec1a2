use std::sync::{Arc, Mutex};

use astaire::actor::{Actor, Context, Job};
use astaire::future::{Core, Future, FutureRef, FutureState, FutureTable};
use astaire::runtime::{Runtime, WorkerStep};

type Log = Arc<Mutex<Vec<u32>>>;

struct Quiet;

impl Actor<u32> for Quiet {
    fn receive(&mut self, _msg: u32, _ctx: &mut Context<Quiet, u32>) {}
}

struct Note {
    log: Log,
    val: u32,
}

impl Job for Note {
    fn run(self) {
        self.log.lock().unwrap().push(self.val);
    }
}

type Rt = Runtime<Quiet, u32, Note>;

fn drain(rt: &mut Rt) {
    for _ in 0..1000 {
        if rt.run_once() == WorkerStep::Idle {
            return;
        }
    }
    panic!("the run queue did not drain");
}

#[test]
fn core_put_then_take() {
    let mut core: Core<u32, u8> = Core::new();
    assert!(core.state.is_pending());
    core.put(4);
    assert_eq!(core.take(), 4);
    assert!(core.val.is_none());
}

#[test]
fn core_waiters_are_handed_over_once() {
    let mut core: Core<u32, u8> = Core::new();
    assert_eq!(core.push_consumer_wait(1), 0);
    assert_eq!(core.push_consumer_wait(2), 1);
    assert!(core.state.is_consumer_wait());
    match core.take_consumer_wait() {
        FutureState::ConsumerWait(ws) => assert_eq!(ws, vec![Some(1), Some(2)]),
        _ => panic!("expected the waiters"),
    }
    assert!(core.state.is_ready());
    assert!(!core.state.is_canceled());
    match core.take_consumer_wait() {
        FutureState::Complete => {}
        _ => panic!("expected Complete"),
    }
}

#[test]
fn put_queues_the_waiting_jobs_on_their_cells() {
    let l: Log = Arc::new(Mutex::new(Vec::new()));
    let mut rt: Rt = Runtime::new();
    drain(&mut rt);
    let c = rt.spawn(Quiet, None);
    drain(&mut rt);

    let mut table: FutureTable<u32, Note> = FutureTable::new();
    let (f, p) = table.pair();
    let id = f.inner;
    assert!(!table.ready(f, c, Note { log: l.clone(), val: 1 }));
    assert!(!table.ready(Future { inner: id }, c, Note { log: l.clone(), val: 2 }));
    assert!(l.lock().unwrap().is_empty());
    table.put(&mut rt, p, 123);
    drain(&mut rt);
    assert_eq!(*l.lock().unwrap(), vec![1, 2]);
    // the future is complete now: a new consumer runs at once
    assert!(table.ready(Future { inner: id }, c, Note { log: l.clone(), val: 3 }));
    assert_eq!(*l.lock().unwrap(), vec![1, 2, 3]);
    assert_eq!(table.unwrap(Future { inner: id }), 123);
}

#[test]
fn linked_future_gets_the_value() {
    let mut rt: Rt = Runtime::new();
    let mut table: FutureTable<u32, Note> = FutureTable::new();
    let (f1, p1) = table.pair();
    let (f2, _p2) = table.pair();
    let id2 = f2.inner;
    table.link(&mut rt, f1, f2);
    table.put(&mut rt, p1, 9);
    assert_eq!(table.unwrap(Future { inner: id2 }), 9);
}

#[test]
fn link_of_a_complete_future_moves_the_value() {
    let l: Log = Arc::new(Mutex::new(Vec::new()));
    let mut rt: Rt = Runtime::new();
    drain(&mut rt);
    let c = rt.spawn(Quiet, None);
    drain(&mut rt);
    let mut table: FutureTable<u32, Note> = FutureTable::new();
    let (f1, p1) = table.pair();
    let id1 = f1.inner;
    assert!(!table.ready(f1, c, Note { log: l.clone(), val: 5 }));
    table.put(&mut rt, p1, 31);
    let (f2, _p2) = table.pair();
    let id2 = f2.inner;
    table.link(&mut rt, Future { inner: id1 }, f2);
    assert_eq!(table.unwrap(Future { inner: id2 }), 31);
}

#[test]
fn request_shares_its_future() {
    let mut table: FutureTable<u32, Note> = FutureTable::new();
    let (req, f) = table.request("hello");
    assert_eq!(req.message, "hello");
    assert_eq!(req.response.value.inner, f.inner);
    assert_eq!(f.inner, FutureRef { id: 0 });
}

#[test]
fn a_future_put_without_waiters_is_complete() {
    let l: Log = Arc::new(Mutex::new(Vec::new()));
    let mut rt: Rt = Runtime::new();
    drain(&mut rt);
    let c = rt.spawn(Quiet, None);
    drain(&mut rt);
    let mut table: FutureTable<u32, Note> = FutureTable::new();
    let (f, p) = table.pair();
    let id = f.inner;
    table.put(&mut rt, p, 17);
    // nobody waited: the job of a later consumer runs at once
    assert!(table.ready(f, c, Note { log: l.clone(), val: 4 }));
    assert_eq!(*l.lock().unwrap(), vec![4]);
    assert_eq!(table.unwrap(Future { inner: id }), 17);
}

#[test]
fn link_of_a_put_future_completes_the_other() {
    let l: Log = Arc::new(Mutex::new(Vec::new()));
    let mut rt: Rt = Runtime::new();
    drain(&mut rt);
    let c = rt.spawn(Quiet, None);
    drain(&mut rt);
    let mut table: FutureTable<u32, Note> = FutureTable::new();
    let (f1, p1) = table.pair();
    let (f2, _p2) = table.pair();
    let id2 = f2.inner;
    // a consumer waits on the second future
    assert!(!table.ready(Future { inner: id2 }, c, Note { log: l.clone(), val: 8 }));
    table.put(&mut rt, p1, 55);
    table.link(&mut rt, f1, f2);
    drain(&mut rt);
    assert_eq!(*l.lock().unwrap(), vec![8]);
    assert_eq!(table.unwrap(Future { inner: id2 }), 55);
}
