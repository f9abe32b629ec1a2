use std::sync::{Arc, Mutex};

use astaire::actor::{Actor, Context, Job};
use astaire::cell::{CellRef, SysEvent};
use astaire::runtime::{Runtime, RuntimeState, SchedulerState, WorkerStep};
use astaire::state::{Lifecycle, Schedule};
use astaire::system::System;

type Log = Arc<Mutex<Vec<u32>>>;

struct Recorder {
    log: Log,
}

impl Actor<u32> for Recorder {
    fn prepare(&mut self) {
        self.log.lock().unwrap().push(1000);
    }

    fn receive(&mut self, msg: u32, _ctx: &mut Context<Recorder, u32>) {
        self.log.lock().unwrap().push(msg);
    }
}

struct Note {
    log: Log,
    val: u32,
}

impl Job for Note {
    fn run(self) {
        self.log.lock().unwrap().push(self.val);
    }
}

type Rt = Runtime<Recorder, u32, Note>;

fn drain(rt: &mut Rt) -> Vec<WorkerStep> {
    let mut steps = Vec::new();
    for _ in 0..1000 {
        let step = rt.run_once();
        if step == WorkerStep::Idle || step == WorkerStep::Stopped {
            steps.push(step);
            return steps;
        }
        steps.push(step);
    }
    panic!("the run queue did not drain");
}

fn log() -> Log {
    Arc::new(Mutex::new(Vec::new()))
}

#[test]
fn new_runtime_boots_root_and_user() {
    let mut rt: Rt = Runtime::new();
    assert_eq!(rt.num_cells(), 2);
    let sys = rt.sys_actors().unwrap();
    assert_eq!(sys.init, CellRef::new(0));
    assert_eq!(sys.user, CellRef::new(1));
    assert_eq!(rt.user_ref(), Some(sys.user));
    assert_eq!(rt.supervisor(sys.user), Some(sys.init));
    assert_eq!(rt.supervisor(sys.init), None);
    // the root is spawned at once, the user actor waits for the root
    assert_eq!(rt.cell_state(sys.init).schedule(), Schedule::Scheduled);
    assert_eq!(rt.cell_state(sys.user).schedule(), Schedule::Idle);
    assert_eq!(rt.state(), RuntimeState::New);
    assert_eq!(rt.scheduler_state(), SchedulerState::Running);

    let steps = drain(&mut rt);
    assert_eq!(steps, vec![WorkerStep::Ticked(sys.init), WorkerStep::Ticked(sys.user), WorkerStep::Idle]);
    assert_eq!(rt.cell_state(sys.init).lifecycle(), Lifecycle::Active);
    assert_eq!(rt.cell_state(sys.user).lifecycle(), Lifecycle::Active);
    assert_eq!(rt.children(sys.init), vec![sys.user]);
}

#[test]
fn spawned_actor_is_prepared_then_gets_messages_in_order() {
    let l = log();
    let mut rt: Rt = Runtime::new();
    drain(&mut rt);
    let user = rt.user_ref().unwrap();
    let c = rt.spawn(Recorder { log: l.clone() }, None);
    assert_eq!(rt.supervisor(c), Some(user));
    drain(&mut rt);
    assert!(rt.has_child(user, c));
    assert_eq!(rt.cell_state(c).lifecycle(), Lifecycle::Active);
    assert_eq!(*l.lock().unwrap(), vec![1000]);

    rt.send(c, 5);
    rt.send(c, 6);
    assert_eq!(rt.cell_state(c).schedule(), Schedule::Scheduled);
    // one message per tick; the cell goes back on the queue while it has work
    let steps = drain(&mut rt);
    assert_eq!(steps, vec![WorkerStep::Ticked(c), WorkerStep::Ticked(c), WorkerStep::Ticked(c), WorkerStep::Idle]);
    assert_eq!(*l.lock().unwrap(), vec![1000, 5, 6]);
    assert_eq!(rt.cell_state(c).schedule(), Schedule::Idle);
}

#[test]
fn messages_sent_before_spawn_wait() {
    let l = log();
    let mut rt: Rt = Runtime::new();
    let c = rt.spawn(Recorder { log: l.clone() }, None);
    rt.send(c, 7);
    // the cell is not spawned yet: not scheduled
    assert_eq!(rt.cell_state(c).schedule(), Schedule::Idle);
    drain(&mut rt);
    // spawned and prepared, then the waiting message is handled
    assert_eq!(rt.cell_state(c).lifecycle(), Lifecycle::Active);
    assert_eq!(*l.lock().unwrap(), vec![1000, 7]);
    assert_eq!(rt.cell_state(c).schedule(), Schedule::Idle);
    rt.send(c, 8);
    drain(&mut rt);
    assert_eq!(*l.lock().unwrap(), vec![1000, 7, 8]);
}

#[test]
fn termination_reaches_children_and_supervisor() {
    let l = log();
    let mut rt: Rt = Runtime::new();
    drain(&mut rt);
    let user = rt.user_ref().unwrap();
    let parent = rt.spawn(Recorder { log: l.clone() }, None);
    let child = rt.spawn(Recorder { log: l.clone() }, Some(parent));
    drain(&mut rt);
    assert_eq!(rt.children(parent), vec![child]);
    assert_eq!(rt.cell_state(child).lifecycle(), Lifecycle::Active);

    rt.sys_dispatch(parent, SysEvent::Terminate);
    drain(&mut rt);
    assert_eq!(rt.cell_state(child).lifecycle(), Lifecycle::Terminated);
    assert_eq!(rt.cell_state(parent).lifecycle(), Lifecycle::Terminated);
    assert!(!rt.has_child(parent, child));
    assert!(!rt.has_child(user, parent));
    assert_eq!(rt.cell_state(user).lifecycle(), Lifecycle::Active);

    // a terminated cell is not scheduled again
    rt.send(parent, 3);
    assert_eq!(rt.cell_state(parent).schedule(), Schedule::Idle);
}

#[test]
fn terminate_before_spawn_is_a_fault() {
    let l = log();
    let mut rt: Rt = Runtime::new();
    let c = rt.new_cell(Recorder { log: l }, None);
    rt.sys_dispatch(c, SysEvent::Terminate);
    assert_eq!(rt.cell_state(c).schedule(), Schedule::Idle);
    rt.sys_dispatch(c, SysEvent::Spawn);
    assert!(!rt.check_tick(c));
    let steps = drain(&mut rt);
    assert!(steps.contains(&WorkerStep::Faulted(c)));
}

#[test]
fn check_tick_leaves_the_mailbox_as_it_was() {
    let l = log();
    let mut rt: Rt = Runtime::new();
    let c = rt.new_cell(Recorder { log: l.clone() }, None);
    rt.sys_dispatch(c, SysEvent::Spawn);
    assert!(rt.check_tick(c));
    assert!(rt.check_tick(c));
    assert!(!c.tick(&mut rt));
    assert_eq!(rt.cell_state(c).lifecycle(), Lifecycle::Active);
    assert_eq!(*l.lock().unwrap(), vec![1000]);
    // an idle cell is not to be ticked
    assert!(!rt.check_tick(c));
    assert!(!rt.check_tick(CellRef::new(99)));
}

#[test]
fn jobs_run_in_the_cell() {
    let l = log();
    let mut rt: Rt = Runtime::new();
    drain(&mut rt);
    let c = rt.spawn(Recorder { log: l.clone() }, None);
    drain(&mut rt);
    let job = c.schedule(Note { log: l.clone(), val: 77 });
    assert_eq!(job.cell, c);
    job.call(&mut rt);
    drain(&mut rt);
    assert_eq!(*l.lock().unwrap(), vec![1000, 77]);
}

#[test]
fn start_and_shutdown_happen_once() {
    let mut rt: Rt = Runtime::new();
    assert!(rt.start());
    assert!(!rt.start());
    assert_eq!(rt.state(), RuntimeState::Running);
    assert!(rt.shutdown());
    assert_eq!(rt.state(), RuntimeState::Shutdown);
    assert_eq!(rt.scheduler_state(), SchedulerState::Terminating);
    assert!(!rt.shutdown());
    // the worker stops at Terminate, after the work queued before it
    let steps = drain(&mut rt);
    assert_eq!(*steps.last().unwrap(), WorkerStep::Stopped);
    assert!(steps.contains(&WorkerStep::Ticked(CellRef::new(0))));
    assert_eq!(rt.scheduler_state(), SchedulerState::Terminated);
}

#[test]
fn deliver_sys_event_does_not_queue() {
    let mut rt: Rt = Runtime::new();
    let c = rt.new_cell(Recorder { log: log() }, None);
    assert!(c.deliver_sys_event(&mut rt, SysEvent::Spawn));
    assert_eq!(rt.cell_state(c).schedule(), Schedule::Scheduled);
    // only the root's task is queued
    let steps = drain(&mut rt);
    assert!(!steps.contains(&WorkerStep::Ticked(c)));
}

#[test]
fn system_spawns_and_sends() {
    let l = log();
    let mut sys: System<Recorder, u32, Note> = System::new();
    let a = sys.spawn(Recorder { log: l.clone() });
    assert_eq!(sys.runtime().state(), RuntimeState::Running);
    let b = sys.spawn_link(Recorder { log: l.clone() }, &a);
    assert_eq!(sys.runtime().supervisor(b.cell), Some(a.cell));
    assert_eq!(astaire::system::to_ref(&a), a.cell);
    assert_eq!(astaire::system::new(a.cell), a);
    for _ in 0..100 {
        if sys.run_once() == WorkerStep::Idle {
            break;
        }
    }
    a.send(&mut sys, 11);
    b.send(&mut sys, 12);
    for _ in 0..100 {
        if sys.run_once() == WorkerStep::Idle {
            break;
        }
    }
    assert_eq!(*l.lock().unwrap(), vec![1000, 1000, 11, 12]);
    assert_eq!(sys.shutdown_timed(50), Some(50));
    assert_eq!(sys.shutdown(), None);
}

#[test]
fn sends_without_a_tick_queue_the_cell_once() {
    let l = log();
    let mut rt: Rt = Runtime::new();
    drain(&mut rt);
    let c = rt.spawn(Recorder { log: l.clone() }, None);
    drain(&mut rt);
    rt.send(c, 1);
    rt.send(c, 2);
    rt.send(c, 3);
    // one Task for the three sends: the first tick is the only one queued
    assert_eq!(rt.run_once(), WorkerStep::Ticked(c));
    assert_eq!(*l.lock().unwrap(), vec![1000, 1]);
    let steps = drain(&mut rt);
    assert_eq!(steps, vec![WorkerStep::Ticked(c), WorkerStep::Ticked(c), WorkerStep::Ticked(c), WorkerStep::Idle]);
    assert_eq!(*l.lock().unwrap(), vec![1000, 1, 2, 3]);
}

#[test]
fn starts_and_shutdowns_repeated_act_once() {
    let mut rt: Rt = Runtime::new();
    let started: Vec<bool> = (0..4).map(|_| rt.start()).collect();
    assert_eq!(started, vec![true, false, false, false]);
    let waits: Vec<bool> = (0..3).map(|_| rt.shutdown()).collect();
    assert_eq!(waits, vec![true, false, false]);
    assert!(!rt.start());
    assert_eq!(rt.state(), RuntimeState::Shutdown);
}

struct Relay {
    log: Log,
    next: Option<CellRef>,
}

impl Actor<u32> for Relay {
    fn receive(&mut self, msg: u32, ctx: &mut Context<Relay, u32>) {
        self.log.lock().unwrap().push(msg);
        if msg == 0 {
            ctx.spawn(Relay { log: self.log.clone(), next: None }, None);
        } else if let Some(n) = self.next {
            ctx.send(n, msg - 1);
        }
    }
}

type RelayRt = Runtime<Relay, u32, Note>;

fn drain_relay(rt: &mut RelayRt) {
    for _ in 0..1000 {
        let step = rt.run_once();
        if step == WorkerStep::Idle {
            return;
        }
    }
    panic!("the run queue did not drain");
}

#[test]
fn actors_send_to_each_other() {
    let l = log();
    let mut rt: RelayRt = Runtime::new();
    let a = rt.spawn(Relay { log: l.clone(), next: None }, None);
    let b = rt.spawn(Relay { log: l.clone(), next: Some(a) }, None);
    let c = rt.spawn(Relay { log: l.clone(), next: Some(b) }, None);
    drain_relay(&mut rt);
    rt.send(c, 3);
    drain_relay(&mut rt);
    // c gets 3 and sends 2 to b, which sends 1 to a
    assert_eq!(*l.lock().unwrap(), vec![3, 2, 1]);
}

#[test]
fn an_actor_spawns_under_itself_by_default() {
    let l = log();
    let mut rt: RelayRt = Runtime::new();
    let a = rt.spawn(Relay { log: l.clone(), next: None }, None);
    drain_relay(&mut rt);
    let n = rt.num_cells();
    rt.send(a, 0);
    drain_relay(&mut rt);
    assert_eq!(rt.num_cells(), n + 1);
    let child = CellRef::new(n);
    assert_eq!(rt.supervisor(child), Some(a));
    assert!(rt.has_child(a, child));
    assert_eq!(rt.cell_state(child).lifecycle(), Lifecycle::Active);
    assert_eq!(*l.lock().unwrap(), vec![0]);
}
