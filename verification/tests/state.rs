use astaire::cell::{CellCore, CellRef, CellState, SysEvent};
use astaire::state::{Lifecycle, Schedule, State, LIFECYCLE_MASK, LIFECYCLE_OFFSET, SCHEDULE_MASK};

#[test]
fn new_state_is_idle_and_new() {
    let s = State::new();
    assert_eq!(s.as_uint(), 0);
    assert_eq!(s.schedule(), Schedule::Idle);
    assert_eq!(s.lifecycle(), Lifecycle::New);
}

#[test]
fn packed_bits_follow_the_layout() {
    assert_eq!(SCHEDULE_MASK, 3);
    assert_eq!(LIFECYCLE_OFFSET, 2);
    assert_eq!(LIFECYCLE_MASK, 12);
    let s = State::new().with_schedule(Schedule::Scheduled);
    assert_eq!(s.as_uint(), 1);
    let s = s.with_lifecycle(Lifecycle::Active);
    assert_eq!(s.as_uint(), 5);
    let s = s.with_schedule(Schedule::Pending).with_lifecycle(Lifecycle::Terminated);
    assert_eq!(s.as_uint(), 15);
    assert_eq!(s.schedule(), Schedule::Pending);
    assert_eq!(s.lifecycle(), Lifecycle::Terminated);
}

#[test]
fn setting_one_field_keeps_the_other_and_high_bits() {
    let s = State::load(0b1101_10);
    assert_eq!(s.schedule(), Schedule::Running);
    assert_eq!(s.lifecycle(), Lifecycle::Active);
    let t = s.with_schedule(Schedule::Idle);
    assert_eq!(t.as_uint(), 0b1101_00);
    assert_eq!(t.lifecycle(), Lifecycle::Active);
    let u = s.with_lifecycle(Lifecycle::Terminating);
    assert_eq!(u.as_uint(), 0b1110_10);
    assert_eq!(u.schedule(), Schedule::Running);
}

#[test]
fn codes_round_trip() {
    for c in 0..4usize {
        assert_eq!(Schedule::from_code(c).code(), c);
        assert_eq!(Lifecycle::from_code(c).code(), c);
    }
    assert_eq!(Schedule::from_code(2), Schedule::Running);
    assert_eq!(Lifecycle::from_code(2), Lifecycle::Terminating);
}

#[test]
fn compare_and_swap_stores_only_on_match() {
    let mut cs = CellState::new();
    let idle = cs.load();
    let sched = idle.with_schedule(Schedule::Scheduled);
    assert_eq!(cs.compare_and_swap(sched, idle), idle);
    assert_eq!(cs.load(), idle);
    assert_eq!(cs.compare_and_swap(idle, sched), idle);
    assert_eq!(cs.load(), sched);
}

fn core_in(life: Lifecycle, sched: Schedule) -> CellCore {
    let mut core = CellCore::new(None);
    let s = core.state.load();
    let t = s.with_lifecycle(life).with_schedule(sched);
    core.state.compare_and_swap(s, t);
    core
}

#[test]
fn new_cell_is_scheduled_only_by_spawn() {
    let mut core = core_in(Lifecycle::New, Schedule::Idle);
    assert!(!core.maybe_schedule(false));
    assert_eq!(core.state.load().schedule(), Schedule::Idle);
    assert!(core.maybe_schedule(true));
    assert_eq!(core.state.load().schedule(), Schedule::Scheduled);
    assert_eq!(core.state.load().lifecycle(), Lifecycle::New);
}

#[test]
fn active_cell_scheduling() {
    let mut idle = core_in(Lifecycle::Active, Schedule::Idle);
    assert!(idle.maybe_schedule(false));
    assert_eq!(idle.state.load().schedule(), Schedule::Scheduled);
    // already scheduled: not queued twice
    assert!(!idle.maybe_schedule(false));
    assert_eq!(idle.state.load().schedule(), Schedule::Scheduled);

    let mut running = core_in(Lifecycle::Terminating, Schedule::Running);
    assert!(!running.maybe_schedule(false));
    assert_eq!(running.state.load().schedule(), Schedule::Pending);
    assert!(!running.maybe_schedule(false));
    assert_eq!(running.state.load().schedule(), Schedule::Pending);
}

#[test]
fn terminated_cell_is_never_scheduled() {
    let mut core = core_in(Lifecycle::Terminated, Schedule::Idle);
    assert!(!core.maybe_schedule(true));
    assert!(!core.maybe_schedule(false));
    assert_eq!(core.state.load().schedule(), Schedule::Idle);
}

#[test]
fn link_and_unlink_children() {
    let mut core = CellCore::new(Some(CellRef::new(0)));
    assert!(!core.has_children());
    let a = CellRef::new(1);
    let b = CellRef::new(2);
    assert_eq!(core.link_child(a), a);
    assert_eq!(core.link_child(b), b);
    assert!(core.has_children());
    assert_eq!(core.child_iter(), vec![b, a]);
    // unlinking undoes linking
    core.unlink_child(b);
    assert_eq!(core.child_iter(), vec![a]);
    // a cell that is not a child: nothing changes
    core.unlink_child(CellRef::new(9));
    assert_eq!(core.child_iter(), vec![a]);
    core.unlink_child(a);
    assert!(!core.has_children());
    assert_eq!(core.supervisor, Some(CellRef::new(0)));
}

#[test]
fn only_spawn_is_spawn() {
    assert!(SysEvent::Spawn.is_spawn());
    assert!(!SysEvent::Terminate.is_spawn());
    assert!(!SysEvent::Link(CellRef::new(1)).is_spawn());
    assert!(!SysEvent::ChildTerminated(CellRef::new(1)).is_spawn());
}
