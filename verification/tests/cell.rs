use astaire::actor::{Actor, Context, Job};
use astaire::cell::{CellRef, SysEvent};
use astaire::runtime::Runtime;
use astaire::state::{Lifecycle, Schedule};

struct MyActor;

impl Actor<u32> for MyActor {
    fn receive(&mut self, msg: u32, _ctx: &mut Context<MyActor, u32>) {
        println!("Got {}", msg);
    }
}

struct NoJob;

impl Job for NoJob {
    fn run(self) {}
}

type Rt = Runtime<MyActor, u32, NoJob>;

fn new_cell(rt: &mut Rt) -> CellRef {
    let supervisor = rt.user_ref().unwrap();
    rt.new_cell(MyActor, Some(supervisor))
}

#[test]
pub fn test_basic_cell_operation() {
    let mut rt: Rt = Runtime::new();
    let cell = new_cell(&mut rt);
    let supervisor = rt.supervisor(cell).unwrap();

    // The state of the cell starts off as New
    assert!(rt.cell_state(cell).lifecycle() == Lifecycle::New);

    // The supervisor should not contain the child
    assert!(!rt.has_child(supervisor, cell));

    // Initialize the supervisor and have it spawn the child actor
    assert!(supervisor.deliver_sys_event(&mut rt, SysEvent::Spawn));
    assert!(!supervisor.deliver_sys_event(&mut rt, SysEvent::Link(cell)));
    assert!(!supervisor.tick(&mut rt));

    // The supervisor should transition to the Active state
    assert!(
        rt.cell_state(supervisor).lifecycle() == Lifecycle::Active,
        "actual={:?}",
        rt.cell_state(supervisor)
    );

    // The supervisor should contain the child
    assert!(rt.has_child(supervisor, cell));

    // MyActor should be scheduled for execution, but still in new state
    assert!(rt.cell_state(cell).lifecycle() == Lifecycle::New, "actual={:?}", rt.cell_state(cell));
    assert!(rt.cell_state(cell).schedule() == Schedule::Scheduled, "actual={:?}", rt.cell_state(cell));

    // The actor should transition to Active
    assert!(!cell.tick(&mut rt));
    assert!(rt.cell_state(cell).lifecycle() == Lifecycle::Active, "actual={:?}", rt.cell_state(cell));
    assert!(rt.cell_state(cell).schedule() == Schedule::Idle, "actual={:?}", rt.cell_state(cell));
}

#[test]
pub fn test_receiving_terminate_before_spawn() {}
