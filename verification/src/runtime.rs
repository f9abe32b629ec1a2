//! The runtime: the cells, the run queue that the worker drains, and the
//! lifecycle of the whole system.
use vstd::prelude::*;
use syncbox::LinkedQueue;
use crate::actor::{Actor, Context, Effect, Init, Job, User};
use crate::asynchronous::{Async, Request, Response};
use crate::cell::{
    remove_child, completes, drain_cell, drain_ok, flags_after, refs_ok, remove_first, sys_step_cell,
    sys_step_ok, sys_step_sends, target_ok, targets_ok, ActorSlot, CellInner, CellRef, CellView,
    DrainFlags, Event, SysEvent,
};
use crate::queue::{
    op_queue_new, op_queue_poll, op_queue_put, ops_in, sys_queue_poll, sys_queue_put,
};
use crate::state::{
    end_tick, lemma_set_life, lemma_set_life_high, lemma_set_sched, schedule_step, terminate_step, Lifecycle,
    Schedule, State,
};

verus! {

/// An entry of the run queue.
#[derive(Clone, Copy, Debug, PartialEq, Eq, Structural)]
pub enum Op {
    /// Tick the cell.
    Task(CellRef),
    /// Stop the worker.
    Terminate,
}

/// The state of the scheduler's worker.
#[derive(Clone, Copy, Debug, PartialEq, Eq, Structural)]
pub enum SchedulerState {
    Running,
    Terminating,
    Terminated,
}

/// The run queue and the state of the worker that drains it.
pub struct Scheduler {
    queue: LinkedQueue<Op>,
    state: SchedulerState,
}

impl Scheduler {
    /// The operations on the run queue, oldest first.
    pub closed spec fn ops(&self) -> Seq<Op> {
        ops_in(self.queue)
    }

    /// The state of the worker.
    pub closed spec fn worker(&self) -> SchedulerState {
        self.state
    }

    /// An empty run queue; the worker is running.
    pub fn new() -> (r: Scheduler)
        ensures
            r.ops() == Seq::<Op>::empty(),
            r.worker() == SchedulerState::Running,
    {
        Scheduler { queue: op_queue_new(), state: SchedulerState::Running }
    }
}

/// The two cells every runtime starts with.
#[derive(Clone, Copy, Debug, PartialEq, Eq, Structural)]
pub struct SysActors {
    pub init: CellRef,
    pub user: CellRef,
}

/// The lifecycle of a runtime.
#[derive(Clone, Copy, Debug, PartialEq, Eq, Structural)]
pub enum RuntimeState {
    New,
    Running,
    ShuttingDown,
    Shutdown,
}

/// A runtime: its cells, indexed by `CellRef`, and its scheduler.
pub struct Runtime<A, M, J> {
    cells: Vec<CellInner<A, M, J>>,
    scheduler: Scheduler,
    state: RuntimeState,
    sys_actors: Option<SysActors>,
    /// What the actor of the cell last ticked by the worker asked for.
    last_effects: Ghost<Seq<Effect<A, M>>>,
}

/// What the contracts see of a runtime.
#[verifier::ext_equal]
pub struct RuntimeView<M, J> {
    pub cells: Seq<CellView<M, J>>,
    pub run_queue: Seq<Op>,
    pub scheduler: SchedulerState,
    pub state: RuntimeState,
    pub sys_actors: Option<SysActors>,
}

impl<A, M, J> View for Runtime<A, M, J> {
    type V = RuntimeView<M, J>;

    closed spec fn view(&self) -> RuntimeView<M, J> {
        RuntimeView {
            cells: self.cells@.map_values(|c: CellInner<A, M, J>| c.view()),
            run_queue: ops_in(self.scheduler.queue),
            scheduler: self.scheduler.state,
            state: self.state,
            sys_actors: self.sys_actors,
        }
    }
}

impl<A, M, J> Runtime<A, M, J> {
    /// What the actor of the cell that the worker ticked last asked of the
    /// runtime (see `run_once`).
    pub closed spec fn last_effects(&self) -> Seq<Effect<A, M>> {
        self.last_effects@
    }

    /// The actor slots of the cells, by cell number.
    pub closed spec fn actor_slots(&self) -> Seq<ActorSlot<A>> {
        self.cells@.map_values(|c: CellInner<A, M, J>| c.actor)
    }
}

/// `rt` with cell `c` replaced by `v`.
pub open spec fn set_cell<M, J>(rt: RuntimeView<M, J>, c: CellRef, v: CellView<M, J>) -> RuntimeView<
    M,
    J,
> {
    RuntimeView { cells: rt.cells.update(c.id as int, v), ..rt }
}

/// `rt` once the system event `e` has been delivered to cell `x`: the event
/// is queued in its mailbox, its state moves on, and it is put on the run
/// queue if it became due.
pub open spec fn deliver<M, J>(rt: RuntimeView<M, J>, x: CellRef, e: SysEvent) -> RuntimeView<
    M,
    J,
> {
    let v = rt.cells[x.id as int];
    let step = schedule_step(v.state, e is Spawn);
    let rt2 = set_cell(rt, x, CellView { state: step.0, sys_events: v.sys_events.push(e), ..v });
    if step.1 {
        RuntimeView { run_queue: rt2.run_queue.push(Op::Task(x)), ..rt2 }
    } else {
        rt2
    }
}

/// `rt` once `e` has been delivered to each cell of `xs` in turn.
pub open spec fn deliver_all<M, J>(rt: RuntimeView<M, J>, xs: Seq<CellRef>, e: SysEvent) -> RuntimeView<
    M,
    J,
>
    decreases xs.len(),
{
    if xs.len() == 0 {
        rt
    } else {
        deliver(deliver_all(rt, xs.drop_last(), e), xs.last(), e)
    }
}

/// `rt` once cell `c` has handled the system event `e` (its flags already
/// updated for `e`).
pub open spec fn step_rt<M, J>(rt: RuntimeView<M, J>, c: CellRef, e: SysEvent, f: DrainFlags) -> RuntimeView<
    M,
    J,
> {
    let v = rt.cells[c.id as int];
    let sends = sys_step_sends(v, c, e, f);
    deliver_all(set_cell(rt, c, sys_step_cell(v, e, f)), sends.0, sends.1)
}

/// `rt` and the flags once cell `c` has taken `events` out of its system
/// mailbox and handled them, one at a time.
pub open spec fn drain_rt<M, J>(
    rt: RuntimeView<M, J>,
    c: CellRef,
    events: Seq<SysEvent>,
    f: DrainFlags,
) -> (RuntimeView<M, J>, DrainFlags)
    decreases events.len(),
{
    if events.len() == 0 {
        (rt, f)
    } else {
        let e = events[0];
        let f2 = flags_after(f, e);
        let v = rt.cells[c.id as int];
        let rt1 = set_cell(rt, c, CellView { sys_events: v.sys_events.drop_first(), ..v });
        drain_rt(step_rt(rt1, c, e, f2), c, events.drop_first(), f2)
    }
}

/// `rt` and whether cell `c` needs another tick, once it has processed its
/// mailboxes: every system event, then (unless it is terminating) one user
/// event.
pub open spec fn mailbox_rt<M, J>(rt: RuntimeView<M, J>, c: CellRef, f: DrainFlags) -> (
    RuntimeView<M, J>,
    bool,
) {
    let d = drain_rt(rt, c, rt.cells[c.id as int].sys_events, f);
    let v = d.0.cells[c.id as int];
    if !d.1.terminated && v.mailbox.len() > 0 {
        (set_cell(d.0, c, CellView { mailbox: v.mailbox.drop_first(), ..v }), true)
    } else {
        (d.0, false)
    }
}

/// `rt` once cell `c`, which is terminating, has finished: it is terminated,
/// has dropped its actor, and its supervisor is told.
pub open spec fn complete_rt<M, J>(rt: RuntimeView<M, J>, c: CellRef) -> RuntimeView<M, J> {
    let v = rt.cells[c.id as int];
    let rt1 = set_cell(
        rt,
        c,
        CellView { state: v.state.set_life(Lifecycle::Terminated), live: false, ..v },
    );
    match v.supervisor {
        Some(p) => deliver(rt1, p, SysEvent::ChildTerminated(c)),
        None => rt1,
    }
}

/// `rt` once cell `c` has started to terminate: its children are told to
/// terminate; a cell without children finishes at once.
pub open spec fn init_termination_rt<M, J>(rt: RuntimeView<M, J>, c: CellRef) -> RuntimeView<M, J> {
    let kids = rt.cells[c.id as int].children;
    let rt1 = deliver_all(rt, kids, SysEvent::Terminate);
    if kids.len() == 0 {
        complete_rt(rt1, c)
    } else {
        rt1
    }
}

/// The flags a tick of a cell in state `s` starts its drain with.
pub open spec fn start_flags(s: State) -> DrainFlags {
    DrainFlags {
        spawned: s.life() != Lifecycle::New,
        terminated: s.life() == Lifecycle::Terminating || s.life() == Lifecycle::Terminated,
    }
}

/// True if a tick of cell `c` runs to its end: the cell is a cell of `rt`,
/// is not idle, and its system events are ones its lifecycle allows.
pub open spec fn tick_ok<M, J>(rt: RuntimeView<M, J>, c: CellRef) -> bool {
    let n = rt.cells.len();
    &&& c.id < n
    &&& {
        let v = rt.cells[c.id as int];
        match v.state.sched() {
            Schedule::Idle => false,
            Schedule::Scheduled => {
                let v1 = CellView { state: v.state.set_sched(Schedule::Running), ..v };
                let f0 = start_flags(v.state);
                let d = drain_cell(v1, v.sys_events, f0);
                &&& drain_ok(v1, c, n, v.sys_events, f0)
                &&& (d.0.state.life() == Lifecycle::Terminating && v.state.life()
                    != Lifecycle::Terminating) ==> {
                    &&& refs_ok(d.0.children, n)
                    &&& (d.0.children.len() == 0 && d.0.supervisor is Some) ==> d.0.supervisor->0.id
                        < n
                }
            },
            _ => true,
        }
    }
}

/// `rt` after one tick of cell `c`, and whether `c` is due for another one.
pub open spec fn tick_rt<M, J>(rt: RuntimeView<M, J>, c: CellRef) -> (RuntimeView<M, J>, bool) {
    let v = rt.cells[c.id as int];
    let s0 = v.state;
    if s0.sched() != Schedule::Scheduled {
        (rt, false)
    } else {
        let rt1 = set_cell(rt, c, CellView { state: s0.set_sched(Schedule::Running), ..v });
        let m = mailbox_rt(rt1, c, start_flags(s0));
        let v2 = m.0.cells[c.id as int];
        let s3 = end_tick(v2.state, m.1);
        let rt4 = set_cell(m.0, c, CellView { state: s3, ..v2 });
        let r = s3.sched() == Schedule::Scheduled;
        if v2.state.life() == Lifecycle::Terminating && s0.life() != Lifecycle::Terminating {
            (init_termination_rt(rt4, c), r)
        } else {
            (rt4, r)
        }
    }
}

/// A cell that has just been made: idle, new, with empty mailboxes.
pub open spec fn fresh_cell<M, J>(supervisor: Option<CellRef>) -> CellView<M, J> {
    CellView {
        state: State { val: 0 },
        supervisor,
        children: Seq::empty(),
        sys_events: Seq::empty(),
        mailbox: Seq::empty(),
        live: true,
    }
}

/// `rt` once the user event `ev` has been delivered to cell `x`: the event is
/// queued, the state moves on, and the cell is put on the run queue if it
/// became due. A cell that is not spawned yet keeps the event for later.
pub open spec fn dispatch_rt<M, J>(rt: RuntimeView<M, J>, x: CellRef, ev: Event<M, J>) -> RuntimeView<
    M,
    J,
> {
    let v = rt.cells[x.id as int];
    let step = schedule_step(v.state, false);
    let rt2 = set_cell(rt, x, CellView { state: step.0, mailbox: v.mailbox.push(ev), ..v });
    if step.1 {
        RuntimeView { run_queue: rt2.run_queue.push(Op::Task(x)), ..rt2 }
    } else {
        rt2
    }
}

/// The supervisor a cell spawned with `supervisor` gets: the one given, or
/// else the user actor, or none while the runtime boots.
pub open spec fn effective_supervisor<M, J>(rt: RuntimeView<M, J>, supervisor: Option<CellRef>) -> Option<
    CellRef,
> {
    match supervisor {
        Some(s) => Some(s),
        None => match rt.sys_actors {
            Some(sys) => if sys.user.id < rt.cells.len() {
                Some(sys.user)
            } else {
                None
            },
            None => None,
        },
    }
}

/// `rt` with a new cell for an actor spawned under `supervisor`, and the
/// new cell. The supervisor is sent `Link`; a cell without one (the root
/// actor) is sent `Spawn` itself.
pub open spec fn spawn_rt<M, J>(rt: RuntimeView<M, J>, supervisor: Option<CellRef>) -> (
    RuntimeView<M, J>,
    CellRef,
) {
    let c = CellRef { id: rt.cells.len() as usize };
    let sup = effective_supervisor(rt, supervisor);
    let rt1 = RuntimeView { cells: rt.cells.push(fresh_cell(sup)), ..rt };
    (
        match sup {
            Some(p) => deliver(rt1, p, SysEvent::Link(c)),
            None => deliver(rt1, c, SysEvent::Spawn),
        },
        c,
    )
}

/// The supervisor of an actor that the actor of `c` asks to spawn under
/// `sup`: the one given, or else `c` itself.
pub open spec fn effect_supervisor(c: CellRef, sup: Option<CellRef>) -> CellRef {
    match sup {
        Some(p) => p,
        None => c,
    }
}

/// `rt` once the effects `es` that the actor of `c` asked for are carried
/// out, in order. A message to a cell of the runtime is sent to it; an actor
/// is spawned under its supervisor (see `effect_supervisor`). A message to,
/// or a spawn under, a cell the runtime does not have is dropped.
pub open spec fn effects_rt<A, M, J>(rt: RuntimeView<M, J>, c: CellRef, es: Seq<Effect<A, M>>) -> RuntimeView<
    M,
    J,
>
    decreases es.len(),
{
    if es.len() == 0 {
        rt
    } else {
        let rt1 = match es[0] {
            Effect::Send(x, m) => if x.id < rt.cells.len() {
                dispatch_rt(
                    rt,
                    x,
                    Event::Message(Request { message: m, response: Response { value: () } }),
                )
            } else {
                rt
            },
            Effect::Spawn(_, sup) => {
                let p = effect_supervisor(c, sup);
                if p.id < rt.cells.len() {
                    spawn_rt(rt, Some(p)).0
                } else {
                    rt
                }
            },
        };
        effects_rt(rt1, c, es.drop_first())
    }
}

/// The actor slots once the effects `es` of the actor of `c` are carried
/// out: each actor spawned gets a new slot at the end.
pub open spec fn effects_slots<A, M>(slots: Seq<ActorSlot<A>>, c: CellRef, es: Seq<Effect<A, M>>) -> Seq<
    ActorSlot<A>,
>
    decreases es.len(),
{
    if es.len() == 0 {
        slots
    } else {
        let s1 = match es[0] {
            Effect::Send(_, _) => slots,
            Effect::Spawn(a, sup) => if effect_supervisor(c, sup).id < slots.len() {
                slots.push(ActorSlot::Actor(a))
            } else {
                slots
            },
        };
        effects_slots(s1, c, es.drop_first())
    }
}

/// Carrying out effects keeps the slots there were, and only adds to them.
pub proof fn lemma_effects_slots_prefix<A, M>(slots: Seq<ActorSlot<A>>, c: CellRef, es: Seq<Effect<A, M>>)
    ensures
        effects_slots(slots, c, es).len() >= slots.len(),
        forall|i: int| 0 <= i < slots.len() ==> #[trigger] effects_slots(slots, c, es)[i]
            == slots[i],
    decreases es.len(),
{
    if es.len() > 0 {
        let s1 = match es[0] {
            Effect::Send(_, _) => slots,
            Effect::Spawn(a, sup) => if effect_supervisor(c, sup).id < slots.len() {
                slots.push(ActorSlot::Actor(a))
            } else {
                slots
            },
        };
        lemma_effects_slots_prefix(s1, c, es.drop_first());
        assert forall|i: int| 0 <= i < slots.len() implies #[trigger] effects_slots(slots, c, es)[i]
            == slots[i] by {
            assert(effects_slots(s1, c, es.drop_first())[i] == s1[i]);
        }
    }
}

/// A runtime as `Runtime::new` makes it: the root actor, spawned at once,
/// and the user actor linked under it.
pub open spec fn new_rt<M, J>() -> RuntimeView<M, J> {
    let base = RuntimeView {
        cells: Seq::empty(),
        run_queue: Seq::empty(),
        scheduler: SchedulerState::Running,
        state: RuntimeState::New,
        sys_actors: None,
    };
    let (r1, init) = spawn_rt(base, None);
    let (r2, user) = spawn_rt(r1, Some(init));
    RuntimeView { sys_actors: Some(SysActors { init, user }), ..r2 }
}

/// `rt` once started, and whether the worker has to be started: only a new
/// runtime starts.
pub open spec fn start_rt<M, J>(rt: RuntimeView<M, J>) -> (RuntimeView<M, J>, bool) {
    if rt.state == RuntimeState::New {
        (RuntimeView { state: RuntimeState::Running, ..rt }, true)
    } else {
        (rt, false)
    }
}

/// `rt` once shut down, and whether the caller has to wait for the worker
/// to stop. A running scheduler is sent `Terminate`; a runtime that is shut
/// down already is left alone.
pub open spec fn shutdown_rt<M, J>(rt: RuntimeView<M, J>) -> (RuntimeView<M, J>, bool) {
    if rt.state == RuntimeState::Shutdown {
        (rt, false)
    } else {
        let rt1 = if rt.scheduler == SchedulerState::Running {
            RuntimeView {
                scheduler: SchedulerState::Terminating,
                run_queue: rt.run_queue.push(Op::Terminate),
                ..rt
            }
        } else {
            rt
        };
        (RuntimeView { state: RuntimeState::Shutdown, ..rt1 }, rt1.scheduler
            == SchedulerState::Terminating)
    }
}

/// What one step of the worker did.
#[derive(Clone, Copy, Debug, PartialEq, Eq, Structural)]
pub enum WorkerStep {
    /// The run queue was empty.
    Idle,
    /// The cell was ticked.
    Ticked(CellRef),
    /// The cell's tick would not run to its end; it was taken off the queue.
    Faulted(CellRef),
    /// The worker was told to stop.
    Stopped,
}

/// `rt` after one step of the worker, and what the step did: it takes the
/// oldest operation off the run queue; a task ticks its cell and puts it
/// back if it is due again; `Terminate` stops the worker.
pub open spec fn run_once_rt<M, J>(rt: RuntimeView<M, J>) -> (RuntimeView<M, J>, WorkerStep) {
    if rt.run_queue.len() == 0 {
        (rt, WorkerStep::Idle)
    } else {
        let rt1 = RuntimeView { run_queue: rt.run_queue.drop_first(), ..rt };
        match rt.run_queue[0] {
            Op::Terminate => (
                RuntimeView { scheduler: SchedulerState::Terminated, ..rt1 },
                WorkerStep::Stopped,
            ),
            Op::Task(c) => {
                if tick_ok(rt1, c) {
                    (requeue_rt(tick_rt(rt1, c), c), WorkerStep::Ticked(c))
                } else {
                    (rt1, WorkerStep::Faulted(c))
                }
            },
        }
    }
}

/// The runtime after a tick of `c` that gave `t`: the cell is put back on
/// the run queue if the tick says it is due.
pub open spec fn requeue_rt<M, J>(t: (RuntimeView<M, J>, bool), c: CellRef) -> RuntimeView<M, J> {
    if t.1 {
        RuntimeView { run_queue: t.0.run_queue.push(Op::Task(c)), ..t.0 }
    } else {
        t.0
    }
}

/// Delivering to a cell changes only that cell's state and system mailbox,
/// and the run queue.
pub(crate) proof fn lemma_deliver_frame<M, J>(rt: RuntimeView<M, J>, x: CellRef, e: SysEvent)
    requires
        x.id < rt.cells.len(),
    ensures
        ({
            let r = deliver(rt, x, e);
            &&& r.cells.len() == rt.cells.len()
            &&& r.scheduler == rt.scheduler
            &&& r.state == rt.state
            &&& r.sys_actors == rt.sys_actors
            &&& forall|i: int|
                #![trigger r.cells[i]]
                0 <= i < rt.cells.len() ==> {
                    &&& r.cells[i].children == rt.cells[i].children
                    &&& r.cells[i].supervisor == rt.cells[i].supervisor
                    &&& r.cells[i].mailbox == rt.cells[i].mailbox
                    &&& r.cells[i].live == rt.cells[i].live
                    &&& r.cells[i].state.life() == rt.cells[i].state.life()
                    &&& (i != x.id ==> r.cells[i] == rt.cells[i])
                }
        }),
{
    let v = rt.cells[x.id as int];
    let step = schedule_step(v.state, e is Spawn);
    lemma_set_sched(v.state, Schedule::Scheduled);
    lemma_set_sched(v.state, Schedule::Pending);
    assert(step.0.life() == v.state.life());
}

/// Delivering to a list of cells of the runtime changes only their states
/// and system mailboxes, and the run queue.
pub(crate) proof fn lemma_deliver_all_frame<M, J>(rt: RuntimeView<M, J>, xs: Seq<CellRef>, e: SysEvent)
    requires
        refs_ok(xs, rt.cells.len()),
    ensures
        ({
            let r = deliver_all(rt, xs, e);
            &&& r.cells.len() == rt.cells.len()
            &&& r.scheduler == rt.scheduler
            &&& r.state == rt.state
            &&& r.sys_actors == rt.sys_actors
            &&& forall|i: int|
                #![trigger r.cells[i]]
                0 <= i < rt.cells.len() ==> {
                    &&& r.cells[i].children == rt.cells[i].children
                    &&& r.cells[i].supervisor == rt.cells[i].supervisor
                    &&& r.cells[i].mailbox == rt.cells[i].mailbox
                    &&& r.cells[i].live == rt.cells[i].live
                    &&& r.cells[i].state.life() == rt.cells[i].state.life()
                    &&& ((forall|j: int| 0 <= j < xs.len() ==> xs[j].id != i) ==> r.cells[i]
                        == rt.cells[i])
                }
        }),
    decreases xs.len(),
{
    if xs.len() > 0 {
        let ys = xs.drop_last();
        assert(refs_ok(ys, rt.cells.len())) by {
            assert forall|i: int| 0 <= i < ys.len() implies (#[trigger] ys[i]).id < rt.cells.len() by {
                assert(ys[i] == xs[i]);
            }
        }
        lemma_deliver_all_frame(rt, ys, e);
        let mid = deliver_all(rt, ys, e);
        assert(xs.last() == xs[xs.len() - 1]);
        lemma_deliver_frame(mid, xs.last(), e);
        let r = deliver_all(rt, xs, e);
        assert forall|i: int| 0 <= i < rt.cells.len() && (forall|j: int| 0 <= j < xs.len()
            ==> xs[j].id != i)
            implies #[trigger] r.cells[i] == rt.cells[i] by {
            assert forall|j: int| 0 <= j < ys.len() implies ys[j].id != i by {
                assert(ys[j] == xs[j]);
            }
            assert(xs[xs.len() - 1].id != i);
        }
    }
}

/// Changing one cell of the vector changes one entry of the view.
proof fn lemma_view_update<A, M, J>(
    before: Seq<CellInner<A, M, J>>,
    after: Seq<CellInner<A, M, J>>,
    i: int,
)
    requires
        0 <= i < before.len(),
        after.len() == before.len(),
        forall|j: int| 0 <= j < before.len() && j != i ==> after[j] == before[j],
    ensures
        after.map_values(|c: CellInner<A, M, J>| c.view()) =~= before.map_values(
            |c: CellInner<A, M, J>| c.view(),
        ).update(i, after[i].view()),
{
}

/// Handling an allowed event sends only to cells of the runtime other than
/// the cell itself.
pub(crate) proof fn lemma_sends_ok<M, J>(v: CellView<M, J>, c: CellRef, n: nat, e: SysEvent, f: DrainFlags)
    requires
        sys_step_ok(v, c, n, e, f),
    ensures
        refs_ok(sys_step_sends(v, c, e, f).0, n),
        forall|j: int|
            0 <= j < sys_step_sends(v, c, e, f).0.len() ==> (#[trigger] sys_step_sends(
                v,
                c,
                e,
                f,
            ).0[j]).id != c.id,
{
    let xs = sys_step_sends(v, c, e, f).0;
    assert forall|j: int| 0 <= j < xs.len() implies (#[trigger] xs[j]).id < n
        && xs[j].id != c.id by {
        match e {
            SysEvent::Spawn => {
                assert(target_ok(c, v.children[j], n));
            },
            SysEvent::Link(x) => {
                assert(xs[j] == x);
            },
            SysEvent::ChildTerminated(x) => {
                assert(xs[j] == v.supervisor->0);
            },
            SysEvent::Terminate => {},
        }
    }
}

/// Handling a system event keeps a cell's scheduling state, supervisor and
/// mailboxes.
proof fn lemma_step_cell_keeps<M, J>(v: CellView<M, J>, e: SysEvent, f: DrainFlags)
    ensures
        sys_step_cell(v, e, f).state.sched() == v.state.sched(),
        sys_step_cell(v, e, f).state.val / 16 == v.state.val / 16,
        sys_step_cell(v, e, f).supervisor == v.supervisor,
        sys_step_cell(v, e, f).mailbox == v.mailbox,
        sys_step_cell(v, e, f).sys_events == v.sys_events,
{
    lemma_set_life(v.state, Lifecycle::Active);
    lemma_set_life(v.state, Lifecycle::Terminating);
    lemma_set_life(v.state, Lifecycle::Terminated);
    lemma_set_life_high(v.state, Lifecycle::Active);
    lemma_set_life_high(v.state, Lifecycle::Terminating);
    lemma_set_life_high(v.state, Lifecycle::Terminated);
}

/// Draining system events keeps a cell's scheduling state and supervisor.
proof fn lemma_drain_cell_keeps<M, J>(v: CellView<M, J>, events: Seq<SysEvent>, f: DrainFlags)
    ensures
        drain_cell(v, events, f).0.state.sched() == v.state.sched(),
        drain_cell(v, events, f).0.supervisor == v.supervisor,
    decreases events.len(),
{
    if events.len() > 0 {
        let e = events[0];
        let f2 = flags_after(f, e);
        lemma_step_cell_keeps(v, e, f2);
        lemma_drain_cell_keeps(sys_step_cell(v, e, f2), events.drop_first(), f2);
    }
}

/// True if every cell of `xs` may be sent an event by `c` mid-tick.
fn targets_valid(c: CellRef, xs: &Vec<CellRef>, n: usize) -> (r: bool)
    ensures
        r == targets_ok(c, xs@, n as nat),
{
    let mut i: usize = 0;
    while i < xs.len()
        invariant
            i <= xs.len(),
            forall|j: int| 0 <= j < i ==> target_ok(c, #[trigger] xs@[j], n as nat),
        decreases xs.len() - i,
    {
        let x = xs[i];
        if !(x.id < n && x != c) {
            assert(!target_ok(c, xs@[i as int], n as nat));
            return false;
        }
        i = i + 1;
    }
    true
}

/// True if every cell of `xs` is a cell of a runtime with `n` cells.
fn refs_valid(xs: &Vec<CellRef>, n: usize) -> (r: bool)
    ensures
        r == refs_ok(xs@, n as nat),
{
    let mut i: usize = 0;
    while i < xs.len()
        invariant
            i <= xs.len(),
            forall|j: int| 0 <= j < i ==> (#[trigger] xs@[j]).id < n,
        decreases xs.len() - i,
    {
        if xs[i].id >= n {
            assert(xs@[i as int].id >= n);
            return false;
        }
        i = i + 1;
    }
    true
}

impl<A: Actor<M>, M, J: Job> Runtime<A, M, J> {
    /// Puts an operation on the run queue.
    fn enqueue(&mut self, op: Op)
        ensures
            final(self)@
                == (RuntimeView { run_queue: old(self)@.run_queue.push(op), ..old(self)@ }),
            final(self).actor_slots() == old(self).actor_slots(),
    {
        op_queue_put(&mut self.scheduler.queue, op);
    }

    /// Delivers a system event to `cell` and puts the cell on the run queue
    /// if that makes it due.
    pub fn sys_dispatch(&mut self, cell: CellRef, event: SysEvent)
        requires
            cell.id < old(self)@.cells.len(),
        ensures
            final(self)@ == deliver(old(self)@, cell, event),
            final(self).actor_slots() == old(self).actor_slots(),
    {
        let ghost v = self@.cells[cell.id as int];
        let due = self.cells[cell.id].deliver_sys_event(event);
        let ghost step = schedule_step(v.state, event is Spawn);
        assert(self@.cells =~= old(self)@.cells.update(
            cell.id as int,
            CellView { state: step.0, sys_events: v.sys_events.push(event), ..v },
        ));
        if due {
            self.enqueue(Op::Task(cell));
        }
    }

    /// Delivers `event` to each child of `c`, most recently linked first.
    fn deliver_to_children(&mut self, c: CellRef, event: SysEvent)
        requires
            c.id < old(self)@.cells.len(),
            refs_ok(old(self)@.cells[c.id as int].children, old(self)@.cells.len()),
        ensures
            final(self)@ == deliver_all(old(self)@, old(self)@.cells[c.id as int].children, event),
            final(self).actor_slots() == old(self).actor_slots(),
    {
        let ghost kids = self@.cells[c.id as int].children;
        let ghost rt0 = self@;
        let n = self.cells[c.id].core.children.len();
        let mut i: usize = 0;
        while i < n
            invariant
                0 <= i <= n,
                n == kids.len(),
                refs_ok(kids, rt0.cells.len()),
                c.id < rt0.cells.len(),
                self@ == deliver_all(rt0, kids.take(i as int), event),
                self@.cells.len() == rt0.cells.len(),
                self@.cells[c.id as int].children == kids,
                self.actor_slots() == old(self).actor_slots(),
            decreases n - i,
        {
            proof {
                lemma_deliver_all_frame(rt0, kids.take(i as int), event);
            }
            let child = self.cells[c.id].core.children[i];
            assert(child == kids[i as int]);
            self.sys_dispatch(child, event);
            proof {
                lemma_deliver_frame(deliver_all(rt0, kids.take(i as int), event), child, event);
                assert(kids.take(i + 1).drop_last() =~= kids.take(i as int));
                assert(kids.take(i + 1).last() == child);
            }
            i = i + 1;
        }
        assert(kids.take(n as int) =~= kids);
    }

    /// Spawns the children linked so far.
    fn spawn_children(&mut self, c: CellRef)
        requires
            c.id < old(self)@.cells.len(),
            refs_ok(old(self)@.cells[c.id as int].children, old(self)@.cells.len()),
        ensures
            final(self)@ == deliver_all(
                old(self)@,
                old(self)@.cells[c.id as int].children,
                SysEvent::Spawn,
            ),
            final(self).actor_slots() == old(self).actor_slots(),
    {
        self.deliver_to_children(c, SysEvent::Spawn);
    }

    /// Stores `next` as the state of cell `c`.
    fn store_state(&mut self, c: CellRef, curr: State, next: State)
        requires
            c.id < old(self)@.cells.len(),
            old(self)@.cells[c.id as int].state == curr,
        ensures
            final(self)@ == set_cell(
                old(self)@,
                c,
                CellView { state: next, ..old(self)@.cells[c.id as int] },
            ),
            final(self).actor_slots() == old(self).actor_slots(),
    {
        let ghost v = self@.cells[c.id as int];
        let _ = self.cells[c.id].core.state.compare_and_swap(curr, next);
        assert(self@.cells =~= old(self)@.cells.update(c.id as int, CellView { state: next, ..v }));
    }

    /// Moves a new cell to `Active`.
    fn transition_to_active(&mut self, c: CellRef)
        requires
            c.id < old(self)@.cells.len(),
            old(self)@.cells[c.id as int].state.life() == Lifecycle::New,
        ensures
            final(self)@ == set_cell(
                old(self)@,
                c,
                CellView {
                    state: old(self)@.cells[c.id as int].state.set_life(Lifecycle::Active),
                    ..old(self)@.cells[c.id as int]
                },
            ),
            final(self).actor_slots() == old(self).actor_slots(),
    {
        let curr = self.cells[c.id].core.state.load();
        let next = curr.with_lifecycle(Lifecycle::Active);
        self.store_state(c, curr, next);
    }

    /// Flags an active cell for termination; a cell that is already
    /// terminating stays so.
    fn terminate(&mut self, c: CellRef)
        requires
            c.id < old(self)@.cells.len(),
            old(self)@.cells[c.id as int].state.life() == Lifecycle::Active || old(self)@.cells[c.id
                as int].state.life() == Lifecycle::Terminating,
        ensures
            final(self)@ == set_cell(
                old(self)@,
                c,
                CellView {
                    state: terminate_step(old(self)@.cells[c.id as int].state),
                    ..old(self)@.cells[c.id as int]
                },
            ),
            final(self).actor_slots() == old(self).actor_slots(),
    {
        let curr = self.cells[c.id].core.state.load();
        match curr.lifecycle() {
            Lifecycle::Active => {
                let next = curr.with_lifecycle(Lifecycle::Terminating);
                self.store_state(c, curr, next);
            },
            _ => {
                assert(self@.cells =~= self@.cells.update(c.id as int, self@.cells[c.id as int]));
            },
        }
    }

    /// Finishes the termination of a terminating cell: it becomes
    /// terminated, drops its actor and tells its supervisor.
    fn complete_termination(&mut self, c: CellRef)
        requires
            c.id < old(self)@.cells.len(),
            old(self)@.cells[c.id as int].state.life() == Lifecycle::Terminating,
            old(self)@.cells[c.id as int].supervisor is Some
                ==> old(self)@.cells[c.id as int].supervisor->0.id
                < old(self)@.cells.len(),
        ensures
            final(self)@ == complete_rt(old(self)@, c),
            final(self).actor_slots()
                == old(self).actor_slots().update(c.id as int, ActorSlot::Released),
            final(self)@.cells.len() == old(self)@.cells.len(),
            final(self)@.cells[c.id as int].mailbox == old(self)@.cells[c.id as int].mailbox,
            final(self)@.cells[c.id as int].state.life() != Lifecycle::New,
    {
        let ghost v = self@.cells[c.id as int];
        let curr = self.cells[c.id].core.state.load();
        let next = curr.with_lifecycle(Lifecycle::Terminated);
        self.store_state(c, curr, next);
        assert(self.cells@.len() == self@.cells.len());
        let ghost mid = self.cells@;
        let ghost midv = self@;
        self.cells[c.id].actor = ActorSlot::Released;
        proof {
            assert forall|i: int| 0 <= i < self.cells@.len() && i != c.id implies self@.cells[i]
                == midv.cells[i] by {
                assert(self.cells@[i] == mid[i]);
            }
            assert(self.cells@[c.id as int].core == mid[c.id as int].core);
            assert(self.cells@[c.id as int].mailbox == mid[c.id as int].mailbox);
            assert(self.cells@[c.id as int].sys_mailbox == mid[c.id as int].sys_mailbox);
            assert(midv.cells[c.id as int] == CellView { state: next, ..v });
            assert(self@.cells[c.id as int] == CellView { state: next, live: false, ..v });
            assert forall|i: int| 0 <= i < self@.cells.len() && i != c.id implies self@.cells[i]
                == old(self)@.cells[i] by {
                assert(self@.cells[i] == midv.cells[i]);
            }
        }
        assert(self@.cells =~= old(self)@.cells.update(
            c.id as int,
            CellView { state: next, live: false, ..v },
        ));
        proof {
            lemma_set_life(v.state, Lifecycle::Terminated);
        }
        match self.cells[c.id].core.supervisor {
            Some(p) => {
                proof {
                    lemma_deliver_frame(self@, p, SysEvent::ChildTerminated(c));
                }
                self.sys_dispatch(p, SysEvent::ChildTerminated(c));
            },
            None => {},
        }
    }

    /// Tells the children of a cell that has started to terminate to
    /// terminate; a cell without children finishes at once.
    fn initialize_termination(&mut self, c: CellRef)
        requires
            c.id < old(self)@.cells.len(),
            refs_ok(old(self)@.cells[c.id as int].children, old(self)@.cells.len()),
            old(self)@.cells[c.id as int].children.len() == 0 ==> {
                &&& old(self)@.cells[c.id as int].state.life() == Lifecycle::Terminating
                &&& old(self)@.cells[c.id as int].supervisor is Some ==> old(
                    self,
                )@.cells[c.id as int].supervisor->0.id < old(self)@.cells.len()
            },
        ensures
            final(self)@ == init_termination_rt(old(self)@, c),
            final(self).actor_slots() == if old(self)@.cells[c.id as int].children.len() == 0 {
                old(self).actor_slots().update(c.id as int, ActorSlot::Released)
            } else {
                old(self).actor_slots()
            },
            final(self)@.cells.len() == old(self)@.cells.len(),
            final(self)@.cells[c.id as int].mailbox == old(self)@.cells[c.id as int].mailbox,
            old(self)@.cells[c.id as int].state.life() != Lifecycle::New ==> final(self)@.cells[c.id
                as int].state.life() != Lifecycle::New,
    {
        proof {
            lemma_deliver_all_frame(self@, self@.cells[c.id as int].children, SysEvent::Terminate);
        }
        self.deliver_to_children(c, SysEvent::Terminate);
        if !self.cells[c.id].core.has_children() {
            self.complete_termination(c);
        }
    }

    /// Takes `child` as a child of `c`; if `c` is already spawned, the child
    /// is spawned too.
    fn link_child(&mut self, c: CellRef, child: CellRef, is_spawned: bool)
        requires
            c.id < old(self)@.cells.len(),
            is_spawned ==> child.id < old(self)@.cells.len(),
        ensures
            ({
                let v = old(self)@.cells[c.id as int];
                let rt1 = set_cell(old(self)@, c, CellView { children: seq![child] + v.children, ..v });
                final(self)@ == if is_spawned {
                    deliver(rt1, child, SysEvent::Spawn)
                } else {
                    rt1
                }
            }),
            final(self).actor_slots() == old(self).actor_slots(),
    {
        let ghost mid = self.cells@;
        let child = self.cells[c.id].core.link_child(child);
        proof {
            lemma_view_update(mid, self.cells@, c.id as int);
        }
        if is_spawned {
            self.sys_dispatch(child, SysEvent::Spawn);
        }
    }

    /// Takes `child` out of the children of `c`; a terminating cell whose last
    /// child is gone finishes its termination.
    fn unlink_child(&mut self, c: CellRef, child: CellRef, is_terminated: bool)
        requires
            c.id < old(self)@.cells.len(),
            ({
                let v = old(self)@.cells[c.id as int];
                (is_terminated && remove_first(v.children, child).len() == 0) ==> {
                    &&& v.state.life() == Lifecycle::Terminating
                    &&& v.supervisor is Some ==> v.supervisor->0.id < old(self)@.cells.len()
                }
            }),
        ensures
            ({
                let v = old(self)@.cells[c.id as int];
                let kids = remove_first(v.children, child);
                let rt1 = set_cell(old(self)@, c, CellView { children: kids, ..v });
                final(self)@ == if is_terminated && kids.len() == 0 {
                    complete_rt(rt1, c)
                } else {
                    rt1
                }
            }),
            final(self).actor_slots() == if is_terminated && remove_first(
                old(self)@.cells[c.id as int].children,
                child,
            ).len() == 0 {
                old(self).actor_slots().update(c.id as int, ActorSlot::Released)
            } else {
                old(self).actor_slots()
            },
    {
        let ghost mid = self.cells@;
        let _ = self.cells[c.id].core.unlink_child(child);
        proof {
            lemma_view_update(mid, self.cells@, c.id as int);
        }
        if is_terminated && !self.cells[c.id].core.has_children() {
            self.complete_termination(c);
        }
    }

    /// Spawns cell `c`: it becomes active, its actor is prepared (the only
    /// actor that changes), and the children linked so far are spawned.
    fn handle_spawn(&mut self, c: CellRef, is_spawned: bool, is_terminated: bool)
        requires
            c.id < old(self)@.cells.len(),
            old(self)@.cells[c.id as int].state.life() == Lifecycle::New,
            refs_ok(old(self)@.cells[c.id as int].children, old(self)@.cells.len()),
        ensures
            final(self)@ == step_rt(
                old(self)@,
                c,
                SysEvent::Spawn,
                DrainFlags { spawned: is_spawned, terminated: is_terminated },
            ),
            final(self).actor_slots() == old(self).actor_slots().update(
                c.id as int,
                final(self).actor_slots()[c.id as int],
            ),
            old(self).actor_slots()[c.id as int] is Actor ==> exists|r: &mut A|
                #![trigger call_ensures(A::prepare, (r,), ())]
                call_ensures(A::prepare, (r,), ()) && mut_ref_current(r)
                    == old(self).actor_slots()[c.id as int]->0
                    && final(self).actor_slots()[c.id as int]
                    == ActorSlot::Actor(mut_ref_future(r)),
            !(old(self).actor_slots()[c.id as int] is Actor) ==> final(self).actor_slots()
                == old(self).actor_slots(),
    {
        self.transition_to_active(c);
        self.prepare_actor(c);
        self.spawn_children(c);
    }

    /// Handles one system event of cell `c`; the flags are already updated
    /// for it. `Spawn` prepares the cell's actor; an event that completes the
    /// termination drops it; no other actor changes.
    fn process_sys_message(&mut self, c: CellRef, event: SysEvent, is_spawned: bool, is_terminated: bool)
        requires
            c.id < old(self)@.cells.len(),
            sys_step_ok(
                old(self)@.cells[c.id as int],
                c,
                old(self)@.cells.len(),
                event,
                DrainFlags { spawned: is_spawned, terminated: is_terminated },
            ),
        ensures
            final(self)@ == step_rt(
                old(self)@,
                c,
                event,
                DrainFlags { spawned: is_spawned, terminated: is_terminated },
            ),
            final(self).actor_slots() == old(self).actor_slots().update(
                c.id as int,
                final(self).actor_slots()[c.id as int],
            ),
            event is Spawn && old(self).actor_slots()[c.id as int] is Actor ==> exists|r: &mut A|
                #![trigger call_ensures(A::prepare, (r,), ())]
                call_ensures(A::prepare, (r,), ()) && mut_ref_current(r)
                    == old(self).actor_slots()[c.id as int]->0
                    && final(self).actor_slots()[c.id as int]
                    == ActorSlot::Actor(mut_ref_future(r)),
            event is Spawn && !(old(self).actor_slots()[c.id as int] is Actor)
                ==> final(self).actor_slots() == old(self).actor_slots(),
            !(event is Spawn) ==> final(self).actor_slots()[c.id as int] == if completes(
                old(self)@.cells[c.id as int],
                event,
                DrainFlags { spawned: is_spawned, terminated: is_terminated },
            ) {
                ActorSlot::<A>::Released
            } else {
                old(self).actor_slots()[c.id as int]
            },
    {
        let ghost f = DrainFlags { spawned: is_spawned, terminated: is_terminated };
        let ghost v = self@.cells[c.id as int];
        match event {
            SysEvent::Spawn => {
                self.handle_spawn(c, is_spawned, is_terminated);
            },
            SysEvent::Link(child) => {
                self.link_child(c, child, is_spawned);
                proof {
                    let rt1 = set_cell(old(self)@, c, sys_step_cell(v, event, f));
                    assert(seq![child].drop_last() =~= Seq::<CellRef>::empty());
                    assert(deliver_all(rt1, Seq::<CellRef>::empty(), SysEvent::Spawn) == rt1);
                }
            },
            SysEvent::Terminate => {
                self.terminate(c);
                proof {
                    let rt1 = set_cell(old(self)@, c, sys_step_cell(v, event, f));
                    assert(deliver_all(rt1, Seq::<CellRef>::empty(), SysEvent::Terminate) == rt1);
                }
            },
            SysEvent::ChildTerminated(child) => {
                self.unlink_child(c, child, is_terminated);
                proof {
                    let kids = remove_first(v.children, child);
                    let rt1 = set_cell(old(self)@, c, CellView { children: kids, ..v });
                    let rt2 = set_cell(old(self)@, c, sys_step_cell(v, event, f));
                    if is_terminated && kids.len() == 0 {
                        assert(completes(v, event, f));
                        assert(rt1.cells[c.id as int] == CellView { children: kids, ..v });
                        let rt3 = set_cell(rt1, c, CellView {
                            state: v.state.set_life(Lifecycle::Terminated),
                            live: false,
                            ..CellView { children: kids, ..v }
                        });
                        assert(rt3 =~= rt2);
                        match v.supervisor {
                            Some(p) => {
                                assert(seq![p].drop_last() =~= Seq::<CellRef>::empty());
                                assert(seq![p].last() == p);
                                assert(deliver_all(rt2, Seq::<CellRef>::empty(), SysEvent::ChildTerminated(c)) == rt2);
                                assert(deliver_all(rt2, seq![p], SysEvent::ChildTerminated(c))
                                    == deliver(rt2, p, SysEvent::ChildTerminated(c)));
                            },
                            None => {
                                assert(deliver_all(rt2, Seq::<CellRef>::empty(), SysEvent::ChildTerminated(c)) == rt2);
                            },
                        }
                    } else {
                        assert(!completes(v, event, f));
                        assert(rt1 =~= rt2);
                        assert(deliver_all(rt2, Seq::<CellRef>::empty(), SysEvent::ChildTerminated(c)) == rt2);
                    }
                }
            },
        }
    }

    /// Hands a message to the actor of cell `c` and links the actor's answer
    /// to the request's response. The system actors take no user messages;
    /// one sent to them is dropped, as is one that reaches a cell whose actor
    /// is gone. Only the actor of `c` changes: it becomes what its own
    /// `receive` of the message makes of it.
    fn receive_msg(&mut self, c: CellRef, request: Request<M, ()>) -> (es: Vec<Effect<A, M>>)
        requires
            c.id < old(self)@.cells.len(),
        ensures
            final(self)@ == old(self)@,
            final(self).actor_slots() == old(self).actor_slots().update(
                c.id as int,
                final(self).actor_slots()[c.id as int],
            ),
            old(self).actor_slots()[c.id as int] is Actor ==> exists|
                q: &mut A,
                k: &mut Context<A, M>,
            |
                #![trigger call_ensures(A::receive, (q, request.message, k), ())]
                call_ensures(A::receive, (q, request.message, k), ()) && mut_ref_current(q) == old(
                    self,
                ).actor_slots()[c.id as int]->0 && final(self).actor_slots()[c.id as int]
                    == ActorSlot::Actor(mut_ref_future(q)) && mut_ref_current(k).cell == c
                    && mut_ref_current(k).effects@ == Seq::<Effect<A, M>>::empty()
                    && mut_ref_future(k).effects@ == es@,
            !(old(self).actor_slots()[c.id as int] is Actor) ==> final(self).actor_slots()
                == old(self).actor_slots() && es@ == Seq::<Effect<A, M>>::empty(),
    {
        let ghost v = self@.cells[c.id as int];
        let Request { message, response } = request;
        let mut ctx: Context<A, M> = Context::new(c);
        match &mut self.cells[c.id].actor {
            ActorSlot::Actor(a) => {
                let answer = a.receive(message, &mut ctx);
                answer.link(response);
            },
            _ => {},
        }
        assert(self@.cells[c.id as int] == v);
        assert(self@.cells =~= old(self)@.cells);
        ctx.effects
    }

    /// Runs one user event of cell `c`: a message goes to the actor (see
    /// `receive_msg`), a job runs; nothing of the runtime's view changes.
    fn process_message(&mut self, c: CellRef, event: Event<M, J>) -> (es: Vec<Effect<A, M>>)
        requires
            c.id < old(self)@.cells.len(),
        ensures
            final(self)@ == old(self)@,
            final(self).actor_slots() == old(self).actor_slots().update(
                c.id as int,
                final(self).actor_slots()[c.id as int],
            ),
            match event {
                Event::Message(request) => {
                    &&& old(self).actor_slots()[c.id as int] is Actor ==> exists|
                        q: &mut A,
                        k: &mut Context<A, M>,
                    |
                        #![trigger call_ensures(A::receive, (q, request.message, k), ())]
                        call_ensures(A::receive, (q, request.message, k), ()) && mut_ref_current(q)
                            == old(self).actor_slots()[c.id as int]->0
                                && final(self).actor_slots()[c.id
                            as int] == ActorSlot::Actor(mut_ref_future(q))
                                && mut_ref_current(k).cell
                            == c && mut_ref_current(k).effects@ == Seq::<Effect<A, M>>::empty()
                            && mut_ref_future(k).effects@ == es@
                    &&& !(old(self).actor_slots()[c.id as int] is Actor)
                        ==> final(self).actor_slots()
                        == old(self).actor_slots() && es@ == Seq::<Effect<A, M>>::empty()
                },
                Event::Exec(job) => final(self).actor_slots() == old(self).actor_slots()
                    && call_ensures(J::run, (job,), ()) && es@ == Seq::<Effect<A, M>>::empty(),
            },
    {
        match event {
            Event::Message(request) => self.receive_msg(c, request),
            Event::Exec(f) => {
                f.run();
                Vec::new()
            },
        }
    }

    /// Processes the mailboxes of cell `c`: every system event, then, unless
    /// the cell is terminating, one user event. True when a user event was
    /// processed, that is, when the cell may have more work. The actor is
    /// prepared when the cell leaves `New`, and then gets the user event.
    #[verifier::rlimit(30)]
    fn process_mailbox(&mut self, c: CellRef, spawned: bool, terminated: bool) -> (r: (bool, Vec<Effect<A, M>>))
        requires
            c.id < old(self)@.cells.len(),
            drain_ok(
                old(self)@.cells[c.id as int],
                c,
                old(self)@.cells.len(),
                old(self)@.cells[c.id as int].sys_events,
                DrainFlags { spawned, terminated },
            ),
        ensures
            (final(self)@, r.0) == mailbox_rt(old(self)@, c, DrainFlags { spawned, terminated }),
            ({
                let d = drain_cell(
                    old(self)@.cells[c.id as int],
                    old(self)@.cells[c.id as int].sys_events,
                    DrainFlags { spawned, terminated },
                ).0;
                let w = final(self)@.cells[c.id as int];
                &&& w.state == d.state
                &&& w.children == d.children
                &&& w.supervisor == d.supervisor
            }),
            final(self)@.cells.len() == old(self)@.cells.len(),
            ({
                let s0 = old(self).actor_slots()[c.id as int];
                let sf = final(self).actor_slots()[c.id as int];
                let before = old(self)@.cells[c.id as int];
                let after = final(self)@.cells[c.id as int];
                let prepared = before.state.life() == Lifecycle::New
                    && after.state.life() != Lifecycle::New;
                let took = r.0;
                let ev = before.mailbox[0];
                let released = !r.0 && sf is Released;
                &&& final(self).actor_slots() == old(self).actor_slots().update(c.id as int, sf)
                &&& took ==> before.mailbox.len() > 0
                &&& took && ev is Exec ==> call_ensures(J::run, (ev->Exec_0,), ())
                &&& !(took && ev is Message && s0 is Actor) ==> r.1@ == Seq::<Effect<A, M>>::empty()
                &&& !(s0 is Actor) ==> sf == s0 || released
                &&& s0 is Actor && prepared && took && ev is Message
                    ==> exists|p: &mut A, q: &mut A, k: &mut Context<A, M>|
                    #![trigger call_ensures(A::prepare, (p,), ()),
                        call_ensures(A::receive, (q, ev->Message_0.message, k), ())]
                    call_ensures(A::prepare, (p,), ())
                        && call_ensures(A::receive, (q, ev->Message_0.message, k), ())
                        && mut_ref_current(p) == s0->0 && mut_ref_current(q) == mut_ref_future(p)
                        && sf == ActorSlot::Actor(mut_ref_future(q))
                        && mut_ref_current(k).cell == c && mut_ref_current(k).effects@
                            == Seq::<Effect<A, M>>::empty()
                        && mut_ref_future(k).effects@ == r.1@
                &&& s0 is Actor && prepared && !(took && ev is Message) ==> exists|p: &mut A|
                    #![trigger call_ensures(A::prepare, (p,), ())]
                    call_ensures(A::prepare, (p,), ()) && mut_ref_current(p) == s0->0 && (sf
                        == ActorSlot::Actor(mut_ref_future(p)) || released)
                &&& s0 is Actor && !prepared && took && ev is Message
                    ==> exists|q: &mut A, k: &mut Context<A, M>|
                    #![trigger call_ensures(A::receive, (q, ev->Message_0.message, k), ())]
                    call_ensures(A::receive, (q, ev->Message_0.message, k), ())
                        && mut_ref_current(q) == s0->0
                        && sf == ActorSlot::Actor(mut_ref_future(q))
                        && mut_ref_current(k).cell == c && mut_ref_current(k).effects@
                            == Seq::<Effect<A, M>>::empty()
                        && mut_ref_future(k).effects@ == r.1@
                &&& s0 is Actor && !prepared && !(took && ev is Message) ==> sf == s0 || released
            }),
            terminated ==> !r.0,
            r.0 && !(old(self)@.cells[c.id as int].state.life() == Lifecycle::Terminating
                || old(self)@.cells[c.id as int].state.life() == Lifecycle::Terminated)
                ==> !(final(self)@.cells[c.id as int].state.life() == Lifecycle::Terminating
                || final(self)@.cells[c.id as int].state.life() == Lifecycle::Terminated),
            final(self)@.cells[c.id as int].mailbox == if r.0 {
                old(self)@.cells[c.id as int].mailbox.drop_first()
            } else {
                old(self)@.cells[c.id as int].mailbox
            },
    {
        let ghost rt0 = self@;
        let ghost n = self@.cells.len();
        let ghost f0 = DrainFlags { spawned, terminated };
        let ghost events0 = self@.cells[c.id as int].sys_events;
        let ghost v0 = self@.cells[c.id as int];
        let ghost mut lv = v0;
        let ghost s0 = self.actor_slots()[c.id as int];
        let ghost mut s1 = s0;
        let mut is_spawned = spawned;
        let mut is_terminated = terminated;
        loop
            invariant
                c.id < n,
                self@.cells.len() == n,
                self.actor_slots() == old(self).actor_slots().update(
                    c.id as int,
                    self.actor_slots()[c.id as int],
                ),
                n == old(self)@.cells.len(),
                s0 == old(self).actor_slots()[c.id as int],
                v0 == old(self)@.cells[c.id as int],
                !(v0.state.life() == Lifecycle::New && lv.state.life() != Lifecycle::New) ==> s1
                    == s0,
                (v0.state.life() == Lifecycle::New && lv.state.life() != Lifecycle::New)
                    && s0 is Actor
                    ==> exists|p: &mut A|
                    #![trigger call_ensures(A::prepare, (p,), ())]
                    call_ensures(A::prepare, (p,), ()) && mut_ref_current(p) == s0->0 && s1
                        == ActorSlot::Actor(mut_ref_future(p)),
                !(s0 is Actor) ==> s1 == s0,
                self.actor_slots()[c.id as int] == s1
                    || (self.actor_slots()[c.id as int] is Released
                    && is_terminated && lv.state.life() == Lifecycle::Terminated),
                v0.state.life() != Lifecycle::New ==> lv.state.life() != Lifecycle::New,
                lv.mailbox == v0.mailbox,
                terminated ==> is_terminated,
                (lv.state.life() == Lifecycle::Terminating || lv.state.life()
                    == Lifecycle::Terminated) ==> is_terminated || (v0.state.life()
                    == Lifecycle::Terminating || v0.state.life() == Lifecycle::Terminated),

                self@.cells[c.id as int] == (CellView {
                    sys_events: self@.cells[c.id as int].sys_events,
                    ..lv
                }),
                drain_ok(
                    lv,
                    c,
                    n,
                    self@.cells[c.id as int].sys_events,
                    DrainFlags { spawned: is_spawned, terminated: is_terminated },
                ),
                drain_cell(
                    lv,
                    self@.cells[c.id as int].sys_events,
                    DrainFlags { spawned: is_spawned, terminated: is_terminated },
                ) == drain_cell(v0, events0, f0),
                drain_rt(
                    self@,
                    c,
                    self@.cells[c.id as int].sys_events,
                    DrainFlags { spawned: is_spawned, terminated: is_terminated },
                ) == drain_rt(rt0, c, events0, f0),
            ensures
                self@.cells[c.id as int].sys_events.len() == 0,
            decreases self@.cells[c.id as int].sys_events.len(),
        {
            let ghost before = self@;
            let ghost slots_before = self.actor_slots();
            let ghost mid = self.cells@;
            let polled = sys_queue_poll(&mut self.cells[c.id].sys_mailbox);
            proof {
                lemma_view_update(mid, self.cells@, c.id as int);
                assert(self.actor_slots() =~= slots_before);
            }
            match polled {
                None => {
                    assert(self@ =~= before);
                    break;
                },
                Some(event) => {
                    let ghost events = before.cells[c.id as int].sys_events;
                    let ghost f = DrainFlags { spawned: is_spawned, terminated: is_terminated };
                    match event {
                        SysEvent::Spawn => is_spawned = true,
                        SysEvent::Terminate => is_terminated = true,
                        _ => {},
                    }
                    let ghost f2 = DrainFlags { spawned: is_spawned, terminated: is_terminated };
                    assert(f2 == flags_after(f, event));
                    let ghost rt1 = self@;
                    assert(rt1 == set_cell(
                        before,
                        c,
                        CellView { sys_events: events.drop_first(), ..before.cells[c.id as int] },
                    ));
                    proof {
                        lemma_sends_ok(rt1.cells[c.id as int], c, n, event, f2);
                    }
                    let ghost slots_pre = self.actor_slots();
                    assert(slots_pre =~= slots_before);
                    self.process_sys_message(c, event, is_spawned, is_terminated);
                    proof {
                        assert(self.actor_slots() == slots_pre.update(
                            c.id as int,
                            self.actor_slots()[c.id as int],
                        ));
                        let w = rt1.cells[c.id as int];
                        let sends = sys_step_sends(w, c, event, f2);
                        lemma_deliver_all_frame(
                            set_cell(rt1, c, sys_step_cell(w, event, f2)),
                            sends.0,
                            sends.1,
                        );
                        lemma_set_life(lv.state, Lifecycle::Active);
                        lemma_set_life(lv.state, Lifecycle::Terminating);
                        lemma_set_life(lv.state, Lifecycle::Terminated);
                        lv = sys_step_cell(lv, event, f2);
                        if event is Spawn {
                            s1 = self.actor_slots()[c.id as int];
                        }
                        assert(self.actor_slots() =~= old(self).actor_slots().update(
                            c.id as int,
                            self.actor_slots()[c.id as int],
                        ));
                        assert(self@.cells[c.id as int] == sys_step_cell(w, event, f2));
                        assert(self@.cells[c.id as int].sys_events =~= events.drop_first());
                    }
                },
            }
        }
        let ghost d = self@;
        proof {
            assert(drain_rt(self@, c, self@.cells[c.id as int].sys_events, DrainFlags { spawned: is_spawned, terminated: is_terminated }) == (self@, DrainFlags { spawned: is_spawned, terminated: is_terminated }));
        }
        if is_terminated {
            return (false, Vec::new());
        }
        let ghost mid = self.cells@;
        let ghost slots_d = self.actor_slots();
        let popped = self.cells[c.id].mailbox.pop_front();
        proof {
            lemma_view_update(mid, self.cells@, c.id as int);
            assert(self.actor_slots() =~= slots_d);
        }
        match popped {
            Some(event) => {
                assert(self@ =~= set_cell(
                    d,
                    c,
                    CellView { mailbox: d.cells[c.id as int].mailbox.drop_first(), ..d.cells[c.id as int] },
                ));
                assert(event == old(self)@.cells[c.id as int].mailbox[0]);
                let es = self.process_message(c, event);
                assert(self.actor_slots() =~= old(self).actor_slots().update(
                    c.id as int,
                    self.actor_slots()[c.id as int],
                ));
                (true, es)
            },
            None => {
                assert(self@ =~= d);
                (false, Vec::new())
            },
        }
    }

    /// Runs one round of cell `c`: if it is scheduled, it is marked running,
    /// processes its mailboxes, and goes back to idle or scheduled; a cell
    /// that started to terminate in this round tells its children to
    /// terminate. A cell that runs already, or that got work while running,
    /// is left alone. True when the cell has to be put back on the run queue.
    /// Of the actors, only the cell's own changes: a cell that leaves `New`
    /// in this round has its actor's `prepare` called, and a user event that
    /// the round takes goes to the actor's `receive` (a message) or runs (a
    /// job), in that order; a cell that finishes terminating drops its actor.
    /// Also gives back what the actor asked for while it handled a message
    /// (nothing otherwise); `run_once` and `CellRef::tick` carry it out.
    pub fn tick(&mut self, c: CellRef) -> (r: (bool, Vec<Effect<A, M>>))
        requires
            tick_ok(old(self)@, c),
        ensures
            (final(self)@, r.0) == tick_rt(old(self)@, c),
            ({
                let s0 = old(self).actor_slots()[c.id as int];
                let sf = final(self).actor_slots()[c.id as int];
                let before = old(self)@.cells[c.id as int];
                let after = final(self)@.cells[c.id as int];
                let spawned = before.state.life() == Lifecycle::New
                    && after.state.life() != Lifecycle::New;
                let took = after.mailbox.len() < before.mailbox.len();
                let ev = before.mailbox[0];
                let released = !after.live && sf is Released;
                &&& final(self).actor_slots() == old(self).actor_slots().update(c.id as int, sf)
                &&& took ==> before.mailbox.len() > 0
                &&& took && ev is Exec ==> call_ensures(J::run, (ev->Exec_0,), ())
                &&& !(took && ev is Message && s0 is Actor) ==> r.1@ == Seq::<Effect<A, M>>::empty()
                &&& !(s0 is Actor) ==> sf == s0 || released
                &&& s0 is Actor && spawned && took && ev is Message
                    ==> exists|p: &mut A, q: &mut A, k: &mut Context<A, M>|
                    #![trigger call_ensures(A::prepare, (p,), ()),
                        call_ensures(A::receive, (q, ev->Message_0.message, k), ())]
                    call_ensures(A::prepare, (p,), ())
                        && call_ensures(A::receive, (q, ev->Message_0.message, k), ())
                        && mut_ref_current(p) == s0->0 && mut_ref_current(q) == mut_ref_future(p)
                        && sf == ActorSlot::Actor(mut_ref_future(q))
                        && mut_ref_current(k).cell == c && mut_ref_current(k).effects@
                            == Seq::<Effect<A, M>>::empty()
                        && mut_ref_future(k).effects@ == r.1@
                &&& s0 is Actor && spawned && !(took && ev is Message) ==> exists|p: &mut A|
                    #![trigger call_ensures(A::prepare, (p,), ())]
                    call_ensures(A::prepare, (p,), ()) && mut_ref_current(p) == s0->0 && (sf
                        == ActorSlot::Actor(mut_ref_future(p)) || released)
                &&& s0 is Actor && !spawned && took && ev is Message
                    ==> exists|q: &mut A, k: &mut Context<A, M>|
                    #![trigger call_ensures(A::receive, (q, ev->Message_0.message, k), ())]
                    call_ensures(A::receive, (q, ev->Message_0.message, k), ())
                        && mut_ref_current(q) == s0->0
                        && sf == ActorSlot::Actor(mut_ref_future(q))
                        && mut_ref_current(k).cell == c && mut_ref_current(k).effects@
                            == Seq::<Effect<A, M>>::empty()
                        && mut_ref_future(k).effects@ == r.1@
                &&& s0 is Actor && !spawned && !(took && ev is Message) ==> sf == s0 || released
            }),
            old(self)@.cells[c.id as int].state.sched() != Schedule::Scheduled
                ==> final(self).actor_slots()
                == old(self).actor_slots(),
    {
        let ghost rt0 = self@;
        let ghost v = self@.cells[c.id as int];
        let before = self.cells[c.id].core.state.load();
        let next = match before.schedule() {
            Schedule::Running | Schedule::Pending => return (false, Vec::new()),
            Schedule::Scheduled => before.with_schedule(Schedule::Running),
            Schedule::Idle => {
                proof {
                    assert(false);
                }
                return (false, Vec::new());
            },
        };
        self.store_state(c, before, next);
        let ghost rt1 = self@;
        proof {
            lemma_drain_cell_keeps(
                rt1.cells[c.id as int],
                rt1.cells[c.id as int].sys_events,
                start_flags(before),
            );
        }
        let (reschedule, effects) = self.process_mailbox(
            c,
            before.lifecycle() != Lifecycle::New,
            next.lifecycle() == Lifecycle::Terminating || next.lifecycle()
                == Lifecycle::Terminated,
        );
        let ghost rt2 = self@;
        let curr = self.cells[c.id].core.state.load();
        let next2 = match curr.schedule() {
            Schedule::Pending => curr.with_schedule(Schedule::Scheduled),
            Schedule::Running => {
                if reschedule {
                    curr.with_schedule(Schedule::Scheduled)
                } else {
                    curr.with_schedule(Schedule::Idle)
                }
            },
            Schedule::Idle | Schedule::Scheduled => {
                proof {
                    assert(false);
                }
                return (false, Vec::new());
            },
        };
        self.store_state(c, curr, next2);
        proof {
            lemma_set_sched(curr, Schedule::Scheduled);
            lemma_set_sched(curr, Schedule::Idle);
        }
        let ghost rt3 = self@;
        proof {
            lemma_set_sched(v.state, Schedule::Running);
            lemma_set_sched(curr, Schedule::Scheduled);
            lemma_set_sched(curr, Schedule::Idle);
            assert(rt3.cells[c.id as int].mailbox == rt2.cells[c.id as int].mailbox);
            assert(rt1.cells[c.id as int].mailbox == v.mailbox);
            assert(rt1.cells[c.id as int].state.life() == v.state.life());
        }
        let ghost slots3 = self.actor_slots();
        if curr.lifecycle() == Lifecycle::Terminating && before.lifecycle()
            != Lifecycle::Terminating {
            self.initialize_termination(c);
        }
        proof {
            assert(reschedule ==> self.actor_slots() == slots3);
            assert(self@.cells.len() == self.cells@.len());
            assert(c.id < self.cells@.len());
            assert(self.actor_slots()[c.id as int] == self.cells@[c.id as int].actor);
            assert(self@.cells[c.id as int] == self.cells@[c.id as int].view());
            assert(self@.cells[c.id as int].mailbox == rt2.cells[c.id as int].mailbox);
            assert(rt2.cells[c.id as int].state.life() != Lifecycle::New ==> self@.cells[c.id
                as int].state.life() != Lifecycle::New);
            assert(rt2.cells[c.id as int].state.life() == Lifecycle::New ==> self@.cells[c.id
                as int].state.life() == Lifecycle::New);
            assert(rt2.cells[c.id as int].mailbox == if reschedule {
                v.mailbox.drop_first()
            } else {
                v.mailbox
            });
            assert(reschedule <==> self@.cells[c.id as int].mailbox.len() < v.mailbox.len());
        }
        match next2.schedule() {
            Schedule::Scheduled => (true, effects),
            _ => (false, effects),
        }
    }

    /// The system events queued for cell `c`, oldest first; the mailbox is
    /// emptied and filled again in the same order.
    fn sys_events_snapshot(&mut self, c: CellRef) -> (r: Vec<SysEvent>)
        requires
            c.id < old(self)@.cells.len(),
        ensures
            final(self)@ == old(self)@,
            r@ == old(self)@.cells[c.id as int].sys_events,
            final(self).actor_slots() == old(self).actor_slots(),
    {
        let ghost v = self@.cells[c.id as int];
        let ghost all = v.sys_events;
        let mut out: Vec<SysEvent> = Vec::new();
        loop
            invariant
                c.id < self@.cells.len(),
                self@.cells.len() == old(self)@.cells.len(),
                out@ + self@.cells[c.id as int].sys_events == all,
                self.actor_slots() == old(self).actor_slots(),
                self@ == set_cell(
                    old(self)@,
                    c,
                    CellView { sys_events: self@.cells[c.id as int].sys_events, ..v },
                ),
            ensures
                out@ == all,
                self.actor_slots() == old(self).actor_slots(),
                self@ == set_cell(old(self)@, c, CellView { sys_events: Seq::empty(), ..v }),
            decreases self@.cells[c.id as int].sys_events.len(),
        {
            let ghost before = self@;
            let ghost mid = self.cells@;
            let polled = sys_queue_poll(&mut self.cells[c.id].sys_mailbox);
            proof {
                lemma_view_update(mid, self.cells@, c.id as int);
                assert(self.actor_slots() =~= old(self).actor_slots());
            }
            match polled {
                None => {
                    assert(self@.cells[c.id as int].sys_events =~= Seq::<SysEvent>::empty());
                    assert(out@ =~= all);
                    assert(self@ =~= set_cell(old(self)@, c, CellView { sys_events: Seq::empty(), ..v }));
                    break;
                },
                Some(e) => {
                    let ghost rest = before.cells[c.id as int].sys_events;
                    out.push(e);
                    assert(out@ + rest.drop_first() =~= all) by {
                        assert(rest =~= seq![e] + rest.drop_first());
                        assert(out@ =~= out@.drop_last().push(e));
                    }
                    assert(self@ =~= set_cell(
                        old(self)@,
                        c,
                        CellView { sys_events: rest.drop_first(), ..v },
                    ));
                },
            }
        }
        let mut i: usize = 0;
        assert(all.take(0) =~= Seq::<SysEvent>::empty());
        while i < out.len()
            invariant
                i <= out.len(),
                out@ == all,
                self.actor_slots() == old(self).actor_slots(),
                c.id < self@.cells.len(),
                c.id < old(self)@.cells.len(),
                v == old(self)@.cells[c.id as int],
                self@ == set_cell(old(self)@, c, CellView { sys_events: all.take(i as int), ..v }),
            decreases out.len() - i,
        {
            let ghost mid = self.cells@;
            let ghost before = self@;
            let e = out[i];
            sys_queue_put(&mut self.cells[c.id].sys_mailbox, e);
            proof {
                lemma_view_update(mid, self.cells@, c.id as int);
                assert(self.actor_slots() =~= old(self).actor_slots());
                assert(all.take(i as int).push(e) =~= all.take(i + 1));
                assert(before.cells[c.id as int]
                    == CellView { sys_events: all.take(i as int), ..v });
                assert(mid[c.id as int].view() == before.cells[c.id as int]);
                assert(self.cells@[c.id as int].core == mid[c.id as int].core);
                assert(self.cells@[c.id as int].mailbox == mid[c.id as int].mailbox);
                assert(self.cells@[c.id as int].actor == mid[c.id as int].actor);
                assert(self@.cells[c.id as int] == CellView { sys_events: all.take(i + 1), ..v });
                assert(self@.cells =~= old(self)@.cells.update(
                    c.id as int,
                    CellView { sys_events: all.take(i + 1), ..v },
                ));
            }
            i = i + 1;
            assert(self@ =~= set_cell(
                old(self)@,
                c,
                CellView { sys_events: all.take(i as int), ..v },
            ));
        }
        assert(all.take(i as int) =~= all);
        assert(self@ =~= old(self)@);
        out
    }

    /// True if a tick of cell `c` runs to its end (see `tick_ok`); the
    /// runtime is left as it was.
    pub fn check_tick(&mut self, c: CellRef) -> (ok: bool)
        ensures
            final(self)@ == old(self)@,
            ok == tick_ok(old(self)@, c),
            final(self).actor_slots() == old(self).actor_slots(),
    {
        if c.id >= self.cells.len() {
            return false;
        }
        let ghost v = self@.cells[c.id as int];
        let s0 = self.cells[c.id].core.state.load();
        match s0.schedule() {
            Schedule::Idle => return false,
            Schedule::Running | Schedule::Pending => return true,
            Schedule::Scheduled => {},
        }
        let events = self.sys_events_snapshot(c);
        assert(self.cells@.len() == self@.cells.len());
        let n = self.cells.len();
        let sup = self.cells[c.id].core.supervisor;
        let mut kids = self.cells[c.id].core.child_iter();
        let mut st = s0.with_schedule(Schedule::Running);
        let mut spawned = s0.lifecycle() != Lifecycle::New;
        let mut terminated = s0.lifecycle() == Lifecycle::Terminating || s0.lifecycle()
            == Lifecycle::Terminated;
        let ghost v1 = CellView { state: st, ..v };
        let ghost f0 = start_flags(s0);
        let ghost mut lv = v1;
        let mut i: usize = 0;
        assert(events@.skip(0) =~= events@);
        while i < events.len()
            invariant
                i <= events.len(),
                n == self@.cells.len(),
                self@ == old(self)@,
                self.actor_slots() == old(self).actor_slots(),
                events@ == v.sys_events,
                c.id < n,
                v == old(self)@.cells[c.id as int],
                s0 == v.state,
                s0.sched() == Schedule::Scheduled,
                v1 == (CellView { state: s0.set_sched(Schedule::Running), ..v }),
                f0 == start_flags(s0),
                lv == (CellView { state: st, children: kids@, live: lv.live, ..v1 }),
                v1.supervisor == sup,
                drain_ok(v1, c, n as nat, events@, f0) == drain_ok(
                    lv,
                    c,
                    n as nat,
                    events@.skip(i as int),
                    DrainFlags { spawned, terminated },
                ),
                drain_cell(v1, events@, f0) == drain_cell(
                    lv,
                    events@.skip(i as int),
                    DrainFlags { spawned, terminated },
                ),
            decreases events.len() - i,
        {
            let e = events[i];
            let ghost f = DrainFlags { spawned, terminated };
            let ghost rest = events@.skip(i as int);
            assert(rest[0] == e);
            assert(rest.drop_first() =~= events@.skip(i + 1));
            match e {
                SysEvent::Spawn => spawned = true,
                SysEvent::Terminate => terminated = true,
                _ => {},
            }
            let ghost f2 = DrainFlags { spawned, terminated };
            assert(f2 == flags_after(f, e));
            match e {
                SysEvent::Spawn => {
                    if st.lifecycle() != Lifecycle::New {
                        return false;
                    }
                    if !targets_valid(c, &kids, n) {
                        return false;
                    }
                    st = st.with_lifecycle(Lifecycle::Active);
                },
                SysEvent::Link(x) => {
                    if spawned && !(x.id < n && x != c) {
                        return false;
                    }
                    kids.insert(0, x);
                    assert(kids@ =~= seq![x] + lv.children);
                },
                SysEvent::Terminate => {
                    match st.lifecycle() {
                        Lifecycle::Active => {
                            st = st.with_lifecycle(Lifecycle::Terminating);
                        },
                        Lifecycle::Terminating => {},
                        _ => {
                            return false;
                        },
                    }
                },
                SysEvent::ChildTerminated(x) => {
                    remove_child(&mut kids, x);
                    if terminated && kids.len() == 0 {
                        if st.lifecycle() != Lifecycle::Terminating {
                            return false;
                        }
                        match sup {
                            Some(p) => {
                                if !(p.id < n && p != c) {
                                    return false;
                                }
                            },
                            None => {},
                        }
                        st = st.with_lifecycle(Lifecycle::Terminated);
                    }
                },
            }
            proof {
                lv = sys_step_cell(lv, e, f2);
            }
            i = i + 1;
        }
        assert(events@.skip(i as int) =~= Seq::<SysEvent>::empty());
        if st.lifecycle() == Lifecycle::Terminating && s0.lifecycle() != Lifecycle::Terminating {
            if !refs_valid(&kids, n) {
                return false;
            }
            if kids.len() == 0 {
                match sup {
                    Some(p) => {
                        if p.id >= n {
                            return false;
                        }
                    },
                    None => {},
                }
            }
        }
        true
    }

    /// Makes a cell for `actor` under `supervisor`, without telling anyone.
    fn add_cell(&mut self, actor: ActorSlot<A>, supervisor: Option<CellRef>) -> (r: CellRef)
        requires
            !(actor is Released),
        ensures
            r.id == old(self)@.cells.len(),
            final(self)@ == (RuntimeView {
                cells: old(self)@.cells.push(fresh_cell(supervisor)),
                ..old(self)@
            }),
            final(self).actor_slots() == old(self).actor_slots().push(actor),
    {
        let id = self.cells.len();
        let cell = CellInner::new(actor, supervisor);
        let ghost mid = self.cells@;
        self.cells.push(cell);
        assert(self@.cells =~= old(self)@.cells.push(fresh_cell(supervisor)));
        assert(self.actor_slots() =~= old(self).actor_slots().push(actor));
        CellRef { id }
    }

    /// Makes a cell for `actor` with the given supervisor; nothing is sent to
    /// either.
    pub fn new_cell(&mut self, actor: A, supervisor: Option<CellRef>) -> (r: CellRef)
        ensures
            r.id == old(self)@.cells.len(),
            final(self)@ == (RuntimeView {
                cells: old(self)@.cells.push(fresh_cell(supervisor)),
                ..old(self)@
            }),
    {
        self.add_cell(ActorSlot::Actor(actor), supervisor)
    }

    /// Spawns a cell for the actor in `slot` (see `spawn_rt`).
    fn spawn_slot(&mut self, slot: ActorSlot<A>, supervisor: Option<CellRef>) -> (r: CellRef)
        requires
            !(slot is Released),
            supervisor is Some ==> supervisor->0.id < old(self)@.cells.len(),
        ensures
            (final(self)@, r) == spawn_rt(old(self)@, supervisor),
            final(self).actor_slots() == old(self).actor_slots().push(slot),
    {
        let sup = match supervisor {
            Some(s) => Some(s),
            None => match self.sys_actors {
                Some(sys) => {
                    if sys.user.id < self.cells.len() {
                        Some(sys.user)
                    } else {
                        None
                    }
                },
                None => None,
            },
        };
        let c = self.add_cell(slot, sup);
        match sup {
            Some(p) => self.sys_dispatch(p, SysEvent::Link(c)),
            None => self.sys_dispatch(c, SysEvent::Spawn),
        }
        c
    }

    /// Spawns a cell for `actor`. With a supervisor, the cell is linked under
    /// it and spawned when the supervisor handles the link (at once if the
    /// supervisor runs already); without one, it goes under the user actor.
    pub fn spawn(&mut self, actor: A, supervisor: Option<CellRef>) -> (r: CellRef)
        requires
            supervisor is Some ==> supervisor->0.id < old(self)@.cells.len(),
        ensures
            (final(self)@, r) == spawn_rt(old(self)@, supervisor),
            final(self).actor_slots() == old(self).actor_slots().push(ActorSlot::Actor(actor)),
    {
        self.spawn_slot(ActorSlot::Actor(actor), supervisor)
    }

    /// A runtime with its root actor (spawned) and its user actor (linked
    /// under the root).
    pub fn new() -> (r: Runtime<A, M, J>)
        ensures
            r@ == new_rt::<M, J>(),
    {
        let mut rt = Runtime {
            cells: Vec::new(),
            scheduler: Scheduler::new(),
            state: RuntimeState::New,
            sys_actors: None,
            last_effects: Ghost(Seq::empty()),
        };
        assert(rt@.cells =~= Seq::<CellView<M, J>>::empty());
        let init = rt.spawn_slot(ActorSlot::Init(Init), None);
        let user = rt.spawn_slot(ActorSlot::User(User::new()), Some(init));
        rt.sys_actors = Some(SysActors { init, user });
        rt
    }

    /// Delivers a user event to `cell` and puts the cell on the run queue if
    /// that makes it due.
    pub fn dispatch(&mut self, cell: CellRef, event: Event<M, J>)
        requires
            cell.id < old(self)@.cells.len(),
        ensures
            final(self)@ == dispatch_rt(old(self)@, cell, event),
            final(self).actor_slots() == old(self).actor_slots(),
    {
        let ghost v = self@.cells[cell.id as int];
        let ghost ev = event;
        let ghost mid = self.cells@;
        let due = self.cells[cell.id].deliver_event(event);
        proof {
            lemma_view_update(mid, self.cells@, cell.id as int);
        }
        if due {
            self.enqueue(Op::Task(cell));
        }
    }

    /// Sends `message` to the actor of `cell`.
    pub fn send(&mut self, cell: CellRef, message: M)
        requires
            cell.id < old(self)@.cells.len(),
        ensures
            final(self)@ == dispatch_rt(
                old(self)@,
                cell,
                Event::Message(Request { message, response: crate::asynchronous::Response { value: () } }),
            ),
            final(self).actor_slots() == old(self).actor_slots(),
    {
        self.dispatch(cell, Event::message(Request::new(message, ())));
    }

    /// Carries out, in order, the effects that the actor of `c` asked for
    /// (see `effects_rt`).
    pub fn apply_effects(&mut self, c: CellRef, effects: Vec<Effect<A, M>>)
        ensures
            final(self)@ == effects_rt(old(self)@, c, effects@),
            final(self).actor_slots() == effects_slots(old(self).actor_slots(), c, effects@),
    {
        let mut rest = effects;
        while rest.len() > 0
            invariant
                effects_rt(self@, c, rest@) == effects_rt(old(self)@, c, effects@),
                effects_slots(self.actor_slots(), c, rest@) == effects_slots(
                    old(self).actor_slots(),
                    c,
                    effects@,
                ),
                self.actor_slots().len() == self@.cells.len(),
            decreases rest.len(),
        {
            let ghost all = rest@;
            let e = rest.remove(0);
            assert(rest@ =~= all.drop_first());
            match e {
                Effect::Send(x, m) => {
                    if x.id < self.cells.len() {
                        self.send(x, m);
                    }
                },
                Effect::Spawn(a, sup) => {
                    let p = match sup {
                        Some(p) => p,
                        None => c,
                    };
                    if p.id < self.cells.len() {
                        let _ = self.spawn(a, Some(p));
                    }
                },
            }
        }
    }

    /// Delivers a system event to `cell` without putting it on the run
    /// queue; true when the cell became due.
    pub fn deliver_sys_event(&mut self, cell: CellRef, event: SysEvent) -> (r: bool)
        requires
            cell.id < old(self)@.cells.len(),
        ensures
            ({
                let v = old(self)@.cells[cell.id as int];
                let step = schedule_step(v.state, event is Spawn);
                &&& r == step.1
                &&& final(self)@ == set_cell(
                    old(self)@,
                    cell,
                    CellView { state: step.0, sys_events: v.sys_events.push(event), ..v },
                )
            }),
    {
        let ghost mid = self.cells@;
        let due = self.cells[cell.id].deliver_sys_event(event);
        proof {
            lemma_view_update(mid, self.cells@, cell.id as int);
        }
        due
    }

    /// Starts the runtime if it is new; true when the worker has to be
    /// started.
    pub fn start(&mut self) -> (start_worker: bool)
        ensures
            (final(self)@, start_worker) == start_rt(old(self)@),
    {
        match self.state {
            RuntimeState::New => {
                self.state = RuntimeState::Running;
                true
            },
            _ => false,
        }
    }

    /// Shuts the runtime down: a running scheduler is sent `Terminate` for
    /// its worker. True when the caller has to wait for the worker to stop.
    pub fn shutdown(&mut self) -> (wait: bool)
        ensures
            (final(self)@, wait) == shutdown_rt(old(self)@),
    {
        match self.state {
            RuntimeState::Shutdown => return false,
            RuntimeState::New | RuntimeState::Running => {
                self.state = RuntimeState::ShuttingDown;
            },
            RuntimeState::ShuttingDown => {},
        }
        let wait = self.shutdown_scheduler();
        self.state = RuntimeState::Shutdown;
        wait
    }

    /// The scheduler's part of a shutdown: a running scheduler moves to
    /// terminating and queues `Terminate`; true while it is terminating.
    fn shutdown_scheduler(&mut self) -> (wait: bool)
        ensures
            final(self)@ == (if old(self)@.scheduler == SchedulerState::Running {
                RuntimeView {
                    scheduler: SchedulerState::Terminating,
                    run_queue: old(self)@.run_queue.push(Op::Terminate),
                    ..old(self)@
                }
            } else {
                old(self)@
            }),
            wait == (final(self)@.scheduler == SchedulerState::Terminating),
    {
        if self.scheduler.state == SchedulerState::Running {
            self.scheduler.state = SchedulerState::Terminating;
            self.enqueue(Op::Terminate);
        }
        self.scheduler.state == SchedulerState::Terminating
    }

    /// Ticks cell `c`, puts it back on the run queue if it is due, and then
    /// carries out what its actor asked for.
    fn run_task(&mut self, c: CellRef)
        requires
            tick_ok(old(self)@, c),
        ensures
            final(self)@
                == effects_rt(requeue_rt(tick_rt(old(self)@, c), c), c, final(self).last_effects()),
            ({
                let s0 = old(self).actor_slots()[c.id as int];
                let sf = final(self).actor_slots()[c.id as int];
                let before = old(self)@.cells[c.id as int];
                let after = requeue_rt(tick_rt(old(self)@, c), c).cells[c.id as int];
                let spawned = before.state.life() == Lifecycle::New
                    && after.state.life() != Lifecycle::New;
                let took = after.mailbox.len() < before.mailbox.len();
                let ev = before.mailbox[0];
                let released = !after.live && sf is Released;
                &&& final(self).actor_slots()
                    == effects_slots(old(self).actor_slots().update(c.id as int, sf), c, final(self).last_effects())
                &&& took ==> before.mailbox.len() > 0
                &&& took && ev is Exec ==> call_ensures(J::run, (ev->Exec_0,), ())
                &&& !(took && ev is Message && s0 is Actor) ==> final(self).last_effects()
                    == Seq::<Effect<A, M>>::empty()
                &&& !(s0 is Actor) ==> sf == s0 || released
                &&& s0 is Actor && spawned && took && ev is Message
                    ==> exists|p: &mut A, q: &mut A, k: &mut Context<A, M>|
                    #![trigger call_ensures(A::prepare, (p,), ()),
                        call_ensures(A::receive, (q, ev->Message_0.message, k), ())]
                    call_ensures(A::prepare, (p,), ())
                        && call_ensures(A::receive, (q, ev->Message_0.message, k), ())
                        && mut_ref_current(p) == s0->0 && mut_ref_current(q) == mut_ref_future(p)
                        && sf == ActorSlot::Actor(mut_ref_future(q))
                        && mut_ref_current(k).cell == c && mut_ref_current(k).effects@
                            == Seq::<Effect<A, M>>::empty()
                        && mut_ref_future(k).effects@ == final(self).last_effects()
                &&& s0 is Actor && spawned && !(took && ev is Message) ==> exists|p: &mut A|
                    #![trigger call_ensures(A::prepare, (p,), ())]
                    call_ensures(A::prepare, (p,), ()) && mut_ref_current(p) == s0->0 && (sf
                        == ActorSlot::Actor(mut_ref_future(p)) || released)
                &&& s0 is Actor && !spawned && took && ev is Message
                    ==> exists|q: &mut A, k: &mut Context<A, M>|
                    #![trigger call_ensures(A::receive, (q, ev->Message_0.message, k), ())]
                    call_ensures(A::receive, (q, ev->Message_0.message, k), ())
                        && mut_ref_current(q) == s0->0
                        && sf == ActorSlot::Actor(mut_ref_future(q))
                        && mut_ref_current(k).cell == c && mut_ref_current(k).effects@
                            == Seq::<Effect<A, M>>::empty()
                        && mut_ref_future(k).effects@ == final(self).last_effects()
                &&& s0 is Actor && !spawned && !(took && ev is Message) ==> sf == s0 || released
            }),
    {
        let ghost pre_slots = self.actor_slots();
        let (again, effects) = self.tick(c);
        let ghost ticked_slots = self.actor_slots();
        if again {
            self.enqueue(Op::Task(c));
        }
        let ghost mid = self.actor_slots();
        let ghost done = effects@;
        self.apply_effects(c, effects);
        self.last_effects = Ghost(done);
        proof {
            lemma_effects_slots_prefix(mid, c, done);
            assert(self.actor_slots()[c.id as int] == ticked_slots[c.id as int]);
        }
    }

    /// One step of the worker (see `run_once_rt`). A tick changes the actor
    /// of the ticked cell as `tick` states, and then what that actor asked
    /// for (kept as `last_effects`) is carried out with the ticked cell as
    /// the current one: actors it spawns without a supervisor go under it.
    pub fn run_once(&mut self) -> (r: WorkerStep)
        ensures
            r == run_once_rt(old(self)@).1,
            !(r is Ticked) ==> final(self)@ == run_once_rt(old(self)@).0
                && final(self).actor_slots()
                == old(self).actor_slots(),
            match r {
                WorkerStep::Ticked(t) => final(self)@
                    == effects_rt(run_once_rt(old(self)@).0, t, final(self).last_effects())
                    && {
                    let s0 = old(self).actor_slots()[t.id as int];
                    let sf = final(self).actor_slots()[t.id as int];
                    let before = old(self)@.cells[t.id as int];
                    let after = run_once_rt(old(self)@).0.cells[t.id as int];
                    let spawned = before.state.life() == Lifecycle::New
                        && after.state.life() != Lifecycle::New;
                    let took = after.mailbox.len() < before.mailbox.len();
                    let ev = before.mailbox[0];
                    let released = !after.live && sf is Released;
                    &&& final(self).actor_slots()
                        == effects_slots(old(self).actor_slots().update(t.id as int, sf), t, final(self).last_effects())
                    &&& took ==> before.mailbox.len() > 0
                    &&& took && ev is Exec ==> call_ensures(J::run, (ev->Exec_0,), ())
                    &&& !(took && ev is Message && s0 is Actor) ==> final(self).last_effects()
                        == Seq::<Effect<A, M>>::empty()
                    &&& !(s0 is Actor) ==> sf == s0 || released
                    &&& s0 is Actor && spawned && took && ev is Message
                        ==> exists|p: &mut A, q: &mut A, k: &mut Context<A, M>|
                        #![trigger call_ensures(A::prepare, (p,), ()),
                            call_ensures(A::receive, (q, ev->Message_0.message, k), ())]
                        call_ensures(A::prepare, (p,), ())
                            && call_ensures(A::receive, (q, ev->Message_0.message, k), ())
                            && mut_ref_current(p) == s0->0 && mut_ref_current(q)
                                == mut_ref_future(p)
                            && sf == ActorSlot::Actor(mut_ref_future(q))
                            && mut_ref_current(k).cell == t && mut_ref_current(k).effects@
                                == Seq::<Effect<A, M>>::empty()
                            && mut_ref_future(k).effects@ == final(self).last_effects()
                    &&& s0 is Actor && spawned && !(took && ev is Message) ==> exists|p: &mut A|
                        #![trigger call_ensures(A::prepare, (p,), ())]
                        call_ensures(A::prepare, (p,), ()) && mut_ref_current(p) == s0->0 && (sf
                            == ActorSlot::Actor(mut_ref_future(p)) || released)
                    &&& s0 is Actor && !spawned && took && ev is Message
                        ==> exists|q: &mut A, k: &mut Context<A, M>|
                        #![trigger call_ensures(A::receive, (q, ev->Message_0.message, k), ())]
                        call_ensures(A::receive, (q, ev->Message_0.message, k), ())
                            && mut_ref_current(q) == s0->0
                            && sf == ActorSlot::Actor(mut_ref_future(q))
                            && mut_ref_current(k).cell == t && mut_ref_current(k).effects@
                                == Seq::<Effect<A, M>>::empty()
                            && mut_ref_future(k).effects@ == final(self).last_effects()
                    &&& s0 is Actor && !spawned && !(took && ev is Message) ==> sf == s0 || released
                },
                _ => true,
            },
    {
        let polled = op_queue_poll(&mut self.scheduler.queue);
        match polled {
            None => WorkerStep::Idle,
            Some(Op::Terminate) => {
                self.scheduler.state = SchedulerState::Terminated;
                WorkerStep::Stopped
            },
            Some(Op::Task(c)) => {
                if !self.check_tick(c) {
                    WorkerStep::Faulted(c)
                } else {
                let ghost pre = self@;
                let ghost pre_slots = self.actor_slots();
                self.run_task(c);
                proof {
                    assert(pre.cells == old(self)@.cells);
                    assert(pre_slots == old(self).actor_slots());
                    assert(run_once_rt(old(self)@).0 == requeue_rt(tick_rt(pre, c), c));
                }
                WorkerStep::Ticked(c)
                }
            },
        }
    }

    /// The state word of cell `c`.
    pub fn cell_state(&self, c: CellRef) -> (r: State)
        requires
            c.id < self@.cells.len(),
        ensures
            r == self@.cells[c.id as int].state,
    {
        self.cells[c.id].core.state.load()
    }

    /// The supervisor of cell `c`.
    pub fn supervisor(&self, c: CellRef) -> (r: Option<CellRef>)
        requires
            c.id < self@.cells.len(),
        ensures
            r == self@.cells[c.id as int].supervisor,
    {
        self.cells[c.id].core.supervisor
    }

    /// The children of cell `c`, most recently linked first.
    pub fn children(&self, c: CellRef) -> (r: Vec<CellRef>)
        requires
            c.id < self@.cells.len(),
        ensures
            r@ == self@.cells[c.id as int].children,
    {
        self.cells[c.id].core.child_iter()
    }

    /// True if `child` is a child of cell `c`.
    pub fn has_child(&self, c: CellRef, child: CellRef) -> (r: bool)
        requires
            c.id < self@.cells.len(),
        ensures
            r == self@.cells[c.id as int].children.contains(child),
    {
        let kids = &self.cells[c.id].core.children;
        assert(kids@ == self@.cells[c.id as int].children);
        let mut i: usize = 0;
        while i < kids.len()
            invariant
                i <= kids.len(),
                kids@ == self@.cells[c.id as int].children,
            forall|j: int| 0 <= j < i ==> kids@[j] != child,
            decreases kids.len() - i,
        {
            if kids[i] == child {
                assert(self@.cells[c.id as int].children[i as int] == child);
                return true;
            }
            i = i + 1;
        }
        false
    }

    /// The number of cells.
    pub fn num_cells(&self) -> (r: usize)
        ensures
            r == self@.cells.len(),
    {
        self.cells.len()
    }

    /// The root actor and the user actor.
    pub fn sys_actors(&self) -> (r: Option<SysActors>)
        ensures
            r == self@.sys_actors,
    {
        self.sys_actors
    }

    /// The user actor, under which actors spawned without a supervisor run.
    pub fn user_ref(&self) -> (r: Option<CellRef>)
        ensures
            r == (match self@.sys_actors {
                Some(s) => Some(s.user),
                None => None,
            }),
    {
        match self.sys_actors {
            Some(s) => Some(s.user),
            None => None,
        }
    }

    /// The lifecycle state of the runtime.
    pub fn state(&self) -> (r: RuntimeState)
        ensures
            r == self@.state,
    {
        self.state
    }

    /// The state of the worker.
    pub fn scheduler_state(&self) -> (r: SchedulerState)
        ensures
            r == self@.scheduler,
    {
        self.scheduler.state
    }

    /// Calls `prepare` on the actor of cell `c`: a user's actor becomes what
    /// its own `prepare` makes of it; the system actors hold no state; no
    /// other actor, and nothing of the runtime's view, changes.
    fn prepare_actor(&mut self, c: CellRef)
        requires
            c.id < old(self)@.cells.len(),
        ensures
            final(self)@ == old(self)@,
            final(self).actor_slots() == old(self).actor_slots().update(
                c.id as int,
                final(self).actor_slots()[c.id as int],
            ),
            old(self).actor_slots()[c.id as int] is Actor ==> exists|r: &mut A|
                #![trigger call_ensures(A::prepare, (r,), ())]
                call_ensures(A::prepare, (r,), ()) && mut_ref_current(r) == old(
                    self,
                ).actor_slots()[c.id as int]->0 && final(self).actor_slots()[c.id as int]
                    == ActorSlot::Actor(mut_ref_future(r)),
            !(old(self).actor_slots()[c.id as int] is Actor) ==> final(self).actor_slots()
                == old(self).actor_slots(),
    {
        let ghost v = self@.cells[c.id as int];
        match &mut self.cells[c.id].actor {
            ActorSlot::Actor(a) => a.prepare(),
            ActorSlot::Init(a) => a.prepare(),
            ActorSlot::User(a) => a.prepare(),
            ActorSlot::Released => {},
        }
        assert(self@.cells[c.id as int] == v);
        assert(self@.cells =~= old(self)@.cells);
    }
}

} // verus!

verus! {

/// A job bound to the cell it is to run on; calling it queues the job there.
pub struct ScheduledJob<J> {
    pub cell: CellRef,
    pub job: J,
}

impl<J: Job> ScheduledJob<J> {
    /// Queues the job on its cell, as a user event.
    pub fn call<A: Actor<M>, M>(self, rt: &mut Runtime<A, M, J>)
        requires
            self.cell.id < old(rt)@.cells.len(),
        ensures
            final(rt)@ == dispatch_rt(old(rt)@, self.cell, Event::Exec(self.job)),
    {
        rt.dispatch(self.cell, Event::exec(self.job));
    }
}

impl CellRef {
    pub fn new(id: usize) -> (r: CellRef)
        ensures
            r.id == id,
    {
        CellRef { id }
    }

    /// Delivers a system event to this cell without putting it on the run
    /// queue; true when the cell became due.
    pub fn deliver_sys_event<A: Actor<M>, M, J: Job>(
        &self,
        rt: &mut Runtime<A, M, J>,
        event: SysEvent,
    ) -> (r: bool)
        requires
            self.id < old(rt)@.cells.len(),
        ensures
            ({
                let v = old(rt)@.cells[self.id as int];
                let step = schedule_step(v.state, event is Spawn);
                &&& r == step.1
                &&& final(rt)@ == set_cell(
                    old(rt)@,
                    *self,
                    CellView { state: step.0, sys_events: v.sys_events.push(event), ..v },
                )
            }),
    {
        rt.deliver_sys_event(*self, event)
    }

    /// Runs one round of this cell (see `Runtime::tick`), then carries out
    /// what its actor asked for (see `effects_rt`).
    pub fn tick<A: Actor<M>, M, J: Job>(&self, rt: &mut Runtime<A, M, J>) -> (r: bool)
        requires
            tick_ok(old(rt)@, *self),
        ensures
            r == tick_rt(old(rt)@, *self).1,
            exists|es: Seq<Effect<A, M>>|
                #![trigger effects_rt(tick_rt(old(rt)@, *self).0, *self, es)]
                final(rt)@ == effects_rt(tick_rt(old(rt)@, *self).0, *self, es) && {
                    let s0 = old(rt).actor_slots()[self.id as int];
                    let sf = final(rt).actor_slots()[self.id as int];
                    let before = old(rt)@.cells[self.id as int];
                    let after = tick_rt(old(rt)@, *self).0.cells[self.id as int];
                    let spawned = before.state.life() == Lifecycle::New
                        && after.state.life() != Lifecycle::New;
                    let took = after.mailbox.len() < before.mailbox.len();
                    let ev = before.mailbox[0];
                    let released = !after.live && sf is Released;
                    &&& final(rt).actor_slots()
                        == effects_slots(old(rt).actor_slots().update(self.id as int, sf), *self, es)
                    &&& took ==> before.mailbox.len() > 0
                    &&& took && ev is Exec ==> call_ensures(J::run, (ev->Exec_0,), ())
                    &&& !(took && ev is Message && s0 is Actor) ==> es
                        == Seq::<Effect<A, M>>::empty()
                    &&& !(s0 is Actor) ==> sf == s0 || released
                    &&& s0 is Actor && spawned && took && ev is Message
                        ==> exists|p: &mut A, q: &mut A, k: &mut Context<A, M>|
                        #![trigger call_ensures(A::prepare, (p,), ()),
                            call_ensures(A::receive, (q, ev->Message_0.message, k), ())]
                        call_ensures(A::prepare, (p,), ())
                            && call_ensures(A::receive, (q, ev->Message_0.message, k), ())
                            && mut_ref_current(p) == s0->0 && mut_ref_current(q)
                                == mut_ref_future(p)
                            && sf == ActorSlot::Actor(mut_ref_future(q))
                            && mut_ref_current(k).cell == self && mut_ref_current(k).effects@
                                == Seq::<Effect<A, M>>::empty()
                            && mut_ref_future(k).effects@ == es
                    &&& s0 is Actor && spawned && !(took && ev is Message) ==> exists|p: &mut A|
                        #![trigger call_ensures(A::prepare, (p,), ())]
                        call_ensures(A::prepare, (p,), ()) && mut_ref_current(p) == s0->0 && (sf
                            == ActorSlot::Actor(mut_ref_future(p)) || released)
                    &&& s0 is Actor && !spawned && took && ev is Message
                        ==> exists|q: &mut A, k: &mut Context<A, M>|
                        #![trigger call_ensures(A::receive, (q, ev->Message_0.message, k), ())]
                        call_ensures(A::receive, (q, ev->Message_0.message, k), ())
                            && mut_ref_current(q) == s0->0
                            && sf == ActorSlot::Actor(mut_ref_future(q))
                            && mut_ref_current(k).cell == self && mut_ref_current(k).effects@
                                == Seq::<Effect<A, M>>::empty()
                            && mut_ref_future(k).effects@ == es
                    &&& s0 is Actor && !spawned && !(took && ev is Message) ==> sf == s0 || released
                },
            old(rt)@.cells[self.id as int].state.sched() != Schedule::Scheduled ==> final(rt)@
                == old(
                rt,
            )@ && final(rt).actor_slots() == old(rt).actor_slots(),
    {
        let (r, effects) = rt.tick(*self);
        let ghost mid = rt.actor_slots();
        rt.apply_effects(*self, effects);
        proof {
            lemma_effects_slots_prefix(mid, *self, effects@);
            assert(exists|es: Seq<Effect<A, M>>|
                #![trigger effects_rt(tick_rt(old(rt)@, *self).0, *self, es)]
                rt@ == effects_rt(tick_rt(old(rt)@, *self).0, *self, es));
        }
        r
    }

    /// Binds `f` to this cell: calling the result queues `f` to run there.
    pub fn schedule<J>(&self, f: J) -> (r: ScheduledJob<J>)
        ensures
            r.cell == *self,
            r.job == f,
    {
        ScheduledJob { cell: *self, job: f }
    }
}

} // verus!
