//! What holds of the library as a whole: of the state word, of a tick, of
//! the run queue, of the supervision tree, of the reference counts and of
//! a future's core.
use vstd::prelude::*;
use crate::arc::{
    ArcHeap, UnsafeArc, slot_clone, slot_downgrade, slot_drop, slot_drop_weak, slot_upgrade, slot_wf, SlotView,
};
use crate::cell::{
    drain_cell, drain_ok, flags_after, refs_ok, remove_first, sys_step_cell, sys_step_ok,
    sys_step_sends, CellRef, CellView, DrainFlags, Event, SysEvent,
};
use crate::future::{
    core_put, core_take, core_take_consumer_wait, put_spec, run_waiters, CoreView, StateView,
    Waiter,
};
use crate::runtime::{
    complete_rt, deliver, deliver_all, dispatch_rt, drain_rt, effective_supervisor, fresh_cell,
    init_termination_rt, mailbox_rt, set_cell, shutdown_rt, spawn_rt, start_flags, start_rt,
    step_rt, tick_ok, tick_rt, Op, RuntimeState, RuntimeView, SchedulerState, effects_rt,
    effect_supervisor,
};
use crate::actor::Effect;
use crate::state::{
    end_tick, lemma_set_life, lemma_set_sched, lifecycle_code, schedule_step,
    Lifecycle, Schedule, State,
};

verus! {

// ---------------------------------------------------------------------------
// The state word
// ---------------------------------------------------------------------------

/// An event delivered to a cell leaves its lifecycle as it is.
pub proof fn law_delivery_keeps_lifecycle(s: State, spawning: bool)
    ensures
        schedule_step(s, spawning).0.life() == s.life(),
{
    lemma_set_sched(s, Schedule::Scheduled);
    lemma_set_sched(s, Schedule::Pending);
}

/// A message delivered to a cell that is not spawned yet waits in its
/// mailbox: the cell is not scheduled.
pub proof fn law_unspawned_cell_not_scheduled(s: State)
    requires
        s.life() == Lifecycle::New,
    ensures
        schedule_step(s, false) == (s, false),
{
}

/// A terminated cell is never scheduled again.
pub proof fn law_terminated_never_scheduled(s: State, spawning: bool)
    requires
        s.life() == Lifecycle::Terminated,
    ensures
        schedule_step(s, spawning) == (s, false),
{
}

/// A delivery asks for the cell to be put on the run queue only when it
/// leaves the cell scheduled, and only for a cell that was idle, or that is
/// being spawned.
pub proof fn law_scheduled_once(s: State, spawning: bool)
    ensures
        schedule_step(s, spawning).1 ==> schedule_step(s, spawning).0.sched()
            == Schedule::Scheduled,
        schedule_step(s, spawning).1 ==> s.sched() == Schedule::Idle || (s.life()
            == Lifecycle::New && spawning),
{
    lemma_set_sched(s, Schedule::Scheduled);
    lemma_set_sched(s, Schedule::Pending);
}

/// The state and the answers of `maybe_schedule` after deliveries flagged
/// `spawns` (whether each is a `Spawn`), one after the other, with no tick
/// between them.
pub open spec fn schedule_steps(s: State, spawns: Seq<bool>) -> (State, Seq<bool>)
    decreases spawns.len(),
{
    if spawns.len() == 0 {
        (s, Seq::empty())
    } else {
        let first = schedule_step(s, spawns[0]);
        let rest = schedule_steps(first.0, spawns.drop_first());
        (rest.0, seq![first.1] + rest.1)
    }
}

proof fn lemma_steps_not_idle(s: State, spawns: Seq<bool>)
    requires
        s.life() == Lifecycle::Active || s.life() == Lifecycle::Terminating,
        s.sched() != Schedule::Idle,
    ensures
        schedule_steps(s, spawns).1.len() == spawns.len(),
        forall|i: int| 0 <= i < spawns.len() ==> !#[trigger] schedule_steps(s, spawns).1[i],
    decreases spawns.len(),
{
    if spawns.len() > 0 {
        lemma_set_sched(s, Schedule::Pending);
        let first = schedule_step(s, spawns[0]);
        lemma_steps_not_idle(first.0, spawns.drop_first());
        let rest = schedule_steps(first.0, spawns.drop_first());
        assert forall|i: int| 0 <= i < spawns.len() implies !#[trigger] schedule_steps(
            s,
            spawns,
        ).1[i] by {
            if i > 0 {
                assert(schedule_steps(s, spawns).1[i] == rest.1[i - 1]);
            }
        }
    }
}

/// Deliveries to an active or terminating cell with no tick between them
/// put it on the run queue at most once: only the first can, and it does
/// exactly when the cell was idle.
pub proof fn law_scheduled_at_most_once(s: State, spawns: Seq<bool>)
    requires
        s.life() == Lifecycle::Active || s.life() == Lifecycle::Terminating,
        spawns.len() >= 1,
    ensures
        schedule_steps(s, spawns).1.len() == spawns.len(),
        schedule_steps(s, spawns).1[0] == (s.sched() == Schedule::Idle),
        forall|i: int| 1 <= i < spawns.len() ==> !#[trigger] schedule_steps(s, spawns).1[i],
{
    lemma_set_sched(s, Schedule::Scheduled);
    lemma_set_sched(s, Schedule::Pending);
    let first = schedule_step(s, spawns[0]);
    lemma_steps_not_idle(first.0, spawns.drop_first());
    let rest = schedule_steps(first.0, spawns.drop_first());
    assert forall|i: int| 1 <= i < spawns.len() implies !#[trigger] schedule_steps(s, spawns).1[i] by {
        assert(schedule_steps(s, spawns).1[i] == rest.1[i - 1]);
    }
}

/// Work that reaches a running cell is not lost: the cell is marked pending,
/// and a pending cell is scheduled again at the end of its tick.
pub proof fn law_work_while_running_kept(s: State, spawning: bool, reschedule: bool)
    requires
        s.sched() == Schedule::Running,
        s.life() == Lifecycle::Active || s.life() == Lifecycle::Terminating,
    ensures
        schedule_step(s, spawning) == (s.set_sched(Schedule::Pending), false),
        end_tick(schedule_step(s, spawning).0, reschedule).sched() == Schedule::Scheduled,
{
    lemma_set_sched(s, Schedule::Pending);
    lemma_set_sched(s.set_sched(Schedule::Pending), Schedule::Scheduled);
}

/// A tick ends with the cell idle or scheduled, never running; it is
/// scheduled again exactly when it had more work or got work while it ran.
pub proof fn law_end_tick(s: State, reschedule: bool)
    ensures
        end_tick(s, reschedule).sched() == (if s.sched() == Schedule::Pending || reschedule {
            Schedule::Scheduled
        } else {
            Schedule::Idle
        }),
        end_tick(s, reschedule).life() == s.life(),
{
    lemma_set_sched(s, Schedule::Scheduled);
    lemma_set_sched(s, Schedule::Idle);
}

// ---------------------------------------------------------------------------
// A tick
// ---------------------------------------------------------------------------

/// The rank of a lifecycle state: `New`, `Active`, `Terminating`,
/// `Terminated` in this order.
pub open spec fn life_rank(l: Lifecycle) -> nat {
    lifecycle_code(l)
}

/// Every cell of `b` is one of `a` at the same place, with the same mailbox
/// and a lifecycle no earlier.
pub open spec fn moved_forward<M, J>(a: RuntimeView<M, J>, b: RuntimeView<M, J>) -> bool {
    &&& b.cells.len() == a.cells.len()
    &&& forall|i: int|
        #![trigger b.cells[i]]
        0 <= i < a.cells.len() ==> {
            &&& b.cells[i].mailbox == a.cells[i].mailbox
            &&& life_rank(b.cells[i].state.life()) >= life_rank(a.cells[i].state.life())
        }
}

proof fn lemma_moved_forward_trans<M, J>(
    a: RuntimeView<M, J>,
    b: RuntimeView<M, J>,
    c: RuntimeView<M, J>,
)
    requires
        moved_forward(a, b),
        moved_forward(b, c),
    ensures
        moved_forward(a, c),
{
    assert forall|i: int| 0 <= i < a.cells.len() implies {
        &&& #[trigger] c.cells[i].mailbox == a.cells[i].mailbox
        &&& life_rank(c.cells[i].state.life()) >= life_rank(a.cells[i].state.life())
    } by {
        assert(b.cells[i].mailbox == a.cells[i].mailbox);
    }
}

proof fn lemma_deliver_moves_forward<M, J>(rt: RuntimeView<M, J>, x: CellRef, e: SysEvent)
    requires
        x.id < rt.cells.len(),
    ensures
        moved_forward(rt, deliver(rt, x, e)),
{
    let v = rt.cells[x.id as int];
    law_delivery_keeps_lifecycle(v.state, e is Spawn);
    let r = deliver(rt, x, e);
    assert forall|i: int| 0 <= i < rt.cells.len() implies {
        &&& #[trigger] r.cells[i].mailbox == rt.cells[i].mailbox
        &&& life_rank(r.cells[i].state.life()) >= life_rank(rt.cells[i].state.life())
    } by {
        if i == x.id {
        } else {
        }
    }
}

proof fn lemma_deliver_all_moves_forward<M, J>(rt: RuntimeView<M, J>, xs: Seq<CellRef>, e: SysEvent)
    requires
        refs_ok(xs, rt.cells.len()),
    ensures
        moved_forward(rt, deliver_all(rt, xs, e)),
    decreases xs.len(),
{
    if xs.len() == 0 {
        assert(moved_forward(rt, rt));
    } else {
        let ys = xs.drop_last();
        assert(refs_ok(ys, rt.cells.len())) by {
            assert forall|i: int| 0 <= i < ys.len() implies (#[trigger] ys[i]).id < rt.cells.len() by {
                assert(ys[i] == xs[i]);
            }
        }
        lemma_deliver_all_moves_forward(rt, ys, e);
        let mid = deliver_all(rt, ys, e);
        assert(xs.last() == xs[xs.len() - 1]);
        lemma_deliver_moves_forward(mid, xs.last(), e);
        lemma_moved_forward_trans(rt, mid, deliver_all(rt, xs, e));
    }
}

proof fn lemma_set_cell_forward<M, J>(rt: RuntimeView<M, J>, c: CellRef, v: CellView<M, J>)
    requires
        c.id < rt.cells.len(),
        v.mailbox == rt.cells[c.id as int].mailbox,
        life_rank(v.state.life()) >= life_rank(rt.cells[c.id as int].state.life()),
    ensures
        moved_forward(rt, set_cell(rt, c, v)),
{
    let r = set_cell(rt, c, v);
    assert forall|i: int| 0 <= i < rt.cells.len() implies {
        &&& #[trigger] r.cells[i].mailbox == rt.cells[i].mailbox
        &&& life_rank(r.cells[i].state.life()) >= life_rank(rt.cells[i].state.life())
    } by {
        if i == c.id {
        } else {
        }
    }
}

/// One allowed step of the drain moves the runtime forward, and leaves the
/// ticking cell as the local step says.
proof fn lemma_step_forward<M, J>(rt: RuntimeView<M, J>, c: CellRef, e: SysEvent, f: DrainFlags)
    requires
        c.id < rt.cells.len(),
        sys_step_ok(rt.cells[c.id as int], c, rt.cells.len(), e, f),
    ensures
        moved_forward(rt, step_rt(rt, c, e, f)),
        step_rt(rt, c, e, f).cells[c.id as int] == sys_step_cell(rt.cells[c.id as int], e, f),
{
    let v = rt.cells[c.id as int];
    let v2 = sys_step_cell(v, e, f);
    lemma_set_life(v.state, Lifecycle::Active);
    lemma_set_life(v.state, Lifecycle::Terminating);
    lemma_set_life(v.state, Lifecycle::Terminated);
    assert(life_rank(v2.state.life()) >= life_rank(v.state.life()));
    let rt1 = set_cell(rt, c, v2);
    lemma_set_cell_forward(rt, c, v2);
    let sends = sys_step_sends(v, c, e, f);
    crate::runtime::lemma_sends_ok(v, c, rt.cells.len(), e, f);
    lemma_deliver_all_moves_forward(rt1, sends.0, sends.1);
    lemma_moved_forward_trans(rt, rt1, step_rt(rt, c, e, f));
    crate::runtime::lemma_deliver_all_frame(rt1, sends.0, sends.1);
}

/// The drain moves the runtime forward.
proof fn lemma_drain_forward<M, J>(
    rt: RuntimeView<M, J>,
    c: CellRef,
    events: Seq<SysEvent>,
    f: DrainFlags,
    lv: CellView<M, J>,
)
    requires
        c.id < rt.cells.len(),
        rt.cells[c.id as int] == (CellView { sys_events: rt.cells[c.id as int].sys_events, ..lv }),
        drain_ok(lv, c, rt.cells.len(), events, f),
    ensures
        moved_forward(rt, drain_rt(rt, c, events, f).0),
        drain_rt(rt, c, events, f).0.cells[c.id as int].state == drain_cell(lv, events, f).0.state,
        drain_rt(rt, c, events, f).0.cells[c.id as int].children == drain_cell(lv, events, f).0.children,
        drain_rt(rt, c, events, f).0.cells[c.id as int].supervisor == drain_cell(
            lv,
            events,
            f,
        ).0.supervisor,
        drain_rt(rt, c, events, f).1 == drain_cell(lv, events, f).1,
    decreases events.len(),
{
    if events.len() == 0 {
        assert(moved_forward(rt, rt));
    } else {
        let e = events[0];
        let f2 = flags_after(f, e);
        let v = rt.cells[c.id as int];
        let rt1 = set_cell(rt, c, CellView { sys_events: v.sys_events.drop_first(), ..v });
        lemma_set_cell_forward(rt, c, CellView { sys_events: v.sys_events.drop_first(), ..v });
        assert(rt1.cells[c.id as int] == CellView { sys_events: v.sys_events.drop_first(), ..lv });
        lemma_step_forward(rt1, c, e, f2);
        let rt2 = step_rt(rt1, c, e, f2);
        lemma_moved_forward_trans(rt, rt1, rt2);
        let lv2 = sys_step_cell(lv, e, f2);
        assert(rt2.cells[c.id as int] == CellView { sys_events: rt2.cells[c.id as int].sys_events, ..lv2 });
        lemma_drain_forward(rt2, c, events.drop_first(), f2, lv2);
        lemma_moved_forward_trans(rt, rt2, drain_rt(rt2, c, events.drop_first(), f2).0);
    }
}

/// A tick moves every cell's lifecycle forward only (`New`, `Active`,
/// `Terminating`, `Terminated`), keeps the number of cells, and takes at most
/// one user event, from the ticking cell only: none from a cell that is
/// terminating or terminated when the tick starts.
pub proof fn law_tick_moves_forward<M, J>(rt: RuntimeView<M, J>, c: CellRef)
    requires
        tick_ok(rt, c),
    ensures
        tick_rt(rt, c).0.cells.len() == rt.cells.len(),
        forall|i: int|
            0 <= i < rt.cells.len() ==> life_rank(
                (#[trigger] tick_rt(rt, c).0.cells[i]).state.life(),
            ) >= life_rank(rt.cells[i].state.life()),
        forall|i: int|
            0 <= i < rt.cells.len() && i != c.id ==> (#[trigger] tick_rt(rt, c).0.cells[i]).mailbox
                == rt.cells[i].mailbox,
        tick_rt(rt, c).0.cells[c.id as int].mailbox == rt.cells[c.id as int].mailbox || (
        rt.cells[c.id as int].mailbox.len() > 0 && tick_rt(rt, c).0.cells[c.id as int].mailbox
            == rt.cells[c.id as int].mailbox.drop_first()),
        (rt.cells[c.id as int].state.life() == Lifecycle::Terminating || rt.cells[c.id
            as int].state.life() == Lifecycle::Terminated) ==> tick_rt(rt, c).0.cells[c.id
            as int].mailbox == rt.cells[c.id as int].mailbox,
{
    let v = rt.cells[c.id as int];
    let s0 = v.state;
    if s0.sched() != Schedule::Scheduled {
        assert(moved_forward(rt, rt));
        return;
    }
    let n = rt.cells.len();
    let v1 = CellView { state: s0.set_sched(Schedule::Running), ..v };
    lemma_set_sched(s0, Schedule::Running);
    let rt1 = set_cell(rt, c, v1);
    lemma_set_cell_forward(rt, c, v1);
    let f0 = start_flags(s0);
    lemma_drain_forward(rt1, c, v.sys_events, f0, v1);
    let d = drain_rt(rt1, c, rt1.cells[c.id as int].sys_events, f0);
    assert(rt1.cells[c.id as int].sys_events == v.sys_events);
    lemma_moved_forward_trans(rt, rt1, d.0);
    let m = mailbox_rt(rt1, c, f0);
    let w = d.0.cells[c.id as int];
    // the flags after the drain: a cell that was not active stays flagged
    lemma_drain_flags(v1, v.sys_events, f0);
    let v2 = m.0.cells[c.id as int];
    let s3 = end_tick(v2.state, m.1);
    law_end_tick(v2.state, m.1);
    let rt4 = set_cell(m.0, c, CellView { state: s3, ..v2 });
    if !d.1.terminated && w.mailbox.len() > 0 {
        assert(m.0.cells.len() == n);
        assert forall|i: int| 0 <= i < n && i != c.id implies #[trigger] m.0.cells[i] == d.0.cells[i] by {}
    }
    assert(m.0.cells.len() == n);
    assert(v2.mailbox == w.mailbox || (w.mailbox.len() > 0 && v2.mailbox == w.mailbox.drop_first()));
    assert(rt4.cells.len() == n);
    assert forall|i: int| 0 <= i < n implies life_rank((#[trigger] rt4.cells[i]).state.life())
        >= life_rank(rt.cells[i].state.life()) && (i != c.id ==> rt4.cells[i].mailbox
        == rt.cells[i].mailbox) by {
        assert(d.0.cells[i].mailbox == rt1.cells[i].mailbox);
        assert(rt1.cells[i].mailbox == rt.cells[i].mailbox);
        if i != c.id {
            assert(rt4.cells[i] == m.0.cells[i]);
        }
    }
    if v2.state.life() == Lifecycle::Terminating && s0.life() != Lifecycle::Terminating {
        let kids = rt4.cells[c.id as int].children;
        assert(kids == w.children);
        lemma_deliver_all_moves_forward(rt4, kids, SysEvent::Terminate);
        let rt5 = deliver_all(rt4, kids, SysEvent::Terminate);
        crate::runtime::lemma_deliver_all_frame(rt4, kids, SysEvent::Terminate);
        if kids.len() == 0 {
            let u = rt5.cells[c.id as int];
            lemma_set_life(u.state, Lifecycle::Terminated);
            let rt6 = set_cell(rt5, c, CellView { state: u.state.set_life(Lifecycle::Terminated), live: false, ..u });
            lemma_set_cell_forward(rt5, c, CellView { state: u.state.set_life(Lifecycle::Terminated), live: false, ..u });
            match u.supervisor {
                Some(p) => {
                    lemma_deliver_moves_forward(rt6, p, SysEvent::ChildTerminated(c));
                    lemma_moved_forward_trans(rt5, rt6, deliver(rt6, p, SysEvent::ChildTerminated(c)));
                },
                None => {},
            }
            lemma_moved_forward_trans(rt4, rt5, complete_rt(rt5, c));
        }
        let fin = init_termination_rt(rt4, c);
        assert forall|i: int| 0 <= i < n implies life_rank((#[trigger] fin.cells[i]).state.life())
            >= life_rank(rt.cells[i].state.life()) && fin.cells[i].mailbox == rt4.cells[i].mailbox by {
            assert(life_rank(rt4.cells[i].state.life()) >= life_rank(rt.cells[i].state.life()));
        }
    }
}

proof fn lemma_drain_leaves_new<M, J>(
    v: CellView<M, J>,
    c: CellRef,
    n: nat,
    events: Seq<SysEvent>,
    f: DrainFlags,
)
    requires
        drain_ok(v, c, n, events, f),
    ensures
        v.state.life() == Lifecycle::New && drain_cell(v, events, f).0.state.life()
            != Lifecycle::New ==> events.contains(SysEvent::Spawn),
    decreases events.len(),
{
    if events.len() > 0 {
        let e = events[0];
        let f2 = flags_after(f, e);
        lemma_drain_leaves_new(sys_step_cell(v, e, f2), c, n, events.drop_first(), f2);
        if v.state.life() == Lifecycle::New && !(e is Spawn) {
            assert(sys_step_cell(v, e, f2).state.life() == Lifecycle::New);
        }
        if e is Spawn {
            assert(events[0] == SysEvent::Spawn);
        } else if events.drop_first().contains(SysEvent::Spawn) {
            let k = choose|k: int| 0 <= k < events.drop_first().len() && events.drop_first()[k]
                == SysEvent::Spawn;
            assert(events[k + 1] == SysEvent::Spawn);
        }
    }
}

/// A cell leaves `New` only by handling `Spawn`: a tick that finds the cell
/// new and leaves it past `New` had a `Spawn` among the cell's system events;
/// every other cell keeps its lifecycle's place relative to `New`.
pub proof fn law_leaves_new_only_by_spawn<M, J>(rt: RuntimeView<M, J>, c: CellRef)
    requires
        tick_ok(rt, c),
    ensures
        rt.cells[c.id as int].state.life() == Lifecycle::New && tick_rt(rt, c).0.cells[c.id
            as int].state.life() != Lifecycle::New ==> rt.cells[c.id as int].sys_events.contains(
            SysEvent::Spawn,
        ),
{
    let v = rt.cells[c.id as int];
    let s0 = v.state;
    if s0.sched() != Schedule::Scheduled || s0.life() != Lifecycle::New {
        return;
    }
    let n = rt.cells.len();
    let v1 = CellView { state: s0.set_sched(Schedule::Running), ..v };
    lemma_set_sched(s0, Schedule::Running);
    let rt1 = set_cell(rt, c, v1);
    let f0 = start_flags(s0);
    lemma_drain_forward(rt1, c, v.sys_events, f0, v1);
    lemma_drain_leaves_new(v1, c, n, v.sys_events, f0);
    let d = drain_rt(rt1, c, rt1.cells[c.id as int].sys_events, f0);
    assert(rt1.cells[c.id as int].sys_events == v.sys_events);
    let m = mailbox_rt(rt1, c, f0);
    let v2 = m.0.cells[c.id as int];
    assert(v2.state == d.0.cells[c.id as int].state);
    let s3 = end_tick(v2.state, m.1);
    lemma_set_sched(v2.state, Schedule::Scheduled);
    lemma_set_sched(v2.state, Schedule::Idle);
    assert(s3.life() == v2.state.life());
}

/// True if cell `c` of `rt` is settled: not running, not pending, and past
/// `New`.
pub open spec fn settled<M, J>(rt: RuntimeView<M, J>, c: CellRef) -> bool {
    &&& c.id < rt.cells.len()
    &&& (rt.cells[c.id as int].state.sched() == Schedule::Idle || rt.cells[c.id as int].state.sched()
        == Schedule::Scheduled)
    &&& rt.cells[c.id as int].state.life() != Lifecycle::New
}

proof fn lemma_deliver_all_settled<M, J>(
    rt: RuntimeView<M, J>,
    xs: Seq<CellRef>,
    e: SysEvent,
    c: CellRef,
)
    requires
        refs_ok(xs, rt.cells.len()),
        settled(rt, c),
    ensures
        settled(deliver_all(rt, xs, e), c),
        rt.cells[c.id as int].state.sched() == Schedule::Scheduled ==> deliver_all(
            rt,
            xs,
            e,
        ).cells[c.id as int].state.sched() == Schedule::Scheduled,
    decreases xs.len(),
{
    if xs.len() > 0 {
        let ys = xs.drop_last();
        assert(refs_ok(ys, rt.cells.len())) by {
            assert forall|i: int| 0 <= i < ys.len() implies (#[trigger] ys[i]).id < rt.cells.len() by {
                assert(ys[i] == xs[i]);
            }
        }
        lemma_deliver_all_settled(rt, ys, e, c);
        let mid = deliver_all(rt, ys, e);
        crate::runtime::lemma_deliver_all_frame(rt, ys, e);
        let x = xs.last();
        assert(x == xs[xs.len() - 1]);
        let v = mid.cells[x.id as int];
        lemma_set_sched(v.state, Schedule::Scheduled);
        lemma_set_sched(v.state, Schedule::Pending);
        crate::runtime::lemma_deliver_frame(mid, x, e);
    }
}

/// A tick of a scheduled cell never leaves it running or pending: it ends
/// idle or scheduled, and when the tick asks for the cell to be put back on
/// the run queue, the cell is scheduled.
pub proof fn law_tick_settles<M, J>(rt: RuntimeView<M, J>, c: CellRef)
    requires
        tick_ok(rt, c),
        rt.cells[c.id as int].state.sched() == Schedule::Scheduled,
    ensures
        tick_rt(rt, c).0.cells[c.id as int].state.sched() == Schedule::Idle || tick_rt(
            rt,
            c,
        ).0.cells[c.id as int].state.sched() == Schedule::Scheduled,
        tick_rt(rt, c).1 ==> tick_rt(rt, c).0.cells[c.id as int].state.sched()
            == Schedule::Scheduled,
{
    let v = rt.cells[c.id as int];
    let s0 = v.state;
    let n = rt.cells.len();
    let v1 = CellView { state: s0.set_sched(Schedule::Running), ..v };
    lemma_set_sched(s0, Schedule::Running);
    let rt1 = set_cell(rt, c, v1);
    let f0 = start_flags(s0);
    lemma_drain_forward(rt1, c, v.sys_events, f0, v1);
    lemma_drain_sched(v1, v.sys_events, f0);
    let d = drain_rt(rt1, c, rt1.cells[c.id as int].sys_events, f0);
    assert(rt1.cells[c.id as int].sys_events == v.sys_events);
    let m = mailbox_rt(rt1, c, f0);
    let v2 = m.0.cells[c.id as int];
    assert(v2.state == d.0.cells[c.id as int].state);
    let s3 = end_tick(v2.state, m.1);
    law_end_tick(v2.state, m.1);
    let rt4 = set_cell(m.0, c, CellView { state: s3, ..v2 });
    if v2.state.life() == Lifecycle::Terminating && s0.life() != Lifecycle::Terminating {
        let kids = rt4.cells[c.id as int].children;
        assert(settled(rt4, c));
        lemma_deliver_all_settled(rt4, kids, SysEvent::Terminate, c);
        let rt5 = deliver_all(rt4, kids, SysEvent::Terminate);
        crate::runtime::lemma_deliver_all_frame(rt4, kids, SysEvent::Terminate);
        if kids.len() == 0 {
            let u = rt5.cells[c.id as int];
            lemma_set_life(u.state, Lifecycle::Terminated);
            let rt6 = set_cell(rt5, c, CellView { state: u.state.set_life(Lifecycle::Terminated), live: false, ..u });
            assert(settled(rt6, c));
            match u.supervisor {
                Some(p) => {
                    let w = rt6.cells[p.id as int];
                    lemma_set_sched(w.state, Schedule::Scheduled);
                    lemma_set_sched(w.state, Schedule::Pending);
                },
                None => {},
            }
        }
    }
}

/// Draining keeps the scheduling state.
proof fn lemma_drain_sched<M, J>(v: CellView<M, J>, events: Seq<SysEvent>, f: DrainFlags)
    ensures
        drain_cell(v, events, f).0.state.sched() == v.state.sched(),
    decreases events.len(),
{
    if events.len() > 0 {
        let e = events[0];
        let f2 = flags_after(f, e);
        lemma_set_life(v.state, Lifecycle::Active);
        lemma_set_life(v.state, Lifecycle::Terminating);
        lemma_set_life(v.state, Lifecycle::Terminated);
        lemma_drain_sched(sys_step_cell(v, e, f2), events.drop_first(), f2);
    }
}

proof fn lemma_drain_flags<M, J>(v: CellView<M, J>, events: Seq<SysEvent>, f: DrainFlags)
    ensures
        f.terminated ==> drain_cell(v, events, f).1.terminated,
    decreases events.len(),
{
    if events.len() > 0 {
        let e = events[0];
        let f2 = flags_after(f, e);
        lemma_drain_flags(sys_step_cell(v, e, f2), events.drop_first(), f2);
    }
}

// ---------------------------------------------------------------------------
// The run queue
// ---------------------------------------------------------------------------

/// The run queue holds each scheduled cell once, and nothing else of the
/// cells: a cell that is idle, running or pending is not on it.
pub open spec fn queue_consistent<M, J>(rt: RuntimeView<M, J>) -> bool {
    forall|c: CellRef|
        #[trigger] rt.run_queue.to_multiset().count(Op::Task(c)) == if c.id < rt.cells.len()
            && rt.cells[c.id as int].state.sched() == Schedule::Scheduled {
            1nat
        } else {
            0nat
        }
}

proof fn lemma_set_state_consistent<M, J>(
    rt: RuntimeView<M, J>,
    x: CellRef,
    v: CellView<M, J>,
    queued: bool,
)
    requires
        queue_consistent(rt),
        x.id < rt.cells.len(),
        queued ==> rt.cells[x.id as int].state.sched() != Schedule::Scheduled && v.state.sched()
            == Schedule::Scheduled,
        !queued ==> (rt.cells[x.id as int].state.sched() == Schedule::Scheduled) == (v.state.sched()
            == Schedule::Scheduled),
    ensures
        queue_consistent(
            if queued {
                RuntimeView {
                    run_queue: set_cell(rt, x, v).run_queue.push(Op::Task(x)),
                    ..set_cell(rt, x, v)
                }
            } else {
                set_cell(rt, x, v)
            },
        ),
{
    let rt2 = set_cell(rt, x, v);
    rt.run_queue.to_multiset_ensures();
    let r = if queued {
        RuntimeView { run_queue: rt2.run_queue.push(Op::Task(x)), ..rt2 }
    } else {
        rt2
    };
    assert forall|c: CellRef| #[trigger] r.run_queue.to_multiset().count(Op::Task(c)) == if c.id
        < r.cells.len() && r.cells[c.id as int].state.sched() == Schedule::Scheduled {
        1nat
    } else {
        0nat
    } by {
        assert(rt.run_queue.to_multiset().count(Op::Task(c)) == if c.id < rt.cells.len()
            && rt.cells[c.id as int].state.sched() == Schedule::Scheduled {
            1nat
        } else {
            0nat
        });
    }
}

/// Delivering a system event keeps the run queue consistent, unless it is a
/// second `Spawn` for a cell that is already scheduled to be spawned.
pub proof fn law_deliver_keeps_queue<M, J>(rt: RuntimeView<M, J>, x: CellRef, e: SysEvent)
    requires
        queue_consistent(rt),
        x.id < rt.cells.len(),
        !(e is Spawn && rt.cells[x.id as int].state.life() == Lifecycle::New
            && rt.cells[x.id as int].state.sched() == Schedule::Scheduled),
    ensures
        queue_consistent(deliver(rt, x, e)),
{
    let v = rt.cells[x.id as int];
    let step = schedule_step(v.state, e is Spawn);
    law_scheduled_once(v.state, e is Spawn);
    lemma_set_sched(v.state, Schedule::Pending);
    lemma_set_state_consistent(
        rt,
        x,
        CellView { state: step.0, sys_events: v.sys_events.push(e), ..v },
        step.1,
    );
}

/// Sending a user event keeps the run queue consistent: a cell is never put
/// on it twice.
pub proof fn law_dispatch_keeps_queue<M, J>(rt: RuntimeView<M, J>, x: CellRef, ev: Event<M, J>)
    requires
        queue_consistent(rt),
        x.id < rt.cells.len(),
    ensures
        queue_consistent(dispatch_rt(rt, x, ev)),
{
    let v = rt.cells[x.id as int];
    let step = schedule_step(v.state, false);
    law_scheduled_once(v.state, false);
    lemma_set_sched(v.state, Schedule::Pending);
    lemma_set_state_consistent(
        rt,
        x,
        CellView { state: step.0, mailbox: v.mailbox.push(ev), ..v },
        step.1,
    );
}

/// Spawning a cell keeps the run queue consistent.
pub proof fn law_spawn_keeps_queue<M, J>(rt: RuntimeView<M, J>, supervisor: Option<CellRef>)
    requires
        queue_consistent(rt),
        supervisor is Some ==> supervisor->0.id < rt.cells.len(),
        rt.cells.len() < usize::MAX,
    ensures
        queue_consistent(spawn_rt(rt, supervisor).0),
{
    let c = CellRef { id: rt.cells.len() as usize };
    let sup = effective_supervisor(rt, supervisor);
    let rt1 = RuntimeView { cells: rt.cells.push(fresh_cell::<M, J>(sup)), ..rt };
    assert(State { val: 0 }.val % 4 == 0);
    assert forall|d: CellRef| #[trigger] rt1.run_queue.to_multiset().count(Op::Task(d)) == if d.id
        < rt1.cells.len() && rt1.cells[d.id as int].state.sched() == Schedule::Scheduled {
        1nat
    } else {
        0nat
    } by {
        assert(rt.run_queue.to_multiset().count(Op::Task(d)) == if d.id < rt.cells.len()
            && rt.cells[d.id as int].state.sched() == Schedule::Scheduled {
            1nat
        } else {
            0nat
        });
        if d.id < rt.cells.len() {
            assert(rt1.cells[d.id as int] == rt.cells[d.id as int]);
        }
    }
    match sup {
        Some(p) => {
            law_deliver_keeps_queue(rt1, p, SysEvent::Link(c));
        },
        None => {
            law_deliver_keeps_queue(rt1, c, SysEvent::Spawn);
        },
    }
}

/// How often the run queue should hold a task for `d`: once if `d` is a
/// scheduled cell, else never.
pub open spec fn expected_tasks<M, J>(rt: RuntimeView<M, J>, d: CellRef) -> nat {
    if d.id < rt.cells.len() && rt.cells[d.id as int].state.sched() == Schedule::Scheduled {
        1
    } else {
        0
    }
}

/// The run queue is consistent for every cell but `skip`, which is not on it.
pub open spec fn queue_ok_but<M, J>(rt: RuntimeView<M, J>, skip: Option<CellRef>) -> bool {
    forall|d: CellRef|
        #[trigger] rt.run_queue.to_multiset().count(Op::Task(d)) == if skip == Some(d) {
            0nat
        } else {
            expected_tasks(rt, d)
        }
}

/// True if delivering `e` to `x` is not a second `Spawn` for a new cell
/// that is scheduled already.
pub open spec fn single_spawn<M, J>(rt: RuntimeView<M, J>, x: CellRef, e: SysEvent) -> bool {
    !(e is Spawn && rt.cells[x.id as int].state.life() == Lifecycle::New
        && rt.cells[x.id as int].state.sched() == Schedule::Scheduled)
}

proof fn lemma_deliver_ok<M, J>(rt: RuntimeView<M, J>, x: CellRef, e: SysEvent, skip: Option<CellRef>)
    requires
        queue_ok_but(rt, skip),
        x.id < rt.cells.len(),
        single_spawn(rt, x, e),
        skip matches Some(k) ==> k.id < rt.cells.len() && rt.cells[k.id as int].state.sched()
            == Schedule::Scheduled,
    ensures
        queue_ok_but(deliver(rt, x, e), skip),
        skip matches Some(k) ==> deliver(rt, x, e).cells[k.id as int].state.sched()
            == Schedule::Scheduled,
{
    let v = rt.cells[x.id as int];
    let step = schedule_step(v.state, e is Spawn);
    law_scheduled_once(v.state, e is Spawn);
    lemma_set_sched(v.state, Schedule::Pending);
    lemma_set_sched(v.state, Schedule::Scheduled);
    let rt2 = set_cell(rt, x, CellView { state: step.0, sys_events: v.sys_events.push(e), ..v });
    let r = deliver(rt, x, e);
    rt.run_queue.to_multiset_ensures();
    assert forall|d: CellRef| #[trigger] r.run_queue.to_multiset().count(Op::Task(d)) == if skip
        == Some(d) {
        0nat
    } else {
        expected_tasks(r, d)
    } by {
        assert(rt.run_queue.to_multiset().count(Op::Task(d)) == if skip == Some(d) {
            0nat
        } else {
            expected_tasks(rt, d)
        });
    }
}

proof fn lemma_deliver_all_ok<M, J>(
    rt: RuntimeView<M, J>,
    xs: Seq<CellRef>,
    e: SysEvent,
    skip: Option<CellRef>,
)
    requires
        queue_ok_but(rt, skip),
        refs_ok(xs, rt.cells.len()),
        e is Spawn ==> xs.no_duplicates(),
        forall|i: int| 0 <= i < xs.len() ==> single_spawn(rt, #[trigger] xs[i], e),
        skip matches Some(k) ==> k.id < rt.cells.len() && rt.cells[k.id as int].state.sched()
            == Schedule::Scheduled,
    ensures
        queue_ok_but(deliver_all(rt, xs, e), skip),
        skip matches Some(k) ==> deliver_all(rt, xs, e).cells[k.id as int].state.sched()
            == Schedule::Scheduled,
    decreases xs.len(),
{
    if xs.len() > 0 {
        let ys = xs.drop_last();
        assert(refs_ok(ys, rt.cells.len())) by {
            assert forall|i: int| 0 <= i < ys.len() implies (#[trigger] ys[i]).id < rt.cells.len() by {
                assert(ys[i] == xs[i]);
            }
        }
        assert forall|i: int| 0 <= i < ys.len() implies single_spawn(rt, #[trigger] ys[i], e) by {
            assert(ys[i] == xs[i]);
        }
        if e is Spawn {
            assert(ys.no_duplicates()) by {
                assert forall|i: int, j: int| 0 <= i < ys.len() && 0 <= j < ys.len() && i != j
                    implies ys[i] != ys[j] by {
                    assert(ys[i] == xs[i] && ys[j] == xs[j]);
                }
            }
        }
        lemma_deliver_all_ok(rt, ys, e, skip);
        crate::runtime::lemma_deliver_all_frame(rt, ys, e);
        let mid = deliver_all(rt, ys, e);
        let x = xs.last();
        assert(x == xs[xs.len() - 1]);
        assert(single_spawn(rt, x, e));
        if e is Spawn {
            assert forall|j: int| 0 <= j < ys.len() implies ys[j].id != x.id by {
                assert(ys[j] == xs[j]);
                assert(xs[j] != xs[xs.len() - 1]);
            }
            assert(mid.cells[x.id as int] == rt.cells[x.id as int]);
        }
        assert(single_spawn(mid, x, e));
        lemma_deliver_ok(mid, x, e, skip);
    }
}

/// True if no `Spawn` that the drain of cell `c` sends reaches a new cell
/// that is scheduled already (or the same cell twice).
pub open spec fn drain_spawns_single<M, J>(
    rt: RuntimeView<M, J>,
    c: CellRef,
    events: Seq<SysEvent>,
    f: DrainFlags,
) -> bool
    decreases events.len(),
{
    if events.len() == 0 {
        true
    } else {
        let e = events[0];
        let f2 = flags_after(f, e);
        let v = rt.cells[c.id as int];
        let rt1 = set_cell(rt, c, CellView { sys_events: v.sys_events.drop_first(), ..v });
        let sends = sys_step_sends(rt1.cells[c.id as int], c, e, f2);
        &&& sends.1 is Spawn ==> sends.0.no_duplicates()
        &&& forall|i: int| 0 <= i < sends.0.len() ==> single_spawn(rt1, #[trigger] sends.0[i], sends.1)
        &&& drain_spawns_single(step_rt(rt1, c, e, f2), c, events.drop_first(), f2)
    }
}

proof fn lemma_drain_queue<M, J>(
    rt: RuntimeView<M, J>,
    c: CellRef,
    events: Seq<SysEvent>,
    f: DrainFlags,
    lv: CellView<M, J>,
)
    requires
        c.id < rt.cells.len(),
        rt.cells[c.id as int] == (CellView { sys_events: rt.cells[c.id as int].sys_events, ..lv }),
        lv.state.sched() == Schedule::Running,
        drain_ok(lv, c, rt.cells.len(), events, f),
        drain_spawns_single(rt, c, events, f),
        queue_ok_but(rt, None),
    ensures
        queue_ok_but(drain_rt(rt, c, events, f).0, None),
    decreases events.len(),
{
    if events.len() > 0 {
        let e = events[0];
        let f2 = flags_after(f, e);
        let v = rt.cells[c.id as int];
        let rt1 = set_cell(rt, c, CellView { sys_events: v.sys_events.drop_first(), ..v });
        assert(queue_ok_but(rt1, None)) by {
            assert forall|d: CellRef| #[trigger] rt1.run_queue.to_multiset().count(Op::Task(d))
                == expected_tasks(rt1, d) by {
                assert(rt.run_queue.to_multiset().count(Op::Task(d)) == expected_tasks(rt, d));
            }
        }
        let w = rt1.cells[c.id as int];
        assert(w == CellView { sys_events: v.sys_events.drop_first(), ..lv });
        let lv2 = sys_step_cell(lv, e, f2);
        lemma_set_life(lv.state, Lifecycle::Active);
        lemma_set_life(lv.state, Lifecycle::Terminating);
        lemma_set_life(lv.state, Lifecycle::Terminated);
        let rt2 = set_cell(rt1, c, sys_step_cell(w, e, f2));
        assert(queue_ok_but(rt2, None)) by {
            assert forall|d: CellRef| #[trigger] rt2.run_queue.to_multiset().count(Op::Task(d))
                == expected_tasks(rt2, d) by {
                assert(rt1.run_queue.to_multiset().count(Op::Task(d)) == expected_tasks(rt1, d));
            }
        }
        let sends = sys_step_sends(w, c, e, f2);
        crate::runtime::lemma_sends_ok(w, c, rt.cells.len(), e, f2);
        crate::runtime::lemma_deliver_all_frame(rt2, sends.0, sends.1);
        assert forall|i: int| 0 <= i < sends.0.len() implies single_spawn(rt2, #[trigger] sends.0[i], sends.1) by {
            assert(single_spawn(rt1, sends.0[i], sends.1));
            assert(sends.0[i].id != c.id);
            assert(rt2.cells[sends.0[i].id as int] == rt1.cells[sends.0[i].id as int]);
        }
        lemma_deliver_all_ok(rt2, sends.0, sends.1, None);
        let rt3 = step_rt(rt1, c, e, f2);
        assert(rt3 == deliver_all(rt2, sends.0, sends.1));
        assert(rt3.cells[c.id as int] == rt2.cells[c.id as int]);
        lemma_drain_queue(rt3, c, events.drop_first(), f2, lv2);
    }
}

/// Carrying out what an actor asked for keeps the run queue consistent: each
/// message and each spawn puts a cell on the queue at most once. (The number
/// of cells must stay below `usize::MAX`.)
pub proof fn law_effects_keep_queue<A, M, J>(rt: RuntimeView<M, J>, c: CellRef, es: Seq<Effect<A, M>>)
    requires
        queue_consistent(rt),
        rt.cells.len() + es.len() < usize::MAX,
    ensures
        queue_consistent(effects_rt(rt, c, es)),
        effects_rt(rt, c, es).cells.len() <= rt.cells.len() + es.len(),
    decreases es.len(),
{
    if es.len() > 0 {
        match es[0] {
            Effect::Send(x, m) => {
                if x.id < rt.cells.len() {
                    let ev = Event::Message(crate::asynchronous::Request {
                        message: m,
                        response: crate::asynchronous::Response { value: () },
                    });
                    law_dispatch_keeps_queue(rt, x, ev);
                    law_effects_keep_queue(dispatch_rt(rt, x, ev), c, es.drop_first());
                } else {
                    law_effects_keep_queue(rt, c, es.drop_first());
                }
            },
            Effect::Spawn(_, sup) => {
                let p = effect_supervisor(c, sup);
                if p.id < rt.cells.len() {
                    law_spawn_keeps_queue(rt, Some(p));
                    let rt1 = spawn_rt(rt, Some(p)).0;
                    crate::runtime::lemma_deliver_frame(
                        RuntimeView { cells: rt.cells.push(fresh_cell::<M, J>(Some(p))), ..rt },
                        p,
                        SysEvent::Link(CellRef { id: rt.cells.len() as usize }),
                    );
                    assert(rt1.cells.len() == rt.cells.len() + 1);
                    law_effects_keep_queue(rt1, c, es.drop_first());
                } else {
                    law_effects_keep_queue(rt, c, es.drop_first());
                }
            },
        }
    }
}

/// True if a tick of cell `c` sends no second `Spawn` to a new cell (see
/// `drain_spawns_single`).
pub open spec fn tick_spawns_single<M, J>(rt: RuntimeView<M, J>, c: CellRef) -> bool {
    let v = rt.cells[c.id as int];
    let rt1 = set_cell(rt, c, CellView { state: v.state.set_sched(Schedule::Running), ..v });
    drain_spawns_single(rt1, c, v.sys_events, start_flags(v.state))
}

/// One step of the worker keeps the run queue consistent: each scheduled
/// cell is on it once, no other cell is. This holds for every step that runs
/// to its end (a tick that would fail is left out), except where the tick
/// sends a second `Spawn` to a new cell that is scheduled already.
pub proof fn law_run_once_keeps_queue<M, J>(rt: RuntimeView<M, J>)
    requires
        queue_consistent(rt),
        rt.run_queue.len() > 0,
        rt.run_queue[0] matches Op::Task(c) ==> {
            let rt1 = RuntimeView { run_queue: rt.run_queue.drop_first(), ..rt };
            &&& tick_ok(rt1, c)
            &&& tick_spawns_single(rt1, c)
        },
    ensures
        queue_consistent(crate::runtime::run_once_rt(rt).0),
{
    let q = rt.run_queue;
    let rt1 = RuntimeView { run_queue: q.drop_first(), ..rt };
    q.to_multiset_ensures();
    assert(q.remove(0) =~= q.drop_first());
    assert(q.contains(q[0]));
    match q[0] {
        Op::Terminate => {
            let r = RuntimeView { scheduler: SchedulerState::Terminated, ..rt1 };
            assert forall|d: CellRef| #[trigger] r.run_queue.to_multiset().count(Op::Task(d))
                == expected_tasks(r, d) by {
                assert(rt.run_queue.to_multiset().count(Op::Task(d)) == expected_tasks(rt, d));
            }
        },
        Op::Task(c) => {
            assert(rt.run_queue.to_multiset().count(Op::Task(c)) == expected_tasks(rt, c));
            assert(rt.run_queue.to_multiset().count(Op::Task(c)) > 0);
            let v = rt1.cells[c.id as int];
            assert(v.state.sched() == Schedule::Scheduled);
            // popping the task: consistent but for `c`, which is scheduled
            assert(queue_ok_but(rt1, Some(c))) by {
                assert forall|d: CellRef| #[trigger] rt1.run_queue.to_multiset().count(Op::Task(d))
                    == if Some(c) == Some(d) {
                    0nat
                } else {
                    expected_tasks(rt1, d)
                } by {
                    assert(rt.run_queue.to_multiset().count(Op::Task(d)) == expected_tasks(rt, d));
                }
            }
            let s0 = v.state;
            let v1 = CellView { state: s0.set_sched(Schedule::Running), ..v };
            lemma_set_sched(s0, Schedule::Running);
            let rt2 = set_cell(rt1, c, v1);
            assert(queue_ok_but(rt2, None)) by {
                assert forall|d: CellRef| #[trigger] rt2.run_queue.to_multiset().count(Op::Task(d))
                    == expected_tasks(rt2, d) by {
                    assert(rt1.run_queue.to_multiset().count(Op::Task(d)) == if Some(c) == Some(d) {
                        0nat
                    } else {
                        expected_tasks(rt1, d)
                    });
                }
            }
            let f0 = start_flags(s0);
            lemma_drain_queue(rt2, c, v.sys_events, f0, v1);
            lemma_drain_forward(rt2, c, v.sys_events, f0, v1);
            lemma_drain_sched(v1, v.sys_events, f0);
            let d = drain_rt(rt2, c, rt2.cells[c.id as int].sys_events, f0);
            assert(rt2.cells[c.id as int].sys_events == v.sys_events);
            let m = mailbox_rt(rt2, c, f0);
            assert(queue_ok_but(m.0, None)) by {
                assert forall|x: CellRef| #[trigger] m.0.run_queue.to_multiset().count(Op::Task(x))
                    == expected_tasks(m.0, x) by {
                    assert(d.0.run_queue.to_multiset().count(Op::Task(x)) == expected_tasks(d.0, x));
                }
            }
            let v2 = m.0.cells[c.id as int];
            assert(v2.state.sched() == Schedule::Running);
            let s3 = end_tick(v2.state, m.1);
            law_end_tick(v2.state, m.1);
            let rt4 = set_cell(m.0, c, CellView { state: s3, ..v2 });
            let skip = if s3.sched() == Schedule::Scheduled {
                Some(c)
            } else {
                None
            };
            assert(queue_ok_but(rt4, skip)) by {
                assert forall|x: CellRef| #[trigger] rt4.run_queue.to_multiset().count(Op::Task(x))
                    == if skip == Some(x) {
                    0nat
                } else {
                    expected_tasks(rt4, x)
                } by {
                    assert(m.0.run_queue.to_multiset().count(Op::Task(x)) == expected_tasks(m.0, x));
                }
            }
            let t = tick_rt(rt1, c);
            law_tick_settles(rt1, c);
            if v2.state.life() == Lifecycle::Terminating && s0.life() != Lifecycle::Terminating {
                let kids = rt4.cells[c.id as int].children;
                crate::runtime::lemma_deliver_all_frame(rt4, kids, SysEvent::Terminate);
                assert forall|i: int| 0 <= i < kids.len() implies single_spawn(rt4, #[trigger] kids[i], SysEvent::Terminate) by {}
                lemma_deliver_all_ok(rt4, kids, SysEvent::Terminate, skip);
                let rt5 = deliver_all(rt4, kids, SysEvent::Terminate);
                if kids.len() == 0 {
                    let u = rt5.cells[c.id as int];
                    lemma_set_life(u.state, Lifecycle::Terminated);
                    let rt6 = set_cell(rt5, c, CellView { state: u.state.set_life(Lifecycle::Terminated), live: false, ..u });
                    assert(queue_ok_but(rt6, skip)) by {
                        assert forall|x: CellRef| #[trigger] rt6.run_queue.to_multiset().count(Op::Task(x))
                            == if skip == Some(x) {
                            0nat
                        } else {
                            expected_tasks(rt6, x)
                        } by {
                            assert(rt5.run_queue.to_multiset().count(Op::Task(x)) == if skip == Some(x) {
                                0nat
                            } else {
                                expected_tasks(rt5, x)
                            });
                        }
                    }
                    match u.supervisor {
                        Some(p) => {
                            lemma_deliver_ok(rt6, p, SysEvent::ChildTerminated(c), skip);
                        },
                        None => {},
                    }
                }
            }
            let fin = t.0;
            assert(queue_ok_but(fin, skip));
            fin.run_queue.to_multiset_ensures();
            let r = crate::runtime::run_once_rt(rt).0;
            assert forall|x: CellRef| #[trigger] r.run_queue.to_multiset().count(Op::Task(x))
                == expected_tasks(r, x) by {
                assert(fin.run_queue.to_multiset().count(Op::Task(x)) == if skip == Some(x) {
                    0nat
                } else {
                    expected_tasks(fin, x)
                });
            }
        },
    }
}

// ---------------------------------------------------------------------------
// The runtime's lifecycle
// ---------------------------------------------------------------------------

/// Starting is done once: a started runtime starts no second worker.
pub proof fn law_start_once<M, J>(rt: RuntimeView<M, J>)
    ensures
        start_rt(start_rt(rt).0) == (start_rt(rt).0, false),
{
}

/// Shutting down is done once: a second shutdown changes nothing and waits
/// for nothing; the worker of a running scheduler is told to stop, after
/// every operation queued before.
pub proof fn law_shutdown_once<M, J>(rt: RuntimeView<M, J>)
    ensures
        shutdown_rt(shutdown_rt(rt).0) == (shutdown_rt(rt).0, false),
        shutdown_rt(rt).0.state == RuntimeState::Shutdown,
        (rt.state != RuntimeState::Shutdown && rt.scheduler == SchedulerState::Running) ==> (
        shutdown_rt(rt).0.run_queue == rt.run_queue.push(Op::Terminate) && shutdown_rt(rt).1),
{
}

/// The runtime after `k` calls of `start`, and how many of them started a
/// worker.
pub open spec fn start_calls<M, J>(rt: RuntimeView<M, J>, k: nat) -> (RuntimeView<M, J>, nat)
    decreases k,
{
    if k == 0 {
        (rt, 0)
    } else {
        let first = start_rt(rt);
        let rest = start_calls(first.0, (k - 1) as nat);
        (rest.0, rest.1 + if first.1 {
            1nat
        } else {
            0nat
        })
    }
}

/// Any number of `start` calls (one per spawn, say) starts exactly one
/// worker if the runtime was new, and none otherwise; the runtime ends as
/// the first call leaves it, so a runtime that was shut down is never
/// restarted.
pub proof fn law_start_any_number<M, J>(rt: RuntimeView<M, J>, k: nat)
    ensures
        start_calls(rt, k).1 == if rt.state == RuntimeState::New && k > 0 {
            1nat
        } else {
            0nat
        },
        k > 0 ==> start_calls(rt, k).0 == start_rt(rt).0,
        rt.state != RuntimeState::New ==> start_calls(rt, k).0 == rt,
    decreases k,
{
    if k > 0 {
        law_start_any_number(start_rt(rt).0, (k - 1) as nat);
    }
}

/// The runtime after `k` calls of `shutdown`, and how many of them had to
/// wait for the worker.
pub open spec fn shutdown_calls<M, J>(rt: RuntimeView<M, J>, k: nat) -> (RuntimeView<M, J>, nat)
    decreases k,
{
    if k == 0 {
        (rt, 0)
    } else {
        let first = shutdown_rt(rt);
        let rest = shutdown_calls(first.0, (k - 1) as nat);
        (rest.0, rest.1 + if first.1 {
            1nat
        } else {
            0nat
        })
    }
}

/// Any number of `shutdown` calls acts as the first one: at most one
/// `Terminate` is queued, only by the first call and only for a running
/// scheduler, and at most that call waits for the worker.
pub proof fn law_shutdown_any_number<M, J>(rt: RuntimeView<M, J>, k: nat)
    ensures
        k > 0 ==> shutdown_calls(rt, k).0 == shutdown_rt(rt).0,
        shutdown_calls(rt, k).1 == if k > 0 && shutdown_rt(rt).1 {
            1nat
        } else {
            0nat
        },
    decreases k,
{
    if k > 0 {
        law_shutdown_once(rt);
        let r1 = shutdown_rt(rt).0;
        law_shutdown_any_number(r1, (k - 1) as nat);
        if k > 1 {
            law_shutdown_once(r1);
            assert(shutdown_rt(r1) == (r1, false));
        }
    }
}

// ---------------------------------------------------------------------------
// The supervision tree
// ---------------------------------------------------------------------------

/// Unlinking a child undoes linking it.
pub proof fn law_unlink_undoes_link(children: Seq<CellRef>, child: CellRef)
    ensures
        remove_first(seq![child] + children, child) == children,
{
    let s = seq![child] + children;
    assert(s[0] == child);
    assert(s.drop_first() =~= children);
}

// ---------------------------------------------------------------------------
// Reference counts
// ---------------------------------------------------------------------------

/// Every change of a slot keeps its counts in agreement, on the handles
/// that each change needs: a strong handle to clone, downgrade or drop, a
/// weak handle to drop.
pub proof fn law_counts_stay_wf(s: SlotView)
    requires
        slot_wf(s),
    ensures
        s.strong > 0 ==> slot_wf(slot_clone(s)),
        s.strong > 0 ==> slot_wf(slot_downgrade(s)),
        s.strong > 0 ==> slot_wf(slot_drop(s)),
        s.weak > (if s.strong > 0 {
            1nat
        } else {
            0nat
        }) ==> slot_wf(slot_drop_weak(s)),
        slot_wf(slot_upgrade(s).0),
{
}

/// A clone shares the value: where `after` is what `UnsafeArc::clone` of
/// `a` leaves of `before` and `b` is the new handle, both handles read the
/// same value as `a` read before, only the strong count of their slot has
/// grown by one, and every other slot is as it was.
pub proof fn law_clone_shares_value<T>(
    before: ArcHeap<T>,
    after: ArcHeap<T>,
    a: UnsafeArc,
    b: UnsafeArc,
)
    requires
        a.slot < before@.len(),
        before@[a.slot as int].strong > 0,
        b.slot == a.slot,
        after@ == before@.update(a.slot as int, slot_clone(before@[a.slot as int])),
        forall|i: int| 0 <= i < before@.len() ==> after.data_at(i) == before.data_at(i),
    ensures
        after.data_at(b.slot as int) == before.data_at(a.slot as int),
        after.data_at(a.slot as int) == before.data_at(a.slot as int),
        after@[a.slot as int].has_data == before@[a.slot as int].has_data,
        after@[a.slot as int].weak == before@[a.slot as int].weak,
        after@[a.slot as int].strong == before@[a.slot as int].strong + 1,
        forall|i: int| 0 <= i < before@.len() && i != a.slot ==> after@[i] == before@[i],
{
}

/// Dropping a clone gives the counts back, as does dropping a weak handle
/// just made.
pub proof fn law_drop_undoes_clone(s: SlotView)
    requires
        slot_wf(s),
        s.strong > 0,
    ensures
        slot_drop(slot_clone(s)) == s,
        slot_drop_weak(slot_downgrade(s)) == s,
{
}

/// A weak handle gets a strong one exactly while the value is alive; once
/// the strong count is zero, nothing makes it grow again.
pub proof fn law_upgrade_only_alive(s: SlotView)
    requires
        slot_wf(s),
    ensures
        slot_upgrade(s).1 == (s.strong > 0),
        slot_upgrade(s).1 ==> slot_upgrade(s).0.has_data,
        s.strong == 0 ==> slot_upgrade(s).0.strong == 0 && slot_drop_weak(s).strong == 0,
{
}

/// The value is dropped exactly when the last strong handle goes.
pub proof fn law_last_strong_drops_value(s: SlotView)
    requires
        slot_wf(s),
        s.strong > 0,
    ensures
        slot_drop(s).has_data == (s.strong > 1),
{
}

// ---------------------------------------------------------------------------
// A future's core
// ---------------------------------------------------------------------------

/// Taking the value of a future gives back the value put, and leaves none.
pub proof fn law_take_after_put<T, W>(c: CoreView<T, W>, v: T)
    ensures
        core_take(core_put(c, v)).1 == v,
        core_take(core_put(c, v)).0.val is None,
        core_take(core_put(c, v)).0.state == c.state,
{
}

/// The number of futures of `tv` that have consumers waiting.
pub open spec fn waiting_count<T, J>(tv: Seq<CoreView<T, Waiter<J>>>) -> nat
    decreases tv.len(),
{
    if tv.len() == 0 {
        0
    } else {
        waiting_count(tv.drop_last()) + if tv.last().state is ConsumerWait {
            1nat
        } else {
            0nat
        }
    }
}

proof fn lemma_waiting_count_update<T, J>(
    tv: Seq<CoreView<T, Waiter<J>>>,
    i: int,
    c: CoreView<T, Waiter<J>>,
)
    requires
        0 <= i < tv.len(),
    ensures
        waiting_count(tv.update(i, c)) + (if tv[i].state is ConsumerWait {
            1nat
        } else {
            0nat
        }) == waiting_count(tv) + (if c.state is ConsumerWait {
            1nat
        } else {
            0nat
        }),
    decreases tv.len(),
{
    let u = tv.update(i, c);
    if i == tv.len() - 1 {
        assert(u.drop_last() =~= tv.drop_last());
    } else {
        assert(u.drop_last() =~= tv.drop_last().update(i, c));
        lemma_waiting_count_update(tv.drop_last(), i, c);
    }
}

proof fn lemma_waiting_count_le<T, J>(tv: Seq<CoreView<T, Waiter<J>>>)
    ensures
        waiting_count(tv) <= tv.len(),
    decreases tv.len(),
{
    if tv.len() > 0 {
        lemma_waiting_count_le(tv.drop_last());
    }
}

proof fn lemma_put_fuel<T, M, J>(
    tv: Seq<CoreView<T, Waiter<J>>>,
    rt: RuntimeView<M, J>,
    id: nat,
    v: T,
    f1: nat,
    f2: nat,
)
    requires
        f1 > waiting_count(tv),
        f2 > waiting_count(tv),
    ensures
        put_spec(tv, rt, id, v, f1) == put_spec(tv, rt, id, v, f2),
        put_spec(tv, rt, id, v, f1) is Some ==> waiting_count((put_spec(tv, rt, id, v, f1)->0).0)
            <= waiting_count(tv),
    decreases f1, 0nat,
{
    if id < tv.len() && tv[id as int].val is None {
        let c1 = core_put(tv[id as int], v);
        let h = core_take_consumer_wait(c1);
        let tv1 = tv.update(id as int, h.0);
        lemma_waiting_count_update(tv, id as int, h.0);
        match h.1 {
            StateView::ConsumerWait(ws) => {
                lemma_waiters_fuel(tv1, rt, id, ws, (f1 - 1) as nat, (f2 - 1) as nat);
            },
            _ => {},
        }
    }
}

proof fn lemma_waiters_fuel<T, M, J>(
    tv: Seq<CoreView<T, Waiter<J>>>,
    rt: RuntimeView<M, J>,
    id: nat,
    ws: Seq<Option<Waiter<J>>>,
    f1: nat,
    f2: nat,
)
    requires
        f1 > waiting_count(tv),
        f2 > waiting_count(tv),
    ensures
        run_waiters(tv, rt, id, ws, f1) == run_waiters(tv, rt, id, ws, f2),
        run_waiters(tv, rt, id, ws, f1) is Some ==> waiting_count(
            (run_waiters(tv, rt, id, ws, f1)->0).0,
        ) <= waiting_count(tv),
    decreases f1, ws.len(),
{
    if ws.len() > 0 {
        match ws[0] {
            None => {
                lemma_waiters_fuel(tv, rt, id, ws.drop_first(), f1, f2);
            },
            Some(Waiter::Callback(sj)) => {
                if sj.cell.id < rt.cells.len() {
                    lemma_waiters_fuel(
                        tv,
                        dispatch_rt(rt, sj.cell, Event::Exec(sj.job)),
                        id,
                        ws.drop_first(),
                        f1,
                        f2,
                    );
                }
            },
            Some(Waiter::Link(o)) => {
                if id < tv.len() && tv[id as int].val is Some {
                    let t = core_take(tv[id as int]);
                    let tv2 = tv.update(id as int, t.0);
                    lemma_waiting_count_update(tv, id as int, t.0);
                    lemma_put_fuel(tv2, rt, o.id as nat, t.1, f1, f2);
                    match put_spec(tv2, rt, o.id as nat, t.1, f1) {
                        Some(p) => {
                            lemma_waiters_fuel(p.0, p.1, id, ws.drop_first(), f1, f2);
                        },
                        None => {},
                    }
                }
            },
        }
    }
}

/// Putting a value into a future passes it along a chain of linked futures
/// no longer than the number of futures with waiting consumers: any fuel
/// above that number, such as the number of futures plus one that
/// `FutureTable::put` gives, yields the same outcome. So when that outcome is
/// a failure, the failure is one of the chain's steps, not a want of fuel.
pub proof fn law_put_fuel_enough<T, M, J>(
    tv: Seq<CoreView<T, Waiter<J>>>,
    rt: RuntimeView<M, J>,
    id: nat,
    v: T,
    fuel: nat,
)
    requires
        fuel > waiting_count(tv),
    ensures
        put_spec(tv, rt, id, v, tv.len() + 1) == put_spec(tv, rt, id, v, fuel),
{
    lemma_waiting_count_le(tv);
    lemma_put_fuel(tv, rt, id, v, (tv.len() + 1) as nat, fuel);
}

} // verus!

verus! {

// ---------------------------------------------------------------------------
// What the worker, the effects of an actor, a future and a weak handle do
// ---------------------------------------------------------------------------

/// A scheduled, active cell whose only system event is `Terminate` always
/// has a tick that runs to its end, however many children it has (as long
/// as they, and its supervisor, are cells of the runtime): the worker never
/// faults it, and ticks it.
pub proof fn law_terminate_tick_runs<M, J>(rt: RuntimeView<M, J>, c: CellRef)
    requires
        c.id < rt.cells.len(),
        rt.cells[c.id as int].state.sched() == Schedule::Scheduled,
        rt.cells[c.id as int].state.life() == Lifecycle::Active,
        rt.cells[c.id as int].sys_events == seq![SysEvent::Terminate],
        refs_ok(rt.cells[c.id as int].children, rt.cells.len()),
        rt.cells[c.id as int].supervisor is Some ==> rt.cells[c.id as int].supervisor->0.id
            < rt.cells.len(),
    ensures
        tick_ok(rt, c),
        ({
            let q = RuntimeView { run_queue: seq![Op::Task(c)] + rt.run_queue, ..rt };
            crate::runtime::run_once_rt(q).1 == crate::runtime::WorkerStep::Ticked(c)
        }),
{
    let n = rt.cells.len();
    let v = rt.cells[c.id as int];
    let s0 = v.state;
    lemma_set_sched(s0, Schedule::Running);
    let v1 = CellView { state: s0.set_sched(Schedule::Running), ..v };
    let f0 = start_flags(s0);
    let e = SysEvent::Terminate;
    let f2 = flags_after(f0, e);
    lemma_set_life(v1.state, Lifecycle::Terminating);
    let w = sys_step_cell(v1, e, f2);
    assert(v.sys_events.drop_first() =~= Seq::<SysEvent>::empty());
    assert(drain_ok(w, c, n, Seq::<SysEvent>::empty(), f2));
    assert(drain_ok(v1, c, n, v.sys_events, f0));
    assert(drain_cell(v1, v.sys_events, f0) == drain_cell(w, Seq::<SysEvent>::empty(), f2));
    assert(tick_ok(rt, c));
    let q = RuntimeView { run_queue: seq![Op::Task(c)] + rt.run_queue, ..rt };
    let rt1 = RuntimeView { run_queue: q.run_queue.drop_first(), ..q };
    assert(q.run_queue[0] == Op::Task(c));
    assert(rt1.run_queue =~= rt.run_queue);
    assert(rt1 == rt);
}

/// An actor spawned by an effect goes under the supervisor the effect names
/// (a cell of the runtime), or, without one, under the actor that asked;
/// that supervisor is sent `Link` of the new cell, and the new cell is the
/// runtime's last.
pub proof fn law_effect_spawn_supervisor<A, M, J>(
    rt: RuntimeView<M, J>,
    c: CellRef,
    a: A,
    sup: Option<CellRef>,
)
    requires
        sup matches Some(p) ==> p.id < rt.cells.len(),
        sup is None ==> c.id < rt.cells.len(),
        rt.cells.len() < usize::MAX,
    ensures
        ({
            let p = match sup {
                Some(p) => p,
                None => c,
            };
            let new = CellRef { id: rt.cells.len() as usize };
            let r = effects_rt(rt, c, seq![Effect::Spawn(a, sup)]);
            &&& r.cells.len() == rt.cells.len() + 1
            &&& r.cells[new.id as int].supervisor == Some(p)
            &&& r.cells[p.id as int].sys_events == rt.cells[p.id as int].sys_events.push(
                SysEvent::Link(new),
            )
            &&& r.cells[p.id as int].children == rt.cells[p.id as int].children
        }),
{
    let p = match sup {
        Some(p) => p,
        None => c,
    };
    let es = seq![Effect::Spawn(a, sup)];
    assert(es[0] == Effect::<A, M>::Spawn(a, sup));
    assert(es.drop_first() =~= Seq::<Effect<A, M>>::empty());
    assert(effect_supervisor(c, sup) == p);
    let new = CellRef { id: rt.cells.len() as usize };
    let rt1 = RuntimeView { cells: rt.cells.push(fresh_cell::<M, J>(Some(p))), ..rt };
    crate::runtime::lemma_deliver_frame(rt1, p, SysEvent::Link(new));
    assert(effective_supervisor(rt, Some(p)) == Some(p));
    let r1 = spawn_rt(rt, Some(p)).0;
    assert(effects_rt(r1, c, Seq::<Effect<A, M>>::empty()) == r1);
    assert(effects_rt(rt, c, es) == r1);
    assert(rt1.cells[p.id as int] == rt.cells[p.id as int]);
    assert(r1 == deliver(rt1, p, SysEvent::Link(new)));
    assert(r1.cells.len() == rt.cells.len() + 1);
    assert(r1.cells[new.id as int] == rt1.cells[new.id as int]);
    assert(r1.cells[new.id as int].supervisor == Some(p));
    assert(r1.cells[p.id as int].sys_events == rt.cells[p.id as int].sys_events.push(
        SysEvent::Link(new),
    ));
}

/// The messages that the effects `es` send to cell `b`, in the order asked.
pub open spec fn messages_to<A, M, J>(es: Seq<Effect<A, M>>, b: CellRef) -> Seq<Event<M, J>>
    decreases es.len(),
{
    if es.len() == 0 {
        Seq::empty()
    } else {
        let head: Seq<Event<M, J>> = match es[0] {
            Effect::Send(x, m) => if x == b {
                seq![
                    Event::Message(
                        crate::asynchronous::Request {
                            message: m,
                            response: crate::asynchronous::Response { value: () },
                        },
                    ),
                ]
            } else {
                Seq::empty()
            },
            Effect::Spawn(_, _) => Seq::empty(),
        };
        head + messages_to(es.drop_first(), b)
    }
}

/// Carrying out the effects of an actor appends to the mailbox of each cell
/// of the runtime exactly the messages sent to it, in the order they were
/// asked for; no cell is lost.
pub proof fn law_effects_deliver_in_order<A, M, J>(
    rt: RuntimeView<M, J>,
    c: CellRef,
    es: Seq<Effect<A, M>>,
    b: CellRef,
)
    requires
        b.id < rt.cells.len(),
    ensures
        effects_rt(rt, c, es).cells.len() >= rt.cells.len(),
        effects_rt(rt, c, es).cells[b.id as int].mailbox == rt.cells[b.id as int].mailbox
            + messages_to::<A, M, J>(es, b),
    decreases es.len(),
{
    if es.len() == 0 {
        assert(rt.cells[b.id as int].mailbox + Seq::<Event<M, J>>::empty() =~= rt.cells[b.id
            as int].mailbox);
    } else {
        let rest = es.drop_first();
        let rt1 = match es[0] {
            Effect::Send(x, m) => if x.id < rt.cells.len() {
                dispatch_rt(
                    rt,
                    x,
                    Event::Message(
                        crate::asynchronous::Request {
                            message: m,
                            response: crate::asynchronous::Response { value: () },
                        },
                    ),
                )
            } else {
                rt
            },
            Effect::Spawn(_, sup) => {
                let p = effect_supervisor(c, sup);
                if p.id < rt.cells.len() {
                    spawn_rt(rt, Some(p)).0
                } else {
                    rt
                }
            },
        };
        assert(effects_rt(rt, c, es) == effects_rt(rt1, c, rest));
        let head: Seq<Event<M, J>> = match es[0] {
            Effect::Send(x, m) => if x == b {
                seq![
                    Event::Message(
                        crate::asynchronous::Request {
                            message: m,
                            response: crate::asynchronous::Response { value: () },
                        },
                    ),
                ]
            } else {
                Seq::empty()
            },
            Effect::Spawn(_, _) => Seq::empty(),
        };
        match es[0] {
            Effect::Send(x, m) => {
                if x.id < rt.cells.len() {
                    lemma_set_sched(rt.cells[x.id as int].state, Schedule::Scheduled);
                } else {
                    assert(x != b);
                }
            },
            Effect::Spawn(_, sup) => {
                let p = effect_supervisor(c, sup);
                if p.id < rt.cells.len() {
                    let new = CellRef { id: rt.cells.len() as usize };
                    let r0 = RuntimeView { cells: rt.cells.push(fresh_cell::<M, J>(Some(p))), ..rt };
                    crate::runtime::lemma_deliver_frame(r0, p, SysEvent::Link(new));
                    assert(effective_supervisor(rt, Some(p)) == Some(p));
                    assert(rt1.cells[b.id as int].mailbox == rt.cells[b.id as int].mailbox);
                }
            },
        }
        assert(rt1.cells[b.id as int].mailbox == rt.cells[b.id as int].mailbox + head);
        law_effects_deliver_in_order(rt1, c, rest, b);
        assert(messages_to::<A, M, J>(es, b) == head + messages_to::<A, M, J>(rest, b));
        assert(rt.cells[b.id as int].mailbox + head + messages_to::<A, M, J>(rest, b)
            =~= rt.cells[b.id as int].mailbox + (head + messages_to::<A, M, J>(rest, b)));
    }
}

/// Upgrading a weak handle while the value is alive adds exactly one strong
/// count, and changes nothing else of the slot.
pub proof fn law_upgrade_adds_one_strong(s: SlotView)
    requires
        s.strong > 0,
    ensures
        slot_upgrade(s).1,
        slot_upgrade(s).0.strong == s.strong + 1,
        slot_upgrade(s).0.weak == s.weak,
        slot_upgrade(s).0.has_data == s.has_data,
        slot_upgrade(s).0.freed == s.freed,
{
}

} // verus!

verus! {

/// True if every waiting consumer in `ws` is a job for a cell of a runtime
/// with `n` cells (or a canceled one).
pub open spec fn only_jobs<J>(ws: Seq<Option<Waiter<J>>>, n: nat) -> bool {
    forall|i: int|
        0 <= i < ws.len() ==> match #[trigger] ws[i] {
            Some(Waiter::Callback(sj)) => sj.cell.id < n,
            Some(Waiter::Link(_)) => false,
            None => true,
        }
}

/// The jobs of `ws` that wait for cell `x`, in order, as user events.
pub open spec fn jobs_for<M, J>(ws: Seq<Option<Waiter<J>>>, x: CellRef) -> Seq<Event<M, J>>
    decreases ws.len(),
{
    if ws.len() == 0 {
        Seq::empty()
    } else {
        let head: Seq<Event<M, J>> = match ws[0] {
            Some(Waiter::Callback(sj)) => if sj.cell == x {
                seq![Event::Exec(sj.job)]
            } else {
                Seq::empty()
            },
            _ => Seq::empty(),
        };
        head + jobs_for(ws.drop_first(), x)
    }
}

proof fn lemma_run_jobs<T, M, J>(
    tv: Seq<CoreView<T, Waiter<J>>>,
    rt: RuntimeView<M, J>,
    id: nat,
    ws: Seq<Option<Waiter<J>>>,
    fuel: nat,
    x: CellRef,
)
    requires
        only_jobs(ws, rt.cells.len()),
        x.id < rt.cells.len(),
    ensures
        run_waiters(tv, rt, id, ws, fuel) is Some,
        (run_waiters(tv, rt, id, ws, fuel)->0).0 == tv,
        (run_waiters(tv, rt, id, ws, fuel)->0).1.cells.len() == rt.cells.len(),
        (run_waiters(tv, rt, id, ws, fuel)->0).1.cells[x.id as int].mailbox == rt.cells[x.id
            as int].mailbox + jobs_for::<M, J>(ws, x),
    decreases ws.len(),
{
    if ws.len() == 0 {
        assert(rt.cells[x.id as int].mailbox + Seq::<Event<M, J>>::empty() =~= rt.cells[x.id
            as int].mailbox);
    } else {
        let rest = ws.drop_first();
        assert(only_jobs(rest, rt.cells.len())) by {
            assert forall|i: int| 0 <= i < rest.len() implies match #[trigger] rest[i] {
                Some(Waiter::Callback(sj)) => sj.cell.id < rt.cells.len(),
                Some(Waiter::Link(_)) => false,
                None => true,
            } by {
                assert(rest[i] == ws[i + 1]);
            }
        }
        let w0 = ws[0];
        assert(match w0 {
            Some(Waiter::Callback(sj)) => sj.cell.id < rt.cells.len(),
            Some(Waiter::Link(_)) => false,
            None => true,
        });
        let head: Seq<Event<M, J>> = match ws[0] {
            Some(Waiter::Callback(sj)) => if sj.cell == x {
                seq![Event::Exec(sj.job)]
            } else {
                Seq::empty()
            },
            _ => Seq::empty(),
        };
        match w0 {
            Some(Waiter::Callback(sj)) => {
                let rt1 = dispatch_rt(rt, sj.cell, Event::Exec(sj.job));
                lemma_set_sched(rt.cells[sj.cell.id as int].state, Schedule::Scheduled);
                assert(rt1.cells[x.id as int].mailbox == rt.cells[x.id as int].mailbox + head);
                lemma_run_jobs(tv, rt1, id, rest, fuel, x);
                assert(rt.cells[x.id as int].mailbox + head + jobs_for::<M, J>(rest, x)
                    =~= rt.cells[x.id as int].mailbox + (head + jobs_for::<M, J>(rest, x)));
            },
            _ => {
                assert(head =~= Seq::<Event<M, J>>::empty());
                lemma_run_jobs(tv, rt, id, rest, fuel, x);
                assert(head + jobs_for::<M, J>(rest, x) =~= jobs_for::<M, J>(rest, x));
            },
        }
    }
}

/// Putting a value into a future whose waiting consumers are jobs for cells
/// of the runtime succeeds: the future then holds the value and is complete,
/// and each cell's mailbox gets, at its end, exactly the jobs that waited for
/// it, in the order they started to wait, to run when the cell is ticked.
/// No job runs during the put, and no cell is added.
pub proof fn law_put_queues_waiting_jobs<T, M, J>(
    tv: Seq<CoreView<T, Waiter<J>>>,
    rt: RuntimeView<M, J>,
    id: nat,
    v: T,
    fuel: nat,
    x: CellRef,
)
    requires
        id < tv.len(),
        tv[id as int].val is None,
        tv[id as int].state matches StateView::ConsumerWait(ws) && only_jobs(ws, rt.cells.len()),
        fuel >= 1,
        x.id < rt.cells.len(),
    ensures
        put_spec(tv, rt, id, v, fuel) is Some,
        (put_spec(tv, rt, id, v, fuel)->0).0[id as int] == (CoreView::<T, Waiter<J>> {
            val: Some(v),
            state: StateView::Complete,
        }),
        (put_spec(tv, rt, id, v, fuel)->0).1.cells.len() == rt.cells.len(),
        (put_spec(tv, rt, id, v, fuel)->0).1.cells[x.id as int].mailbox == rt.cells[x.id
            as int].mailbox + jobs_for::<M, J>(tv[id as int].state->ConsumerWait_0, x),
{
    let ws = tv[id as int].state->ConsumerWait_0;
    let c1 = core_put(tv[id as int], v);
    let h = core_take_consumer_wait(c1);
    let tv1 = tv.update(id as int, h.0);
    lemma_run_jobs(tv1, rt, id, ws, (fuel - 1) as nat, x);
}

} // verus!

verus! {

proof fn lemma_deliver_keeps_contains<M, J>(rt: RuntimeView<M, J>, x: CellRef, e: SysEvent, y: CellRef, g: SysEvent)
    requires
        x.id < rt.cells.len(),
        y.id < rt.cells.len(),
        rt.cells[y.id as int].sys_events.contains(g),
    ensures
        deliver(rt, x, e).cells[y.id as int].sys_events.contains(g),
{
    crate::runtime::lemma_deliver_frame(rt, x, e);
    if x.id == y.id {
        let v = rt.cells[x.id as int];
        let k = choose|k: int| 0 <= k < v.sys_events.len() && v.sys_events[k] == g;
        assert(deliver(rt, x, e).cells[y.id as int].sys_events[k] == g);
    }
}

proof fn lemma_deliver_all_contains<M, J>(rt: RuntimeView<M, J>, xs: Seq<CellRef>, e: SysEvent, i: int)
    requires
        refs_ok(xs, rt.cells.len()),
        0 <= i < xs.len(),
    ensures
        deliver_all(rt, xs, e).cells[xs[i].id as int].sys_events.contains(e),
    decreases xs.len(),
{
    let ys = xs.drop_last();
    assert(refs_ok(ys, rt.cells.len())) by {
        assert forall|j: int| 0 <= j < ys.len() implies (#[trigger] ys[j]).id < rt.cells.len() by {
            assert(ys[j] == xs[j]);
        }
    }
    let mid = deliver_all(rt, ys, e);
    crate::runtime::lemma_deliver_all_frame(rt, ys, e);
    let x = xs.last();
    assert(x == xs[xs.len() - 1]);
    if i == xs.len() - 1 {
        let v = mid.cells[x.id as int];
        crate::runtime::lemma_deliver_frame(mid, x, e);
        assert(deliver(mid, x, e).cells[x.id as int].sys_events == v.sys_events.push(e));
        assert(deliver(mid, x, e).cells[x.id as int].sys_events[v.sys_events.len() as int] == e);
    } else {
        lemma_deliver_all_contains(rt, ys, e, i);
        assert(ys[i] == xs[i]);
        lemma_deliver_keeps_contains(mid, x, e, xs[i], e);
    }
}

/// A tick of a scheduled, active cell whose only system event is `Terminate`
/// tells each of its children to terminate; a cell without children
/// finishes at once and tells its supervisor, and a cell with children is
/// left terminating until they are gone.
pub proof fn law_terminate_tick_tells_children<M, J>(rt: RuntimeView<M, J>, c: CellRef)
    requires
        c.id < rt.cells.len(),
        rt.cells[c.id as int].state.sched() == Schedule::Scheduled,
        rt.cells[c.id as int].state.life() == Lifecycle::Active,
        rt.cells[c.id as int].sys_events == seq![SysEvent::Terminate],
        refs_ok(rt.cells[c.id as int].children, rt.cells.len()),
        forall|i: int|
            0 <= i < rt.cells[c.id as int].children.len() ==> #[trigger] rt.cells[c.id
                as int].children[i] != c,
        rt.cells[c.id as int].supervisor matches Some(p) ==> p.id < rt.cells.len() && p != c,
    ensures
        ({
            let kids = rt.cells[c.id as int].children;
            let r = tick_rt(rt, c).0;
            &&& forall|i: int|
                0 <= i < kids.len() ==> (#[trigger] r.cells[kids[i].id as int]).sys_events.contains(
                    SysEvent::Terminate,
                )
            &&& kids.len() > 0 ==> r.cells[c.id as int].state.life() == Lifecycle::Terminating
            &&& kids.len() == 0 ==> r.cells[c.id as int].state.life() == Lifecycle::Terminated
            &&& kids.len() == 0 ==> (rt.cells[c.id as int].supervisor matches Some(p) ==> r.cells[p.id
                as int].sys_events.contains(SysEvent::ChildTerminated(c)))
        }),
{
    let n = rt.cells.len();
    let v = rt.cells[c.id as int];
    let kids = v.children;
    let s0 = v.state;
    lemma_set_sched(s0, Schedule::Running);
    let v1 = CellView { state: s0.set_sched(Schedule::Running), ..v };
    let rt1 = set_cell(rt, c, v1);
    let f0 = start_flags(s0);
    let e = SysEvent::Terminate;
    let f2 = flags_after(f0, e);
    // the drain of the one event
    let rt1a = set_cell(rt1, c, CellView { sys_events: v1.sys_events.drop_first(), ..v1 });
    let w = rt1a.cells[c.id as int];
    let st = sys_step_cell(w, e, f2);
    lemma_set_life(w.state, Lifecycle::Terminating);
    let rt2 = set_cell(rt1a, c, st);
    assert(sys_step_sends(w, c, e, f2).0 =~= Seq::<CellRef>::empty());
    assert(step_rt(rt1a, c, e, f2) == rt2);
    assert(v.sys_events.drop_first() =~= Seq::<SysEvent>::empty());
    assert(drain_rt(rt2, c, Seq::<SysEvent>::empty(), f2) == (rt2, f2));
    assert(drain_rt(rt1, c, rt1.cells[c.id as int].sys_events, f0) == (rt2, f2));
    let m = mailbox_rt(rt1, c, f0);
    assert(m == (rt2, false));
    let v2 = rt2.cells[c.id as int];
    assert(v2.state.life() == Lifecycle::Terminating);
    assert(v2.children == kids);
    let s3 = end_tick(v2.state, false);
    lemma_set_sched(v2.state, Schedule::Scheduled);
    lemma_set_sched(v2.state, Schedule::Idle);
    assert(s3.life() == Lifecycle::Terminating);
    let rt4 = set_cell(rt2, c, CellView { state: s3, ..v2 });
    assert(tick_rt(rt, c).0 == init_termination_rt(rt4, c));
    assert(rt4.cells.len() == n);
    assert(refs_ok(kids, rt4.cells.len()));
    let rt5 = deliver_all(rt4, kids, SysEvent::Terminate);
    crate::runtime::lemma_deliver_all_frame(rt4, kids, SysEvent::Terminate);
    assert forall|i: int| 0 <= i < kids.len() implies (#[trigger] tick_rt(rt, c).0.cells[kids[i].id
        as int]).sys_events.contains(SysEvent::Terminate) by {
        lemma_deliver_all_contains(rt4, kids, SysEvent::Terminate, i);
    }
    assert(rt5.cells[c.id as int] == rt4.cells[c.id as int]);
    if kids.len() == 0 {
        let u = rt5.cells[c.id as int];
        lemma_set_life(u.state, Lifecycle::Terminated);
        let rt6 = set_cell(rt5, c, CellView { state: u.state.set_life(Lifecycle::Terminated), live: false, ..u });
        match u.supervisor {
            Some(p) => {
                crate::runtime::lemma_deliver_frame(rt6, p, SysEvent::ChildTerminated(c));
                let pv = rt6.cells[p.id as int];
                assert(deliver(rt6, p, SysEvent::ChildTerminated(c)).cells[p.id as int].sys_events
                    == pv.sys_events.push(SysEvent::ChildTerminated(c)));
                assert(deliver(rt6, p, SysEvent::ChildTerminated(c)).cells[p.id as int].sys_events[pv.sys_events.len() as int]
                    == SysEvent::ChildTerminated(c));
            },
            None => {},
        }
    }
}

} // verus!
