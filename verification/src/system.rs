//! The entry point for users: a system of actors and the handles on them.
use vstd::prelude::*;
use crate::actor::{Actor, Context, Effect, Job};
use crate::asynchronous::{Request, Response};
use crate::cell::{ActorSlot, CellRef, Event};
use crate::state::Lifecycle;
use crate::runtime::{
    dispatch_rt, effects_rt, effects_slots, new_rt, run_once_rt, shutdown_rt, spawn_rt, start_rt,
    Runtime, RuntimeView, WorkerStep,
};

verus! {

/// A handle on an actor: where messages for it go.
#[derive(Clone, Copy, Debug, PartialEq, Eq, Structural)]
pub struct ActorRef {
    pub cell: CellRef,
}

/// A handle on the cell `cell`.
pub fn new(cell: CellRef) -> (r: ActorRef)
    ensures
        r.cell == cell,
{
    ActorRef { cell }
}

/// The cell behind an actor handle.
pub fn to_ref(actor_ref: &ActorRef) -> (r: CellRef)
    ensures
        r == actor_ref.cell,
{
    actor_ref.cell
}

/// The longest wait, in milliseconds, for the worker to stop.
pub const MAX_SHUTDOWN_WAIT_MS: u64 = 9223372036854775807;

/// A system of actors.
pub struct System<A, M, J> {
    runtime: Runtime<A, M, J>,
}

impl<A, M, J> View for System<A, M, J> {
    type V = RuntimeView<M, J>;

    closed spec fn view(&self) -> RuntimeView<M, J> {
        self.runtime@
    }
}

impl<A, M, J> System<A, M, J> {
    /// The actor slots of the cells, by cell number.
    pub closed spec fn actor_slots(&self) -> Seq<ActorSlot<A>> {
        self.runtime.actor_slots()
    }

    /// What the actor of the cell that the worker ticked last asked of the
    /// runtime.
    pub closed spec fn last_effects(&self) -> Seq<Effect<A, M>> {
        self.runtime.last_effects()
    }
}

impl ActorRef {
    /// Sends `msg` to the actor.
    pub fn send<A: Actor<M>, M, J: Job>(&self, system: &mut System<A, M, J>, msg: M)
        requires
            self.cell.id < old(system)@.cells.len(),
        ensures
            final(system)@ == dispatch_rt(
                old(system)@,
                self.cell,
                Event::Message(Request { message: msg, response: Response { value: () } }),
            ),
    {
        system.runtime.send(self.cell, msg);
    }
}

impl<A: Actor<M>, M, J: Job> System<A, M, J> {
    /// A new system: its root and user actors are made, the root is spawned,
    /// and the worker is not started.
    pub fn new() -> (r: System<A, M, J>)
        ensures
            r@ == new_rt::<M, J>(),
    {
        System { runtime: Runtime::new() }
    }

    /// Starts the system if it is new; true when the worker has to be
    /// started.
    pub fn start(&mut self) -> (start_worker: bool)
        ensures
            (final(self)@, start_worker) == start_rt(old(self)@),
    {
        self.runtime.start()
    }

    /// Shuts the system down; gives how long to wait for the worker to stop,
    /// if there is one to wait for.
    pub fn shutdown(&mut self) -> (wait: Option<u64>)
        ensures
            final(self)@ == shutdown_rt(old(self)@).0,
            wait == (if shutdown_rt(old(self)@).1 {
                Some(MAX_SHUTDOWN_WAIT_MS)
            } else {
                None
            }),
    {
        self.shutdown_timed(MAX_SHUTDOWN_WAIT_MS)
    }

    /// Shuts the system down; gives `timeout_ms` if the caller has to wait
    /// (up to that long) for the worker to stop.
    pub fn shutdown_timed(&mut self, timeout_ms: u64) -> (wait: Option<u64>)
        ensures
            final(self)@ == shutdown_rt(old(self)@).0,
            wait == (if shutdown_rt(old(self)@).1 {
                Some(timeout_ms)
            } else {
                None
            }),
    {
        if self.runtime.shutdown() {
            Some(timeout_ms)
        } else {
            None
        }
    }

    /// Spawns `actor` under the user actor, starting the system first if it
    /// is new.
    pub fn spawn(&mut self, actor: A) -> (r: ActorRef)
        ensures
            (final(self)@, r.cell) == spawn_rt(start_rt(old(self)@).0, None),
    {
        self.start();
        ActorRef { cell: self.runtime.spawn(actor, None) }
    }

    /// Spawns `actor` under `supervisor`, starting the system first if it is
    /// new.
    pub fn spawn_link(&mut self, actor: A, supervisor: &ActorRef) -> (r: ActorRef)
        requires
            supervisor.cell.id < old(self)@.cells.len(),
        ensures
            (final(self)@, r.cell) == spawn_rt(start_rt(old(self)@).0, Some(supervisor.cell)),
    {
        self.start();
        ActorRef { cell: self.runtime.spawn(actor, Some(supervisor.cell)) }
    }

    /// One step of the worker (see `run_once_rt`); a tick hands the cell's
    /// actor what `Runtime::run_once` states.
    pub fn run_once(&mut self) -> (r: WorkerStep)
        ensures
            r == run_once_rt(old(self)@).1,
            !(r is Ticked) ==> final(self)@ == run_once_rt(old(self)@).0
                && final(self).actor_slots()
                == old(self).actor_slots(),
            match r {
                WorkerStep::Ticked(t) => final(self)@
                    == effects_rt(run_once_rt(old(self)@).0, t, final(self).last_effects())
                    && {
                    let s0 = old(self).actor_slots()[t.id as int];
                    let sf = final(self).actor_slots()[t.id as int];
                    let before = old(self)@.cells[t.id as int];
                    let after = run_once_rt(old(self)@).0.cells[t.id as int];
                    let spawned = before.state.life() == Lifecycle::New
                        && after.state.life() != Lifecycle::New;
                    let took = after.mailbox.len() < before.mailbox.len();
                    let ev = before.mailbox[0];
                    let released = !after.live && sf is Released;
                    &&& final(self).actor_slots()
                        == effects_slots(old(self).actor_slots().update(t.id as int, sf), t, final(self).last_effects())
                    &&& took ==> before.mailbox.len() > 0
                    &&& took && ev is Exec ==> call_ensures(J::run, (ev->Exec_0,), ())
                    &&& !(took && ev is Message && s0 is Actor) ==> final(self).last_effects()
                        == Seq::<Effect<A, M>>::empty()
                    &&& !(s0 is Actor) ==> sf == s0 || released
                    &&& s0 is Actor && spawned && took && ev is Message
                        ==> exists|p: &mut A, q: &mut A, k: &mut Context<A, M>|
                        #![trigger call_ensures(A::prepare, (p,), ()),
                            call_ensures(A::receive, (q, ev->Message_0.message, k), ())]
                        call_ensures(A::prepare, (p,), ())
                            && call_ensures(A::receive, (q, ev->Message_0.message, k), ())
                            && mut_ref_current(p) == s0->0 && mut_ref_current(q)
                                == mut_ref_future(p)
                            && sf == ActorSlot::Actor(mut_ref_future(q))
                            && mut_ref_current(k).cell == t && mut_ref_current(k).effects@
                                == Seq::<Effect<A, M>>::empty()
                            && mut_ref_future(k).effects@ == final(self).last_effects()
                    &&& s0 is Actor && spawned && !(took && ev is Message) ==> exists|p: &mut A|
                        #![trigger call_ensures(A::prepare, (p,), ())]
                        call_ensures(A::prepare, (p,), ()) && mut_ref_current(p) == s0->0 && (sf
                            == ActorSlot::Actor(mut_ref_future(p)) || released)
                    &&& s0 is Actor && !spawned && took && ev is Message
                        ==> exists|q: &mut A, k: &mut Context<A, M>|
                        #![trigger call_ensures(A::receive, (q, ev->Message_0.message, k), ())]
                        call_ensures(A::receive, (q, ev->Message_0.message, k), ())
                            && mut_ref_current(q) == s0->0
                            && sf == ActorSlot::Actor(mut_ref_future(q))
                            && mut_ref_current(k).cell == t && mut_ref_current(k).effects@
                                == Seq::<Effect<A, M>>::empty()
                            && mut_ref_future(k).effects@ == final(self).last_effects()
                    &&& s0 is Actor && !spawned && !(took && ev is Message) ==> sf == s0 || released
                },
                _ => true,
            },
    {
        self.runtime.run_once()
    }

    /// The runtime behind the system.
    pub fn runtime(&self) -> (r: &Runtime<A, M, J>)
        ensures
            r@ == self@,
    {
        &self.runtime
    }
}

} // verus!
