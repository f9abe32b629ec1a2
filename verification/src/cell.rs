//! A cell: the mailboxes, the state word and the place in the supervision
//! tree of one actor. The functions here touch one cell only; what a cell
//! does to the others goes through the runtime.
use vstd::prelude::*;
use std::collections::VecDeque;
use syncbox::LinkedQueue;
use crate::actor::{Init, User};
use crate::asynchronous::Request;
use crate::queue::{sys_events_in, sys_queue_new, sys_queue_put};
use crate::state::{lemma_set_sched, schedule_step, terminate_step, Lifecycle, Schedule, State};

verus! {

/// A handle on a cell of a runtime: its index there.
#[derive(Clone, Copy, Debug, PartialEq, Eq, Structural)]
pub struct CellRef {
    pub id: usize,
}

/// The events that drive a cell's life and its place in the tree.
#[derive(Clone, Copy, Debug, PartialEq, Eq, Structural)]
pub enum SysEvent {
    /// Start the cell: it becomes active and spawns the children linked so far.
    Spawn,
    /// Take the cell as a child.
    Link(CellRef),
    /// Stop the cell, its children first.
    Terminate,
    /// A child has stopped.
    ChildTerminated(CellRef),
}

impl SysEvent {
    pub fn is_spawn(&self) -> (r: bool)
        ensures
            r == (*self is Spawn),
    {
        match self {
            SysEvent::Spawn => true,
            _ => false,
        }
    }
}

/// A user event: a message for the actor, or a job to run in its context.
pub enum Event<M, J> {
    Message(Request<M, ()>),
    Exec(J),
}

impl<M, J> Event<M, J> {
    pub fn message(message: Request<M, ()>) -> (r: Event<M, J>)
        ensures
            r == Event::<M, J>::Message(message),
    {
        Event::Message(message)
    }

    pub fn exec(f: J) -> (r: Event<M, J>)
        ensures
            r == Event::<M, J>::Exec(f),
    {
        Event::Exec(f)
    }
}

/// The state word of a cell.
pub struct CellState {
    pub state: State,
}

impl CellState {
    /// A word holding `Idle` and `New`.
    pub fn new() -> (r: CellState)
        ensures
            r.state.val == 0,
            r.state.sched() == Schedule::Idle,
            r.state.life() == Lifecycle::New,
    {
        CellState { state: State::new() }
    }

    pub fn load(&self) -> (r: State)
        ensures
            r == self.state,
    {
        self.state
    }

    /// Stores `new` if the word holds `old`; gives back what the word held.
    pub fn compare_and_swap(&mut self, expected: State, new: State) -> (r: State)
        ensures
            r == old(self).state,
            final(self).state == (if old(self).state == expected {
                new
            } else {
                old(self).state
            }),
    {
        let curr = self.state;
        if curr.val == expected.val {
            self.state = new;
        }
        curr
    }
}

/// `s` with the first occurrence of `x` taken out (unchanged if there is none).
pub open spec fn remove_first(s: Seq<CellRef>, x: CellRef) -> Seq<CellRef>
    decreases s.len(),
{
    if s.len() == 0 {
        s
    } else if s[0] == x {
        s.drop_first()
    } else {
        seq![s[0]] + remove_first(s.drop_first(), x)
    }
}

proof fn lemma_remove_first_at(s: Seq<CellRef>, x: CellRef, i: int)
    requires
        0 <= i < s.len(),
        s[i] == x,
        forall|j: int| 0 <= j < i ==> s[j] != x,
    ensures
        remove_first(s, x) == s.remove(i),
    decreases i,
{
    if i == 0 {
        assert(s.drop_first() =~= s.remove(0));
    } else {
        lemma_remove_first_at(s.drop_first(), x, i - 1);
        assert(seq![s[0]] + s.drop_first().remove(i - 1) =~= s.remove(i));
    }
}

proof fn lemma_remove_first_absent(s: Seq<CellRef>, x: CellRef)
    requires
        forall|j: int| 0 <= j < s.len() ==> s[j] != x,
    ensures
        remove_first(s, x) == s,
    decreases s.len(),
{
    if s.len() > 0 {
        lemma_remove_first_absent(s.drop_first(), x);
        assert(seq![s[0]] + s.drop_first() =~= s);
    }
}

/// A cell's state word and its links in the supervision tree. The children
/// are kept most recently linked first.
pub struct CellCore {
    pub state: CellState,
    pub supervisor: Option<CellRef>,
    pub children: Vec<CellRef>,
}

impl CellCore {
    pub fn new(supervisor: Option<CellRef>) -> (r: CellCore)
        ensures
            r.state.state.val == 0,
            r.supervisor == supervisor,
            r.children@ == Seq::<CellRef>::empty(),
    {
        CellCore { state: CellState::new(), supervisor, children: Vec::new() }
    }

    /// Moves the state word on for a delivered event; true when the cell has
    /// to be put on the run queue.
    pub fn maybe_schedule(&mut self, spawning: bool) -> (r: bool)
        ensures
            (final(self).state.state, r) == schedule_step(old(self).state.state, spawning),
            final(self).supervisor == old(self).supervisor,
            final(self).children == old(self).children,
    {
        let curr = self.state.load();
        let next = match curr.lifecycle() {
            Lifecycle::New => {
                if !spawning {
                    return false;
                }
                curr.with_schedule(Schedule::Scheduled)
            },
            Lifecycle::Active | Lifecycle::Terminating => {
                match curr.schedule() {
                    Schedule::Idle => curr.with_schedule(Schedule::Scheduled),
                    Schedule::Running => curr.with_schedule(Schedule::Pending),
                    Schedule::Scheduled | Schedule::Pending => return false,
                }
            },
            Lifecycle::Terminated => return false,
        };
        let actual = self.state.compare_and_swap(curr, next);
        proof {
            lemma_set_sched(curr, Schedule::Scheduled);
            lemma_set_sched(curr, Schedule::Pending);
        }
        match next.schedule() {
            Schedule::Scheduled => true,
            _ => false,
        }
    }

    /// The children, most recently linked first.
    pub fn child_iter(&self) -> (r: Vec<CellRef>)
        ensures
            r@ == self.children@,
    {
        let mut out: Vec<CellRef> = Vec::new();
        let mut i: usize = 0;
        while i < self.children.len()
            invariant
                i <= self.children.len(),
                out@ == self.children@.take(i as int),
            decreases self.children.len() - i,
        {
            out.push(self.children[i]);
            i = i + 1;
            assert(out@ =~= self.children@.take(i as int));
        }
        assert(out@ =~= self.children@);
        out
    }

    /// True if the cell supervises any cell.
    pub fn has_children(&self) -> (r: bool)
        ensures
            r == (self.children@.len() > 0),
    {
        self.children.len() > 0
    }

    /// Puts `child` at the head of the children; gives it back.
    pub fn link_child(&mut self, child: CellRef) -> (r: CellRef)
        ensures
            r == child,
            final(self).children@ == seq![child] + old(self).children@,
            final(self).state == old(self).state,
            final(self).supervisor == old(self).supervisor,
    {
        self.children.insert(0, child);
        assert(self.children@ =~= seq![child] + old(self).children@);
        child
    }

    /// Takes `child` out of the children; gives it back.
    pub fn unlink_child(&mut self, child: CellRef) -> (r: CellRef)
        ensures
            r == child,
            final(self).children@ == remove_first(old(self).children@, child),
            final(self).state == old(self).state,
            final(self).supervisor == old(self).supervisor,
    {
        remove_child(&mut self.children, child);
        child
    }
}

/// Takes the first occurrence of `child` out of `children`, if there is one.
pub(crate) fn remove_child(children: &mut Vec<CellRef>, child: CellRef)
    ensures
        final(children)@ == remove_first(old(children)@, child),
{
    let mut i: usize = 0;
    while i < children.len()
        invariant
            i <= children.len(),
            children@ == old(children)@,
            forall|j: int| 0 <= j < i ==> children@[j] != child,
        decreases children.len() - i,
    {
        if children[i] == child {
            proof {
                lemma_remove_first_at(children@, child, i as int);
            }
            children.remove(i);
            return;
        }
        i = i + 1;
    }
    proof {
        lemma_remove_first_absent(children@, child);
    }
}

/// The actor that a cell powers, until the cell terminates and drops it.
pub enum ActorSlot<A> {
    Init(Init),
    User(User),
    Actor(A),
    Released,
}

/// A cell of a runtime.
pub(crate) struct CellInner<A, M, J> {
    pub core: CellCore,
    /// The user events, oldest first. They are kept in a `VecDeque`, not in
    /// a `LinkedQueue` as the system events are: what a `LinkedQueue` holds is
    /// known to the contracts through a name for each item type, and such a
    /// name cannot be generic over the message and job types.
    pub mailbox: VecDeque<Event<M, J>>,
    /// The system events, oldest first.
    pub sys_mailbox: LinkedQueue<SysEvent>,
    pub actor: ActorSlot<A>,
}

/// What the runtime's contracts see of a cell.
pub struct CellView<M, J> {
    pub state: State,
    pub supervisor: Option<CellRef>,
    pub children: Seq<CellRef>,
    pub sys_events: Seq<SysEvent>,
    pub mailbox: Seq<Event<M, J>>,
    /// False once the cell has dropped its actor.
    pub live: bool,
}

impl<A, M, J> CellInner<A, M, J> {
    pub(crate) open spec fn view(&self) -> CellView<M, J> {
        CellView {
            state: self.core.state.state,
            supervisor: self.core.supervisor,
            children: self.core.children@,
            sys_events: sys_events_in(self.sys_mailbox),
            mailbox: self.mailbox@,
            live: !(self.actor is Released),
        }
    }

    /// A new cell, idle and not yet spawned, with empty mailboxes.
    pub(crate) fn new(actor: ActorSlot<A>, supervisor: Option<CellRef>) -> (r: CellInner<A, M, J>)
        requires
            !(actor is Released),
        ensures
            r.view() == (CellView::<M, J> {
                state: State { val: 0 },
                supervisor,
                children: Seq::empty(),
                sys_events: Seq::empty(),
                mailbox: Seq::empty(),
                live: true,
            }),
            r.actor == actor,
    {
        CellInner {
            core: CellCore::new(supervisor),
            mailbox: VecDeque::new(),
            sys_mailbox: sys_queue_new(),
            actor,
        }
    }

    /// Queues a user event; true when the cell has to be put on the run
    /// queue. Events that reach a cell before it is spawned wait there.
    pub(crate) fn deliver_event(&mut self, event: Event<M, J>) -> (r: bool)
        ensures
            (final(self).view().state, r) == schedule_step(old(self).view().state, false),
            final(self).view() == (CellView {
                state: final(self).view().state,
                mailbox: old(self).view().mailbox.push(event),
                ..old(self).view()
            }),
            final(self).actor == old(self).actor,
    {
        self.mailbox.push_back(event);
        self.core.maybe_schedule(false)
    }

    /// Queues a system event; true when the cell has to be put on the run
    /// queue. Only `Spawn` schedules a cell that is not spawned yet.
    pub(crate) fn deliver_sys_event(&mut self, event: SysEvent) -> (r: bool)
        ensures
            (final(self).view().state, r) == schedule_step(
                old(self).view().state,
                event is Spawn,
            ),
            final(self).view() == (CellView {
                state: final(self).view().state,
                sys_events: old(self).view().sys_events.push(event),
                ..old(self).view()
            }),
            final(self).actor == old(self).actor,
    {
        let spawning = event.is_spawn();
        sys_queue_put(&mut self.sys_mailbox, event);
        self.core.maybe_schedule(spawning)
    }
}

/// True if the cell `c` may send a system event to `x` in the middle of a
/// tick: `x` is a cell of the runtime (which has `n` cells) other than `c`.
pub open spec fn target_ok(c: CellRef, x: CellRef, n: nat) -> bool {
    x.id < n && x != c
}

/// True if every cell of `xs` may be sent a system event by `c`.
pub open spec fn targets_ok(c: CellRef, xs: Seq<CellRef>, n: nat) -> bool {
    forall|i: int| 0 <= i < xs.len() ==> target_ok(c, #[trigger] xs[i], n)
}

/// True if every cell of `xs` is a cell of a runtime with `n` cells.
pub open spec fn refs_ok(xs: Seq<CellRef>, n: nat) -> bool {
    forall|i: int| 0 <= i < xs.len() ==> (#[trigger] xs[i]).id < n
}

/// The flags a tick carries while it drains the system mailbox: whether the
/// cell has been spawned, and whether it is terminating.
pub struct DrainFlags {
    pub spawned: bool,
    pub terminated: bool,
}

/// The flags once `e` has been taken out of the mailbox.
pub open spec fn flags_after(f: DrainFlags, e: SysEvent) -> DrainFlags {
    DrainFlags {
        spawned: f.spawned || e is Spawn,
        terminated: f.terminated || e is Terminate,
    }
}

/// True if handling `e` (with the flags already updated for it) leaves the
/// cell `c` in a state the runtime allows, in a runtime of `n` cells.
pub open spec fn sys_step_ok<M, J>(
    v: CellView<M, J>,
    c: CellRef,
    n: nat,
    e: SysEvent,
    f: DrainFlags,
) -> bool {
    match e {
        SysEvent::Spawn => v.state.life() == Lifecycle::New && targets_ok(c, v.children, n),
        SysEvent::Link(x) => f.spawned ==> target_ok(c, x, n),
        SysEvent::Terminate => v.state.life() == Lifecycle::Active || v.state.life()
            == Lifecycle::Terminating,
        SysEvent::ChildTerminated(x) => {
            (f.terminated && remove_first(v.children, x).len() == 0) ==> (v.state.life()
                == Lifecycle::Terminating && (v.supervisor matches Some(p) ==> target_ok(c, p, n)))
        },
    }
}

/// True if handling `ChildTerminated(x)` completes the termination of the cell.
pub open spec fn completes<M, J>(v: CellView<M, J>, e: SysEvent, f: DrainFlags) -> bool {
    match e {
        SysEvent::ChildTerminated(x) => f.terminated && remove_first(v.children, x).len() == 0,
        _ => false,
    }
}

/// The cell itself after handling `e` (flags already updated for it); the
/// mailboxes are left as they are.
pub open spec fn sys_step_cell<M, J>(v: CellView<M, J>, e: SysEvent, f: DrainFlags) -> CellView<
    M,
    J,
> {
    match e {
        SysEvent::Spawn => CellView { state: v.state.set_life(Lifecycle::Active), ..v },
        SysEvent::Link(x) => CellView { children: seq![x] + v.children, ..v },
        SysEvent::Terminate => CellView { state: terminate_step(v.state), ..v },
        SysEvent::ChildTerminated(x) => {
            let kids = remove_first(v.children, x);
            if f.terminated && kids.len() == 0 {
                CellView {
                    children: kids,
                    state: v.state.set_life(Lifecycle::Terminated),
                    live: false,
                    ..v
                }
            } else {
                CellView { children: kids, ..v }
            }
        },
    }
}

/// The cells that handling `e` sends a system event to, and that event.
pub open spec fn sys_step_sends<M, J>(v: CellView<M, J>, c: CellRef, e: SysEvent, f: DrainFlags) -> (
    Seq<CellRef>,
    SysEvent,
) {
    match e {
        SysEvent::Spawn => (v.children, SysEvent::Spawn),
        SysEvent::Link(x) => if f.spawned {
            (seq![x], SysEvent::Spawn)
        } else {
            (Seq::empty(), SysEvent::Spawn)
        },
        SysEvent::Terminate => (Seq::empty(), SysEvent::Terminate),
        SysEvent::ChildTerminated(x) => {
            if completes(v, e, f) {
                match v.supervisor {
                    Some(p) => (seq![p], SysEvent::ChildTerminated(c)),
                    None => (Seq::empty(), SysEvent::ChildTerminated(c)),
                }
            } else {
                (Seq::empty(), SysEvent::ChildTerminated(c))
            }
        },
    }
}

/// True if draining `events` from the mailbox of cell `c`, which starts as
/// `v` with flags `f`, never reaches a state the runtime does not allow.
pub open spec fn drain_ok<M, J>(
    v: CellView<M, J>,
    c: CellRef,
    n: nat,
    events: Seq<SysEvent>,
    f: DrainFlags,
) -> bool
    decreases events.len(),
{
    if events.len() == 0 {
        true
    } else {
        let e = events[0];
        let f2 = flags_after(f, e);
        sys_step_ok(v, c, n, e, f2) && drain_ok(
            sys_step_cell(v, e, f2),
            c,
            n,
            events.drop_first(),
            f2,
        )
    }
}

/// The cell and the flags once `events` have been drained.
pub open spec fn drain_cell<M, J>(v: CellView<M, J>, events: Seq<SysEvent>, f: DrainFlags) -> (
    CellView<M, J>,
    DrainFlags,
)
    decreases events.len(),
{
    if events.len() == 0 {
        (v, f)
    } else {
        let e = events[0];
        let f2 = flags_after(f, e);
        drain_cell(sys_step_cell(v, e, f2), events.drop_first(), f2)
    }
}

} // verus!
