//! The packed state word of a cell.
//!
//! Bits 0..2 hold the scheduling state, bits 2..4 the lifecycle. The
//! transition functions here decide, from a state read out of the word, the
//! next state to store; the cell and the runtime apply them.
use vstd::prelude::*;

verus! {

/// Where a cell stands with respect to the scheduler.
#[derive(Clone, Copy, Debug, PartialEq, Eq, Structural)]
pub enum Schedule {
    Idle,
    Scheduled,
    Running,
    Pending,
}

/// Where a cell stands in its life.
#[derive(Clone, Copy, Debug, PartialEq, Eq, Structural)]
pub enum Lifecycle {
    New,
    Active,
    Terminating,
    Terminated,
}

/// Mask of the scheduling bits.
pub const SCHEDULE_MASK: usize = 3;

/// Position of the lifecycle bits.
pub const LIFECYCLE_OFFSET: usize = 2;

/// Mask of the lifecycle bits.
pub const LIFECYCLE_MASK: usize = 12;

/// The number that encodes a scheduling state.
pub open spec fn schedule_code(s: Schedule) -> nat {
    match s {
        Schedule::Idle => 0,
        Schedule::Scheduled => 1,
        Schedule::Running => 2,
        Schedule::Pending => 3,
    }
}

/// The number that encodes a lifecycle state (before it is shifted).
pub open spec fn lifecycle_code(l: Lifecycle) -> nat {
    match l {
        Lifecycle::New => 0,
        Lifecycle::Active => 1,
        Lifecycle::Terminating => 2,
        Lifecycle::Terminated => 3,
    }
}

/// The scheduling state that a code below four stands for.
pub open spec fn schedule_of_code(c: int) -> Schedule {
    if c == 0 {
        Schedule::Idle
    } else if c == 1 {
        Schedule::Scheduled
    } else if c == 2 {
        Schedule::Running
    } else {
        Schedule::Pending
    }
}

/// The lifecycle state that a code below four stands for.
pub open spec fn lifecycle_of_code(c: int) -> Lifecycle {
    if c == 0 {
        Lifecycle::New
    } else if c == 1 {
        Lifecycle::Active
    } else if c == 2 {
        Lifecycle::Terminating
    } else {
        Lifecycle::Terminated
    }
}

/// The scheduling state held in a state word.
pub open spec fn schedule_of(val: usize) -> Schedule {
    schedule_of_code(val as int % 4)
}

/// The lifecycle state held in a state word.
pub open spec fn lifecycle_of(val: usize) -> Lifecycle {
    lifecycle_of_code((val as int / 4) % 4)
}

impl Schedule {
    /// The code of this scheduling state.
    pub fn code(self) -> (r: usize)
        ensures
            r == schedule_code(self),
    {
        match self {
            Schedule::Idle => 0,
            Schedule::Scheduled => 1,
            Schedule::Running => 2,
            Schedule::Pending => 3,
        }
    }

    /// The scheduling state with the given code.
    pub fn from_code(c: usize) -> (r: Schedule)
        requires
            c < 4,
        ensures
            r == schedule_of_code(c as int),
            schedule_code(r) == c,
    {
        if c == 0 {
            Schedule::Idle
        } else if c == 1 {
            Schedule::Scheduled
        } else if c == 2 {
            Schedule::Running
        } else {
            Schedule::Pending
        }
    }
}

impl Lifecycle {
    /// The (unshifted) code of this lifecycle state.
    pub fn code(self) -> (r: usize)
        ensures
            r == lifecycle_code(self),
    {
        match self {
            Lifecycle::New => 0,
            Lifecycle::Active => 1,
            Lifecycle::Terminating => 2,
            Lifecycle::Terminated => 3,
        }
    }

    /// The lifecycle state with the given (unshifted) code.
    pub fn from_code(c: usize) -> (r: Lifecycle)
        requires
            c < 4,
        ensures
            r == lifecycle_of_code(c as int),
            lifecycle_code(r) == c,
    {
        if c == 0 {
            Lifecycle::New
        } else if c == 1 {
            Lifecycle::Active
        } else if c == 2 {
            Lifecycle::Terminating
        } else {
            Lifecycle::Terminated
        }
    }
}

/// A state word: a scheduling state and a lifecycle packed into an integer.
#[derive(Clone, Copy, Debug, PartialEq, Eq, Structural)]
pub struct State {
    pub val: usize,
}

proof fn lemma_schedule_bits(v: usize)
    ensures
        v & 3usize == v % 4,
        (v & 12usize) >> 2usize == (v / 4) % 4,
{
    assert(v & 3usize == v % 4) by (bit_vector);
    assert((v & 12usize) >> 2usize == (v / 4) % 4) by (bit_vector);
}

proof fn lemma_set_schedule_bits(v: usize, s: usize)
    requires
        s < 4,
    ensures
        ((v & !3usize) | s) % 4 == s,
        ((v & !3usize) | s) / 4 == v / 4,
{
    assert(((v & !3usize) | s) % 4 == s) by (bit_vector)
        requires
            s < 4,
    ;
    assert(((v & !3usize) | s) / 4 == v / 4) by (bit_vector)
        requires
            s < 4,
    ;
}

proof fn lemma_set_lifecycle_bits(v: usize, l: usize)
    requires
        l < 4,
    ensures
        l << 2usize == l * 4,
        ((v & !12usize) | (l << 2usize)) % 4 == v % 4,
        (((v & !12usize) | (l << 2usize)) / 4) % 4 == l,
        ((v & !12usize) | (l << 2usize)) / 16 == v / 16,
{
    assert(l << 2usize == l * 4) by (bit_vector)
        requires
            l < 4,
    ;
    assert(((v & !12usize) | (l << 2usize)) % 4 == v % 4) by (bit_vector)
        requires
            l < 4,
    ;
    assert((((v & !12usize) | (l << 2usize)) / 4) % 4 == l) by (bit_vector)
        requires
            l < 4,
    ;
    assert(((v & !12usize) | (l << 2usize)) / 16 == v / 16) by (bit_vector)
        requires
            l < 4,
    ;
}

impl State {
    /// The scheduling state that this word holds.
    pub open spec fn sched(self) -> Schedule {
        schedule_of(self.val)
    }

    /// The lifecycle state that this word holds.
    pub open spec fn life(self) -> Lifecycle {
        lifecycle_of(self.val)
    }

    /// This word with its scheduling bits set to `s`.
    pub open spec fn set_sched(self, s: Schedule) -> State {
        State { val: (self.val & !3usize) | (schedule_code(s) as usize) }
    }

    /// This word with its lifecycle bits set to `l`.
    pub open spec fn set_life(self, l: Lifecycle) -> State {
        State { val: (self.val & !12usize) | ((lifecycle_code(l) as usize) << 2usize) }
    }

    /// The state of a fresh cell: idle and new.
    pub fn new() -> (r: State)
        ensures
            r.val == 0,
            r.sched() == Schedule::Idle,
            r.life() == Lifecycle::New,
    {
        State { val: 0 }
    }

    /// The state held in a raw word.
    pub fn load(val: usize) -> (r: State)
        ensures
            r.val == val,
    {
        State { val }
    }

    /// The raw word.
    pub fn as_uint(&self) -> (r: usize)
        ensures
            r == self.val,
    {
        self.val
    }

    /// The scheduling state of the word.
    pub fn schedule(&self) -> (r: Schedule)
        ensures
            r == self.sched(),
    {
        proof {
            lemma_schedule_bits(self.val);
        }
        Schedule::from_code(self.val & SCHEDULE_MASK)
    }

    /// The word with its scheduling bits replaced; every other bit is kept.
    pub fn with_schedule(&self, schedule: Schedule) -> (r: State)
        ensures
            r == self.set_sched(schedule),
            r.sched() == schedule,
            r.life() == self.life(),
            r.val / 4 == self.val / 4,
    {
        let s = schedule.code();
        proof {
            lemma_set_schedule_bits(self.val, s);
        }
        State { val: (self.val & !SCHEDULE_MASK) | s }
    }

    /// The lifecycle state of the word.
    pub fn lifecycle(&self) -> (r: Lifecycle)
        ensures
            r == self.life(),
    {
        proof {
            lemma_schedule_bits(self.val);
        }
        Lifecycle::from_code((self.val & LIFECYCLE_MASK) >> LIFECYCLE_OFFSET)
    }

    /// The word with its lifecycle bits replaced; every other bit is kept.
    pub fn with_lifecycle(&self, lifecycle: Lifecycle) -> (r: State)
        ensures
            r == self.set_life(lifecycle),
            r.life() == lifecycle,
            r.sched() == self.sched(),
            r.val % 4 == self.val % 4,
            r.val / 16 == self.val / 16,
    {
        let l = lifecycle.code();
        proof {
            lemma_set_lifecycle_bits(self.val, l);
        }
        State { val: (self.val & !LIFECYCLE_MASK) | (l << LIFECYCLE_OFFSET) }
    }
}

} // verus!

verus! {

/// Setting the scheduling bits yields exactly the scheduling state that was
/// set, and leaves the lifecycle as it was.
pub proof fn lemma_set_sched(st: State, s: Schedule)
    ensures
        st.set_sched(s).sched() == s,
        st.set_sched(s).life() == st.life(),
{
    let c = schedule_code(s) as usize;
    lemma_set_schedule_bits(st.val, c);
}

/// Setting the lifecycle bits yields exactly the lifecycle that was set, and
/// leaves the scheduling state as it was.
pub proof fn lemma_set_life(st: State, l: Lifecycle)
    ensures
        st.set_life(l).life() == l,
        st.set_life(l).sched() == st.sched(),
{
    let c = lifecycle_code(l) as usize;
    lemma_set_lifecycle_bits(st.val, c);
}

/// Two states that hold the same scheduling state and lifecycle, and agree
/// on every other bit, are the same word.
pub proof fn lemma_state_determined(a: State, b: State)
    requires
        a.sched() == b.sched(),
        a.life() == b.life(),
        a.val / 16 == b.val / 16,
    ensures
        a == b,
{
    let x = a.val;
    let y = b.val;
    assert(x % 4 == y % 4);
    assert((x / 4) % 4 == (y / 4) % 4);
    assert(x == y) by (bit_vector)
        requires
            x % 4 == y % 4,
            (x / 4) % 4 == (y / 4) % 4,
            x / 16 == y / 16,
    ;
}

/// What delivering an event does to a cell's state: the next state, and
/// whether the cell has to be put on the run queue.
pub open spec fn schedule_step(s: State, spawning: bool) -> (State, bool) {
    match s.life() {
        Lifecycle::New => {
            if spawning {
                (s.set_sched(Schedule::Scheduled), true)
            } else {
                (s, false)
            }
        },
        Lifecycle::Active | Lifecycle::Terminating => {
            match s.sched() {
                Schedule::Idle => (s.set_sched(Schedule::Scheduled), true),
                Schedule::Running => (s.set_sched(Schedule::Pending), false),
                _ => (s, false),
            }
        },
        Lifecycle::Terminated => (s, false),
    }
}

/// The state at the end of a tick: a cell that got work while it ran, or
/// that has more work, is scheduled again; otherwise it goes idle.
pub open spec fn end_tick(s: State, reschedule: bool) -> State {
    if s.sched() == Schedule::Pending || reschedule {
        s.set_sched(Schedule::Scheduled)
    } else {
        s.set_sched(Schedule::Idle)
    }
}

/// The lifecycle after a request to terminate; defined for a cell that is
/// active or already terminating.
pub open spec fn terminate_step(s: State) -> State {
    if s.life() == Lifecycle::Active {
        s.set_life(Lifecycle::Terminating)
    } else {
        s
    }
}

} // verus!

verus! {

/// Setting the lifecycle bits keeps every bit above them.
pub proof fn lemma_set_life_high(st: State, l: Lifecycle)
    ensures
        st.set_life(l).val / 16 == st.val / 16,
{
    let c = lifecycle_code(l) as usize;
    lemma_set_lifecycle_bits(st.val, c);
}

} // verus!
