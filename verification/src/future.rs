//! The core of a one-shot future: the value, once put, and the consumers
//! waiting for it.
use vstd::prelude::*;
use crate::actor::{Actor, Job};
use crate::asynchronous::Request;
use crate::cell::{CellRef, Event};
use crate::runtime::{dispatch_rt, Runtime, RuntimeView, ScheduledJob};

verus! {

/// Where a future stands.
pub enum FutureState<W> {
    /// No consumer waits yet.
    Pending,
    /// Consumers wait; a canceled waiter is `None`.
    ConsumerWait(Vec<Option<W>>),
    Complete,
    Canceled,
}

/// What the contracts see of a future's state.
pub enum StateView<W> {
    Pending,
    ConsumerWait(Seq<Option<W>>),
    Complete,
    Canceled,
}

impl<W> FutureState<W> {
    pub open spec fn view(&self) -> StateView<W> {
        match self {
            FutureState::Pending => StateView::Pending,
            FutureState::ConsumerWait(v) => StateView::ConsumerWait(v@),
            FutureState::Complete => StateView::Complete,
            FutureState::Canceled => StateView::Canceled,
        }
    }

    pub fn is_pending(&self) -> (r: bool)
        ensures
            r == (*self is Pending),
    {
        match self {
            FutureState::Pending => true,
            _ => false,
        }
    }

    pub fn is_canceled(&self) -> (r: bool)
        ensures
            r == (*self is Canceled),
    {
        match self {
            FutureState::Canceled => true,
            _ => false,
        }
    }

    /// True once the future is complete or canceled.
    pub fn is_ready(&self) -> (r: bool)
        ensures
            r == (*self is Complete || *self is Canceled),
    {
        match self {
            FutureState::Complete | FutureState::Canceled => true,
            _ => false,
        }
    }

    pub fn is_consumer_wait(&self) -> (r: bool)
        ensures
            r == (*self is ConsumerWait),
    {
        match self {
            FutureState::ConsumerWait(..) => true,
            _ => false,
        }
    }
}

/// The value slot of a future and its state.
pub struct Core<T, W> {
    pub val: Option<T>,
    pub state: FutureState<W>,
}

/// What the contracts see of a future's core.
pub struct CoreView<T, W> {
    pub val: Option<T>,
    pub state: StateView<W>,
}

/// The core once `v` is stored.
pub open spec fn core_put<T, W>(c: CoreView<T, W>, v: T) -> CoreView<T, W> {
    CoreView { val: Some(v), ..c }
}

/// The core once its value is taken out, and the value.
pub open spec fn core_take<T, W>(c: CoreView<T, W>) -> (CoreView<T, W>, T) {
    (CoreView { val: None, ..c }, c.val->0)
}

/// The core once the waiting consumers are taken over, and what is handed
/// over: the waiters, if any, else `Complete`. Either way the future is
/// complete afterwards.
pub open spec fn core_take_consumer_wait<T, W>(c: CoreView<T, W>) -> (CoreView<T, W>, StateView<W>) {
    match c.state {
        StateView::ConsumerWait(ws) => (
            CoreView { state: StateView::Complete, ..c },
            StateView::ConsumerWait(ws),
        ),
        _ => (CoreView { state: StateView::Complete, ..c }, StateView::Complete),
    }
}

/// The core once a consumer starts to wait, and the consumer's position.
pub open spec fn core_push_consumer_wait<T, W>(c: CoreView<T, W>, w: W) -> (CoreView<T, W>, nat) {
    match c.state {
        StateView::ConsumerWait(ws) => (
            CoreView { state: StateView::ConsumerWait(ws.push(Some(w))), ..c },
            ws.len(),
        ),
        _ => (CoreView { state: StateView::ConsumerWait(seq![Some(w)]), ..c }, 0),
    }
}

impl<T, W> Core<T, W> {
    pub open spec fn view(&self) -> CoreView<T, W> {
        CoreView { val: self.val, state: self.state.view() }
    }

    /// No value, no consumer.
    pub fn new() -> (r: Core<T, W>)
        ensures
            r.view() == (CoreView::<T, W> { val: None, state: StateView::Pending }),
    {
        Core { val: None, state: FutureState::Pending }
    }

    /// Stores the value; a future takes one value only.
    pub fn put(&mut self, val: T)
        requires
            old(self).val is None,
        ensures
            final(self).view() == core_put(old(self).view(), val),
    {
        self.val = Some(val);
    }

    /// Takes the value out.
    pub fn take(&mut self) -> (r: T)
        requires
            old(self).val is Some,
        ensures
            (final(self).view(), r) == core_take(old(self).view()),
    {
        let v = self.val.take();
        v.unwrap()
    }

    /// The waiting consumers, if any: the future becomes complete, and the
    /// list of waiters is handed over, or `Complete` where there is none.
    pub fn take_consumer_wait(&mut self) -> (r: FutureState<W>)
        ensures
            (final(self).view(), r.view()) == core_take_consumer_wait(old(self).view()),
    {
        if self.state.is_consumer_wait() {
            let mut waiters = FutureState::Complete;
            std::mem::swap(&mut waiters, &mut self.state);
            waiters
        } else {
            self.state = FutureState::Complete;
            FutureState::Complete
        }
    }

    /// Adds a waiting consumer; gives its position in the list.
    pub fn push_consumer_wait(&mut self, waiter: W) -> (r: usize)
        ensures
            (final(self).view(), r as nat) == core_push_consumer_wait(old(self).view(), waiter),
    {
        match &mut self.state {
            FutureState::ConsumerWait(vec) => {
                let ret = vec.len();
                vec.push(Some(waiter));
                return ret;
            },
            _ => {},
        }
        let mut waiters: Vec<Option<W>> = Vec::new();
        waiters.push(Some(waiter));
        assert(waiters@ =~= seq![Some(waiter)]);
        self.state = FutureState::ConsumerWait(waiters);
        0
    }
}

} // verus!

verus! {

/// A handle on a future of a `FutureTable`: its index there.
#[derive(Clone, Copy, Debug, PartialEq, Eq, Structural)]
pub struct FutureRef {
    pub id: usize,
}

/// A consumer waiting for a future's value: a job to queue on a cell, or
/// another future to pass the value on to.
pub enum Waiter<J> {
    Callback(ScheduledJob<J>),
    Link(FutureRef),
}

/// The futures of a system, indexed by `FutureRef`.
pub struct FutureTable<T, J> {
    cores: Vec<Core<T, Waiter<J>>>,
}

/// The consumer's end of a future.
pub struct Future {
    pub inner: FutureRef,
}

/// The producer's end of a future.
pub struct Completer {
    pub inner: FutureRef,
}

/// The consumer's end of a value that is put once.
pub type Val = Future;

/// The producer's end of a value that is put once.
pub type Producer = Completer;

/// What the contracts see of a table of futures.
pub type TableView<T, J> = Seq<CoreView<T, Waiter<J>>>;

impl<T, J> View for FutureTable<T, J> {
    type V = Seq<CoreView<T, Waiter<J>>>;

    closed spec fn view(&self) -> Seq<CoreView<T, Waiter<J>>> {
        self.cores@.map_values(|c: Core<T, Waiter<J>>| c.view())
    }
}

/// The table and the runtime once the value `v` is put into future `id`,
/// its waiting consumers are run in order (a job is queued on its cell, a
/// linked future gets the value put into it in turn), or `None` if a step
/// would fail: a future that has a value already, a link once the value is
/// gone, a job for a cell the runtime does not have, or a chain of links
/// longer than `fuel`.
pub open spec fn put_spec<T, M, J>(
    tv: Seq<CoreView<T, Waiter<J>>>,
    rt: RuntimeView<M, J>,
    id: nat,
    v: T,
    fuel: nat,
) -> Option<(Seq<CoreView<T, Waiter<J>>>, RuntimeView<M, J>)>
    decreases fuel, 0nat,
{
    if fuel == 0 || id >= tv.len() || tv[id as int].val is Some {
        None
    } else {
        let c1 = core_put(tv[id as int], v);
        let h = core_take_consumer_wait(c1);
        let tv1 = tv.update(id as int, h.0);
        match h.1 {
            StateView::ConsumerWait(ws) => run_waiters(tv1, rt, id, ws, (fuel - 1) as nat),
            _ => Some((tv1, rt)),
        }
    }
}

/// The table and the runtime once the consumers `ws` of future `id` have
/// been run in order (see `put_spec`).
pub open spec fn run_waiters<T, M, J>(
    tv: Seq<CoreView<T, Waiter<J>>>,
    rt: RuntimeView<M, J>,
    id: nat,
    ws: Seq<Option<Waiter<J>>>,
    fuel: nat,
) -> Option<(Seq<CoreView<T, Waiter<J>>>, RuntimeView<M, J>)>
    decreases fuel, ws.len(),
{
    if ws.len() == 0 {
        Some((tv, rt))
    } else {
        let first: Option<(Seq<CoreView<T, Waiter<J>>>, RuntimeView<M, J>)> = match ws[0] {
            None => Some((tv, rt)),
            Some(Waiter::Callback(sj)) => {
                if sj.cell.id < rt.cells.len() {
                    Some((tv, dispatch_rt(rt, sj.cell, Event::Exec(sj.job))))
                } else {
                    None
                }
            },
            Some(Waiter::Link(o)) => {
                if id < tv.len() && tv[id as int].val is Some {
                    let t = core_take(tv[id as int]);
                    put_spec(tv.update(id as int, t.0), rt, o.id as nat, t.1, fuel)
                } else {
                    None
                }
            },
        };
        match first {
            None => None,
            Some(p) => run_waiters(p.0, p.1, id, ws.drop_first(), fuel),
        }
    }
}

/// The table once a consumer waits for future `id`: if the future is
/// complete already, nothing changes (the consumer runs at once); else the
/// consumer is added to its waiters.
pub open spec fn ready_spec<T, J>(tv: Seq<CoreView<T, Waiter<J>>>, id: nat, w: Waiter<J>) -> (
    Seq<CoreView<T, Waiter<J>>>,
    bool,
) {
    let c = tv[id as int];
    if c.state is Complete || c.state is Canceled {
        (tv, true)
    } else {
        (tv.update(id as int, core_push_consumer_wait(c, w).0), false)
    }
}

/// The table and the runtime once future `from` is linked to future `to`:
/// if `from` is complete already, its value is taken out and put into `to`
/// (see `put_spec`: `to` completes and its consumers run); else `to` is added
/// to the waiters of `from`. `None` if a complete `from` has no value left or
/// the put into `to` would fail.
pub open spec fn link_spec<T, M, J>(
    tv: Seq<CoreView<T, Waiter<J>>>,
    rt: RuntimeView<M, J>,
    from: nat,
    to: nat,
    fuel: nat,
) -> Option<(Seq<CoreView<T, Waiter<J>>>, RuntimeView<M, J>)> {
    let c = tv[from as int];
    if c.state is Complete || c.state is Canceled {
        if c.val is Some {
            let t = core_take(c);
            put_spec(tv.update(from as int, t.0), rt, to, t.1, fuel)
        } else {
            None
        }
    } else {
        Some(
            (
                tv.update(
                    from as int,
                    core_push_consumer_wait(c, Waiter::Link(FutureRef { id: to as usize })).0,
                ),
                rt,
            ),
        )
    }
}

impl<T, J: Job> FutureTable<T, J> {
    /// A table without futures.
    pub fn new() -> (r: FutureTable<T, J>)
        ensures
            r@ == Seq::<CoreView<T, Waiter<J>>>::empty(),
    {
        let r = FutureTable { cores: Vec::new() };
        assert(r@ =~= Seq::<CoreView<T, Waiter<J>>>::empty());
        r
    }

    /// A new future, without value or consumer.
    fn new_core(&mut self) -> (r: FutureRef)
        ensures
            r.id == old(self)@.len(),
            final(self)@ == old(self)@.push(
                CoreView { val: None, state: StateView::<Waiter<J>>::Pending },
            ),
    {
        let id = self.cores.len();
        self.cores.push(Core::new());
        assert(self@ =~= old(self)@.push(
            CoreView { val: None, state: StateView::<Waiter<J>>::Pending },
        ));
        FutureRef { id }
    }

    /// A new future: its consumer's end and its producer's end.
    pub fn pair(&mut self) -> (r: (Future, Completer))
        ensures
            r.0.inner.id == old(self)@.len(),
            r.1.inner == r.0.inner,
            final(self)@ == old(self)@.push(
                CoreView { val: None, state: StateView::<Waiter<J>>::Pending },
            ),
    {
        let inner = self.new_core();
        (Future { inner }, Completer { inner })
    }

    /// A request carrying `msg` whose response is a new future, and the
    /// future through which the answer is seen.
    pub fn request<Msg>(&mut self, msg: Msg) -> (r: (Request<Msg, Future>, Future))
        ensures
            r.0.message == msg,
            r.0.response.value.inner.id == old(self)@.len(),
            r.1.inner == r.0.response.value.inner,
            final(self)@ == old(self)@.push(
                CoreView { val: None, state: StateView::<Waiter<J>>::Pending },
            ),
    {
        let inner = self.new_core();
        (Request::new(msg, Future { inner }), Future { inner })
    }

    proof fn lemma_update(&self, before: Seq<Core<T, Waiter<J>>>, i: int)
        requires
            0 <= i < before.len(),
            self.cores@.len() == before.len(),
            forall|j: int| 0 <= j < before.len() && j != i ==> self.cores@[j] == before[j],
        ensures
            self@ =~= before.map_values(|c: Core<T, Waiter<J>>| c.view()).update(
                i,
                self.cores@[i].view(),
            ),
    {
    }

    /// Takes the value out of future `id`.
    fn take_value(&mut self, id: usize) -> (r: T)
        requires
            id < old(self)@.len(),
            old(self)@[id as int].val is Some,
        ensures
            (final(self)@, r) == ({
                let t = core_take(old(self)@[id as int]);
                (old(self)@.update(id as int, t.0), t.1)
            }),
    {
        let ghost before = self.cores@;
        let r = self.cores[id].take();
        proof {
            self.lemma_update(before, id as int);
        }
        r
    }

    /// Puts `v` into future `id` and runs its waiting consumers (see
    /// `put_spec`).
    fn put_chain<A: Actor<M>, M>(
        &mut self,
        rt: &mut Runtime<A, M, J>,
        id: usize,
        v: T,
        Ghost(fuel): Ghost<nat>,
    )
        requires
            put_spec(old(self)@, old(rt)@, id as nat, v, fuel) is Some,
        ensures
            put_spec(old(self)@, old(rt)@, id as nat, v, fuel) == Some((final(self)@, final(rt)@)),
        decreases fuel, 0nat,
    {
        let ghost before = self.cores@;
        self.cores[id].put(v);
        let handed = self.cores[id].take_consumer_wait();
        proof {
            self.lemma_update(before, id as int);
        }
        match handed {
            FutureState::ConsumerWait(ws) => {
                self.run_waiters(rt, id, ws, Ghost((fuel - 1) as nat));
            },
            _ => {},
        }
    }

    /// Runs the consumers `ws` of future `id` in order (see `run_waiters`).
    fn run_waiters<A: Actor<M>, M>(
        &mut self,
        rt: &mut Runtime<A, M, J>,
        id: usize,
        ws: Vec<Option<Waiter<J>>>,
        Ghost(fuel): Ghost<nat>,
    )
        requires
            run_waiters(old(self)@, old(rt)@, id as nat, ws@, fuel) is Some,
        ensures
            run_waiters(old(self)@, old(rt)@, id as nat, ws@, fuel) == Some((final(self)@, final(rt)@)),
        decreases fuel, ws@.len(),
    {
        if ws.len() == 0 {
            return;
        }
        let ghost all = ws@;
        let mut rest = ws;
        let w = rest.remove(0);
        assert(rest@ =~= all.drop_first());
        match w {
            None => {},
            Some(Waiter::Callback(sj)) => {
                sj.call(rt);
            },
            Some(Waiter::Link(o)) => {
                let val = self.take_value(id);
                self.put_chain(rt, o.id, val, Ghost(fuel));
            },
        }
        self.run_waiters(rt, id, rest, Ghost(fuel));
    }

    /// Puts `val` into the future of `producer` and runs its consumers.
    pub fn put<A: Actor<M>, M>(&mut self, rt: &mut Runtime<A, M, J>, producer: Completer, val: T)
        requires
            put_spec(old(self)@, old(rt)@, producer.inner.id as nat, val, old(self)@.len() + 1) is Some,
        ensures
            put_spec(old(self)@, old(rt)@, producer.inner.id as nat, val, old(self)@.len() + 1)
                == Some((final(self)@, final(rt)@)),
    {
        let ghost fuel = (self@.len() + 1) as nat;
        self.put_chain(rt, producer.inner.id, val, Ghost(fuel));
    }

    /// Waits for the value of `future`: if it is complete, `job` runs at once
    /// (true); else `job` is to be queued on `cell` once the value is put.
    pub fn ready(&mut self, future: Future, cell: CellRef, job: J) -> (ran: bool)
        requires
            future.inner.id < old(self)@.len(),
        ensures
            (final(self)@, ran) == ready_spec(
                old(self)@,
                future.inner.id as nat,
                Waiter::Callback(ScheduledJob { cell, job }),
            ),
            ran ==> call_ensures(J::run, (job,), ()),
    {
        let id = future.inner.id;
        if self.cores[id].state.is_ready() {
            job.run();
            true
        } else {
            let ghost before = self.cores@;
            let _ = self.cores[id].push_consumer_wait(Waiter::Callback(cell.schedule(job)));
            proof {
                self.lemma_update(before, id as int);
            }
            false
        }
    }

    /// Passes the completion of `future` on to `other` (see `link_spec`).
    pub fn link<A: Actor<M>, M>(
        &mut self,
        rt: &mut Runtime<A, M, J>,
        future: Future,
        other: Future,
    )
        requires
            future.inner.id < old(self)@.len(),
            link_spec(
                old(self)@,
                old(rt)@,
                future.inner.id as nat,
                other.inner.id as nat,
                old(self)@.len() + 1,
            ) is Some,
        ensures
            link_spec(
                old(self)@,
                old(rt)@,
                future.inner.id as nat,
                other.inner.id as nat,
                old(self)@.len() + 1,
            ) == Some((final(self)@, final(rt)@)),
    {
        let ghost fuel = (self@.len() + 1) as nat;
        let id = future.inner.id;
        if self.cores[id].state.is_ready() {
            let val = self.take_value(id);
            self.put_chain(rt, other.inner.id, val, Ghost(fuel));
        } else {
            let ghost before = self.cores@;
            let _ = self.cores[id].push_consumer_wait(Waiter::Link(other.inner));
            proof {
                self.lemma_update(before, id as int);
            }
        }
    }

    /// Takes the value out of `future`; the future must have one.
    pub fn unwrap(&mut self, future: Future) -> (r: T)
        requires
            future.inner.id < old(self)@.len(),
            old(self)@[future.inner.id as int].val is Some,
        ensures
            (final(self)@, r) == ({
                let t = core_take(old(self)@[future.inner.id as int]);
                (old(self)@.update(future.inner.id as int, t.0), t.1)
            }),
    {
        self.take_value(future.inner.id)
    }
}

} // verus!
