//! The queues of `syncbox` that the runtime uses: each cell's system mailbox
//! and the scheduler's run queue.
//!
//! A `LinkedQueue` is shared through an `Arc` and changed through `&self`.
//! The runtime owns each of its queues alone and never clones one, so what a
//! queue holds changes only through the calls below; they take the queue by
//! `&mut` to say so.
use vstd::prelude::*;
use syncbox::LinkedQueue;
use crate::cell::SysEvent;
use crate::runtime::Op;

verus! {

#[verifier::external_type_specification]
#[verifier::external_body]
#[verifier::reject_recursive_types(T)]
pub struct ExLinkedQueue<T: Send>(LinkedQueue<T>);

/// The system events that a mailbox holds, oldest first.
pub uninterp spec fn sys_events_in(q: LinkedQueue<SysEvent>) -> Seq<SysEvent>;

/// The operations that a run queue holds, oldest first.
pub uninterp spec fn ops_in(q: LinkedQueue<Op>) -> Seq<Op>;

/// `LinkedQueue::new`: an empty queue.
#[verifier::external_body]
pub(crate) fn sys_queue_new() -> (q: LinkedQueue<SysEvent>)
    ensures
        sys_events_in(q) == Seq::<SysEvent>::empty(),
{
    LinkedQueue::new()
}

/// `LinkedQueue::put`: appends the event at the back. The queue is made with
/// capacity `usize::MAX` and keeps every item in a heap node of its own, so
/// it never fills up; `put` returns once the item is linked in.
#[verifier::external_body]
pub(crate) fn sys_queue_put(q: &mut LinkedQueue<SysEvent>, e: SysEvent)
    ensures
        sys_events_in(*final(q)) == sys_events_in(*old(q)).push(e),
{
    q.put(e)
}

/// `LinkedQueue::poll`: takes the oldest event out, or gives `None` when the
/// queue is empty (and leaves it so).
#[verifier::external_body]
pub(crate) fn sys_queue_poll(q: &mut LinkedQueue<SysEvent>) -> (r: Option<SysEvent>)
    ensures
        sys_events_in(*old(q)).len() == 0 ==> r is None && sys_events_in(*final(q)) == sys_events_in(
            *old(q),
        ),
        sys_events_in(*old(q)).len() > 0 ==> r == Some(sys_events_in(*old(q))[0])
            && sys_events_in(*final(q)) == sys_events_in(*old(q)).drop_first(),
{
    q.poll()
}

/// `LinkedQueue::new`: an empty queue.
#[verifier::external_body]
pub(crate) fn op_queue_new() -> (q: LinkedQueue<Op>)
    ensures
        ops_in(q) == Seq::<Op>::empty(),
{
    LinkedQueue::new()
}

/// `LinkedQueue::put`: appends the operation at the back (the queue never
/// fills up, as for the mailboxes).
#[verifier::external_body]
pub(crate) fn op_queue_put(q: &mut LinkedQueue<Op>, op: Op)
    ensures
        ops_in(*final(q)) == ops_in(*old(q)).push(op),
{
    q.put(op)
}

/// `LinkedQueue::poll`: takes the oldest operation out, or gives `None` when
/// the queue is empty (and leaves it so).
#[verifier::external_body]
pub(crate) fn op_queue_poll(q: &mut LinkedQueue<Op>) -> (r: Option<Op>)
    ensures
        ops_in(*old(q)).len() == 0 ==> r is None && ops_in(*final(q)) == ops_in(*old(q)),
        ops_in(*old(q)).len() > 0 ==> r == Some(ops_in(*old(q))[0]) && ops_in(*final(q)) == ops_in(
            *old(q),
        ).drop_first(),
{
    q.poll()
}

} // verus!
