//! What an actor is, what it may ask of the runtime while it handles a
//! message, and the two actors that every runtime starts with.
use vstd::prelude::*;
use crate::cell::CellRef;

verus! {

/// What an actor asks of the runtime while it handles a message.
pub enum Effect<A, M> {
    /// Send the message to the actor of the cell.
    Send(CellRef, M),
    /// Spawn the actor under the given supervisor; without one, under the
    /// actor that asks.
    Spawn(A, Option<CellRef>),
}

/// What an actor is handed with each message: the cell it runs in, and the
/// list of what it asks of the runtime, which the runtime carries out, in
/// order, once the actor is done.
pub struct Context<A, M> {
    pub cell: CellRef,
    pub effects: Vec<Effect<A, M>>,
}

impl<A, M> Context<A, M> {
    /// A context for a message handled in `cell`, with nothing asked yet.
    pub fn new(cell: CellRef) -> (r: Context<A, M>)
        ensures
            r.cell == cell,
            r.effects@ == Seq::<Effect<A, M>>::empty(),
    {
        Context { cell, effects: Vec::new() }
    }

    /// The cell of the actor that handles the message.
    pub fn current(&self) -> (r: CellRef)
        ensures
            r == self.cell,
    {
        self.cell
    }

    /// Asks for `msg` to be sent to the actor of `to`.
    pub fn send(&mut self, to: CellRef, msg: M)
        ensures
            final(self).cell == old(self).cell,
            final(self).effects@ == old(self).effects@.push(Effect::Send(to, msg)),
    {
        self.effects.push(Effect::Send(to, msg));
    }

    /// Asks for `actor` to be spawned under `supervisor`, or, without one,
    /// under the actor that asks.
    pub fn spawn(&mut self, actor: A, supervisor: Option<CellRef>)
        ensures
            final(self).cell == old(self).cell,
            final(self).effects@ == old(self).effects@.push(Effect::Spawn(actor, supervisor)),
    {
        self.effects.push(Effect::Spawn(actor, supervisor));
    }
}

/// An actor: state that handles the messages sent to it, one at a time.
pub trait Actor<Msg>: Sized {
    /// Called once, when the actor's cell is spawned, before any message.
    fn prepare(&mut self) {
    }

    /// Handles one message; what it asks of the runtime goes into `ctx`.
    fn receive(&mut self, msg: Msg, ctx: &mut Context<Self, Msg>);
}

/// A piece of work that runs in the context of a cell.
pub trait Job {
    fn run(self);
}

/// The root actor of a runtime: it supervises the user actor.
pub struct Init;

impl Actor<()> for Init {
    /// The runtime delivers no user messages to the root actor.
    fn receive(&mut self, _msg: (), _ctx: &mut Context<Init, ()>) {
    }
}

/// The actor under which actors spawned without a supervisor run.
pub struct User;

impl User {
    pub fn new() -> (r: User) {
        User
    }
}

impl Actor<()> for User {
    /// The runtime delivers no user messages to the user actor.
    fn receive(&mut self, _msg: (), _ctx: &mut Context<User, ()>) {
    }
}

} // verus!
