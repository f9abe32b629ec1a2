# astaire

A small actor system, verified with Verus.

Each actor lives in a *cell*. A cell has a user mailbox (messages and jobs),
a system mailbox (`Spawn`, `Link`, `Terminate`, `ChildTerminated`), a place
in a supervision tree, and a state word that packs its scheduling state
(`Idle`, `Scheduled`, `Running`, `Pending`) and its lifecycle (`New`,
`Active`, `Terminating`, `Terminated`). A worker takes cells off a run queue
and ticks them: a tick drains the system mailbox, hands at most one user
event to the actor, and puts the cell back on the queue when it has more
work. While an actor handles a message it may ask, through its `Context`,
for messages to be sent and for actors to be spawned (under itself unless
it names another supervisor); the runtime carries these out once the actor
is done.

Layout:

- `src/actor.rs` – the `Actor` and `Job` traits, and the `Context` an
  actor is handed with each message.
- `src/state.rs` – the state word and the transitions of its two fields.
- `src/cell.rs` – one cell: its state word, children, mailboxes, and the
  step that handles one system event.
- `src/runtime.rs` – the cells of a runtime, the run queue, ticks, spawning,
  start and shutdown; every operation is specified as a function on
  `RuntimeView`.
- `src/system.rs` – `System` and `ActorRef`, the entry points for users.
- `src/future.rs` – one-shot futures whose consumers are jobs queued on
  cells, or other futures.
- `src/arc.rs` – shared values with strong and weak counts.
- `src/queue.rs` – the `syncbox::LinkedQueue` calls the runtime makes.
- `src/laws.rs` – properties of the library as a whole, proved.
- `app/lib.rs` – a worker thread around a `System`, and the shutdown wait.
