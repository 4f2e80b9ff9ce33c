# mioco

Scalable, asynchronous IO coroutine-based handling (aka MIO COroutines).

Coroutines use what looks like blocking IO. Whenever one of them would block, it is
suspended, and the event loop is asked to report when it can go on. `mioco` decides
which coroutine an event resumes, and what the event loop has to watch meanwhile.

## Layout

- `src/` is the scheduler, verified with [Verus](https://github.com/verus-lang/verus).
  It is a state machine: it is told of events and of what coroutines do, and answers
  with actions for the event loop and with the coroutine to resume next.
  - `event.rs` holds tokens, event sets and the events that coroutines are told about.
  - `model.rs` says what each event makes of a server, as mathematics.
  - `server.rs`, `coroutine.rs`, `source.rs`, `timer.rs`, `mailbox.rs` and `handle.rs`
    are the executable code, each function with a contract over that model;
    `scheduler.rs` starts a server with its first coroutine.
  - `mask.rs` and `slab.rs` hold the calls into `bit-vec` and `mio`, whose contracts
    are trusted.
  - `upkeep.rs` proves that every operation keeps the invariant of a server.
    `history.rs` describes sequences of operations, `steps.rs` takes the longer ones
    apart, and `laws.rs`, `tally.rs` and `requests.rs` prove what holds of all of them.
- `app/` runs the scheduler on a `mio` event loop, with the stacks of the
  `coroutine` crate.
- `tests/` runs the library on concrete events.
