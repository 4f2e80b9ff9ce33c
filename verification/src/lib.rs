//! Cooperative scheduling of coroutines over asynchronous I/O events.
//!
//! A [`Server`] knows the coroutines that run in it and the event sources that
//! each of them has wrapped. It is told what happens (a source is ready, a
//! timeout expired, a coroutine blocked or returned) and answers with what to
//! do next: which coroutine to resume, and which sources to register with the
//! event loop. The event loop itself and the switching of stacks stay outside.

pub mod coroutine;
pub mod effects;
pub mod event;
pub mod handle;
pub mod history;
pub mod laws;
pub mod mailbox;
pub mod mask;
pub mod model;
pub mod requests;
pub mod scheduler;
pub mod server;
pub mod slab;
pub mod source;
pub mod steps;
pub mod tally;
pub mod timer;
pub mod upkeep;

pub use event::{EventSet, EventSourceIndex, LastEvent, Token, RW};
pub use handle::{MiocoHandle, TypedEventSource};
pub use mailbox::mailbox;
pub use scheduler::{start, Mioco};
pub use server::Server;
pub use timer::Timer;
