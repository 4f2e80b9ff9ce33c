//! Histories: everything that can happen to a server, one operation after the
//! other.
use crate::event::{EventSet, Token, RW};
use crate::model::ServerView;
use crate::source::{Action, Io};
use crate::timer::Timeout;
use vstd::prelude::*;

verus! {

/// Something that can happen to a server.
#[verifier::ext_equal]
pub enum Operation {
    /// It starts to run.
    Start,
    /// The event loop reports an event.
    Ready { token: Token, events: EventSet },
    /// The event loop notifies a timer.
    Timeout { token: Token, iteration: u32 },
    /// The event loop answers a request to start a timer.
    TimerStarted { token: Token, answer: Option<Timeout> },
    /// The resumed coroutine has blocked or returned, or has failed.
    Resumed { ok: bool },
    /// The running coroutine spawns another one.
    Spawn { id: u64 },
    /// The running coroutine wraps an event source.
    Wrap { id: u64, io: Io },
    /// The running coroutine waits.
    Block { id: u64, rw: RW, positions: Seq<nat> },
    /// The running coroutine returns.
    Finish { id: u64 },
    /// A timer is reset.
    Reset { token: Token },
}

impl ServerView {
    /// Whether the operation can happen now.
    pub open spec fn allows(self, op: Operation) -> bool {
        match op {
            Operation::Start => self.phase is Idle && self.next_id < u64::MAX,
            Operation::Ready { .. } => self.phase is Idle,
            Operation::Timeout { token, .. } => {
                &&& self.phase is Idle
                &&& self.taken.contains_key(token.0) ==> self.is_timer(token)
            },
            Operation::TimerStarted { .. } => true,
            Operation::Resumed { ok } => {
                &&& self.active() matches Some(id)
                &&& ok ==> !(self.coroutines[id].state is Running)
            },
            Operation::Spawn { id } => self.runs(id) && self.next_id < u64::MAX,
            Operation::Wrap { id, io } => self.runs(id) && self.free.len() > 0 && io.wf(),
            Operation::Block { id, .. } => self.runs(id),
            Operation::Finish { id } => self.runs(id),
            Operation::Reset { token } => self.is_timer(token),
        }
    }

    /// The server after the operation.
    pub open spec fn after(self, op: Operation) -> ServerView {
        match op {
            Operation::Start => self.started().server,
            Operation::Ready { token, events } => self.ready(token, events).server,
            Operation::Timeout { token, iteration } => self.timeout(token, iteration).server,
            Operation::TimerStarted { token, answer } => self.timer_started(token, answer),
            Operation::Resumed { ok } => self.resumed(ok).server,
            Operation::Spawn { id } => self.spawned_by(id),
            Operation::Wrap { id, io } => self.wrapped_by(id, io),
            Operation::Block { id, rw, positions } => self.blocked_by(id, rw, positions),
            Operation::Finish { id } => self.finished_by(id),
            Operation::Reset { token } => self.with_timer(token, self.timer(token).spec_reset()),
        }
    }

    /// What the server asks for on account of the operation.
    pub open spec fn asks(self, op: Operation) -> Seq<Action> {
        match op {
            Operation::Ready { token, events } => self.ready(token, events).actions,
            Operation::Timeout { token, iteration } => self.timeout(token, iteration).actions,
            Operation::Resumed { ok } => self.resumed(ok).actions,
            _ => Seq::empty(),
        }
    }

    /// Whether the operations can happen one after the other.
    pub open spec fn allows_all(self, ops: Seq<Operation>) -> bool
        decreases ops.len(),
    {
        ops.len() > 0 ==> {
            &&& self.allows_all(ops.drop_last())
            &&& self.after_all(ops.drop_last()).allows(ops.last())
        }
    }

    /// The server after all of the operations.
    pub open spec fn after_all(self, ops: Seq<Operation>) -> ServerView
        decreases ops.len(),
    {
        if ops.len() == 0 {
            self
        } else {
            self.after_all(ops.drop_last()).after(ops.last())
        }
    }

    /// Every coroutine that waits, and that has been seen to, has the event loop
    /// watch exactly the sources that it is blocked on.
    pub open spec fn waits_are_watched(self) -> bool {
        forall|id: u64| #[trigger]
            self.coroutines.contains_key(id) && self.coroutines[id].state is BlockedOn
                && !self.attends(id) ==> self.coroutines[id].registered
                == self.coroutines[id].blocked_on
    }

    /// Each coroutine has only ever waited for sources of its own.
    pub open spec fn tidy(self) -> bool {
        forall|id: u64| #[trigger]
            self.coroutines.contains_key(id) ==> self.coroutines[id].tidy()
    }

    /// Whether the operation keeps to what a coroutine owns: it waits for sources
    /// of its own, wraps timers that have not been started, and the event loop
    /// answers only for timers that it has been asked to start.
    pub open spec fn is_tidy(self, op: Operation) -> bool {
        match op {
            Operation::Block { id, positions, .. } => forall|k: int|
                0 <= k < positions.len() ==> #[trigger] positions[k]
                    < self.coroutines[id].io.len(),
            Operation::Wrap { io, .. } => io matches Io::Timer(timer) ==> timer.status is Stopped,
            Operation::TimerStarted { token, .. } => self.is_timer(token) ==> self.source(
                token,
            ).registered,
            _ => true,
        }
    }

    /// No coroutine has been told of an event later than the last one.
    pub open spec fn ticks_wf(self) -> bool {
        forall|id: u64| #[trigger]
            self.coroutines.contains_key(id) ==> self.coroutines[id].last_tick <= self.tick
                || self.coroutines[id].last_tick == u32::MAX
    }

    /// The coroutines that have not ended.
    pub open spec fn live(self) -> Set<u64> {
        self.coroutines.dom().filter(|id: u64| !self.is_left_over(id))
    }

    /// The server knows how many coroutines have not ended, as far as its counter
    /// reaches.
    pub open spec fn counted(self) -> bool {
        self.coroutines_no == self.live().len() % 0x1_0000_0000
    }
}

} // verus!
