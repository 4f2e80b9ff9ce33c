//! The server as a mathematical object: its state, its invariant, and what each
//! event makes of it.
use crate::coroutine::{CoroutineView, State};
use crate::event::{EventSet, Token, RW};
use crate::mask;
use crate::slab::EventSource;
use crate::source::{Action, EventSourceShared, Io};
use crate::timer::{Timeout, Timer};
use vstd::prelude::*;

verus! {

/// Number of event sources that a server has room for.
pub const CAPACITY: usize = 1024;

/// What the server is waiting for.
#[derive(Copy, Clone, Debug, PartialEq, Eq, Structural)]
pub enum Phase {
    /// An event.
    Idle,
    /// Word of how it went with a coroutine that was resumed.
    Resumed { coroutine: u64 },
    /// Word of how it went with a coroutine that was started for the first time,
    /// on behalf of the one that spawned it.
    Starting { parent: u64, child: u64 },
}

/// What is to be done after the actions.
#[derive(Copy, Clone, Debug, PartialEq, Eq, Structural)]
pub enum Step {
    /// Resume the coroutine, and report how it went.
    Resume(u64),
    /// Wait for the next event.
    Done,
}

/// What a server is, mathematically.
#[verifier::ext_equal]
pub struct ServerView {
    /// All event sources, by token
    pub taken: Map<usize, EventSource>,
    /// The tokens that are free, in the order in which they will be given out
    pub free: Seq<usize>,
    /// All coroutines that have not ended, or whose sources take up tokens
    pub coroutines: Map<u64, CoroutineView>,
    /// A number that no coroutine has had
    pub next_id: u64,
    /// Number of coroutines that have been spawned and have not ended
    pub coroutines_no: u32,
    /// Number of events so far, modulo the range of the type
    pub tick: u32,
    /// What the server is waiting for
    pub phase: Phase,
}

/// A source as its coroutine knows it.
pub struct SourceView {
    /// The coroutine that wrapped the source
    pub coroutine: u64,
    /// How the event loop knows the source
    pub token: Token,
    /// Position among the sources of the coroutine
    pub index: nat,
}

/// A new state, and the actions on the way there.
#[verifier::ext_equal]
pub struct Outcome {
    pub server: ServerView,
    pub actions: Seq<Action>,
}

/// A new state, the actions on the way there, and what is to be done then.
#[verifier::ext_equal]
pub struct Reaction {
    pub server: ServerView,
    pub actions: Seq<Action>,
    pub step: Step,
}

/// The event loop is stopped when the last coroutine ends.
pub open spec fn shutdown_actions(coroutines_no: u32) -> Seq<Action> {
    if coroutines_no == 0 {
        seq![Action::Shutdown]
    } else {
        Seq::empty()
    }
}

impl ServerView {
    /// A server without coroutines.
    pub open spec fn initial() -> ServerView {
        ServerView {
            taken: Map::empty(),
            free: Seq::new(CAPACITY as nat, |i: int| i as usize),
            coroutines: Map::empty(),
            next_id: 0,
            coroutines_no: 0,
            tick: 0,
            phase: Phase::Idle,
        }
    }

    /// The coroutine that was resumed and has not been heard of since.
    pub open spec fn active(self) -> Option<u64> {
        match self.phase {
            Phase::Idle => None,
            Phase::Resumed { coroutine } => Some(coroutine),
            Phase::Starting { child, .. } => Some(child),
        }
    }

    /// Whether the server has yet to see to the coroutine, which was resumed or
    /// whose children are being started.
    pub open spec fn attends(self, id: u64) -> bool {
        match self.phase {
            Phase::Idle => false,
            Phase::Resumed { coroutine } => coroutine == id,
            Phase::Starting { parent, child } => parent == id || child == id,
        }
    }

    /// Whether the coroutine is among those that have yet to be started.
    pub open spec fn is_listed(self, id: u64) -> bool {
        exists|k: u64, j: int|
            #![trigger self.coroutines[k].children[j]]
            self.coroutines.contains_key(k) && 0 <= j < self.coroutines[k].children.len()
                && self.coroutines[k].children[j] == id
    }

    /// Whether the coroutine is the one that runs now.
    pub open spec fn runs(self, id: u64) -> bool {
        &&& self.active() == Some(id)
        &&& self.coroutines[id].state is Running
    }

    /// Each token is either taken or free.
    pub open spec fn slots_wf(self) -> bool {
        &&& self.free.no_duplicates()
        &&& forall|t: usize|
            #![trigger self.taken.contains_key(t)]
            #![trigger self.free.contains(t)]
            {
                &&& t < CAPACITY <==> self.taken.contains_key(t) || self.free.contains(t)
                &&& !(self.taken.contains_key(t) && self.free.contains(t))
            }
    }

    /// The source that a token stands for has that token.
    pub open spec fn taken_wf(self) -> bool {
        forall|t: usize| #[trigger]
            self.taken.contains_key(t) ==> {
                let source = self.taken[t];
                &&& self.coroutines.contains_key(source.coroutine)
                &&& source.index < self.coroutines[source.coroutine].io.len()
                &&& self.coroutines[source.coroutine].io[source.index as int].token.0 == t
            }
    }

    /// The token of a source stands for that source.
    pub open spec fn sources_wf(self) -> bool {
        forall|id: u64, i: int|
            #![trigger self.coroutines[id].io[i]]
            self.coroutines.contains_key(id) && 0 <= i < self.coroutines[id].io.len() ==> {
                let token = self.coroutines[id].io[i].token;
                &&& self.taken.contains_key(token.0)
                &&& self.taken[token.0].coroutine == id
                &&& self.taken[token.0].index == i
            }
    }

    /// Each coroutine keeps its own invariant.
    pub open spec fn coroutines_wf(self) -> bool {
        forall|id: u64| #[trigger]
            self.coroutines.contains_key(id) ==> {
                &&& self.coroutines[id].wf()
                &&& id < self.next_id
            }
    }

    /// A coroutine that is yet to be started is as it was when it was spawned.
    pub open spec fn children_wf(self) -> bool {
        forall|id: u64, j: int|
            #![trigger self.coroutines[id].children[j]]
            self.coroutines.contains_key(id) && 0 <= j < self.coroutines[id].children.len() ==> {
                let child = self.coroutines[id].children[j];
                &&& self.coroutines.contains_key(child)
                &&& self.coroutines[child] == CoroutineView::spawned()
                &&& self.active() != Some(child)
            }
    }

    /// A coroutine that is yet to be started will be started only once.
    pub open spec fn children_distinct(self) -> bool {
        forall|id1: u64, j1: int, id2: u64, j2: int|
            #![trigger self.coroutines[id1].children[j1], self.coroutines[id2].children[j2]]
            self.coroutines.contains_key(id1) && self.coroutines.contains_key(id2) && 0 <= j1
                < self.coroutines[id1].children.len() && 0 <= j2
                < self.coroutines[id2].children.len() && self.coroutines[id1].children[j1]
                == self.coroutines[id2].children[j2] ==> id1 == id2 && j1 == j2
    }

    /// Only the coroutine that was resumed can be running; others that are in that
    /// state have yet to be started.
    pub open spec fn phase_wf(self) -> bool {
        &&& self.active() matches Some(id) ==> self.coroutines.contains_key(id)
        &&& self.phase matches Phase::Starting { parent, child } ==> {
            &&& self.coroutines.contains_key(parent)
            &&& parent != child
            &&& !(self.coroutines[parent].state is Running)
        }
        &&& forall|id: u64| #[trigger]
            self.coroutines.contains_key(id) && self.active() != Some(id)
                && self.coroutines[id].state is Running ==> self.coroutines[id]
                == CoroutineView::spawned()
    }

    /// Whether the coroutine is as it may be while the server does not attend to it:
    /// all that it spawned have been started, and if it has ended, it is known only
    /// for its sources.
    pub open spec fn in_order(self, id: u64) -> bool {
        &&& self.coroutines[id].children.len() == 0
        &&& self.coroutines[id].state is Finished ==> self.coroutines[id].io.len() > 0
    }

    /// Each coroutine that the server does not attend to is in order.
    pub open spec fn attended_wf(self) -> bool {
        forall|id: u64| #[trigger]
            self.coroutines.contains_key(id) ==> self.attends(id) || self.in_order(id)
    }

    /// A coroutine that has yet to be started will be started.
    pub open spec fn unstarted_wf(self) -> bool {
        forall|id: u64| #[trigger]
            self.coroutines.contains_key(id) && self.active() != Some(id)
                && self.coroutines[id].state is Running ==> self.is_listed(id)
    }

    /// What holds of a server at any time.
    pub open spec fn wf(self) -> bool {
        &&& self.slots_wf()
        &&& self.taken_wf()
        &&& self.sources_wf()
        &&& self.coroutines_wf()
        &&& self.children_wf()
        &&& self.children_distinct()
        &&& self.phase_wf()
        &&& self.attended_wf()
        &&& self.unstarted_wf()
        &&& self.coroutines.dom().finite()
    }

    /// The server with another state of one coroutine.
    pub open spec fn with_coroutine(self, id: u64, coroutine: CoroutineView) -> ServerView {
        ServerView { coroutines: self.coroutines.insert(id, coroutine), ..self }
    }

    /// Whether the coroutine has ended, and is known only for its sources.
    pub open spec fn is_left_over(self, id: u64) -> bool {
        self.coroutines[id].state is Finished && !self.attends(id)
    }

    /// The server without a coroutine and its sources.
    pub open spec fn without_coroutine(self, id: u64) -> ServerView {
        let tokens = self.coroutines[id].tokens();
        ServerView {
            taken: self.taken.remove_keys(tokens.to_set()),
            free: tokens.reverse() + self.free,
            coroutines: self.coroutines.remove(id),
            ..self
        }
    }

    /// A coroutine that has been counted out before leaves the server together with
    /// its sources.
    pub open spec fn dropped(self, id: u64) -> Outcome {
        Outcome {
            server: self.without_coroutine(id),
            actions: self.coroutines[id].drop_actions() + seq![Action::Retire { coroutine: id }],
        }
    }

    /// A coroutine that has finished leaves the server together with its sources.
    pub open spec fn retired(self, id: u64) -> Outcome {
        let coroutine = self.coroutines[id];
        let coroutines_no = self.coroutines_no.wrapping_sub(1);
        Outcome {
            server: ServerView { coroutines_no, ..self.without_coroutine(id) },
            actions: coroutine.drop_actions() + shutdown_actions(coroutines_no)
                + seq![Action::Retire { coroutine: id }],
        }
    }

    /// What becomes of a coroutine that has blocked or finished: the event loop
    /// watches the sources that it is blocked on, or it leaves the server.
    pub open spec fn reregistered(self, id: u64) -> Outcome {
        let coroutine = self.coroutines[id];
        match coroutine.state {
            State::Finished => self.retired(id),
            State::BlockedOn(rw) => Outcome {
                server: self.with_coroutine(id, coroutine.settled()),
                actions: coroutine.settle_actions(rw),
            },
            State::Running => Outcome { server: self, actions: Seq::empty() },
        }
    }

    /// What becomes of a coroutine that failed when it was started: it is counted
    /// out, but stays known as long as one of its sources takes up a token.
    pub open spec fn child_failed(self, id: u64) -> Outcome {
        let coroutines_no = self.coroutines_no.wrapping_sub(1);
        if self.coroutines[id].io.len() == 0 {
            self.retired(id)
        } else {
            Outcome {
                server: ServerView { coroutines_no, ..self },
                actions: shutdown_actions(coroutines_no),
            }
        }
    }

    /// What a child has spawned is to be started on behalf of its parent, before
    /// what the parent has spawned besides.
    pub open spec fn handed_over(self, parent: u64, child: u64) -> ServerView {
        let from = self.coroutines[child];
        let to = self.coroutines[parent];
        self.with_coroutine(
            child,
            CoroutineView { children: Seq::empty(), ..from },
        ).with_coroutine(parent, CoroutineView { children: from.children + to.children, ..to })
    }

    /// The server after the coroutine that was resumed has blocked or returned, or
    /// after it has failed.
    pub open spec fn heard(self, ok: bool) -> ServerView {
        match self.active() {
            Some(id) => if ok {
                self
            } else {
                self.with_coroutine(id, self.coroutines[id].finished())
            },
            None => self,
        }
    }

    /// What follows once a coroutine has blocked or finished: those that it
    /// spawned are started one after the other, and then it is seen to itself.
    pub open spec fn after_resume(self, id: u64) -> Reaction {
        let coroutine = self.coroutines[id];
        if coroutine.children.len() > 0 {
            let child = coroutine.children[0];
            let rest = CoroutineView { children: coroutine.children.skip(1), ..coroutine };
            Reaction {
                server: ServerView {
                    phase: Phase::Starting { parent: id, child },
                    ..self.with_coroutine(id, rest)
                },
                actions: Seq::empty(),
                step: Step::Resume(child),
            }
        } else {
            let outcome = self.reregistered(id);
            Reaction {
                server: ServerView { phase: Phase::Idle, ..outcome.server },
                actions: outcome.actions,
                step: Step::Done,
            }
        }
    }

    /// What follows from word that the resumed coroutine has blocked or returned,
    /// or that it failed.
    pub open spec fn resumed(self, ok: bool) -> Reaction {
        match self.phase {
            Phase::Idle => Reaction { server: self, actions: Seq::empty(), step: Step::Done },
            Phase::Resumed { coroutine } => self.heard(ok).after_resume(coroutine),
            Phase::Starting { parent, child } => {
                let server = self.heard(ok).handed_over(parent, child);
                let outcome = if ok {
                    server.reregistered(child)
                } else {
                    server.child_failed(child)
                };
                let reaction = outcome.server.after_resume(parent);
                Reaction { actions: outcome.actions + reaction.actions, ..reaction }
            },
        }
    }

    /// The server one tick later.
    pub open spec fn ticked(self) -> ServerView {
        ServerView { tick: self.tick.wrapping_add(1), ..self }
    }

    /// What follows from an event on a source, in the current tick. If the coroutine
    /// has ended, it is dropped with its sources.
    pub open spec fn dispatched(self, source: EventSource, events: EventSet) -> Reaction {
        let id = source.coroutine;
        let index = source.index as int;
        let before = self.coroutines[id];
        let server = self.with_coroutine(id, before.told(index, events, self.tick));
        if before.woken_by(index, events, self.tick) {
            Reaction {
                server: ServerView { phase: Phase::Resumed { coroutine: id }, ..server },
                actions: Seq::empty(),
                step: Step::Resume(id),
            }
        } else if before.state is Finished {
            let outcome = server.dropped(id);
            Reaction { server: outcome.server, actions: outcome.actions, step: Step::Done }
        } else {
            server.after_resume(id)
        }
    }

    /// What follows from an event that the event loop reports. An event on a
    /// source that is no longer there is ignored.
    pub open spec fn ready(self, token: Token, events: EventSet) -> Reaction {
        match self.taken.get(token.0) {
            Some(source) => self.ticked().dispatched(source, events),
            None => Reaction { server: self.ticked(), actions: Seq::empty(), step: Step::Done },
        }
    }

    /// The source that a token stands for.
    pub open spec fn source(self, token: Token) -> EventSourceShared {
        let source = self.taken[token.0];
        self.coroutines[source.coroutine].io[source.index as int]
    }

    /// Whether a token stands for a timer.
    pub open spec fn is_timer(self, token: Token) -> bool {
        self.taken.contains_key(token.0) && self.source(token).io is Timer
    }

    /// The timer that a token stands for.
    pub open spec fn timer(self, token: Token) -> Timer {
        self.source(token).io->Timer_0
    }

    /// The server with another state of the timer that a token stands for.
    pub open spec fn with_timer(self, token: Token, timer: Timer) -> ServerView {
        let source = self.taken[token.0];
        let index = source.index as int;
        let coroutine = self.coroutines[source.coroutine];
        let io = coroutine.io.update(
            index,
            EventSourceShared { io: Io::Timer(timer), ..coroutine.io[index] },
        );
        self.with_coroutine(source.coroutine, CoroutineView { io, ..coroutine })
    }

    /// What follows from the notification of a timer. One that the timer does not
    /// expect any more is delivered as no event at all.
    pub open spec fn timeout(self, token: Token, iteration: u32) -> Reaction {
        match self.taken.get(token.0) {
            Some(source) => {
                let timer = self.timer(token);
                let events = if timer.expects(iteration) {
                    EventSet::spec_readable()
                } else {
                    EventSet::spec_none()
                };
                self.ticked().with_timer(token, timer.notified(iteration)).dispatched(
                    source,
                    events,
                )
            },
            None => Reaction { server: self.ticked(), actions: Seq::empty(), step: Step::Done },
        }
    }

    /// What follows from the event loop's answer to a request to start a timer.
    pub open spec fn timer_started(self, token: Token, answer: Option<Timeout>) -> ServerView {
        if self.is_timer(token) {
            self.with_timer(token, self.timer(token).started_with(answer))
        } else {
            self
        }
    }

    /// The server with one more coroutine, which has yet to be started.
    pub open spec fn with_spawned(self) -> ServerView {
        ServerView {
            coroutines: self.coroutines.insert(self.next_id, CoroutineView::spawned()),
            next_id: (self.next_id + 1) as u64,
            coroutines_no: self.coroutines_no.wrapping_add(1),
            ..self
        }
    }

    /// The server starts to run: its first coroutine is to be resumed.
    pub open spec fn started(self) -> Reaction {
        Reaction {
            server: ServerView {
                phase: Phase::Resumed { coroutine: self.next_id },
                ..self.with_spawned()
            },
            actions: Seq::empty(),
            step: Step::Resume(self.next_id),
        }
    }

    /// The coroutine `id` spawns another one.
    pub open spec fn spawned_by(self, id: u64) -> ServerView {
        let coroutine = self.coroutines[id];
        let children = coroutine.children.push(self.next_id);
        self.with_spawned().with_coroutine(id, CoroutineView { children, ..coroutine })
    }

    /// The token that is given out next.
    pub open spec fn next_token(self) -> Token {
        Token(self.free[0])
    }

    /// The coroutine `id` wraps an event source.
    pub open spec fn wrapped_by(self, id: u64, io: Io) -> ServerView {
        let coroutine = self.coroutines[id];
        let token = self.next_token();
        let source = EventSource { coroutine: id, index: coroutine.io.len() as usize };
        ServerView {
            taken: self.taken.insert(token.0, source),
            free: self.free.skip(1),
            ..self.with_coroutine(id, coroutine.with_source(token, io))
        }
    }

    /// The coroutine `id` waits for `rw` on the sources at the given positions.
    pub open spec fn blocked_by(self, id: u64, rw: RW, positions: Seq<nat>) -> ServerView {
        let coroutine = self.coroutines[id];
        self.with_coroutine(
            id,
            coroutine.blocked(rw, mask::bits_at(coroutine.blocked_on.len(), positions)),
        )
    }

    /// The coroutine `id` waits for `rw` on any of its sources.
    pub open spec fn blocked_by_all(self, id: u64, rw: RW) -> ServerView {
        self.blocked_by(id, rw, Seq::new(self.coroutines[id].io.len(), |i: int| i as nat))
    }

    /// The coroutine `id` returns.
    pub open spec fn finished_by(self, id: u64) -> ServerView {
        self.with_coroutine(id, self.coroutines[id].finished())
    }

    /// Whether the source is one of the server's.
    pub open spec fn holds(self, source: SourceView) -> bool {
        &&& self.taken.contains_key(source.token.0)
        &&& self.taken[source.token.0].coroutine == source.coroutine
        &&& self.taken[source.token.0].index == source.index
    }
}

} // verus!
