//! The server: it decides which coroutine an event resumes, and what the event
//! loop has to watch afterwards.
use crate::coroutine::{mask_len, Coroutine, State};
use crate::event::{EventSet, EventSourceIndex, LastEvent, Token, RW};
use crate::mask;
use crate::model::{shutdown_actions, Phase, ServerView, Step, CAPACITY};
use crate::slab::{free, taken, EventSource, Sources};
use crate::source::{Action, Io};
use crate::timer::{Timeout, Timer, TimerStatus};
use crate::upkeep;
use std::collections::HashMap;
use vstd::prelude::*;

verus! {

/// `Server` that is told of events and decides what they lead to.
pub struct Server {
    /// Slab allocator
    sources: Sources,
    /// All coroutines that have not ended, or whose sources take up tokens, by number
    coroutines: HashMap<u64, Coroutine>,
    /// A number that no coroutine has had
    next_id: u64,
    /// Number of `Coroutine`-s running in the `Server`.
    coroutines_no: u32,
    /// Number of events so far
    tick: u32,
    /// What the server is waiting for
    phase: Phase,
}

impl View for Server {
    type V = ServerView;

    closed spec fn view(&self) -> ServerView {
        ServerView {
            taken: taken(self.sources),
            free: free(self.sources),
            coroutines: self.coroutines@.map_values(|c: Coroutine| c@),
            next_id: self.next_id,
            coroutines_no: self.coroutines_no,
            tick: self.tick,
            phase: self.phase,
        }
    }
}

impl Server {
    /// What holds of a server at any time.
    pub open spec fn wf(&self) -> bool {
        self@.wf()
    }

    /// A server without coroutines.
    pub fn new() -> (r: Server)
        ensures
            r.wf(),
            r@ == ServerView::initial(),
    {
        let r = Server {
            sources: Sources::new(CAPACITY),
            coroutines: HashMap::new(),
            next_id: 0,
            coroutines_no: 0,
            tick: 0,
            phase: Phase::Idle,
        };
        proof {
            upkeep::initial_is_wf();
            assert(r@ =~= ServerView::initial());
        }
        r
    }

    /// Takes the coroutine `id` out, to be changed and put back.
    fn take(&mut self, id: u64) -> (coroutine: Coroutine)
        requires
            old(self)@.coroutines.contains_key(id),
        ensures
            coroutine@ == old(self)@.coroutines[id],
            final(self)@ == (ServerView {
                coroutines: old(self)@.coroutines.remove(id),
                ..old(self)@
            }),
    {
        broadcast use vstd::std_specs::hash::group_hash_axioms;

        let coroutine = self.coroutines.remove(&id).unwrap();
        assert(self@ =~= ServerView {
            coroutines: old(self)@.coroutines.remove(id),
            ..old(self)@
        });
        coroutine
    }

    /// Puts the coroutine `id` in.
    fn put(&mut self, id: u64, coroutine: Coroutine)
        ensures
            final(self)@ == old(self)@.with_coroutine(id, coroutine@),
    {
        broadcast use vstd::std_specs::hash::group_hash_axioms;

        self.coroutines.insert(id, coroutine);
        assert(self@ =~= old(self)@.with_coroutine(id, coroutine@));
    }

    /// Counts out a coroutine, and stops the event loop if it was the last one.
    fn count_out(&mut self, actions: &mut Vec<Action>)
        ensures
            final(self)@ == (ServerView {
                coroutines_no: old(self)@.coroutines_no.wrapping_sub(1),
                ..old(self)@
            }),
            final(actions)@ == old(actions)@ + shutdown_actions(
                old(self)@.coroutines_no.wrapping_sub(1),
            ),
    {
        self.coroutines_no = self.coroutines_no.wrapping_sub(1);
        if self.coroutines_no == 0 {
            actions.push(Action::Shutdown);
        }
        assert(actions@ =~= old(actions)@ + shutdown_actions(self.coroutines_no));
    }

    /// Sees to a coroutine that has blocked or finished.
    fn reregister(&mut self, id: u64, actions: &mut Vec<Action>)
        requires
            old(self).wf(),
            old(self)@.coroutines.contains_key(id),
        ensures
            final(self)@ == old(self)@.reregistered(id).server,
            final(actions)@ == old(actions)@ + old(self)@.reregistered(id).actions,
    {
        let ghost s = self@;
        let mut coroutine = self.take(id);
        match coroutine.state() {
            State::Finished => {
                proof {
                    upkeep::lemma_tokens(s, id);
                }
                coroutine.deregister_all(&mut self.sources, actions);
                self.count_out(actions);
                actions.push(Action::Retire { coroutine: id });
                assert(self@ =~= s.retired(id).server);
                assert(actions@ =~= old(actions)@ + s.retired(id).actions);
            },
            State::BlockedOn(rw) => {
                coroutine.reregister_blocked_on(rw, actions);
                self.put(id, coroutine);
                assert(self@ =~= s.reregistered(id).server);
            },
            State::Running => {
                self.put(id, coroutine);
                assert(self@ =~= s);
                assert(actions@ =~= old(actions)@ + s.reregistered(id).actions);
            },
        }
    }

    /// Sees to a coroutine that failed when it was started.
    fn child_failed(&mut self, id: u64, actions: &mut Vec<Action>)
        requires
            old(self).wf(),
            old(self)@.coroutines.contains_key(id),
            old(self)@.coroutines[id].state is Finished,
        ensures
            final(self)@ == old(self)@.child_failed(id).server,
            final(actions)@ == old(actions)@ + old(self)@.child_failed(id).actions,
    {
        let ghost s = self@;
        let coroutine = self.take(id);
        let sources_no = coroutine.sources_no();
        self.put(id, coroutine);
        assert(self@ =~= s);
        if sources_no == 0 {
            self.reregister(id, actions);
        } else {
            self.count_out(actions);
        }
    }

    /// Drops a coroutine that has been counted out before, with its sources.
    fn drop_coroutine(&mut self, id: u64, actions: &mut Vec<Action>)
        requires
            old(self).wf(),
            old(self)@.coroutines.contains_key(id),
        ensures
            final(self)@ == old(self)@.dropped(id).server,
            final(actions)@ == old(actions)@ + old(self)@.dropped(id).actions,
    {
        let ghost s = self@;
        proof {
            upkeep::lemma_tokens(s, id);
        }
        let mut coroutine = self.take(id);
        coroutine.deregister_all(&mut self.sources, actions);
        actions.push(Action::Retire { coroutine: id });
        assert(self@ =~= s.dropped(id).server);
        assert(actions@ =~= old(actions)@ + s.dropped(id).actions);
    }

    /// Takes note that the coroutine `id`, which was resumed, has failed.
    fn fail(&mut self, id: u64)
        requires
            old(self).wf(),
            old(self)@.active() == Some(id),
        ensures
            final(self)@ == old(self)@.heard(false),
    {
        assert(self@.coroutines.contains_key(id));
        let mut coroutine = self.take(id);
        coroutine.finish();
        self.put(id, coroutine);
        assert(self@ =~= old(self)@.heard(false));
    }

    /// Lets the parent start what the child has spawned.
    fn hand_over(&mut self, parent: u64, child: u64)
        requires
            old(self)@.coroutines.contains_key(parent),
            old(self)@.coroutines.contains_key(child),
            parent != child,
        ensures
            final(self)@ == old(self)@.handed_over(parent, child),
    {
        let mut from = self.take(child);
        let mut to = self.take(parent);
        to.adopt(&mut from);
        self.put(child, from);
        self.put(parent, to);
        assert(self@ =~= old(self)@.handed_over(parent, child));
    }

    /// After a coroutine was resumed, it has blocked or finished. If there were
    /// any newly spawned child-coroutines: start them now. Then see to the
    /// coroutine itself.
    fn after_resume(&mut self, id: u64, actions: &mut Vec<Action>) -> (step: Step)
        requires
            old(self).wf(),
            old(self)@.coroutines.contains_key(id),
        ensures
            final(self)@ == old(self)@.after_resume(id).server,
            final(actions)@ == old(actions)@ + old(self)@.after_resume(id).actions,
            step == old(self)@.after_resume(id).step,
    {
        let ghost s = self@;
        let mut coroutine = self.take(id);
        let next = coroutine.pop_child();
        self.put(id, coroutine);
        match next {
            Some(child) => {
                self.phase = Phase::Starting { parent: id, child };
                assert(self@ =~= s.after_resume(id).server);
                assert(actions@ =~= old(actions)@ + s.after_resume(id).actions);
                Step::Resume(child)
            },
            None => {
                assert(self@ =~= s);
                self.reregister(id, actions);
                self.phase = Phase::Idle;
                assert(self@ =~= s.after_resume(id).server);
                Step::Done
            },
        }
    }

    /// Takes word that the resumed coroutine has blocked or returned (`ok`), or
    /// that it failed.
    pub fn resumed(&mut self, ok: bool, actions: &mut Vec<Action>) -> (step: Step)
        requires
            old(self).wf(),
            old(self)@.active() matches Some(id) && (ok ==> !(
            old(self)@.coroutines[id].state is Running)),
        ensures
            final(self).wf(),
            final(self)@ == old(self)@.resumed(ok).server,
            final(actions)@ == old(actions)@ + old(self)@.resumed(ok).actions,
            step == old(self)@.resumed(ok).step,
    {
        let ghost s = self@;
        proof {
            upkeep::resumed_keeps_wf(s, ok);
            upkeep::lemma_heard(s, ok);
        }
        match self.phase {
            Phase::Idle => Step::Done,
            Phase::Resumed { coroutine: id } => {
                if !ok {
                    self.fail(id);
                }
                self.after_resume(id, actions)
            },
            Phase::Starting { parent, child } => {
                if !ok {
                    self.fail(child);
                }
                // The child may have spawned coroutines, too: start them next.
                self.hand_over(parent, child);
                let ghost u = self@;
                proof {
                    upkeep::lemma_handed_over(s.heard(ok));
                    if ok {
                        upkeep::lemma_child_seen_to(u);
                    } else {
                        upkeep::lemma_child_failed(u);
                    }
                }
                if ok {
                    self.reregister(child, actions);
                } else {
                    self.child_failed(child, actions);
                }
                let ghost t = self@;
                self.phase = Phase::Resumed { coroutine: parent };
                proof {
                    assert(self@ =~= ServerView {
                        phase: Phase::Resumed { coroutine: parent },
                        ..t
                    });
                    assert(self@.after_resume(parent) == t.after_resume(parent));
                }
                let step = self.after_resume(parent, actions);
                assert(actions@ =~= old(actions)@ + s.resumed(ok).actions);
                step
            },
        }
    }

    /// The source that a token stands for.
    fn lookup(&self, token: Token) -> (r: Option<EventSource>)
        requires
            self.wf(),
        ensures
            r == self@.taken.get(token.0),
    {
        if token.0 < CAPACITY {
            assert(self@.taken.contains_key(token.0) || self@.free.contains(token.0));
            self.sources.get(token)
        } else {
            assert(!self@.taken.contains_key(token.0));
            None
        }
    }

    /// Tells a coroutine of an event on one of its sources, in the current tick.
    fn dispatch(&mut self, source: EventSource, events: EventSet, actions: &mut Vec<Action>) -> (step:
        Step)
        requires
            old(self).wf(),
            old(self)@.phase is Idle,
            old(self)@.coroutines.contains_key(source.coroutine),
            source.index < old(self)@.coroutines[source.coroutine].io.len(),
        ensures
            final(self)@ == old(self)@.dispatched(source, events).server,
            final(actions)@ == old(actions)@ + old(self)@.dispatched(source, events).actions,
            step == old(self)@.dispatched(source, events).step,
    {
        let ghost s = self@;
        let id = source.coroutine;
        let mut coroutine = self.take(id);
        let woken = coroutine.tell(source.index, events, self.tick);
        let state = coroutine.state();
        self.put(id, coroutine);
        self.phase = Phase::Resumed { coroutine: id };
        if woken {
            assert(self@ =~= s.dispatched(source, events).server);
            assert(actions@ =~= old(actions)@ + s.dispatched(source, events).actions);
            Step::Resume(id)
        } else if state == State::Finished {
            proof {
                upkeep::lemma_told(s, source, events);
            }
            self.drop_coroutine(id, actions);
            self.phase = Phase::Idle;
            assert(self@ =~= s.dispatched(source, events).server);
            assert(actions@ =~= old(actions)@ + s.dispatched(source, events).actions);
            Step::Done
        } else {
            proof {
                upkeep::lemma_told(s, source, events);
                let t = s.with_coroutine(
                    id,
                    s.coroutines[id].told(source.index as int, events, s.tick),
                );
                assert(self@ =~= ServerView { phase: Phase::Resumed { coroutine: id }, ..t });
                assert(self@.after_resume(id) == t.after_resume(id));
            }
            self.after_resume(id, actions)
        }
    }

    /// Takes word that the source with that token is ready for `events`.
    pub fn ready(&mut self, token: Token, events: EventSet, actions: &mut Vec<Action>) -> (step: Step)
        requires
            old(self).wf(),
            old(self)@.phase is Idle,
        ensures
            final(self).wf(),
            final(self)@ == old(self)@.ready(token, events).server,
            final(actions)@ == old(actions)@ + old(self)@.ready(token, events).actions,
            step == old(self)@.ready(token, events).step,
    {
        let ghost s = self@;
        proof {
            upkeep::ready_keeps_wf(s, token, events);
            upkeep::lemma_same_parts(s, s.ticked());
        }
        self.tick = self.tick.wrapping_add(1);
        assert(self@ =~= s.ticked());
        // It's possible we got an event for a source that was deregistered
        // by finished coroutine. In case the token is already occupied by
        // different source, we will wake it up needlessly. If it's empty, we just
        // ignore the event.
        match self.lookup(token) {
            Some(source) => self.dispatch(source, events, actions),
            None => {
                assert(actions@ =~= old(actions)@ + s.ready(token, events).actions);
                Step::Done
            },
        }
    }

    /// Takes word that a message arrived for the source with that token.
    pub fn notify(&mut self, token: Token, actions: &mut Vec<Action>) -> (step: Step)
        requires
            old(self).wf(),
            old(self)@.phase is Idle,
        ensures
            final(self).wf(),
            final(self)@ == old(self)@.ready(token, EventSet::spec_readable()).server,
            final(actions)@ == old(actions)@ + old(self)@.ready(
                token,
                EventSet::spec_readable(),
            ).actions,
            step == old(self)@.ready(token, EventSet::spec_readable()).step,
    {
        self.ready(token, EventSet::readable(), actions)
    }

    /// Takes word that a timeout completed, which was asked for in the given
    /// iteration of the timer with that token.
    ///
    /// A notification that was pending when the timer was reset is ignored: it
    /// leaves the timer as it is.
    pub fn timeout(&mut self, token: Token, iteration: u32, actions: &mut Vec<Action>) -> (step: Step)
        requires
            old(self).wf(),
            old(self)@.phase is Idle,
            old(self)@.taken.contains_key(token.0) ==> old(self)@.is_timer(token),
        ensures
            final(self).wf(),
            final(self)@ == old(self)@.timeout(token, iteration).server,
            final(actions)@ == old(actions)@ + old(self)@.timeout(token, iteration).actions,
            step == old(self)@.timeout(token, iteration).step,
    {
        let ghost s = self@;
        proof {
            upkeep::timeout_keeps_wf(s, token, iteration);
            upkeep::lemma_same_parts(s, s.ticked());
        }
        self.tick = self.tick.wrapping_add(1);
        assert(self@ =~= s.ticked());
        match self.lookup(token) {
            Some(source) => {
                let mut coroutine = self.take(source.coroutine);
                let mut events = EventSet::none();
                if let Io::Timer(mut timer) = coroutine.source(source.index).io {
                    if timer.status == TimerStatus::Running && timer.iteration == iteration {
                        events = EventSet::readable();
                        timer.fired();
                    }
                    coroutine.set_io(source.index, Io::Timer(timer));
                }
                self.put(source.coroutine, coroutine);
                proof {
                    let t = s.ticked().with_timer(token, s.timer(token).notified(iteration));
                    upkeep::lemma_notified(s, token, iteration);
                    assert(self@ =~= t);
                }
                self.dispatch(source, events, actions)
            },
            None => {
                assert(actions@ =~= old(actions)@ + s.timeout(token, iteration).actions);
                Step::Done
            },
        }
    }

    /// Takes the event loop's answer to a request to start the timer with that
    /// token: the timeout that it accepted, or `None` where it refused.
    pub fn timer_started(&mut self, token: Token, answer: Option<Timeout>)
        requires
            old(self).wf(),
        ensures
            final(self).wf(),
            final(self)@ == old(self)@.timer_started(token, answer),
    {
        let ghost s = self@;
        proof {
            upkeep::timer_started_keeps_wf(s, token, answer);
        }
        if let Some(source) = self.lookup(token) {
            let mut coroutine = self.take(source.coroutine);
            if let Io::Timer(mut timer) = coroutine.source(source.index).io {
                timer.started(answer);
                coroutine.set_io(source.index, Io::Timer(timer));
            }
            self.put(source.coroutine, coroutine);
        }
        assert(self@ =~= s.timer_started(token, answer));
    }

    /// Starts to run: the first coroutine is to be resumed.
    pub fn start(&mut self) -> (step: Step)
        requires
            old(self).wf(),
            old(self)@.phase is Idle,
            old(self)@.next_id < u64::MAX,
        ensures
            final(self).wf(),
            final(self)@ == old(self)@.started().server,
            step == old(self)@.started().step,
    {
        let ghost s = self@;
        proof {
            upkeep::started_keeps_wf(s);
        }
        let id = self.add_coroutine();
        self.phase = Phase::Resumed { coroutine: id };
        assert(self@ =~= s.started().server);
        Step::Resume(id)
    }

    /// Adds a coroutine that has yet to be started.
    fn add_coroutine(&mut self) -> (id: u64)
        requires
            old(self)@.next_id < u64::MAX,
        ensures
            id == old(self)@.next_id,
            final(self)@ == old(self)@.with_spawned(),
    {
        let id = self.next_id;
        self.put(id, Coroutine::new());
        self.next_id = id + 1;
        self.coroutines_no = self.coroutines_no.wrapping_add(1);
        assert(self@ =~= old(self)@.with_spawned());
        id
    }

    /// Lets the coroutine `id`, which runs, spawn another one.
    pub(crate) fn spawn(&mut self, id: u64) -> (child: u64)
        requires
            old(self).wf(),
            old(self)@.runs(id),
            old(self)@.next_id < u64::MAX,
        ensures
            final(self).wf(),
            final(self)@ == old(self)@.spawned_by(id),
            child == old(self)@.next_id,
    {
        let ghost s = self@;
        proof {
            upkeep::spawned_by_keeps_wf(s, id);
        }
        let child = self.add_coroutine();
        assert(s.coroutines.contains_key(id));
        let mut coroutine = self.take(id);
        coroutine.push_child(child);
        self.put(id, coroutine);
        assert(self@ =~= s.spawned_by(id));
        child
    }

    /// Lets the coroutine `id`, which runs, wrap an event source.
    pub(crate) fn wrap(&mut self, id: u64, io: Io) -> (r: (Token, usize))
        requires
            old(self).wf(),
            old(self)@.runs(id),
            old(self)@.free.len() > 0,
            io.wf(),
        ensures
            final(self).wf(),
            final(self)@ == old(self)@.wrapped_by(id, io),
            r.0 == old(self)@.next_token(),
            r.1 == old(self)@.coroutines[id].io.len(),
    {
        let ghost s = self@;
        proof {
            upkeep::wrapped_by_keeps_wf(s, id, io);
            upkeep::lemma_room(s, id);
        }
        let mut coroutine = self.take(id);
        let index = coroutine.sources_no();
        let token = self.sources.insert(EventSource { coroutine: id, index }).unwrap();
        coroutine.push_source(token, io);
        self.put(id, coroutine);
        assert(self@ =~= s.wrapped_by(id, io));
        (token, index)
    }

    /// Lets the coroutine `id`, which runs, wait for `rw` on its source at `index`.
    pub(crate) fn block_on(&mut self, id: u64, index: usize, rw: RW)
        requires
            old(self).wf(),
            old(self)@.runs(id),
            index < old(self)@.coroutines[id].io.len(),
        ensures
            final(self).wf(),
            final(self)@ == old(self)@.blocked_by(id, rw, seq![index as nat]),
    {
        let ghost s = self@;
        proof {
            upkeep::blocked_by_keeps_wf(s, id, rw, seq![index as nat]);
        }
        let mut coroutine = self.take(id);
        coroutine.block_on(index, rw);
        self.put(id, coroutine);
        assert(self@ =~= s.blocked_by(id, rw, seq![index as nat]));
    }

    /// Lets the coroutine `id`, which runs, wait for `rw` on any of its sources.
    pub(crate) fn block_on_all(&mut self, id: u64, rw: RW)
        requires
            old(self).wf(),
            old(self)@.runs(id),
        ensures
            final(self).wf(),
            final(self)@ == old(self)@.blocked_by_all(id, rw),
    {
        let ghost s = self@;
        let ghost all = Seq::new(s.coroutines[id].io.len(), |i: int| i as nat);
        proof {
            upkeep::blocked_by_keeps_wf(s, id, rw, all);
        }
        let mut coroutine = self.take(id);
        coroutine.block_on_all(rw);
        self.put(id, coroutine);
        assert(self@ =~= s.blocked_by(id, rw, all));
    }

    /// Lets the coroutine `id`, which runs, wait for `rw` on the sources that
    /// `indices` name.
    pub(crate) fn block_on_from(&mut self, id: u64, indices: &[EventSourceIndex], rw: RW)
        requires
            old(self).wf(),
            old(self)@.runs(id),
            forall|k: int|
                0 <= k < indices@.len() ==> #[trigger] indices@[k]@ < mask_len(
                    old(self)@.coroutines[id].io.len(),
                ),
        ensures
            final(self).wf(),
            final(self)@ == old(self)@.blocked_by(id, rw, mask::positions(indices@)),
    {
        let ghost s = self@;
        proof {
            upkeep::blocked_by_keeps_wf(s, id, rw, mask::positions(indices@));
        }
        let mut coroutine = self.take(id);
        coroutine.block_on_from(indices, rw);
        self.put(id, coroutine);
        assert(self@ =~= s.blocked_by(id, rw, mask::positions(indices@)));
    }

    /// Lets the coroutine `id`, which runs, return.
    pub(crate) fn finish(&mut self, id: u64)
        requires
            old(self).wf(),
            old(self)@.runs(id),
        ensures
            final(self).wf(),
            final(self)@ == old(self)@.finished_by(id),
    {
        let ghost s = self@;
        proof {
            upkeep::finished_by_keeps_wf(s, id);
        }
        let mut coroutine = self.take(id);
        coroutine.finish();
        self.put(id, coroutine);
        assert(self@ =~= s.finished_by(id));
    }

    /// Whether the coroutine `id` can wait for the source at `index`.
    pub(crate) fn covers(&self, id: u64, index: usize) -> (r: bool)
        requires
            self.wf(),
            self@.coroutines.contains_key(id),
        ensures
            r == (index < mask_len(self@.coroutines[id].io.len())),
    {
        broadcast use vstd::std_specs::hash::group_hash_axioms;

        self.coroutines.get(&id).unwrap().covers(index)
    }

    /// Whether the source with that token is where `source` says.
    pub(crate) fn has_source(&self, token: Token, source: EventSource) -> (r: bool)
        requires
            self.wf(),
        ensures
            r == (self@.taken.get(token.0) == Some(source)),
    {
        match self.lookup(token) {
            Some(found) => found == source,
            None => false,
        }
    }

    /// The event that resumed the coroutine `id` last.
    pub(crate) fn last_event(&self, id: u64) -> (r: LastEvent)
        requires
            self@.coroutines.contains_key(id),
        ensures
            r@ == self@.coroutines[id].last_event,
    {
        broadcast use vstd::std_specs::hash::group_hash_axioms;

        self.coroutines.get(&id).unwrap().last_event()
    }

    /// The timer that a token stands for.
    pub fn timer(&self, token: Token) -> (r: Option<Timer>)
        requires
            self.wf(),
        ensures
            self@.is_timer(token) ==> r == Some(self@.timer(token)),
            !self@.is_timer(token) ==> r is None,
    {
        broadcast use vstd::std_specs::hash::group_hash_axioms;

        match self.lookup(token) {
            Some(source) => {
                assert(self@.coroutines.contains_key(source.coroutine));
                let coroutine = self.coroutines.get(&source.coroutine).unwrap();
                match coroutine.source(source.index).io {
                    Io::Timer(timer) => Some(timer),
                    Io::Raw => None,
                }
            },
            None => None,
        }
    }

    /// Resets the timer that a token stands for.
    pub(crate) fn reset_timer(&mut self, token: Token)
        requires
            old(self).wf(),
            old(self)@.is_timer(token),
        ensures
            final(self).wf(),
            final(self)@ == old(self)@.with_timer(token, old(self)@.timer(token).spec_reset()),
    {
        let ghost s = self@;
        proof {
            upkeep::reset_keeps_wf(s, token);
        }
        let source = self.lookup(token).unwrap();
        let mut coroutine = self.take(source.coroutine);
        if let Io::Timer(mut timer) = coroutine.source(source.index).io {
            timer.reset();
            coroutine.set_io(source.index, Io::Timer(timer));
        }
        self.put(source.coroutine, coroutine);
        assert(self@ =~= s.with_timer(token, s.timer(token).spec_reset()));
    }

    /// Whether the server waits for an event.
    pub fn is_idle(&self) -> (r: bool)
        ensures
            r == (self@.phase is Idle),
    {
        match self.phase {
            Phase::Idle => true,
            _ => false,
        }
    }

    /// Whether the coroutine is the one that runs now.
    pub fn is_running(&self, id: u64) -> (r: bool)
        requires
            self.wf(),
        ensures
            r == self@.runs(id),
    {
        broadcast use vstd::std_specs::hash::group_hash_axioms;

        let active = match self.phase {
            Phase::Idle => None,
            Phase::Resumed { coroutine } => Some(coroutine),
            Phase::Starting { child, .. } => Some(child),
        };
        match active {
            Some(a) => {
                assert(self@.coroutines.contains_key(a));
                if a == id {
                    match self.coroutines.get(&id).unwrap().state() {
                        State::Running => true,
                        _ => false,
                    }
                } else {
                    false
                }
            },
            None => false,
        }
    }

    /// Whether a coroutine was resumed and has not been heard of since.
    pub fn is_waiting(&self) -> (r: bool)
        ensures
            r == (self@.active() is Some),
    {
        !self.is_idle()
    }

    /// Whether another event source can be wrapped.
    pub fn has_room(&self) -> (r: bool)
        requires
            self.wf(),
        ensures
            r == (self@.free.len() > 0),
    {
        proof {
            upkeep::lemma_free_tokens(self@);
        }
        self.sources.count() < CAPACITY
    }

    /// Whether another coroutine can be numbered.
    pub fn can_spawn(&self) -> (r: bool)
        ensures
            r == (self@.next_id < u64::MAX),
    {
        self.next_id < u64::MAX
    }

    /// Whether a token stands for a timer, if it stands for anything.
    pub fn expects_timeout(&self, token: Token) -> (r: bool)
        requires
            self.wf(),
        ensures
            r == (self@.taken.contains_key(token.0) ==> self@.is_timer(token)),
    {
        match self.lookup(token) {
            Some(_) => self.timer(token).is_some(),
            None => true,
        }
    }

    /// Number of `Coroutine`-s running in the `Server`.
    pub fn coroutines_no(&self) -> (r: u32)
        ensures
            r == self@.coroutines_no,
    {
        self.coroutines_no
    }
}

} // verus!
