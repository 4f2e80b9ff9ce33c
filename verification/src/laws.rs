//! What holds of the server as a whole.
use crate::coroutine::{event_kind, lemma_mask_len, CoroutineView, State};
use crate::event::{EventSet, EventView, Token, RW};
use crate::history::Operation;
use crate::mask;
use crate::model::{Phase, Reaction, ServerView, Step, CAPACITY};
use crate::slab::EventSource;
use crate::source::{Action, EventSourceShared, Io};
use crate::steps::{
    child_heard, child_reported, event_told, lemma_dispatched_in_steps, lemma_resumed_in_steps,
    timeout_events,
};
use crate::timer::{Timeout, Timer, TimerStatus};
use crate::upkeep;
use vstd::prelude::*;

verus! {

/// Every operation keeps the invariant.
pub proof fn operation_keeps_wf(s: ServerView, op: Operation)
    requires
        s.wf(),
        s.allows(op),
    ensures
        s.after(op).wf(),
{
    match op {
        Operation::Start => upkeep::started_keeps_wf(s),
        Operation::Ready { token, events } => upkeep::ready_keeps_wf(s, token, events),
        Operation::Timeout { token, iteration } => upkeep::timeout_keeps_wf(s, token, iteration),
        Operation::TimerStarted { token, answer } => upkeep::timer_started_keeps_wf(
            s,
            token,
            answer,
        ),
        Operation::Resumed { ok } => upkeep::resumed_keeps_wf(s, ok),
        Operation::Spawn { id } => upkeep::spawned_by_keeps_wf(s, id),
        Operation::Wrap { id, io } => upkeep::wrapped_by_keeps_wf(s, id, io),
        Operation::Block { id, rw, positions } => upkeep::blocked_by_keeps_wf(
            s,
            id,
            rw,
            positions,
        ),
        Operation::Finish { id } => upkeep::finished_by_keeps_wf(s, id),
        Operation::Reset { token } => upkeep::reset_keeps_wf(s, token),
    }
}

/// Whatever happens to a new server, it keeps the invariant.
pub proof fn history_is_wf(ops: Seq<Operation>)
    requires
        ServerView::initial().allows_all(ops),
    ensures
        ServerView::initial().after_all(ops).wf(),
    decreases ops.len(),
{
    if ops.len() == 0 {
        upkeep::initial_is_wf();
    } else {
        history_is_wf(ops.drop_last());
        operation_keeps_wf(ServerView::initial().after_all(ops.drop_last()), ops.last());
    }
}

/// Seeing to a coroutine leaves the waits of all others watched.
proof fn lemma_watched_after_resume(s: ServerView, id: u64)
    requires
        s.wf(),
        s.phase == (Phase::Resumed { coroutine: id }),
        !(s.coroutines[id].state is Running),
        s.waits_are_watched(),
    ensures
        s.after_resume(id).server.waits_are_watched(),
{
    let t = s.after_resume(id).server;
    assert forall|k: u64| #[trigger]
        t.coroutines.contains_key(k) && t.coroutines[k].state is BlockedOn && !t.attends(
            k,
        ) implies t.coroutines[k].registered == t.coroutines[k].blocked_on by {
        assert(s.coroutines.contains_key(k));
    }
}

/// Every operation keeps the waits of coroutines watched: once a coroutine that
/// blocked has been seen to, the event loop watches exactly the sources that it is
/// blocked on, until it is resumed.
pub proof fn operation_keeps_waits_watched(s: ServerView, op: Operation)
    requires
        s.wf(),
        s.allows(op),
        s.waits_are_watched(),
    ensures
        s.after(op).waits_are_watched(),
{
    let t = s.after(op);
    match op {
        Operation::Resumed { ok } => {
            lemma_resumed_in_steps(s, ok);
            match s.phase {
                Phase::Idle => {},
                Phase::Resumed { coroutine } => {
                    let u = s.heard(ok);
                    assert(u.waits_are_watched()) by {
                        assert forall|k: u64| #[trigger]
                            u.coroutines.contains_key(k) && u.coroutines[k].state is BlockedOn
                                && !u.attends(k) implies u.coroutines[k].registered
                            == u.coroutines[k].blocked_on by {
                            assert(s.coroutines.contains_key(k));
                        }
                    }
                    lemma_watched_after_resume(u, coroutine);
                },
                Phase::Starting { parent, child } => {
                    let u = child_reported(s, ok);
                    assert(u.waits_are_watched()) by {
                        assert forall|k: u64| #[trigger]
                            u.coroutines.contains_key(k) && u.coroutines[k].state is BlockedOn
                                && !u.attends(k) implies u.coroutines[k].registered
                            == u.coroutines[k].blocked_on by {
                            assert(s.coroutines.contains_key(k));
                        }
                    }
                    lemma_watched_after_resume(u, parent);
                },
            }
        },
        Operation::Ready { token, events } => {
            upkeep::lemma_same_parts(s, s.ticked());
            if s.taken.contains_key(token.0) {
                let source = s.taken[token.0];
                let u = event_told(s.ticked(), source, events);
                lemma_dispatched_in_steps(s.ticked(), source, events);
                assert(u.waits_are_watched());
                if u.coroutines[source.coroutine].state is BlockedOn {
                    lemma_watched_after_resume(u, source.coroutine);
                }
            }
        },
        Operation::Timeout { token, iteration } => {
            upkeep::lemma_same_parts(s, s.ticked());
            if s.taken.contains_key(token.0) {
                let source = s.taken[token.0];
                let timer = s.timer(token);
                let events = timeout_events(timer, iteration);
                let v = s.ticked().with_timer(token, timer.notified(iteration));
                let u = event_told(v, source, events);
                upkeep::lemma_notified(s, token, iteration);
                lemma_dispatched_in_steps(v, source, events);
                assert(u.waits_are_watched());
                if u.coroutines[source.coroutine].state is BlockedOn {
                    lemma_watched_after_resume(u, source.coroutine);
                }
            }
        },
        _ => {},
    }
}

/// Whatever happens to a new server, every coroutine that waits has its sources
/// watched.
pub proof fn history_keeps_waits_watched(ops: Seq<Operation>)
    requires
        ServerView::initial().allows_all(ops),
    ensures
        ServerView::initial().after_all(ops).waits_are_watched(),
    decreases ops.len(),
{
    if ops.len() > 0 {
        let before = ServerView::initial().after_all(ops.drop_last());
        history_is_wf(ops.drop_last());
        history_keeps_waits_watched(ops.drop_last());
        operation_keeps_waits_watched(before, ops.last());
    }
}

/// A coroutine that has only waited for sources of its own stays tidy when it is
/// told of an event, when it finishes and when it is seen to.
proof fn lemma_tidy_changes(c: CoroutineView)
    requires
        c.wf(),
        c.tidy(),
    ensures
        forall|index: int, events: EventSet, tick: u32|
            0 <= index < c.io.len() ==> (#[trigger] c.told(index, events, tick)).tidy(),
        c.finished().tidy(),
        c.settled().tidy(),
{
    lemma_mask_len(c.io.len());
    assert forall|index: int, events: EventSet, tick: u32| 0 <= index < c.io.len() implies (
    #[trigger] c.told(index, events, tick)).tidy() by {
        let d = c.told(index, events, tick);
        assert forall|i: int| 0 <= i < d.io.len() implies {
            &&& (#[trigger] d.io[i]).tidy()
            &&& d.registered[i] ==> d.io[i].registered
        } by {
            assert(c.io[i].tidy());
        }
    }
    let d = c.finished();
    assert forall|i: int| 0 <= i < d.io.len() implies {
        &&& (#[trigger] d.io[i]).tidy()
        &&& d.registered[i] ==> d.io[i].registered
    } by {
        assert(c.io[i].tidy());
    }
    let e = c.settled();
    assert forall|i: int| 0 <= i < e.io.len() implies {
        &&& (#[trigger] e.io[i]).tidy()
        &&& e.registered[i] ==> e.io[i].registered
    } by {
        assert(c.io[i].tidy());
        assert(e.io[i] == c.settled_source(i));
    }
    assert forall|i: int| e.io.len() <= i < e.registered.len() implies !#[trigger] e.registered[i] by {
        assert(!c.blocked_on[i]);
    }
}

/// Whether a coroutine is tidy does not depend on what it has spawned.
proof fn lemma_tidy_children(c: CoroutineView, children: Seq<u64>)
    requires
        c.tidy(),
    ensures
        (CoroutineView { children, ..c }).tidy(),
{
    let d = CoroutineView { children, ..c };
    assert forall|i: int| 0 <= i < d.io.len() implies {
        &&& (#[trigger] d.io[i]).tidy()
        &&& d.registered[i] ==> d.io[i].registered
    } by {
        assert(c.io[i].tidy());
    }
}

/// Seeing to a coroutine keeps all coroutines tidy.
proof fn lemma_tidy_after_resume(s: ServerView, id: u64)
    requires
        s.wf(),
        s.phase == (Phase::Resumed { coroutine: id }),
        s.tidy(),
    ensures
        s.after_resume(id).server.tidy(),
{
    let t = s.after_resume(id).server;
    let c = s.coroutines[id];
    assert(c.tidy() && c.wf());
    lemma_tidy_changes(c);
    assert forall|k: u64| #[trigger] t.coroutines.contains_key(k) implies t.coroutines[k].tidy() by {
        assert(s.coroutines.contains_key(k));
        lemma_tidy_children(c, c.children.skip(1));
    }
}

/// A timer that is changed stays tidy if a timer that has never been registered
/// stays stopped.
proof fn lemma_tidy_with_timer(s: ServerView, token: Token, timer: Timer)
    requires
        s.wf(),
        s.tidy(),
        s.is_timer(token),
        !s.source(token).registered ==> timer.status is Stopped,
    ensures
        s.with_timer(token, timer).tidy(),
{
    let t = s.with_timer(token, timer);
    let id = s.taken[token.0].coroutine;
    let c = s.coroutines[id];
    assert forall|k: u64| #[trigger] t.coroutines.contains_key(k) implies t.coroutines[k].tidy() by {
        assert(s.coroutines.contains_key(k));
        if k == id {
            let d = t.coroutines[id];
            assert forall|i: int| 0 <= i < d.io.len() implies {
                &&& (#[trigger] d.io[i]).tidy()
                &&& d.registered[i] ==> d.io[i].registered
            } by {
                assert(c.io[i].tidy());
            }
        }
    }
}

/// Every operation that keeps to what a coroutine owns keeps all coroutines tidy:
/// the event loop is asked to watch only sources that are registered with it, and
/// a timer that has never been registered is stopped.
pub proof fn operation_keeps_tidy(s: ServerView, op: Operation)
    requires
        s.wf(),
        s.allows(op),
        s.tidy(),
        s.is_tidy(op),
    ensures
        s.after(op).tidy(),
{
    let t = s.after(op);
    match op {
        Operation::Start | Operation::Spawn { .. } => {
            assert forall|k: u64| #[trigger] t.coroutines.contains_key(k) implies t.coroutines[k].tidy() by {
                if s.coroutines.contains_key(k) {
                    let c = s.coroutines[k];
                    let d = t.coroutines[k];
                    assert(c.tidy());
                    assert(k != s.next_id);
                    assert forall|i: int| 0 <= i < d.io.len() implies {
                        &&& (#[trigger] d.io[i]).tidy()
                        &&& d.registered[i] ==> d.io[i].registered
                    } by {
                        assert(c.io[i].tidy());
                    }
                }
            }
        },
        Operation::Resumed { ok } => {
            lemma_resumed_in_steps(s, ok);
            let id = s.active()->0;
            lemma_tidy_changes(s.coroutines[id]);
            match s.phase {
                Phase::Idle => {},
                Phase::Resumed { coroutine } => {
                    let u = s.heard(ok);
                    assert(u.tidy()) by {
                        assert forall|k: u64| #[trigger] u.coroutines.contains_key(
                            k,
                        ) implies u.coroutines[k].tidy() by {
                            assert(s.coroutines.contains_key(k));
                        }
                    }
                    lemma_tidy_after_resume(u, coroutine);
                },
                Phase::Starting { parent, child } => {
                    let h = s.heard(ok);
                    let v = child_heard(s, ok);
                    let u = child_reported(s, ok);
                    assert(v.tidy()) by {
                        assert forall|k: u64| #[trigger] v.coroutines.contains_key(
                            k,
                        ) implies v.coroutines[k].tidy() by {
                            assert(s.coroutines.contains_key(k));
                            lemma_tidy_children(h.coroutines[k], v.coroutines[k].children);
                        }
                    }
                    lemma_tidy_changes(v.coroutines[child]);
                    assert(u.tidy()) by {
                        assert forall|k: u64| #[trigger] u.coroutines.contains_key(
                            k,
                        ) implies u.coroutines[k].tidy() by {
                            assert(v.coroutines.contains_key(k));
                        }
                    }
                    lemma_tidy_after_resume(u, parent);
                },
            }
        },
        Operation::Ready { token, events } => {
            upkeep::lemma_same_parts(s, s.ticked());
            if s.taken.contains_key(token.0) {
                let source = s.taken[token.0];
                lemma_dispatched_in_steps(s.ticked(), source, events);
                lemma_tidy_told(s.ticked(), source, events);
            }
        },
        Operation::Timeout { token, iteration } => {
            upkeep::lemma_same_parts(s, s.ticked());
            if s.taken.contains_key(token.0) {
                let source = s.taken[token.0];
                let timer = s.timer(token);
                let events = timeout_events(timer, iteration);
                let v = s.ticked().with_timer(token, timer.notified(iteration));
                assert(s.coroutines[source.coroutine].io[source.index as int].tidy());
                lemma_tidy_with_timer(s.ticked(), token, timer.notified(iteration));
                upkeep::lemma_notified(s, token, iteration);
                lemma_dispatched_in_steps(v, source, events);
                lemma_tidy_told(v, source, events);
            }
        },
        Operation::TimerStarted { token, answer } => {
            if s.is_timer(token) {
                lemma_tidy_with_timer(s, token, s.timer(token).started_with(answer));
            }
        },
        Operation::Reset { token } => {
            let source = s.taken[token.0];
            assert(s.coroutines[source.coroutine].io[source.index as int].tidy());
            lemma_tidy_with_timer(s, token, s.timer(token).spec_reset());
        },
        Operation::Wrap { id, io } => {
            let c = s.coroutines[id];
            let d = t.coroutines[id];
            let n = c.io.len();
            lemma_mask_len(n);
            assert(c.tidy() && c.wf());
            assert forall|i: int| n <= i < d.registered.len() implies !d.registered[i]
                && !d.blocked_on[i] by {
                if i < c.registered.len() {
                    assert(!c.registered[i]);
                    assert(!c.blocked_on[i]);
                }
            }
            assert forall|i: int| 0 <= i < d.io.len() implies {
                &&& (#[trigger] d.io[i]).tidy()
                &&& d.registered[i] ==> d.io[i].registered
            } by {
                if i < n {
                    assert(c.io[i].tidy());
                    assert(d.registered[i] == c.registered[i]);
                }
            }
            assert forall|k: u64| #[trigger] t.coroutines.contains_key(k) implies t.coroutines[k].tidy() by {
                assert(s.coroutines.contains_key(k));
            }
        },
        Operation::Block { id, rw, positions } => {
            let c = s.coroutines[id];
            let d = t.coroutines[id];
            assert(c.tidy());
            assert forall|i: int| 0 <= i < d.io.len() implies {
                &&& (#[trigger] d.io[i]).tidy()
                &&& d.registered[i] ==> d.io[i].registered
            } by {
                assert(c.io[i].tidy());
            }
            assert forall|k: u64| #[trigger] t.coroutines.contains_key(k) implies t.coroutines[k].tidy() by {
                assert(s.coroutines.contains_key(k));
            }
        },
        Operation::Finish { id } => {
            lemma_tidy_changes(s.coroutines[id]);
            assert forall|k: u64| #[trigger] t.coroutines.contains_key(k) implies t.coroutines[k].tidy() by {
                assert(s.coroutines.contains_key(k));
            }
        },
    }
}

/// What a server makes of an event keeps all coroutines tidy.
proof fn lemma_tidy_told(s: ServerView, source: EventSource, events: EventSet)
    requires
        s.wf(),
        s.phase is Idle,
        s.coroutines.contains_key(source.coroutine),
        source.index < s.coroutines[source.coroutine].io.len(),
        s.tidy(),
    ensures
        s.dispatched(source, events).server.tidy(),
{
    let id = source.coroutine;
    let u = event_told(s, source, events);
    lemma_dispatched_in_steps(s, source, events);
    lemma_tidy_changes(s.coroutines[id]);
    assert(u.tidy()) by {
        assert forall|k: u64| #[trigger] u.coroutines.contains_key(k) implies u.coroutines[k].tidy() by {
            assert(s.coroutines.contains_key(k));
        }
    }
    if u.coroutines[id].state is BlockedOn {
        lemma_tidy_after_resume(u, id);
    }
}

/// In a tidy coroutine, a source that is no longer waited for had been registered
/// with the event loop, and a timer that is registered for the first time had not
/// been started.
pub proof fn tidy_sources_are_asked_for_in_order(c: CoroutineView, i: int)
    requires
        c.wf(),
        c.tidy(),
        0 <= i < c.io.len(),
    ensures
        c.registered[i] && !c.blocked_on[i] ==> c.io[i].registered,
        !c.registered[i] && c.blocked_on[i] && !c.io[i].registered ==> {
            c.io[i].io matches Io::Timer(timer) ==> timer.status is Stopped
        },
{
    assert(c.io[i].tidy());
}

/// Once a coroutine that waits has been seen to, the event loop has been asked to
/// watch each source that it is blocked on and that was not watched before, for
/// what it waits for; and nothing is asked for the sources that were watched.
pub proof fn settling_asks_for_what_is_missing(c: CoroutineView, rw: RW, i: int)
    requires
        c.wf(),
        0 <= i < c.io.len(),
        c.io[i].io is Raw,
    ensures
        ({
            let token = c.io[i].token;
            let interest = c.io[i].interest(rw);
            let asked = c.settle_source_actions(i, rw);
            &&& !c.registered[i] && c.blocked_on[i] && !c.io[i].registered ==> asked
                == seq![Action::Register { token, interest }]
            &&& !c.registered[i] && c.blocked_on[i] && c.io[i].registered ==> asked
                == seq![Action::Reregister { token, interest }]
            &&& c.registered[i] && !c.blocked_on[i] ==> asked
                == seq![Action::Reregister { token, interest: EventSet::spec_none() }]
            &&& c.registered[i] == c.blocked_on[i] ==> asked == Seq::<Action>::empty()
            &&& c.settled().io[i].registered == (c.io[i].registered || (!c.registered[i]
                && c.blocked_on[i]))
        }),
{
    assert(c.settled().io[i] == c.settled_source(i));
}

/// Every operation keeps the ticks in order, as long as the counter of events does
/// not wrap around. It counts the events and nothing else.
pub proof fn operation_keeps_ticks(s: ServerView, op: Operation)
    requires
        s.wf(),
        s.allows(op),
        s.ticks_wf(),
        op is Ready || op is Timeout ==> s.tick < u32::MAX,
    ensures
        s.after(op).ticks_wf(),
        s.after(op).tick == (if op is Ready || op is Timeout {
            s.tick + 1
        } else {
            s.tick as int
        }),
{
    let t = s.after(op);
    match op {
        Operation::Resumed { ok } => {
            lemma_resumed_in_steps(s, ok);
        },
        Operation::Ready { token, events } => {
            upkeep::lemma_same_parts(s, s.ticked());
            if s.taken.contains_key(token.0) {
                lemma_dispatched_in_steps(s.ticked(), s.taken[token.0], events);
            }
        },
        Operation::Timeout { token, iteration } => {
            if s.taken.contains_key(token.0) {
                let timer = s.timer(token);
                let v = s.ticked().with_timer(token, timer.notified(iteration));
                upkeep::lemma_notified(s, token, iteration);
                lemma_dispatched_in_steps(
                    v,
                    s.taken[token.0],
                    timeout_events(timer, iteration),
                );
            }
        },
        _ => {},
    }
    assert forall|k: u64| #[trigger] t.coroutines.contains_key(k) implies t.coroutines[k].last_tick
        <= t.tick || t.coroutines[k].last_tick == u32::MAX by {
        assert(s.coroutines.contains_key(k) || t.coroutines[k].last_tick == u32::MAX);
    }
}

/// The number of events in the course of the operations.
pub open spec fn events_no(ops: Seq<Operation>) -> nat
    decreases ops.len(),
{
    if ops.len() == 0 {
        0
    } else if ops.last() is Ready || ops.last() is Timeout {
        events_no(ops.drop_last()) + 1
    } else {
        events_no(ops.drop_last())
    }
}

/// For as many events as its counter can count, the ticks of a new server are in
/// order, and the counter is right.
pub proof fn history_keeps_ticks(ops: Seq<Operation>)
    requires
        ServerView::initial().allows_all(ops),
        events_no(ops) <= u32::MAX,
    ensures
        ServerView::initial().after_all(ops).ticks_wf(),
        ServerView::initial().after_all(ops).tick == events_no(ops),
    decreases ops.len(),
{
    if ops.len() > 0 {
        let before = ServerView::initial().after_all(ops.drop_last());
        history_is_wf(ops.drop_last());
        history_keeps_ticks(ops.drop_last());
        operation_keeps_ticks(before, ops.last());
    }
}

/// While the ticks are in order, the tick of the next event is none of which a
/// coroutine was told before.
pub proof fn next_tick_is_new(s: ServerView, id: u64)
    requires
        s.ticks_wf(),
        s.tick < u32::MAX - 1,
        s.coroutines.contains_key(id),
    ensures
        s.coroutines[id].last_tick != s.ticked().tick,
{
}

/// An event resumes a coroutine that waits for it: the source is one that the
/// coroutine is blocked on, and the event is of a kind that it waits for.
pub proof fn awaited_event_resumes(s: ServerView, token: Token, events: EventSet, rw: RW)
    requires
        s.wf(),
        s.phase is Idle,
        s.taken.contains_key(token.0),
        ({
            let source = s.taken[token.0];
            let c = s.coroutines[source.coroutine];
            &&& c.last_tick != s.ticked().tick
            &&& c.state == State::BlockedOn(rw)
            &&& c.blocked_on[source.index as int]
            &&& events.wakes(rw)
        }),
    ensures
        ({
            let source = s.taken[token.0];
            let r = s.ready(token, events);
            &&& r.step == Step::Resume(source.coroutine)
            &&& r.server.runs(source.coroutine)
            &&& r.server.coroutines[source.coroutine].last_event == (EventView {
                index: source.index as nat,
                rw: event_kind(events),
            })
        }),
{
    let source = s.taken[token.0];
    assert(s.coroutines.contains_key(source.coroutine));
}

/// No event resumes a coroutine that does not wait for it: an event can only resume
/// the coroutine whose source it is on, which has to be blocked on that source and
/// to wait for an event of that kind.
pub proof fn only_awaited_events_resume(s: ServerView, token: Token, events: EventSet, id: u64)
    requires
        s.wf(),
        s.phase is Idle,
        s.ready(token, events).step == Step::Resume(id),
    ensures
        s.taken.contains_key(token.0),
        ({
            let source = s.taken[token.0];
            let c = s.coroutines[source.coroutine];
            &&& id == source.coroutine
            &&& c.state matches State::BlockedOn(rw) && events.wakes(rw)
            &&& c.blocked_on[source.index as int]
        }),
{
    upkeep::lemma_idle(s);
    assert(s.coroutines.contains_key(s.taken[token.0].coroutine));
}

/// A wait ends with what was waited for: a coroutine that waits for `rw` on the
/// sources at some positions is resumed by an event on one of them. If it waits for
/// reads only, the event is a read; if it waits for writes only, it is a write.
pub proof fn wait_ends_with_what_was_waited_for(
    c: CoroutineView,
    rw: RW,
    positions: Seq<nat>,
    index: int,
    events: EventSet,
    tick: u32,
)
    requires
        c.wf(),
        0 <= index < c.io.len(),
        c.blocked(rw, mask::bits_at(c.blocked_on.len(), positions)).woken_by(index, events, tick),
    ensures
        ({
            let last = c.blocked(rw, mask::bits_at(c.blocked_on.len(), positions)).told(
                index,
                events,
                tick,
            ).last_event;
            &&& last.index == index
            &&& positions.contains(last.index)
            &&& rw.reads() || last.rw.writes()
            &&& rw.writes() || last.rw.reads()
        }),
{
    lemma_mask_len(c.io.len());
    let k = choose|k: int| 0 <= k < positions.len() && #[trigger] positions[k] == index;
    assert(positions[k] == index as nat);
}

/// Nothing changes what a coroutine waits for, but an event that resumes it, or its
/// end.
pub proof fn waits_last(s: ServerView, op: Operation, id: u64)
    requires
        s.wf(),
        s.allows(op),
        s.coroutines.contains_key(id),
        s.coroutines[id].state is BlockedOn,
        op matches Operation::Resumed { ok } ==> ok || s.active() != Some(id),
        s.after(op).active() != Some(id) || s.active() == Some(id),
    ensures
        s.after(op).coroutines.contains_key(id),
        s.after(op).coroutines[id].state == s.coroutines[id].state,
        s.after(op).coroutines[id].blocked_on == s.coroutines[id].blocked_on,
{
    let t = s.after(op);
    match op {
        Operation::Resumed { ok } => {
            lemma_resumed_in_steps(s, ok);
        },
        Operation::Ready { token, events } => {
            upkeep::lemma_same_parts(s, s.ticked());
            if s.taken.contains_key(token.0) {
                lemma_dispatched_in_steps(s.ticked(), s.taken[token.0], events);
            }
        },
        Operation::Timeout { token, iteration } => {
            if s.taken.contains_key(token.0) {
                let timer = s.timer(token);
                let v = s.ticked().with_timer(token, timer.notified(iteration));
                upkeep::lemma_notified(s, token, iteration);
                lemma_dispatched_in_steps(
                    v,
                    s.taken[token.0],
                    timeout_events(timer, iteration),
                );
            }
        },
        _ => {},
    }
}

/// An event that no one waits for asks nothing of the event loop, and changes
/// nothing but the ticks and the word of a hang-up. It comes, for one, when several
/// sources of a coroutine are ready at once and an earlier one has resumed it.
pub proof fn spurious_event_changes_nothing(s: ServerView, token: Token, events: EventSet)
    requires
        s.wf(),
        s.phase is Idle,
        s.waits_are_watched(),
        s.taken.contains_key(token.0),
        ({
            let source = s.taken[token.0];
            let c = s.coroutines[source.coroutine];
            &&& !(c.state is Finished)
            &&& !c.woken_by(source.index as int, events, s.ticked().tick)
        }),
    ensures
        ({
            let source = s.taken[token.0];
            let c = s.coroutines[source.coroutine];
            let tick = s.ticked().tick;
            s.ready(token, events) == (Reaction {
                server: s.ticked().with_coroutine(
                    source.coroutine,
                    c.undisturbed(source.index as int, events, tick),
                ),
                actions: Seq::empty(),
                step: Step::Done,
            })
        }),
{
    let source = s.taken[token.0];
    let c = s.coroutines[source.coroutine];
    let d = c.undisturbed(source.index as int, events, s.ticked().tick);
    assert(s.coroutines.contains_key(source.coroutine));
    upkeep::lemma_idle(s);
    lemma_nothing_to_settle(d, d.state->BlockedOn_0, d.io.len());
    assert(d.settled() =~= d);
    assert(s.ready(token, events).server =~= s.ticked().with_coroutine(source.coroutine, d));
}

/// Where the event loop watches what a coroutine is blocked on, nothing is asked.
proof fn lemma_nothing_to_settle(c: CoroutineView, rw: RW, n: nat)
    requires
        c.wf(),
        c.registered == c.blocked_on,
        n <= c.io.len(),
    ensures
        c.settle_actions_upto(rw, n) == Seq::<Action>::empty(),
    decreases n,
{
    if n > 0 {
        lemma_nothing_to_settle(c, rw, (n - 1) as nat);
        assert(c.settle_actions_upto(rw, n) =~= Seq::<Action>::empty());
    }
}

/// An event on a source that is no longer there is ignored.
pub proof fn stale_event_is_ignored(s: ServerView, token: Token, events: EventSet, iteration: u32)
    requires
        s.wf(),
        !s.taken.contains_key(token.0),
    ensures
        s.ready(token, events) == (Reaction {
            server: s.ticked(),
            actions: Seq::empty(),
            step: Step::Done,
        }),
        s.timeout(token, iteration) == s.ready(token, events),
{
}

/// A hang-up of the peer wakes up a coroutine that waits to read, as a read. It is
/// remembered: the event loop will not be asked to report reads or a hang-up of
/// that source again.
pub proof fn hang_up_wakes_reader(c: CoroutineView, index: int, events: EventSet, tick: u32, rw: RW)
    requires
        c.wf(),
        0 <= index < c.io.len(),
        events.hup,
    ensures
        ({
            let d = c.told(index, events, tick);
            &&& c.last_tick != tick && c.blocked_on[index] && c.state is BlockedOn && (
            c.state->BlockedOn_0).reads() ==> {
                &&& c.woken_by(index, events, tick)
                &&& d.last_event.rw.reads()
            }
            &&& d.io[index].peer_hup
            &&& !d.io[index].interest(rw).readable
            &&& !d.io[index].interest(rw).hup
        }),
{
}

/// Whether the peer of the source with that token is known to have hung up.
pub open spec fn peer_hung_up(s: ServerView, token: Token) -> bool {
    s.taken.contains_key(token.0) && s.source(token).peer_hup
}

/// Seeing to a coroutine forgets no hang-up: one that leaves takes only its own
/// sources along.
proof fn lemma_hup_after_resume(s: ServerView, id: u64, token: Token)
    requires
        s.wf(),
        s.coroutines.contains_key(id),
        peer_hung_up(s, token),
    ensures
        ({
            let t = s.after_resume(id).server;
            t.taken.contains_key(token.0) ==> peer_hung_up(t, token)
        }),
        ({
            let t = s.reregistered(id).server;
            t.taken.contains_key(token.0) ==> peer_hung_up(t, token)
        }),
{
    let c = s.coroutines[id];
    upkeep::lemma_tokens(s, id);
    assert(c.tokens().contains(token.0) <==> s.taken[token.0].coroutine == id);
}

/// An event makes no one forget a hang-up.
proof fn lemma_hup_dispatched(s: ServerView, source: EventSource, events: EventSet, token: Token)
    requires
        s.wf(),
        s.phase is Idle,
        s.coroutines.contains_key(source.coroutine),
        source.index < s.coroutines[source.coroutine].io.len(),
        peer_hung_up(s, token),
    ensures
        ({
            let t = s.dispatched(source, events).server;
            t.taken.contains_key(token.0) ==> peer_hung_up(t, token)
        }),
{
    let u = event_told(s, source, events);
    lemma_dispatched_in_steps(s, source, events);
    assert(peer_hung_up(u, token)) by {
        assert(s.coroutines.contains_key(s.taken[token.0].coroutine));
    }
    lemma_hup_after_resume(u, source.coroutine, token);
}

/// Word of a resumed coroutine makes no one forget a hang-up.
proof fn lemma_hup_resumed(s: ServerView, ok: bool, token: Token)
    requires
        s.wf(),
        s.allows(Operation::Resumed { ok }),
        peer_hung_up(s, token),
        s.resumed(ok).server.taken.contains_key(token.0),
    ensures
        peer_hung_up(s.resumed(ok).server, token),
{
    lemma_resumed_in_steps(s, ok);
    match s.phase {
        Phase::Idle => {},
        Phase::Resumed { coroutine } => {
            assert(peer_hung_up(s.heard(ok), token));
            lemma_hup_after_resume(s.heard(ok), coroutine, token);
        },
        Phase::Starting { parent, child } => {
            let v = child_heard(s, ok);
            let u = child_reported(s, ok);
            assert(peer_hung_up(v, token));
            lemma_hup_after_resume(v, child, token);
            if u.taken.contains_key(token.0) {
                assert(peer_hung_up(u, token));
                lemma_hup_after_resume(u, parent, token);
            }
        },
    }
}

/// That the peer of a source hung up is never forgotten, for as long as the source
/// is there.
pub proof fn hang_up_is_remembered(s: ServerView, op: Operation, token: Token)
    requires
        s.wf(),
        s.allows(op),
        peer_hung_up(s, token),
        s.after(op).taken.contains_key(token.0),
    ensures
        peer_hung_up(s.after(op), token),
{
    assert(s.coroutines.contains_key(s.taken[token.0].coroutine));
    match op {
        Operation::Resumed { ok } => {
            lemma_hup_resumed(s, ok, token);
        },
        Operation::Ready { token: at, events } => {
            upkeep::lemma_same_parts(s, s.ticked());
            if s.taken.contains_key(at.0) {
                lemma_hup_dispatched(s.ticked(), s.taken[at.0], events, token);
            }
        },
        Operation::Timeout { token: at, iteration } => {
            if s.taken.contains_key(at.0) {
                let timer = s.timer(at);
                let v = s.ticked().with_timer(at, timer.notified(iteration));
                upkeep::lemma_notified(s, at, iteration);
                assert(peer_hung_up(v, token));
                lemma_hup_dispatched(v, s.taken[at.0], timeout_events(timer, iteration), token);
            }
        },
        Operation::Wrap { .. } => {
            assert(s.free.contains(s.free[0]));
        },
        _ => {},
    }
}

/// No two sources have the same token, and a token leads to its source.
pub proof fn tokens_are_unique(s: ServerView, id1: u64, i1: int, id2: u64, i2: int)
    requires
        s.wf(),
        s.coroutines.contains_key(id1),
        s.coroutines.contains_key(id2),
        0 <= i1 < s.coroutines[id1].io.len(),
        0 <= i2 < s.coroutines[id2].io.len(),
        s.coroutines[id1].io[i1].token == s.coroutines[id2].io[i2].token,
    ensures
        id1 == id2,
        i1 == i2,
        s.source(s.coroutines[id1].io[i1].token) == s.coroutines[id1].io[i1],
{
}

/// There are as many sources and free tokens as the server has room for.
pub proof fn tokens_add_up(s: ServerView)
    requires
        s.wf(),
    ensures
        s.taken.len() + s.free.len() == CAPACITY,
{
    upkeep::lemma_free_tokens(s);
}

/// When a coroutine leaves, all its tokens are free, and that of the source that it
/// wrapped last is given out next.
pub proof fn freed_tokens_are_given_out_first(s: ServerView, id: u64)
    requires
        s.wf(),
        s.coroutines.contains_key(id),
    ensures
        forall|i: int|
            0 <= i < s.coroutines[id].io.len() ==> {
                let token = (#[trigger] s.coroutines[id].io[i]).token;
                &&& !s.retired(id).server.taken.contains_key(token.0)
                &&& s.retired(id).server.free.contains(token.0)
            },
        s.coroutines[id].io.len() > 0 ==> s.retired(id).server.next_token()
            == s.coroutines[id].io.last().token,
{
    let c = s.coroutines[id];
    let t = s.retired(id).server;
    let n = c.io.len();
    assert forall|i: int| 0 <= i < n implies {
        let token = (#[trigger] c.io[i]).token;
        &&& !t.taken.contains_key(token.0)
        &&& t.free.contains(token.0)
    } by {
        assert(c.tokens()[i] == c.io[i].token.0);
        assert(c.tokens().contains(c.io[i].token.0));
        assert(t.free[n - 1 - i] == c.tokens()[i]);
    }
}

/// A coroutine that has been started is not started again.
pub proof fn coroutines_are_started_once(s: ServerView, id: u64, k: u64, j: int)
    requires
        s.wf(),
        s.coroutines.contains_key(id),
        s.coroutines[id] != CoroutineView::spawned() || s.active() == Some(id),
        s.coroutines.contains_key(k),
        0 <= j < s.coroutines[k].children.len(),
    ensures
        s.coroutines[k].children[j] != id,
{
}

/// While the server waits for an event, every coroutine that has not ended waits for
/// one, and all that were spawned have been started.
pub proof fn idle_server_has_started_all(s: ServerView)
    requires
        s.wf(),
        s.phase is Idle,
    ensures
        forall|id: u64| #[trigger]
            s.coroutines.contains_key(id) ==> {
                &&& s.coroutines[id].state is BlockedOn || s.is_left_over(id)
                &&& s.coroutines[id].children.len() == 0
            },
{
    upkeep::lemma_idle(s);
}

/// A coroutine that has ended can only be known while the tokens of its sources are
/// taken. An event on one of them drops it, and frees all its tokens. It has been
/// counted out before, and is not counted out again: the event loop goes on.
pub proof fn event_drops_what_is_left_over(s: ServerView, token: Token, events: EventSet)
    requires
        s.wf(),
        s.phase is Idle,
        s.taken.contains_key(token.0),
        s.is_left_over(s.taken[token.0].coroutine),
    ensures
        ({
            let id = s.taken[token.0].coroutine;
            let r = s.ready(token, events);
            &&& r.step == Step::Done
            &&& r.server.coroutines == s.coroutines.remove(id)
            &&& r.server.coroutines_no == s.coroutines_no
            &&& forall|i: int|
                0 <= i < s.coroutines[id].io.len() ==> !r.server.taken.contains_key(
                    (#[trigger] s.coroutines[id].io[i]).token.0,
                )
        }),
{
    let source = s.taken[token.0];
    let id = source.coroutine;
    let c = s.coroutines[id];
    let t = s.ready(token, events).server;
    upkeep::lemma_same_parts(s, s.ticked());
    lemma_dispatched_in_steps(s.ticked(), source, events);
    assert(t.coroutines =~= s.coroutines.remove(id));
    assert forall|i: int| 0 <= i < c.io.len() implies !t.taken.contains_key(
        (#[trigger] c.io[i]).token.0,
    ) by {
        assert(c.tokens()[i] == c.io[i].token.0);
        assert(c.tokens().contains(c.io[i].token.0));
    }
}

/// A coroutine that was spawned is not lost: whatever happens, it has yet to be
/// started, unless it is what is resumed next.
pub proof fn spawned_coroutines_are_started(s: ServerView, op: Operation, id: u64)
    requires
        s.wf(),
        s.allows(op),
        s.coroutines.contains_key(id),
        s.coroutines[id].state is Running,
        s.active() != Some(id),
    ensures
        s.after(op).coroutines.contains_key(id),
        s.after(op).coroutines[id] == CoroutineView::spawned(),
        s.after(op).active() == Some(id) || s.after(op).is_listed(id),
        !(s.after(op).phase is Idle),
{
    let t = s.after(op);
    operation_keeps_wf(s, op);
    if s.phase is Idle {
        upkeep::lemma_idle(s);
    }
    if op is Resumed {
        lemma_unstarted_stays(s, op->ok, id);
    }
    assert(t.coroutines.contains_key(id));
    if t.phase is Idle {
        upkeep::lemma_idle(t);
    }
}

/// Word of a resumed coroutine leaves those alone that have yet to be started.
proof fn lemma_unstarted_stays(s: ServerView, ok: bool, id: u64)
    requires
        s.wf(),
        s.allows(Operation::Resumed { ok }),
        s.coroutines.contains_key(id),
        s.coroutines[id].state is Running,
        s.active() != Some(id),
    ensures
        s.resumed(ok).server.coroutines.contains_key(id),
        s.resumed(ok).server.coroutines[id] == s.coroutines[id],
{
    lemma_resumed_in_steps(s, ok);
}

/// Numbers of coroutines are never used again.
pub proof fn numbers_are_not_used_again(s: ServerView, op: Operation, id: u64)
    requires
        s.wf(),
        s.allows(op),
        s.after(op).coroutines.contains_key(id),
        !s.coroutines.contains_key(id),
    ensures
        id == s.next_id,
        s.after(op).next_id == s.next_id + 1,
        s.after(op).coroutines[id] == CoroutineView::spawned(),
{
    match op {
        Operation::Resumed { ok } => {
            lemma_resumed_in_steps(s, ok);
        },
        Operation::Ready { token, events } => {
            upkeep::lemma_same_parts(s, s.ticked());
            if s.taken.contains_key(token.0) {
                lemma_dispatched_in_steps(s.ticked(), s.taken[token.0], events);
            }
        },
        Operation::Timeout { token, iteration } => {
            if s.taken.contains_key(token.0) {
                let timer = s.timer(token);
                let v = s.ticked().with_timer(token, timer.notified(iteration));
                upkeep::lemma_notified(s, token, iteration);
                lemma_dispatched_in_steps(
                    v,
                    s.taken[token.0],
                    timeout_events(timer, iteration),
                );
            }
        },
        _ => {},
    }
}

/// A timer after some number of resets.
pub open spec fn reset_times(timer: Timer, n: nat) -> Timer
    decreases n,
{
    if n == 0 {
        timer
    } else {
        reset_times(timer, (n - 1) as nat).spec_reset()
    }
}

/// Any pending notification is ignored once a timer has been reset: neither the
/// timer as it is, nor once it has been started anew, expects a notification that
/// was asked for before. (The count of resets comes round to where it was after a
/// full turn of its type.)
pub proof fn reset_voids_pending_notifications(
    timer: Timer,
    n: nat,
    answer: Option<Timeout>,
)
    requires
        0 < n < 0x1_0000_0000,
    ensures
        ({
            let after = reset_times(timer, n);
            &&& !after.expects(timer.iteration)
            &&& !after.restarting().started_with(answer).expects(timer.iteration)
            &&& after.notified(timer.iteration) == after
        }),
{
    lemma_reset_times(timer, n);
}

/// Each reset counts.
proof fn lemma_reset_times(timer: Timer, n: nat)
    requires
        n < 0x1_0000_0000,
    ensures
        reset_times(timer, n).iteration == (if timer.iteration + n < 0x1_0000_0000 {
            timer.iteration + n
        } else {
            timer.iteration + n - 0x1_0000_0000
        }),
    decreases n,
{
    if n > 0 {
        lemma_reset_times(timer, (n - 1) as nat);
    }
}

/// A notification that a timer does not expect resumes no one, asks nothing of the
/// event loop, and leaves the timer as it is.
pub proof fn unexpected_notification_is_ignored(s: ServerView, token: Token, iteration: u32)
    requires
        s.wf(),
        s.phase is Idle,
        s.waits_are_watched(),
        s.is_timer(token),
        !s.timer(token).expects(iteration),
        !s.is_left_over(s.taken[token.0].coroutine),
    ensures
        ({
            let id = s.taken[token.0].coroutine;
            s.timeout(token, iteration) == (Reaction {
                server: s.ticked().with_coroutine(
                    id,
                    CoroutineView { last_tick: s.ticked().tick, ..s.coroutines[id] },
                ),
                actions: Seq::empty(),
                step: Step::Done,
            })
        }),
{
    let source = s.taken[token.0];
    let id = source.coroutine;
    let c = s.coroutines[id];
    let d = CoroutineView { last_tick: s.ticked().tick, ..c };
    let v = s.ticked().with_timer(token, s.timer(token));
    assert(s.coroutines.contains_key(id));
    upkeep::lemma_idle(s);
    assert(v =~= s.ticked()) by {
        assert(v.coroutines[id].io =~= c.io);
        assert(v.coroutines =~= s.coroutines);
    }
    assert(c.told(source.index as int, EventSet::spec_none(), s.ticked().tick) == d);
    lemma_nothing_to_settle(d, d.state->BlockedOn_0, d.io.len());
    assert(d.settled() =~= d);
    assert(s.timeout(token, iteration).server =~= s.ticked().with_coroutine(id, d));
}

/// A timer that was reset is started anew when it is waited for again: a request
/// that had been canceled is taken back, and the event loop is asked once more, for
/// the current iteration.
pub proof fn reset_timer_is_started_anew(source: EventSourceShared, rw: RW)
    requires
        source.wf(),
        source.registered,
        source.io is Timer,
    ensures
        ({
            let before = source.io->Timer_0;
            let after = before.spec_reset();
            let reset = EventSourceShared { io: Io::Timer(after), ..source };
            let start = Action::SetTimeout {
                token: source.token,
                iteration: after.iteration,
                delay: before.delay,
            };
            &&& before.status is Running ==> reset.watch_actions(rw)
                == seq![Action::ClearTimeout { timeout: before.handle->0 }, start]
            &&& before.status is Done || before.status is Stopped ==> reset.watch_actions(rw)
                == seq![start]
            &&& reset.watched().io == Io::Timer(Timer { status: TimerStatus::Stopped, ..after })
        }),
{
}

/// A notification that a timer expects resumes the coroutine that waits for the
/// timer, and the timer is done.
pub proof fn expected_notification_resumes(s: ServerView, token: Token, iteration: u32, rw: RW)
    requires
        s.wf(),
        s.phase is Idle,
        s.is_timer(token),
        s.timer(token).expects(iteration),
        ({
            let source = s.taken[token.0];
            let c = s.coroutines[source.coroutine];
            &&& c.last_tick != s.ticked().tick
            &&& c.state == State::BlockedOn(rw)
            &&& c.blocked_on[source.index as int]
            &&& rw.reads()
        }),
    ensures
        ({
            let source = s.taken[token.0];
            let r = s.timeout(token, iteration);
            &&& r.step == Step::Resume(source.coroutine)
            &&& r.server.runs(source.coroutine)
            &&& r.server.coroutines[source.coroutine].last_event == (EventView {
                index: source.index as nat,
                rw: RW::Read,
            })
            &&& r.server.timer(token) == (Timer { status: TimerStatus::Done, ..s.timer(token) })
        }),
{
    let source = s.taken[token.0];
    assert(s.coroutines.contains_key(source.coroutine));
}

impl ServerView {
    /// Whether each of the operations keeps to what a coroutine owns.
    pub open spec fn are_tidy(self, ops: Seq<Operation>) -> bool
        decreases ops.len(),
    {
        ops.len() > 0 ==> {
            &&& self.are_tidy(ops.drop_last())
            &&& self.after_all(ops.drop_last()).is_tidy(ops.last())
        }
    }
}

/// Whatever happens to a new server, all its coroutines are tidy, if each operation
/// keeps to what a coroutine owns.
pub proof fn history_is_tidy(ops: Seq<Operation>)
    requires
        ServerView::initial().allows_all(ops),
        ServerView::initial().are_tidy(ops),
    ensures
        ServerView::initial().after_all(ops).tidy(),
    decreases ops.len(),
{
    if ops.len() > 0 {
        history_is_wf(ops.drop_last());
        history_is_tidy(ops.drop_last());
        operation_keeps_tidy(ServerView::initial().after_all(ops.drop_last()), ops.last());
    }
}

/// Only one coroutine runs at a time: the one that was resumed last. All others
/// wait, have ended, or have yet to be started.
pub proof fn one_coroutine_runs_at_a_time(s: ServerView, id: u64)
    requires
        s.wf(),
        s.coroutines.contains_key(id),
        s.coroutines[id].state is Running,
    ensures
        s.runs(id) || s.coroutines[id] == CoroutineView::spawned(),
        s.phase is Idle ==> !s.runs(id),
        forall|other: u64| s.runs(id) && #[trigger] s.runs(other) ==> other == id,
{
}

/// Sources are numbered in the order in which they were wrapped, and keep their
/// numbers: to wrap one more gives it the next number and leaves the others alone.
pub proof fn sources_are_numbered_in_order(s: ServerView, id: u64, io: Io)
    requires
        s.wf(),
        s.runs(id),
        s.free.len() > 0,
        io.wf(),
    ensures
        ({
            let before = s.coroutines[id].io;
            let after = s.wrapped_by(id, io).coroutines[id].io;
            &&& after.len() == before.len() + 1
            &&& after.drop_last() == before
            &&& after.last().index == before.len()
            &&& after.last().token == s.next_token()
            &&& forall|i: int| 0 <= i < after.len() ==> (#[trigger] after[i]).index == i
        }),
{
    upkeep::wrapped_by_keeps_wf(s, id, io);
    let before = s.coroutines[id].io;
    let after = s.wrapped_by(id, io).coroutines[id].io;
    assert(s.wrapped_by(id, io).coroutines.contains_key(id));
    assert(after.drop_last() =~= before);
    assert(after[before.len() as int].index == before.len());
}

/// A coroutine that goes to sleep waits for a new timer and nothing else, and the
/// event loop is asked to notify that timer after the delay.
pub proof fn sleep_waits_for_its_delay(c: CoroutineView, token: Token, delay: u64)
    requires
        c.wf(),
        c.tidy(),
        c.io.len() < CAPACITY,
    ensures
        ({
            let n = c.io.len();
            let timer = Timer::spec_new(delay);
            let wrapped = c.with_source(token, Io::Timer(timer));
            let d = wrapped.blocked(
                RW::Read,
                mask::bits_at(wrapped.blocked_on.len(), seq![n]),
            );
            &&& d.settle_actions(RW::Read).contains(
                Action::SetTimeout { token, iteration: 0, delay },
            )
            &&& d.settled().state == State::BlockedOn(RW::Read)
            &&& d.settled().io[n as int].io == Io::Timer(timer)
            &&& forall|i: int|
                0 <= i < d.settled().blocked_on.len() ==> (#[trigger] d.settled().blocked_on[i]
                    <==> i == n)
        }),
{
    let n = c.io.len();
    let timer = Timer::spec_new(delay);
    let wrapped = c.with_source(token, Io::Timer(timer));
    let positions = seq![n];
    let d = wrapped.blocked(RW::Read, mask::bits_at(wrapped.blocked_on.len(), positions));
    lemma_mask_len(n);
    lemma_mask_len(n + 1);
    assert(positions[0] == n);
    assert(!d.registered[n as int]) by {
        if n < c.registered.len() {
            assert(!c.registered[n as int]);
        }
    }
    assert(d.blocked_on[n as int]);
    let start = Action::SetTimeout { token, iteration: 0, delay };
    let earlier = d.settle_actions_upto(RW::Read, n);
    assert(d.settle_source_actions(n as int, RW::Read) == seq![start]);
    assert(d.settle_actions(RW::Read) == earlier + seq![start]);
    assert((earlier + seq![start])[earlier.len() as int] == start);
}

/// No notification of a timer resumes a coroutine that does not wait for it: it can
/// only resume the coroutine that wrapped the timer, which has to be blocked on the
/// timer and to wait to read, and only if the timer expects it.
pub proof fn only_awaited_notifications_resume(
    s: ServerView,
    token: Token,
    iteration: u32,
    id: u64,
)
    requires
        s.wf(),
        s.phase is Idle,
        s.taken.contains_key(token.0) ==> s.is_timer(token),
        s.timeout(token, iteration).step == Step::Resume(id),
    ensures
        s.is_timer(token),
        s.timer(token).expects(iteration),
        ({
            let source = s.taken[token.0];
            let c = s.coroutines[source.coroutine];
            &&& id == source.coroutine
            &&& c.state matches State::BlockedOn(rw) && rw.reads()
            &&& c.blocked_on[source.index as int]
        }),
{
    upkeep::lemma_idle(s);
    assert(s.coroutines.contains_key(s.taken[token.0].coroutine));
}

impl ServerView {
    /// Whether the wait of the coroutine goes on in the course of the operations: it
    /// is neither resumed nor reported to have failed.
    pub open spec fn waits_through(self, ops: Seq<Operation>, id: u64) -> bool
        decreases ops.len(),
    {
        ops.len() > 0 ==> {
            let before = self.after_all(ops.drop_last());
            &&& self.waits_through(ops.drop_last(), id)
            &&& before.active() == Some(id) || before.after(ops.last()).active() != Some(id)
            &&& ops.last() matches Operation::Resumed { ok } ==> ok || before.active() != Some(id)
        }
    }
}

/// For as long as the wait of a coroutine goes on, it waits for the same.
proof fn lemma_wait_goes_on(s: ServerView, ops: Seq<Operation>, id: u64)
    requires
        s.wf(),
        s.coroutines.contains_key(id),
        s.coroutines[id].state is BlockedOn,
        s.allows_all(ops),
        s.waits_through(ops, id),
    ensures
        s.after_all(ops).wf(),
        s.after_all(ops).coroutines.contains_key(id),
        s.after_all(ops).coroutines[id].state == s.coroutines[id].state,
        s.after_all(ops).coroutines[id].blocked_on == s.coroutines[id].blocked_on,
    decreases ops.len(),
{
    if ops.len() > 0 {
        let before = s.after_all(ops.drop_last());
        lemma_wait_goes_on(s, ops.drop_last(), id);
        operation_keeps_wf(before, ops.last());
        waits_last(before, ops.last(), id);
    }
}

/// Only an event or a notification resumes a coroutine that waits, and only one on a
/// source that it is blocked on and of a kind that it waits for.
proof fn lemma_wait_ends(s: ServerView, op: Operation, id: u64)
    requires
        s.wf(),
        s.allows(op),
        s.coroutines.contains_key(id),
        s.coroutines[id].state is BlockedOn,
        s.active() != Some(id),
        s.after(op).active() == Some(id),
    ensures
        ({
            let c = s.coroutines[id];
            let last = s.after(op).coroutines[id].last_event;
            let rw = c.state->BlockedOn_0;
            &&& last.index < c.io.len()
            &&& c.blocked_on[last.index as int]
            &&& rw.reads() || last.rw.writes()
            &&& rw.writes() || last.rw.reads()
        }),
{
    match op {
        Operation::Ready { token, events } => {
            upkeep::lemma_idle(s);
            upkeep::lemma_same_parts(s, s.ticked());
            if s.taken.contains_key(token.0) {
                assert(s.coroutines.contains_key(s.taken[token.0].coroutine));
                lemma_dispatched_in_steps(s.ticked(), s.taken[token.0], events);
            }
        },
        Operation::Timeout { token, iteration } => {
            upkeep::lemma_idle(s);
            if s.taken.contains_key(token.0) {
                let timer = s.timer(token);
                let v = s.ticked().with_timer(token, timer.notified(iteration));
                assert(s.coroutines.contains_key(s.taken[token.0].coroutine));
                upkeep::lemma_notified(s, token, iteration);
                lemma_dispatched_in_steps(
                    v,
                    s.taken[token.0],
                    timeout_events(timer, iteration),
                );
            }
        },
        Operation::Resumed { ok } => {
            upkeep::resumed_keeps_wf(s, ok);
            lemma_resumed_in_steps(s, ok);
        },
        _ => {},
    }
}

/// A wait ends only with what was waited for, whatever happens meanwhile: when a
/// coroutine that waits for `rw` on the sources at some positions is resumed, it is
/// told of an event on one of them. If it waits for reads only, the event is a read;
/// if it waits for writes only, it is a write.
pub proof fn wait_ends_only_with_what_was_waited_for(
    s: ServerView,
    ops: Seq<Operation>,
    op: Operation,
    id: u64,
    rw: RW,
    positions: Seq<nat>,
)
    requires
        s.wf(),
        s.coroutines.contains_key(id),
        s.coroutines[id].state == State::BlockedOn(rw),
        s.coroutines[id].blocked_on == mask::bits_at(
            s.coroutines[id].blocked_on.len(),
            positions,
        ),
        s.allows_all(ops),
        s.waits_through(ops, id),
        s.after_all(ops).allows(op),
        s.after_all(ops).active() != Some(id),
        s.after_all(ops).after(op).active() == Some(id),
    ensures
        ({
            let last = s.after_all(ops).after(op).coroutines[id].last_event;
            &&& positions.contains(last.index)
            &&& rw.reads() || last.rw.writes()
            &&& rw.writes() || last.rw.reads()
        }),
{
    let t = s.after_all(ops);
    let last = t.after(op).coroutines[id].last_event;
    lemma_wait_goes_on(s, ops, id);
    lemma_wait_ends(t, op, id);
    lemma_mask_len(t.coroutines[id].io.len());
    assert(t.coroutines[id].wf());
    assert(s.coroutines[id].blocked_on[last.index as int]);
    let k = choose|k: int| 0 <= k < positions.len() && #[trigger] positions[k] == last.index as int;
    assert(positions[k] == last.index);
}

} // verus!
