//! Longer transitions of a server, taken apart into steps.
use crate::event::EventSet;
use crate::history::Operation;
use crate::model::{Outcome, Phase, Reaction, ServerView, Step};
use crate::slab::EventSource;
use crate::timer::Timer;
use crate::upkeep;
use vstd::prelude::*;

verus! {

/// The server once a child has been heard of, and has handed over what it spawned.
pub open spec fn child_heard(s: ServerView, ok: bool) -> ServerView {
    s.heard(ok).handed_over(s.phase->parent, s.phase->child)
}

/// What becomes of a child that was started.
pub open spec fn child_outcome(s: ServerView, ok: bool) -> Outcome {
    if ok {
        child_heard(s, ok).reregistered(s.phase->child)
    } else {
        child_heard(s, ok).child_failed(s.phase->child)
    }
}

/// The server once it has taken word of a child, and turns to the parent again.
pub open spec fn child_reported(s: ServerView, ok: bool) -> ServerView {
    ServerView {
        phase: Phase::Resumed { coroutine: s.phase->parent },
        ..child_outcome(s, ok).server
    }
}

/// The server once it has told a coroutine of an event.
pub open spec fn event_told(s: ServerView, source: EventSource, events: EventSet) -> ServerView {
    let told = s.coroutines[source.coroutine].told(source.index as int, events, s.tick);
    ServerView {
        phase: Phase::Resumed { coroutine: source.coroutine },
        ..s.with_coroutine(source.coroutine, told)
    }
}

/// Word of a resumed coroutine is taken in steps: first of a child, if it was one,
/// and then of the coroutine that the server turns to.
pub(crate) proof fn lemma_resumed_in_steps(s: ServerView, ok: bool)
    requires
        s.wf(),
        s.allows(Operation::Resumed { ok }),
    ensures
        s.heard(ok).wf(),
        s.phase matches Phase::Resumed { coroutine } ==> {
            let t = s.heard(ok);
            &&& t.phase == s.phase
            &&& !(t.coroutines[coroutine].state is Running)
            &&& s.resumed(ok) == t.after_resume(coroutine)
        },
        s.phase matches Phase::Starting { parent, child } ==> {
            let u = child_heard(s, ok);
            let t = child_reported(s, ok);
            &&& u.wf()
            &&& u.phase == s.phase
            &&& !(u.coroutines[child].state is Running)
            &&& !ok ==> u.coroutines[child].state is Finished
            &&& u.coroutines[child].children.len() == 0
            &&& t.wf()
            &&& t.coroutines.contains_key(parent)
            &&& !(t.coroutines[parent].state is Running)
            &&& s.resumed(ok).server == t.after_resume(parent).server
            &&& s.resumed(ok).step == t.after_resume(parent).step
            &&& s.resumed(ok).actions == child_outcome(s, ok).actions + t.after_resume(
                parent,
            ).actions
        },
{
    upkeep::lemma_heard(s, ok);
    if s.phase is Starting {
        upkeep::lemma_handed_over(s.heard(ok));
        if ok {
            upkeep::lemma_child_seen_to(child_heard(s, ok));
        } else {
            upkeep::lemma_child_failed(child_heard(s, ok));
        }
        assert(child_outcome(s, ok).server.after_resume(s.phase->parent) == child_reported(
            s,
            ok,
        ).after_resume(s.phase->parent));
    }
}

/// An event is taken in two steps, too.
pub(crate) proof fn lemma_dispatched_in_steps(s: ServerView, source: EventSource, events: EventSet)
    requires
        s.wf(),
        s.phase is Idle,
        s.coroutines.contains_key(source.coroutine),
        source.index < s.coroutines[source.coroutine].io.len(),
    ensures
        ({
            let id = source.coroutine;
            let t = event_told(s, source, events);
            &&& t.wf()
            &&& if s.coroutines[id].woken_by(source.index as int, events, s.tick) {
                s.dispatched(source, events) == (Reaction {
                    server: t,
                    actions: Seq::empty(),
                    step: Step::Resume(id),
                })
            } else if s.coroutines[id].state is Finished {
                &&& t.coroutines[id].children.len() == 0
                &&& t.coroutines[id].tokens() == s.coroutines[id].tokens()
                &&& s.dispatched(source, events) == (Reaction {
                    server: ServerView { phase: Phase::Idle, ..t.dropped(id).server },
                    actions: t.dropped(id).actions,
                    step: Step::Done,
                })
            } else {
                &&& t.coroutines[id].state is BlockedOn
                &&& s.dispatched(source, events) == t.after_resume(id)
            }
        }),
{
    let id = source.coroutine;
    let told = s.coroutines[id].told(source.index as int, events, s.tick);
    upkeep::lemma_idle(s);
    upkeep::lemma_told(s, source, events);
    upkeep::lemma_coroutine_changes(s.coroutines[id]);
    if s.coroutines[id].state is Finished {
        let t = event_told(s, source, events);
        assert(s.dispatched(source, events).server =~= ServerView {
            phase: Phase::Idle,
            ..t.dropped(id).server
        });
    }
    assert(s.with_coroutine(id, told).after_resume(id) == event_told(
        s,
        source,
        events,
    ).after_resume(id));
}

/// What becomes of the notification of a timer, as an event.
pub open spec fn timeout_events(timer: Timer, iteration: u32) -> EventSet {
    if timer.expects(iteration) {
        EventSet::spec_readable()
    } else {
        EventSet::spec_none()
    }
}

} // verus!
