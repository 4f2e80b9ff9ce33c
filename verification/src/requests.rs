//! What the server asks for is there to be asked for.
use crate::coroutine::CoroutineView;
use crate::event::{EventSet, RW};
use crate::history::Operation;
use crate::laws;
use crate::model::{shutdown_actions, Phase, ServerView};
use crate::slab::EventSource;
use crate::source::Action;
use crate::steps::{
    child_heard, child_outcome, child_reported, event_told, lemma_dispatched_in_steps,
    lemma_resumed_in_steps, timeout_events,
};
use crate::upkeep;
use vstd::prelude::*;

verus! {

/// Whether a request makes sense, once the server has come to `t`: what is to be
/// watched or started is there and is of that kind, and what is to be dropped is
/// no longer there.
pub open spec fn is_apt(action: Action, t: ServerView) -> bool {
    match action {
        Action::Register { token, .. } | Action::Reregister { token, .. } => {
            &&& t.taken.contains_key(token.0)
            &&& t.source(token).io is Raw
        },
        Action::SetTimeout { token, iteration, delay } => {
            &&& t.is_timer(token)
            &&& t.timer(token).iteration == iteration
            &&& t.timer(token).delay == delay
        },
        Action::Deregister { token } | Action::Remove { token } => !t.taken.contains_key(token.0),
        Action::Retire { coroutine } => !t.coroutines.contains_key(coroutine),
        Action::ClearTimeout { .. } | Action::Shutdown => true,
    }
}

/// Whether all requests make sense.
pub open spec fn are_apt(actions: Seq<Action>, t: ServerView) -> bool {
    forall|k: int| 0 <= k < actions.len() ==> is_apt(#[trigger] actions[k], t)
}

/// Two lists of requests make sense together if each does.
proof fn lemma_both_apt(first: Seq<Action>, last: Seq<Action>, t: ServerView)
    requires
        are_apt(first, t),
        are_apt(last, t),
    ensures
        are_apt(first + last, t),
{
    assert forall|k: int| 0 <= k < (first + last).len() implies is_apt(
        #[trigger] (first + last)[k],
        t,
    ) by {
        if k < first.len() {
            assert((first + last)[k] == first[k]);
        } else {
            assert((first + last)[k] == last[k - first.len()]);
        }
    }
}

/// What is asked when a coroutine is seen to makes sense while its sources are
/// there, settled.
proof fn lemma_settling_is_apt(c: CoroutineView, rw: RW, n: nat, id: u64, t: ServerView)
    requires
        t.wf(),
        n <= c.io.len(),
        t.coroutines.contains_key(id),
        t.coroutines[id].io == c.settled().io,
    ensures
        are_apt(c.settle_actions_upto(rw, n), t),
    decreases n,
{
    if n > 0 {
        let i = n - 1;
        let more = c.settle_source_actions(i, rw);
        lemma_settling_is_apt(c, rw, i as nat, id, t);
        assert(t.coroutines[id].io[i] == c.settled_source(i));
        assert(t.source(c.io[i].token) == c.settled_source(i));
        assert(are_apt(more, t));
        lemma_both_apt(c.settle_actions_upto(rw, i as nat), more, t);
    }
}

/// What is asked when sources are dropped makes sense once they are gone.
proof fn lemma_dropping_is_apt(c: CoroutineView, n: nat, t: ServerView)
    requires
        n <= c.io.len(),
        forall|i: int| 0 <= i < c.io.len() ==> !t.taken.contains_key((#[trigger] c.io[i]).token.0),
    ensures
        are_apt(c.drop_actions_upto(n), t),
    decreases n,
{
    if n > 0 {
        let i = n - 1;
        let more = c.io[i].drop_actions().push(Action::Remove { token: c.io[i].token });
        lemma_dropping_is_apt(c, i as nat, t);
        assert(!t.taken.contains_key(c.io[i].token.0));
        assert(are_apt(more, t));
        lemma_both_apt(c.drop_actions_upto(i as nat), more, t);
    }
}

/// What is asked when a coroutine leaves makes sense once it is gone.
proof fn lemma_retiring_is_apt(s: ServerView, id: u64, t: ServerView)
    requires
        forall|x: usize| #[trigger]
            t.taken.contains_key(x) ==> !s.coroutines[id].tokens().contains(x),
        !t.coroutines.contains_key(id),
    ensures
        are_apt(s.retired(id).actions, t),
        are_apt(s.dropped(id).actions, t),
{
    let c = s.coroutines[id];
    let stop = shutdown_actions(s.coroutines_no.wrapping_sub(1));
    let retire = seq![Action::Retire { coroutine: id }];
    assert forall|i: int| 0 <= i < c.io.len() implies !t.taken.contains_key(
        (#[trigger] c.io[i]).token.0,
    ) by {
        assert(c.tokens()[i] == c.io[i].token.0);
    }
    lemma_dropping_is_apt(c, c.io.len(), t);
    assert(are_apt(stop, t));
    assert(are_apt(retire, t));
    lemma_both_apt(c.drop_actions(), stop, t);
    lemma_both_apt(c.drop_actions() + stop, retire, t);
    lemma_both_apt(c.drop_actions(), retire, t);
}

/// What is asked when a coroutine is seen to makes sense afterwards.
proof fn lemma_apt_after_resume(s: ServerView, id: u64)
    requires
        s.wf(),
        s.phase == (Phase::Resumed { coroutine: id }),
        !(s.coroutines[id].state is Running),
        s.after_resume(id).server.wf(),
    ensures
        are_apt(s.after_resume(id).actions, s.after_resume(id).server),
{
    let c = s.coroutines[id];
    let t = s.after_resume(id).server;
    if c.children.len() == 0 {
        if c.state is Finished {
            assert forall|x: usize| #[trigger]
                t.taken.contains_key(x) implies !c.tokens().contains(x) by {
                assert(c.tokens().to_set().contains(x) == c.tokens().contains(x));
            }
            lemma_retiring_is_apt(s, id, t);
        } else {
            lemma_settling_is_apt(c, c.state->BlockedOn_0, c.io.len(), id, t);
        }
    }
}

/// What is asked on account of a child makes sense afterwards, and still does when
/// the server has seen to the parent.
proof fn lemma_apt_child(s: ServerView, ok: bool, t: ServerView)
    requires
        s.wf(),
        s.phase is Starting,
        s.allows(Operation::Resumed { ok }),
        t.wf(),
        t == child_reported(s, ok).after_resume(s.phase->parent).server,
    ensures
        are_apt(child_outcome(s, ok).actions, t),
{
    let parent = s.phase->parent;
    let child = s.phase->child;
    let h = child_heard(s, ok);
    let c = h.coroutines[child];
    let u = child_reported(s, ok);
    lemma_resumed_in_steps(s, ok);
    assert(parent != child);
    if c.state is BlockedOn {
        assert(t.coroutines[child] == c.settled());
        lemma_settling_is_apt(c, c.state->BlockedOn_0, c.io.len(), child, t);
    } else if ok || c.io.len() == 0 {
        assert forall|x: usize| #[trigger]
            t.taken.contains_key(x) implies !c.tokens().contains(x) by {
            assert(u.taken.contains_key(x));
            assert(c.tokens().to_set().contains(x) == c.tokens().contains(x));
        }
        lemma_retiring_is_apt(h, child, t);
    }
}

/// Every request of the server makes sense: what is to be watched is there, a
/// timeout is for a timer that is there and bears its current iteration and delay,
/// and what is to be dropped is no longer there.
pub proof fn requests_are_apt(s: ServerView, op: Operation)
    requires
        s.wf(),
        s.allows(op),
    ensures
        are_apt(s.asks(op), s.after(op)),
{
    let t = s.after(op);
    laws::operation_keeps_wf(s, op);
    match op {
        Operation::Resumed { ok } => {
            lemma_resumed_in_steps(s, ok);
            match s.phase {
                Phase::Idle => {},
                Phase::Resumed { coroutine } => {
                    let u = s.heard(ok);
                    lemma_apt_after_resume(u, coroutine);
                },
                Phase::Starting { parent, child } => {
                    let u = child_reported(s, ok);
                    lemma_apt_after_resume(u, parent);
                    lemma_apt_child(s, ok, t);
                    lemma_both_apt(child_outcome(s, ok).actions, u.after_resume(parent).actions, t);
                },
            }
        },
        Operation::Ready { token, events } => {
            upkeep::lemma_same_parts(s, s.ticked());
            if s.taken.contains_key(token.0) {
                lemma_apt_dispatched(s.ticked(), s.taken[token.0], events);
            }
        },
        Operation::Timeout { token, iteration } => {
            if s.taken.contains_key(token.0) {
                let timer = s.timer(token);
                let v = s.ticked().with_timer(token, timer.notified(iteration));
                upkeep::lemma_notified(s, token, iteration);
                lemma_apt_dispatched(v, s.taken[token.0], timeout_events(timer, iteration));
            }
        },
        _ => {},
    }
}

/// What is asked on account of an event makes sense afterwards.
proof fn lemma_apt_dispatched(s: ServerView, source: EventSource, events: EventSet)
    requires
        s.wf(),
        s.phase is Idle,
        s.coroutines.contains_key(source.coroutine),
        source.index < s.coroutines[source.coroutine].io.len(),
        s.dispatched(source, events).server.wf(),
    ensures
        are_apt(s.dispatched(source, events).actions, s.dispatched(source, events).server),
{
    let u = event_told(s, source, events);
    lemma_dispatched_in_steps(s, source, events);
    if u.coroutines[source.coroutine].state is BlockedOn {
        lemma_apt_after_resume(u, source.coroutine);
    } else if u.coroutines[source.coroutine].state is Finished {
        let id = source.coroutine;
        let tokens = u.coroutines[id].tokens();
        let t = s.dispatched(source, events).server;
        assert forall|x: usize| #[trigger] t.taken.contains_key(x) implies !tokens.contains(x) by {
            assert(tokens.to_set().contains(x) == tokens.contains(x));
        }
        lemma_retiring_is_apt(u, id, t);
    }
}

} // verus!
