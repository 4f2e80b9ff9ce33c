//! How many coroutines have not ended, and when the event loop is stopped.
use crate::coroutine::CoroutineView;
use crate::event::{EventSet, RW};
use crate::history::Operation;
use crate::laws;
use crate::model::{shutdown_actions, Phase, ServerView};
use crate::slab::EventSource;
use crate::source::Action;
use crate::steps::{
    child_heard, child_outcome, child_reported, event_told, lemma_dispatched_in_steps,
    lemma_resumed_in_steps, timeout_events,
};
use crate::upkeep;
use vstd::prelude::*;

verus! {

/// Seeing to a coroutine asks for no stop of the event loop.
proof fn lemma_settling_stops_nothing(c: CoroutineView, rw: RW, n: nat)
    ensures
        !c.settle_actions_upto(rw, n).contains(Action::Shutdown),
        !c.drop_actions_upto(n).contains(Action::Shutdown),
    decreases n,
{
    if n > 0 {
        lemma_settling_stops_nothing(c, rw, (n - 1) as nat);
        let settled = c.settle_actions_upto(rw, (n - 1) as nat);
        let more = c.settle_source_actions(n - 1, rw);
        assert forall|k: int| 0 <= k < more.len() implies more[k] != Action::Shutdown by {}
        assert forall|k: int| 0 <= k < (settled + more).len() implies (settled + more)[k]
            != Action::Shutdown by {
            if k < settled.len() {
                assert(settled.contains(settled[k]));
            }
        }
        let dropped = c.drop_actions_upto((n - 1) as nat);
        let last = c.io[n - 1].drop_actions().push(Action::Remove { token: c.io[n - 1].token });
        assert forall|k: int| 0 <= k < last.len() implies last[k] != Action::Shutdown by {}
        assert forall|k: int| 0 <= k < (dropped + last).len() implies (dropped + last)[k]
            != Action::Shutdown by {
            if k < dropped.len() {
                assert(dropped.contains(dropped[k]));
            }
        }
    }
}

/// A coroutine that leaves stops the event loop if the counter reaches zero.
proof fn lemma_retiring_stops(s: ServerView, id: u64)
    ensures
        s.retired(id).actions.contains(Action::Shutdown) <==> s.coroutines_no.wrapping_sub(1) == 0,
{
    let c = s.coroutines[id];
    let first = c.drop_actions();
    let stop = shutdown_actions(s.coroutines_no.wrapping_sub(1));
    let all = s.retired(id).actions;
    lemma_settling_stops_nothing(c, RW::Both, c.io.len());
    assert(all == first + stop + seq![Action::Retire { coroutine: id }]);
    if stop.len() > 0 {
        assert(all[first.len() as int] == Action::Shutdown);
    } else {
        assert forall|k: int| 0 <= k < all.len() implies all[k] != Action::Shutdown by {
            if k < first.len() {
                assert(first.contains(first[k]));
            }
        }
    }
}

/// There are finitely many coroutines that have not ended.
proof fn lemma_live_is_finite(s: ServerView)
    requires
        s.wf(),
    ensures
        s.live().finite(),
{
}

/// What follows once a coroutine has blocked or finished keeps the count right, and
/// stops the event loop if, and only if, no coroutine is left.
proof fn lemma_after_resume_counts(s: ServerView, id: u64)
    requires
        s.wf(),
        s.phase == (Phase::Resumed { coroutine: id }),
        !(s.coroutines[id].state is Running),
        s.counted(),
    ensures
        s.after_resume(id).server.counted(),
        s.live().len() < 0x1_0000_0000 ==> (s.after_resume(id).actions.contains(Action::Shutdown)
            <==> s.after_resume(id).server.live().len() == 0),
        !(s.coroutines[id].state is Finished) ==> {
            &&& s.after_resume(id).server.live() == s.live()
            &&& !s.after_resume(id).actions.contains(Action::Shutdown)
        },
{
    let c = s.coroutines[id];
    let t = s.after_resume(id).server;
    lemma_live_is_finite(s);
    assert(s.live().contains(id));
    assert(s.live().len() > 0);
    if c.children.len() > 0 {
        assert(s.coroutines[id].children[0] == c.children[0]);
        assert(t.live() =~= s.live());
    } else if c.state is Finished {
        lemma_retiring_stops(s, id);
        assert(t.live() =~= s.live().remove(id));
    } else {
        lemma_settling_stops_nothing(c, c.state->BlockedOn_0, c.io.len());
        assert(t.live() =~= s.live());
    }
}

/// Word of a child counts it out if it has ended. As its parent is left, the event
/// loop goes on.
proof fn lemma_child_counts(s: ServerView, ok: bool)
    requires
        s.wf(),
        s.phase is Starting,
        s.allows(Operation::Resumed { ok }),
        s.counted(),
    ensures
        child_reported(s, ok).counted(),
        child_reported(s, ok).live().len() <= s.live().len(),
        s.live().len() < 0x1_0000_0000 ==> !child_outcome(s, ok).actions.contains(
            Action::Shutdown,
        ),
{
    let parent = s.phase->parent;
    let child = s.phase->child;
    let u = child_heard(s, ok);
    let c = u.coroutines[child];
    let t = child_reported(s, ok);
    lemma_resumed_in_steps(s, ok);
    lemma_live_is_finite(s);
    lemma_live_is_finite(t);
    assert(s.coroutines.contains_key(child) && s.coroutines.contains_key(parent));
    assert(s.live().contains(child));
    assert(s.live().contains(parent));
    assert(t.live().contains(parent));
    assert(t.live().len() > 0);
    if c.state is BlockedOn {
        lemma_settling_stops_nothing(c, c.state->BlockedOn_0, c.io.len());
        assert(t.live() =~= s.live());
    } else {
        lemma_retiring_stops(u, child);
        assert(t.live() =~= s.live().remove(child));
        assert(t.coroutines_no == s.coroutines_no.wrapping_sub(1));
    }
}

/// Word of a resumed coroutine keeps the count right, and stops the event loop if,
/// and only if, no coroutine is left.
proof fn lemma_resumed_counts(s: ServerView, ok: bool)
    requires
        s.wf(),
        s.allows(Operation::Resumed { ok }),
        s.counted(),
    ensures
        s.resumed(ok).server.counted(),
        s.live().len() < 0x1_0000_0000 ==> (s.resumed(ok).actions.contains(Action::Shutdown)
            <==> s.resumed(ok).server.live().len() == 0),
{
    lemma_resumed_in_steps(s, ok);
    match s.phase {
        Phase::Idle => {},
        Phase::Resumed { coroutine } => {
            assert(s.heard(ok).live() =~= s.live());
            lemma_after_resume_counts(s.heard(ok), coroutine);
        },
        Phase::Starting { parent, child } => {
            let t = child_reported(s, ok);
            let first = child_outcome(s, ok).actions;
            let last = t.after_resume(parent).actions;
            lemma_child_counts(s, ok);
            lemma_after_resume_counts(t, parent);
            if s.live().len() < 0x1_0000_0000 {
                if last.contains(Action::Shutdown) {
                    let k = choose|k: int| 0 <= k < last.len() && last[k] == Action::Shutdown;
                    assert((first + last)[first.len() + k] == Action::Shutdown);
                }
                if (first + last).contains(Action::Shutdown) {
                    let k = choose|k: int|
                        0 <= k < (first + last).len() && (first + last)[k] == Action::Shutdown;
                    if k < first.len() {
                        assert(first.contains(first[k]));
                    } else {
                        assert(last[k - first.len()] == Action::Shutdown);
                    }
                }
            }
        },
    }
}

/// An event counts out no one, not even a coroutine that it drops.
proof fn lemma_dispatched_counts(s: ServerView, source: EventSource, events: EventSet)
    requires
        s.wf(),
        s.phase is Idle,
        s.coroutines.contains_key(source.coroutine),
        source.index < s.coroutines[source.coroutine].io.len(),
        s.counted(),
    ensures
        s.dispatched(source, events).server.counted(),
        s.dispatched(source, events).server.live() == s.live(),
        !s.dispatched(source, events).actions.contains(Action::Shutdown),
{
    let id = source.coroutine;
    let u = event_told(s, source, events);
    let t = s.dispatched(source, events).server;
    lemma_dispatched_in_steps(s, source, events);
    if s.coroutines[id].state is Finished {
        let first = u.coroutines[id].drop_actions();
        let all = u.dropped(id).actions;
        assert(t.live() =~= s.live());
        lemma_settling_stops_nothing(u.coroutines[id], RW::Both, u.coroutines[id].io.len());
        assert forall|k: int| 0 <= k < all.len() implies all[k] != Action::Shutdown by {
            if k < first.len() {
                assert(first.contains(first[k]));
            }
        }
    } else {
        assert(u.live() =~= s.live());
        if !s.coroutines[id].woken_by(source.index as int, events, s.tick) {
            lemma_after_resume_counts(u, id);
        }
    }
}

/// What the event loop reports counts out no one.
proof fn lemma_reported_counts(s: ServerView, op: Operation)
    requires
        s.wf(),
        op is Ready || op is Timeout,
        s.allows(op),
        s.counted(),
    ensures
        s.after(op).counted(),
        s.after(op).live() == s.live(),
        !s.asks(op).contains(Action::Shutdown),
{
    assert(s.ticked().live() =~= s.live());
    match op {
        Operation::Ready { token, events } => {
            upkeep::lemma_same_parts(s, s.ticked());
            if s.taken.contains_key(token.0) {
                lemma_dispatched_counts(s.ticked(), s.taken[token.0], events);
            }
        },
        Operation::Timeout { token, iteration } => {
            if s.taken.contains_key(token.0) {
                let timer = s.timer(token);
                let v = s.ticked().with_timer(token, timer.notified(iteration));
                upkeep::lemma_notified(s, token, iteration);
                assert(v.live() =~= s.live());
                lemma_dispatched_counts(v, s.taken[token.0], timeout_events(timer, iteration));
            }
        },
        _ => {},
    }
}

/// A coroutine that is spawned is counted in; what else a coroutine does counts no
/// one in or out.
proof fn lemma_otherwise_counts(s: ServerView, op: Operation)
    requires
        s.wf(),
        !(op is Ready || op is Timeout || op is Resumed),
        s.allows(op),
        s.counted(),
    ensures
        s.after(op).counted(),
        s.live().len() <= s.after(op).live().len(),
{
    let t = s.after(op);
    lemma_live_is_finite(s);
    if op is Start || op is Spawn {
        assert(!s.coroutines.contains_key(s.next_id));
        assert(op is Spawn ==> s.coroutines.contains_key(s.active()->0));
        assert(t.live() =~= s.live().insert(s.next_id));
    } else if op is TimerStarted || op is Reset {
        assert(t.live() =~= s.live());
    } else {
        assert(s.coroutines.contains_key(s.active()->0));
        assert(t.live() =~= s.live());
    }
}

/// Every operation keeps the count of coroutines right. While a coroutine is left,
/// the event loop is stopped by an operation if, and only if, none is left after it.
pub proof fn event_loop_stops_with_the_last_coroutine(s: ServerView, op: Operation)
    requires
        s.wf(),
        s.allows(op),
        s.counted(),
    ensures
        s.after(op).counted(),
        0 < s.live().len() < 0x1_0000_0000 ==> (s.asks(op).contains(Action::Shutdown)
            <==> s.after(op).live().len() == 0),
{
    match op {
        Operation::Ready { .. } | Operation::Timeout { .. } => lemma_reported_counts(s, op),
        Operation::Resumed { ok } => lemma_resumed_counts(s, ok),
        _ => lemma_otherwise_counts(s, op),
    }
}

/// Whatever happens to a new server, its count of coroutines is right.
pub proof fn history_is_counted(ops: Seq<Operation>)
    requires
        ServerView::initial().allows_all(ops),
    ensures
        ServerView::initial().after_all(ops).counted(),
    decreases ops.len(),
{
    if ops.len() == 0 {
        assert(ServerView::initial().live() =~= Set::<u64>::empty());
    } else {
        let before = ServerView::initial().after_all(ops.drop_last());
        laws::history_is_wf(ops.drop_last());
        history_is_counted(ops.drop_last());
        event_loop_stops_with_the_last_coroutine(before, ops.last());
    }
}

/// Whatever happens to a new server, the event loop is needed if, and only if, there
/// is a coroutine that has not ended: the counter is zero exactly when none is left.
pub proof fn event_loop_is_needed_while_a_coroutine_is_left(ops: Seq<Operation>)
    requires
        ServerView::initial().allows_all(ops),
        ServerView::initial().after_all(ops).live().len() < 0x1_0000_0000,
    ensures
        ({
            let s = ServerView::initial().after_all(ops);
            s.coroutines_no == 0 <==> forall|id: u64| #[trigger]
                s.coroutines.contains_key(id) ==> s.is_left_over(id)
        }),
{
    let s = ServerView::initial().after_all(ops);
    laws::history_is_wf(ops);
    history_is_counted(ops);
    lemma_live_is_finite(s);
    if s.coroutines_no == 0 {
        assert(s.live().len() == 0);
        assert forall|id: u64| #[trigger] s.coroutines.contains_key(
            id,
        ) implies s.is_left_over(id) by {
            if !s.is_left_over(id) {
                assert(s.live().contains(id));
            }
        }
    } else if forall|id: u64| #[trigger] s.coroutines.contains_key(id) ==> s.is_left_over(id) {
        assert(s.live() =~= Set::<u64>::empty());
    }
}

} // verus!
