//! What each operation makes of a server, part by part.
use crate::coroutine::{
    awaited_timer_is_asked_for_once, event_resumes_who_waits_for_it, every_source_is_given_up,
    lemma_mask_len, resumed_coroutine_is_told_what_was_reported, starts_of_timer, CoroutineView,
    State,
};
use crate::event::{EventSet, Token, RW};
use crate::mask;
use crate::model::{shutdown_actions, Phase, ServerView, SourceView, Step};
use crate::slab::EventSource;
use crate::source::{Action, Io};
use crate::timer::{Timeout, Timer};
use crate::upkeep;
use vstd::prelude::*;

verus! {

/// A new server knows no coroutine and no source. It will give out its tokens in
/// order, and waits for an event.
pub proof fn new_server_is_empty()
    ensures
        ({
            let s = ServerView::initial();
            &&& s.taken == Map::<usize, EventSource>::empty()
            &&& s.coroutines == Map::<u64, CoroutineView>::empty()
            &&& s.free.len() == 1024
            &&& forall|i: int| 0 <= i < s.free.len() ==> #[trigger] s.free[i] == i
            &&& s.next_id == 0
            &&& s.coroutines_no == 0
            &&& s.tick == 0
            &&& s.phase == Phase::Idle
        }),
{
}

/// The coroutine that was resumed last, and has not been heard of since, is the one
/// that runs, as long as it counts as running; while the server waits for an event,
/// no one runs.
pub proof fn who_runs_is_who_was_resumed(s: ServerView, id: u64)
    ensures
        s.active() == Some(id) <==> {
            ||| s.phase == (Phase::Resumed { coroutine: id })
            ||| s.phase matches Phase::Starting { child, .. } && child == id
        },
        s.active() is None <==> s.phase == Phase::Idle,
        s.runs(id) <==> s.active() == Some(id) && s.coroutines[id].state == State::Running,
        s.attends(id) <==> {
            ||| s.phase == (Phase::Resumed { coroutine: id })
            ||| s.phase matches Phase::Starting { child, .. } && child == id
            ||| s.phase matches Phase::Starting { parent, .. } && parent == id
        },
        s.is_left_over(id) <==> s.coroutines[id].state == State::Finished && !s.attends(id),
{
}

/// A source is the server's if its token leads to it; and what a token leads to is a
/// timer if it is made of one.
pub proof fn tokens_lead_to_their_sources(s: ServerView, source: SourceView)
    requires
        s.wf(),
    ensures
        s.holds(source) <==> {
            &&& s.coroutines.contains_key(source.coroutine)
            &&& source.index < s.coroutines[source.coroutine].io.len()
            &&& s.coroutines[source.coroutine].io[source.index as int].token == source.token
        },
        s.holds(source) ==> {
            let io = s.coroutines[source.coroutine].io[source.index as int].io;
            &&& s.is_timer(source.token) <==> io is Timer
            &&& io matches Io::Timer(timer) ==> s.timer(source.token) == timer
        },
        s.is_timer(source.token) ==> s.taken.contains_key(source.token.0),
        s.free.len() > 0 ==> s.next_token().0 == s.free[0],
{
    let token = source.token;
    if s.taken.contains_key(token.0) {
        let found = s.taken[token.0];
        assert(s.coroutines.contains_key(found.coroutine));
    }
    if s.coroutines.contains_key(source.coroutine) && source.index
        < s.coroutines[source.coroutine].io.len() {
        assert(s.taken.contains_key(
            s.coroutines[source.coroutine].io[source.index as int].token.0,
        ));
    }
}

/// A server that starts has one coroutine more, which is to be resumed. It is the
/// first of its number.
pub proof fn start_resumes_one_new_coroutine(s: ServerView)
    requires
        s.wf(),
        s.next_id < u64::MAX,
    ensures
        ({
            let r = s.started();
            let t = r.server;
            &&& r.step == Step::Resume(s.next_id)
            &&& r.actions.len() == 0
            &&& t.phase == (Phase::Resumed { coroutine: s.next_id })
            &&& !s.coroutines.contains_key(s.next_id)
            &&& t.coroutines.contains_key(s.next_id)
            &&& t.coroutines[s.next_id] == CoroutineView::spawned()
            &&& t.coroutines.remove(s.next_id) == s.coroutines
            &&& t.next_id == s.next_id + 1
            &&& t.coroutines_no == (if s.coroutines_no < u32::MAX {
                s.coroutines_no + 1
            } else {
                0
            })
            &&& t.taken == s.taken
            &&& t.free == s.free
            &&& t.tick == s.tick
        }),
{
    assert(!s.coroutines.contains_key(s.next_id));
    assert(s.started().server.coroutines.remove(s.next_id) =~= s.coroutines);
}

/// A coroutine that is spawned comes last among those that its parent will start. It
/// is the first of its number, and is counted in.
pub proof fn spawn_lists_one_new_coroutine_last(s: ServerView, id: u64)
    requires
        s.wf(),
        s.runs(id),
        s.next_id < u64::MAX,
    ensures
        ({
            let t = s.spawned_by(id);
            let child = s.next_id;
            let c = s.coroutines[id];
            let d = t.coroutines[id];
            &&& !s.coroutines.contains_key(child)
            &&& t.coroutines.contains_key(child)
            &&& t.coroutines[child] == CoroutineView::spawned()
            &&& t.coroutines.contains_key(id)
            &&& t.coroutines.remove(child).remove(id) == s.coroutines.remove(id)
            &&& d.children.len() == c.children.len() + 1
            &&& d.children.last() == child
            &&& d.children.drop_last() == c.children
            &&& (CoroutineView { children: c.children, ..d }) == c
            &&& t.next_id == child + 1
            &&& t.coroutines_no == (if s.coroutines_no < u32::MAX {
                s.coroutines_no + 1
            } else {
                0
            })
            &&& t.taken == s.taken
            &&& t.free == s.free
            &&& t.tick == s.tick
            &&& t.phase == s.phase
        }),
{
    let t = s.spawned_by(id);
    assert(!s.coroutines.contains_key(s.next_id));
    assert(s.coroutines.contains_key(id));
    assert(t.coroutines[id].children.drop_last() =~= s.coroutines[id].children);
    assert(t.coroutines.remove(s.next_id).remove(id) =~= s.coroutines.remove(id));
}

/// To wrap a source takes the next free token and no other. The token leads to the
/// new source, which is the last of its coroutine; all other tokens lead where they
/// did.
pub proof fn wrap_takes_the_next_token(s: ServerView, id: u64, io: Io)
    requires
        s.wf(),
        s.runs(id),
        s.free.len() > 0,
    ensures
        ({
            let t = s.wrapped_by(id, io);
            let c = s.coroutines[id];
            let token = s.free[0];
            &&& t.coroutines.contains_key(id)
            &&& t.coroutines.remove(id) == s.coroutines.remove(id)
            &&& t.coroutines[id] == c.with_source(Token(token), io)
            &&& !s.taken.contains_key(token)
            &&& t.taken.contains_key(token)
            &&& t.taken[token].coroutine == id
            &&& t.taken[token].index == c.io.len()
            &&& t.taken.remove(token) == s.taken
            &&& s.free == seq![token] + t.free
            &&& t.next_id == s.next_id
            &&& t.coroutines_no == s.coroutines_no
            &&& t.tick == s.tick
            &&& t.phase == s.phase
        }),
{
    let t = s.wrapped_by(id, io);
    let token = s.free[0];
    upkeep::lemma_room(s, id);
    assert(s.coroutines.contains_key(id));
    assert(s.free.contains(token));
    assert(!s.taken.contains_key(token));
    assert(t.coroutines.remove(id) =~= s.coroutines.remove(id));
    assert(t.taken.remove(token) =~= s.taken);
    assert(s.free =~= seq![token] + t.free);
}

/// A coroutine that waits for some of its sources is blocked on exactly those, for
/// the kind of event that it asks for. Nothing else changes.
pub proof fn wait_is_for_the_named_sources(s: ServerView, id: u64, rw: RW, positions: Seq<nat>)
    requires
        s.wf(),
        s.runs(id),
    ensures
        ({
            let t = s.blocked_by(id, rw, positions);
            let c = s.coroutines[id];
            let d = t.coroutines[id];
            &&& t.coroutines.contains_key(id)
            &&& t.coroutines.remove(id) == s.coroutines.remove(id)
            &&& d.state == State::BlockedOn(rw)
            &&& d.blocked_on.len() == c.blocked_on.len()
            &&& forall|i: int|
                0 <= i < d.blocked_on.len() ==> (#[trigger] d.blocked_on[i]
                    <==> positions.contains(i as nat))
            &&& d.last_event == c.last_event
            &&& d.last_tick == c.last_tick
            &&& d.io == c.io
            &&& d.registered == c.registered
            &&& d.children == c.children
            &&& t.taken == s.taken
            &&& t.free == s.free
            &&& t.next_id == s.next_id
            &&& t.coroutines_no == s.coroutines_no
            &&& t.tick == s.tick
            &&& t.phase == s.phase
        }),
{
    let t = s.blocked_by(id, rw, positions);
    assert(s.coroutines.contains_key(id));
    assert(t.coroutines.remove(id) =~= s.coroutines.remove(id));
    mask::named_positions_are_set(s.coroutines[id].blocked_on.len(), positions);
}

/// A coroutine that waits for any event of a kind, be it a read, a write or either, is
/// blocked on every one of its sources and on nothing else. Nothing else changes.
pub proof fn select_waits_for_every_source(s: ServerView, id: u64, rw: RW)
    requires
        s.wf(),
        s.runs(id),
    ensures
        ({
            let t = s.blocked_by_all(id, rw);
            let c = s.coroutines[id];
            let d = t.coroutines[id];
            &&& t.coroutines.contains_key(id)
            &&& t.coroutines.remove(id) == s.coroutines.remove(id)
            &&& d.state == State::BlockedOn(rw)
            &&& d.blocked_on.len() == c.blocked_on.len()
            &&& c.io.len() <= d.blocked_on.len()
            &&& forall|i: int|
                0 <= i < d.blocked_on.len() ==> (#[trigger] d.blocked_on[i] <==> i < c.io.len())
            &&& d.last_event == c.last_event
            &&& d.last_tick == c.last_tick
            &&& d.io == c.io
            &&& d.registered == c.registered
            &&& d.children == c.children
            &&& t.taken == s.taken
            &&& t.free == s.free
            &&& t.next_id == s.next_id
            &&& t.coroutines_no == s.coroutines_no
            &&& t.tick == s.tick
            &&& t.phase == s.phase
        }),
{
    let c = s.coroutines[id];
    let all = Seq::new(c.io.len(), |i: int| i as nat);
    assert(s.coroutines.contains_key(id));
    lemma_mask_len(c.io.len());
    wait_is_for_the_named_sources(s, id, rw, all);
    assert forall|i: nat| #[trigger] all.contains(i) <==> i < c.io.len() by {
        if i < c.io.len() {
            assert(all[i as int] == i);
        }
    }
}

/// A coroutine that returns waits for nothing any more, and nothing else changes until
/// the server hears of it.
pub proof fn return_ends_every_wait(s: ServerView, id: u64)
    requires
        s.wf(),
        s.runs(id),
    ensures
        ({
            let t = s.finished_by(id);
            &&& t.coroutines.contains_key(id)
            &&& t.coroutines.remove(id) == s.coroutines.remove(id)
            &&& t.coroutines[id] == s.coroutines[id].finished()
            &&& t.taken == s.taken
            &&& t.free == s.free
            &&& t.next_id == s.next_id
            &&& t.coroutines_no == s.coroutines_no
            &&& t.tick == s.tick
            &&& t.phase == s.phase
        }),
{
    assert(s.finished_by(id).coroutines.remove(id) =~= s.coroutines.remove(id));
}

/// To change a timer changes that timer, and no other timer, source or coroutine.
pub proof fn timers_change_one_by_one(s: ServerView, token: Token, timer: Timer)
    requires
        s.wf(),
        s.is_timer(token),
    ensures
        ({
            let t = s.with_timer(token, timer);
            let source = s.taken[token.0];
            let c = s.coroutines[source.coroutine];
            let d = t.coroutines[source.coroutine];
            &&& t.coroutines.contains_key(source.coroutine)
            &&& t.coroutines.remove(source.coroutine) == s.coroutines.remove(source.coroutine)
            &&& d.io.len() == c.io.len()
            &&& forall|i: int|
                0 <= i < c.io.len() && i != source.index ==> #[trigger] d.io[i] == c.io[i]
            &&& d.io[source.index as int].io == Io::Timer(timer)
            &&& d.io[source.index as int].token == token
            &&& d.io[source.index as int].index == c.io[source.index as int].index
            &&& d.io[source.index as int].peer_hup == c.io[source.index as int].peer_hup
            &&& d.io[source.index as int].registered == c.io[source.index as int].registered
            &&& (CoroutineView { io: c.io, ..d }) == c
            &&& t.taken == s.taken
            &&& t.free == s.free
            &&& t.next_id == s.next_id
            &&& t.coroutines_no == s.coroutines_no
            &&& t.tick == s.tick
            &&& t.phase == s.phase
        }),
{
    let source = s.taken[token.0];
    let t = s.with_timer(token, timer);
    assert(s.coroutines.contains_key(source.coroutine));
    assert(t.coroutines.remove(source.coroutine) =~= s.coroutines.remove(source.coroutine));
}

/// The answer of the event loop concerns the timer that it was asked for, if that is
/// still there: it runs if its timeout was accepted. Else nothing changes.
pub proof fn answer_concerns_its_timer(s: ServerView, token: Token, answer: Option<Timeout>)
    requires
        s.wf(),
    ensures
        !s.is_timer(token) ==> s.timer_started(token, answer) == s,
        s.is_timer(token) ==> s.timer_started(token, answer) == s.with_timer(
            token,
            s.timer(token).started_with(answer),
        ),
{
}

/// A coroutine that leaves takes its sources along: their tokens are free, that of the
/// last source first, and given out before any other. All other tokens, sources and
/// coroutines stay.
pub proof fn leaving_frees_all_tokens(s: ServerView, id: u64)
    requires
        s.wf(),
        s.coroutines.contains_key(id),
    ensures
        ({
            let t = s.without_coroutine(id);
            let c = s.coroutines[id];
            let n = c.io.len();
            &&& t.coroutines == s.coroutines.remove(id)
            &&& forall|x: usize|
                (#[trigger] t.taken.contains_key(x) <==> s.taken.contains_key(x)
                    && s.taken[x].coroutine != id)
            &&& forall|x: usize| #[trigger]
                t.taken.contains_key(x) ==> t.taken[x] == s.taken[x]
            &&& t.free.len() == n + s.free.len()
            &&& forall|i: int|
                0 <= i < n ==> t.free[n - 1 - i] == (#[trigger] c.io[i]).token.0
            &&& forall|i: int|
                0 <= i < s.free.len() ==> t.free[n + i] == #[trigger] s.free[i]
            &&& t.next_id == s.next_id
            &&& t.coroutines_no == s.coroutines_no
            &&& t.tick == s.tick
            &&& t.phase == s.phase
        }),
{
    let t = s.without_coroutine(id);
    let c = s.coroutines[id];
    let n = c.io.len();
    let tokens = c.tokens();
    upkeep::lemma_tokens(s, id);
    assert forall|x: usize|
        (#[trigger] t.taken.contains_key(x) <==> s.taken.contains_key(x) && s.taken[x].coroutine
            != id) by {
        assert(tokens.to_set().contains(x) == tokens.contains(x));
    }
    assert forall|i: int| 0 <= i < n implies t.free[n - 1 - i] == (#[trigger] c.io[i]).token.0 by {
        assert(t.free[n - 1 - i] == tokens[i]);
    }
}

/// What is asked when the last coroutine has ended, and only then: to stop.
pub proof fn loop_is_stopped_at_zero(coroutines_no: u32)
    ensures
        ({
            let asked = shutdown_actions(coroutines_no);
            &&& coroutines_no == 0 ==> asked.len() == 1 && asked[0] == Action::Shutdown
            &&& coroutines_no > 0 ==> asked.len() == 0
        }),
{
}

/// When the coroutine that was resumed has spawned others, the first of them is
/// started, whether it blocked, returned or failed. What else is to be done waits: it
/// keeps all other children, in order, and nothing is asked of the event loop.
pub proof fn children_are_started_first(s: ServerView, ok: bool, id: u64)
    requires
        s.wf(),
        s.phase == (Phase::Resumed { coroutine: id }),
        ok ==> s.coroutines[id].state != State::Running,
        s.coroutines[id].children.len() > 0,
    ensures
        ({
            let r = s.resumed(ok);
            let t = r.server;
            let c = if ok {
                s.coroutines[id]
            } else {
                s.coroutines[id].finished()
            };
            let d = t.coroutines[id];
            let child = s.coroutines[id].children[0];
            &&& r.step == Step::Resume(child)
            &&& r.actions.len() == 0
            &&& t.phase == (Phase::Starting { parent: id, child })
            &&& t.coroutines.contains_key(id)
            &&& t.coroutines.remove(id) == s.coroutines.remove(id)
            &&& seq![child] + d.children == s.coroutines[id].children
            &&& (CoroutineView { children: c.children, ..d }) == c
            &&& t.taken == s.taken
            &&& t.free == s.free
            &&& t.next_id == s.next_id
            &&& t.coroutines_no == s.coroutines_no
            &&& t.tick == s.tick
        }),
{
    let t = s.resumed(ok).server;
    assert(t.coroutines.remove(id) =~= s.coroutines.remove(id));
    assert(seq![s.coroutines[id].children[0]] + t.coroutines[id].children
        =~= s.coroutines[id].children);
}

/// When the coroutine that was resumed has blocked, and all that it spawned have been
/// started, the event loop is asked to watch what it waits for, and the server waits
/// for the next event.
pub proof fn blocked_coroutine_is_watched(s: ServerView, id: u64, rw: RW)
    requires
        s.wf(),
        s.phase == (Phase::Resumed { coroutine: id }),
        s.coroutines[id].state == State::BlockedOn(rw),
        s.coroutines[id].children.len() == 0,
    ensures
        ({
            let r = s.resumed(true);
            let t = r.server;
            &&& r.step == Step::Done
            &&& r.actions == s.coroutines[id].settle_actions(rw)
            &&& t.phase == Phase::Idle
            &&& t.coroutines.contains_key(id)
            &&& t.coroutines.remove(id) == s.coroutines.remove(id)
            &&& t.coroutines[id] == s.coroutines[id].settled()
            &&& t.taken == s.taken
            &&& t.free == s.free
            &&& t.next_id == s.next_id
            &&& t.coroutines_no == s.coroutines_no
            &&& t.tick == s.tick
        }),
{
    assert(s.resumed(true).server.coroutines.remove(id) =~= s.coroutines.remove(id));
}

/// When the coroutine that was resumed has returned or failed, and all that it spawned
/// have been started, it leaves with its sources and is counted out. Its sources are
/// given up first; then the event loop is stopped, if no coroutine is left; and it is
/// dropped last.
pub proof fn ended_coroutine_leaves(s: ServerView, ok: bool, id: u64)
    requires
        s.wf(),
        s.phase == (Phase::Resumed { coroutine: id }),
        ok ==> s.coroutines[id].state == State::Finished,
        s.coroutines[id].children.len() == 0,
    ensures
        ({
            let r = s.resumed(ok);
            let t = r.server;
            let left = s.without_coroutine(id);
            let given_up = s.coroutines[id].drop_actions();
            let retire = seq![Action::Retire { coroutine: id }];
            &&& r.step == Step::Done
            &&& t.phase == Phase::Idle
            &&& t.coroutines == left.coroutines
            &&& t.taken == left.taken
            &&& t.free == left.free
            &&& t.next_id == s.next_id
            &&& t.tick == s.tick
            &&& t.coroutines_no == (if s.coroutines_no > 0 {
                s.coroutines_no - 1
            } else {
                u32::MAX as int
            })
            &&& t.coroutines_no == 0 ==> r.actions == given_up + seq![Action::Shutdown] + retire
            &&& t.coroutines_no > 0 ==> r.actions == given_up + retire
        }),
{
    let c = s.coroutines[id];
    let h = s.heard(ok);
    let n = c.io.len();
    assert(h.coroutines[id].io == c.io);
    lemma_same_drop_actions(c, h.coroutines[id], n);
    assert(h.coroutines[id].tokens() =~= c.tokens());
    assert(h.coroutines.remove(id) =~= s.coroutines.remove(id));
    assert(s.resumed(ok) == h.after_resume(id));
    assert(c.drop_actions() + Seq::<Action>::empty() =~= c.drop_actions());
}

/// What is asked when sources are given up depends on the sources alone.
proof fn lemma_same_drop_actions(c: CoroutineView, d: CoroutineView, n: nat)
    requires
        c.io == d.io,
    ensures
        c.drop_actions_upto(n) == d.drop_actions_upto(n),
    decreases n,
{
    if n > 0 {
        lemma_same_drop_actions(c, d, (n - 1) as nat);
    }
}

/// What is asked when a coroutine is seen to depends only on its sources and masks.
proof fn lemma_same_settle_actions(c: CoroutineView, d: CoroutineView, rw: RW, n: nat)
    requires
        c.io == d.io,
        c.blocked_on == d.blocked_on,
        c.registered == d.registered,
    ensures
        c.settle_actions_upto(rw, n) == d.settle_actions_upto(rw, n),
    decreases n,
{
    if n > 0 {
        lemma_same_settle_actions(c, d, rw, (n - 1) as nat);
    }
}

/// What the server is once it has seen to a child that blocked, and turns to the
/// parent, which takes over what the child has spawned.
pub open spec fn turned_to_parent(
    s: ServerView,
    parent: u64,
    child: u64,
    seen_to: CoroutineView,
) -> ServerView {
    let adopted = s.coroutines[child].children + s.coroutines[parent].children;
    ServerView {
        phase: Phase::Resumed { coroutine: parent },
        coroutines: s.coroutines.insert(
            child,
            CoroutineView { children: Seq::empty(), ..seen_to },
        ).insert(parent, CoroutineView { children: adopted, ..s.coroutines[parent] }),
        ..s
    }
}

/// When a child that was started has blocked, the event loop is asked to watch what it
/// waits for, and then the server goes on as if the parent had just blocked or
/// returned, having spawned what the child spawned before what it spawned itself.
pub proof fn child_that_blocked_is_watched(
    s: ServerView,
    parent: u64,
    child: u64,
    rw: RW,
)
    requires
        s.wf(),
        s.phase == (Phase::Starting { parent, child }),
        s.coroutines[child].state == State::BlockedOn(rw),
    ensures
        ({
            let c = s.coroutines[child];
            let r = s.resumed(true);
            let q = turned_to_parent(s, parent, child, c.settled()).resumed(true);
            &&& r.server == q.server
            &&& r.step == q.step
            &&& r.actions == c.settle_actions(rw) + q.actions
        }),
{
    let c = s.coroutines[child];
    let v = s.handed_over(parent, child);
    let u = turned_to_parent(s, parent, child, c.settled());
    let outcome = v.reregistered(child);
    lemma_same_settle_actions(c, v.coroutines[child], rw, c.io.len());
    assert(v.coroutines[child].settled() =~= CoroutineView {
        children: Seq::empty(),
        ..c.settled()
    });
    assert(ServerView { phase: u.phase, ..outcome.server } =~= u) by {
        assert(outcome.server.coroutines =~= u.coroutines);
    }
    assert(outcome.server.after_resume(parent) == u.after_resume(parent));
}

/// When a child that was started has returned, or has failed without a source, it
/// leaves with its sources, is counted out, and is dropped. Then the server goes on as
/// if the parent had just blocked or returned, having spawned what the child spawned
/// before what it spawned itself.
pub proof fn child_that_ended_leaves(s: ServerView, ok: bool, parent: u64, child: u64)
    requires
        s.wf(),
        s.phase == (Phase::Starting { parent, child }),
        ok ==> s.coroutines[child].state == State::Finished,
        !ok ==> s.coroutines[child].io.len() == 0,
    ensures
        ({
            let c = s.coroutines[child];
            let r = s.resumed(ok);
            let left = turned_to_parent(s, parent, child, c).without_coroutine(child);
            let coroutines_no = if s.coroutines_no > 0 {
                (s.coroutines_no - 1) as u32
            } else {
                u32::MAX
            };
            let q = (ServerView { coroutines_no, ..left }).resumed(true);
            let given_up = c.drop_actions();
            let retire = seq![Action::Retire { coroutine: child }];
            &&& r.server == q.server
            &&& r.step == q.step
            &&& coroutines_no == 0 ==> r.actions == given_up + seq![Action::Shutdown] + retire
                + q.actions
            &&& coroutines_no > 0 ==> r.actions == given_up + retire + q.actions
        }),
{
    let c = s.coroutines[child];
    let v = s.heard(ok).handed_over(parent, child);
    let d = v.coroutines[child];
    let coroutines_no = if s.coroutines_no > 0 {
        (s.coroutines_no - 1) as u32
    } else {
        u32::MAX
    };
    let u = ServerView {
        coroutines_no,
        ..turned_to_parent(s, parent, child, c).without_coroutine(child)
    };
    let outcome = v.retired(child);
    lemma_same_drop_actions(c, d, c.io.len());
    assert(d.tokens() =~= c.tokens());
    assert(turned_to_parent(s, parent, child, c).coroutines[child].tokens() =~= c.tokens());
    assert(ServerView { phase: u.phase, ..outcome.server } =~= u) by {
        assert(outcome.server.coroutines =~= u.coroutines);
    }
    assert(outcome.server.after_resume(parent) == u.after_resume(parent));
    assert(c.drop_actions() + Seq::<Action>::empty() =~= c.drop_actions());
}

/// When a child that was started has failed with sources, it is counted out, waits for
/// nothing, and keeps its sources; nothing is asked, but to stop if no coroutine is
/// left. Then the server goes on as if the parent had just blocked or returned, having
/// spawned what the child spawned before what it spawned itself.
pub proof fn child_that_failed_keeps_its_sources(s: ServerView, parent: u64, child: u64)
    requires
        s.wf(),
        s.phase == (Phase::Starting { parent, child }),
        s.coroutines[child].io.len() > 0,
    ensures
        ({
            let c = s.coroutines[child];
            let r = s.resumed(false);
            let coroutines_no = if s.coroutines_no > 0 {
                (s.coroutines_no - 1) as u32
            } else {
                u32::MAX
            };
            let q = (ServerView {
                coroutines_no,
                ..turned_to_parent(s, parent, child, c.finished())
            }).resumed(true);
            &&& r.server == q.server
            &&& r.step == q.step
            &&& coroutines_no == 0 ==> r.actions == seq![Action::Shutdown] + q.actions
            &&& coroutines_no > 0 ==> r.actions == q.actions
        }),
{
    let c = s.coroutines[child];
    let v = s.heard(false).handed_over(parent, child);
    let coroutines_no = if s.coroutines_no > 0 {
        (s.coroutines_no - 1) as u32
    } else {
        u32::MAX
    };
    let u = ServerView { coroutines_no, ..turned_to_parent(s, parent, child, c.finished()) };
    let outcome = v.child_failed(child);
    assert(ServerView { phase: u.phase, ..outcome.server } =~= u) by {
        assert(outcome.server.coroutines =~= u.coroutines);
    }
    assert(outcome.server.after_resume(parent) == u.after_resume(parent));
    assert(s.resumed(false).actions =~= outcome.actions + u.after_resume(parent).actions);
    assert(Seq::<Action>::empty() + u.after_resume(parent).actions =~= u.after_resume(
        parent,
    ).actions);
}

/// The number of an event: one more than that of the last, until the counter comes
/// round.
pub open spec fn next_tick(s: ServerView) -> u32 {
    if s.tick < u32::MAX {
        (s.tick + 1) as u32
    } else {
        0
    }
}

/// An event on a source that is not there, and the notification of a timer that is
/// not there, are counted and change nothing else.
pub proof fn event_on_nothing_changes_nothing(
    s: ServerView,
    token: Token,
    events: EventSet,
    iteration: u32,
)
    requires
        !s.taken.contains_key(token.0),
    ensures
        ({
            let r = s.ready(token, events);
            &&& r == s.timeout(token, iteration)
            &&& r.step == Step::Done
            &&& r.actions.len() == 0
            &&& r.server == (ServerView { tick: next_tick(s), ..s })
        }),
{
}

/// An event that a coroutine waits for resumes that coroutine, which is told of it.
/// Nothing is asked of the event loop, and no other coroutine learns of it.
pub proof fn awaited_event_is_passed_on(s: ServerView, token: Token, events: EventSet)
    requires
        s.wf(),
        s.phase == Phase::Idle,
        s.taken.contains_key(token.0),
        ({
            let source = s.taken[token.0];
            s.coroutines[source.coroutine].woken_by(source.index as int, events, next_tick(s))
        }),
    ensures
        ({
            let source = s.taken[token.0];
            let id = source.coroutine;
            let r = s.ready(token, events);
            let t = r.server;
            &&& r.step == Step::Resume(id)
            &&& r.actions.len() == 0
            &&& t.phase == (Phase::Resumed { coroutine: id })
            &&& t.coroutines.contains_key(id)
            &&& t.coroutines.remove(id) == s.coroutines.remove(id)
            &&& t.coroutines[id] == s.coroutines[id].told(
                source.index as int,
                events,
                next_tick(s),
            )
            &&& t.tick == next_tick(s)
            &&& t.taken == s.taken
            &&& t.free == s.free
            &&& t.next_id == s.next_id
            &&& t.coroutines_no == s.coroutines_no
        }),
{
    let id = s.taken[token.0].coroutine;
    assert(s.coroutines.contains_key(id));
    assert(s.ready(token, events).server.coroutines.remove(id) =~= s.coroutines.remove(id));
}

/// The server once a coroutine has been told of an event on one of its sources, as if
/// the coroutine had been resumed for it.
pub open spec fn told_and_attended(
    s: ServerView,
    source: EventSource,
    events: EventSet,
) -> ServerView {
    let c = s.coroutines[source.coroutine];
    ServerView {
        tick: next_tick(s),
        phase: Phase::Resumed { coroutine: source.coroutine },
        coroutines: s.coroutines.insert(
            source.coroutine,
            c.told(source.index as int, events, next_tick(s)),
        ),
        ..s
    }
}

/// After an event that a coroutine does not wait for, the coroutine is seen to just as
/// if it had been resumed and had blocked again.
pub proof fn other_event_is_taken_for_a_wait_again(s: ServerView, token: Token, events: EventSet)
    requires
        s.wf(),
        s.phase == Phase::Idle,
        s.taken.contains_key(token.0),
        ({
            let source = s.taken[token.0];
            let c = s.coroutines[source.coroutine];
            &&& c.state is BlockedOn
            &&& !c.woken_by(source.index as int, events, next_tick(s))
        }),
    ensures
        s.ready(token, events) == told_and_attended(s, s.taken[token.0], events).resumed(true),
{
    let source = s.taken[token.0];
    let id = source.coroutine;
    let u = told_and_attended(s, source, events);
    assert(s.coroutines.contains_key(id));
    let v = s.ticked().with_coroutine(
        id,
        s.coroutines[id].told(source.index as int, events, s.ticked().tick),
    );
    assert(v.coroutines == u.coroutines);
    assert(v.after_resume(id) == u.after_resume(id));
}

/// An event on a source of a coroutine that has ended drops that coroutine with all its
/// sources, which are given up first. It is not counted out again, and the event loop
/// is not stopped.
pub proof fn event_on_what_is_left_over_drops_it(s: ServerView, token: Token, events: EventSet)
    requires
        s.wf(),
        s.phase == Phase::Idle,
        s.taken.contains_key(token.0),
        s.coroutines[s.taken[token.0].coroutine].state == State::Finished,
    ensures
        ({
            let id = s.taken[token.0].coroutine;
            let r = s.ready(token, events);
            let t = r.server;
            let left = s.without_coroutine(id);
            &&& r.step == Step::Done
            &&& t.coroutines == left.coroutines
            &&& t.taken == left.taken
            &&& t.free == left.free
            &&& t.next_id == s.next_id
            &&& t.coroutines_no == s.coroutines_no
            &&& t.tick == next_tick(s)
            &&& t.phase == Phase::Idle
            &&& r.actions == s.coroutines[id].told(
                s.taken[token.0].index as int,
                events,
                next_tick(s),
            ).drop_actions() + seq![Action::Retire { coroutine: id }]
        }),
{
    let source = s.taken[token.0];
    let id = source.coroutine;
    let c = s.coroutines[id];
    let d = c.told(source.index as int, events, next_tick(s));
    let t = s.ready(token, events).server;
    assert(s.coroutines.contains_key(id));
    upkeep::lemma_coroutine_changes(c);
    assert(d.tokens() == c.tokens());
    assert(t.coroutines =~= s.coroutines.remove(id));
}

/// The notification of a timer is an event like any other: a read, if the timer expects
/// it, and then the timer is done; and no event at all, if the timer does not.
pub proof fn notification_is_a_read_if_expected(s: ServerView, token: Token, iteration: u32)
    requires
        s.wf(),
        s.is_timer(token),
    ensures
        s.timer(token).expects(iteration) ==> s.timeout(token, iteration) == s.with_timer(
            token,
            s.timer(token).notified(iteration),
        ).ready(token, EventSet { readable: true, writable: false, hup: false }),
        !s.timer(token).expects(iteration) ==> s.timeout(token, iteration) == s.ready(
            token,
            EventSet { readable: false, writable: false, hup: false },
        ),
{
    let source = s.taken[token.0];
    let id = source.coroutine;
    let timer = s.timer(token).notified(iteration);
    assert(s.coroutines.contains_key(id));
    assert(s.ticked().with_timer(token, timer) =~= s.with_timer(token, timer).ticked());
    if !s.timer(token).expects(iteration) {
        assert(s.with_timer(token, timer).coroutines[id].io =~= s.coroutines[id].io);
        assert(s.with_timer(token, timer).coroutines =~= s.coroutines);
        assert(s.with_timer(token, timer) =~= s);
    }
}

/// After a coroutine has asked to be resumed by any event of a kind, an event of that
/// kind on any one of its sources resumes it, and it is told so.
pub proof fn select_ends_with_an_event_on_any_source(
    s: ServerView,
    id: u64,
    rw: RW,
    i: int,
    events: EventSet,
)
    requires
        s.wf(),
        s.runs(id),
        s.phase == (Phase::Resumed { coroutine: id }),
        s.coroutines[id].children.len() == 0,
        0 <= i < s.coroutines[id].io.len(),
        s.coroutines[id].last_tick != next_tick(s),
        rw != RW::Write && (events.readable || events.hup) || rw != RW::Read && events.writable,
    ensures
        ({
            let t = s.blocked_by_all(id, rw).resumed(true).server;
            let r = t.ready(s.coroutines[id].io[i].token, events);
            &&& r.step == Step::Resume(id)
            &&& r.server.coroutines[id].last_event.index == i
            &&& r.server.coroutines[id].last_event.rw != RW::Read <==> events.writable
            &&& r.server.coroutines[id].last_event.rw != RW::Write <==> events.readable
                || events.hup
        }),
{
    let c = s.coroutines[id];
    let b = s.blocked_by_all(id, rw);
    let t = b.resumed(true).server;
    let token = c.io[i].token;
    select_waits_for_every_source(s, id, rw);
    upkeep::blocked_by_keeps_wf(s, id, rw, Seq::new(c.io.len(), |i: int| i as nat));
    upkeep::resumed_keeps_wf(b, true);
    blocked_coroutine_is_watched(b, id, rw);
    assert(s.coroutines.contains_key(id));
    assert(s.taken.contains_key(token.0));
    assert(t.coroutines[id].blocked_on[i]);
    event_resumes_who_waits_for_it(t.coroutines[id], i, events, next_tick(t));
    awaited_event_is_passed_on(t, token, events);
    resumed_coroutine_is_told_what_was_reported(
        t.coroutines[id],
        i,
        events,
        next_tick(t),
    );
}

/// When a coroutine has blocked on a timer that the event loop does not watch yet, in a
/// wait for whatever kind of event, the event loop is asked for exactly one
/// notification of that timer, after its delay.
pub proof fn wait_for_a_timer_starts_it(s: ServerView, id: u64, rw: RW, i: int)
    requires
        s.wf(),
        s.phase == (Phase::Resumed { coroutine: id }),
        s.coroutines[id].state == State::BlockedOn(rw),
        s.coroutines[id].children.len() == 0,
        0 <= i < s.coroutines[id].io.len(),
        s.coroutines[id].io[i].io is Timer,
        s.coroutines[id].blocked_on[i],
        !s.coroutines[id].registered[i],
    ensures
        ({
            let source = s.coroutines[id].io[i];
            let timer = source.io->Timer_0;
            starts_of_timer(s.resumed(true).actions, source.token) == seq![Action::SetTimeout {
                token: source.token,
                iteration: timer.iteration,
                delay: timer.delay,
            }]
        }),
{
    upkeep::lemma_tokens(s, id);
    blocked_coroutine_is_watched(s, id, rw);
    awaited_timer_is_asked_for_once(s.coroutines[id], rw, i);
}

/// When a coroutine has returned or failed, everything that the event loop still does
/// for its sources is taken back: each source that was registered is deregistered, the
/// timeout that was accepted for a timer is taken back whatever the status of the
/// timer, and each source is removed.
pub proof fn ended_coroutine_leaves_nothing_behind(s: ServerView, ok: bool, id: u64, i: int)
    requires
        s.wf(),
        s.phase == (Phase::Resumed { coroutine: id }),
        ok ==> s.coroutines[id].state == State::Finished,
        s.coroutines[id].children.len() == 0,
        0 <= i < s.coroutines[id].io.len(),
    ensures
        ({
            let source = s.coroutines[id].io[i];
            let asked = s.resumed(ok).actions;
            &&& asked.contains(Action::Remove { token: source.token })
            &&& asked.last() == (Action::Retire { coroutine: id })
            &&& source.registered && source.io is Raw ==> asked.contains(
                Action::Deregister { token: source.token },
            )
            &&& source.registered ==> {
                source.io matches Io::Timer(timer) ==> {
                    timer.handle matches Some(timeout) ==> asked.contains(
                        Action::ClearTimeout { timeout },
                    )
                }
            }
        }),
{
    let c = s.coroutines[id];
    let given_up = c.drop_actions();
    let asked = s.resumed(ok).actions;
    ended_coroutine_leaves(s, ok, id);
    every_source_is_given_up(c, i);
    assert forall|action: Action| given_up.contains(action) implies asked.contains(action) by {
        let k = choose|k: int| 0 <= k < given_up.len() && given_up[k] == action;
        assert(asked[k] == action);
    }
}

} // verus!
