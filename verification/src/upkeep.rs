//! What every operation of a server keeps.
use crate::coroutine::{lemma_mask_len, CoroutineView};
use crate::event::{EventSet, Token, RW};
use crate::mask;
use crate::model::{Phase, ServerView, Step, CAPACITY};
use crate::slab::EventSource;
use crate::source::{EventSourceShared, Io};
use crate::timer::{Timeout, Timer};
use vstd::prelude::*;

verus! {

/// A coroutine that is not as it was when it was spawned has been started.
proof fn lemma_started(s: ServerView, id: u64)
    requires
        s.wf(),
        s.coroutines.contains_key(id),
        s.coroutines[id] != CoroutineView::spawned() || s.active() == Some(id),
    ensures
        forall|k: u64, j: int|
            #![trigger s.coroutines[k].children[j]]
            s.coroutines.contains_key(k) && 0 <= j < s.coroutines[k].children.len()
                ==> s.coroutines[k].children[j] != id,
{
}

/// Where no list of children changes, the same coroutines have yet to be started.
proof fn lemma_same_lists(s: ServerView, t: ServerView)
    requires
        forall|k: u64| #[trigger]
            s.coroutines.contains_key(k) ==> {
                &&& t.coroutines.contains_key(k)
                &&& t.coroutines[k].children == s.coroutines[k].children
            },
    ensures
        forall|id: u64| #[trigger] s.is_listed(id) ==> t.is_listed(id),
{
    assert forall|id: u64| #[trigger] s.is_listed(id) implies t.is_listed(id) by {
        let (k, j) = choose|k: u64, j: int|
            #![trigger s.coroutines[k].children[j]]
            s.coroutines.contains_key(k) && 0 <= j < s.coroutines[k].children.len()
                && s.coroutines[k].children[j] == id;
        assert(t.coroutines[k].children[j] == id);
    }
}

/// While the server waits for an event, every coroutine waits or has ended, and none
/// has yet to be started.
pub(crate) proof fn lemma_idle(s: ServerView)
    requires
        s.wf(),
        s.phase is Idle,
    ensures
        forall|id: u64| #[trigger]
            s.coroutines.contains_key(id) ==> !(s.coroutines[id].state is Running)
                && s.coroutines[id].children.len() == 0,
{
    assert forall|id: u64| #[trigger] s.coroutines.contains_key(id) implies !(
    s.coroutines[id].state is Running) && s.coroutines[id].children.len() == 0 by {
        assert(s.in_order(id));
        if s.coroutines[id].state is Running {
            assert(s.is_listed(id));
            let (k, j) = choose|k: u64, j: int|
                #![trigger s.coroutines[k].children[j]]
                s.coroutines.contains_key(k) && 0 <= j < s.coroutines[k].children.len()
                    && s.coroutines[k].children[j] == id;
            assert(s.in_order(k));
        }
    }
}

/// A coroutine can change what it waits for, and start its children one by one,
/// while the server turns to another phase.
proof fn lemma_replaced(s: ServerView, id: u64, c: CoroutineView, phase: Phase)
    requires
        s.wf(),
        s.coroutines.contains_key(id),
        c.wf(),
        c.tokens() == s.coroutines[id].tokens(),
        c.children == s.coroutines[id].children || (s.coroutines[id].children.len() > 0
            && c.children == s.coroutines[id].children.skip(1)),
        s.coroutines[id] != CoroutineView::spawned() || s.active() == Some(id),
        ({
            let t = ServerView { phase, ..s.with_coroutine(id, c) };
            &&& t.active() matches Some(a) ==> t.coroutines.contains_key(a)
            &&& phase matches Phase::Starting { parent, child } ==> {
                &&& t.coroutines.contains_key(parent)
                &&& parent != child
                &&& !(t.coroutines[parent].state is Running)
            }
            &&& t.active() matches Some(a) ==> forall|k: u64, j: int|
                #![trigger t.coroutines[k].children[j]]
                t.coroutines.contains_key(k) && 0 <= j < t.coroutines[k].children.len()
                    ==> t.coroutines[k].children[j] != a
            &&& c.state is Running ==> t.active() == Some(id)
            &&& s.active() matches Some(a) ==> a == id || t.active() == Some(a) || !(
            s.coroutines[a].state is Running) || s.coroutines[a] == CoroutineView::spawned()
            &&& t.attended_wf()
            &&& t.unstarted_wf()
        }),
    ensures
        (ServerView { phase, ..s.with_coroutine(id, c) }).wf(),
{
    let t = ServerView { phase, ..s.with_coroutine(id, c) };
    lemma_started(s, id);
    assert(c.io.len() == s.coroutines[id].io.len()) by {
        assert(c.tokens().len() == c.io.len());
        assert(s.coroutines[id].tokens().len() == s.coroutines[id].io.len());
        assert(c.tokens().len() == s.coroutines[id].tokens().len());
    }
    assert forall|i: int| 0 <= i < c.io.len() implies c.io[i].token == (
    #[trigger] s.coroutines[id].io[i]).token by {
        assert(c.tokens()[i] == c.io[i].token.0);
        assert(s.coroutines[id].tokens()[i] == s.coroutines[id].io[i].token.0);
    }
    assert(t.slots_wf()) by {
        assert(t.free == s.free && t.taken == s.taken);
        assert forall|x: usize|
            #![trigger t.taken.contains_key(x)]
            #![trigger t.free.contains(x)]
            {
                &&& x < CAPACITY <==> t.taken.contains_key(x) || t.free.contains(x)
                &&& !(t.taken.contains_key(x) && t.free.contains(x))
            } by {
            assert(s.taken.contains_key(x) || !s.taken.contains_key(x));
        }
    }
    assert(t.taken_wf()) by {
        assert forall|x: usize| #[trigger] t.taken.contains_key(x) implies {
            let source = t.taken[x];
            &&& t.coroutines.contains_key(source.coroutine)
            &&& source.index < t.coroutines[source.coroutine].io.len()
            &&& t.coroutines[source.coroutine].io[source.index as int].token.0 == x
        } by {
            assert(s.taken.contains_key(x));
        }
    }
    assert(t.sources_wf()) by {
        assert forall|k: u64, i: int|
            #![trigger t.coroutines[k].io[i]]
            t.coroutines.contains_key(k) && 0 <= i < t.coroutines[k].io.len() implies {
            let token = t.coroutines[k].io[i].token;
            &&& t.taken.contains_key(token.0)
            &&& t.taken[token.0].coroutine == k
            &&& t.taken[token.0].index == i
        } by {
            assert(s.coroutines[k].io[i].token == t.coroutines[k].io[i].token);
        }
    }
    assert(t.coroutines_wf()) by {
        assert forall|k: u64| #[trigger] t.coroutines.contains_key(k) implies {
            &&& t.coroutines[k].wf()
            &&& k < t.next_id
        } by {
            assert(s.coroutines.contains_key(k));
        }
    }
    assert forall|k: u64, j: int|
        #![trigger t.coroutines[k].children[j]]
        t.coroutines.contains_key(k) && 0 <= j < t.coroutines[k].children.len() implies exists|
        i: int,
    |
        0 <= i < s.coroutines[k].children.len() && #[trigger] s.coroutines[k].children[i]
            == t.coroutines[k].children[j] && (k != id ==> i == j) && (k == id ==> i == j + (
        s.coroutines[id].children.len() - c.children.len())) by {
        if k != id {
            assert(s.coroutines[k].children[j] == t.coroutines[k].children[j]);
        } else if c.children == s.coroutines[id].children {
            assert(s.coroutines[k].children[j] == t.coroutines[k].children[j]);
        } else {
            assert(s.coroutines[k].children[j + 1] == t.coroutines[k].children[j]);
        }
    }
    assert(t.children_wf()) by {
        assert forall|k: u64, j: int|
            #![trigger t.coroutines[k].children[j]]
            t.coroutines.contains_key(k) && 0 <= j < t.coroutines[k].children.len() implies {
            let child = t.coroutines[k].children[j];
            &&& t.coroutines.contains_key(child)
            &&& t.coroutines[child] == CoroutineView::spawned()
            &&& t.active() != Some(child)
        } by {
            let i = choose|i: int|
                0 <= i < s.coroutines[k].children.len() && #[trigger] s.coroutines[k].children[i]
                    == t.coroutines[k].children[j];
            assert(s.coroutines.contains_key(k));
            assert(s.coroutines[k].children[i] != id);
        }
    }
    assert(t.children_distinct()) by {
        assert forall|id1: u64, j1: int, id2: u64, j2: int|
            #![trigger t.coroutines[id1].children[j1], t.coroutines[id2].children[j2]]
            t.coroutines.contains_key(id1) && t.coroutines.contains_key(id2) && 0 <= j1
                < t.coroutines[id1].children.len() && 0 <= j2 < t.coroutines[id2].children.len()
                && t.coroutines[id1].children[j1]
                == t.coroutines[id2].children[j2] implies id1 == id2 && j1 == j2 by {
            let d = s.coroutines[id].children.len() - c.children.len();
            let i1 = if id1 == id {
                j1 + d
            } else {
                j1
            };
            let i2 = if id2 == id {
                j2 + d
            } else {
                j2
            };
            assert(s.coroutines[id1].children[i1] == t.coroutines[id1].children[j1]);
            assert(s.coroutines[id2].children[i2] == t.coroutines[id2].children[j2]);
        }
    }
    assert(t.phase_wf()) by {
        assert forall|k: u64| #[trigger]
            t.coroutines.contains_key(k) && t.active() != Some(k)
                && t.coroutines[k].state is Running implies t.coroutines[k]
            == CoroutineView::spawned() by {
            assert(s.coroutines.contains_key(k));
        }
    }
    assert(t.coroutines.dom() =~= s.coroutines.dom());
}

/// No two sources of a coroutine have the same token, and all of them are taken.
pub(crate) proof fn lemma_tokens(s: ServerView, id: u64)
    requires
        s.wf(),
        s.coroutines.contains_key(id),
    ensures
        s.coroutines[id].tokens().no_duplicates(),
        forall|i: int|
            0 <= i < s.coroutines[id].io.len() ==> s.taken.contains_key(
                #[trigger] s.coroutines[id].tokens()[i],
            ),
        forall|x: usize|
            s.coroutines[id].tokens().contains(x) <==> s.taken.contains_key(x)
                && s.taken[x].coroutine == id,
{
    let c = s.coroutines[id];
    let tokens = c.tokens();
    assert forall|i: int| 0 <= i < c.io.len() implies {
        &&& s.taken.contains_key(#[trigger] tokens[i])
        &&& s.taken[tokens[i]].coroutine == id
        &&& s.taken[tokens[i]].index == i
    } by {
        assert(tokens[i] == s.coroutines[id].io[i].token.0);
    }
    assert forall|x: usize| tokens.contains(x) <==> s.taken.contains_key(x)
        && s.taken[x].coroutine == id by {
        if tokens.contains(x) {
            let i = choose|i: int| 0 <= i < tokens.len() && tokens[i] == x;
            assert(s.taken.contains_key(tokens[i]));
        }
        if s.taken.contains_key(x) && s.taken[x].coroutine == id {
            assert(tokens[s.taken[x].index as int] == x);
        }
    }
}

/// A coroutine that the server was waiting for, or one that has ended, can leave
/// together with its sources, once all that it spawned have been started.
proof fn lemma_removed(s: ServerView, id: u64, phase: Phase, coroutines_no: u32)
    requires
        s.wf(),
        s.coroutines.contains_key(id),
        s.coroutines[id].children.len() == 0,
        match s.phase {
            Phase::Idle => s.coroutines[id].state is Finished && phase is Idle,
            Phase::Resumed { coroutine } => coroutine == id && phase is Idle,
            Phase::Starting { parent, child } => child == id && phase == (Phase::Resumed {
                coroutine: parent,
            }),
        },
    ensures
        (ServerView { coroutines_no, phase, ..s.without_coroutine(id) }).wf(),
{
    let c = s.coroutines[id];
    let tokens = c.tokens();
    let t = ServerView { coroutines_no, phase, ..s.without_coroutine(id) };
    lemma_started(s, id);
    lemma_tokens(s, id);
    assert forall|x: usize| t.free.contains(x) <==> tokens.contains(x) || s.free.contains(x) by {
        if tokens.contains(x) {
            let i = choose|i: int| 0 <= i < tokens.len() && tokens[i] == x;
            assert(t.free[tokens.len() - 1 - i] == x);
        }
        if s.free.contains(x) {
            let i = choose|i: int| 0 <= i < s.free.len() && s.free[i] == x;
            assert(t.free[tokens.len() + i] == x);
        }
        if t.free.contains(x) {
            let i = choose|i: int| 0 <= i < t.free.len() && t.free[i] == x;
            if i < tokens.len() {
                assert(tokens[tokens.len() - 1 - i] == x);
            } else {
                assert(s.free[i - tokens.len()] == x);
            }
        }
    }
    assert(t.slots_wf()) by {
        assert forall|i: int, j: int| 0 <= i < t.free.len() && 0 <= j < t.free.len() && i
            != j implies t.free[i] != t.free[j] by {
            let n = tokens.len();
            if i < n {
                assert(t.free[i] == tokens[n - 1 - i]);
                assert(tokens.contains(t.free[i]));
            } else {
                assert(t.free[i] == s.free[i - n]);
                assert(s.free.contains(t.free[i]));
            }
            if j < n {
                assert(t.free[j] == tokens[n - 1 - j]);
                assert(tokens.contains(t.free[j]));
            } else {
                assert(t.free[j] == s.free[j - n]);
                assert(s.free.contains(t.free[j]));
            }
        }
        assert forall|x: usize|
            #![trigger t.taken.contains_key(x)]
            #![trigger t.free.contains(x)]
            {
                &&& x < CAPACITY <==> t.taken.contains_key(x) || t.free.contains(x)
                &&& !(t.taken.contains_key(x) && t.free.contains(x))
            } by {
            assert(tokens.to_set().contains(x) == tokens.contains(x));
            assert(s.taken.contains_key(x) || !s.taken.contains_key(x));
        }
    }
    assert forall|k: u64| #[trigger] t.coroutines.contains_key(k) implies {
        &&& s.coroutines.contains_key(k)
        &&& k != id
        &&& t.coroutines[k] == s.coroutines[k]
    } by {}
    assert(t.taken_wf()) by {
        assert forall|x: usize| #[trigger] t.taken.contains_key(x) implies {
            let source = t.taken[x];
            &&& t.coroutines.contains_key(source.coroutine)
            &&& source.index < t.coroutines[source.coroutine].io.len()
            &&& t.coroutines[source.coroutine].io[source.index as int].token.0 == x
        } by {
            assert(s.taken.contains_key(x));
            assert(!tokens.contains(x));
        }
    }
    assert(t.sources_wf()) by {
        assert forall|k: u64, i: int|
            #![trigger t.coroutines[k].io[i]]
            t.coroutines.contains_key(k) && 0 <= i < t.coroutines[k].io.len() implies {
            let token = t.coroutines[k].io[i].token;
            &&& t.taken.contains_key(token.0)
            &&& t.taken[token.0].coroutine == k
            &&& t.taken[token.0].index == i
        } by {
            assert(s.coroutines[k].io[i] == t.coroutines[k].io[i]);
            assert(!tokens.contains(s.coroutines[k].io[i].token.0));
        }
    }
    assert(t.coroutines_wf());
    assert(t.children_wf()) by {
        assert forall|k: u64, j: int|
            #![trigger t.coroutines[k].children[j]]
            t.coroutines.contains_key(k) && 0 <= j < t.coroutines[k].children.len() implies {
            let child = t.coroutines[k].children[j];
            &&& t.coroutines.contains_key(child)
            &&& t.coroutines[child] == CoroutineView::spawned()
            &&& t.active() != Some(child)
        } by {
            let child = s.coroutines[k].children[j];
            assert(child == t.coroutines[k].children[j]);
            assert(s.coroutines.contains_key(child));
        }
    }
    assert(t.children_distinct()) by {
        assert forall|id1: u64, j1: int, id2: u64, j2: int|
            #![trigger t.coroutines[id1].children[j1], t.coroutines[id2].children[j2]]
            t.coroutines.contains_key(id1) && t.coroutines.contains_key(id2) && 0 <= j1
                < t.coroutines[id1].children.len() && 0 <= j2 < t.coroutines[id2].children.len()
                && t.coroutines[id1].children[j1]
                == t.coroutines[id2].children[j2] implies id1 == id2 && j1 == j2 by {
            assert(s.coroutines[id1].children[j1] == s.coroutines[id2].children[j2]);
        }
    }
    assert(t.phase_wf());
    assert(t.attended_wf()) by {
        assert forall|k: u64| #[trigger] t.coroutines.contains_key(k) implies t.attends(k)
            || t.in_order(k) by {
            assert(s.coroutines.contains_key(k));
        }
    }
    assert(t.unstarted_wf()) by {
        assert forall|k: u64| #[trigger]
            t.coroutines.contains_key(k) && t.active() != Some(k)
                && t.coroutines[k].state is Running implies t.is_listed(k) by {
            assert(s.coroutines.contains_key(k));
            assert(s.is_listed(k));
            let (p, j) = choose|p: u64, j: int|
                #![trigger s.coroutines[p].children[j]]
                s.coroutines.contains_key(p) && 0 <= j < s.coroutines[p].children.len()
                    && s.coroutines[p].children[j] == k;
            assert(t.coroutines[p].children[j] == k);
        }
    }
    assert(t.coroutines.dom() =~= s.coroutines.dom().remove(id));
}

/// A coroutine keeps its invariant when it is told of an event, when it finishes,
/// and when the event loop is made to watch what it is blocked on. Each time its
/// sources keep their tokens.
pub(crate) proof fn lemma_coroutine_changes(c: CoroutineView)
    requires
        c.wf(),
    ensures
        forall|index: int, events: EventSet, tick: u32|
            0 <= index < c.io.len() ==> {
                &&& (#[trigger] c.told(index, events, tick)).wf()
                &&& c.told(index, events, tick).tokens() == c.tokens()
            },
        c.finished().wf(),
        c.finished().tokens() == c.tokens(),
        c.state is BlockedOn ==> c.settled().wf(),
        c.settled().tokens() == c.tokens(),
{
    lemma_mask_len(c.io.len());
    assert forall|index: int, events: EventSet, tick: u32| 0 <= index < c.io.len() implies {
        &&& (#[trigger] c.told(index, events, tick)).wf()
        &&& c.told(index, events, tick).tokens() == c.tokens()
    } by {
        let d = c.told(index, events, tick);
        assert forall|i: int| 0 <= i < d.io.len() implies {
            &&& (#[trigger] d.io[i]).index == i
            &&& d.io[i].wf()
            &&& d.io[i].token == c.io[i].token
        } by {
            assert(c.io[i].wf());
        }
        assert(d.tokens() =~= c.tokens());
    }
    assert(c.finished().tokens() =~= c.tokens());
    let d = c.settled();
    assert forall|i: int| 0 <= i < d.io.len() implies {
        &&& (#[trigger] d.io[i]).index == i
        &&& d.io[i].wf()
        &&& d.io[i].token == c.io[i].token
    } by {
        assert(c.io[i].wf());
    }
    assert(d.tokens() =~= c.tokens());
}

/// A server without coroutines keeps its invariant.
pub proof fn initial_is_wf()
    ensures
        ServerView::initial().wf(),
{
    let s = ServerView::initial();
    assert forall|x: usize|
        #![trigger s.taken.contains_key(x)]
        #![trigger s.free.contains(x)]
        {
            &&& x < CAPACITY <==> s.taken.contains_key(x) || s.free.contains(x)
            &&& !(s.taken.contains_key(x) && s.free.contains(x))
        } by {
        if x < CAPACITY {
            assert(s.free[x as int] == x);
        }
    }
}

/// What follows once a coroutine has blocked or finished keeps the invariant.
proof fn lemma_after_resume(s: ServerView, id: u64)
    requires
        s.wf(),
        s.phase == (Phase::Resumed { coroutine: id }),
        !(s.coroutines[id].state is Running),
    ensures
        s.after_resume(id).server.wf(),
        match s.after_resume(id).step {
            Step::Resume(next) => s.after_resume(id).server.runs(next),
            Step::Done => s.after_resume(id).server.phase is Idle,
        },
{
    let c = s.coroutines[id];
    lemma_started(s, id);
    lemma_coroutine_changes(c);
    if c.children.len() > 0 {
        let child = c.children[0];
        let rest = CoroutineView { children: c.children.skip(1), ..c };
        let phase = Phase::Starting { parent: id, child };
        let t = ServerView { phase, ..s.with_coroutine(id, rest) };
        assert(s.coroutines[id].children[0] == child);
        assert(rest.tokens() =~= c.tokens());
        assert(rest.wf());
        assert forall|k: u64, j: int|
            #![trigger t.coroutines[k].children[j]]
            t.coroutines.contains_key(k) && 0 <= j < t.coroutines[k].children.len() implies
            t.coroutines[k].children[j] != child by {
            if k == id {
                assert(s.coroutines[id].children[j + 1] == t.coroutines[k].children[j]);
            } else {
                assert(s.coroutines[k].children[j] == t.coroutines[k].children[j]);
            }
        }
        assert(t.attended_wf()) by {
            assert forall|k: u64| #[trigger] t.coroutines.contains_key(k) implies t.attends(k)
                || t.in_order(k) by {
                assert(s.coroutines.contains_key(k));
            }
        }
        assert(t.unstarted_wf()) by {
            assert forall|k: u64| #[trigger]
                t.coroutines.contains_key(k) && t.active() != Some(k)
                    && t.coroutines[k].state is Running implies t.is_listed(k) by {
                assert(s.coroutines.contains_key(k));
                assert(s.is_listed(k));
                let (p, j) = choose|p: u64, j: int|
                    #![trigger s.coroutines[p].children[j]]
                    s.coroutines.contains_key(p) && 0 <= j < s.coroutines[p].children.len()
                        && s.coroutines[p].children[j] == k;
                assert(s.attends(p));
                assert(t.coroutines[id].children[j - 1] == k);
            }
        }
        lemma_replaced(s, id, rest, phase);
    } else if c.state is Finished {
        lemma_removed(s, id, Phase::Idle, s.coroutines_no.wrapping_sub(1));
    } else {
        let t = ServerView { phase: Phase::Idle, ..s.with_coroutine(id, c.settled()) };
        lemma_others_wait(s, id);
        assert forall|k: u64| #[trigger] t.coroutines.contains_key(k) implies !(
        t.coroutines[k].state is Running) && t.in_order(k) by {
            assert(s.coroutines.contains_key(k));
        }
        lemma_replaced(s, id, c.settled(), Phase::Idle);
    }
}

/// While the server sees to a coroutine all of whose children have been started,
/// all others wait or have ended.
proof fn lemma_others_wait(s: ServerView, id: u64)
    requires
        s.wf(),
        s.phase == (Phase::Resumed { coroutine: id }),
        s.coroutines[id].children.len() == 0,
    ensures
        forall|k: u64| #[trigger]
            s.coroutines.contains_key(k) && k != id ==> !(s.coroutines[k].state is Running)
                && s.in_order(k),
{
    assert forall|k: u64| #[trigger] s.coroutines.contains_key(k) && k != id implies !(
    s.coroutines[k].state is Running) && s.in_order(k) by {
        if s.coroutines[k].state is Running {
            assert(s.is_listed(k));
            let (p, j) = choose|p: u64, j: int|
                #![trigger s.coroutines[p].children[j]]
                s.coroutines.contains_key(p) && 0 <= j < s.coroutines[p].children.len()
                    && s.coroutines[p].children[j] == k;
            assert(s.attends(p));
        }
    }
}

/// A coroutine that was resumed can fail.
pub(crate) proof fn lemma_heard(s: ServerView, ok: bool)
    requires
        s.wf(),
        s.active() matches Some(id) && (ok ==> !(s.coroutines[id].state is Running)),
    ensures
        s.heard(ok).wf(),
        s.heard(ok).phase == s.phase,
        !(s.heard(ok).coroutines[s.active()->0].state is Running),
{
    if !ok {
        let id = s.active()->0;
        let c = s.coroutines[id];
        let t = s.heard(ok);
        lemma_started(s, id);
        lemma_coroutine_changes(c);
        lemma_kept_lists(s, id, c.finished());
        lemma_replaced(s, id, c.finished(), s.phase);
        assert(t == (ServerView { phase: s.phase, ..s.with_coroutine(id, c.finished()) }));
    }
}

/// A coroutine that the server attends to can change in any way but for its
/// children; any other one as long as it is in order.
proof fn lemma_kept_lists(s: ServerView, id: u64, c: CoroutineView)
    requires
        s.wf(),
        s.coroutines.contains_key(id),
        c.children == s.coroutines[id].children,
        c.state is Finished ==> s.attends(id) || c.io.len() > 0,
        c.state is Running ==> s.coroutines[id].state is Running || s.active() == Some(id),
    ensures
        s.with_coroutine(id, c).attended_wf(),
        s.with_coroutine(id, c).unstarted_wf(),
        (ServerView { phase: s.phase, ..s.with_coroutine(id, c) }) == s.with_coroutine(id, c),
{
    let t = s.with_coroutine(id, c);
    lemma_same_lists(s, t);
    assert forall|k: u64| #[trigger] t.coroutines.contains_key(k) implies t.attends(k)
        || t.in_order(k) by {
        assert(s.coroutines.contains_key(k));
    }
    assert forall|k: u64| #[trigger]
        t.coroutines.contains_key(k) && t.active() != Some(k)
            && t.coroutines[k].state is Running implies t.is_listed(k) by {
        assert(s.coroutines.contains_key(k));
        assert(s.is_listed(k));
    }
}

/// A child can hand over to its parent what it has spawned.
pub(crate) proof fn lemma_handed_over(s: ServerView)
    requires
        s.wf(),
        s.phase is Starting,
    ensures
        s.handed_over(s.phase->parent, s.phase->child).wf(),
{
    let parent = s.phase->parent;
    let child = s.phase->child;
    let t = s.handed_over(parent, child);
    let from = s.coroutines[child];
    let to = s.coroutines[parent];
    let n = from.children.len();
    lemma_started(s, parent);
    lemma_started(s, child);
    assert forall|k: u64| #[trigger] t.coroutines.contains_key(k) implies {
        &&& s.coroutines.contains_key(k)
        &&& t.coroutines[k].io == s.coroutines[k].io
        &&& t.coroutines[k].state == s.coroutines[k].state
        &&& t.coroutines[k].wf()
        &&& k != parent && k != child ==> t.coroutines[k] == s.coroutines[k]
    } by {
        assert(s.coroutines[k].wf());
        let c = s.coroutines[k];
        let d = t.coroutines[k];
        assert forall|i: int| 0 <= i < d.io.len() implies {
            &&& (#[trigger] d.io[i]).index == i
            &&& d.io[i].wf()
        } by {
            assert(c.io[i].wf());
        }
    }
    assert(t.slots_wf()) by {
        assert forall|x: usize|
            #![trigger t.taken.contains_key(x)]
            #![trigger t.free.contains(x)]
            {
                &&& x < CAPACITY <==> t.taken.contains_key(x) || t.free.contains(x)
                &&& !(t.taken.contains_key(x) && t.free.contains(x))
            } by {
            assert(s.taken.contains_key(x) || !s.taken.contains_key(x));
        }
    }
    assert(t.taken_wf()) by {
        assert forall|x: usize| #[trigger] t.taken.contains_key(x) implies {
            let source = t.taken[x];
            &&& t.coroutines.contains_key(source.coroutine)
            &&& source.index < t.coroutines[source.coroutine].io.len()
            &&& t.coroutines[source.coroutine].io[source.index as int].token.0 == x
        } by {
            assert(s.taken.contains_key(x));
        }
    }
    assert(t.sources_wf()) by {
        assert forall|k: u64, i: int|
            #![trigger t.coroutines[k].io[i]]
            t.coroutines.contains_key(k) && 0 <= i < t.coroutines[k].io.len() implies {
            let token = t.coroutines[k].io[i].token;
            &&& t.taken.contains_key(token.0)
            &&& t.taken[token.0].coroutine == k
            &&& t.taken[token.0].index == i
        } by {
            assert(s.coroutines[k].io[i] == t.coroutines[k].io[i]);
        }
    }
    assert forall|k: u64, j: int|
        #![trigger t.coroutines[k].children[j]]
        t.coroutines.contains_key(k) && 0 <= j < t.coroutines[k].children.len() implies {
        let (p, i) = if k != parent {
            (k, j)
        } else if j < n {
            (child, j)
        } else {
            (parent, j - n)
        };
        &&& k != child
        &&& s.coroutines.contains_key(p)
        &&& 0 <= i < s.coroutines[p].children.len()
        &&& s.coroutines[p].children[i] == t.coroutines[k].children[j]
        &&& t.coroutines[k].children[j] != parent
        &&& t.coroutines[k].children[j] != child
    } by {
        let (p, i) = if k != parent {
            (k, j)
        } else if j < n {
            (child, j)
        } else {
            (parent, j - n)
        };
        assert(s.coroutines[p].children[i] == t.coroutines[k].children[j]);
    }
    assert(t.children_wf());
    assert(t.children_distinct()) by {
        assert forall|id1: u64, j1: int, id2: u64, j2: int|
            #![trigger t.coroutines[id1].children[j1], t.coroutines[id2].children[j2]]
            t.coroutines.contains_key(id1) && t.coroutines.contains_key(id2) && 0 <= j1
                < t.coroutines[id1].children.len() && 0 <= j2 < t.coroutines[id2].children.len()
                && t.coroutines[id1].children[j1]
                == t.coroutines[id2].children[j2] implies id1 == id2 && j1 == j2 by {
            let (p1, i1) = if id1 != parent {
                (id1, j1)
            } else if j1 < n {
                (child, j1)
            } else {
                (parent, j1 - n)
            };
            let (p2, i2) = if id2 != parent {
                (id2, j2)
            } else if j2 < n {
                (child, j2)
            } else {
                (parent, j2 - n)
            };
            assert(s.coroutines[p1].children[i1] == s.coroutines[p2].children[i2]);
        }
    }
    assert(t.phase_wf()) by {
        assert forall|k: u64| #[trigger]
            t.coroutines.contains_key(k) && t.active() != Some(k)
                && t.coroutines[k].state is Running implies t.coroutines[k]
            == CoroutineView::spawned() by {
            assert(s.coroutines.contains_key(k));
        }
    }
    assert(t.attended_wf()) by {
        assert forall|k: u64| #[trigger] t.coroutines.contains_key(k) implies t.attends(k)
            || t.in_order(k) by {
            assert(s.coroutines.contains_key(k));
        }
    }
    assert(t.unstarted_wf()) by {
        assert forall|k: u64| #[trigger]
            t.coroutines.contains_key(k) && t.active() != Some(k)
                && t.coroutines[k].state is Running implies t.is_listed(k) by {
            assert(s.coroutines.contains_key(k));
            assert(s.is_listed(k));
            let (p, j) = choose|p: u64, j: int|
                #![trigger s.coroutines[p].children[j]]
                s.coroutines.contains_key(p) && 0 <= j < s.coroutines[p].children.len()
                    && s.coroutines[p].children[j] == k;
            assert(s.attends(p));
            if p == child {
                assert(t.coroutines[parent].children[j] == k);
            } else {
                assert(t.coroutines[parent].children[n + j] == k);
            }
        }
    }
    assert(t.coroutines.dom() =~= s.coroutines.dom());
}

/// A child that failed can stay known for its sources.
pub(crate) proof fn lemma_child_failed(s: ServerView)
    requires
        s.wf(),
        s.phase is Starting,
        s.coroutines[s.phase->child].state is Finished,
        s.coroutines[s.phase->child].children.len() == 0,
    ensures
        ({
            let parent = s.phase->parent;
            let t = ServerView {
                phase: Phase::Resumed { coroutine: parent },
                ..s.child_failed(s.phase->child).server
            };
            &&& t.wf()
            &&& t.coroutines.contains_key(parent)
            &&& t.coroutines[parent] == s.coroutines[parent]
        }),
{
    let parent = s.phase->parent;
    let child = s.phase->child;
    let phase = Phase::Resumed { coroutine: parent };
    let c = s.coroutines[child];
    if c.io.len() == 0 {
        lemma_child_seen_to(s);
    } else {
        let u = ServerView { phase, ..s.with_coroutine(child, c) };
        lemma_started(s, child);
        lemma_started(s, parent);
        lemma_same_lists(s, u);
        assert(u.coroutines =~= s.coroutines);
        assert(u.attended_wf()) by {
            assert forall|k: u64| #[trigger] u.coroutines.contains_key(k) implies u.attends(k)
                || u.in_order(k) by {
                assert(s.coroutines.contains_key(k));
            }
        }
        assert(u.unstarted_wf()) by {
            assert forall|k: u64| #[trigger]
                u.coroutines.contains_key(k) && u.active() != Some(k)
                    && u.coroutines[k].state is Running implies u.is_listed(k) by {
                assert(s.coroutines.contains_key(k));
                assert(s.is_listed(k));
            }
        }
        lemma_replaced(s, child, c, phase);
        lemma_same_parts(u, ServerView { phase, ..s.child_failed(child).server });
    }
}

/// What becomes of a child that has handed over what it spawned leaves its parent as
/// it was.
pub(crate) proof fn lemma_child_seen_to(s: ServerView)
    requires
        s.wf(),
        s.phase is Starting,
        !(s.coroutines[s.phase->child].state is Running),
        s.coroutines[s.phase->child].children.len() == 0,
    ensures
        ({
            let parent = s.phase->parent;
            let t = ServerView {
                phase: Phase::Resumed { coroutine: parent },
                ..s.reregistered(s.phase->child).server
            };
            &&& t.wf()
            &&& t.coroutines.contains_key(parent)
            &&& t.coroutines[parent] == s.coroutines[parent]
        }),
{
    let parent = s.phase->parent;
    let child = s.phase->child;
    let phase = Phase::Resumed { coroutine: parent };
    let c = s.coroutines[child];
    lemma_started(s, child);
    lemma_started(s, parent);
    lemma_coroutine_changes(c);
    if c.state is BlockedOn {
        let t = ServerView { phase, ..s.with_coroutine(child, c.settled()) };
        lemma_same_lists(s, t);
        assert(t.attended_wf()) by {
            assert forall|k: u64| #[trigger] t.coroutines.contains_key(k) implies t.attends(k)
                || t.in_order(k) by {
                assert(s.coroutines.contains_key(k));
            }
        }
        assert(t.unstarted_wf()) by {
            assert forall|k: u64| #[trigger]
                t.coroutines.contains_key(k) && t.active() != Some(k)
                    && t.coroutines[k].state is Running implies t.is_listed(k) by {
                assert(s.coroutines.contains_key(k));
                assert(s.is_listed(k));
            }
        }
        lemma_replaced(s, child, c.settled(), phase);
    } else {
        lemma_removed(s, child, phase, s.coroutines_no.wrapping_sub(1));
    }
}

/// What a server makes of word that the resumed coroutine has blocked, returned
/// or failed keeps the invariant. It then either waits for the next event, or for
/// word of the one coroutine that it asks to resume.
pub proof fn resumed_keeps_wf(s: ServerView, ok: bool)
    requires
        s.wf(),
        s.active() matches Some(id) && (ok ==> !(s.coroutines[id].state is Running)),
    ensures
        s.resumed(ok).server.wf(),
        match s.resumed(ok).step {
            Step::Resume(next) => s.resumed(ok).server.runs(next),
            Step::Done => s.resumed(ok).server.phase is Idle,
        },
{
    let u = s.heard(ok);
    lemma_heard(s, ok);
    match s.phase {
        Phase::Idle => {},
        Phase::Resumed { coroutine } => {
            lemma_after_resume(u, coroutine);
        },
        Phase::Starting { parent, child } => {
            let v = u.handed_over(parent, child);
            let outcome = if ok {
                v.reregistered(child)
            } else {
                v.child_failed(child)
            };
            let t = ServerView { phase: Phase::Resumed { coroutine: parent }, ..outcome.server };
            lemma_handed_over(u);
            if ok {
                lemma_child_seen_to(v);
            } else {
                lemma_child_failed(v);
            }
            lemma_after_resume(t, parent);
            assert(outcome.server.after_resume(parent) == t.after_resume(parent));
        },
    }
}

/// The invariant depends only on the sources, the coroutines and the phase.
pub(crate) proof fn lemma_same_parts(s: ServerView, t: ServerView)
    requires
        s.wf(),
        t.taken == s.taken,
        t.free == s.free,
        t.coroutines == s.coroutines,
        t.next_id == s.next_id,
        t.phase == s.phase,
    ensures
        t.wf(),
{
    assert(t.slots_wf()) by {
        assert forall|x: usize|
            #![trigger t.taken.contains_key(x)]
            #![trigger t.free.contains(x)]
            {
                &&& x < CAPACITY <==> t.taken.contains_key(x) || t.free.contains(x)
                &&& !(t.taken.contains_key(x) && t.free.contains(x))
            } by {
            assert(s.taken.contains_key(x) || !s.taken.contains_key(x));
        }
    }
    assert(t.taken_wf()) by {
        assert(forall|x: usize| t.taken.contains_key(x) == #[trigger] s.taken.contains_key(x));
    }
    assert(t.sources_wf());
    assert(t.coroutines_wf());
    assert(t.children_wf());
    assert(t.children_distinct());
    assert(t.phase_wf());
    lemma_same_lists(s, t);
}

/// A coroutine can be told of an event on one of its sources.
pub(crate) proof fn lemma_told(s: ServerView, source: EventSource, events: EventSet)
    requires
        s.wf(),
        s.phase is Idle,
        s.coroutines.contains_key(source.coroutine),
        source.index < s.coroutines[source.coroutine].io.len(),
    ensures
        ({
            let id = source.coroutine;
            let c = s.coroutines[id];
            let d = c.told(source.index as int, events, s.tick);
            &&& (ServerView {
                phase: Phase::Resumed { coroutine: id },
                ..s.with_coroutine(id, d)
            }).wf()
            &&& d.state is Running <==> c.woken_by(source.index as int, events, s.tick)
        }),
{
    let id = source.coroutine;
    let c = s.coroutines[id];
    assert(c != CoroutineView::spawned());
    lemma_started(s, id);
    lemma_idle(s);
    lemma_coroutine_changes(c);
    assert forall|k: u64| #[trigger] s.with_coroutine(
        id,
        c.told(source.index as int, events, s.tick),
    ).coroutines.contains_key(k) implies s.coroutines.contains_key(k) by {}
    lemma_replaced(
        s,
        id,
        c.told(source.index as int, events, s.tick),
        Phase::Resumed { coroutine: id },
    );
}

/// What a server makes of an event on a source keeps the invariant.
proof fn lemma_dispatched(s: ServerView, source: EventSource, events: EventSet)
    requires
        s.wf(),
        s.phase is Idle,
        s.coroutines.contains_key(source.coroutine),
        source.index < s.coroutines[source.coroutine].io.len(),
    ensures
        s.dispatched(source, events).server.wf(),
        match s.dispatched(source, events).step {
            Step::Resume(next) => s.dispatched(source, events).server.runs(next),
            Step::Done => s.dispatched(source, events).server.phase is Idle,
        },
{
    let id = source.coroutine;
    let index = source.index as int;
    let c = s.coroutines[id];
    let d = c.told(index, events, s.tick);
    let phase = Phase::Resumed { coroutine: id };
    lemma_told(s, source, events);
    if c.state is Finished {
        let t = ServerView { phase, ..s.with_coroutine(id, d) };
        lemma_idle(s);
        lemma_removed(t, id, Phase::Idle, s.coroutines_no);
        assert(s.dispatched(source, events).server == (ServerView {
            coroutines_no: s.coroutines_no,
            phase: Phase::Idle,
            ..t.without_coroutine(id)
        }));
    } else if !c.woken_by(index, events, s.tick) {
        let t = ServerView { phase, ..s.with_coroutine(id, d) };
        lemma_after_resume(t, id);
        assert(t.after_resume(id) == s.with_coroutine(id, d).after_resume(id));
    }
}

/// What a server makes of an event keeps the invariant.
pub proof fn ready_keeps_wf(s: ServerView, token: Token, events: EventSet)
    requires
        s.wf(),
        s.phase is Idle,
    ensures
        s.ready(token, events).server.wf(),
        match s.ready(token, events).step {
            Step::Resume(next) => s.ready(token, events).server.runs(next),
            Step::Done => s.ready(token, events).server.phase is Idle,
        },
{
    lemma_same_parts(s, s.ticked());
    if s.taken.contains_key(token.0) {
        lemma_dispatched(s.ticked(), s.taken[token.0], events);
    }
}

/// A timer of a server can change its state.
proof fn lemma_with_timer(s: ServerView, token: Token, timer: Timer)
    requires
        s.wf(),
        s.is_timer(token),
        timer.wf(),
    ensures
        s.with_timer(token, timer).wf(),
{
    let source = s.taken[token.0];
    let id = source.coroutine;
    let index = source.index as int;
    let c = s.coroutines[id];
    let io = c.io.update(index, EventSourceShared { io: Io::Timer(timer), ..c.io[index] });
    let d = CoroutineView { io, ..c };
    lemma_mask_len(c.io.len());
    assert forall|i: int| 0 <= i < d.io.len() implies {
        &&& (#[trigger] d.io[i]).index == i
        &&& d.io[i].wf()
        &&& d.io[i].token == c.io[i].token
    } by {
        assert(c.io[i].wf());
    }
    assert(d.wf());
    assert(d.tokens() =~= c.tokens());
    assert(c != CoroutineView::spawned());
    lemma_started(s, id);
    assert forall|k: u64, j: int|
        #![trigger s.with_timer(token, timer).coroutines[k].children[j]]
        s.with_timer(token, timer).coroutines.contains_key(k) && 0 <= j < s.with_timer(
            token,
            timer,
        ).coroutines[k].children.len() implies s.active() != Some(
        s.with_timer(token, timer).coroutines[k].children[j],
    ) by {
        assert(s.coroutines[k].children[j] == s.with_timer(
            token,
            timer,
        ).coroutines[k].children[j]);
    }
    lemma_kept_lists(s, id, d);
    lemma_replaced(s, id, d, s.phase);
    assert(s.with_timer(token, timer) == (ServerView { phase: s.phase, ..s.with_coroutine(id, d) }));
}

/// A timer can be notified.
pub(crate) proof fn lemma_notified(s: ServerView, token: Token, iteration: u32)
    requires
        s.wf(),
        s.phase is Idle,
        s.is_timer(token),
    ensures
        ({
            let source = s.taken[token.0];
            let t = s.ticked().with_timer(token, s.timer(token).notified(iteration));
            &&& t.wf()
            &&& t.phase is Idle
            &&& t.coroutines.contains_key(source.coroutine)
            &&& source.index < t.coroutines[source.coroutine].io.len()
        }),
{
    let source = s.taken[token.0];
    lemma_same_parts(s, s.ticked());
    assert(s.coroutines[source.coroutine].io[source.index as int].wf());
    lemma_with_timer(s.ticked(), token, s.timer(token).notified(iteration));
}

/// What a server makes of the notification of a timer keeps the invariant.
pub proof fn timeout_keeps_wf(s: ServerView, token: Token, iteration: u32)
    requires
        s.wf(),
        s.phase is Idle,
        s.taken.contains_key(token.0) ==> s.is_timer(token),
    ensures
        s.timeout(token, iteration).server.wf(),
        match s.timeout(token, iteration).step {
            Step::Resume(next) => s.timeout(token, iteration).server.runs(next),
            Step::Done => s.timeout(token, iteration).server.phase is Idle,
        },
{
    if s.taken.contains_key(token.0) {
        let timer = s.timer(token);
        let events = if timer.expects(iteration) {
            EventSet::spec_readable()
        } else {
            EventSet::spec_none()
        };
        lemma_notified(s, token, iteration);
        lemma_dispatched(
            s.ticked().with_timer(token, timer.notified(iteration)),
            s.taken[token.0],
            events,
        );
    } else {
        lemma_same_parts(s, s.ticked());
    }
}

/// What a server makes of an answer of the event loop keeps the invariant.
pub proof fn timer_started_keeps_wf(
    s: ServerView,
    token: Token,
    answer: Option<Timeout>,
)
    requires
        s.wf(),
    ensures
        s.timer_started(token, answer).wf(),
{
    if s.is_timer(token) {
        let source = s.taken[token.0];
        assert(s.coroutines[source.coroutine].io[source.index as int].wf());
        lemma_with_timer(s, token, s.timer(token).started_with(answer));
    }
}

/// A new coroutine takes a number that none has had.
proof fn lemma_with_spawned(s: ServerView, phase: Phase)
    requires
        s.wf(),
        s.next_id < u64::MAX,
        phase == s.phase || (s.phase is Idle && phase == (Phase::Resumed {
            coroutine: s.next_id,
        })),
    ensures
        ({
            let t = ServerView { phase, ..s.with_spawned() };
            &&& t.slots_wf()
            &&& t.taken_wf()
            &&& t.sources_wf()
            &&& t.coroutines_wf()
            &&& t.children_wf()
            &&& t.children_distinct()
            &&& t.phase_wf()
            &&& t.attended_wf()
            &&& t.coroutines.dom().finite()
            &&& phase != s.phase ==> t.unstarted_wf()
        }),
{
    let t = ServerView { phase, ..s.with_spawned() };
    let new = s.next_id;
    assert(!s.coroutines.contains_key(new));
    assert forall|k: u64| #[trigger] t.coroutines.contains_key(k) implies k == new || (
    s.coroutines.contains_key(k) && t.coroutines[k] == s.coroutines[k]) by {}
    assert(t.slots_wf()) by {
        assert forall|x: usize|
            #![trigger t.taken.contains_key(x)]
            #![trigger t.free.contains(x)]
            {
                &&& x < CAPACITY <==> t.taken.contains_key(x) || t.free.contains(x)
                &&& !(t.taken.contains_key(x) && t.free.contains(x))
            } by {
            assert(s.taken.contains_key(x) || !s.taken.contains_key(x));
        }
    }
    assert(t.taken_wf()) by {
        assert(forall|x: usize| t.taken.contains_key(x) == #[trigger] s.taken.contains_key(x));
    }
    assert(t.sources_wf()) by {
        assert forall|k: u64, i: int|
            #![trigger t.coroutines[k].io[i]]
            t.coroutines.contains_key(k) && 0 <= i < t.coroutines[k].io.len() implies {
            let token = t.coroutines[k].io[i].token;
            &&& t.taken.contains_key(token.0)
            &&& t.taken[token.0].coroutine == k
            &&& t.taken[token.0].index == i
        } by {
            assert(s.coroutines[k].io[i] == t.coroutines[k].io[i]);
        }
    }
    assert(t.coroutines_wf()) by {
        assert(mask::no_bits(0) =~= Seq::<bool>::empty());
        assert(CoroutineView::spawned().wf());
    }
    assert(t.children_wf()) by {
        assert forall|k: u64, j: int|
            #![trigger t.coroutines[k].children[j]]
            t.coroutines.contains_key(k) && 0 <= j < t.coroutines[k].children.len() implies {
            let child = t.coroutines[k].children[j];
            &&& t.coroutines.contains_key(child)
            &&& t.coroutines[child] == CoroutineView::spawned()
            &&& t.active() != Some(child)
        } by {
            assert(s.coroutines[k].children[j] == t.coroutines[k].children[j]);
            assert(s.coroutines.contains_key(s.coroutines[k].children[j]));
        }
    }
    assert(t.children_distinct()) by {
        assert forall|id1: u64, j1: int, id2: u64, j2: int|
            #![trigger t.coroutines[id1].children[j1], t.coroutines[id2].children[j2]]
            t.coroutines.contains_key(id1) && t.coroutines.contains_key(id2) && 0 <= j1
                < t.coroutines[id1].children.len() && 0 <= j2 < t.coroutines[id2].children.len()
                && t.coroutines[id1].children[j1]
                == t.coroutines[id2].children[j2] implies id1 == id2 && j1 == j2 by {
            assert(s.coroutines[id1].children[j1] == s.coroutines[id2].children[j2]);
        }
    }
    assert(t.phase_wf());
    assert(t.attended_wf()) by {
        assert forall|k: u64| #[trigger] t.coroutines.contains_key(k) implies t.attends(k)
            || t.in_order(k) by {
            if k != new {
                assert(s.coroutines.contains_key(k));
            }
        }
    }
    if phase != s.phase {
        lemma_idle(s);
    }
    assert(t.coroutines.dom() =~= s.coroutines.dom().insert(new));
}

/// The start of a server keeps the invariant.
pub proof fn started_keeps_wf(s: ServerView)
    requires
        s.wf(),
        s.phase is Idle,
        s.next_id < u64::MAX,
    ensures
        s.started().server.wf(),
        s.started().server.runs(s.next_id),
{
    lemma_with_spawned(s, Phase::Resumed { coroutine: s.next_id });
}

/// To spawn a coroutine keeps the invariant.
pub proof fn spawned_by_keeps_wf(s: ServerView, id: u64)
    requires
        s.wf(),
        s.runs(id),
        s.next_id < u64::MAX,
    ensures
        s.spawned_by(id).wf(),
        s.spawned_by(id).runs(id),
{
    let u = s.with_spawned();
    let t = s.spawned_by(id);
    let new = s.next_id;
    let c = s.coroutines[id];
    let d = t.coroutines[id];
    lemma_with_spawned(s, s.phase);
    lemma_started(s, id);
    assert(!s.coroutines.contains_key(new));
    assert(u.coroutines[id] == c);
    assert(d.children == c.children.push(new));
    assert forall|k: u64| #[trigger] t.coroutines.contains_key(k) == u.coroutines.contains_key(
        k,
    ) by {}
    assert(t.slots_wf()) by {
        assert forall|x: usize|
            #![trigger t.taken.contains_key(x)]
            #![trigger t.free.contains(x)]
            {
                &&& x < CAPACITY <==> t.taken.contains_key(x) || t.free.contains(x)
                &&& !(t.taken.contains_key(x) && t.free.contains(x))
            } by {
            assert(s.taken.contains_key(x) || !s.taken.contains_key(x));
        }
    }
    assert(t.taken_wf()) by {
        assert(forall|x: usize| t.taken.contains_key(x) == #[trigger] u.taken.contains_key(x));
    }
    assert(t.sources_wf()) by {
        assert forall|k: u64, i: int|
            #![trigger t.coroutines[k].io[i]]
            t.coroutines.contains_key(k) && 0 <= i < t.coroutines[k].io.len() implies {
            let token = t.coroutines[k].io[i].token;
            &&& t.taken.contains_key(token.0)
            &&& t.taken[token.0].coroutine == k
            &&& t.taken[token.0].index == i
        } by {
            assert(u.coroutines[k].io[i] == t.coroutines[k].io[i]);
        }
    }
    assert(t.coroutines_wf()) by {
        assert(c.wf());
        assert(d.wf()) by {
            assert forall|i: int| 0 <= i < d.io.len() implies {
                &&& (#[trigger] d.io[i]).index == i
                &&& d.io[i].wf()
                } by {
                assert(c.io[i].wf());
            }
        }
        assert forall|k: u64| #[trigger] t.coroutines.contains_key(k) implies {
            &&& t.coroutines[k].wf()
            &&& k < t.next_id
        } by {
            assert(u.coroutines.contains_key(k));
        }
    }
    assert forall|k: u64, j: int|
        #![trigger t.coroutines[k].children[j]]
        t.coroutines.contains_key(k) && 0 <= j < t.coroutines[k].children.len() implies {
        ||| k == id && j == c.children.len() && t.coroutines[k].children[j] == new
        ||| {
            &&& s.coroutines.contains_key(k)
            &&& 0 <= j < s.coroutines[k].children.len()
            &&& t.coroutines[k].children[j] == s.coroutines[k].children[j]
            &&& t.coroutines[k].children[j] != new
        }
    } by {
        if !(k == id && j == c.children.len()) {
            assert(k != new);
            assert(t.coroutines[k].children[j] == s.coroutines[k].children[j]);
            assert(s.coroutines.contains_key(s.coroutines[k].children[j]));
        }
    }
    assert(t.children_wf()) by {
        assert forall|k: u64, j: int|
            #![trigger t.coroutines[k].children[j]]
            t.coroutines.contains_key(k) && 0 <= j < t.coroutines[k].children.len() implies {
            let child = t.coroutines[k].children[j];
            &&& t.coroutines.contains_key(child)
            &&& t.coroutines[child] == CoroutineView::spawned()
            &&& t.active() != Some(child)
        } by {
            if !(k == id && j == c.children.len()) {
                assert(s.coroutines[k].children[j] != id);
            }
        }
    }
    assert(t.children_distinct()) by {
        assert forall|id1: u64, j1: int, id2: u64, j2: int|
            #![trigger t.coroutines[id1].children[j1], t.coroutines[id2].children[j2]]
            t.coroutines.contains_key(id1) && t.coroutines.contains_key(id2) && 0 <= j1
                < t.coroutines[id1].children.len() && 0 <= j2 < t.coroutines[id2].children.len()
                && t.coroutines[id1].children[j1]
                == t.coroutines[id2].children[j2] implies id1 == id2 && j1 == j2 by {
            if t.coroutines[id1].children[j1] != new {
                assert(s.coroutines[id1].children[j1] == s.coroutines[id2].children[j2]);
            }
        }
    }
    assert(t.phase_wf()) by {
        assert forall|k: u64| #[trigger]
            t.coroutines.contains_key(k) && t.active() != Some(k)
                && t.coroutines[k].state is Running implies t.coroutines[k]
            == CoroutineView::spawned() by {
            assert(u.coroutines.contains_key(k));
        }
    }
    assert(t.attended_wf()) by {
        assert forall|k: u64| #[trigger] t.coroutines.contains_key(k) implies t.attends(k)
            || t.in_order(k) by {
            assert(u.coroutines.contains_key(k));
        }
    }
    assert(t.unstarted_wf()) by {
        assert forall|k: u64| #[trigger]
            t.coroutines.contains_key(k) && t.active() != Some(k)
                && t.coroutines[k].state is Running implies t.is_listed(k) by {
            if k == new {
                assert(t.coroutines[id].children[c.children.len() as int] == new);
            } else {
                assert(s.coroutines.contains_key(k));
                assert(s.is_listed(k));
                let (p, j) = choose|p: u64, j: int|
                    #![trigger s.coroutines[p].children[j]]
                    s.coroutines.contains_key(p) && 0 <= j < s.coroutines[p].children.len()
                        && s.coroutines[p].children[j] == k;
                assert(p != new);
                assert(t.coroutines[p].children[j] == k);
            }
        }
    }
    assert(t.coroutines.dom() =~= u.coroutines.dom());
}

/// A coroutine has fewer sources than there are tokens, as long as a token is free.
pub(crate) proof fn lemma_room(s: ServerView, id: u64)
    requires
        s.wf(),
        s.coroutines.contains_key(id),
        s.free.len() > 0,
    ensures
        s.coroutines[id].io.len() < CAPACITY,
{
    let tokens = s.coroutines[id].tokens();
    lemma_tokens(s, id);
    let all = tokens.push(s.free[0]);
    assert(s.free.contains(s.free[0]));
    assert(all.no_duplicates()) by {
        assert forall|i: int, j: int| 0 <= i < all.len() && 0 <= j < all.len() && i
            != j implies all[i] != all[j] by {
            if i < tokens.len() {
                assert(s.taken.contains_key(tokens[i]));
            }
            if j < tokens.len() {
                assert(s.taken.contains_key(tokens[j]));
            }
        }
    }
    let ints = all.map_values(|x: usize| x as int);
    assert(ints.no_duplicates());
    ints.unique_seq_to_set();
    vstd::set_lib::lemma_int_range(0, CAPACITY as int);
    assert(ints.to_set().subset_of(vstd::set_lib::set_int_range(0, CAPACITY as int))) by {
        assert forall|x: int| ints.to_set().contains(
            x,
        ) implies vstd::set_lib::set_int_range(0, CAPACITY as int).contains(x) by {
            let i = choose|i: int| 0 <= i < ints.len() && ints[i] == x;
            assert(x == all[i] as int);
            if i < tokens.len() {
                assert(s.taken.contains_key(tokens[i]));
            }
        }
    }
    vstd::set_lib::lemma_len_subset(
        ints.to_set(),
        vstd::set_lib::set_int_range(0, CAPACITY as int),
    );
}

/// To wrap an event source keeps the invariant.
pub proof fn wrapped_by_keeps_wf(s: ServerView, id: u64, io: Io)
    requires
        s.wf(),
        s.runs(id),
        s.free.len() > 0,
        io.wf(),
    ensures
        s.wrapped_by(id, io).wf(),
        s.wrapped_by(id, io).runs(id),
{
    let t = s.wrapped_by(id, io);
    let c = s.coroutines[id];
    let d = t.coroutines[id];
    let new = s.free[0];
    let n = c.io.len();
    lemma_started(s, id);
    lemma_room(s, id);
    lemma_mask_len(n);
    lemma_mask_len(n + 1);
    assert(s.free.contains(new));
    assert(d.wf()) by {
        assert forall|i: int| 0 <= i < d.io.len() implies {
            &&& (#[trigger] d.io[i]).index == i
            &&& d.io[i].wf()
        } by {
            if i < n {
                assert(c.io[i].wf());
                assert(d.io[i] == c.io[i]);
            }
        }
    }
    assert(t.slots_wf()) by {
        assert forall|x: usize| t.free.contains(x) <==> s.free.contains(x) && x != new by {
            if t.free.contains(x) {
                let i = choose|i: int| 0 <= i < t.free.len() && t.free[i] == x;
                assert(s.free[i + 1] == x);
            }
            if s.free.contains(x) && x != new {
                let i = choose|i: int| 0 <= i < s.free.len() && s.free[i] == x;
                assert(t.free[i - 1] == x);
            }
        }
        assert forall|x: usize|
            #![trigger t.taken.contains_key(x)]
            #![trigger t.free.contains(x)]
            {
                &&& x < CAPACITY <==> t.taken.contains_key(x) || t.free.contains(x)
                &&& !(t.taken.contains_key(x) && t.free.contains(x))
            } by {
            assert(s.taken.contains_key(x) || !s.taken.contains_key(x));
        }
    }
    assert(t.taken_wf()) by {
        assert forall|x: usize| #[trigger] t.taken.contains_key(x) implies {
            let source = t.taken[x];
            &&& t.coroutines.contains_key(source.coroutine)
            &&& source.index < t.coroutines[source.coroutine].io.len()
            &&& t.coroutines[source.coroutine].io[source.index as int].token.0 == x
        } by {
            if x != new {
                assert(s.taken.contains_key(x));
            }
        }
    }
    assert(t.sources_wf()) by {
        assert forall|k: u64, i: int|
            #![trigger t.coroutines[k].io[i]]
            t.coroutines.contains_key(k) && 0 <= i < t.coroutines[k].io.len() implies {
            let token = t.coroutines[k].io[i].token;
            &&& t.taken.contains_key(token.0)
            &&& t.taken[token.0].coroutine == k
            &&& t.taken[token.0].index == i
        } by {
            if !(k == id && i == n) {
                assert(t.coroutines[k].io[i] == s.coroutines[k].io[i]);
                assert(s.taken.contains_key(s.coroutines[k].io[i].token.0));
            }
        }
    }
    assert(t.coroutines_wf()) by {
        assert forall|k: u64| #[trigger] t.coroutines.contains_key(k) implies {
            &&& t.coroutines[k].wf()
            &&& k < t.next_id
        } by {
            assert(s.coroutines.contains_key(k));
        }
    }
    assert(t.children_wf()) by {
        assert forall|k: u64, j: int|
            #![trigger t.coroutines[k].children[j]]
            t.coroutines.contains_key(k) && 0 <= j < t.coroutines[k].children.len() implies {
            let child = t.coroutines[k].children[j];
            &&& t.coroutines.contains_key(child)
            &&& t.coroutines[child] == CoroutineView::spawned()
            &&& t.active() != Some(child)
        } by {
            assert(s.coroutines[k].children[j] == t.coroutines[k].children[j]);
            assert(s.coroutines[k].children[j] != id);
        }
    }
    assert(t.children_distinct()) by {
        assert forall|id1: u64, j1: int, id2: u64, j2: int|
            #![trigger t.coroutines[id1].children[j1], t.coroutines[id2].children[j2]]
            t.coroutines.contains_key(id1) && t.coroutines.contains_key(id2) && 0 <= j1
                < t.coroutines[id1].children.len() && 0 <= j2 < t.coroutines[id2].children.len()
                && t.coroutines[id1].children[j1]
                == t.coroutines[id2].children[j2] implies id1 == id2 && j1 == j2 by {
            assert(s.coroutines[id1].children[j1] == s.coroutines[id2].children[j2]);
        }
    }
    assert(t.phase_wf()) by {
        assert forall|k: u64| #[trigger]
            t.coroutines.contains_key(k) && t.active() != Some(k)
                && t.coroutines[k].state is Running implies t.coroutines[k]
            == CoroutineView::spawned() by {
            assert(s.coroutines.contains_key(k));
        }
    }
    lemma_kept_lists(s, id, d);
    lemma_same_lists(s, t);
    assert(t.coroutines.dom() =~= s.coroutines.dom());
}

/// To wait for events keeps the invariant.
pub proof fn blocked_by_keeps_wf(s: ServerView, id: u64, rw: RW, positions: Seq<nat>)
    requires
        s.wf(),
        s.runs(id),
    ensures
        s.blocked_by(id, rw, positions).wf(),
{
    let c = s.coroutines[id];
    let d = s.blocked_by(id, rw, positions).coroutines[id];
    lemma_started(s, id);
    assert(d.wf()) by {
        assert forall|i: int| 0 <= i < d.io.len() implies {
            &&& (#[trigger] d.io[i]).index == i
            &&& d.io[i].wf()
        } by {
            assert(c.io[i].wf());
        }
    }
    assert(d.tokens() =~= c.tokens());
    lemma_kept_lists(s, id, d);
    lemma_replaced(s, id, d, s.phase);
    assert(s.blocked_by(id, rw, positions) == (ServerView {
        phase: s.phase,
        ..s.with_coroutine(id, d)
    }));
}

/// To return keeps the invariant.
pub proof fn finished_by_keeps_wf(s: ServerView, id: u64)
    requires
        s.wf(),
        s.runs(id),
    ensures
        s.finished_by(id).wf(),
{
    let c = s.coroutines[id];
    lemma_started(s, id);
    lemma_coroutine_changes(c);
    lemma_kept_lists(s, id, c.finished());
    lemma_replaced(s, id, c.finished(), s.phase);
    assert(s.finished_by(id) == (ServerView {
        phase: s.phase,
        ..s.with_coroutine(id, c.finished())
    }));
}

/// To reset a timer keeps the invariant.
pub proof fn reset_keeps_wf(s: ServerView, token: Token)
    requires
        s.wf(),
        s.is_timer(token),
    ensures
        s.with_timer(token, s.timer(token).spec_reset()).wf(),
{
    let source = s.taken[token.0];
    assert(s.coroutines[source.coroutine].io[source.index as int].wf());
    lemma_with_timer(s, token, s.timer(token).spec_reset());
}

/// A token is free unless all of them are taken.
pub(crate) proof fn lemma_free_tokens(s: ServerView)
    requires
        s.wf(),
    ensures
        s.taken.dom().finite(),
        s.taken.len() + s.free.len() == CAPACITY,
{
    let free = s.free.to_set();
    let all = Set::<usize>::new(|x: usize| x < CAPACITY);
    s.free.unique_seq_to_set();
    assert(s.taken.dom() + free =~= all) by {
        assert forall|x: usize| (s.taken.dom() + free).contains(x) == all.contains(x) by {
            assert(free.contains(x) == s.free.contains(x));
            assert(s.taken.contains_key(x) || !s.taken.contains_key(x));
        }
    }
    assert(s.taken.dom().disjoint(free)) by {
        assert forall|x: usize| s.taken.dom().contains(x) implies !free.contains(x) by {
            assert(s.taken.contains_key(x));
            assert(free.contains(x) == s.free.contains(x));
        }
    }
    let ints = vstd::set_lib::set_int_range(0, CAPACITY as int);
    vstd::set_lib::lemma_int_range(0, CAPACITY as int);
    let f = |x: int| x as usize;
    assert(ints.map(f) =~= all) by {
        assert forall|x: usize| ints.map(f).contains(x) == all.contains(x) by {
            if all.contains(x) {
                assert(ints.contains(x as int) && f(x as int) == x);
            }
        }
    }
    ints.lemma_map_finite(f);
    vstd::set_lib::lemma_map_size(ints, all, f);
    vstd::set_lib::lemma_set_subset_finite(all, s.taken.dom());
    vstd::set_lib::lemma_set_disjoint_lens(s.taken.dom(), free);
}

} // verus!
