//! Coroutines: what each of them waits for, and what follows from an event.
use crate::event::{EventSet, EventSourceIndex, EventView, LastEvent, Token, RW};
use crate::mask;
use crate::slab::{free, taken, Sources};
use crate::source::{self, Action, EventSourceShared, Io};
use bit_vec::BitVec;
use std::collections::VecDeque;
use vstd::prelude::*;

verus! {

/// State of `mioco` coroutine
#[derive(Copy, Clone, Debug, PartialEq, Eq, Structural)]
pub enum State {
    /// It waits for an event on one of its sources.
    BlockedOn(RW),
    /// It runs, or has yet to be started.
    Running,
    /// It has returned or failed.
    Finished,
}

/// The number of bits in a mask over `n` sources: each source that is added
/// makes the mask grow by as many bits as there are sources then.
pub open spec fn mask_len(n: nat) -> nat
    decreases n,
{
    if n == 0 {
        0
    } else {
        mask_len((n - 1) as nat) + n
    }
}

/// A mask has a bit for each source, and stays small.
pub(crate) proof fn lemma_mask_len(n: nat)
    ensures
        n <= mask_len(n),
        n <= 1024 ==> mask_len(n) <= 1024 * n,
    decreases n,
{
    if n > 0 {
        lemma_mask_len((n - 1) as nat);
    }
}

/// What a coroutine is, mathematically.
#[verifier::ext_equal]
pub struct CoroutineView {
    /// Current state
    pub state: State,
    /// Last event that resumed the coroutine
    pub last_event: EventView,
    /// Tick of the last event on one of its sources
    pub last_tick: u32,
    /// All sources, in the order in which they were wrapped
    pub io: Seq<EventSourceShared>,
    /// The sources that the coroutine is blocked on
    pub blocked_on: Seq<bool>,
    /// The sources that the event loop watches for the coroutine
    pub registered: Seq<bool>,
    /// Newly spawned coroutines that have yet to be started
    pub children: Seq<u64>,
}

/// What kind of event a coroutine is told about. A hang-up of the peer is told
/// as a read.
pub open spec fn event_kind(events: EventSet) -> RW {
    if events.wakes_reader() && events.writable {
        RW::Both
    } else if events.wakes_reader() {
        RW::Read
    } else {
        RW::Write
    }
}

impl CoroutineView {
    /// A coroutine that has just been spawned.
    pub open spec fn spawned() -> CoroutineView {
        CoroutineView {
            state: State::Running,
            last_event: EventView { index: 0, rw: RW::Read },
            last_tick: u32::MAX,
            io: Seq::empty(),
            blocked_on: Seq::empty(),
            registered: Seq::empty(),
            children: Seq::empty(),
        }
    }

    /// What holds of a coroutine at any time.
    pub open spec fn wf(self) -> bool {
        &&& self.io.len() <= 1024
        &&& self.blocked_on.len() == mask_len(self.io.len())
        &&& self.registered.len() == mask_len(self.io.len())
        &&& forall|i: int|
            0 <= i < self.io.len() ==> {
                &&& (#[trigger] self.io[i]).index == i
                &&& self.io[i].wf()
            }
        &&& self.state is Finished ==> self.blocked_on == mask::no_bits(self.blocked_on.len())
    }

    /// What holds, too, of a coroutine that has only ever waited for sources of
    /// its own: the masks hold no other sources, and those that the event loop
    /// watches have been registered with it.
    pub open spec fn tidy(self) -> bool {
        &&& forall|i: int|
            0 <= i < self.io.len() ==> {
                &&& (#[trigger] self.io[i]).tidy()
                &&& self.registered[i] ==> self.io[i].registered
            }
        &&& forall|i: int|
            self.io.len() <= i < self.blocked_on.len() ==> !#[trigger] self.blocked_on[i]
        &&& forall|i: int|
            self.io.len() <= i < self.registered.len() ==> !#[trigger] self.registered[i]
    }

    /// The tokens of all sources, in order.
    pub open spec fn tokens(self) -> Seq<usize> {
        Seq::new(self.io.len(), |i: int| self.io[i].token.0)
    }

    /// Whether an event on the source at `index` ends what the coroutine waits for.
    pub open spec fn woken_by(self, index: int, events: EventSet, tick: u32) -> bool {
        &&& self.last_tick != tick
        &&& self.blocked_on[index]
        &&& self.state matches State::BlockedOn(rw) && events.wakes(rw)
    }

    /// The coroutine after an event that it was not waiting for.
    pub open spec fn undisturbed(self, index: int, events: EventSet, tick: u32) -> CoroutineView {
        CoroutineView {
            last_tick: tick,
            io: if events.hup {
                self.io.update(index, EventSourceShared { peer_hup: true, ..self.io[index] })
            } else {
                self.io
            },
            ..self
        }
    }

    /// The coroutine after an event on the source at `index`.
    pub open spec fn told(self, index: int, events: EventSet, tick: u32) -> CoroutineView {
        if self.woken_by(index, events, tick) {
            CoroutineView {
                state: State::Running,
                last_event: EventView { index: index as nat, rw: event_kind(events) },
                registered: self.registered.update(index, false),
                ..self.undisturbed(index, events, tick)
            }
        } else {
            self.undisturbed(index, events, tick)
        }
    }

    /// The coroutine after it returned or failed.
    pub open spec fn finished(self) -> CoroutineView {
        CoroutineView {
            state: State::Finished,
            blocked_on: mask::no_bits(self.blocked_on.len()),
            ..self
        }
    }

    /// The coroutine while it waits for `rw` on the sources that the mask holds.
    pub open spec fn blocked(self, rw: RW, blocked_on: Seq<bool>) -> CoroutineView {
        CoroutineView { state: State::BlockedOn(rw), blocked_on, ..self }
    }

    /// The coroutine with one more source.
    pub open spec fn with_source(self, token: Token, io: Io) -> CoroutineView {
        let n = self.io.len() + 1;
        CoroutineView {
            io: self.io.push(EventSourceShared::fresh(token, self.io.len() as usize, io)),
            blocked_on: self.blocked_on + mask::no_bits(n),
            registered: self.registered + mask::no_bits(n),
            ..self
        }
    }

    /// The source at `i` once the event loop watches what the coroutine is
    /// blocked on.
    pub open spec fn settled_source(self, i: int) -> EventSourceShared {
        if !self.registered[i] && self.blocked_on[i] {
            self.io[i].watched()
        } else if self.registered[i] && !self.blocked_on[i] {
            self.io[i].unwatched()
        } else {
            self.io[i]
        }
    }

    /// What is asked of the event loop so that it watches the source at `i`
    /// exactly if the coroutine is blocked on it.
    pub open spec fn settle_source_actions(self, i: int, rw: RW) -> Seq<Action> {
        if !self.registered[i] && self.blocked_on[i] {
            self.io[i].watch_actions(rw)
        } else if self.registered[i] && !self.blocked_on[i] {
            self.io[i].unwatch_actions()
        } else {
            Seq::empty()
        }
    }

    /// What is asked of the event loop for the first `n` sources.
    pub open spec fn settle_actions_upto(self, rw: RW, n: nat) -> Seq<Action>
        decreases n,
    {
        if n == 0 {
            Seq::empty()
        } else {
            self.settle_actions_upto(rw, (n - 1) as nat) + self.settle_source_actions(n - 1, rw)
        }
    }

    /// What is asked of the event loop for all sources.
    pub open spec fn settle_actions(self, rw: RW) -> Seq<Action> {
        self.settle_actions_upto(rw, self.io.len())
    }

    /// The coroutine once the event loop watches what it is blocked on.
    pub open spec fn settled(self) -> CoroutineView {
        CoroutineView {
            io: Seq::new(self.io.len(), |i: int| self.settled_source(i)),
            registered: self.blocked_on,
            ..self
        }
    }

    /// What is asked when the first `n` sources are dropped.
    pub open spec fn drop_actions_upto(self, n: nat) -> Seq<Action>
        decreases n,
    {
        if n == 0 {
            Seq::empty()
        } else {
            self.drop_actions_upto((n - 1) as nat) + self.io[n - 1].drop_actions().push(
                Action::Remove { token: self.io[n - 1].token },
            )
        }
    }

    /// What is asked when all sources are dropped.
    pub open spec fn drop_actions(self) -> Seq<Action> {
        self.drop_actions_upto(self.io.len())
    }
}

/// `mioco` coroutine
pub struct Coroutine {
    state: State,
    last_event: LastEvent,
    last_tick: u32,
    io: Vec<EventSourceShared>,
    blocked_on: BitVec<usize>,
    registered: BitVec<usize>,
    children_to_start: VecDeque<u64>,
}

impl View for Coroutine {
    type V = CoroutineView;

    closed spec fn view(&self) -> CoroutineView {
        CoroutineView {
            state: self.state,
            last_event: self.last_event@,
            last_tick: self.last_tick,
            io: self.io@,
            blocked_on: mask::bits(self.blocked_on),
            registered: mask::bits(self.registered),
            children: self.children_to_start@,
        }
    }
}

impl Coroutine {
    /// A coroutine that has yet to be started.
    pub(crate) fn new() -> (r: Coroutine)
        ensures
            r@ == CoroutineView::spawned(),
    {
        Coroutine {
            state: State::Running,
            last_event: LastEvent::new(0, RW::Read),
            last_tick: u32::MAX,
            io: Vec::with_capacity(4),
            blocked_on: mask::empty(),
            registered: mask::empty(),
            children_to_start: VecDeque::new(),
        }
    }

    /// Takes note of an event on the source at `index`, and tells whether the
    /// coroutine is to be resumed for it.
    pub(crate) fn tell(&mut self, index: usize, events: EventSet, tick: u32) -> (woken: bool)
        requires
            old(self)@.wf(),
            index < old(self)@.io.len(),
        ensures
            woken == old(self)@.woken_by(index as int, events, tick),
            final(self)@ == old(self)@.told(index as int, events, tick),
            final(self)@.wf(),
    {
        proof {
            lemma_mask_len(self.io@.len());
        }
        if events.is_hup() {
            let mut source = self.io[index];
            source.hup();
            self.io.set(index, source);
        }
        let prev_last_tick = self.last_tick;
        self.last_tick = tick;
        let woken = if prev_last_tick == tick {
            false
        } else if !mask::get(&self.blocked_on, index).unwrap() {
            // A spurious event: of several sources that were reported ready in
            // one group of events, an earlier one resumed the coroutine.
            false
        } else {
            match self.state {
                State::BlockedOn(rw) => match rw {
                    RW::Read => events.is_readable() || events.is_hup(),
                    RW::Write => events.is_writable(),
                    RW::Both => events.is_readable() || events.is_hup() || events.is_writable(),
                },
                _ => false,
            }
        };
        if woken {
            mask::set(&mut self.registered, index, false);
            // Wake coroutine on HUP, as it was read, to potentially let it fail
            // the read and move on
            let rw = match (events.is_readable() || events.is_hup(), events.is_writable()) {
                (true, true) => RW::Both,
                (true, false) => RW::Read,
                (false, _) => RW::Write,
            };
            self.state = State::Running;
            self.last_event = LastEvent::new(index, rw);
        }
        assert(self@ =~= old(self)@.told(index as int, events, tick));
        woken
    }

    /// Takes note that the coroutine returned or failed.
    pub(crate) fn finish(&mut self)
        requires
            old(self)@.wf(),
        ensures
            final(self)@ == old(self)@.finished(),
            final(self)@.wf(),
    {
        self.state = State::Finished;
        mask::clear(&mut self.blocked_on);
    }

    /// Asks the event loop to watch exactly the sources that the coroutine is
    /// blocked on.
    pub(crate) fn reregister_blocked_on(&mut self, rw: RW, actions: &mut Vec<Action>)
        requires
            old(self)@.wf(),
            old(self)@.state == State::BlockedOn(rw),
        ensures
            final(self)@ == old(self)@.settled(),
            final(self)@.wf(),
            final(actions)@ == old(actions)@ + old(self)@.settle_actions(rw),
    {
        let ghost before = self@;
        proof {
            lemma_mask_len(self.io@.len());
        }
        let len: usize = self.io.len();
        for i in 0..len
            invariant
                len == self.io@.len(),
                before.wf(),
                before == old(self)@,
                before.io.len() <= mask_len(before.io.len()),
                self@ == (CoroutineView { io: self.io@, ..before }),
                self.io@.len() == before.io.len(),
                forall|j: int|
                    0 <= j < self.io@.len() ==> #[trigger] self.io@[j] == (if j < i {
                        before.settled_source(j)
                    } else {
                        before.io[j]
                    }),
                forall|j: int| 0 <= j < i ==> (#[trigger] self.io@[j]).wf(),
                actions@ == old(actions)@ + before.settle_actions_upto(rw, i as nat),
        {
            let mut source = self.io[i];
            let registered = mask::get(&self.registered, i).unwrap();
            let blocked_on = mask::get(&self.blocked_on, i).unwrap();
            let ghost unsettled = actions@;
            assert(before.io[i as int].wf());
            match (registered, blocked_on) {
                (false, false) | (true, true) => {},
                (false, true) => {
                    source.reregister(rw, actions);
                },
                (true, false) => {
                    source.unreregister(actions);
                },
            }
            self.io.set(i, source);
            proof {
                assert(actions@ =~= unsettled + before.settle_source_actions(i as int, rw));
                assert(actions@ =~= old(actions)@ + before.settle_actions_upto(rw, (i + 1) as nat));
            }
        }
        mask::copy(&mut self.registered, &self.blocked_on);
        proof {
            assert(self@ =~= before.settled());
            assert forall|i: int| 0 <= i < self@.io.len() implies {
                &&& (#[trigger] self@.io[i]).index == i
                &&& self@.io[i].wf()
            } by {
                assert(before.io[i].wf());
                assert(before.io[i].index == i);
            }
        }
    }

    /// Drops all sources: takes them out of the event loop and frees their tokens.
    pub(crate) fn deregister_all(&mut self, sources: &mut Sources, actions: &mut Vec<Action>)
        requires
            old(self)@.tokens().no_duplicates(),
            forall|i: int|
                0 <= i < old(self)@.io.len() ==> taken(*old(sources)).contains_key(
                    #[trigger] old(self)@.tokens()[i],
                ),
        ensures
            taken(*final(sources)) == taken(*old(sources)).remove_keys(old(self)@.tokens().to_set()),
            free(*final(sources)) == old(self)@.tokens().reverse() + free(*old(sources)),
            final(actions)@ == old(actions)@ + old(self)@.drop_actions(),
            final(self)@.children == old(self)@.children,
    {
        let ghost before = self@;
        let ghost tokens = before.tokens();
        assert(taken(*sources) =~= taken(*old(sources)).remove_keys(tokens.take(0).to_set()));
        assert(free(*sources) =~= tokens.take(0).reverse() + free(*old(sources)));
        let len: usize = self.io.len();
        for i in 0..len
            invariant
                len == self.io@.len(),
                before == old(self)@,
                tokens == before.tokens(),
                tokens.no_duplicates(),
                self.io@.len() == before.io.len(),
                self@.children == before.children,
                forall|j: int| i <= j < self.io@.len() ==> #[trigger] self.io@[j] == before.io[j],
                forall|j: int|
                    0 <= j < before.io.len() ==> taken(*old(sources)).contains_key(
                        #[trigger] tokens[j],
                    ),
                taken(*sources) == taken(*old(sources)).remove_keys(tokens.take(i as int).to_set()),
                free(*sources) == tokens.take(i as int).reverse() + free(*old(sources)),
                actions@ == old(actions)@ + before.drop_actions_upto(i as nat),
        {
            let mut source = self.io[i];
            let token = source.token;
            let ghost held = actions@;
            source.deregister(actions);
            self.io.set(i, source);
            proof {
                assert(token.0 == tokens[i as int]);
                assert(!tokens.take(i as int).to_set().contains(token.0));
            }
            let _removed = sources.remove(token);
            actions.push(Action::Remove { token });
            proof {
                let next = tokens.take(i + 1);
                assert(next =~= tokens.take(i as int).push(token.0));
                assert(next.to_set() =~= tokens.take(i as int).to_set().insert(token.0)) by {
                    assert forall|t: usize| next.to_set().contains(t) == tokens.take(
                        i as int,
                    ).to_set().insert(token.0).contains(t) by {
                        if tokens.take(i as int).contains(t) {
                            let k = tokens.take(i as int).index_of(t);
                            assert(next[k] == t);
                        }
                        assert(next[i as int] == token.0);
                    }
                }
                assert(taken(*sources) =~= taken(*old(sources)).remove_keys(next.to_set()));
                assert(free(*sources) =~= next.reverse() + free(*old(sources)));
                assert(actions@ =~= held + before.io[i as int].drop_actions().push(
                    Action::Remove { token: before.io[i as int].token },
                ));
                assert(actions@ =~= old(actions)@ + before.drop_actions_upto((i + 1) as nat));
            }
        }
        assert(tokens.take(tokens.len() as int) =~= tokens);
    }

    /// Current state
    pub(crate) fn state(&self) -> (r: State)
        ensures
            r == self@.state,
    {
        self.state
    }

    /// Last event that resumed the coroutine
    pub(crate) fn last_event(&self) -> (r: LastEvent)
        ensures
            r@ == self@.last_event,
    {
        self.last_event
    }

    /// Number of sources
    pub(crate) fn sources_no(&self) -> (r: usize)
        ensures
            r == self@.io.len(),
    {
        self.io.len()
    }

    /// The source at `index`
    pub(crate) fn source(&self, index: usize) -> (r: EventSourceShared)
        requires
            index < self@.io.len(),
        ensures
            r == self@.io[index as int],
    {
        self.io[index]
    }

    /// Changes what the source at `index` is made of.
    pub(crate) fn set_io(&mut self, index: usize, io: Io)
        requires
            index < old(self)@.io.len(),
        ensures
            final(self)@ == (CoroutineView {
                io: old(self)@.io.update(
                    index as int,
                    EventSourceShared { io, ..old(self)@.io[index as int] },
                ),
                ..old(self)@
            }),
    {
        let mut source = self.io[index];
        source.io = io;
        self.io.set(index, source);
    }

    /// Whether the masks have a bit at `index`.
    pub(crate) fn covers(&self, index: usize) -> (r: bool)
        ensures
            r == (index < self@.blocked_on.len()),
    {
        mask::get(&self.blocked_on, index).is_some()
    }

    /// Adds a newly spawned coroutine to those that have yet to be started.
    pub(crate) fn push_child(&mut self, child: u64)
        ensures
            final(self)@ == (CoroutineView {
                children: old(self)@.children.push(child),
                ..old(self)@
            }),
    {
        self.children_to_start.push_back(child);
    }

    /// Takes the first of those that have yet to be started.
    pub(crate) fn pop_child(&mut self) -> (child: Option<u64>)
        ensures
            old(self)@.children.len() == 0 ==> child is None && final(self)@ == old(self)@,
            old(self)@.children.len() > 0 ==> {
                &&& child == Some(old(self)@.children[0])
                &&& final(self)@ == (CoroutineView {
                    children: old(self)@.children.skip(1),
                    ..old(self)@
                })
            },
    {
        let child = self.children_to_start.pop_front();
        proof {
            if child is Some {
                assert(self@.children =~= old(self)@.children.skip(1));
            } else {
                assert(self@ =~= old(self)@);
            }
        }
        child
    }

    /// Takes over what another coroutine has spawned, to be started first.
    pub(crate) fn adopt(&mut self, other: &mut Coroutine)
        ensures
            final(self)@ == (CoroutineView {
                children: old(other)@.children + old(self)@.children,
                ..old(self)@
            }),
            final(other)@ == (CoroutineView { children: Seq::empty(), ..old(other)@ }),
    {
        let mut children = VecDeque::new();
        children.append(&mut other.children_to_start);
        children.append(&mut self.children_to_start);
        self.children_to_start = children;
        assert(self@.children =~= old(other)@.children + old(self)@.children);
    }

    /// Adds a source.
    pub(crate) fn push_source(&mut self, token: Token, io: Io)
        requires
            old(self)@.wf(),
            old(self)@.io.len() < 1024,
        ensures
            final(self)@ == old(self)@.with_source(token, io),
    {
        let index = self.io.len();
        let source = EventSourceShared { token, index, io, peer_hup: false, registered: false };
        self.io.push(source);
        let len = self.io.len();
        proof {
            lemma_mask_len(index as nat);
        }
        mask::grow(&mut self.blocked_on, len, false);
        mask::grow(&mut self.registered, len, false);
        assert(self@ =~= old(self)@.with_source(token, io));
    }

    /// Waits for `rw` on the source at `index`.
    pub(crate) fn block_on(&mut self, index: usize, rw: RW)
        requires
            old(self)@.wf(),
            index < old(self)@.io.len(),
        ensures
            final(self)@ == old(self)@.blocked(
                rw,
                mask::bits_at(old(self)@.blocked_on.len(), seq![index as nat]),
            ),
    {
        proof {
            lemma_mask_len(self.io@.len());
        }
        self.state = State::BlockedOn(rw);
        mask::clear(&mut self.blocked_on);
        mask::set(&mut self.blocked_on, index, true);
        proof {
            let named = seq![index as nat];
            assert(named[0] == index);
            assert(mask::bits(self.blocked_on) =~= mask::bits_at(
                old(self)@.blocked_on.len(),
                named,
            ));
        }
    }

    /// Waits for `rw` on any source.
    pub(crate) fn block_on_all(&mut self, rw: RW)
        requires
            old(self)@.wf(),
        ensures
            final(self)@ == old(self)@.blocked(
                rw,
                mask::bits_at(
                    old(self)@.blocked_on.len(),
                    Seq::new(old(self)@.io.len(), |i: int| i as nat),
                ),
            ),
    {
        proof {
            lemma_mask_len(self.io@.len());
            assert forall|k: int| 0 <= k < self.io@.len() implies (#[trigger] self.io@[k]).index
                < mask::bits(self.blocked_on).len() by {
                assert(self@.io[k].index == k);
            }
        }
        mask::select_impl_set_mask_rc_handles(&self.io, &mut self.blocked_on);
        self.state = State::BlockedOn(rw);
        proof {
            assert(mask::handle_positions(self.io@) =~= Seq::new(
                old(self)@.io.len(),
                |i: int| i as nat,
            )) by {
                assert forall|k: int| 0 <= k < self.io@.len() implies mask::handle_positions(
                    self.io@,
                )[k] == k as nat by {
                    assert(old(self)@.io[k].index == k);
                }
            }
        }
    }

    /// Waits for `rw` on the sources that `indices` name.
    pub(crate) fn block_on_from(&mut self, indices: &[EventSourceIndex], rw: RW)
        requires
            forall|k: int|
                0 <= k < indices@.len() ==> #[trigger] indices@[k]@ < old(self)@.blocked_on.len(),
        ensures
            final(self)@ == old(self)@.blocked(
                rw,
                mask::bits_at(old(self)@.blocked_on.len(), mask::positions(indices@)),
            ),
    {
        mask::select_impl_set_mask_from_indices(indices, &mut self.blocked_on);
        self.state = State::BlockedOn(rw);
    }
}

/// The masks of a coroutine have as many bits as there are pairs of sources, equal
/// ones among them: with `n` sources, half of `n` times `n + 1`.
pub proof fn masks_grow_with_the_sources(n: nat)
    ensures
        2 * mask_len(n) == n * (n + 1),
    decreases n,
{
    if n > 0 {
        let m = (n - 1) as nat;
        masks_grow_with_the_sources(m);
        assert(n * (n + 1) == m * (m + 1) + 2 * n) by (nonlinear_arith)
            requires
                n == m + 1,
        ;
    } else {
        assert(n * (n + 1) == 0) by (nonlinear_arith)
            requires
                n == 0,
        ;
    }
}

/// A coroutine that was just spawned counts as running. It has no sources and has
/// spawned nothing.
pub proof fn spawned_coroutine_is_bare()
    ensures
        ({
            let c = CoroutineView::spawned();
            &&& c.state == State::Running
            &&& c.io.len() == 0
            &&& c.children.len() == 0
            &&& c.blocked_on.len() == 0
            &&& c.registered.len() == 0
            &&& c.last_tick == u32::MAX
            &&& c.last_event.index == 0
            &&& c.last_event.rw == RW::Read
        }),
{
}

/// The tokens of a coroutine are those of its sources, in order.
pub proof fn tokens_are_those_of_the_sources(c: CoroutineView)
    ensures
        c.tokens().len() == c.io.len(),
        forall|i: int| 0 <= i < c.io.len() ==> #[trigger] c.tokens()[i] == c.io[i].token.0,
{
}

/// An event on a source resumes its coroutine if, and only if, the coroutine is
/// blocked on that source, the event is of a kind that it waits for, and it is the
/// first that the coroutine is told of in this tick.
pub proof fn event_resumes_who_waits_for_it(
    c: CoroutineView,
    index: int,
    events: EventSet,
    tick: u32,
)
    ensures
        c.woken_by(index, events, tick) <==> {
            &&& c.last_tick != tick
            &&& c.blocked_on[index]
            &&& {
                ||| c.state == State::BlockedOn(RW::Read) && (events.readable || events.hup)
                ||| c.state == State::BlockedOn(RW::Write) && events.writable
                ||| c.state == State::BlockedOn(RW::Both) && (events.readable || events.hup
                    || events.writable)
            }
        },
{
}

/// A coroutine that an event resumes is told the source of the event, and exactly
/// what was reported of it: a write if the source is writable, and a read if it is
/// readable or its peer hung up. The event loop no longer watches that source for it,
/// and watches all others as before.
pub proof fn resumed_coroutine_is_told_what_was_reported(
    c: CoroutineView,
    index: int,
    events: EventSet,
    tick: u32,
)
    requires
        c.wf(),
        0 <= index < c.io.len(),
        c.woken_by(index, events, tick),
    ensures
        ({
            let d = c.told(index, events, tick);
            &&& d.state == State::Running
            &&& d.last_event.index == index
            &&& d.last_event.rw != RW::Read <==> events.writable
            &&& d.last_event.rw != RW::Write <==> events.readable || events.hup
            &&& d.registered.len() == c.registered.len()
            &&& forall|i: int|
                0 <= i < c.registered.len() ==> (#[trigger] d.registered[i] <==> c.registered[i]
                    && i != index)
        }),
{
    lemma_mask_len(c.io.len());
}

/// A coroutine that an event does not resume goes on as before, and was last resumed
/// by the same event.
pub proof fn event_that_resumes_no_one_disturbs_no_one(
    c: CoroutineView,
    index: int,
    events: EventSet,
    tick: u32,
)
    requires
        !c.woken_by(index, events, tick),
    ensures
        ({
            let d = c.told(index, events, tick);
            &&& d.state == c.state
            &&& d.last_event == c.last_event
            &&& d.registered == c.registered
        }),
{
}

/// Whether an event resumes a coroutine or not, the coroutine takes note of its tick,
/// and of a hang-up of the source that it is on. It is blocked on the same sources
/// as before, and nothing else of any source changes.
pub proof fn event_is_taken_note_of(c: CoroutineView, index: int, events: EventSet, tick: u32)
    requires
        0 <= index < c.io.len(),
    ensures
        ({
            let d = c.told(index, events, tick);
            &&& d.last_tick == tick
            &&& d.blocked_on == c.blocked_on
            &&& d.children == c.children
            &&& d.io.len() == c.io.len()
            &&& forall|i: int|
                0 <= i < c.io.len() && !(i == index && events.hup) ==> #[trigger] d.io[i]
                    == c.io[i]
            &&& events.hup ==> {
                &&& d.io[index].peer_hup
                &&& d.io[index].token == c.io[index].token
                &&& d.io[index].index == c.io[index].index
                &&& d.io[index].io == c.io[index].io
                &&& d.io[index].registered == c.io[index].registered
            }
        }),
{
}

/// A coroutine that has finished waits for nothing. Nothing else of it changes.
pub proof fn finished_coroutine_waits_for_nothing(c: CoroutineView)
    ensures
        ({
            let d = c.finished();
            &&& d.state == State::Finished
            &&& d.blocked_on.len() == c.blocked_on.len()
            &&& forall|i: int| 0 <= i < d.blocked_on.len() ==> !#[trigger] d.blocked_on[i]
            &&& d.last_event == c.last_event
            &&& d.last_tick == c.last_tick
            &&& d.io == c.io
            &&& d.registered == c.registered
            &&& d.children == c.children
        }),
{
}

/// To wait changes only what is waited for.
pub proof fn wait_changes_only_what_is_waited_for(
    c: CoroutineView,
    rw: RW,
    blocked_on: Seq<bool>,
)
    ensures
        ({
            let d = c.blocked(rw, blocked_on);
            &&& d.state == State::BlockedOn(rw)
            &&& d.blocked_on == blocked_on
            &&& d.last_event == c.last_event
            &&& d.last_tick == c.last_tick
            &&& d.io == c.io
            &&& d.registered == c.registered
            &&& d.children == c.children
        }),
{
}

/// A source is added as the last one, under its token and with its position. It is
/// neither awaited nor watched unless its bit was set before, and it has not been
/// registered. Nothing else changes.
pub proof fn source_is_added_last(c: CoroutineView, token: Token, io: Io)
    requires
        c.io.len() < usize::MAX,
    ensures
        ({
            let d = c.with_source(token, io);
            let n = c.io.len();
            &&& d.io.len() == n + 1
            &&& d.io.drop_last() == c.io
            &&& d.io.last().token == token
            &&& d.io.last().index == n
            &&& d.io.last().io == io
            &&& !d.io.last().peer_hup
            &&& !d.io.last().registered
            &&& d.blocked_on.len() == c.blocked_on.len() + n + 1
            &&& d.registered.len() == c.registered.len() + n + 1
            &&& forall|i: int|
                0 <= i < d.blocked_on.len() ==> (#[trigger] d.blocked_on[i] <==> i
                    < c.blocked_on.len() && c.blocked_on[i])
            &&& forall|i: int|
                0 <= i < d.registered.len() ==> (#[trigger] d.registered[i] <==> i
                    < c.registered.len() && c.registered[i])
            &&& d.state == c.state
            &&& d.last_event == c.last_event
            &&& d.last_tick == c.last_tick
            &&& d.children == c.children
        }),
{
    assert(c.with_source(token, io).io.drop_last() =~= c.io);
}

/// Once a coroutine has been seen to, the event loop watches a source for it exactly
/// if it is blocked on it. Only sources for which that was not so change.
pub proof fn settling_watches_what_is_awaited(c: CoroutineView, i: int)
    requires
        0 <= i < c.io.len(),
    ensures
        ({
            let d = c.settled();
            &&& d.registered == c.blocked_on
            &&& d.blocked_on == c.blocked_on
            &&& d.state == c.state
            &&& d.last_event == c.last_event
            &&& d.last_tick == c.last_tick
            &&& d.children == c.children
            &&& d.io.len() == c.io.len()
            &&& c.registered[i] == c.blocked_on[i] ==> d.io[i] == c.io[i]
            &&& c.blocked_on[i] && !c.registered[i] ==> d.io[i] == c.io[i].watched()
            &&& c.registered[i] && !c.blocked_on[i] ==> d.io[i] == c.io[i].unwatched()
        }),
{
}

/// A coroutine like `c`, without its last source.
pub open spec fn without_last_source(c: CoroutineView) -> CoroutineView {
    CoroutineView { io: c.io.drop_last(), ..c }
}

/// What is asked for the first sources does not depend on the last one.
proof fn lemma_last_source_apart(c: CoroutineView, rw: RW, n: nat)
    requires
        n < c.io.len(),
    ensures
        c.settle_actions_upto(rw, n) == without_last_source(c).settle_actions_upto(rw, n),
        c.drop_actions_upto(n) == without_last_source(c).drop_actions_upto(n),
    decreases n,
{
    if n > 0 {
        lemma_last_source_apart(c, rw, (n - 1) as nat);
    }
}

/// What is asked when a coroutine is seen to is asked source by source. For the last
/// one, it is asked to be watched if it is awaited and not watched, to be silenced if
/// it is watched and not awaited, and nothing otherwise; before that comes what is
/// asked for the others, as if the last one were not there.
pub proof fn settling_asks_source_by_source(c: CoroutineView, rw: RW)
    ensures
        c.io.len() == 0 ==> c.settle_actions(rw).len() == 0,
        c.io.len() > 0 ==> {
            let n = c.io.len() - 1;
            let others = without_last_source(c).settle_actions(rw);
            &&& c.blocked_on[n] && !c.registered[n] ==> c.settle_actions(rw) == others
                + c.io[n].watch_actions(rw)
            &&& c.registered[n] && !c.blocked_on[n] ==> c.settle_actions(rw) == others
                + c.io[n].unwatch_actions()
            &&& c.registered[n] == c.blocked_on[n] ==> c.settle_actions(rw) == others
        },
{
    if c.io.len() > 0 {
        let n = (c.io.len() - 1) as nat;
        lemma_last_source_apart(c, rw, n);
        assert(without_last_source(c).settle_actions_upto(rw, n) + Seq::<Action>::empty()
            =~= without_last_source(c).settle_actions_upto(rw, n));
    }
}

/// What is asked when a coroutine gives up its sources is asked source by source: for
/// each what leaves nothing behind in the event loop, and then to remove it.
pub proof fn giving_up_asks_source_by_source(c: CoroutineView)
    ensures
        c.io.len() == 0 ==> c.drop_actions().len() == 0,
        c.io.len() > 0 ==> {
            let last = c.io.last();
            c.drop_actions() == without_last_source(c).drop_actions() + last.drop_actions()
                + seq![Action::Remove { token: last.token }]
        },
{
    if c.io.len() > 0 {
        let n = (c.io.len() - 1) as nat;
        let last = c.io.last();
        lemma_last_source_apart(c, RW::Both, n);
        assert(c.drop_actions() =~= without_last_source(c).drop_actions() + last.drop_actions()
            + seq![Action::Remove { token: last.token }]);
    }
}

/// When a coroutine gives up its sources, each of them is taken out of the event loop
/// and removed: one that was registered is deregistered, and for a timer the timeout
/// that the event loop accepted is taken back, whatever the status of the timer.
pub proof fn every_source_is_given_up(c: CoroutineView, i: int)
    requires
        0 <= i < c.io.len(),
    ensures
        c.drop_actions().contains(Action::Remove { token: c.io[i].token }),
        c.io[i].registered && c.io[i].io is Raw ==> c.drop_actions().contains(
            Action::Deregister { token: c.io[i].token },
        ),
        c.io[i].registered ==> {
            c.io[i].io matches Io::Timer(timer) ==> {
                timer.handle matches Some(timeout) ==> c.drop_actions().contains(
                    Action::ClearTimeout { timeout },
                )
            }
        },
    decreases c.io.len(),
{
    let others = without_last_source(c).drop_actions();
    let last = c.io.last();
    let all = c.drop_actions();
    giving_up_asks_source_by_source(c);
    if i == c.io.len() - 1 {
        source::source_that_is_given_up_leaves_nothing_behind(last);
        assert(all[all.len() - 1] == (Action::Remove { token: last.token }));
        if last.drop_actions().len() > 0 {
            assert(all[others.len() as int] == last.drop_actions()[0]);
        }
    } else {
        every_source_is_given_up(without_last_source(c), i);
        assert(without_last_source(c).io[i] == c.io[i]);
        assert forall|action: Action| others.contains(action) implies all.contains(action) by {
            let k = choose|k: int| 0 <= k < others.len() && others[k] == action;
            assert(all[k] == action);
        }
    }
}

/// Whether the request is to notify the timer with that token.
pub open spec fn starts_timer(action: Action, token: Token) -> bool {
    action matches Action::SetTimeout { token: named, .. } && named == token
}

/// The requests among these that are to notify the timer with that token.
pub open spec fn starts_of_timer(actions: Seq<Action>, token: Token) -> Seq<Action> {
    actions.filter(|action: Action| starts_timer(action, token))
}

/// What is asked for a source with another token starts no timer with this one.
proof fn lemma_other_source_starts_none(source: EventSourceShared, rw: RW, token: Token)
    requires
        source.token != token,
    ensures
        starts_of_timer(source.watch_actions(rw), token) == Seq::<Action>::empty(),
        starts_of_timer(source.unwatch_actions(), token) == Seq::<Action>::empty(),
{
    source::awaited_source_is_asked_for(source, rw);
    source::source_that_is_not_awaited_is_silenced(source);
    lemma_starts_none(source.watch_actions(rw), token);
    lemma_starts_none(source.unwatch_actions(), token);
}

/// Where the last source has another token, the others start the timer or not.
proof fn lemma_last_source_starts_none(c: CoroutineView, rw: RW, token: Token)
    requires
        c.io.len() > 0,
        c.io.last().token != token,
    ensures
        starts_of_timer(c.settle_actions(rw), token) == starts_of_timer(
            without_last_source(c).settle_actions(rw),
            token,
        ),
{
    let last = c.io.last();
    let asked = without_last_source(c).settle_actions(rw);
    let is_start = |action: Action| starts_timer(action, token);
    let before = asked.filter(is_start);
    settling_asks_source_by_source(c, rw);
    lemma_other_source_starts_none(last, rw, token);
    Seq::filter_distributes_over_add(asked, last.watch_actions(rw), is_start);
    Seq::filter_distributes_over_add(asked, last.unwatch_actions(), is_start);
    assert(before + Seq::<Action>::empty() =~= before);
}

/// What is asked for sources with other tokens starts no timer with this one.
proof fn lemma_others_start_no_timer(c: CoroutineView, rw: RW, token: Token)
    requires
        forall|i: int| 0 <= i < c.io.len() ==> (#[trigger] c.io[i]).token != token,
    ensures
        starts_of_timer(c.settle_actions(rw), token) == Seq::<Action>::empty(),
    decreases c.io.len(),
{
    if c.io.len() == 0 {
        settling_asks_source_by_source(c, rw);
        lemma_starts_none(c.settle_actions(rw), token);
    } else {
        let others = without_last_source(c);
        assert forall|i: int| 0 <= i < others.io.len() implies (#[trigger] others.io[i]).token
            != token by {
            assert(others.io[i] == c.io[i]);
        }
        lemma_others_start_no_timer(others, rw, token);
        assert(c.io[c.io.len() - 1].token != token);
        lemma_last_source_starts_none(c, rw, token);
    }
}

/// Requests of which none is to notify the timer.
proof fn lemma_starts_none(actions: Seq<Action>, token: Token)
    requires
        forall|k: int| 0 <= k < actions.len() ==> !starts_timer(#[trigger] actions[k], token),
    ensures
        starts_of_timer(actions, token) == Seq::<Action>::empty(),
    decreases actions.len(),
{
    reveal(Seq::filter);
    if actions.len() > 0 {
        assert forall|k: int| 0 <= k < actions.drop_last().len() implies !starts_timer(
            #[trigger] actions.drop_last()[k],
            token,
        ) by {
            assert(actions.drop_last()[k] == actions[k]);
        }
        lemma_starts_none(actions.drop_last(), token);
        assert(!starts_timer(actions[actions.len() - 1], token));
    }
}

/// Requests of which only the last one is to notify the timer.
proof fn lemma_starts_last(actions: Seq<Action>, token: Token)
    requires
        actions.len() > 0,
        starts_timer(actions.last(), token),
        forall|k: int|
            0 <= k < actions.len() - 1 ==> !starts_timer(#[trigger] actions[k], token),
    ensures
        starts_of_timer(actions, token) == seq![actions.last()],
{
    reveal(Seq::filter);
    assert forall|k: int| 0 <= k < actions.drop_last().len() implies !starts_timer(
        #[trigger] actions.drop_last()[k],
        token,
    ) by {
        assert(actions.drop_last()[k] == actions[k]);
    }
    lemma_starts_none(actions.drop_last(), token);
    assert(starts_of_timer(actions, token) =~= seq![actions.last()]);
}

/// A timer that is awaited and not watched is asked for once, if no other source has
/// its token.
proof fn lemma_starts_once(c: CoroutineView, rw: RW, i: int)
    requires
        0 <= i < c.io.len(),
        c.io[i].io is Timer,
        c.blocked_on[i],
        !c.registered[i],
        forall|j: int|
            0 <= j < c.io.len() && j != i ==> (#[trigger] c.io[j]).token != c.io[i].token,
    ensures
        starts_of_timer(c.settle_actions(rw), c.io[i].token) == seq![Action::SetTimeout {
            token: c.io[i].token,
            iteration: c.io[i].io->Timer_0.iteration,
            delay: c.io[i].io->Timer_0.delay,
        }],
    decreases c.io.len(),
{
    let n = c.io.len() - 1;
    let token = c.io[i].token;
    let others = without_last_source(c);
    assert forall|j: int| 0 <= j < others.io.len() implies #[trigger] others.io[j] == c.io[j] by {}
    if i == n {
        let asked = others.settle_actions(rw);
        let last = c.io[n].watch_actions(rw);
        let is_start = |action: Action| starts_timer(action, token);
        settling_asks_source_by_source(c, rw);
        source::awaited_source_is_asked_for(c.io[n], rw);
        lemma_others_start_no_timer(others, rw, token);
        lemma_starts_last(last, token);
        Seq::filter_distributes_over_add(asked, last, is_start);
        assert(Seq::<Action>::empty() + seq![last.last()] =~= seq![last.last()]);
    } else {
        lemma_starts_once(others, rw, i);
        assert(c.io[n].token != token);
        lemma_last_source_starts_none(c, rw, token);
    }
}

/// When a coroutine is seen to that waits for a timer which the event loop does not
/// watch yet, the event loop is asked for exactly one notification of that timer,
/// after its delay and for its current iteration, whatever kind of event is awaited.
pub proof fn awaited_timer_is_asked_for_once(c: CoroutineView, rw: RW, i: int)
    requires
        c.tokens().no_duplicates(),
        0 <= i < c.io.len(),
        c.io[i].io is Timer,
        c.blocked_on[i],
        !c.registered[i],
    ensures
        ({
            let timer = c.io[i].io->Timer_0;
            let token = c.io[i].token;
            starts_of_timer(c.settle_actions(rw), token) == seq![Action::SetTimeout {
                token,
                iteration: timer.iteration,
                delay: timer.delay,
            }]
        }),
{
    assert forall|j: int| 0 <= j < c.io.len() && j != i implies (#[trigger] c.io[j]).token
        != c.io[i].token by {
        assert(c.tokens()[j] == c.io[j].token.0);
        assert(c.tokens()[i] == c.io[i].token.0);
    }
    lemma_starts_once(c, rw, i);
}

} // verus!
