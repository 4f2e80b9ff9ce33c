//! The table of all event sources of a server, by token.
use crate::event::Token;
use mio::util::Slab;
use vstd::prelude::*;

verus! {

/// Where an event source is found: its coroutine, and its position among the
/// sources of that coroutine.
#[derive(Copy, Clone, Debug, PartialEq, Eq, Structural)]
pub struct EventSource {
    /// The coroutine that wrapped the source
    pub coroutine: u64,
    /// Position among the sources of the coroutine
    pub index: usize,
}

/// A slab allocator of event sources.
///
/// It has a fixed number of slots, and each is either taken by a source or free.
#[verifier::external_body]
pub struct Sources {
    slab: Slab<EventSource>,
}

/// The sources in the slab, by the slots that they take.
pub uninterp spec fn taken(sources: Sources) -> Map<usize, EventSource>;

/// The slots that are free, in the order in which they will be taken.
pub uninterp spec fn free(sources: Sources) -> Seq<usize>;

impl Sources {
    /// Whether there is a slot of that number, taken or free.
    pub open spec fn has_slot(self, slot: usize) -> bool {
        taken(self).contains_key(slot) || free(self).contains(slot)
    }

    /// Calls `Slab::new`, which makes a slab of `capacity` free slots that are
    /// taken in order. It panics where the slots would not fit in memory.
    #[verifier::external_body]
    pub(crate) fn new(capacity: usize) -> (r: Sources)
        requires
            capacity <= 65536,
        ensures
            taken(r) == (Map::<usize, EventSource>::empty()),
            free(r) == Seq::new(capacity as nat, |i: int| i as usize),
    {
        Sources { slab: Slab::new(capacity) }
    }

    /// Calls `Slab::get`: the source in a slot, or `None` where the slot is free.
    /// It may panic where there is no such slot.
    #[verifier::external_body]
    pub(crate) fn get(&self, token: Token) -> (r: Option<EventSource>)
        requires
            self.has_slot(token.0),
        ensures
            r == taken(*self).get(token.0),
    {
        self.slab.get(mio::Token(token.0)).cloned()
    }

    /// Calls `Slab::count`, which tells how many slots are taken.
    #[verifier::external_body]
    pub(crate) fn count(&self) -> (r: usize)
        ensures
            r == taken(*self).len(),
    {
        self.slab.count()
    }

    /// Calls `Slab::insert_with`, which puts a source in the free slot that is
    /// next, and returns `None` where no slot is free.
    #[verifier::external_body]
    pub(crate) fn insert(&mut self, source: EventSource) -> (r: Option<Token>)
        ensures
            free(*old(self)).len() == 0 ==> {
                &&& r is None
                &&& taken(*final(self)) == taken(*old(self))
                &&& free(*final(self)) == free(*old(self))
            },
            free(*old(self)).len() > 0 ==> {
                &&& r == Some(Token(free(*old(self))[0]))
                &&& taken(*final(self)) == taken(*old(self)).insert(free(*old(self))[0], source)
                &&& free(*final(self)) == free(*old(self)).skip(1)
            },
    {
        self.slab.insert_with(|_token| source).map(|token| Token(token.as_usize()))
    }

    /// Calls `Slab::remove`, which frees a slot that is taken and returns the
    /// source that was in it. The slot becomes the next one to be taken.
    #[verifier::external_body]
    pub(crate) fn remove(&mut self, token: Token) -> (r: Option<EventSource>)
        requires
            taken(*old(self)).contains_key(token.0),
        ensures
            r == Some(taken(*old(self))[token.0]),
            taken(*final(self)) == taken(*old(self)).remove(token.0),
            free(*final(self)) == seq![token.0] + free(*old(self)),
    {
        self.slab.remove(mio::Token(token.0))
    }
}

} // verus!
