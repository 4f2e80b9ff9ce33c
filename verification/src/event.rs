//! Tokens, event sets and the events that coroutines are told about.
use vstd::prelude::*;

verus! {

/// Identifies an event source towards the event loop.
#[derive(Copy, Clone, Debug, PartialEq, Eq, Structural)]
pub struct Token(pub usize);

/// A set of kinds of readiness.
///
/// Stands for what the event loop reports of a source, and for what a source
/// asks the event loop to report.
#[derive(Copy, Clone, Debug, PartialEq, Eq, Structural)]
pub struct EventSet {
    /// Data can be read.
    pub readable: bool,
    /// Data can be written.
    pub writable: bool,
    /// The peer hung up.
    pub hup: bool,
}

impl EventSet {
    /// The empty set.
    pub open spec fn spec_none() -> EventSet {
        EventSet { readable: false, writable: false, hup: false }
    }

    /// The set that holds only readability.
    pub open spec fn spec_readable() -> EventSet {
        EventSet { readable: true, writable: false, hup: false }
    }

    /// Whether a reader can make progress: a hung up peer counts as readable,
    /// so that a pending read can fail and its coroutine move on.
    pub open spec fn wakes_reader(self) -> bool {
        self.readable || self.hup
    }

    /// Whether an event like this ends a wait for `rw`.
    pub open spec fn wakes(self, rw: RW) -> bool {
        match rw {
            RW::Read => self.wakes_reader(),
            RW::Write => self.writable,
            RW::Both => self.wakes_reader() || self.writable,
        }
    }

    /// The set that holds no kind of event.
    pub fn none() -> (r: EventSet)
        ensures
            r == EventSet::spec_none(),
    {
        EventSet { readable: false, writable: false, hup: false }
    }

    /// The set that holds only readability.
    pub fn readable() -> (r: EventSet)
        ensures
            r == EventSet::spec_readable(),
    {
        EventSet { readable: true, writable: false, hup: false }
    }

    /// The set that holds only writability.
    pub fn writable() -> (r: EventSet)
        ensures
            r == (EventSet { readable: false, writable: true, hup: false }),
    {
        EventSet { readable: false, writable: true, hup: false }
    }

    /// The set that holds only the hang-up of the peer.
    pub fn hup() -> (r: EventSet)
        ensures
            r == (EventSet { readable: false, writable: false, hup: true }),
    {
        EventSet { readable: false, writable: false, hup: true }
    }

    /// Everything that is in `self` or in `other`.
    pub fn union(self, other: EventSet) -> (r: EventSet)
        ensures
            r == (EventSet {
                readable: self.readable || other.readable,
                writable: self.writable || other.writable,
                hup: self.hup || other.hup,
            }),
    {
        EventSet {
            readable: self.readable || other.readable,
            writable: self.writable || other.writable,
            hup: self.hup || other.hup,
        }
    }

    /// Whether data can be read.
    pub fn is_readable(&self) -> (r: bool)
        ensures
            r == self.readable,
    {
        self.readable
    }

    /// Whether data can be written.
    pub fn is_writable(&self) -> (r: bool)
        ensures
            r == self.writable,
    {
        self.writable
    }

    /// Whether the peer hung up.
    pub fn is_hup(&self) -> (r: bool)
        ensures
            r == self.hup,
    {
        self.hup
    }
}

/// Read/Write/Both
#[derive(Copy, Clone, Debug, PartialEq, Eq, Structural)]
pub enum RW {
    /// Read
    Read,
    /// Write
    Write,
    /// Any / Both (depends on context)
    Both,
}

impl RW {
    /// Whether reading is part of it.
    pub open spec fn reads(self) -> bool {
        self is Read || self is Both
    }

    /// Whether writing is part of it.
    pub open spec fn writes(self) -> bool {
        self is Write || self is Both
    }

    /// Whether reading is part of it.
    pub fn has_read(&self) -> (r: bool)
        ensures
            r == self.reads(),
    {
        match *self {
            RW::Read | RW::Both => true,
            RW::Write => false,
        }
    }

    /// Whether writing is part of it.
    pub fn has_write(&self) -> (r: bool)
        ensures
            r == self.writes(),
    {
        match *self {
            RW::Write | RW::Both => true,
            RW::Read => false,
        }
    }
}

/// Position of an event source among those that its coroutine has wrapped.
///
/// Names a source in `select`-like operations.
#[derive(Copy, Clone, Debug, PartialEq, Eq, Structural)]
pub struct EventSourceIndex(usize);

impl View for EventSourceIndex {
    type V = nat;

    closed spec fn view(&self) -> nat {
        self.0 as nat
    }
}

impl EventSourceIndex {
    /// Names the source at position `index`.
    pub(crate) fn new(index: usize) -> (r: EventSourceIndex)
        ensures
            r@ == index,
    {
        EventSourceIndex(index)
    }

    /// The position as a number.
    pub fn as_usize(&self) -> (r: usize)
        ensures
            r == self@,
    {
        self.0
    }
}

/// What a coroutine learns of the event that resumed it: the position of the
/// source that it came from, and its kind.
pub struct EventView {
    pub index: nat,
    pub rw: RW,
}

/// Last Event
///
/// Read and/or Write + index of the source in the order of `wrap` calls.
#[derive(Copy, Clone, Debug, PartialEq, Eq, Structural)]
pub struct LastEvent {
    index: EventSourceIndex,
    rw: RW,
}

impl View for LastEvent {
    type V = EventView;

    closed spec fn view(&self) -> EventView {
        EventView { index: self.index@, rw: self.rw }
    }
}

impl LastEvent {
    /// An event of kind `rw` on the source at position `index`.
    pub(crate) fn new(index: usize, rw: RW) -> (r: LastEvent)
        ensures
            r@ == (EventView { index: index as nat, rw }),
    {
        LastEvent { index: EventSourceIndex::new(index), rw }
    }

    /// Index of the source that the event came from
    pub fn index(&self) -> (r: EventSourceIndex)
        ensures
            r@ == self@.index,
    {
        self.index
    }

    /// Was the event a read
    pub fn has_read(&self) -> (r: bool)
        ensures
            r == self@.rw.reads(),
    {
        self.rw.has_read()
    }

    /// Was the event a write
    pub fn has_write(&self) -> (r: bool)
        ensures
            r == self@.rw.writes(),
    {
        self.rw.has_write()
    }
}

/// A wait concerns reads unless it is for writes only, and writes unless it is for
/// reads only.
pub proof fn waits_concern_their_kind(rw: RW)
    ensures
        rw.reads() <==> rw != RW::Write,
        rw.writes() <==> rw != RW::Read,
{
}

/// An event ends a wait if, and only if, it is of a kind that is waited for. A
/// hang-up counts as something to read, and nothing else does.
pub proof fn events_end_waits_of_their_kind(events: EventSet, rw: RW)
    ensures
        events.wakes_reader() <==> events.readable || events.hup,
        events.wakes(rw) <==> {
            ||| rw != RW::Write && (events.readable || events.hup)
            ||| rw != RW::Read && events.writable
        },
{
}

/// The set of no event holds nothing, and that of a read holds nothing else.
pub proof fn plain_event_sets_hold_what_they_say()
    ensures
        ({
            let none = EventSet::spec_none();
            &&& !none.readable
            &&& !none.writable
            &&& !none.hup
        }),
        ({
            let read = EventSet::spec_readable();
            &&& read.readable
            &&& !read.writable
            &&& !read.hup
        }),
{
}

} // verus!
