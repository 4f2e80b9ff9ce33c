//! What a coroutine can ask of its server.
//!
//! An operation that blocks is in two parts. The first one, here, notes what the
//! coroutine waits for; it has to be followed by a switch away from the
//! coroutine. Once it has been resumed, the outcome can be read off, or the
//! operation is tried again.
use crate::coroutine::mask_len;
use crate::event::{EventSourceIndex, LastEvent, Token, RW};
use crate::mailbox::MailboxShared;
use crate::mask;
use crate::model::SourceView;
use crate::server::Server;
use crate::slab::EventSource;
use crate::source::Io;
use crate::timer::{Timer, TimerStatus};
use std::marker::PhantomData;
use vstd::prelude::*;

verus! {

/// `mioco` wrapper over an event source
///
/// Create using `MiocoHandle::wrap()`
pub struct TypedEventSource<T> {
    coroutine: u64,
    token: Token,
    index: usize,
    _t: PhantomData<T>,
}

impl<T> View for TypedEventSource<T> {
    type V = SourceView;

    closed spec fn view(&self) -> SourceView {
        SourceView { coroutine: self.coroutine, token: self.token, index: self.index as nat }
    }
}

impl<T> Clone for TypedEventSource<T> {
    fn clone(&self) -> (r: Self)
        ensures
            r@ == self@,
    {
        TypedEventSource {
            coroutine: self.coroutine,
            token: self.token,
            index: self.index,
            _t: PhantomData,
        }
    }
}

/// Why a timer cannot be read.
#[derive(Copy, Clone, Debug, PartialEq, Eq, Structural)]
pub enum TimerError {
    /// Timer has not been registered
    NotRegistered,
}

impl TimerError {
    /// What went wrong, in words.
    pub fn message(&self) -> (r: &'static str)
        ensures
            r@ == "Timer has not been registered"@,
    {
        match self {
            TimerError::NotRegistered => "Timer has not been registered",
        }
    }
}

impl<T> TypedEventSource<T> {
    /// Mark the event source blocked: its coroutine waits for `rw` on it until the
    /// server wakes it up again.
    pub fn block_on(&self, server: &mut Server, rw: RW)
        requires
            old(server).wf(),
            old(server)@.holds(self@),
            old(server)@.runs(self@.coroutine),
        ensures
            final(server).wf(),
            final(server)@ == old(server)@.blocked_by(self@.coroutine, rw, seq![self@.index]),
    {
        server.block_on(self.coroutine, self.index, rw);
    }

    /// Whether the source is one of the server's. It is until it is dropped.
    pub fn is_held(&self, server: &Server) -> (r: bool)
        requires
            server.wf(),
        ensures
            r == server@.holds(self@),
    {
        server.has_source(
            self.token,
            EventSource { coroutine: self.coroutine, index: self.index },
        )
    }

    /// Whether the source can be waited for: its coroutine is the one that runs now.
    pub fn can_wait(&self, server: &Server) -> (r: bool)
        requires
            server.wf(),
        ensures
            r == (server@.holds(self@) && server@.runs(self@.coroutine)),
    {
        self.is_held(server) && server.is_running(self.coroutine)
    }

    /// Index identificator of a `TypedEventSource`
    pub fn index(&self) -> (r: EventSourceIndex)
        ensures
            r@ == self@.index,
    {
        EventSourceIndex::new(self.index)
    }

    /// How the event loop knows the source
    pub fn token(&self) -> (r: Token)
        ensures
            r == self@.token,
    {
        self.token
    }

    /// Block on accept
    ///
    /// Takes what came of an attempt to accept. Where there was nothing to accept,
    /// the coroutine waits until it can try again.
    pub fn accept<R, E>(&self, server: &mut Server, res: Result<Option<R>, E>) -> (r: Option<
        Result<R, E>,
    >)
        requires
            old(server).wf(),
            outcome(res) is None ==> old(server)@.holds(self@) && old(server)@.runs(
                self@.coroutine,
            ),
        ensures
            final(server).wf(),
            r == outcome(res),
            final(server)@ == (if r is None {
                old(server)@.blocked_by(self@.coroutine, RW::Read, seq![self@.index])
            } else {
                old(server)@
            }),
    {
        self.finish_or_block(server, res, RW::Read)
    }

    /// Block on read
    ///
    /// Takes what came of an attempt to read. Where there was nothing to read, the
    /// coroutine waits until it can try again.
    pub fn after_read<R, E>(&self, server: &mut Server, res: Result<Option<R>, E>) -> (r: Option<
        Result<R, E>,
    >)
        requires
            old(server).wf(),
            outcome(res) is None ==> old(server)@.holds(self@) && old(server)@.runs(
                self@.coroutine,
            ),
        ensures
            final(server).wf(),
            r == outcome(res),
            final(server)@ == (if r is None {
                old(server)@.blocked_by(self@.coroutine, RW::Read, seq![self@.index])
            } else {
                old(server)@
            }),
    {
        self.finish_or_block(server, res, RW::Read)
    }

    /// Block on write
    ///
    /// Takes what came of an attempt to write. Where nothing could be written, the
    /// coroutine waits until it can try again.
    pub fn after_write<R, E>(&self, server: &mut Server, res: Result<Option<R>, E>) -> (r: Option<
        Result<R, E>,
    >)
        requires
            old(server).wf(),
            outcome(res) is None ==> old(server)@.holds(self@) && old(server)@.runs(
                self@.coroutine,
            ),
        ensures
            final(server).wf(),
            r == outcome(res),
            final(server)@ == (if r is None {
                old(server)@.blocked_by(self@.coroutine, RW::Write, seq![self@.index])
            } else {
                old(server)@
            }),
    {
        self.finish_or_block(server, res, RW::Write)
    }

    /// Receive `M` sent using `MailboxShared::send()`, where the source is the
    /// receiving end of that mailbox.
    ///
    /// Will block coroutine if no elements are available.
    pub fn recv<M>(&self, server: &mut Server, mailbox: &mut MailboxShared<M>) -> (r: Option<M>)
        requires
            old(server).wf(),
            old(mailbox)@.next() is None ==> old(server)@.holds(self@) && old(server)@.runs(
                self@.coroutine,
            ),
        ensures
            final(server).wf(),
            r == old(mailbox)@.next(),
            final(mailbox)@ == old(mailbox)@.received(),
            final(server)@ == (if r is None {
                old(server)@.blocked_by(self@.coroutine, RW::Read, seq![self@.index])
            } else {
                old(server)@
            }),
    {
        let t = mailbox.recv();
        if t.is_none() {
            self.block_on(server, RW::Read);
        }
        t
    }

    /// Ends an operation that succeeded or failed, and blocks on one that has to
    /// be tried again.
    fn finish_or_block<R, E>(&self, server: &mut Server, res: Result<Option<R>, E>, rw: RW) -> (r:
        Option<Result<R, E>>)
        requires
            old(server).wf(),
            outcome(res) is None ==> old(server)@.holds(self@) && old(server)@.runs(
                self@.coroutine,
            ),
        ensures
            final(server).wf(),
            r == outcome(res),
            final(server)@ == (if r is None {
                old(server)@.blocked_by(self@.coroutine, rw, seq![self@.index])
            } else {
                old(server)@
            }),
    {
        match res {
            Ok(None) => {
                self.block_on(server, rw);
                None
            },
            Ok(Some(r)) => Some(Ok(r)),
            Err(e) => Some(Err(e)),
        }
    }
}

/// How an operation ends after one attempt: not yet, where the attempt would have
/// blocked; else with what the attempt gave.
pub open spec fn outcome<R, E>(res: Result<Option<R>, E>) -> Option<Result<R, E>> {
    match res {
        Ok(None) => None,
        Ok(Some(r)) => Some(Ok(r)),
        Err(e) => Some(Err(e)),
    }
}

impl TypedEventSource<Timer> {
    /// Read a timer to block on it until it is done.
    ///
    /// Returns `None` where the coroutine has to wait before it can try again.
    pub fn read(&self, server: &mut Server) -> (r: Option<Result<(), TimerError>>)
        requires
            old(server).wf(),
            old(server)@.holds(self@),
            old(server)@.is_timer(self@.token),
            old(server)@.timer(self@.token).status is Running ==> old(server)@.runs(
                self@.coroutine,
            ),
        ensures
            final(server).wf(),
            r == (match old(server)@.timer(self@.token).status {
                TimerStatus::Stopped | TimerStatus::Canceled => Some(
                    Err(TimerError::NotRegistered),
                ),
                TimerStatus::Running => None,
                TimerStatus::Done => Some(Ok(())),
            }),
            final(server)@ == (if r is None {
                old(server)@.blocked_by(self@.coroutine, RW::Read, seq![self@.index])
            } else {
                old(server)@
            }),
    {
        let status = server.timer(self.token).unwrap().status;
        match status {
            TimerStatus::Stopped | TimerStatus::Canceled => Some(Err(TimerError::NotRegistered)),
            TimerStatus::Running => {
                self.block_on(server, RW::Read);
                None
            },
            TimerStatus::Done => Some(Ok(())),
        }
    }

    /// Reset a previously used timer so that it can be used again.
    /// Any pending notification will be ignored and a new timeout
    /// will be created when the timer is re-registered.
    pub fn reset(&self, server: &mut Server)
        requires
            old(server).wf(),
            old(server)@.holds(self@),
            old(server)@.is_timer(self@.token),
        ensures
            final(server).wf(),
            final(server)@ == old(server)@.with_timer(
                self@.token,
                old(server)@.timer(self@.token).spec_reset(),
            ),
    {
        server.reset_timer(self.token);
    }
}

/// Mioco Handle
///
/// Use this from within coroutines to perform `mioco`-provided functionality
pub struct MiocoHandle {
    coroutine: u64,
}

impl View for MiocoHandle {
    type V = u64;

    closed spec fn view(&self) -> u64 {
        self.coroutine
    }
}

impl MiocoHandle {
    /// The handle of the coroutine of that number.
    pub fn new(coroutine: u64) -> (r: MiocoHandle)
        ensures
            r@ == coroutine,
    {
        MiocoHandle { coroutine }
    }

    /// Create a `mioco` coroutine
    ///
    /// It will be started after this one has blocked or finished, before any event
    /// is waited for. Returns its number.
    pub fn spawn(&self, server: &mut Server) -> (child: u64)
        requires
            old(server).wf(),
            old(server)@.runs(self@),
            old(server)@.next_id < u64::MAX,
        ensures
            final(server).wf(),
            final(server)@ == old(server)@.spawned_by(self@),
            child == old(server)@.next_id,
    {
        server.spawn(self.coroutine)
    }

    /// Takes note that the coroutine has returned.
    pub fn finish(&self, server: &mut Server)
        requires
            old(server).wf(),
            old(server)@.runs(self@),
        ensures
            final(server).wf(),
            final(server)@ == old(server)@.finished_by(self@),
    {
        server.finish(self.coroutine);
    }

    /// Register an event source to be used within `mioco` coroutine
    ///
    /// Returns a mioco wrapper over it. Use this wrapper to perform IO.
    pub fn wrap<T>(&self, server: &mut Server, io: Io) -> (source: TypedEventSource<T>)
        requires
            old(server).wf(),
            old(server)@.runs(self@),
            old(server)@.free.len() > 0,
            io.wf(),
        ensures
            final(server).wf(),
            final(server)@ == old(server)@.wrapped_by(self@, io),
            source@ == (SourceView {
                coroutine: self@,
                token: old(server)@.next_token(),
                index: old(server)@.coroutines[self@].io.len(),
            }),
            final(server)@.holds(source@),
            final(server)@.runs(self@),
    {
        let (token, index) = server.wrap(self.coroutine, io);
        TypedEventSource { coroutine: self.coroutine, token, index, _t: PhantomData }
    }

    /// Create a new timer which will provide a timeout event after
    /// `delay` milliseconds.
    pub fn timeout(&self, server: &mut Server, delay: u64) -> (source: TypedEventSource<Timer>)
        requires
            old(server).wf(),
            old(server)@.runs(self@),
            old(server)@.free.len() > 0,
        ensures
            final(server).wf(),
            final(server)@ == old(server)@.wrapped_by(self@, Io::Timer(Timer::spec_new(delay))),
            source@ == (SourceView {
                coroutine: self@,
                token: old(server)@.next_token(),
                index: old(server)@.coroutines[self@].io.len(),
            }),
            final(server)@.holds(source@),
            final(server)@.is_timer(source@.token),
            final(server)@.runs(self@),
    {
        self.wrap(server, Io::Timer(Timer::new(delay)))
    }

    /// Pause the current co-routine for `delay` milliseconds.
    pub fn sleep(&self, server: &mut Server, delay: u64)
        requires
            old(server).wf(),
            old(server)@.runs(self@),
            old(server)@.free.len() > 0,
        ensures
            final(server).wf(),
            final(server)@ == old(server)@.wrapped_by(
                self@,
                Io::Timer(Timer::spec_new(delay)),
            ).blocked_by(self@, RW::Read, seq![old(server)@.coroutines[self@].io.len()]),
    {
        let timeout = self.timeout(server, delay).index();
        let indices = [timeout];
        proof {
            crate::coroutine::lemma_mask_len(server@.coroutines[self@].io.len());
        }
        self.select_read_from(server, &indices);
        assert(mask::positions(indices@) =~= seq![old(server)@.coroutines[self@].io.len()]);
    }

    /// Wait till an event is ready
    ///
    /// See `MiocoHandle::last_event()` for the event that ended the wait.
    pub fn select(&self, server: &mut Server)
        requires
            old(server).wf(),
            old(server)@.runs(self@),
        ensures
            final(server).wf(),
            final(server)@ == old(server)@.blocked_by_all(self@, RW::Both),
    {
        server.block_on_all(self.coroutine, RW::Both);
    }

    /// Wait till a read event is ready
    ///
    /// See `MiocoHandle::select`.
    pub fn select_read(&self, server: &mut Server)
        requires
            old(server).wf(),
            old(server)@.runs(self@),
        ensures
            final(server).wf(),
            final(server)@ == old(server)@.blocked_by_all(self@, RW::Read),
    {
        server.block_on_all(self.coroutine, RW::Read);
    }

    /// Wait till a write event is ready.
    ///
    /// See `MiocoHandle::select`.
    pub fn select_write(&self, server: &mut Server)
        requires
            old(server).wf(),
            old(server)@.runs(self@),
        ensures
            final(server).wf(),
            final(server)@ == old(server)@.blocked_by_all(self@, RW::Write),
    {
        server.block_on_all(self.coroutine, RW::Write);
    }

    /// Wait till any event is ready on a set of sources.
    ///
    /// See `TypedEventSource::index()`.
    /// See `MiocoHandle::select()`.
    pub fn select_from(&self, server: &mut Server, indices: &[EventSourceIndex])
        requires
            old(server).wf(),
            old(server)@.runs(self@),
            forall|k: int|
                0 <= k < indices@.len() ==> #[trigger] indices@[k]@ < mask_len(
                    old(server)@.coroutines[self@].io.len(),
                ),
        ensures
            final(server).wf(),
            final(server)@ == old(server)@.blocked_by(self@, RW::Both, mask::positions(indices@)),
    {
        server.block_on_from(self.coroutine, indices, RW::Both);
    }

    /// Wait till write event is ready on a set of sources.
    ///
    /// See `MiocoHandle::select_from`.
    pub fn select_write_from(&self, server: &mut Server, indices: &[EventSourceIndex])
        requires
            old(server).wf(),
            old(server)@.runs(self@),
            forall|k: int|
                0 <= k < indices@.len() ==> #[trigger] indices@[k]@ < mask_len(
                    old(server)@.coroutines[self@].io.len(),
                ),
        ensures
            final(server).wf(),
            final(server)@ == old(server)@.blocked_by(self@, RW::Write, mask::positions(indices@)),
    {
        server.block_on_from(self.coroutine, indices, RW::Write);
    }

    /// Wait till read event is ready on a set of sources.
    ///
    /// See `MiocoHandle::select_from`.
    pub fn select_read_from(&self, server: &mut Server, indices: &[EventSourceIndex])
        requires
            old(server).wf(),
            old(server)@.runs(self@),
            forall|k: int|
                0 <= k < indices@.len() ==> #[trigger] indices@[k]@ < mask_len(
                    old(server)@.coroutines[self@].io.len(),
                ),
        ensures
            final(server).wf(),
            final(server)@ == old(server)@.blocked_by(self@, RW::Read, mask::positions(indices@)),
    {
        server.block_on_from(self.coroutine, indices, RW::Read);
    }

    /// Whether `indices` can be handed to `MiocoHandle::select_from`: none of them is
    /// beyond what the coroutine keeps account of.
    pub fn can_select_from(&self, server: &Server, indices: &[EventSourceIndex]) -> (r: bool)
        requires
            server.wf(),
            server@.runs(self@),
        ensures
            r == (forall|k: int|
                0 <= k < indices@.len() ==> #[trigger] indices@[k]@ < mask_len(
                    server@.coroutines[self@].io.len(),
                )),
    {
        assert(server@.coroutines.contains_key(self@));
        for n in 0..indices.len()
            invariant
                server.wf(),
                server@.coroutines.contains_key(self@),
                forall|k: int|
                    0 <= k < n ==> #[trigger] indices@[k]@ < mask_len(
                        server@.coroutines[self@].io.len(),
                    ),
        {
            let index = indices[n];
            if !server.covers(self.coroutine, index.as_usize()) {
                assert(indices@[n as int]@ >= mask_len(server@.coroutines[self@].io.len()));
                return false;
            }
        }
        true
    }

    /// The event that ended the last wait.
    ///
    /// The returned value contains event type and the index id of the `TypedEventSource`.
    /// See `TypedEventSource::index()`.
    pub fn last_event(&self, server: &Server) -> (r: LastEvent)
        requires
            server.wf(),
            server@.runs(self@),
        ensures
            r@ == server@.coroutines[self@].last_event,
    {
        assert(server@.coroutines.contains_key(self@));
        server.last_event(self.coroutine)
    }
}

/// An attempt ends an operation unless it would have blocked: then, and only then, it
/// has to be tried again. A result or an error is handed on as it is.
pub proof fn attempt_ends_unless_it_would_block<R, E>(res: Result<Option<R>, E>)
    ensures
        outcome(res) is None <==> res == Ok::<Option<R>, E>(None),
        forall|r: R| res == Ok::<Option<R>, E>(Some(r)) ==> outcome(res) == Some(
            Ok::<R, E>(r),
        ),
        forall|e: E| res == Err::<Option<R>, E>(e) ==> outcome(res) == Some(
            Err::<R, E>(e),
        ),
{
}

} // verus!
