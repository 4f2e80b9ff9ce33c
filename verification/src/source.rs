//! Event sources as the server sees them, and what it asks of the event loop.
use crate::event::{EventSet, Token, RW};
use crate::timer::{Timeout, Timer, TimerStatus};
use vstd::prelude::*;

verus! {

/// Something that the server asks to be done, in the order in which it asks.
#[derive(Copy, Clone, Debug, PartialEq, Eq, Structural)]
pub enum Action {
    /// Register the source with the event loop, edge-triggered.
    Register { token: Token, interest: EventSet },
    /// Change what the event loop reports of a registered source.
    Reregister { token: Token, interest: EventSet },
    /// Take the source out of the event loop.
    Deregister { token: Token },
    /// Ask the event loop for a notification after `delay` milliseconds.
    SetTimeout { token: Token, iteration: u32, delay: u64 },
    /// Take back a request for a notification.
    ClearTimeout { timeout: Timeout },
    /// Drop the source: its token is free again.
    Remove { token: Token },
    /// Drop the coroutine: it will never be resumed again.
    Retire { coroutine: u64 },
    /// Stop the event loop: no coroutine is left.
    Shutdown,
}

/// What an event source is made of.
#[derive(Copy, Clone, Debug, PartialEq, Eq, Structural)]
pub enum Io {
    /// Something that the event loop reports on.
    Raw,
    /// A timer, which the event loop notifies.
    Timer(Timer),
}

impl Io {
    /// A timer keeps to its own invariant.
    pub open spec fn wf(self) -> bool {
        self matches Io::Timer(timer) ==> timer.wf()
    }

    /// What is asked of the event loop the first time that events are wanted.
    pub open spec fn register_actions(self, token: Token, interest: EventSet) -> Seq<Action> {
        match self {
            Io::Raw => seq![Action::Register { token, interest }],
            Io::Timer(timer) => seq![timer.start_action(token)],
        }
    }

    /// What is asked of the event loop when other events are wanted.
    pub open spec fn reregister_actions(self, token: Token, interest: EventSet) -> Seq<Action> {
        match self {
            Io::Raw => seq![Action::Reregister { token, interest }],
            Io::Timer(timer) => timer.restart_actions(token),
        }
    }

    /// What is left once other events have been asked for.
    pub open spec fn reregistered(self) -> Io {
        match self {
            Io::Raw => Io::Raw,
            Io::Timer(timer) => Io::Timer(timer.restarting()),
        }
    }

    /// What is asked of the event loop when no event is wanted any more.
    pub open spec fn deregister_actions(self, token: Token) -> Seq<Action> {
        match self {
            Io::Raw => seq![Action::Deregister { token }],
            Io::Timer(timer) => timer.stop_actions(),
        }
    }

    /// What is left once no event is wanted any more.
    pub open spec fn deregistered(self) -> Io {
        match self {
            Io::Raw => Io::Raw,
            Io::Timer(timer) => Io::Timer(Timer { handle: None, ..timer }),
        }
    }

    /// Asks the event loop for the first time.
    fn register(&self, token: Token, interest: EventSet, actions: &mut Vec<Action>)
        ensures
            final(actions)@ == old(actions)@ + self.register_actions(token, interest),
    {
        match self {
            Io::Raw => {
                actions.push(Action::Register { token, interest });
            },
            Io::Timer(timer) => {
                timer.register(token, actions);
            },
        }
        assert(actions@ =~= old(actions)@ + self.register_actions(token, interest));
    }

    /// Asks the event loop for other events than before.
    fn reregister(&mut self, token: Token, interest: EventSet, actions: &mut Vec<Action>)
        requires
            old(self).wf(),
        ensures
            *final(self) == old(self).reregistered(),
            final(self).wf(),
            final(actions)@ == old(actions)@ + old(self).reregister_actions(token, interest),
    {
        match self {
            Io::Raw => {
                actions.push(Action::Reregister { token, interest });
            },
            Io::Timer(timer) => {
                timer.reregister(token, actions);
            },
        }
        assert(actions@ =~= old(actions)@ + old(self).reregister_actions(token, interest));
    }

    /// Asks the event loop for nothing any more.
    fn deregister(&mut self, token: Token, actions: &mut Vec<Action>)
        ensures
            *final(self) == old(self).deregistered(),
            final(actions)@ == old(actions)@ + old(self).deregister_actions(token),
    {
        match self {
            Io::Raw => {
                actions.push(Action::Deregister { token });
            },
            Io::Timer(timer) => {
                timer.deregister(actions);
            },
        }
        assert(actions@ =~= old(actions)@ + old(self).deregister_actions(token));
    }
}

/// A wrapped event source.
#[derive(Copy, Clone, Debug, PartialEq, Eq, Structural)]
pub struct EventSourceShared {
    /// How the event loop knows the source
    pub token: Token,
    /// Position among the sources of its coroutine
    pub index: usize,
    /// What the source is made of
    pub io: Io,
    /// Whether the peer has hung up
    pub peer_hup: bool,
    /// Whether the source has been registered with the event loop
    pub registered: bool,
}

impl EventSourceShared {
    /// What the source is made of keeps its own invariant.
    pub open spec fn wf(self) -> bool {
        self.io.wf()
    }

    /// A timer that has never been registered has not been started.
    pub open spec fn tidy(self) -> bool {
        self.io matches Io::Timer(timer) ==> (!self.registered ==> timer.status is Stopped)
    }

    /// A source that was just wrapped.
    pub open spec fn fresh(token: Token, index: usize, io: Io) -> EventSourceShared {
        EventSourceShared { token, index, io, peer_hup: false, registered: false }
    }

    /// What the event loop is to report while a coroutine waits for `rw`. After
    /// the peer hung up there is nothing more to read and no second hang-up.
    pub open spec fn interest(self, rw: RW) -> EventSet {
        EventSet {
            readable: !self.peer_hup && rw.reads(),
            writable: rw.writes(),
            hup: !self.peer_hup,
        }
    }

    /// What is asked of the event loop when a coroutine starts to wait for `rw`.
    pub open spec fn watch_actions(self, rw: RW) -> Seq<Action> {
        if self.registered {
            self.io.reregister_actions(self.token, self.interest(rw))
        } else {
            self.io.register_actions(self.token, self.interest(rw))
        }
    }

    /// The source once a coroutine waits for it.
    pub open spec fn watched(self) -> EventSourceShared {
        EventSourceShared {
            registered: true,
            io: if self.registered {
                self.io.reregistered()
            } else {
                self.io
            },
            ..self
        }
    }

    /// What is asked of the event loop when nobody waits for the source any more.
    pub open spec fn unwatch_actions(self) -> Seq<Action> {
        self.io.reregister_actions(self.token, EventSet::spec_none())
    }

    /// The source once nobody waits for it any more.
    pub open spec fn unwatched(self) -> EventSourceShared {
        EventSourceShared { io: self.io.reregistered(), ..self }
    }

    /// What is asked of the event loop when the source is dropped.
    pub open spec fn drop_actions(self) -> Seq<Action> {
        if self.registered {
            self.io.deregister_actions(self.token)
        } else {
            Seq::empty()
        }
    }

    /// The source once it has been dropped.
    pub open spec fn dropped(self) -> EventSourceShared {
        if self.registered {
            EventSourceShared { registered: false, io: self.io.deregistered(), ..self }
        } else {
            self
        }
    }

    /// Handle `hup` condition
    pub fn hup(&mut self)
        ensures
            *final(self) == (EventSourceShared { peer_hup: true, ..*old(self) }),
    {
        self.peer_hup = true;
    }

    /// Reregister oneshot handler for the next event
    pub fn reregister(&mut self, rw: RW, actions: &mut Vec<Action>)
        requires
            old(self).wf(),
        ensures
            *final(self) == old(self).watched(),
            final(self).wf(),
            final(actions)@ == old(actions)@ + old(self).watch_actions(rw),
    {
        let mut interest = EventSet::none();

        if !self.peer_hup {
            interest = interest.union(EventSet::hup());

            if rw.has_read() {
                interest = interest.union(EventSet::readable());
            }
        }
        if rw.has_write() {
            interest = interest.union(EventSet::writable());
        }
        if !self.registered {
            self.registered = true;
            self.io.register(self.token, interest, actions);
        } else {
            self.io.reregister(self.token, interest, actions);
        }
    }

    /// Un-reregister events we're not interested in anymore
    pub fn unreregister(&mut self, actions: &mut Vec<Action>)
        requires
            old(self).wf(),
        ensures
            *final(self) == old(self).unwatched(),
            final(self).wf(),
            final(actions)@ == old(actions)@ + old(self).unwatch_actions(),
    {
        self.io.reregister(self.token, EventSet::none(), actions);
    }

    /// Deregister the source, if it was registered
    pub fn deregister(&mut self, actions: &mut Vec<Action>)
        ensures
            *final(self) == old(self).dropped(),
            final(actions)@ == old(actions)@ + old(self).drop_actions(),
    {
        if self.registered {
            self.io.deregister(self.token, actions);
            self.registered = false;
        }
        assert(actions@ =~= old(actions)@ + old(self).drop_actions());
    }
}

/// The event loop is to report what is waited for: writes exactly if they are
/// awaited; reads exactly if they are awaited and the peer has not hung up; and a
/// hang-up until it has happened, whatever is awaited.
pub proof fn interest_is_what_is_awaited(source: EventSourceShared, rw: RW)
    ensures
        source.interest(rw).writable <==> rw != RW::Read,
        source.interest(rw).readable <==> rw != RW::Write && !source.peer_hup,
        source.interest(rw).hup <==> !source.peer_hup,
{
}

/// A source that is waited for is asked for in one request, which names its token and
/// what is awaited: it is registered if it never was, and else reregistered. A timer
/// is asked for in just the same way, whatever is awaited, by a request to start it.
pub proof fn awaited_source_is_asked_for(source: EventSourceShared, rw: RW)
    ensures
        ({
            let asked = source.watch_actions(rw);
            let token = source.token;
            match source.io {
                Io::Raw => {
                    &&& asked.len() == 1
                    &&& !source.registered ==> asked[0] == (Action::Register {
                        token,
                        interest: source.interest(rw),
                    })
                    &&& source.registered ==> asked[0] == (Action::Reregister {
                        token,
                        interest: source.interest(rw),
                    })
                },
                Io::Timer(timer) => {
                    let takes_back = source.registered && timer.status == TimerStatus::Canceled;
                    &&& asked.len() == (if takes_back {
                        2int
                    } else {
                        1
                    })
                    &&& asked.last() == (Action::SetTimeout {
                        token,
                        iteration: timer.iteration,
                        delay: timer.delay,
                    })
                    &&& takes_back ==> asked[0] == (Action::ClearTimeout {
                        timeout: timer.handle->0,
                    })
                },
            }
        }),
{
}

/// A source that is waited for is registered from then on. Apart from that, only a
/// timer whose request was taken back changes: it is stopped.
pub proof fn awaited_source_is_registered(source: EventSourceShared)
    ensures
        ({
            let after = source.watched();
            &&& after.registered
            &&& after.token == source.token
            &&& after.index == source.index
            &&& after.peer_hup == source.peer_hup
            &&& source.io is Raw ==> after.io is Raw
            &&& source.io matches Io::Timer(timer) ==> after.io == (if source.registered
                && timer.status == TimerStatus::Canceled {
                Io::Timer(Timer { status: TimerStatus::Stopped, ..timer })
            } else {
                Io::Timer(timer)
            })
        }),
{
}

/// Of a source that is no longer waited for, the event loop is asked to report
/// nothing; a timer is started again. The source stays registered.
pub proof fn source_that_is_not_awaited_is_silenced(source: EventSourceShared)
    ensures
        ({
            let asked = source.unwatch_actions();
            let token = source.token;
            match source.io {
                Io::Raw => {
                    &&& asked.len() == 1
                    &&& asked[0] matches Action::Reregister { token: named, interest }
                    &&& named == token
                    &&& !interest.readable && !interest.writable && !interest.hup
                },
                Io::Timer(timer) => {
                    let takes_back = timer.status == TimerStatus::Canceled;
                    &&& asked.len() == (if takes_back {
                        2int
                    } else {
                        1
                    })
                    &&& asked.last() == (Action::SetTimeout {
                        token,
                        iteration: timer.iteration,
                        delay: timer.delay,
                    })
                    &&& takes_back ==> asked[0] == (Action::ClearTimeout {
                        timeout: timer.handle->0,
                    })
                },
            }
        }),
        ({
            let after = source.unwatched();
            &&& after.registered == source.registered
            &&& after.token == source.token
            &&& after.index == source.index
            &&& after.peer_hup == source.peer_hup
            &&& source.io is Raw ==> after.io is Raw
            &&& source.io matches Io::Timer(timer) ==> after.io == (if timer.status
                == TimerStatus::Canceled {
                Io::Timer(Timer { status: TimerStatus::Stopped, ..timer })
            } else {
                Io::Timer(timer)
            })
        }),
{
}

/// A source that is given up leaves nothing behind in the event loop. If it was
/// registered, it is deregistered under its token, or, if it is a timer, the timeout
/// that the event loop accepted is taken back, whatever the status of the timer. If
/// it was not registered, nothing is asked.
pub proof fn source_that_is_given_up_leaves_nothing_behind(source: EventSourceShared)
    ensures
        !source.registered ==> source.drop_actions().len() == 0 && source.dropped() == source,
        source.registered && source.io is Raw ==> {
            &&& source.drop_actions().len() == 1
            &&& source.drop_actions()[0] == (Action::Deregister { token: source.token })
        },
        source.registered ==> {
            source.io matches Io::Timer(timer) ==> match timer.handle {
                Some(timeout) => {
                    &&& source.drop_actions().len() == 1
                    &&& source.drop_actions()[0] == (Action::ClearTimeout { timeout })
                },
                None => source.drop_actions().len() == 0,
            }
        },
        source.registered ==> {
            let after = source.dropped();
            &&& !after.registered
            &&& after.token == source.token
            &&& after.index == source.index
            &&& after.peer_hup == source.peer_hup
            &&& source.io is Raw ==> after.io is Raw
            &&& source.io matches Io::Timer(timer) ==> after.io == Io::Timer(
                Timer { handle: None, ..timer },
            )
        },
{
}

/// What an operation on a raw source or a timer asks for depends on which it is, and
/// a raw source never asks for a timeout.
pub proof fn raw_sources_ask_for_no_timeout(io: Io, token: Token, interest: EventSet)
    requires
        io is Raw,
    ensures
        io.register_actions(token, interest) == seq![Action::Register { token, interest }],
        io.reregister_actions(token, interest) == seq![Action::Reregister { token, interest }],
        io.deregister_actions(token) == seq![Action::Deregister { token }],
        io.reregistered() is Raw,
        io.deregistered() is Raw,
{
}

/// A timer asks for the same whatever events are of interest.
pub proof fn timers_do_not_care_for_interest(
    io: Io,
    token: Token,
    interest: EventSet,
    other: EventSet,
)
    requires
        io is Timer,
    ensures
        io.register_actions(token, interest) == io.register_actions(token, other),
        io.reregister_actions(token, interest) == io.reregister_actions(token, other),
        io.register_actions(token, interest) == seq![Action::SetTimeout {
            token,
            iteration: io->Timer_0.iteration,
            delay: io->Timer_0.delay,
        }],
{
}

} // verus!
