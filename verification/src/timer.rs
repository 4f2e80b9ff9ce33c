//! Timers: event sources that become readable after a delay.
use crate::event::Token;
use crate::source::Action;
use vstd::prelude::*;

verus! {

/// Names a timeout that the event loop has accepted.
#[derive(Copy, Clone, Debug, PartialEq, Eq, Structural)]
pub struct Timeout(pub u64);

/// Where a timer stands.
#[derive(Copy, Clone, Debug, PartialEq, Eq, Structural)]
pub enum TimerStatus {
    /// The event loop will notify it.
    Running,
    /// It has not been started, or has been reset after it was done.
    Stopped,
    /// Its delay has passed.
    Done,
    /// It was reset while it was running.
    Canceled,
}

/// A Timer is used in `select` functions to create a timeout event.
#[derive(Copy, Clone, Debug, PartialEq, Eq, Structural)]
pub struct Timer {
    /// Delay in milliseconds
    pub delay: u64,
    /// The timeout that the event loop accepted last
    pub handle: Option<Timeout>,
    /// Where the timer stands
    pub status: TimerStatus,
    /// Number of resets so far, modulo the range of the type
    pub iteration: u32,
}

impl Timer {
    /// A timer that waits for the event loop, or has to take back its request,
    /// knows the timeout that the event loop accepted.
    pub open spec fn wf(self) -> bool {
        self.status is Running || self.status is Canceled ==> self.handle is Some
    }

    /// A timer of `delay` milliseconds that was never started.
    pub open spec fn spec_new(delay: u64) -> Timer {
        Timer { delay, handle: None, status: TimerStatus::Stopped, iteration: 0 }
    }

    /// What is asked of the event loop to start the timer.
    pub open spec fn start_action(self, token: Token) -> Action {
        Action::SetTimeout { token, iteration: self.iteration, delay: self.delay }
    }

    /// What is asked of the event loop to start the timer again.
    pub open spec fn restart_actions(self, token: Token) -> Seq<Action> {
        if self.status is Canceled {
            seq![Action::ClearTimeout { timeout: self.handle->0 }, self.start_action(token)]
        } else {
            seq![self.start_action(token)]
        }
    }

    /// The timer once it has asked to be started again.
    pub open spec fn restarting(self) -> Timer {
        if self.status is Canceled {
            Timer { status: TimerStatus::Stopped, ..self }
        } else {
            self
        }
    }

    /// What is asked of the event loop to forget the timer.
    pub open spec fn stop_actions(self) -> Seq<Action> {
        match self.handle {
            Some(timeout) => seq![Action::ClearTimeout { timeout }],
            None => Seq::empty(),
        }
    }

    /// The timer after the event loop answered a request to start it.
    pub open spec fn started_with(self, answer: Option<Timeout>) -> Timer {
        match answer {
            Some(timeout) => Timer { handle: Some(timeout), status: TimerStatus::Running, ..self },
            None => self,
        }
    }

    /// The timer after a reset.
    pub open spec fn spec_reset(self) -> Timer {
        Timer {
            status: match self.status {
                TimerStatus::Done => TimerStatus::Stopped,
                TimerStatus::Running => TimerStatus::Canceled,
                TimerStatus::Canceled => TimerStatus::Canceled,
                TimerStatus::Stopped => TimerStatus::Stopped,
            },
            iteration: self.iteration.wrapping_add(1),
            ..self
        }
    }

    /// Whether a notification that was asked for in the given iteration is meant
    /// for the timer as it stands now.
    pub open spec fn expects(self, iteration: u32) -> bool {
        self.status is Running && self.iteration == iteration
    }

    /// The timer after a notification. One that is left over from before a reset
    /// is ignored.
    pub open spec fn notified(self, iteration: u32) -> Timer {
        if self.expects(iteration) {
            Timer { status: TimerStatus::Done, ..self }
        } else {
            self
        }
    }

    /// Create a timer of `delay` milliseconds.
    pub fn new(delay: u64) -> (r: Timer)
        ensures
            r == Timer::spec_new(delay),
            r.wf(),
    {
        Timer { delay, handle: None, status: TimerStatus::Stopped, iteration: 0 }
    }

    /// Asks the event loop to notify the timer.
    pub fn register(&self, token: Token, actions: &mut Vec<Action>)
        ensures
            final(actions)@ == old(actions)@.push(self.start_action(token)),
    {
        actions.push(Action::SetTimeout { token, iteration: self.iteration, delay: self.delay });
    }

    /// Asks the event loop to notify the timer, after taking back a request that
    /// was canceled.
    pub fn reregister(&mut self, token: Token, actions: &mut Vec<Action>)
        requires
            old(self).wf(),
        ensures
            *final(self) == old(self).restarting(),
            final(self).wf(),
            final(actions)@ == old(actions)@ + old(self).restart_actions(token),
    {
        if self.status == TimerStatus::Canceled {
            let timeout = self.handle.unwrap();
            actions.push(Action::ClearTimeout { timeout });
            self.status = TimerStatus::Stopped;
        }
        actions.push(Action::SetTimeout { token, iteration: self.iteration, delay: self.delay });
        assert(actions@ =~= old(actions)@ + old(self).restart_actions(token));
    }

    /// Takes back the timeout that the event loop accepted, if there is one.
    pub fn deregister(&mut self, actions: &mut Vec<Action>)
        ensures
            *final(self) == (Timer { handle: None, ..*old(self) }),
            final(actions)@ == old(actions)@ + old(self).stop_actions(),
    {
        if let Some(timeout) = self.handle {
            actions.push(Action::ClearTimeout { timeout });
            self.handle = None;
        }
        assert(actions@ =~= old(actions)@ + old(self).stop_actions());
    }

    /// Takes note of the event loop's answer to a request to start the timer: the
    /// timeout that it accepted, or `None` where it refused.
    pub fn started(&mut self, answer: Option<Timeout>)
        ensures
            *final(self) == old(self).started_with(answer),
            old(self).wf() ==> final(self).wf(),
    {
        if let Some(timeout) = answer {
            self.handle = Some(timeout);
            self.status = TimerStatus::Running;
        }
    }

    /// Takes note that the delay has passed.
    pub fn fired(&mut self)
        ensures
            *final(self) == (Timer { status: TimerStatus::Done, ..*old(self) }),
    {
        self.status = TimerStatus::Done;
    }

    /// Makes the timer ready to be used again. A notification that is still
    /// pending will be ignored.
    pub fn reset(&mut self)
        ensures
            *final(self) == old(self).spec_reset(),
            old(self).wf() ==> final(self).wf(),
    {
        match self.status {
            TimerStatus::Done => {
                self.status = TimerStatus::Stopped;
            },
            TimerStatus::Running => {
                self.status = TimerStatus::Canceled;
            },
            TimerStatus::Canceled => {},
            TimerStatus::Stopped => {},
        }
        self.iteration = self.iteration.wrapping_add(1);
    }
}

/// A new timer has its delay, and nothing has been asked for it yet.
pub proof fn new_timer_has_not_been_started(delay: u64)
    ensures
        ({
            let timer = Timer::spec_new(delay);
            &&& timer.delay == delay
            &&& timer.handle is None
            &&& timer.status == TimerStatus::Stopped
            &&& timer.iteration == 0
        }),
{
}

/// To start a timer, for the first time or again, is to ask for exactly one
/// notification, after its delay and for its current iteration. Before that, a
/// request is taken back if, and only if, the timer was reset while it was running.
pub proof fn timer_is_asked_for_once(timer: Timer, token: Token)
    ensures
        ({
            let start = Action::SetTimeout {
                token,
                iteration: timer.iteration,
                delay: timer.delay,
            };
            let again = timer.restart_actions(token);
            &&& timer.start_action(token) == start
            &&& again.len() == (if timer.status == TimerStatus::Canceled {
                2int
            } else {
                1
            })
            &&& again.last() == start
            &&& timer.status == TimerStatus::Canceled ==> again[0] == (Action::ClearTimeout {
                timeout: timer.handle->0,
            })
        }),
        ({
            let after = timer.restarting();
            &&& after.delay == timer.delay
            &&& after.handle == timer.handle
            &&& after.iteration == timer.iteration
            &&& after.status != TimerStatus::Canceled
            &&& timer.status != TimerStatus::Canceled ==> after.status == timer.status
            &&& timer.status == TimerStatus::Canceled ==> after.status == TimerStatus::Stopped
        }),
{
}

/// A timer runs once the event loop has accepted its timeout, and bears that timeout;
/// a refusal changes nothing.
pub proof fn accepted_timer_runs(timer: Timer, timeout: Timeout)
    ensures
        ({
            let after = timer.started_with(Some(timeout));
            &&& after.status == TimerStatus::Running
            &&& after.handle == Some(timeout)
            &&& after.delay == timer.delay
            &&& after.iteration == timer.iteration
        }),
        timer.started_with(None) == timer,
{
}

/// Whatever the status of a timer, the timeout that the event loop accepted for it is
/// taken back when it is given up, and nothing else is asked.
pub proof fn accepted_timeout_is_taken_back(timer: Timer)
    ensures
        timer.handle matches Some(timeout) ==> {
            &&& timer.stop_actions().len() == 1
            &&& timer.stop_actions()[0] == (Action::ClearTimeout { timeout })
        },
        timer.handle is None ==> timer.stop_actions().len() == 0,
{
}

/// A timer that was reset is neither running nor done, whatever it was before. It
/// has something to take back if, and only if, it was running, or had been reset
/// while it was. It counts one reset more, and keeps its delay and its timeout.
pub proof fn reset_timer_can_be_used_again(timer: Timer)
    ensures
        ({
            let after = timer.spec_reset();
            let was_asked_for = timer.status == TimerStatus::Running || timer.status
                == TimerStatus::Canceled;
            &&& after.status == TimerStatus::Canceled <==> was_asked_for
            &&& after.status == TimerStatus::Stopped <==> !was_asked_for
            &&& after.delay == timer.delay
            &&& after.handle == timer.handle
            &&& timer.iteration < u32::MAX ==> after.iteration == timer.iteration + 1
            &&& timer.iteration == u32::MAX ==> after.iteration == 0
        }),
{
}

/// A notification completes a timer if, and only if, the timer is running and was
/// started in the iteration that the notification is for. Else it changes nothing.
pub proof fn notification_is_for_its_iteration(timer: Timer, iteration: u32)
    ensures
        timer.expects(iteration) <==> timer.status == TimerStatus::Running && timer.iteration
            == iteration,
        ({
            let after = timer.notified(iteration);
            let is_meant = timer.status == TimerStatus::Running && timer.iteration == iteration;
            &&& after.delay == timer.delay
            &&& after.handle == timer.handle
            &&& after.iteration == timer.iteration
            &&& is_meant ==> after.status == TimerStatus::Done
            &&& !is_meant ==> after.status == timer.status
        }),
{
}

} // verus!
