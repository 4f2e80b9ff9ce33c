use mioco::handle::{MiocoHandle, TimerError};
use mioco::model::Step;
use mioco::source::Action;
use mioco::timer::{Timeout, TimerStatus};
use mioco::{start, Mioco, Timer, Token, TypedEventSource, RW};

/// A coroutine that waits for a timer of 50 ms, which the event loop has accepted.
fn waiting_for_timer() -> (Mioco, MiocoHandle, TypedEventSource<Timer>) {
    let (mut mioco, _) = start();
    let handle = MiocoHandle::new(0);
    let timer = handle.timeout(&mut mioco.server, 50);
    handle.select_read_from(&mut mioco.server, &[timer.index()]);
    let mut actions = vec![];
    assert_eq!(mioco.server.resumed(true, &mut actions), Step::Done);
    assert_eq!(
        actions,
        vec![Action::SetTimeout { token: Token(0), iteration: 0, delay: 50 }]
    );
    mioco.server.timer_started(Token(0), Some(Timeout(7)));
    (mioco, handle, timer)
}

#[test]
fn timer_starts_out_stopped() {
    let timer = Timer::new(20);
    assert_eq!(timer.delay, 20);
    assert_eq!(timer.handle, None);
    assert_eq!(timer.status, TimerStatus::Stopped);
    assert_eq!(timer.iteration, 0);
}

#[test]
fn reset_depends_on_the_status() {
    for (before, after) in [
        (TimerStatus::Done, TimerStatus::Stopped),
        (TimerStatus::Running, TimerStatus::Canceled),
        (TimerStatus::Canceled, TimerStatus::Canceled),
        (TimerStatus::Stopped, TimerStatus::Stopped),
    ] {
        let mut timer =
            Timer { delay: 3, handle: Some(Timeout(1)), status: before, iteration: u32::MAX };
        timer.reset();
        assert_eq!(timer.status, after);
        assert_eq!(timer.iteration, 0);
        assert_eq!(timer.handle, Some(Timeout(1)));
    }
}

#[test]
fn sleep_ends_with_its_timeout() {
    let (mut mioco, _) = start();
    let handle = MiocoHandle::new(0);
    handle.sleep(&mut mioco.server, 1000);
    let mut actions = vec![];
    assert_eq!(mioco.server.resumed(true, &mut actions), Step::Done);
    assert_eq!(
        actions,
        vec![Action::SetTimeout { token: Token(0), iteration: 0, delay: 1000 }]
    );
    mioco.server.timer_started(Token(0), Some(Timeout(3)));
    let mut actions = vec![];
    assert_eq!(mioco.server.timeout(Token(0), 0, &mut actions), Step::Resume(0));
    assert_eq!(actions, vec![]);
    let event = handle.last_event(&mioco.server);
    assert_eq!(event.index().as_usize(), 0);
    assert!(event.has_read() && !event.has_write());
}

#[test]
fn timer_that_was_not_registered_cannot_be_read() {
    let (mut mioco, _) = start();
    let handle = MiocoHandle::new(0);
    let timer = handle.timeout(&mut mioco.server, 50);
    assert_eq!(timer.read(&mut mioco.server), Some(Err(TimerError::NotRegistered)));
    assert_eq!(TimerError::NotRegistered.message(), "Timer has not been registered");
    assert!(mioco.server.is_running(0));
}

#[test]
fn timer_that_the_event_loop_refused_cannot_be_read() {
    let (mut mioco, _) = start();
    let handle = MiocoHandle::new(0);
    let timer = handle.timeout(&mut mioco.server, 50);
    let other = handle.timeout(&mut mioco.server, 60);
    handle.select_read(&mut mioco.server);
    let mut actions = vec![];
    mioco.server.resumed(true, &mut actions);
    assert_eq!(actions.len(), 2);
    mioco.server.timer_started(timer.token(), None);
    mioco.server.timer_started(other.token(), Some(Timeout(1)));
    assert_eq!(mioco.server.timeout(other.token(), 0, &mut vec![]), Step::Resume(0));
    assert_eq!(timer.read(&mut mioco.server), Some(Err(TimerError::NotRegistered)));
    assert_eq!(other.read(&mut mioco.server), Some(Ok(())));
}

#[test]
fn running_timer_blocks_until_it_is_done() {
    let (mut mioco, _) = start();
    let handle = MiocoHandle::new(0);
    let first = handle.timeout(&mut mioco.server, 10);
    let second = handle.timeout(&mut mioco.server, 20);
    handle.select(&mut mioco.server);
    mioco.server.resumed(true, &mut vec![]);
    mioco.server.timer_started(first.token(), Some(Timeout(1)));
    mioco.server.timer_started(second.token(), Some(Timeout(2)));
    assert_eq!(mioco.server.timeout(first.token(), 0, &mut vec![]), Step::Resume(0));
    assert_eq!(first.read(&mut mioco.server), Some(Ok(())));
    // the second one has not fired yet: to read it is to wait for it
    assert_eq!(second.read(&mut mioco.server), None);
    let mut actions = vec![];
    assert_eq!(mioco.server.resumed(true, &mut actions), Step::Done);
    assert_eq!(actions, vec![]);
    assert_eq!(mioco.server.timeout(second.token(), 0, &mut vec![]), Step::Resume(0));
    assert_eq!(handle.last_event(&mioco.server).index(), second.index());
    assert_eq!(second.read(&mut mioco.server), Some(Ok(())));
}

#[test]
fn pending_notification_is_ignored_after_a_reset() {
    let (mut mioco, _, timer) = waiting_for_timer();
    timer.reset(&mut mioco.server);
    let mut actions = vec![];
    assert_eq!(mioco.server.timeout(Token(0), 0, &mut actions), Step::Done);
    assert_eq!(actions, vec![]);
    // it is neither done nor running
    assert_eq!(timer.read(&mut mioco.server), Some(Err(TimerError::NotRegistered)));
}

#[test]
fn notification_of_another_iteration_is_ignored() {
    let (mut mioco, _, _) = waiting_for_timer();
    let mut actions = vec![];
    assert_eq!(mioco.server.timeout(Token(0), 1, &mut actions), Step::Done);
    assert_eq!(actions, vec![]);
    assert_eq!(mioco.server.timeout(Token(0), 0, &mut actions), Step::Resume(0));
}

#[test]
fn timer_that_was_reset_starts_anew() {
    let (mut mioco, handle, timer) = waiting_for_timer();
    assert_eq!(mioco.server.timeout(Token(0), 0, &mut vec![]), Step::Resume(0));
    assert_eq!(timer.read(&mut mioco.server), Some(Ok(())));
    timer.reset(&mut mioco.server);
    handle.select_read_from(&mut mioco.server, &[timer.index()]);
    let mut actions = vec![];
    assert_eq!(mioco.server.resumed(true, &mut actions), Step::Done);
    assert_eq!(
        actions,
        vec![Action::SetTimeout { token: Token(0), iteration: 1, delay: 50 }]
    );
    mioco.server.timer_started(Token(0), Some(Timeout(8)));
    // a late notification of the first round
    assert_eq!(mioco.server.timeout(Token(0), 0, &mut vec![]), Step::Done);
    assert_eq!(mioco.server.timeout(Token(0), 1, &mut vec![]), Step::Resume(0));
}

#[test]
fn running_timer_that_was_reset_is_taken_back_first() {
    let (mut mioco, _) = start();
    let handle = MiocoHandle::new(0);
    let first = handle.timeout(&mut mioco.server, 10);
    let second = handle.timeout(&mut mioco.server, 20);
    handle.select(&mut mioco.server);
    mioco.server.resumed(true, &mut vec![]);
    mioco.server.timer_started(first.token(), Some(Timeout(1)));
    mioco.server.timer_started(second.token(), Some(Timeout(2)));
    mioco.server.timeout(first.token(), 0, &mut vec![]);
    second.reset(&mut mioco.server);
    handle.select_read_from(&mut mioco.server, &[first.index()]);
    let mut actions = vec![];
    assert_eq!(mioco.server.resumed(true, &mut actions), Step::Done);
    assert_eq!(
        actions,
        vec![
            Action::SetTimeout { token: first.token(), iteration: 0, delay: 10 },
            Action::ClearTimeout { timeout: Timeout(2) },
            Action::SetTimeout { token: second.token(), iteration: 1, delay: 20 },
        ]
    );
}

#[test]
fn timeout_is_cleared_when_its_coroutine_ends() {
    let (mut mioco, handle, timer) = waiting_for_timer();
    mioco.server.timeout(Token(0), 0, &mut vec![]);
    handle.finish(&mut mioco.server);
    let mut actions = vec![];
    assert_eq!(mioco.server.resumed(true, &mut actions), Step::Done);
    assert_eq!(
        actions,
        vec![
            Action::ClearTimeout { timeout: Timeout(7) },
            Action::Remove { token: Token(0) },
            Action::Shutdown,
            Action::Retire { coroutine: 0 },
        ]
    );
    assert!(!timer.is_held(&mioco.server));
    // a notification that comes too late finds no timer
    assert_eq!(mioco.server.timeout(Token(0), 0, &mut vec![]), Step::Done);
}

#[test]
fn timeouts_are_for_timers() {
    let (mut mioco, _) = start();
    let handle = MiocoHandle::new(0);
    let raw = handle.wrap::<u8>(&mut mioco.server, mioco::source::Io::Raw);
    let timer = handle.timeout(&mut mioco.server, 5);
    assert!(!mioco.server.expects_timeout(raw.token()));
    assert!(mioco.server.expects_timeout(timer.token()));
    assert!(mioco.server.expects_timeout(Token(77)));
    assert!(mioco.server.expects_timeout(Token(1_000_000)));
    // an answer for a source that is no timer changes nothing
    mioco.server.timer_started(raw.token(), Some(Timeout(1)));
    mioco.server.timer_started(Token(77), Some(Timeout(1)));
    assert_eq!(timer.read(&mut mioco.server), Some(Err(TimerError::NotRegistered)));
}

#[test]
fn notification_resumes_only_who_waits_for_the_timer() {
    let (mut mioco, _) = start();
    let handle = MiocoHandle::new(0);
    let first = handle.timeout(&mut mioco.server, 10);
    let second = handle.timeout(&mut mioco.server, 20);
    handle.select(&mut mioco.server);
    mioco.server.resumed(true, &mut vec![]);
    mioco.server.timer_started(first.token(), Some(Timeout(1)));
    mioco.server.timer_started(second.token(), Some(Timeout(2)));
    mioco.server.timeout(first.token(), 0, &mut vec![]);
    // waits for the first one again, to write: its notification ends no such wait
    first.reset(&mut mioco.server);
    first.block_on(&mut mioco.server, RW::Write);
    mioco.server.resumed(true, &mut vec![]);
    mioco.server.timer_started(first.token(), Some(Timeout(3)));
    assert_eq!(mioco.server.timeout(second.token(), 0, &mut vec![]), Step::Done);
    assert_eq!(mioco.server.timeout(first.token(), 1, &mut vec![]), Step::Done);
}
