use mioco::handle::MiocoHandle;
use mioco::model::Step;
use mioco::source::{Action, Io};
use mioco::{start, EventSet, Mioco, Server, Token, TypedEventSource, RW};

fn word(server: &mut Server, ok: bool) -> (Step, Vec<Action>) {
    let mut actions = vec![];
    let step = server.resumed(ok, &mut actions);
    (step, actions)
}

fn readable(server: &mut Server, token: usize) -> (Step, Vec<Action>) {
    let mut actions = vec![];
    let step = server.ready(Token(token), EventSet::readable(), &mut actions);
    (step, actions)
}

fn wrap(mioco: &mut Mioco, id: u64) -> TypedEventSource<u8> {
    MiocoHandle::new(id).wrap::<u8>(&mut mioco.server, Io::Raw)
}

fn register(token: usize) -> Action {
    let interest = EventSet::readable().union(EventSet::hup());
    Action::Register { token: Token(token), interest }
}

#[test]
fn children_are_started_in_order_after_their_parent_blocked() {
    let (mut mioco, _) = start();
    let parent = MiocoHandle::new(0);
    let source = wrap(&mut mioco, 0);
    assert_eq!(parent.spawn(&mut mioco.server), 1);
    assert_eq!(parent.spawn(&mut mioco.server), 2);
    assert_eq!(mioco.server.coroutines_no(), 3);
    source.block_on(&mut mioco.server, RW::Read);

    assert_eq!(word(&mut mioco.server, true), (Step::Resume(1), vec![]));
    assert!(mioco.server.is_running(1) && !mioco.server.is_running(0));
    wrap(&mut mioco, 1).block_on(&mut mioco.server, RW::Read);
    assert_eq!(word(&mut mioco.server, true), (Step::Resume(2), vec![register(1)]));
    wrap(&mut mioco, 2).block_on(&mut mioco.server, RW::Read);
    // the last child, and then the parent itself
    assert_eq!(
        word(&mut mioco.server, true),
        (Step::Done, vec![register(2), register(0)])
    );
    assert_eq!(readable(&mut mioco.server, 1).0, Step::Resume(1));
}

#[test]
fn event_loop_runs_until_the_last_coroutine_ends() {
    let (mut mioco, _) = start();
    let parent = MiocoHandle::new(0);
    assert_eq!(parent.spawn(&mut mioco.server), 1);
    parent.finish(&mut mioco.server);
    assert_eq!(word(&mut mioco.server, true), (Step::Resume(1), vec![]));
    wrap(&mut mioco, 1).block_on(&mut mioco.server, RW::Read);
    assert_eq!(
        word(&mut mioco.server, true),
        (Step::Done, vec![register(0), Action::Retire { coroutine: 0 }])
    );
    assert!(mioco.is_needed());
    assert_eq!(readable(&mut mioco.server, 0).0, Step::Resume(1));
    MiocoHandle::new(1).finish(&mut mioco.server);
    assert_eq!(
        word(&mut mioco.server, true),
        (
            Step::Done,
            vec![
                Action::Deregister { token: Token(0) },
                Action::Remove { token: Token(0) },
                Action::Shutdown,
                Action::Retire { coroutine: 1 },
            ]
        )
    );
    assert!(!mioco.is_needed());
}

#[test]
fn child_can_end_before_its_parent() {
    let (mut mioco, _) = start();
    let parent = MiocoHandle::new(0);
    let source = wrap(&mut mioco, 0);
    parent.spawn(&mut mioco.server);
    source.block_on(&mut mioco.server, RW::Read);
    word(&mut mioco.server, true);
    MiocoHandle::new(1).finish(&mut mioco.server);
    assert_eq!(
        word(&mut mioco.server, true),
        (Step::Done, vec![Action::Retire { coroutine: 1 }, register(0)])
    );
    assert_eq!(mioco.server.coroutines_no(), 1);
}

#[test]
fn child_and_parent_can_end_together() {
    let (mut mioco, _) = start();
    let parent = MiocoHandle::new(0);
    parent.spawn(&mut mioco.server);
    parent.finish(&mut mioco.server);
    word(&mut mioco.server, true);
    MiocoHandle::new(1).finish(&mut mioco.server);
    assert_eq!(
        word(&mut mioco.server, true),
        (
            Step::Done,
            vec![
                Action::Retire { coroutine: 1 },
                Action::Shutdown,
                Action::Retire { coroutine: 0 },
            ]
        )
    );
}

#[test]
fn child_that_fails_at_once_is_counted_out() {
    let (mut mioco, _) = start();
    let parent = MiocoHandle::new(0);
    let source = wrap(&mut mioco, 0);
    parent.spawn(&mut mioco.server);
    source.block_on(&mut mioco.server, RW::Read);
    word(&mut mioco.server, true);
    assert_eq!(
        word(&mut mioco.server, false),
        (Step::Done, vec![Action::Retire { coroutine: 1 }, register(0)])
    );
    assert_eq!(mioco.server.coroutines_no(), 1);
}

#[test]
fn sources_of_a_child_that_failed_keep_their_tokens() {
    let (mut mioco, _) = start();
    let parent = MiocoHandle::new(0);
    let source = wrap(&mut mioco, 0);
    parent.spawn(&mut mioco.server);
    parent.spawn(&mut mioco.server);
    source.block_on(&mut mioco.server, RW::Read);
    word(&mut mioco.server, true);
    let left = wrap(&mut mioco, 1);
    assert_eq!(left.token(), Token(1));
    assert_eq!(word(&mut mioco.server, false), (Step::Resume(2), vec![]));
    assert_eq!(mioco.server.coroutines_no(), 2);
    assert!(left.is_held(&mioco.server));
    let other = wrap(&mut mioco, 2);
    assert_eq!(other.token(), Token(2));
    other.block_on(&mut mioco.server, RW::Read);
    assert_eq!(
        word(&mut mioco.server, true),
        (Step::Done, vec![register(2), register(0)])
    );
    // an event on such a source drops it, and counts no one out
    assert_eq!(
        readable(&mut mioco.server, 1),
        (
            Step::Done,
            vec![Action::Remove { token: Token(1) }, Action::Retire { coroutine: 1 }]
        )
    );
    assert!(!left.is_held(&mioco.server));
    assert_eq!(mioco.server.coroutines_no(), 2);
    assert_eq!(readable(&mut mioco.server, 1), (Step::Done, vec![]));
    assert_eq!(readable(&mut mioco.server, 2).0, Step::Resume(2));
    assert_eq!(wrap(&mut mioco, 2).token(), Token(1));
}

#[test]
fn event_loop_goes_on_when_a_child_that_failed_is_dropped() {
    let (mut mioco, _) = start();
    let parent = MiocoHandle::new(0);
    let source = wrap(&mut mioco, 0);
    parent.spawn(&mut mioco.server);
    source.block_on(&mut mioco.server, RW::Read);
    word(&mut mioco.server, true);
    wrap(&mut mioco, 1);
    assert_eq!(word(&mut mioco.server, false), (Step::Done, vec![register(0)]));
    assert_eq!(mioco.server.coroutines_no(), 1);
    let (_, actions) = readable(&mut mioco.server, 1);
    assert!(!actions.contains(&Action::Shutdown));
    assert!(mioco.is_needed());
    assert_eq!(readable(&mut mioco.server, 0).0, Step::Resume(0));
    parent.finish(&mut mioco.server);
    assert!(word(&mut mioco.server, true).1.contains(&Action::Shutdown));
    assert!(!mioco.is_needed());
}

#[test]
fn grandchildren_are_started_at_once() {
    let (mut mioco, _) = start();
    let parent = MiocoHandle::new(0);
    parent.spawn(&mut mioco.server);
    parent.finish(&mut mioco.server);
    assert_eq!(word(&mut mioco.server, true).0, Step::Resume(1));
    let child = MiocoHandle::new(1);
    assert_eq!(child.spawn(&mut mioco.server), 2);
    wrap(&mut mioco, 1).block_on(&mut mioco.server, RW::Read);
    assert_eq!(word(&mut mioco.server, true), (Step::Resume(2), vec![register(0)]));
    assert!(mioco.server.is_running(2));
    MiocoHandle::new(2).finish(&mut mioco.server);
    assert_eq!(
        word(&mut mioco.server, true),
        (
            Step::Done,
            vec![Action::Retire { coroutine: 2 }, Action::Retire { coroutine: 0 }]
        )
    );
    assert_eq!(readable(&mut mioco.server, 0).0, Step::Resume(1));
}

#[test]
fn grandchildren_of_a_child_that_ends_at_once_are_started() {
    let (mut mioco, _) = start();
    let parent = MiocoHandle::new(0);
    parent.spawn(&mut mioco.server);
    parent.finish(&mut mioco.server);
    assert_eq!(word(&mut mioco.server, true), (Step::Resume(1), vec![]));
    let child = MiocoHandle::new(1);
    assert_eq!(child.spawn(&mut mioco.server), 2);
    child.finish(&mut mioco.server);
    assert_eq!(
        word(&mut mioco.server, true),
        (Step::Resume(2), vec![Action::Retire { coroutine: 1 }])
    );
    assert!(mioco.server.is_running(2));
    MiocoHandle::new(2).finish(&mut mioco.server);
    assert_eq!(
        word(&mut mioco.server, true),
        (
            Step::Done,
            vec![
                Action::Retire { coroutine: 2 },
                Action::Shutdown,
                Action::Retire { coroutine: 0 },
            ]
        )
    );
    assert_eq!(mioco.server.coroutines_no(), 0);
    assert!(!mioco.is_needed());
}

#[test]
fn grandchildren_of_a_child_that_fails_are_started() {
    let (mut mioco, _) = start();
    let parent = MiocoHandle::new(0);
    parent.spawn(&mut mioco.server);
    parent.finish(&mut mioco.server);
    word(&mut mioco.server, true);
    MiocoHandle::new(1).spawn(&mut mioco.server);
    assert_eq!(
        word(&mut mioco.server, false),
        (Step::Resume(2), vec![Action::Retire { coroutine: 1 }])
    );
    MiocoHandle::new(2).finish(&mut mioco.server);
    word(&mut mioco.server, true);
    assert!(!mioco.is_needed());
}

#[test]
fn grandchildren_come_before_the_other_children() {
    let (mut mioco, _) = start();
    let parent = MiocoHandle::new(0);
    parent.spawn(&mut mioco.server);
    parent.spawn(&mut mioco.server);
    parent.finish(&mut mioco.server);
    assert_eq!(word(&mut mioco.server, true).0, Step::Resume(1));
    assert_eq!(MiocoHandle::new(1).spawn(&mut mioco.server), 3);
    assert_eq!(MiocoHandle::new(1).spawn(&mut mioco.server), 4);
    MiocoHandle::new(1).finish(&mut mioco.server);
    for id in [3, 4, 2] {
        assert_eq!(word(&mut mioco.server, true).0, Step::Resume(id));
        MiocoHandle::new(id).finish(&mut mioco.server);
    }
    let (step, actions) = word(&mut mioco.server, true);
    assert_eq!(step, Step::Done);
    assert!(actions.contains(&Action::Shutdown));
    assert!(!mioco.is_needed());
}

#[test]
fn children_of_a_coroutine_that_fails_are_started() {
    let (mut mioco, _) = start();
    MiocoHandle::new(0).spawn(&mut mioco.server);
    assert_eq!(word(&mut mioco.server, false), (Step::Resume(1), vec![]));
    MiocoHandle::new(1).finish(&mut mioco.server);
    assert_eq!(word(&mut mioco.server, true).1.last(), Some(&Action::Retire { coroutine: 0 }));
    assert_eq!(mioco.server.coroutines_no(), 0);
}

#[test]
fn tokens_of_a_coroutine_that_ended_are_given_out_first() {
    let (mut mioco, _) = start();
    let parent = MiocoHandle::new(0);
    let source = wrap(&mut mioco, 0);
    parent.spawn(&mut mioco.server);
    source.block_on(&mut mioco.server, RW::Read);
    word(&mut mioco.server, true);
    assert_eq!(wrap(&mut mioco, 1).token(), Token(1));
    assert_eq!(wrap(&mut mioco, 1).token(), Token(2));
    MiocoHandle::new(1).finish(&mut mioco.server);
    assert_eq!(
        word(&mut mioco.server, true),
        (
            Step::Done,
            vec![
                Action::Remove { token: Token(1) },
                Action::Remove { token: Token(2) },
                Action::Retire { coroutine: 1 },
                register(0),
            ]
        )
    );
    readable(&mut mioco.server, 0);
    assert_eq!(wrap(&mut mioco, 0).token(), Token(2));
    assert_eq!(wrap(&mut mioco, 0).token(), Token(1));
    assert_eq!(wrap(&mut mioco, 0).token(), Token(3));
}

#[test]
fn server_runs_out_of_tokens() {
    let (mut mioco, _) = start();
    for n in 0..1024 {
        assert!(mioco.server.has_room());
        let source = wrap(&mut mioco, 0);
        assert_eq!(source.token(), Token(n));
        assert_eq!(source.index().as_usize(), n);
    }
    assert!(!mioco.server.has_room());
    MiocoHandle::new(0).select_read(&mut mioco.server);
    let (step, actions) = word(&mut mioco.server, true);
    assert_eq!(step, Step::Done);
    assert_eq!(actions.len(), 1024);
    assert_eq!(actions[1023], register(1023));
    assert_eq!(readable(&mut mioco.server, 1023).0, Step::Resume(0));
    assert_eq!(MiocoHandle::new(0).last_event(&mioco.server).index().as_usize(), 1023);
}

#[test]
fn server_can_be_started_again() {
    let mut mioco = Mioco::new();
    assert_eq!(mioco.start(), Step::Resume(0));
    MiocoHandle::new(0).finish(&mut mioco.server);
    word(&mut mioco.server, true);
    assert_eq!(mioco.start(), Step::Resume(1));
    assert!(mioco.server.is_running(1));
    assert_eq!(mioco.server.coroutines_no(), 1);
}
