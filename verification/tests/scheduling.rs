use mioco::handle::MiocoHandle;
use mioco::model::Step;
use mioco::source::{Action, Io};
use mioco::{start, EventSet, EventSourceIndex, Mioco, Server, Token, TypedEventSource, RW};

fn set(readable: bool, writable: bool, hup: bool) -> EventSet {
    EventSet { readable, writable, hup }
}

/// A started server, whose first coroutine runs and has wrapped `n` sources.
fn with_sources(n: usize) -> (Mioco, MiocoHandle, Vec<TypedEventSource<u8>>) {
    let (mut mioco, step) = start();
    assert_eq!(step, Step::Resume(0));
    let handle = MiocoHandle::new(0);
    let mut sources = vec![];
    for _ in 0..n {
        sources.push(handle.wrap::<u8>(&mut mioco.server, Io::Raw));
    }
    (mioco, handle, sources)
}

fn resumed(server: &mut Server) -> (Step, Vec<Action>) {
    let mut actions = vec![];
    let step = server.resumed(true, &mut actions);
    (step, actions)
}

fn failed(server: &mut Server) -> (Step, Vec<Action>) {
    let mut actions = vec![];
    let step = server.resumed(false, &mut actions);
    (step, actions)
}

fn ready(server: &mut Server, token: usize, events: EventSet) -> (Step, Vec<Action>) {
    let mut actions = vec![];
    let step = server.ready(Token(token), events, &mut actions);
    (step, actions)
}

#[test]
fn new_server_has_nothing_to_do() {
    let mioco = Mioco::new();
    assert!(!mioco.is_needed());
    assert!(mioco.server.is_idle());
    assert!(!mioco.server.is_waiting());
    assert!(mioco.server.has_room());
    assert!(mioco.server.can_spawn());
    assert_eq!(mioco.server.coroutines_no(), 0);
}

#[test]
fn coroutine_that_returns_at_once_ends_everything() {
    let (mut mioco, step) = start();
    assert_eq!(step, Step::Resume(0));
    assert!(mioco.server.is_running(0) && !mioco.server.is_running(1));
    assert!(mioco.server.is_waiting());
    assert!(mioco.is_needed());
    MiocoHandle::new(0).finish(&mut mioco.server);
    assert!(!mioco.server.is_running(0));
    assert_eq!(
        resumed(&mut mioco.server),
        (Step::Done, vec![Action::Shutdown, Action::Retire { coroutine: 0 }])
    );
    assert!(!mioco.is_needed());
    assert!(mioco.server.is_idle());
}

#[test]
fn coroutine_that_fails_ends_as_well() {
    let (mut mioco, _, _) = with_sources(1);
    assert_eq!(
        failed(&mut mioco.server),
        (
            Step::Done,
            vec![
                Action::Remove { token: Token(0) },
                Action::Shutdown,
                Action::Retire { coroutine: 0 },
            ]
        )
    );
}

#[test]
fn read_is_awaited_and_answered() {
    let (mut mioco, handle, sources) = with_sources(1);
    assert_eq!(sources[0].index().as_usize(), 0);
    assert_eq!(sources[0].token(), Token(0));
    assert!(sources[0].is_held(&mioco.server));
    sources[0].block_on(&mut mioco.server, RW::Read);
    assert_eq!(
        resumed(&mut mioco.server),
        (
            Step::Done,
            vec![Action::Register { token: Token(0), interest: set(true, false, true) }]
        )
    );
    assert_eq!(
        ready(&mut mioco.server, 0, set(true, false, false)),
        (Step::Resume(0), vec![])
    );
    let event = handle.last_event(&mioco.server);
    assert_eq!(event.index(), sources[0].index());
    assert!(event.has_read() && !event.has_write());
    handle.finish(&mut mioco.server);
    assert_eq!(
        resumed(&mut mioco.server),
        (
            Step::Done,
            vec![
                Action::Deregister { token: Token(0) },
                Action::Remove { token: Token(0) },
                Action::Shutdown,
                Action::Retire { coroutine: 0 },
            ]
        )
    );
    assert!(!sources[0].is_held(&mioco.server));
}

#[test]
fn interest_depends_on_what_is_awaited() {
    for (rw, interest) in [
        (RW::Read, set(true, false, true)),
        (RW::Write, set(false, true, true)),
        (RW::Both, set(true, true, true)),
    ] {
        let (mut mioco, _, sources) = with_sources(1);
        sources[0].block_on(&mut mioco.server, rw);
        assert_eq!(
            resumed(&mut mioco.server).1,
            vec![Action::Register { token: Token(0), interest }]
        );
    }
}

#[test]
fn event_kinds_are_told_apart() {
    for (rw, events, read, write) in [
        (RW::Read, set(true, false, false), true, false),
        (RW::Read, set(true, true, false), true, true),
        (RW::Read, set(false, false, true), true, false),
        (RW::Write, set(false, true, false), false, true),
        (RW::Write, set(false, true, true), true, true),
        (RW::Both, set(false, true, false), false, true),
        (RW::Both, set(false, false, true), true, false),
        (RW::Both, set(true, false, false), true, false),
    ] {
        let (mut mioco, handle, sources) = with_sources(1);
        sources[0].block_on(&mut mioco.server, rw);
        resumed(&mut mioco.server);
        assert_eq!(ready(&mut mioco.server, 0, events).0, Step::Resume(0));
        let event = handle.last_event(&mioco.server);
        assert_eq!((event.has_read(), event.has_write()), (read, write));
    }
}

#[test]
fn events_of_other_kinds_are_spurious() {
    for (rw, events) in [
        (RW::Read, set(false, true, false)),
        (RW::Read, set(false, false, false)),
        (RW::Write, set(true, false, false)),
        (RW::Write, set(false, false, true)),
        (RW::Both, set(false, false, false)),
    ] {
        let (mut mioco, _, sources) = with_sources(1);
        sources[0].block_on(&mut mioco.server, rw);
        resumed(&mut mioco.server);
        assert_eq!(ready(&mut mioco.server, 0, events), (Step::Done, vec![]));
        assert!(mioco.server.is_idle());
        // the wait goes on
        assert_eq!(
            ready(&mut mioco.server, 0, set(true, true, false)).0,
            Step::Resume(0)
        );
    }
}

#[test]
fn events_of_other_sources_are_spurious() {
    let (mut mioco, _, sources) = with_sources(2);
    sources[1].block_on(&mut mioco.server, RW::Read);
    assert_eq!(
        resumed(&mut mioco.server).1,
        vec![Action::Register { token: Token(1), interest: set(true, false, true) }]
    );
    assert_eq!(ready(&mut mioco.server, 0, set(true, true, true)), (Step::Done, vec![]));
    assert_eq!(ready(&mut mioco.server, 1, set(true, false, false)).0, Step::Resume(0));
}

#[test]
fn stale_tokens_are_ignored() {
    let (mut mioco, _, sources) = with_sources(1);
    sources[0].block_on(&mut mioco.server, RW::Read);
    resumed(&mut mioco.server);
    for token in [1, 1023, 1024, usize::MAX] {
        assert_eq!(ready(&mut mioco.server, token, set(true, true, true)), (Step::Done, vec![]));
    }
}

#[test]
fn hang_up_is_reported_once() {
    let (mut mioco, _, sources) = with_sources(1);
    sources[0].block_on(&mut mioco.server, RW::Read);
    resumed(&mut mioco.server);
    assert_eq!(ready(&mut mioco.server, 0, set(false, false, true)).0, Step::Resume(0));
    sources[0].block_on(&mut mioco.server, RW::Both);
    assert_eq!(
        resumed(&mut mioco.server).1,
        vec![Action::Reregister { token: Token(0), interest: set(false, true, false) }]
    );
}

#[test]
fn hang_up_is_noted_while_another_source_is_awaited() {
    let (mut mioco, _, sources) = with_sources(2);
    sources[1].block_on(&mut mioco.server, RW::Read);
    resumed(&mut mioco.server);
    assert_eq!(ready(&mut mioco.server, 0, set(false, false, true)), (Step::Done, vec![]));
    assert_eq!(ready(&mut mioco.server, 1, set(true, false, false)).0, Step::Resume(0));
    sources[0].block_on(&mut mioco.server, RW::Read);
    assert_eq!(
        resumed(&mut mioco.server).1,
        vec![Action::Register { token: Token(0), interest: set(false, false, false) }]
    );
}

#[test]
fn source_is_registered_once() {
    let (mut mioco, _, sources) = with_sources(1);
    sources[0].block_on(&mut mioco.server, RW::Read);
    resumed(&mut mioco.server);
    ready(&mut mioco.server, 0, set(true, false, false));
    sources[0].block_on(&mut mioco.server, RW::Write);
    assert_eq!(
        resumed(&mut mioco.server).1,
        vec![Action::Reregister { token: Token(0), interest: set(false, true, true) }]
    );
}

#[test]
fn select_waits_for_all_sources() {
    let (mut mioco, handle, sources) = with_sources(3);
    handle.select(&mut mioco.server);
    let interest = set(true, true, true);
    assert_eq!(
        resumed(&mut mioco.server),
        (
            Step::Done,
            vec![
                Action::Register { token: Token(0), interest },
                Action::Register { token: Token(1), interest },
                Action::Register { token: Token(2), interest },
            ]
        )
    );
    assert_eq!(ready(&mut mioco.server, 2, set(false, true, false)).0, Step::Resume(0));
    assert_eq!(handle.last_event(&mioco.server).index(), sources[2].index());
}

#[test]
fn select_read_and_select_write_wait_for_their_kind() {
    let (mut mioco, handle, _) = with_sources(1);
    handle.select_read(&mut mioco.server);
    assert_eq!(
        resumed(&mut mioco.server).1,
        vec![Action::Register { token: Token(0), interest: set(true, false, true) }]
    );
    let (mut mioco, handle, _) = with_sources(1);
    handle.select_write(&mut mioco.server);
    assert_eq!(
        resumed(&mut mioco.server).1,
        vec![Action::Register { token: Token(0), interest: set(false, true, true) }]
    );
}

#[test]
fn select_from_waits_for_the_named_sources() {
    let (mut mioco, handle, sources) = with_sources(4);
    let named: Vec<EventSourceIndex> = vec![sources[3].index(), sources[1].index()];
    assert!(handle.can_select_from(&mioco.server, &named));
    handle.select_from(&mut mioco.server, &named);
    let interest = set(true, true, true);
    assert_eq!(
        resumed(&mut mioco.server).1,
        vec![
            Action::Register { token: Token(1), interest },
            Action::Register { token: Token(3), interest },
        ]
    );
    assert_eq!(ready(&mut mioco.server, 0, interest), (Step::Done, vec![]));
    assert_eq!(ready(&mut mioco.server, 2, interest), (Step::Done, vec![]));
    assert_eq!(ready(&mut mioco.server, 3, interest).0, Step::Resume(0));
}

#[test]
fn select_from_takes_kinds_apart() {
    let (mut mioco, handle, sources) = with_sources(2);
    handle.select_read_from(&mut mioco.server, &[sources[0].index()]);
    assert_eq!(
        resumed(&mut mioco.server).1,
        vec![Action::Register { token: Token(0), interest: set(true, false, true) }]
    );
    ready(&mut mioco.server, 0, set(true, false, false));
    handle.select_write_from(&mut mioco.server, &[sources[1].index()]);
    assert_eq!(
        resumed(&mut mioco.server).1,
        vec![Action::Register { token: Token(1), interest: set(false, true, true) }]
    );
}

#[test]
fn masks_grow_with_the_number_of_sources() {
    // one, two and three bits: six in all
    let (mioco, handle, sources) = with_sources(3);
    assert!(handle.can_select_from(&mioco.server, &[]));
    assert!(handle.can_select_from(&mioco.server, &[sources[2].index()]));
    let (_, _, others) = with_sources(7);
    assert!(handle.can_select_from(&mioco.server, &[others[5].index()]));
    assert!(!handle.can_select_from(&mioco.server, &[sources[0].index(), others[6].index()]));
}

#[test]
fn sources_that_are_no_longer_awaited_are_not_watched() {
    let (mut mioco, handle, sources) = with_sources(3);
    handle.select_read(&mut mioco.server);
    resumed(&mut mioco.server);
    ready(&mut mioco.server, 1, set(true, false, false));
    // waits for the first one only: the last one is not to be reported any more
    sources[0].block_on(&mut mioco.server, RW::Read);
    assert_eq!(
        resumed(&mut mioco.server).1,
        vec![Action::Reregister { token: Token(2), interest: set(false, false, false) }]
    );
    ready(&mut mioco.server, 0, set(true, false, false));
    handle.select_read(&mut mioco.server);
    let interest = set(true, false, true);
    assert_eq!(
        resumed(&mut mioco.server).1,
        vec![
            Action::Reregister { token: Token(0), interest },
            Action::Reregister { token: Token(1), interest },
            Action::Reregister { token: Token(2), interest },
        ]
    );
}

#[test]
fn sources_that_are_still_awaited_stay_watched() {
    let (mut mioco, handle, _) = with_sources(2);
    handle.select_read(&mut mioco.server);
    resumed(&mut mioco.server);
    ready(&mut mioco.server, 0, set(true, false, false));
    handle.select_read(&mut mioco.server);
    assert_eq!(
        resumed(&mut mioco.server).1,
        vec![Action::Reregister { token: Token(0), interest: set(true, false, true) }]
    );
}

#[test]
fn masks_work_beyond_one_machine_word() {
    let (mut mioco, handle, sources) = with_sources(70);
    handle.select_read_from(&mut mioco.server, &[sources[69].index(), sources[0].index()]);
    let interest = set(true, false, true);
    assert_eq!(
        resumed(&mut mioco.server).1,
        vec![
            Action::Register { token: Token(0), interest },
            Action::Register { token: Token(69), interest },
        ]
    );
    assert_eq!(ready(&mut mioco.server, 68, interest), (Step::Done, vec![]));
    assert_eq!(ready(&mut mioco.server, 69, interest).0, Step::Resume(0));
    assert_eq!(handle.last_event(&mioco.server).index().as_usize(), 69);
}

#[test]
fn attempts_that_would_block_are_repeated() {
    let (mut mioco, _, sources) = with_sources(1);
    let source = &sources[0];
    assert_eq!(
        source.after_read(&mut mioco.server, Ok::<_, u8>(Some(3u32))),
        Some(Ok(3))
    );
    assert_eq!(
        source.after_write(&mut mioco.server, Err::<Option<u32>, u8>(4)),
        Some(Err(4))
    );
    assert_eq!(source.accept(&mut mioco.server, Ok::<_, u8>(Some(5u32))), Some(Ok(5)));
    assert!(mioco.server.is_running(0));
    assert_eq!(source.after_write(&mut mioco.server, Ok::<Option<u32>, u8>(None)), None);
    assert_eq!(
        resumed(&mut mioco.server).1,
        vec![Action::Register { token: Token(0), interest: set(false, true, true) }]
    );
    ready(&mut mioco.server, 0, set(false, true, false));
    assert_eq!(source.after_read(&mut mioco.server, Ok::<Option<u32>, u8>(None)), None);
    assert_eq!(
        resumed(&mut mioco.server).1,
        vec![Action::Reregister { token: Token(0), interest: set(true, false, true) }]
    );
    ready(&mut mioco.server, 0, set(true, false, false));
    assert_eq!(source.accept(&mut mioco.server, Ok::<Option<u32>, u8>(None)), None);
    assert_eq!(
        resumed(&mut mioco.server).1,
        vec![Action::Reregister { token: Token(0), interest: set(true, false, true) }]
    );
}

#[test]
fn clone_names_the_same_source() {
    let (mut mioco, _, sources) = with_sources(2);
    let copy = sources[1].clone();
    assert_eq!(copy.token(), Token(1));
    assert_eq!(copy.index(), sources[1].index());
    copy.block_on(&mut mioco.server, RW::Read);
    assert_eq!(
        resumed(&mut mioco.server).1,
        vec![Action::Register { token: Token(1), interest: set(true, false, true) }]
    );
}

#[test]
fn attempts_that_gave_a_result_need_no_coroutine() {
    let (mut mioco, handle, sources) = with_sources(1);
    handle.finish(&mut mioco.server);
    resumed(&mut mioco.server);
    let source = &sources[0];
    assert!(!source.is_held(&mioco.server));
    assert!(!source.can_wait(&mioco.server));
    assert_eq!(source.accept(&mut mioco.server, Ok::<_, u8>(Some(1u32))), Some(Ok(1)));
    assert_eq!(
        source.after_read(&mut mioco.server, Err::<Option<u32>, u8>(2)),
        Some(Err(2))
    );
    assert_eq!(source.after_write(&mut mioco.server, Ok::<_, u8>(Some(3u32))), Some(Ok(3)));
    assert!(mioco.server.is_idle());
}

#[test]
fn wait_ends_with_what_was_waited_for_whatever_happens_meanwhile() {
    let (mut mioco, handle, sources) = with_sources(3);
    handle.select_write_from(&mut mioco.server, &[sources[0].index(), sources[2].index()]);
    resumed(&mut mioco.server);
    for (token, events) in [
        (1, set(true, true, true)),
        (0, set(true, false, true)),
        (2, set(true, false, false)),
        (7, set(true, true, true)),
    ] {
        assert_eq!(ready(&mut mioco.server, token, events), (Step::Done, vec![]));
    }
    assert_eq!(ready(&mut mioco.server, 2, set(false, true, false)).0, Step::Resume(0));
    let event = handle.last_event(&mioco.server);
    assert_eq!(event.index(), sources[2].index());
    assert!(event.has_write() && !event.has_read());
}
