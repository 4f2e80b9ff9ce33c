use mioco::handle::MiocoHandle;
use mioco::mailbox;
use mioco::mailbox::MailboxShared;
use mioco::model::Step;
use mioco::source::{Action, Io};
use mioco::{start, EventSet, Token};

#[test]
fn messages_come_out_in_the_order_of_sending() {
    let mut shared: MailboxShared<u32> = mailbox();
    assert!(shared.is_empty());
    assert_eq!(shared.recv(), None);
    shared.send(1);
    assert!(!shared.is_empty());
    shared.send(2);
    assert_eq!(shared.recv(), Some(1));
    shared.send(3);
    assert_eq!(shared.recv(), Some(2));
    assert_eq!(shared.recv(), Some(3));
    assert_eq!(shared.recv(), None);
}

#[test]
fn nobody_is_notified_before_someone_waits() {
    let mut shared: MailboxShared<u32> = mailbox();
    assert_eq!(shared.send(1), None);
    assert_eq!(shared.register(Token(5), EventSet::writable()), None);
    assert_eq!(shared.send(2), None);
}

#[test]
fn waiting_receiver_is_notified_of_each_message() {
    let mut shared: MailboxShared<u32> = mailbox();
    assert_eq!(shared.register(Token(5), EventSet::readable()), None);
    assert_eq!(shared.send(1), Some(Token(5)));
    assert_eq!(shared.send(2), Some(Token(5)));
    assert_eq!(shared.recv(), Some(1));
    assert_eq!(shared.send(3), Some(Token(5)));
    shared.deregister();
    assert_eq!(shared.send(4), None);
}

#[test]
fn receiver_hears_of_mail_that_is_there_already() {
    let mut shared: MailboxShared<u32> = mailbox();
    shared.send(1);
    assert_eq!(shared.register(Token(7), EventSet::readable()), Some(Token(7)));
    // the request has been met, so that the next message is not announced
    assert_eq!(shared.send(2), None);
    assert_eq!(shared.reregister(Token(7), EventSet::none()), None);
    assert_eq!(shared.reregister(Token(7), EventSet::readable()), Some(Token(7)));
    assert_eq!(shared.recv(), Some(1));
    assert_eq!(shared.recv(), Some(2));
    assert_eq!(shared.reregister(Token(7), EventSet::readable()), None);
    assert_eq!(shared.send(3), Some(Token(7)));
}

#[test]
fn empty_mailbox_blocks_the_receiver_until_it_is_notified() {
    let mut shared: MailboxShared<u32> = mailbox();
    let (mut mioco, step) = start();
    assert_eq!(step, Step::Resume(0));
    let handle = MiocoHandle::new(0);
    let source = handle.wrap::<MailboxShared<u32>>(&mut mioco.server, Io::Raw);
    assert_eq!(source.recv(&mut mioco.server, &mut shared), None);
    let mut actions = vec![];
    assert_eq!(mioco.server.resumed(true, &mut actions), Step::Done);
    let interest = EventSet::readable().union(EventSet::hup());
    assert_eq!(actions, vec![Action::Register { token: source.token(), interest }]);
    assert_eq!(shared.register(source.token(), interest), None);

    let notify = shared.send(17).unwrap();
    let mut actions = vec![];
    assert_eq!(mioco.server.notify(notify, &mut actions), Step::Resume(0));
    assert_eq!(actions, vec![]);
    assert_eq!(source.recv(&mut mioco.server, &mut shared), Some(17));
    assert!(mioco.server.is_running(0));
}
