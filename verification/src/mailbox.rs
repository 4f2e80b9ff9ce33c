//! Mailboxes: queues through which messages reach a coroutine from outside.
use crate::event::{EventSet, Token, RW};
use crate::source::EventSourceShared;
use std::collections::VecDeque;
use vstd::prelude::*;

verus! {

/// What a mailbox is, mathematically.
#[verifier::ext_equal]
pub struct MailboxView<T> {
    /// How the event loop knows the receiving end
    pub token: Option<Token>,
    /// The messages that have been sent and not been received, oldest first
    pub queue: Seq<T>,
    /// What the receiving end is waiting for
    pub interest: EventSet,
}

impl<T> MailboxView<T> {
    /// A mailbox that nothing was sent to and that nobody receives from.
    pub open spec fn initial() -> MailboxView<T> {
        MailboxView { token: None, queue: Seq::empty(), interest: EventSet::spec_none() }
    }

    /// The mailbox after a message was sent.
    pub open spec fn sent(self, message: T) -> MailboxView<T> {
        MailboxView { queue: self.queue.push(message), ..self }
    }

    /// Whom to notify of a message: the receiving end, if it waits for one.
    pub open spec fn to_notify(self) -> Option<Token> {
        if self.interest.readable {
            self.token
        } else {
            None
        }
    }

    /// The message that is received next.
    pub open spec fn next(self) -> Option<T> {
        if self.queue.len() > 0 {
            Some(self.queue[0])
        } else {
            None
        }
    }

    /// The mailbox after that message was received.
    pub open spec fn received(self) -> MailboxView<T> {
        if self.queue.len() > 0 {
            MailboxView { queue: self.queue.skip(1), ..self }
        } else {
            self
        }
    }

    /// Whether a message is there for someone who now asks for `interest`.
    pub open spec fn has_mail(self, interest: EventSet) -> bool {
        interest.readable && self.queue.len() > 0
    }

    /// The mailbox after the receiving end asked for `interest`. Where a message
    /// is there already, the request is met at once.
    pub open spec fn watched(self, interest: EventSet) -> MailboxView<T> {
        MailboxView {
            interest: if self.has_mail(interest) {
                EventSet::spec_none()
            } else {
                interest
            },
            ..self
        }
    }
}

/// A mailbox, which the sending ends and the receiving end share.
pub struct MailboxShared<T> {
    /// Token, put here when the receiving end is first registered
    token: Option<Token>,
    inn: VecDeque<T>,
    interest: EventSet,
}

impl<T> View for MailboxShared<T> {
    type V = MailboxView<T>;

    closed spec fn view(&self) -> MailboxView<T> {
        MailboxView { token: self.token, queue: self.inn@, interest: self.interest }
    }
}

/// Create a Mailbox
///
/// Mailbox can be used to deliver notifications to handlers from different threads
pub fn mailbox<T>() -> (r: MailboxShared<T>)
    ensures
        r@ == MailboxView::<T>::initial(),
{
    MailboxShared { token: None, inn: VecDeque::new(), interest: EventSet::none() }
}

impl<T> MailboxShared<T> {
    /// Non-blocking send
    ///
    /// Puts `t` last in the queue, and tells whom to notify of it.
    pub fn send(&mut self, t: T) -> (notify: Option<Token>)
        ensures
            final(self)@ == old(self)@.sent(t),
            notify == old(self)@.to_notify(),
            final(self)@.queue == old(self)@.queue.push(t),
            notify is Some <==> old(self)@.interest.readable && old(self)@.token is Some,
            notify is Some ==> notify == old(self)@.token,
    {
        self.inn.push_back(t);
        if self.interest.is_readable() {
            self.token
        } else {
            None
        }
    }

    /// Whether there is no message.
    pub fn is_empty(&self) -> (r: bool)
        ensures
            r == (self@.next() is None),
    {
        self.inn.len() == 0
    }

    /// Takes the message that was sent first, if there is one.
    pub fn recv(&mut self) -> (t: Option<T>)
        ensures
            final(self)@ == old(self)@.received(),
            t == old(self)@.next(),
            t is Some <==> old(self)@.queue.len() > 0,
            t matches Some(first) ==> old(self)@.queue == seq![first] + final(self)@.queue,
    {
        let t = self.inn.pop_front();
        assert(self@ =~= old(self)@.received());
        proof {
            if t is Some {
                assert(old(self)@.queue =~= seq![t->0] + self@.queue);
            }
        }
        t
    }

    /// Registers the receiving end, and tells whom to notify because a message is
    /// there already.
    pub fn register(&mut self, token: Token, interest: EventSet) -> (notify: Option<Token>)
        ensures
            final(self)@ == (MailboxView { token: Some(token), ..old(self)@ }).watched(interest),
            final(self)@.queue == old(self)@.queue,
            final(self)@.token == Some(token),
            notify is Some <==> interest.readable && old(self)@.queue.len() > 0,
            notify == (if old(self)@.has_mail(interest) {
                Some(token)
            } else {
                None
            }),
    {
        self.token = Some(token);
        self.reregister(token, interest)
    }

    /// Changes what the receiving end waits for, and tells whom to notify because
    /// a message is there already.
    pub fn reregister(&mut self, token: Token, interest: EventSet) -> (notify: Option<Token>)
        ensures
            final(self)@ == old(self)@.watched(interest),
            final(self)@.queue == old(self)@.queue,
            final(self)@.token == old(self)@.token,
            notify is Some <==> interest.readable && old(self)@.queue.len() > 0,
            notify == (if old(self)@.has_mail(interest) {
                Some(token)
            } else {
                None
            }),
    {
        self.interest = interest;
        if interest.is_readable() && !self.is_empty() {
            self.interest = EventSet::none();
            Some(token)
        } else {
            None
        }
    }

    /// The receiving end waits for nothing any more.
    pub fn deregister(&mut self)
        ensures
            final(self)@ == (MailboxView { interest: EventSet::spec_none(), ..old(self)@ }),
    {
        self.interest = EventSet::none();
    }
}

/// Something that can happen to a mailbox.
#[verifier::ext_equal]
pub enum MailboxOperation<T> {
    /// A message is sent.
    Send { message: T },
    /// A message is received, if there is one.
    Recv,
    /// The receiving end is registered.
    Register { token: Token, interest: EventSet },
    /// The receiving end waits for something else.
    Reregister { interest: EventSet },
    /// The receiving end waits for nothing any more.
    Deregister,
}

impl<T> MailboxView<T> {
    /// The mailbox after the operation.
    pub open spec fn after(self, op: MailboxOperation<T>) -> MailboxView<T> {
        match op {
            MailboxOperation::Send { message } => self.sent(message),
            MailboxOperation::Recv => self.received(),
            MailboxOperation::Register { token, interest } => (MailboxView {
                token: Some(token),
                ..self
            }).watched(interest),
            MailboxOperation::Reregister { interest } => self.watched(interest),
            MailboxOperation::Deregister => MailboxView {
                interest: EventSet::spec_none(),
                ..self
            },
        }
    }

    /// The mailbox after all of the operations.
    pub open spec fn after_all(self, ops: Seq<MailboxOperation<T>>) -> MailboxView<T>
        decreases ops.len(),
    {
        if ops.len() == 0 {
            self
        } else {
            self.after_all(ops.drop_last()).after(ops.last())
        }
    }

    /// The messages that are received in the course of the operations, in order.
    pub open spec fn received_in(self, ops: Seq<MailboxOperation<T>>) -> Seq<T>
        decreases ops.len(),
    {
        if ops.len() == 0 {
            Seq::empty()
        } else {
            let before = self.after_all(ops.drop_last());
            let earlier = self.received_in(ops.drop_last());
            if ops.last() is Recv && before.next() is Some {
                earlier.push(before.next()->0)
            } else {
                earlier
            }
        }
    }
}

/// The messages that are sent in the course of the operations, in order.
pub open spec fn sent_in<T>(ops: Seq<MailboxOperation<T>>) -> Seq<T>
    decreases ops.len(),
{
    if ops.len() == 0 {
        Seq::empty()
    } else {
        let earlier = sent_in(ops.drop_last());
        match ops.last() {
            MailboxOperation::Send { message } => earlier.push(message),
            _ => earlier,
        }
    }
}

/// Every message that is sent is received once and in the order of sending: those
/// received so far, followed by those still in the mailbox, are those that were
/// there before, followed by those sent since.
pub proof fn messages_arrive_in_order<T>(mailbox: MailboxView<T>, ops: Seq<MailboxOperation<T>>)
    ensures
        mailbox.received_in(ops) + mailbox.after_all(ops).queue == mailbox.queue + sent_in(ops),
    decreases ops.len(),
{
    if ops.len() == 0 {
        assert(mailbox.received_in(ops) + mailbox.queue =~= mailbox.queue + sent_in(ops));
    } else {
        let before = mailbox.after_all(ops.drop_last());
        let earlier = mailbox.received_in(ops.drop_last());
        messages_arrive_in_order(mailbox, ops.drop_last());
        match ops.last() {
            MailboxOperation::Send { message } => {
                assert(earlier + before.queue.push(message) =~= (earlier + before.queue).push(
                    message,
                ));
                assert(mailbox.queue + sent_in(ops.drop_last()).push(message) =~= (mailbox.queue
                    + sent_in(ops.drop_last())).push(message));
            },
            MailboxOperation::Recv => {
                if before.queue.len() > 0 {
                    assert(earlier.push(before.queue[0]) + before.queue.skip(1) =~= earlier
                        + before.queue);
                }
            },
            _ => {},
        }
    }
}

/// What is sent to an empty mailbox is what is received next.
pub proof fn message_gets_through<T>(mailbox: MailboxView<T>, message: T)
    requires
        mailbox.queue.len() == 0,
    ensures
        mailbox.sent(message).next() == Some(message),
        mailbox.sent(message).received() == mailbox,
{
    assert(mailbox.sent(message).received().queue =~= mailbox.queue);
}

/// A receiver that waits to read hears of a message: of one that is there already,
/// when it starts to wait; else of the first that is sent then, and of each after
/// that until it waits for something else.
pub proof fn waiting_receiver_is_notified<T>(
    mailbox: MailboxView<T>,
    token: Token,
    interest: EventSet,
    ops: Seq<MailboxOperation<T>>,
)
    requires
        interest.readable,
        mailbox.token == Some(token),
        !mailbox.has_mail(interest),
        forall|k: int|
            0 <= k < ops.len() ==> (#[trigger] ops[k]) is Send || ops[k] is Recv,
    ensures
        mailbox.watched(interest).after_all(ops).to_notify() == Some(token),
    decreases ops.len(),
{
    if ops.len() > 0 {
        assert forall|k: int| 0 <= k < ops.drop_last().len() implies (
        #[trigger] ops.drop_last()[k]) is Send || ops.drop_last()[k] is Recv by {
            assert(ops.drop_last()[k] == ops[k]);
        }
        waiting_receiver_is_notified(mailbox, token, interest, ops.drop_last());
        assert(ops[ops.len() - 1] == ops.last());
    }
}

/// A new mailbox is empty, belongs to no source, and is waited for by no one.
pub proof fn new_mailbox_is_empty<T>()
    ensures
        ({
            let mailbox = MailboxView::<T>::initial();
            &&& mailbox.queue.len() == 0
            &&& mailbox.token is None
            &&& !mailbox.interest.readable
            &&& !mailbox.interest.writable
            &&& !mailbox.interest.hup
        }),
{
}

/// To send adds the message as the last one and changes nothing else. The receiving
/// end is notified if, and only if, it waits to read and is known, whatever else it
/// waits for.
pub proof fn sending_adds_the_last_message<T>(mailbox: MailboxView<T>, message: T)
    ensures
        ({
            let after = mailbox.sent(message);
            &&& after.queue.len() == mailbox.queue.len() + 1
            &&& after.queue.last() == message
            &&& after.queue.drop_last() == mailbox.queue
            &&& after.token == mailbox.token
            &&& after.interest == mailbox.interest
        }),
        mailbox.interest.readable ==> mailbox.to_notify() == mailbox.token,
        !mailbox.interest.readable ==> mailbox.to_notify() is None,
{
    assert(mailbox.sent(message).queue.drop_last() =~= mailbox.queue);
}

/// To receive takes the first message, if there is one, and changes nothing else.
pub proof fn receiving_takes_the_first_message<T>(mailbox: MailboxView<T>)
    ensures
        mailbox.received().token == mailbox.token,
        mailbox.received().interest == mailbox.interest,
        mailbox.queue.len() == 0 ==> {
            &&& mailbox.next() is None
            &&& mailbox.received().queue.len() == 0
        },
        mailbox.queue.len() > 0 ==> {
            &&& mailbox.next() is Some
            &&& seq![mailbox.next()->0] + mailbox.received().queue == mailbox.queue
        },
{
    if mailbox.queue.len() > 0 {
        assert(seq![mailbox.next()->0] + mailbox.received().queue =~= mailbox.queue);
    }
}

/// There is mail for someone who asks for reads, whatever else they ask for, exactly
/// if there is a message. The request of one for whom there is mail is met at once,
/// so that they wait for nothing; any other request stands as it was made.
pub proof fn mail_that_is_there_is_announced<T>(mailbox: MailboxView<T>, interest: EventSet)
    ensures
        mailbox.has_mail(interest) <==> interest.readable && mailbox.queue.len() > 0,
        ({
            let after = mailbox.watched(interest);
            &&& after.queue == mailbox.queue
            &&& after.token == mailbox.token
            &&& interest.readable && mailbox.queue.len() > 0 ==> {
                &&& !after.interest.readable
                &&& !after.interest.writable
                &&& !after.interest.hup
            }
            &&& !(interest.readable && mailbox.queue.len() > 0) ==> after.interest == interest
        }),
{
}

/// A coroutine that waits to read, or for anything, on a mailbox with a message is
/// told of it: what the event loop is asked to report of a source whose peer has not
/// hung up has there be mail.
pub proof fn waiting_for_mail_finds_it<T>(
    mailbox: MailboxView<T>,
    source: EventSourceShared,
    rw: RW,
)
    requires
        mailbox.queue.len() > 0,
        !source.peer_hup,
        rw == RW::Read || rw == RW::Both,
    ensures
        mailbox.has_mail(source.interest(rw)),
{
}

/// A receiver that waits while there is no message is notified of the next one that
/// is sent, whatever else it waits for.
pub proof fn waiting_for_mail_hears_of_the_next<T>(
    mailbox: MailboxView<T>,
    source: EventSourceShared,
    rw: RW,
)
    requires
        mailbox.queue.len() == 0,
        mailbox.token == Some(source.token),
        !source.peer_hup,
        rw == RW::Read || rw == RW::Both,
    ensures
        mailbox.watched(source.interest(rw)).to_notify() == Some(source.token),
{
}

/// What happens to a mailbox by each operation: to register it notes the token, and
/// to deregister it ends the wait; neither touches the messages.
pub proof fn registration_leaves_messages_alone<T>(
    mailbox: MailboxView<T>,
    token: Token,
    interest: EventSet,
)
    ensures
        ({
            let after = mailbox.after(MailboxOperation::Register { token, interest });
            &&& after.token == Some(token)
            &&& after.queue == mailbox.queue
            &&& after.interest == mailbox.watched(interest).interest
        }),
        ({
            let after = mailbox.after(MailboxOperation::Deregister);
            &&& after.token == mailbox.token
            &&& after.queue == mailbox.queue
            &&& !after.interest.readable
            &&& !after.interest.writable
            &&& !after.interest.hup
        }),
{
}

} // verus!
