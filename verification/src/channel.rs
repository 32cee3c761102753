//! The bounded queue that carries terminal notifications to an owner thread.
use crossbeam_channel::Receiver;
use crossbeam_channel::Sender;
use vstd::prelude::*;

verus! {

/// The sending end of a crossbeam channel.
#[verifier::external_type_specification]
#[verifier::external_body]
#[verifier::reject_recursive_types(T)]
pub struct ExSender<T>(crossbeam_channel::Sender<T>);

/// The receiving end of a crossbeam channel.
#[verifier::external_type_specification]
#[verifier::external_body]
#[verifier::reject_recursive_types(T)]
pub struct ExReceiver<T>(crossbeam_channel::Receiver<T>);

/// Messages that the channel of this receiving end holds, oldest first.
pub uninterp spec fn channel_contents(receiver: Receiver<u64>) -> Seq<u64>;

/// Number of messages that the channel of this receiving end was made for.
pub uninterp spec fn channel_capacity(receiver: Receiver<u64>) -> nat;

/// Whether the two ends belong to one channel.
pub uninterp spec fn channel_connects(sender: Sender<u64>, receiver: Receiver<u64>) -> bool;

/// `crossbeam_channel::bounded` for a positive capacity: the two ends of one
/// empty channel. It panics when its slot array, 16 bytes for each message,
/// would not fit the address space.
#[verifier::external_body]
fn bounded_channel(capacity: usize) -> (ends: (Sender<u64>, Receiver<u64>))
    requires
        0 < capacity,
        capacity * 16 <= isize::MAX,
    ensures
        channel_connects(ends.0, ends.1),
        channel_contents(ends.1) == Seq::<u64>::empty(),
        channel_capacity(ends.1) == capacity,
{
    crossbeam_channel::bounded(capacity)
}

/// `Sender::try_send` while both ends live: the message joins the end of a
/// queue that is not full, and a full queue stays as it is.
#[verifier::external_body]
fn send_message(sender: &Sender<u64>, receiver: &mut Receiver<u64>, message: u64) -> (sent: bool)
    requires
        channel_connects(*sender, *old(receiver)),
    ensures
        channel_connects(*sender, *final(receiver)),
        channel_capacity(*final(receiver)) == channel_capacity(*old(receiver)),
        sent == (channel_contents(*old(receiver)).len() < channel_capacity(*old(receiver))),
        channel_contents(*final(receiver)) == (if sent {
            channel_contents(*old(receiver)).push(message)
        } else {
            channel_contents(*old(receiver))
        }),
{
    sender.try_send(message).is_ok()
}

/// `Receiver::try_recv`: the oldest message leaves the queue, and an empty
/// queue gives nothing.
#[verifier::external_body]
fn receive_message(receiver: &mut Receiver<u64>) -> (message: Option<u64>)
    ensures
        forall|sender: Sender<u64>|
            channel_connects(sender, *old(receiver)) ==> #[trigger] channel_connects(
                sender,
                *final(receiver),
            ),
        channel_capacity(*final(receiver)) == channel_capacity(*old(receiver)),
        match message {
            Some(message) => {
                &&& channel_contents(*old(receiver)).len() > 0
                &&& message == channel_contents(*old(receiver))[0]
                &&& channel_contents(*final(receiver)) == channel_contents(*old(receiver)).skip(1)
            },
            None => {
                &&& channel_contents(*old(receiver)).len() == 0
                &&& channel_contents(*final(receiver)) == channel_contents(*old(receiver))
            },
        },
{
    receiver.try_recv().ok()
}

/// A bounded first-in first-out queue of delivery ids. It owns both ends, so
/// no message enters or leaves except through it.
pub struct NotificationQueue {
    sender: Sender<u64>,
    receiver: Receiver<u64>,
}

impl View for NotificationQueue {
    type V = Seq<u64>;

    closed spec fn view(&self) -> Seq<u64> {
        channel_contents(self.receiver)
    }
}

impl NotificationQueue {
    pub closed spec fn capacity(&self) -> nat {
        channel_capacity(self.receiver)
    }

    pub closed spec fn wf(&self) -> bool {
        channel_connects(self.sender, self.receiver)
    }

    pub fn new(capacity: usize) -> (queue: Self)
        requires
            0 < capacity,
            capacity * 16 <= isize::MAX,
        ensures
            queue.wf(),
            queue@ == Seq::<u64>::empty(),
            queue.capacity() == capacity,
    {
        let (sender, receiver) = bounded_channel(capacity);
        NotificationQueue { sender, receiver }
    }

    /// Queues a message unless the queue is full.
    pub fn push(&mut self, message: u64) -> (sent: bool)
        requires
            old(self).wf(),
        ensures
            final(self).wf(),
            final(self).capacity() == old(self).capacity(),
            sent == (old(self)@.len() < old(self).capacity()),
            final(self)@ == (if sent {
                old(self)@.push(message)
            } else {
                old(self)@
            }),
    {
        send_message(&self.sender, &mut self.receiver, message)
    }

    /// Takes the oldest message.
    pub fn pop(&mut self) -> (message: Option<u64>)
        requires
            old(self).wf(),
        ensures
            final(self).wf(),
            final(self).capacity() == old(self).capacity(),
            match message {
                Some(message) => {
                    &&& old(self)@.len() > 0
                    &&& message == old(self)@[0]
                    &&& final(self)@ == old(self)@.skip(1)
                },
                None => old(self)@.len() == 0 && final(self)@ == old(self)@,
            },
    {
        receive_message(&mut self.receiver)
    }
}

} // verus!
