//! The channels between a pool and its shards.
//!
//! Two kinds are in use, and neither makes a sender wait. [`Jobs`] is the
//! sending half of a shard's own unbounded channel. A [`Reply`] is good for one
//! answer, and as many of them are made for a channel as the channel has room
//! for.

use vstd::prelude::*;

verus! {

/// `flume::Sender`: the sending half of a channel, shared with whoever holds a
/// clone of it. What the channel holds is not tracked.
#[verifier::external_type_specification]
#[verifier::external_body]
#[verifier::reject_recursive_types(T)]
pub struct ExSender<T>(flume::Sender<T>);

/// `flume::Receiver`: the receiving half of a channel.
#[verifier::external_type_specification]
#[verifier::external_body]
#[verifier::reject_recursive_types(T)]
pub struct ExReceiver<T>(flume::Receiver<T>);

/// `flume::RecvError`: nobody is left to send, and nothing is waiting.
#[verifier::external_type_specification]
#[verifier::external_body]
pub struct ExRecvError(flume::RecvError);

/// `flume::unbounded` makes a channel without a limit. Nothing is claimed of
/// the two halves.
pub assume_specification<T>[ flume::unbounded::<T> ]() -> (halves: (
    flume::Sender<T>,
    flume::Receiver<T>,
));

/// `flume::bounded` makes a channel with room for `cap` values. Nothing is
/// claimed of the two halves.
pub assume_specification<T>[ flume::bounded::<T> ](cap: usize) -> (halves: (
    flume::Sender<T>,
    flume::Receiver<T>,
));

/// `flume::Sender::send` puts a value into the channel, or hands back that same
/// value, inside a `flume::SendError`, when no receiver is left. Whether one is
/// left rests on other threads, so nothing is claimed of that. On a channel with
/// a limit it waits for room; this module calls it only where there is room.
#[verifier::external_body]
fn send_on<T>(sender: &flume::Sender<T>, msg: T) -> (sent: Result<(), T>)
    ensures
        sent matches Err(back) ==> back == msg,
{
    sender.send(msg).map_err(|error| error.into_inner())
}

/// `flume::Receiver::recv` waits for the next value, or for the last sender to
/// go. Which of them comes, and with what value, rests on other threads, so
/// nothing is claimed of the result.
pub assume_specification<T>[ flume::Receiver::<T>::recv ](receiver: &flume::Receiver<T>) -> (got:
    Result<T, flume::RecvError>);

/// `flume::Sender::clone` makes another sending half of the same channel.
/// Nothing is claimed of it.
pub assume_specification<T>[ <flume::Sender<T> as Clone>::clone ](
    sender: &flume::Sender<T>,
) -> (other: flume::Sender<T>);

/// `message` was sent through `sender`, and `sent` is what came of it.
pub closed spec fn sends<M>(sender: flume::Sender<M>, message: M, sent: Result<(), M>) -> bool {
    call_ensures(send_on::<M>, (&sender, message), sent)
}

/// The sending half of a shard's own channel. The channel has no limit, so
/// sending never waits. Its view is every message that was sent through it, in
/// order, whether or not anyone was left to take it.
#[verifier::reject_recursive_types(M)]
pub struct Jobs<M> {
    sender: flume::Sender<M>,
    log: Ghost<Seq<M>>,
}

impl<M> View for Jobs<M> {
    type V = Seq<M>;

    closed spec fn view(&self) -> Seq<M> {
        self.log@
    }
}

impl<M> Jobs<M> {
    /// The half itself.
    pub closed spec fn sender(&self) -> flume::Sender<M> {
        self.sender
    }

    /// What is sent through this half is taken from `receiver`.
    pub open spec fn leads_to(&self, receiver: flume::Receiver<M>) -> bool {
        call_ensures(flume::unbounded::<M>, (), (self.sender(), receiver))
    }

    /// A new channel: the half that the pool keeps, and the half that the
    /// shard takes its messages from.
    pub fn channel() -> (halves: (Jobs<M>, flume::Receiver<M>))
        ensures
            halves.0.leads_to(halves.1),
            halves.0@ == Seq::<M>::empty(),
    {
        let unbounded = flume::unbounded::<M>;
        let (sender, receiver) = unbounded();
        (Jobs { sender, log: Ghost(Seq::empty()) }, receiver)
    }

    /// Send a message to the shard. Once the shard has stopped taking messages
    /// it fails, and the message comes back.
    pub fn send(&mut self, message: M) -> (sent: Result<(), M>)
        ensures
            final(self)@ == old(self)@.push(message),
            final(self).sender() == old(self).sender(),
            sends(old(self).sender(), message, sent),
            sent matches Err(back) ==> back == message,
    {
        let send = send_on::<M>;
        proof {
            self.log@ = self.log@.push(message);
        }
        send(&self.sender, message)
    }
}

/// The two halves were made together, with room for `count` values.
pub open spec fn is_channel<R>(
    count: usize,
    sender: flume::Sender<R>,
    receiver: flume::Receiver<R>,
) -> bool {
    call_ensures(flume::bounded::<R>, (count,), (sender, receiver))
}

/// The right to answer once. There are as many of these for a channel as the
/// channel has room for, and answering uses one up, so answering never waits.
#[verifier::reject_recursive_types(R)]
#[derive(Debug)]
pub struct Reply<R> {
    sender: flume::Sender<R>,
}

impl<R> Reply<R> {
    /// This right answers on a channel with room for `count` answers, and what
    /// is answered is taken from `receiver`.
    pub closed spec fn answers_to(&self, count: usize, receiver: flume::Receiver<R>) -> bool {
        exists|sender: flume::Sender<R>| #[trigger]
            is_channel(count, sender, receiver) && call_ensures(
                <flume::Sender<R> as Clone>::clone,
                (&sender,),
                self.sender,
            )
    }

    /// The half that the answer is sent through.
    pub closed spec fn sender(&self) -> flume::Sender<R> {
        self.sender
    }

    /// A new channel for `count` answers.
    pub fn channel(count: usize) -> (halves: (Vec<Reply<R>>, Replies<R>))
        ensures
            halves.0.len() == count,
            forall|i: int|
                0 <= i < count ==> (#[trigger] halves.0[i]).answers_to(
                    count,
                    halves.1.receiver(),
                ),
            halves.1@ == Seq::<Result<R, flume::RecvError>>::empty(),
    {
        let bounded = flume::bounded::<R>;
        let (sender, receiver) = bounded(count);
        let mut replies: Vec<Reply<R>> = Vec::with_capacity(count);
        let mut made: usize = 0;
        while made < count
            invariant
                made <= count,
                replies.len() == made,
                is_channel(count, sender, receiver),
                forall|i: int|
                    0 <= i < made ==> (#[trigger] replies[i]).answers_to(count, receiver),
            decreases count - made,
        {
            let clone = <flume::Sender<R> as Clone>::clone;
            let reply = Reply { sender: clone(&sender) };
            assert(reply.answers_to(count, receiver));
            replies.push(reply);
            made = made + 1;
        }
        (replies, Replies { receiver, heard: Ghost(Seq::empty()) })
    }

    /// Send the answer. It fails only if the asker gave up first, and the answer
    /// then comes back. Whether the asker ever takes it rests on the asker's
    /// thread.
    pub fn report(self, item: R) -> (sent: Result<(), R>)
        ensures
            sends(self.sender(), item, sent),
            sent matches Err(back) ==> back == item,
    {
        let send = send_on::<R>;
        send(&self.sender, item)
    }
}

/// The asker's half of a channel for answers. Its view is what [`Replies::recv`]
/// has returned so far, in order. That no answer is taken from the channel but
/// those is left unsaid: what the channel holds is not tracked.
#[verifier::reject_recursive_types(R)]
pub struct Replies<R> {
    receiver: flume::Receiver<R>,
    heard: Ghost<Seq<Result<R, flume::RecvError>>>,
}

impl<R> View for Replies<R> {
    type V = Seq<Result<R, flume::RecvError>>;

    closed spec fn view(&self) -> Seq<Result<R, flume::RecvError>> {
        self.heard@
    }
}

/// `got` is what came of waiting on `receiver`.
pub open spec fn received<R>(
    receiver: flume::Receiver<R>,
    got: Result<R, flume::RecvError>,
) -> bool {
    call_ensures(flume::Receiver::<R>::recv, (&receiver,), got)
}

impl<R> Replies<R> {
    /// The half itself.
    pub closed spec fn receiver(&self) -> flume::Receiver<R> {
        self.receiver
    }

    /// Block until the next answer comes, or until nobody is left to answer.
    pub fn recv(&mut self) -> (got: Result<R, flume::RecvError>)
        ensures
            received(old(self).receiver(), got),
            final(self)@ == old(self)@.push(got),
            final(self).receiver() == old(self).receiver(),
    {
        let recv = flume::Receiver::<R>::recv;
        let got = recv(&self.receiver);
        proof {
            self.heard@ = self.heard@.push(got);
        }
        got
    }

    /// The half itself, for a task to wait on.
    pub fn into_receiver(self) -> (receiver: flume::Receiver<R>)
        ensures
            receiver == self.receiver(),
    {
        self.receiver
    }
}

/// A right to answer leads to its channel: it is a clone of the half that was
/// made together with the asker's half, by one call that asked for room for all
/// the answers. An answer of the asker's half is what waiting on that very half
/// came back with.
pub proof fn law_a_right_to_answer_leads_to_its_channel<R>(
    reply: Reply<R>,
    count: usize,
    receiver: flume::Receiver<R>,
    got: Result<R, flume::RecvError>,
)
    ensures
        reply.answers_to(count, receiver) <==> exists|sender: flume::Sender<R>|
            {
                &&& #[trigger] call_ensures(flume::bounded::<R>, (count,), (sender, receiver))
                &&& call_ensures(
                    <flume::Sender<R> as Clone>::clone,
                    (&sender,),
                    reply.sender(),
                )
            },
        received(receiver, got) <==> call_ensures(
            flume::Receiver::<R>::recv,
            (&receiver,),
            got,
        ),
{
    if exists|sender: flume::Sender<R>|
        {
            &&& #[trigger] call_ensures(flume::bounded::<R>, (count,), (sender, receiver))
            &&& call_ensures(<flume::Sender<R> as Clone>::clone, (&sender,), reply.sender())
        } {
        let sender = choose|sender: flume::Sender<R>|
            {
                &&& #[trigger] call_ensures(flume::bounded::<R>, (count,), (sender, receiver))
                &&& call_ensures(<flume::Sender<R> as Clone>::clone, (&sender,), reply.sender())
            };
        assert(is_channel(count, sender, receiver));
    }
    if reply.answers_to(count, receiver) {
        let sender = choose|sender: flume::Sender<R>| #[trigger]
            is_channel(count, sender, receiver) && call_ensures(
                <flume::Sender<R> as Clone>::clone,
                (&sender,),
                reply.sender,
            );
        assert(call_ensures(flume::bounded::<R>, (count,), (sender, receiver)));
    }
}

/// What counts as sent went through a call that sends, and only such a call can
/// say what came of it; what it hands back is what was sent.
proof fn law_what_is_sent_goes_through_the_channel<M>(
    sender: flume::Sender<M>,
    message: M,
    sent: Result<(), M>,
)
    requires
        sends(sender, message, sent),
    ensures
        call_ensures(send_on::<M>, (&sender, message), sent),
        sent matches Err(back) ==> back == message,
{
}

} // verus!
