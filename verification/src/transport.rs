use vstd::prelude::*;

verus! {

/// Why a message could not be sent.
pub enum SendError<U, I> {
    /// The receiving end is gone for good and will take no more messages.
    /// The message that was being sent is handed back.
    Disconnected(U),
    /// Any other failure of the underlying transport.
    Inner(I),
}

/// Why a non-blocking receive returned no message.
pub enum TryRecvError<I> {
    /// Nothing is waiting right now, but the sending end is still there.
    Empty,
    /// The sending end is gone for good and nothing is left to deliver.
    Disconnected,
    /// Any other failure of the underlying transport.
    Inner(I),
}

/// Why a blocking receive returned no message.
pub enum RecvError<I> {
    /// The sending end is gone for good and nothing is left to deliver.
    Disconnected,
    /// Any other failure of the underlying transport.
    Inner(I),
}

/// The sending end of an ordered point-to-point channel.
///
/// `accepted` is the log of the messages that this end has taken so far, oldest
/// first. A send that succeeds appends its message to the log; a send that fails
/// leaves the log alone, and a disconnect hands the message back. `handed` is the
/// log of all the messages that were handed to `send`, taken or not.
///
/// `severed` says that the receiving end is gone for good. A severed end takes
/// nothing, and an end reports a disconnect only when it is severed, and stays
/// so.
///
/// `faultless` says that the transport behind this end never fails in any way
/// but by a disconnect. A faultless end stays faultless, and no send on it is
/// answered with `SendError::Inner`. `last_fault` keeps the failure with which
/// the last send was answered, if it was answered with one.
///
/// An implementation says what its log is, when it is severed, whether it is
/// faultless and what its last failure was by defining `accepted`, `handed`,
/// `severed`, `faultless` and `last_fault`. Left as they are,
/// each is some function of the end's state of which nothing more is known: an
/// implementation that leaves them so cannot be verified, and is taken on trust
/// to keep to the contract of `send`.
pub trait Sender: Sized {
    type Message;

    type Error;

    /// The messages taken so far, oldest first.
    open spec fn accepted(&self) -> Seq<Self::Message> {
        arbitrary::<spec_fn(Self) -> Seq<Self::Message>>()(*self)
    }

    /// The messages handed to `send` so far, oldest first, whatever came of them.
    open spec fn handed(&self) -> Seq<Self::Message> {
        arbitrary::<spec_fn(Self) -> Seq<Self::Message>>()(*self)
    }

    /// Whether the receiving end is gone for good.
    open spec fn severed(&self) -> bool {
        arbitrary::<spec_fn(Self) -> bool>()(*self)
    }

    /// Whether the transport behind this end never fails but by a disconnect.
    open spec fn faultless(&self) -> bool {
        arbitrary::<spec_fn(Self) -> bool>()(*self)
    }

    /// The failure with which the transport answered the last send, if it
    /// answered with one.
    open spec fn last_fault(&self) -> Option<Self::Error> {
        arbitrary::<spec_fn(Self) -> Option<Self::Error>>()(*self)
    }

    /// Offers `message` to the channel.
    fn send(&mut self, message: Self::Message) -> (outcome: Result<
        (),
        SendError<Self::Message, Self::Error>,
    >)
        ensures
            outcome is Ok ==> !old(self).severed() && final(self).accepted() == old(
                self,
            ).accepted().push(message),
            outcome is Err ==> final(self).accepted() == old(self).accepted(),
            outcome matches Err(SendError::Disconnected(returned)) ==> returned == message && old(
                self,
            ).severed() && final(self).severed(),
            old(self).faultless() ==> final(self).faultless() && !(outcome matches Err(
                SendError::Inner(_),
            )),
            final(self).last_fault() == fault_of_send(outcome),
            final(self).handed() == old(self).handed().push(message),
    ;
}

/// The receiving end of an ordered point-to-point channel.
///
/// `backlog` is the sequence of messages that this end has yet to hand out, oldest
/// first: those that are ready, and those that are still to arrive. A receive
/// that succeeds hands out the head of the backlog; one that fails hands out
/// nothing. An end that reports a disconnect has an empty backlog, and so keeps
/// it.
///
/// `ready` is the number of messages that are ready to be handed out at once. A
/// message that is ready stays ready until it is handed out, so a receive lowers
/// the number by one at most, and an end that reports that it is empty or
/// disconnected has none ready.
///
/// `gone` says that the sending end is gone for good. It stays so. An end
/// reports a disconnect only when the sending end is gone, and reports that it is
/// empty only when it is not.
///
/// `faultless` says that the transport behind this end never fails on a
/// non-blocking receive in any way but by being empty or disconnected. A
/// faultless end stays faultless, and no `try_recv` on it is answered with
/// `TryRecvError::Inner`.
///
/// `last_poll_fault` and `last_wait_fault` keep the failure with which the last
/// receive of either kind was answered, if it was answered with one.
///
/// An implementation says what its backlog is, how much of it is ready, whether
/// the sending end is gone, whether it is faultless and what its last failures
/// were by defining `backlog`, `ready`, `gone`, `faultless`, `last_poll_fault` and
/// `last_wait_fault`. Left as they are, each is some function of the
/// end's state of which nothing more is known: an implementation that leaves
/// them so cannot be verified, and is taken on trust to keep to the contracts of
/// `try_recv` and `recv`.
pub trait Receiver<U>: Sized {
    type TryRecvError;

    type RecvError;

    /// The messages still to be handed out, oldest first.
    open spec fn backlog(&self) -> Seq<U> {
        arbitrary::<spec_fn(Self) -> Seq<U>>()(*self)
    }

    /// The number of messages that are ready to be handed out at once.
    open spec fn ready(&self) -> nat {
        arbitrary::<spec_fn(Self) -> nat>()(*self)
    }

    /// Whether the sending end is gone for good.
    open spec fn gone(&self) -> bool {
        arbitrary::<spec_fn(Self) -> bool>()(*self)
    }

    /// Whether the transport behind this end never fails on a non-blocking
    /// receive but by being empty or disconnected.
    open spec fn faultless(&self) -> bool {
        arbitrary::<spec_fn(Self) -> bool>()(*self)
    }

    /// The failure with which the transport answered the last non-blocking
    /// receive, if it answered with one.
    open spec fn last_poll_fault(&self) -> Option<Self::TryRecvError> {
        arbitrary::<spec_fn(Self) -> Option<Self::TryRecvError>>()(*self)
    }

    /// The failure with which the transport answered the last blocking receive,
    /// if it answered with one.
    open spec fn last_wait_fault(&self) -> Option<Self::RecvError> {
        arbitrary::<spec_fn(Self) -> Option<Self::RecvError>>()(*self)
    }

    /// Takes the next message if one is ready, without waiting.
    fn try_recv(&mut self) -> (outcome: Result<U, TryRecvError<Self::TryRecvError>>)
        ensures
            takes_head(old(self).backlog(), final(self).backlog(), outcome),
            stays_ready(old(self).ready(), final(self).ready(), outcome is Ok),
            outcome matches Err(TryRecvError::Empty) ==> old(self).ready() == 0 && !old(
                self,
            ).gone(),
            outcome matches Err(TryRecvError::Disconnected) ==> old(self).gone(),
            outcome matches Err(TryRecvError::Disconnected) ==> final(self).backlog().len() == 0
                && final(self).ready() == 0,
            old(self).gone() ==> final(self).gone(),
            old(self).faultless() ==> final(self).faultless() && !(outcome matches Err(
                TryRecvError::Inner(_),
            )),
            final(self).last_poll_fault() == fault_of_poll(outcome),
    ;

    /// Waits for the next message and takes it.
    fn recv(&mut self) -> (outcome: Result<U, RecvError<Self::RecvError>>)
        ensures
            takes_head(old(self).backlog(), final(self).backlog(), outcome),
            stays_ready(old(self).ready(), final(self).ready(), outcome is Ok),
            outcome matches Err(RecvError::Disconnected) ==> old(self).gone(),
            outcome matches Err(RecvError::Disconnected) ==> final(self).backlog().len() == 0
                && final(self).ready() == 0,
            old(self).gone() ==> final(self).gone(),
            old(self).faultless() ==> final(self).faultless(),
            final(self).last_wait_fault() == fault_of_wait(outcome),
    ;
}

/// The transport failure that the answer to a send carries, if it carries one.
pub open spec fn fault_of_send<U, E>(outcome: Result<(), SendError<U, E>>) -> Option<E> {
    match outcome {
        Err(SendError::Inner(error)) => Some(error),
        _ => None,
    }
}

/// The transport failure that the answer to a non-blocking receive carries, if it
/// carries one.
pub open spec fn fault_of_poll<U, E>(outcome: Result<U, TryRecvError<E>>) -> Option<E> {
    match outcome {
        Err(TryRecvError::Inner(error)) => Some(error),
        _ => None,
    }
}

/// The transport failure that the answer to a blocking receive carries, if it
/// carries one.
pub open spec fn fault_of_wait<U, E>(outcome: Result<U, RecvError<E>>) -> Option<E> {
    match outcome {
        Err(RecvError::Inner(error)) => Some(error),
        _ => None,
    }
}

/// What one receive does to a backlog: success removes and returns its head,
/// failure leaves it as it was.
pub open spec fn takes_head<U, E>(before: Seq<U>, after: Seq<U>, outcome: Result<U, E>) -> bool {
    match outcome {
        Ok(message) => before.len() > 0 && message == before[0] && after == before.skip(1),
        Err(_) => after == before,
    }
}

/// What one receive does to the number of messages that are ready: it hands out
/// one at most, and loses none.
pub open spec fn stays_ready(before: nat, after: nat, handed_out: bool) -> bool {
    if handed_out {
        after + 1 >= before
    } else {
        after >= before
    }
}

} // verus!
