use vstd::prelude::*;
use std::collections::VecDeque;
use crate::transport::{Receiver, RecvError, SendError, Sender, TryRecvError};

verus! {

/// What a blocking receive finds on a journal that is empty and not sealed:
/// nothing to take, and nobody who could add anything while it waits.
#[derive(Debug, PartialEq, Eq, Clone, Copy)]
pub struct Dry;

/// An in-memory channel with one owner, who is sender and receiver in turn.
///
/// A journal takes messages at its back and hands them out from its front, in
/// the order in which it took them. It takes messages until it is sealed. As a
/// receiver it is empty while it holds nothing and is not sealed, and
/// disconnected once it holds nothing and is sealed. Its transport never fails
/// in any other way on a send or on a non-blocking receive: the error types of
/// those are the unit type, and no value of it is ever reported.
pub struct Journal<U> {
    entries: VecDeque<U>,
    sealed: bool,
    taken: Ghost<Seq<U>>,
    offered: Ghost<Seq<U>>,
    waited_dry: Ghost<bool>,
}

impl<U> Journal<U> {
    /// The messages that wait to be handed out, oldest first.
    pub closed spec fn entries(&self) -> Seq<U> {
        self.entries@
    }

    /// Whether the journal has been sealed.
    pub closed spec fn sealed(&self) -> bool {
        self.sealed
    }

    /// All the messages ever taken, oldest first.
    pub closed spec fn taken(&self) -> Seq<U> {
        self.taken@
    }

    /// All the messages ever offered to the journal, taken or not, oldest first.
    pub closed spec fn offered(&self) -> Seq<U> {
        self.offered@
    }

    /// Whether the last blocking receive found the journal dry.
    pub closed spec fn waited_dry(&self) -> bool {
        self.waited_dry@
    }

    /// Starts an empty journal that is not sealed.
    pub fn new() -> (journal: Self)
        ensures
            journal.entries().len() == 0,
            journal.taken().len() == 0,
            !journal.sealed(),
    {
        Journal {
            entries: VecDeque::new(),
            sealed: false,
            taken: Ghost(Seq::empty()),
            offered: Ghost(Seq::empty()),
            waited_dry: Ghost(false),
        }
    }

    /// The number of messages that wait to be handed out.
    pub fn len(&self) -> (len: usize)
        ensures
            len == self.entries().len(),
    {
        self.entries.len()
    }

    /// Whether the journal has been sealed.
    pub fn is_sealed(&self) -> (sealed: bool)
        ensures
            sealed == self.sealed(),
    {
        self.sealed
    }

    /// Seals the journal: it takes no more messages, and hands out those it
    /// holds.
    pub fn seal(&mut self)
        ensures
            final(self).sealed(),
            final(self).entries() == old(self).entries(),
            final(self).taken() == old(self).taken(),
    {
        self.sealed = true;
    }
}

impl<U> Sender for Journal<U> {
    type Message = U;

    type Error = ();

    open spec fn accepted(&self) -> Seq<U> {
        self.taken()
    }

    open spec fn severed(&self) -> bool {
        self.sealed()
    }

    /// A journal never fails.
    open spec fn faultless(&self) -> bool {
        true
    }

    open spec fn last_fault(&self) -> Option<()> {
        None
    }

    open spec fn handed(&self) -> Seq<U> {
        self.offered()
    }

    /// Takes `message` at the back, unless the journal is sealed.
    fn send(&mut self, message: U) -> (outcome: Result<(), SendError<U, ()>>)
        ensures
            outcome is Ok <==> !old(self).sealed(),
            outcome is Err ==> outcome matches Err(SendError::Disconnected(_)),
            outcome is Ok ==> final(self).entries() == old(self).entries().push(message),
            outcome is Err ==> final(self).entries() == old(self).entries(),
            final(self).sealed() == old(self).sealed(),
    {
        proof {
            self.offered@ = self.offered@.push(message);
        }
        if self.sealed {
            Err(SendError::Disconnected(message))
        } else {
            self.taken = Ghost(self.taken@.push(message));
            self.entries.push_back(message);
            Ok(())
        }
    }
}

impl<U> Receiver<U> for Journal<U> {
    type TryRecvError = ();

    type RecvError = Dry;

    open spec fn backlog(&self) -> Seq<U> {
        self.entries()
    }

    /// All that a journal holds is ready.
    open spec fn ready(&self) -> nat {
        self.entries().len()
    }

    /// Nobody sends into a sealed journal any more.
    open spec fn gone(&self) -> bool {
        self.sealed()
    }

    /// A journal never fails on a non-blocking receive.
    open spec fn faultless(&self) -> bool {
        true
    }

    open spec fn last_poll_fault(&self) -> Option<()> {
        None
    }

    open spec fn last_wait_fault(&self) -> Option<Dry> {
        if self.waited_dry() {
            Some(Dry)
        } else {
            None
        }
    }

    /// Hands out the message at the front. With nothing to hand out, the journal
    /// is disconnected if it is sealed, and empty if it is not.
    fn try_recv(&mut self) -> (outcome: Result<U, TryRecvError<()>>)
        ensures
            outcome is Ok <==> old(self).entries().len() > 0,
            outcome matches Err(error) ==> (if old(self).sealed() {
                error is Disconnected
            } else {
                error is Empty
            }),
            final(self).sealed() == old(self).sealed(),
            final(self).taken() == old(self).taken(),
    {
        match self.entries.pop_front() {
            Some(message) => Ok(message),
            None => if self.sealed {
                Err(TryRecvError::Disconnected)
            } else {
                Err(TryRecvError::Empty)
            },
        }
    }

    /// Hands out the message at the front. With nothing to hand out, the journal
    /// is disconnected if it is sealed; if it is not, the receive fails as `Dry`
    /// rather than wait for a message that nobody could send.
    fn recv(&mut self) -> (outcome: Result<U, RecvError<Dry>>)
        ensures
            outcome is Ok <==> old(self).entries().len() > 0,
            outcome matches Err(error) ==> (if old(self).sealed() {
                error is Disconnected
            } else {
                error is Inner
            }),
            final(self).sealed() == old(self).sealed(),
            final(self).taken() == old(self).taken(),
    {
        match self.entries.pop_front() {
            Some(message) => {
                self.waited_dry = Ghost(false);
                Ok(message)
            },
            None => if self.sealed {
                self.waited_dry = Ghost(false);
                Err(RecvError::Disconnected)
            } else {
                self.waited_dry = Ghost(true);
                Err(RecvError::Inner(Dry))
            },
        }
    }
}

} // verus!
