use vstd::prelude::*;
use crate::transport::{Receiver, RecvError, SendError, Sender, TryRecvError};

verus! {

/// `f` can be called on every input.
pub open spec fn total_on_refs<I, O, F: Fn(&I) -> O>(f: F) -> bool {
    forall|input: I| call_requires(f, (&input,))
}

/// `f` can be called on every input, and what it returns is a function of its
/// input alone.
pub open spec fn functional<I, O, F: Fn(I) -> O>(f: F) -> bool {
    &&& forall|input: I| call_requires(f, (input,))
    &&& forall|input: I, one: O, other: O|
        call_ensures(f, (input,), one) && call_ensures(f, (input,), other) ==> one == other
}

/// What `f` returns for `input`.
pub open spec fn image<I, O, F: Fn(I) -> O>(f: F, input: I) -> O {
    choose|output: O| call_ensures(f, (input,), output)
}

/// What a mapping sender answers for `input` once the sender behind it has
/// answered for the image: success for success, a disconnect with `input` handed
/// back for a disconnect, and any other failure as it came.
pub fn hand_back<I, O, E>(input: I, sent: Result<(), SendError<O, E>>) -> (outcome: Result<
    (),
    SendError<I, E>,
>)
    ensures
        match sent {
            Ok(()) => outcome is Ok,
            Err(SendError::Disconnected(_)) => outcome == Err::<(), SendError<I, E>>(
                SendError::Disconnected(input),
            ),
            Err(SendError::Inner(error)) => outcome == Err::<(), SendError<I, E>>(
                SendError::Inner(error),
            ),
        },
{
    match sent {
        Ok(()) => Ok(()),
        Err(SendError::Disconnected(_)) => Err(SendError::Disconnected(input)),
        Err(SendError::Inner(error)) => Err(SendError::Inner(error)),
    }
}

/// A function on references that is known to accept every input.
#[verifier::reject_recursive_types(I)]
#[verifier::reject_recursive_types(O)]
#[verifier::reject_recursive_types(F)]
struct Outgoing<I, O, F: Fn(&I) -> O> {
    f: F,
    _i: std::marker::PhantomData<I>,
    _o: std::marker::PhantomData<O>,
}

impl<I, O, F: Fn(&I) -> O> Outgoing<I, O, F> {
    #[verifier::type_invariant]
    spec fn inv(self) -> bool {
        total_on_refs(self.f)
    }

    spec fn function(&self) -> F {
        self.f
    }

    fn new(f: F) -> (outgoing: Self)
        requires
            total_on_refs(f),
        ensures
            outgoing.function() == f,
    {
        Outgoing { f, _i: std::marker::PhantomData, _o: std::marker::PhantomData }
    }

    fn call(&self, input: &I) -> (output: O)
        ensures
            call_ensures(self.function(), (input,), output),
    {
        proof {
            use_type_invariant(self);
        }
        (self.f)(input)
    }
}

/// A sender that passes each message through a function before it hands the
/// result on to the sender behind it.
///
/// Until a sender is put behind it, it reports every send as disconnected.
#[verifier::reject_recursive_types(I)]
#[verifier::reject_recursive_types(O)]
#[verifier::reject_recursive_types(F)]
pub struct SendMap<I, O, F: Fn(&I) -> O, Tx: Sender<Message = O>> {
    f: Outgoing<I, O, F>,
    tx: Option<Tx>,
    taken: Ghost<Seq<I>>,
    offered: Ghost<Seq<I>>,
}

impl<I, O, F: Fn(&I) -> O, Tx: Sender<Message = O>> SendMap<I, O, F, Tx> {
    /// The function that messages are passed through.
    pub closed spec fn function(&self) -> F {
        self.f.function()
    }

    /// The sender behind this one, if one has been put there.
    pub closed spec fn downstream(&self) -> Option<Tx> {
        self.tx
    }

    /// The messages taken so far, as they were before passing through the function.
    pub closed spec fn inputs(&self) -> Seq<I> {
        self.taken@
    }

    /// The messages handed to this sender so far, taken or not, as they were
    /// before passing through the function.
    pub closed spec fn offers(&self) -> Seq<I> {
        self.offered@
    }

    /// Wraps `f`, with no sender behind it yet.
    pub fn new(f: F) -> (map: Self)
        requires
            total_on_refs(f),
        ensures
            map.function() == f,
            map.downstream() is None,
            map.inputs().len() == 0,
    {
        SendMap {
            f: Outgoing::new(f),
            tx: None,
            taken: Ghost(Seq::empty()),
            offered: Ghost(Seq::empty()),
        }
    }

    /// Puts `follower` behind this sender, in place of any sender that was there,
    /// and lends it back for further setup.
    pub fn lead(&mut self, follower: Tx) -> (registered: &mut Tx)
        ensures
            *registered == follower,
            final(self).downstream() == Some(*final(registered)),
            final(self).function() == old(self).function(),
            final(self).inputs() == old(self).inputs(),
    {
        self.tx.insert(follower)
    }
}

impl<I, O, P, F: Fn(&I) -> O, G: Fn(&O) -> P, Tx: Sender<Message = P>> SendMap<
    I,
    O,
    F,
    SendMap<O, P, G, Tx>,
> {
    /// Puts a further mapping sender behind this one, made of `g` and with no
    /// sender behind it yet, and lends it back for further setup.
    pub fn map(&mut self, g: G) -> (registered: &mut SendMap<O, P, G, Tx>)
        requires
            total_on_refs(g),
        ensures
            registered.function() == g,
            registered.downstream() is None,
            registered.inputs().len() == 0,
            final(self).downstream() == Some(*final(registered)),
            final(self).function() == old(self).function(),
            final(self).inputs() == old(self).inputs(),
    {
        self.lead(SendMap::new(g))
    }
}

impl<I, O, F: Fn(&I) -> O, Tx: Sender<Message = O>> Sender for SendMap<I, O, F, Tx> {
    type Message = I;

    type Error = Tx::Error;

    /// The messages taken so far, as they were before passing through the function.
    open spec fn accepted(&self) -> Seq<I> {
        self.inputs()
    }

    open spec fn handed(&self) -> Seq<I> {
        self.offers()
    }

    /// Severed while there is no sender behind, and then as that sender is.
    open spec fn severed(&self) -> bool {
        match self.downstream() {
            Some(downstream) => downstream.severed(),
            None => true,
        }
    }

    /// Faultless as the sender behind is; with none behind, nothing can fail.
    open spec fn faultless(&self) -> bool {
        match self.downstream() {
            Some(downstream) => downstream.faultless(),
            None => true,
        }
    }

    /// The last failure of the sender behind; none where there is no sender
    /// behind.
    open spec fn last_fault(&self) -> Option<Tx::Error> {
        match self.downstream() {
            Some(downstream) => downstream.last_fault(),
            None => None,
        }
    }

    /// Passes `input` through the function and hands the result to the sender
    /// behind; what that sender answers is answered in turn as `hand_back` says. With no
    /// sender behind, the function is not called and the answer is a disconnect
    /// that hands `input` back.
    fn send(&mut self, input: I) -> (outcome: Result<(), SendError<I, Tx::Error>>)
        ensures
            final(self).function() == old(self).function(),
            old(self).downstream() is None ==> outcome == Err::<(), SendError<I, Tx::Error>>(
                SendError::Disconnected(input),
            ) && final(self).downstream() is None,
            old(self).downstream() matches Some(before) ==> final(self).downstream() matches Some(
                after,
            ) && (outcome is Ok ==> exists|output: O|
                call_ensures(old(self).function(), (&input,), output) && after.accepted()
                    == before.accepted().push(output)) && (outcome is Err ==> after.accepted()
                == before.accepted()) && (exists|output: O|
                call_ensures(old(self).function(), (&input,), output) && after.handed()
                    == before.handed().push(output)),
    {
        proof {
            self.offered@ = self.offered@.push(input);
        }
        match &mut self.tx {
            Some(tx) => {
                let output = self.f.call(&input);
                let sent = tx.send(output);
                if sent.is_ok() {
                    self.taken = Ghost(self.taken@.push(input));
                }
                hand_back(input, sent)
            },
            None => Err(SendError::Disconnected(input)),
        }
    }
}

/// A function that is known to accept every input and to return one result for
/// each.
#[verifier::reject_recursive_types(I)]
#[verifier::reject_recursive_types(O)]
#[verifier::reject_recursive_types(F)]
struct Incoming<I, O, F: Fn(I) -> O> {
    f: F,
    _i: std::marker::PhantomData<I>,
    _o: std::marker::PhantomData<O>,
}

impl<I, O, F: Fn(I) -> O> Incoming<I, O, F> {
    #[verifier::type_invariant]
    spec fn inv(self) -> bool {
        functional(self.f)
    }

    spec fn function(&self) -> F {
        self.f
    }

    fn new(f: F) -> (incoming: Self)
        requires
            functional(f),
        ensures
            incoming.function() == f,
    {
        Incoming { f, _i: std::marker::PhantomData, _o: std::marker::PhantomData }
    }

    fn call(&self, input: I) -> (output: O)
        ensures
            output == image(self.function(), input),
    {
        proof {
            use_type_invariant(self);
        }
        (self.f)(input)
    }
}

/// A receiver that passes each message of the receiver behind it through a
/// function before it hands the result out.
///
/// Until a receiver is put behind it, it reports every receive as disconnected.
#[verifier::reject_recursive_types(I)]
#[verifier::reject_recursive_types(O)]
#[verifier::reject_recursive_types(F)]
pub struct RecvMap<I, O, F: Fn(I) -> O, Rx: Receiver<I>> {
    f: Incoming<I, O, F>,
    rx: Option<Rx>,
}

impl<I, O, F: Fn(I) -> O, Rx: Receiver<I>> RecvMap<I, O, F, Rx> {
    /// The function that messages are passed through.
    pub closed spec fn function(&self) -> F {
        self.f.function()
    }

    /// The receiver behind this one, if one has been put there.
    pub closed spec fn upstream(&self) -> Option<Rx> {
        self.rx
    }

    /// Wraps `f`, with no receiver behind it yet.
    pub fn new(f: F) -> (map: Self)
        requires
            functional(f),
        ensures
            map.function() == f,
            map.upstream() is None,
    {
        RecvMap { f: Incoming::new(f), rx: None }
    }

    /// What this receiver hands out once the receiver behind it has answered a
    /// non-blocking receive: the image of a message for the message, and every
    /// failure as it came.
    pub fn pass_polled<E>(&self, polled: Result<I, TryRecvError<E>>) -> (outcome: Result<
        O,
        TryRecvError<E>,
    >)
        ensures
            match polled {
                Ok(input) => outcome == Ok::<O, TryRecvError<E>>(image(self.function(), input)),
                Err(TryRecvError::Empty) => outcome matches Err(TryRecvError::Empty),
                Err(TryRecvError::Disconnected) => outcome matches Err(TryRecvError::Disconnected),
                Err(TryRecvError::Inner(error)) => outcome == Err::<O, TryRecvError<E>>(
                    TryRecvError::Inner(error),
                ),
            },
    {
        match polled {
            Ok(input) => Ok(self.f.call(input)),
            Err(TryRecvError::Empty) => Err(TryRecvError::Empty),
            Err(TryRecvError::Disconnected) => Err(TryRecvError::Disconnected),
            Err(TryRecvError::Inner(error)) => Err(TryRecvError::Inner(error)),
        }
    }

    /// What this receiver hands out once the receiver behind it has answered a
    /// blocking receive: the image of a message for the message, and every
    /// failure as it came.
    pub fn pass_awaited<E>(&self, awaited: Result<I, RecvError<E>>) -> (outcome: Result<
        O,
        RecvError<E>,
    >)
        ensures
            match awaited {
                Ok(input) => outcome == Ok::<O, RecvError<E>>(image(self.function(), input)),
                Err(RecvError::Disconnected) => outcome matches Err(RecvError::Disconnected),
                Err(RecvError::Inner(error)) => outcome == Err::<O, RecvError<E>>(
                    RecvError::Inner(error),
                ),
            },
    {
        match awaited {
            Ok(input) => Ok(self.f.call(input)),
            Err(RecvError::Disconnected) => Err(RecvError::Disconnected),
            Err(RecvError::Inner(error)) => Err(RecvError::Inner(error)),
        }
    }

    /// Puts `leader` behind this receiver, in place of any receiver that was
    /// there, and lends it back for further setup.
    pub fn follow(&mut self, leader: Rx) -> (registered: &mut Rx)
        ensures
            *registered == leader,
            final(self).upstream() == Some(*final(registered)),
            final(self).function() == old(self).function(),
    {
        self.rx.insert(leader)
    }
}

impl<I, O, F: Fn(I) -> O, Rx: Receiver<I>> Receiver<O> for RecvMap<I, O, F, Rx> {
    type TryRecvError = Rx::TryRecvError;

    type RecvError = Rx::RecvError;

    /// The backlog of the receiver behind, each message passed through the
    /// function; empty where there is no receiver behind.
    open spec fn backlog(&self) -> Seq<O> {
        match self.upstream() {
            Some(upstream) => upstream.backlog().map_values(
                |input: I| image(self.function(), input),
            ),
            None => Seq::empty(),
        }
    }

    /// As many as the receiver behind has ready; none where there is no receiver
    /// behind.
    open spec fn ready(&self) -> nat {
        match self.upstream() {
            Some(upstream) => upstream.ready(),
            None => 0,
        }
    }

    /// Gone while there is no receiver behind, and then as the sending end of
    /// that receiver is.
    open spec fn gone(&self) -> bool {
        match self.upstream() {
            Some(upstream) => upstream.gone(),
            None => true,
        }
    }

    /// Faultless as the receiver behind is; with none behind, nothing can fail.
    open spec fn faultless(&self) -> bool {
        match self.upstream() {
            Some(upstream) => upstream.faultless(),
            None => true,
        }
    }

    /// The last failure of the receiver behind on a non-blocking receive; none
    /// where there is no receiver behind.
    open spec fn last_poll_fault(&self) -> Option<Rx::TryRecvError> {
        match self.upstream() {
            Some(upstream) => upstream.last_poll_fault(),
            None => None,
        }
    }

    /// The last failure of the receiver behind on a blocking receive; none where
    /// there is no receiver behind.
    open spec fn last_wait_fault(&self) -> Option<Rx::RecvError> {
        match self.upstream() {
            Some(upstream) => upstream.last_wait_fault(),
            None => None,
        }
    }

    /// Asks the receiver behind, and hands out what `pass_polled` makes of its
    /// answer. With no receiver behind, the answer is a disconnect.
    fn try_recv(&mut self) -> (outcome: Result<O, TryRecvError<Rx::TryRecvError>>)
        ensures
            final(self).function() == old(self).function(),
            old(self).upstream() is None ==> outcome matches Err(TryRecvError::Disconnected),
            final(self).upstream() is Some == old(self).upstream() is Some,
    {
        match &mut self.rx {
            Some(rx) => {
                let ghost before = rx.backlog();
                let polled = rx.try_recv();
                proof {
                    if polled is Ok {
                        let map = |input: I| image(self.function(), input);
                        assert(before.skip(1).map_values(map) =~= before.map_values(map).skip(1));
                    }
                }
                self.pass_polled(polled)
            },
            None => Err(TryRecvError::Disconnected),
        }
    }

    /// Waits on the receiver behind, and hands out what `pass_awaited` makes of
    /// its answer. With no receiver behind, the answer is a disconnect.
    fn recv(&mut self) -> (outcome: Result<O, RecvError<Rx::RecvError>>)
        ensures
            final(self).function() == old(self).function(),
            old(self).upstream() is None ==> outcome matches Err(RecvError::Disconnected),
            final(self).upstream() is Some == old(self).upstream() is Some,
    {
        match &mut self.rx {
            Some(rx) => {
                let ghost before = rx.backlog();
                let awaited = rx.recv();
                proof {
                    if awaited is Ok {
                        let map = |input: I| image(self.function(), input);
                        assert(before.skip(1).map_values(map) =~= before.map_values(map).skip(1));
                    }
                }
                self.pass_awaited(awaited)
            },
            None => Err(RecvError::Disconnected),
        }
    }
}

} // verus!
