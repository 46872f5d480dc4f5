use vstd::prelude::*;
use crate::fanout::{all_faultless, answer, first_fault, offered, relayed, survived, Subscribers};
use crate::follower::Follower;
use crate::map::{total_on_refs, SendMap};
use crate::sequenced::Sequenced;
use crate::signal::Signal;
use crate::transport::{Receiver, Sender};
use crate::update::Update;

verus! {

/// The one writer of a replicated state.
///
/// A leader owns the canonical copy of the state. It changes it only by applying
/// updates, and offers a copy of each update, in the order applied, to every
/// subscriber. A subscriber that reports a disconnect is pruned on the spot.
#[verifier::reject_recursive_types(S)]
#[verifier::reject_recursive_types(U)]
pub struct Leader<S, U: Update<S>, Tx: Sender<Message = U>> {
    state: S,
    subscribers: Subscribers<Tx>,
    _update: std::marker::PhantomData<U>,
}

impl<S, U: Update<S>, Tx: Sender<Message = U>> Leader<S, U, Tx> {
    /// The canonical state as it stands.
    pub closed spec fn canonical(&self) -> S {
        self.state
    }

    /// The senders that lead to the subscribers, oldest subscription first.
    pub closed spec fn subscribers(&self) -> Seq<Tx> {
        self.subscribers@
    }

    /// Starts a leader from `state`, with no subscribers.
    pub fn new(state: S) -> (leader: Self)
        ensures
            leader.canonical() == state,
            leader.subscribers().len() == 0,
    {
        Leader { state, subscribers: Subscribers::new(), _update: std::marker::PhantomData }
    }

    /// The canonical state as it stands.
    pub fn state(&self) -> (state: &S)
        ensures
            *state == self.canonical(),
    {
        &self.state
    }

    /// The number of subscribers that have not been pruned.
    pub fn subscriber_count(&self) -> (count: usize)
        ensures
            count == self.subscribers().len(),
    {
        self.subscribers.len()
    }

    /// Registers `follower`, the sending end of a channel, behind the subscribers
    /// that are there, and lends it back for further setup.
    pub fn lead(&mut self, follower: Tx) -> (registered: &mut Tx)
        ensures
            *registered == follower,
            final(self).subscribers() == old(self).subscribers().push(*final(registered)),
            final(self).canonical() == old(self).canonical(),
    {
        self.subscribers.add(follower)
    }

    /// Subscribes a new follower: `sender` is registered behind the subscribers
    /// that are there, and the follower listens to `receiver`, the other end of
    /// the same channel. It starts from a copy of the canonical state as it
    /// stands, and is then sent every update applied from now on.
    pub fn follow<Rx: Receiver<U>, W: Signal>(&mut self, sender: Tx, receiver: Rx) -> (follower:
        Follower<S, U, Rx, Tx, W>) where S: Clone
        ensures
            final(self).canonical() == old(self).canonical(),
            final(self).subscribers() == old(self).subscribers().push(sender),
            cloned(old(self).canonical(), follower.replica()),
            follower.backlog() == receiver.backlog(),
            follower.ready() == receiver.ready(),
            follower.upstream_gone() == receiver.gone(),
            follower.upstream_faultless() == receiver.faultless(),
            follower.subscribers().len() == 0,
            follower.waiters().len() == 0,
            follower.raised().len() == 0,
            !follower.disconnected(),
    {
        self.subscribers.add(sender);
        Follower::new(self.state.clone(), receiver)
    }
}

impl<S, U: Update<S> + Clone, Tx: Sender<Message = U>> Leader<S, U, Tx> {
    /// Applies `update` to the canonical state, then offers a copy of it to every
    /// subscriber, oldest first, pruning each one that reports a disconnect.
    ///
    /// The state is changed before anything is sent, and stays changed whatever
    /// becomes of the sending. A disconnect is never an error. Any other failure
    /// of a transport makes the call fail, after every subscriber has been tried,
    /// with the first failure reported. So the call succeeds wherever every
    /// subscriber is faultless, and where there is none.
    pub fn update(&mut self, update: U) -> (outcome: Result<(), Tx::Error>)
        ensures
            final(self).canonical() == update.applied(old(self).canonical()),
            outcome == answer(final(self).subscribers()),
            offered(old(self).subscribers(), final(self).subscribers(), update, outcome is Ok),
            outcome is Ok ==> relayed(old(self).subscribers(), final(self).subscribers(), seq![update]),
            survived(old(self).subscribers(), final(self).subscribers()),
            final(self).subscribers().len() <= old(self).subscribers().len(),
            all_faultless(old(self).subscribers()) ==> outcome is Ok && all_faultless(
                final(self).subscribers(),
            ),
    {
        update.apply(&mut self.state);
        self.subscribers.broadcast(&update)
    }
}

impl<S, U: Update<S>, O, F: Fn(&U) -> O, Tx: Sender<Message = O>> Leader<
    S,
    U,
    SendMap<U, O, F, Tx>,
> {
    /// Registers a mapping sender made of `f`, with no sender behind it yet, and
    /// lends it back for further setup.
    pub fn map(&mut self, f: F) -> (registered: &mut SendMap<U, O, F, Tx>)
        requires
            total_on_refs(f),
        ensures
            registered.function() == f,
            registered.downstream() is None,
            registered.inputs().len() == 0,
            final(self).subscribers() == old(self).subscribers().push(*final(registered)),
            final(self).canonical() == old(self).canonical(),
    {
        self.lead(SendMap::new(f))
    }
}

impl<S, U: Update<S> + Clone, Tx: Sender<Message = Sequenced<U>>> Leader<
    Sequenced<S>,
    Sequenced<U>,
    Tx,
> {
    /// The sequence number of the canonical state: the number of updates applied
    /// through `sequenced_update` since it stood at zero.
    pub fn seq(&self) -> (seq: u64)
        ensures
            seq == self.canonical().seq,
    {
        self.state.seq
    }

    /// Stamps `update` with the next sequence number and applies it as `update`
    /// does: to the canonical state first, then to every subscriber.
    ///
    /// Returns the new sequence number, for which a caller can then wait
    /// downstream.
    pub fn sequenced_update(&mut self, update: U) -> (outcome: Result<u64, Tx::Error>)
        requires
            old(self).canonical().seq < u64::MAX,
        ensures
            final(self).canonical() == (Sequenced {
                value: update.applied(old(self).canonical().value),
                seq: (old(self).canonical().seq + 1) as u64,
            }),
            outcome matches Ok(seq) ==> seq == old(self).canonical().seq + 1,
            outcome is Ok <==> first_fault(final(self).subscribers()) is None,
            outcome matches Err(error) ==> first_fault(final(self).subscribers()) == Some(error),
            offered(
                old(self).subscribers(),
                final(self).subscribers(),
                Sequenced { value: update, seq: (old(self).canonical().seq + 1) as u64 },
                outcome is Ok,
            ),
            outcome is Ok ==> relayed(
                old(self).subscribers(),
                final(self).subscribers(),
                seq![
                    Sequenced { value: update, seq: (old(self).canonical().seq + 1) as u64 },
                ],
            ),
            survived(old(self).subscribers(), final(self).subscribers()),
            final(self).subscribers().len() <= old(self).subscribers().len(),
            all_faultless(old(self).subscribers()) ==> outcome is Ok && all_faultless(
                final(self).subscribers(),
            ),
    {
        let seq = self.state.seq + 1;
        let stamped = Sequenced { value: update, seq };
        match self.update(stamped) {
            Ok(()) => Ok(seq),
            Err(error) => Err(error),
        }
    }
}

} // verus!
