use vstd::prelude::*;
use crate::fanout::{lemma_relayed_nothing, lemma_relayed_survived, lemma_relayed_then};
use crate::fanout::{all_faultless, answer, first_fault, lemma_survived_then};
use crate::fanout::{offered, relayed, survived, Subscribers};
use crate::sequenced::Sequenced;
use crate::signal::{due, lemma_due_or_waiting, raised_on, still_waiting, Signal, Waiter, Waiters};
use crate::transport::{Receiver, RecvError, Sender, TryRecvError};
use crate::update::{lemma_replay_concat, lemma_replay_push, replay, Update};

verus! {

/// How a follower stands with its upstream after a refresh.
#[derive(Debug, PartialEq, Eq, Clone, Copy)]
pub enum Status {
    /// Everything that was ready has been applied; more may come.
    CaughtUp,
    /// The upstream is gone for good: nothing more will ever come.
    Disconnected,
}

/// Why a follower could not go on.
#[derive(Debug)]
pub enum FollowError<R, P, T> {
    /// The upstream is gone for good and has nothing left to deliver.
    Disconnected,
    /// A blocking receive failed in some other way.
    Recv(R),
    /// A non-blocking receive failed in some other way.
    TryRecv(P),
    /// Relaying an update to the subscribers failed.
    Relay(T),
}

/// What a follower does next, once its upstream has answered a receive.
pub enum Next<U, E> {
    /// Take this update in, and ask again.
    Take(U),
    /// Stop, with this to say of the upstream.
    Stop(Status),
    /// Give up, with this failure.
    Fail(E),
}

/// Reads the answer to a non-blocking receive: an update is taken in, an empty
/// upstream ends the drain as caught up, an upstream that is gone ends it as
/// disconnected, and any other failure is handed on as it came.
pub fn sort_polled<U, R, P, T>(polled: Result<U, TryRecvError<P>>) -> (next: Next<
    U,
    FollowError<R, P, T>,
>)
    ensures
        match polled {
            Ok(update) => next == Next::<U, FollowError<R, P, T>>::Take(update),
            Err(TryRecvError::Empty) => next == Next::<U, FollowError<R, P, T>>::Stop(
                Status::CaughtUp,
            ),
            Err(TryRecvError::Disconnected) => next == Next::<U, FollowError<R, P, T>>::Stop(
                Status::Disconnected,
            ),
            Err(TryRecvError::Inner(error)) => next == Next::<U, FollowError<R, P, T>>::Fail(
                FollowError::TryRecv(error),
            ),
        },
{
    match polled {
        Ok(update) => Next::Take(update),
        Err(TryRecvError::Empty) => Next::Stop(Status::CaughtUp),
        Err(TryRecvError::Disconnected) => Next::Stop(Status::Disconnected),
        Err(TryRecvError::Inner(error)) => Next::Fail(FollowError::TryRecv(error)),
    }
}

/// Reads the answer to a blocking receive: an update is taken in, an upstream
/// that is gone ends the wait as disconnected, and any other failure is handed on
/// as it came.
pub fn sort_awaited<U, R, P, T>(awaited: Result<U, RecvError<R>>) -> (next: Next<
    U,
    FollowError<R, P, T>,
>)
    ensures
        match awaited {
            Ok(update) => next == Next::<U, FollowError<R, P, T>>::Take(update),
            Err(RecvError::Disconnected) => next == Next::<U, FollowError<R, P, T>>::Stop(
                Status::Disconnected,
            ),
            Err(RecvError::Inner(error)) => next == Next::<U, FollowError<R, P, T>>::Fail(
                FollowError::Recv(error),
            ),
        },
{
    match awaited {
        Ok(update) => Next::Take(update),
        Err(RecvError::Disconnected) => Next::Stop(Status::Disconnected),
        Err(RecvError::Inner(error)) => Next::Fail(FollowError::Recv(error)),
    }
}

/// Reads the outcome of a relay: a failure is handed on as it came, marked as a
/// failure of relaying.
pub fn sort_relayed<R, P, T>(relayed: Result<(), T>) -> (outcome: Result<(), FollowError<R, P, T>>)
    ensures
        match relayed {
            Ok(()) => outcome is Ok,
            Err(error) => outcome == Err::<(), FollowError<R, P, T>>(FollowError::Relay(error)),
        },
{
    match relayed {
        Ok(()) => Ok(()),
        Err(error) => Err(FollowError::Relay(error)),
    }
}

/// Reads the outcome of a refresh for a read, which has no way to report it: a
/// failure is kept as it came, and success leaves nothing to keep.
pub fn failure_of<E>(outcome: Result<Status, E>) -> (failure: Option<E>)
    ensures
        match outcome {
            Ok(_) => failure is None,
            Err(error) => failure == Some(error),
        },
{
    match outcome {
        Ok(_) => None,
        Err(error) => Some(error),
    }
}

/// The waiters that one update leaves waiting: an update that carries a sequence
/// number releases the waiters whose target it reaches, any other releases none.
pub open spec fn passed_by<S, U: Update<S>, W>(waiters: Seq<Waiter<W>>, update: U) -> Seq<
    Waiter<W>,
> {
    match update.stamp() {
        Some(reached) => still_waiting(waiters, reached),
        None => waiters,
    }
}

/// The waiters that one update owes their signal: an update that carries a
/// sequence number owes it to the waiters whose target it reaches, any other to
/// none.
pub open spec fn owed_by<S, U: Update<S>, W>(waiters: Seq<Waiter<W>>, update: U) -> Seq<Waiter<W>> {
    match update.stamp() {
        Some(reached) => due(waiters, reached),
        None => Seq::empty(),
    }
}

/// The waiters that are left once every update of `batch` has been applied, one
/// after the other.
pub open spec fn waiting_after<S, U: Update<S>, W>(waiters: Seq<Waiter<W>>, batch: Seq<U>) -> Seq<
    Waiter<W>,
>
    decreases batch.len(),
{
    if batch.len() == 0 {
        waiters
    } else {
        passed_by::<S, U, W>(waiting_after::<S, U, W>(waiters, batch.drop_last()), batch.last())
    }
}

/// Applying `first` and then `second` leaves the waiters that applying their
/// concatenation leaves.
pub proof fn lemma_waiting_after_concat<S, U: Update<S>, W>(
    waiters: Seq<Waiter<W>>,
    first: Seq<U>,
    second: Seq<U>,
)
    ensures
        waiting_after::<S, U, W>(waiters, first + second) == waiting_after::<S, U, W>(
            waiting_after::<S, U, W>(waiters, first),
            second,
        ),
    decreases second.len(),
{
    if second.len() == 0 {
        assert(first + second =~= first);
    } else {
        lemma_waiting_after_concat::<S, U, W>(waiters, first, second.drop_last());
        assert((first + second).drop_last() =~= first + second.drop_last());
        assert((first + second).last() == second.last());
    }
}

/// A replica of a leader's state, rebuilt from the updates that arrive from
/// upstream and applied in the order in which they arrive.
///
/// A follower may have subscribers of its own, to which it relays a copy of every
/// update after applying it, and waiters, which it releases as soon as an update
/// carries a sequence number that reaches their target.
#[verifier::reject_recursive_types(S)]
#[verifier::reject_recursive_types(U)]
pub struct Follower<S, U: Update<S>, Rx: Receiver<U>, Tx: Sender<Message = U>, W: Signal> {
    state: S,
    leader: Rx,
    subscribers: Subscribers<Tx>,
    waiters: Waiters<W>,
    disconnected: bool,
    failure: Option<FollowError<Rx::RecvError, Rx::TryRecvError, Tx::Error>>,
    _update: std::marker::PhantomData<U>,
}

impl<S, U: Update<S>, Rx: Receiver<U>, Tx: Sender<Message = U>, W: Signal> Follower<S, U, Rx, Tx, W> {
    /// The replica as it stands.
    pub closed spec fn replica(&self) -> S {
        self.state
    }

    /// The updates that the upstream has yet to hand out, oldest first: none,
    /// once the upstream has been seen to be gone.
    pub closed spec fn backlog(&self) -> Seq<U> {
        if self.disconnected {
            Seq::empty()
        } else {
            self.leader.backlog()
        }
    }

    /// The number of updates that the upstream has ready to hand out at once.
    pub closed spec fn ready(&self) -> nat {
        if self.disconnected {
            0
        } else {
            self.leader.ready()
        }
    }

    /// The senders that lead to this follower's own subscribers.
    pub closed spec fn subscribers(&self) -> Seq<Tx> {
        self.subscribers@
    }

    /// The waiters that have not been released yet.
    pub closed spec fn waiters(&self) -> Seq<Waiter<W>> {
        self.waiters@
    }

    /// The signals that have been raised, each as the raise left it, oldest
    /// first.
    pub closed spec fn raised(&self) -> Seq<W> {
        self.waiters.raised()
    }

    /// Whether the upstream has been seen to be gone for good.
    pub closed spec fn disconnected(&self) -> bool {
        self.disconnected
    }

    /// The failure that ended the drain of the last read, if one did and it has
    /// not been taken since.
    pub closed spec fn last_failure(&self) -> Option<
        FollowError<Rx::RecvError, Rx::TryRecvError, Tx::Error>,
    > {
        self.failure
    }

    /// Whether the sending end of the upstream is gone for good: it is once the
    /// upstream has been seen to be gone.
    pub closed spec fn upstream_gone(&self) -> bool {
        self.disconnected || self.leader.gone()
    }

    /// Whether no non-blocking receive from the upstream can fail but by its
    /// being empty or disconnected: none can once the upstream has been seen to be
    /// gone, as none is made.
    pub closed spec fn upstream_faultless(&self) -> bool {
        self.disconnected || self.leader.faultless()
    }

    /// The failure with which the upstream answered the last non-blocking
    /// receive, if it answered with one.
    pub closed spec fn upstream_poll_fault(&self) -> Option<Rx::TryRecvError> {
        self.leader.last_poll_fault()
    }

    /// The failure with which the upstream answered the last blocking receive,
    /// if it answered with one.
    pub closed spec fn upstream_wait_fault(&self) -> Option<Rx::RecvError> {
        self.leader.last_wait_fault()
    }

    /// `error` is the failure that a transport of `after` has just answered with,
    /// as it came: the upstream's last on a receive, or the first among the
    /// subscribers on a relay; or it is the disconnect that `after` has seen.
    pub open spec fn reported(
        after: Self,
        error: FollowError<Rx::RecvError, Rx::TryRecvError, Tx::Error>,
    ) -> bool {
        match error {
            FollowError::Disconnected => after.disconnected(),
            FollowError::Recv(fault) => after.upstream_wait_fault() == Some(fault),
            FollowError::TryRecv(fault) => after.upstream_poll_fault() == Some(fault),
            FollowError::Relay(fault) => first_fault(after.subscribers()) == Some(fault),
        }
    }

    /// Nothing that this follower talks to on a refresh can fail: the upstream is
    /// faultless, and so is every subscriber.
    pub open spec fn sound(&self) -> bool {
        self.upstream_faultless() && all_faultless(self.subscribers())
    }

    /// A follower that has seen its upstream go has nothing left to receive.
    pub proof fn lemma_disconnected_is_final(&self)
        ensures
            self.disconnected() ==> self.backlog().len() == 0 && self.ready() == 0
                && self.upstream_gone() && self.upstream_faultless(),
    {
    }

    /// `after` listens to its upstream as `before` did: nothing was received in
    /// between, and no failure was kept or taken.
    pub open spec fn same_upstream(before: Self, after: Self) -> bool {
        &&& after.backlog() == before.backlog()
        &&& after.ready() == before.ready()
        &&& after.disconnected() == before.disconnected()
        &&& after.upstream_gone() == before.upstream_gone()
        &&& after.upstream_faultless() == before.upstream_faultless()
        &&& after.last_failure() == before.last_failure()
    }

    /// Every waiter that `before` had and `after` has no more has had its signal
    /// raised: the record has grown by as many signals as waiters have left, and
    /// each of them is raised.
    pub open spec fn signalled(before: Self, after: Self) -> bool {
        &&& before.raised().is_prefix_of(after.raised())
        &&& after.raised().len() + after.waiters().len() == before.raised().len()
            + before.waiters().len()
        &&& forall|i: int|
            before.raised().len() <= i < after.raised().len() ==> (#[trigger] after.raised()[i]).raised()
    }

    /// What has been raised stays raised, and what is raised later is raised too.
    pub proof fn lemma_signalled_then(before: Self, middle: Self, after: Self)
        requires
            Self::signalled(before, middle),
            Self::signalled(middle, after),
        ensures
            Self::signalled(before, after),
    {
        assert forall|i: int| before.raised().len() <= i < after.raised().len() implies (
        #[trigger] after.raised()[i]).raised() by {
            if i < middle.raised().len() {
                assert(middle.raised()[i] == after.raised()[i]);
            }
        }
    }

    /// What was so of the transports of `before` is still so of those of `after`:
    /// an upstream that was gone is gone, one that was faultless is faultless, and
    /// subscribers that were all faultless are all faultless.
    pub open spec fn lasting(before: Self, after: Self) -> bool {
        &&& before.upstream_gone() ==> after.upstream_gone()
        &&& before.upstream_faultless() ==> after.upstream_faultless()
        &&& all_faultless(before.subscribers()) ==> all_faultless(after.subscribers())
    }

    /// Starts a follower from `state`, listening to `leader`, with no subscribers
    /// and no waiters.
    pub fn new(state: S, leader: Rx) -> (follower: Self)
        ensures
            follower.replica() == state,
            follower.backlog() == leader.backlog(),
            follower.ready() == leader.ready(),
            follower.upstream_gone() == leader.gone(),
            follower.upstream_faultless() == leader.faultless(),
            follower.subscribers().len() == 0,
            follower.waiters().len() == 0,
            follower.raised().len() == 0,
            follower.last_failure() is None,
            !follower.disconnected(),
    {
        Follower {
            state,
            leader,
            subscribers: Subscribers::new(),
            waiters: Waiters::new(),
            disconnected: false,
            failure: None,
            _update: std::marker::PhantomData,
        }
    }

    /// The replica as it stands, without looking for new updates.
    pub fn state(&self) -> (state: &S)
        ensures
            *state == self.replica(),
    {
        &self.state
    }

    /// The number of this follower's own subscribers that have not been pruned.
    pub fn subscriber_count(&self) -> (count: usize)
        ensures
            count == self.subscribers().len(),
    {
        self.subscribers.len()
    }

    /// The number of waiters that have not been released yet.
    pub fn waiter_count(&self) -> (count: usize)
        ensures
            count == self.waiters().len(),
    {
        self.waiters.len()
    }

    /// Whether the upstream has been seen to be gone for good.
    pub fn is_disconnected(&self) -> (gone: bool)
        ensures
            gone == self.disconnected(),
    {
        self.disconnected
    }

    /// Hands out the failure that ended the drain of the last read, if one did,
    /// and forgets it.
    pub fn take_failure(&mut self) -> (failure: Option<
        FollowError<Rx::RecvError, Rx::TryRecvError, Tx::Error>,
    >)
        ensures
            failure == old(self).last_failure(),
            final(self).last_failure() is None,
            final(self).replica() == old(self).replica(),
            final(self).backlog() == old(self).backlog(),
            final(self).ready() == old(self).ready(),
            final(self).disconnected() == old(self).disconnected(),
            final(self).upstream_gone() == old(self).upstream_gone(),
            final(self).upstream_faultless() == old(self).upstream_faultless(),
            final(self).subscribers() == old(self).subscribers(),
            final(self).waiters() == old(self).waiters(),
            final(self).raised() == old(self).raised(),
    {
        self.failure.take()
    }
}

impl<S, U: Update<S> + Clone, Rx: Receiver<U>, Tx: Sender<Message = U>, W: Signal> Follower<
    S,
    U,
    Rx,
    Tx,
    W,
> {
    /// Takes one update in: applies it to the replica, releases the waiters whose
    /// target it reaches, and relays a copy of it to every subscriber.
    ///
    /// The update is applied and the waiters are released whatever becomes of the
    /// relaying.
    pub fn absorb(&mut self, update: U) -> (outcome: Result<(), Tx::Error>)
        ensures
            final(self).replica() == update.applied(old(self).replica()),
            final(self).waiters() == passed_by::<S, U, W>(old(self).waiters(), update),
            raised_on(
                old(self).raised(),
                final(self).raised(),
                owed_by::<S, U, W>(old(self).waiters(), update),
            ),
            Self::signalled(*old(self), *final(self)),
            Self::same_upstream(*old(self), *final(self)),
            outcome == answer(final(self).subscribers()),
            offered(old(self).subscribers(), final(self).subscribers(), update, outcome is Ok),
            outcome is Ok ==> relayed(old(self).subscribers(), final(self).subscribers(), seq![update]),
            survived(old(self).subscribers(), final(self).subscribers()),
            final(self).subscribers().len() <= old(self).subscribers().len(),
            all_faultless(old(self).subscribers()) ==> outcome is Ok && all_faultless(
                final(self).subscribers(),
            ),
    {
        update.apply(&mut self.state);
        match update.sequence() {
            Some(reached) => {
                self.waiters.release(reached);
                proof {
                    lemma_due_or_waiting(old(self).waiters(), reached);
                }
            },
            None => {
                assert(self.raised().skip(self.raised().len() as int) =~= Seq::<W>::empty());
            },
        }
        proof {
            let had = old(self).raised().len() as int;
            let fresh = self.raised().skip(had);
            assert forall|i: int| had <= i < self.raised().len() implies (
            #[trigger] self.raised()[i]).raised() by {
                assert(fresh[i - had] == self.raised()[i]);
            }
        }
        self.subscribers.broadcast(&update)
    }

    /// `after` is `before` having taken in the first `count` updates of its
    /// backlog, in order: they are gone from the backlog, the replica has had each
    /// applied, and each has released the waiters it reached.
    pub open spec fn absorbed(before: Self, after: Self, count: int) -> bool {
        let batch = before.backlog().take(count);
        &&& 0 <= count <= before.backlog().len()
        &&& after.backlog() == before.backlog().skip(count)
        &&& after.replica() == replay(before.replica(), batch)
        &&& after.waiters() == waiting_after::<S, U, W>(before.waiters(), batch)
        &&& survived(before.subscribers(), after.subscribers())
        &&& Self::signalled(before, after)
        &&& Self::lasting(before, after)
    }

    /// A follower that does nothing has taken in nothing.
    proof fn lemma_absorbed_nothing(&self)
        ensures
            Self::absorbed(*self, *self, 0),
            self.backlog().take(0) == Seq::<U>::empty(),
            relayed(self.subscribers(), self.subscribers(), self.backlog().take(0)),
    {
        lemma_relayed_nothing(self.subscribers());
        lemma_relayed_survived(self.subscribers(), self.subscribers(), Seq::<U>::empty());
        assert(self.backlog().take(0) =~= Seq::<U>::empty());
        assert(self.backlog().skip(0) =~= self.backlog());
    }

    /// Taking in one more update after `count` makes `count + 1`.
    proof fn lemma_absorbed_next(before: Self, middle: Self, after: Self, count: int, update: U)
        requires
            Self::absorbed(before, middle, count),
            count < before.backlog().len(),
            update == before.backlog()[count],
            after.backlog() == middle.backlog().skip(1),
            after.replica() == update.applied(middle.replica()),
            after.waiters() == passed_by::<S, U, W>(middle.waiters(), update),
            survived(middle.subscribers(), after.subscribers()),
            Self::signalled(middle, after),
            Self::lasting(middle, after),
        ensures
            Self::absorbed(before, after, count + 1),
            before.backlog().take(count + 1) == before.backlog().take(count) + seq![update],
    {
        let batch = before.backlog().take(count);
        let longer = before.backlog().take(count + 1);
        assert(longer =~= batch + seq![update]);
        assert(longer.drop_last() =~= batch);
        assert(longer.last() == update);
        assert(before.backlog().skip(count).skip(1) =~= before.backlog().skip(count + 1));
        lemma_replay_push(before.replica(), batch, update);
        assert(batch.push(update) =~= longer);
        lemma_survived_then(before.subscribers(), middle.subscribers(), after.subscribers());
        Self::lemma_signalled_then(before, middle, after);
    }

    /// Taking in `first` updates and then `second` more is taking in `first + second`.
    pub proof fn lemma_absorbed_then(before: Self, middle: Self, after: Self, first: int, second: int)
        requires
            Self::absorbed(before, middle, first),
            Self::absorbed(middle, after, second),
        ensures
            Self::absorbed(before, after, first + second),
            before.backlog().take(first + second) == before.backlog().take(first)
                + middle.backlog().take(second),
    {
        let head = before.backlog().take(first);
        let tail = middle.backlog().take(second);
        assert(before.backlog().take(first + second) =~= head + tail);
        assert(before.backlog().skip(first).skip(second) =~= before.backlog().skip(first + second));
        lemma_replay_concat(before.replica(), head, tail);
        lemma_waiting_after_concat::<S, U, W>(before.waiters(), head, tail);
        lemma_survived_then(before.subscribers(), middle.subscribers(), after.subscribers());
        Self::lemma_signalled_then(before, middle, after);
    }

    /// Takes in every update that is ready, without waiting.
    ///
    /// Updates are taken from the upstream one by one, each through `absorb`,
    /// and what the upstream answers is read by `sort_polled`: the drain goes on
    /// until the upstream reports that it is empty, or gone, or fails, or until a
    /// relay fails. So a refresh that succeeds has taken in at least every update
    /// that was ready when it was called, and it succeeds wherever the upstream
    /// and every subscriber are faultless. It answers `Disconnected` when the
    /// upstream reports that it is gone, which an upstream that was gone when
    /// the refresh was called does in the end; a follower that has once seen its
    /// upstream go answers so at once.
    pub fn refresh(&mut self) -> (outcome: Result<
        Status,
        FollowError<Rx::RecvError, Rx::TryRecvError, Tx::Error>,
    >)
        ensures
            Self::absorbed(
                *old(self),
                *final(self),
                old(self).backlog().len() - final(self).backlog().len(),
            ),
            Self::drained(*old(self), *final(self), outcome is Ok),
            final(self).last_failure() == old(self).last_failure(),
            old(self).sound() ==> outcome is Ok,
            outcome matches Ok(Status::CaughtUp) ==> !old(self).upstream_gone(),
            final(self).disconnected() <==> outcome matches Ok(Status::Disconnected),
            old(self).disconnected() ==> final(self).disconnected(),
            outcome matches Err(error) ==> (error is TryRecv || error is Relay) && Self::reported(
                *final(self),
                error,
            ),
            outcome matches Err(FollowError::TryRecv(_)) ==> !old(self).upstream_faultless(),
            outcome matches Err(FollowError::Relay(_)) ==> !all_faultless(old(self).subscribers())
                && final(self).backlog().len() < old(self).backlog().len(),
    {
        proof {
            self.lemma_absorbed_nothing();
        }
        if self.disconnected {
            return Ok(Status::Disconnected);
        }
        let ghost mut count: int = 0;
        loop
            invariant
                !self.disconnected(),
                !old(self).disconnected(),
                self.last_failure() == old(self).last_failure(),
                Self::absorbed(*old(self), *self, count),
                count == old(self).backlog().len() - self.backlog().len(),
                old(self).ready() <= self.ready() + count,
                relayed(
                    old(self).subscribers(),
                    self.subscribers(),
                    old(self).backlog().take(count),
                ),
            decreases self.backlog().len(),
        {
            let ghost middle = *self;
            match sort_polled(self.leader.try_recv()) {
                Next::Take(update) => {
                    let relay = self.absorb(update);
                    proof {
                        Self::lemma_absorbed_next(*old(self), middle, *self, count, update);
                    }
                    match sort_relayed(relay) {
                        Ok(()) => {
                            proof {
                                lemma_relayed_then(
                                    old(self).subscribers(),
                                    middle.subscribers(),
                                    self.subscribers(),
                                    old(self).backlog().take(count),
                                    seq![update],
                                );
                                count = count + 1;
                            }
                        },
                        Err(error) => {
                            return Err(error);
                        },
                    }
                },
                Next::Stop(Status::CaughtUp) => {
                    return Ok(Status::CaughtUp);
                },
                Next::Stop(Status::Disconnected) => {
                    self.disconnected = true;
                    assert(self.backlog() =~= middle.backlog());
                    return Ok(Status::Disconnected);
                },
                Next::Fail(error) => {
                    return Err(error);
                },
            }
        }
    }

    /// What a refresh that has ended leaves, as far as it got: with success, it
    /// has taken in at least what was ready and relayed all that it took in.
    pub open spec fn drained(before: Self, after: Self, success: bool) -> bool {
        success ==> {
            &&& before.ready() + after.backlog().len() <= before.backlog().len()
            &&& relayed(
                before.subscribers(),
                after.subscribers(),
                before.backlog().take(before.backlog().len() - after.backlog().len()),
            )
        }
    }

    /// Waits for the next update, takes it in, and then takes in every update
    /// that is ready, as `refresh` does.
    ///
    /// What the upstream answers to the wait is read by `sort_awaited`. Fails with
    /// `Disconnected` only if the upstream is gone with nothing left to deliver;
    /// other failures of the transport are handed on as they come.
    pub fn refresh_blocking(&mut self) -> (outcome: Result<
        Status,
        FollowError<Rx::RecvError, Rx::TryRecvError, Tx::Error>,
    >)
        ensures
            Self::absorbed(
                *old(self),
                *final(self),
                old(self).backlog().len() - final(self).backlog().len(),
            ),
            Self::drained(*old(self), *final(self), outcome is Ok),
            final(self).last_failure() == old(self).last_failure(),
            outcome is Ok ==> final(self).backlog().len() < old(self).backlog().len(),
            old(self).disconnected() ==> outcome matches Err(FollowError::Disconnected),
            outcome matches Err(FollowError::Disconnected) ==> final(self).disconnected() && old(
                self,
            ).backlog().len() == 0 && old(self).upstream_gone(),
            outcome matches Err(FollowError::Recv(_)) ==> final(self).backlog() == old(
                self,
            ).backlog(),
            outcome matches Err(error) ==> Self::reported(*final(self), error),
            outcome matches Err(FollowError::TryRecv(_)) ==> !old(self).upstream_faultless(),
            outcome matches Err(FollowError::Relay(_)) ==> !all_faultless(old(self).subscribers()),
            outcome matches Ok(Status::CaughtUp) ==> !old(self).upstream_gone(),
            final(self).disconnected() <==> outcome matches Ok(Status::Disconnected) || outcome matches Err(
                FollowError::Disconnected,
            ),
    {
        proof {
            self.lemma_absorbed_nothing();
        }
        if self.disconnected {
            return Err(FollowError::Disconnected);
        }
        match sort_awaited(self.leader.recv()) {
            Next::Take(update) => {
                let relay = self.absorb(update);
                let ghost middle = *self;
                proof {
                    Self::lemma_absorbed_next(*old(self), *old(self), *self, 0, update);
                    assert(old(self).backlog().take(1) =~= seq![update]);
                }
                match sort_relayed(relay) {
                    Ok(()) => {
                        let rest = self.refresh();
                        proof {
                            let more = middle.backlog().len() - self.backlog().len();
                            Self::lemma_absorbed_then(*old(self), middle, *self, 1, more);
                            if rest is Ok {
                                lemma_relayed_then(
                                    old(self).subscribers(),
                                    middle.subscribers(),
                                    self.subscribers(),
                                    old(self).backlog().take(1),
                                    middle.backlog().take(more),
                                );
                            }
                        }
                        rest
                    },
                    Err(error) => Err(error),
                }
            },
            Next::Stop(_) => {
                self.disconnected = true;
                assert(self.backlog() =~= old(self).backlog());
                Err(FollowError::Disconnected)
            },
            Next::Fail(error) => Err(error),
        }
    }

    /// Takes in every update that is ready, as `refresh` does, and returns the
    /// replica.
    ///
    /// A failure of a transport ends the drain. The replica is returned as far as
    /// it got, and the failure is kept, as `failure_of` says, for `take_failure`
    /// to hand out. If none is kept, the replica has had at least every update
    /// applied that was ready when the read was called; and none is kept where
    /// the upstream and every subscriber are faultless.
    pub fn read(&mut self) -> (state: &S)
        ensures
            Self::absorbed(
                *old(self),
                *final(self),
                old(self).backlog().len() - final(self).backlog().len(),
            ),
            Self::drained(*old(self), *final(self), final(self).last_failure() is None),
            Self::failed_as(*old(self), *final(self), final(self).last_failure()),
            old(self).sound() ==> final(self).last_failure() is None,
            final(self).last_failure() is None && old(self).upstream_gone() ==> final(self).disconnected(),
            final(self).disconnected() ==> final(self).upstream_gone(),
            old(self).disconnected() ==> final(self).disconnected(),
            *state == final(self).replica(),
    {
        let outcome = self.refresh();
        self.failure = failure_of(outcome);
        &self.state
    }

    /// What the failure kept by a read says: it is the failure that a transport
    /// answered with, as it came; it is one of receiving without waiting or one
    /// of relaying; and it comes from an upstream, or from a subscriber, that was
    /// not faultless `before` the read.
    pub open spec fn failed_as(
        before: Self,
        after: Self,
        failure: Option<FollowError<Rx::RecvError, Rx::TryRecvError, Tx::Error>>,
    ) -> bool {
        match failure {
            None => true,
            Some(error) => {
                &&& Self::reported(after, error)
                &&& error is TryRecv || error is Relay
                &&& error is TryRecv ==> !before.upstream_faultless()
                &&& error is Relay ==> !all_faultless(before.subscribers())
            },
        }
    }

    /// Subscribes a new follower to this one: `sender` is registered behind the
    /// subscribers that are there, and the new follower listens to `receiver`,
    /// the other end of the same channel. It starts from a copy of the replica as
    /// it stands, and is then relayed every update that this follower takes in.
    pub fn follow(&mut self, sender: Tx, receiver: Rx) -> (child: Self) where S: Clone
        ensures
            final(self).replica() == old(self).replica(),
            Self::same_upstream(*old(self), *final(self)),
            final(self).waiters() == old(self).waiters(),
            final(self).raised() == old(self).raised(),
            final(self).subscribers() == old(self).subscribers().push(sender),
            cloned(old(self).replica(), child.replica()),
            child.backlog() == receiver.backlog(),
            child.ready() == receiver.ready(),
            child.upstream_gone() == receiver.gone(),
            child.upstream_faultless() == receiver.faultless(),
            child.subscribers().len() == 0,
            child.waiters().len() == 0,
            child.raised().len() == 0,
            !child.disconnected(),
    {
        self.subscribers.add(sender);
        Follower::new(self.state.clone(), receiver)
    }
}

impl<
    S,
    U: Update<S> + Clone,
    Rx: Receiver<Sequenced<U>>,
    Tx: Sender<Message = Sequenced<U>>,
    W: Signal,
> Follower<Sequenced<S>, Sequenced<U>, Rx, Tx, W> {
    /// The sequence number of the replica as it stands.
    pub fn seq(&self) -> (seq: u64)
        ensures
            seq == self.replica().seq,
    {
        self.state.seq
    }

    /// Takes in every update that is ready, as `read` does, and returns the
    /// replica without its sequence number.
    pub fn sequenced_read(&mut self) -> (value: &S)
        ensures
            Self::absorbed(
                *old(self),
                *final(self),
                old(self).backlog().len() - final(self).backlog().len(),
            ),
            Self::drained(*old(self), *final(self), final(self).last_failure() is None),
            Self::failed_as(*old(self), *final(self), final(self).last_failure()),
            old(self).sound() ==> final(self).last_failure() is None,
            final(self).last_failure() is None && old(self).upstream_gone() ==> final(self).disconnected(),
            final(self).disconnected() ==> final(self).upstream_gone(),
            old(self).disconnected() ==> final(self).disconnected(),
            *value == final(self).replica().value,
    {
        &self.read().value
    }

    /// Waits until the replica has reached sequence number `seq`, taking in one
    /// update after the other, and returns the replica without its number.
    ///
    /// No update is taken once the number is reached, and none is looked for if
    /// it is reached already. What the upstream answers to each wait is read by
    /// `sort_awaited`. Fails with `Disconnected` if the upstream goes before the
    /// number is reached.
    pub fn sequenced_read_at(&mut self, seq: u64) -> (outcome: Result<
        &S,
        FollowError<Rx::RecvError, Rx::TryRecvError, Tx::Error>,
    >)
        ensures
            Self::absorbed(
                *old(self),
                *final(self),
                old(self).backlog().len() - final(self).backlog().len(),
            ),
            forall|taken: int|
                0 <= taken < old(self).backlog().len() - final(self).backlog().len() ==> replay(
                    old(self).replica(),
                    #[trigger] old(self).backlog().take(taken),
                ).seq < seq,
            old(self).replica().seq >= seq ==> outcome is Ok,
            final(self).last_failure() == old(self).last_failure(),
            outcome matches Ok(value) ==> {
                &&& final(self).replica().seq >= seq
                &&& *value == final(self).replica().value
                &&& final(self).disconnected() == old(self).disconnected()
                &&& relayed(
                    old(self).subscribers(),
                    final(self).subscribers(),
                    old(self).backlog().take(
                        old(self).backlog().len() - final(self).backlog().len(),
                    ),
                )
            },
            outcome matches Err(error) ==> {
                &&& Self::reported(*final(self), error)
                &&& error is Disconnected || error is Recv || error is Relay
                &&& error is Disconnected ==> final(self).disconnected()
                &&& error is Disconnected ==> final(self).replica().seq < seq
                &&& error is Recv ==> final(self).replica().seq < seq
                &&& error is Relay ==> !all_faultless(old(self).subscribers())
                &&& !(error is Disconnected) ==> old(self).disconnected() == final(self).disconnected()
            },
            final(self).disconnected() ==> final(self).upstream_gone(),
    {
        proof {
            self.lemma_absorbed_nothing();
        }
        let ghost mut count: int = 0;
        while self.state.seq < seq
            invariant
                self.disconnected() == old(self).disconnected(),
                self.last_failure() == old(self).last_failure(),
                Self::absorbed(*old(self), *self, count),
                count == old(self).backlog().len() - self.backlog().len(),
                old(self).replica().seq >= seq ==> self.replica() == old(self).replica(),
                forall|taken: int|
                    0 <= taken < count ==> replay(
                        old(self).replica(),
                        #[trigger] old(self).backlog().take(taken),
                    ).seq < seq,
                relayed(
                    old(self).subscribers(),
                    self.subscribers(),
                    old(self).backlog().take(count),
                ),
            decreases self.backlog().len(),
        {
            if self.disconnected {
                return Err(FollowError::Disconnected);
            }
            let ghost middle = *self;
            match sort_awaited(self.leader.recv()) {
                Next::Take(update) => {
                    let relay = self.absorb(update);
                    proof {
                        Self::lemma_absorbed_next(*old(self), middle, *self, count, update);
                    }
                    match sort_relayed(relay) {
                        Ok(()) => {
                            proof {
                                lemma_relayed_then(
                                    old(self).subscribers(),
                                    middle.subscribers(),
                                    self.subscribers(),
                                    old(self).backlog().take(count),
                                    seq![update],
                                );
                                count = count + 1;
                            }
                        },
                        Err(error) => {
                            return Err(error);
                        },
                    }
                },
                Next::Stop(_) => {
                    self.disconnected = true;
                    assert(self.backlog() =~= middle.backlog());
                    return Err(FollowError::Disconnected);
                },
                Next::Fail(error) => {
                    return Err(error);
                },
            }
        }
        Ok(&self.state.value)
    }

    /// Registers `signal` to be raised as soon as the replica reaches sequence
    /// number `target`.
    ///
    /// If the replica has reached it already, the signal is raised at once and
    /// nothing is registered: the result says so. Otherwise the signal waits, and
    /// is raised by the first update taken in that carries a number at or beyond
    /// the target. A signal whose target is never reached waits for as long as
    /// the follower lives, and is dropped with it, without having been raised.
    pub fn signal_at(&mut self, target: u64, signal: W) -> (raised: bool)
        ensures
            raised == (target <= old(self).replica().seq),
            raised ==> final(self).waiters() == old(self).waiters() && raised_on(
                old(self).raised(),
                final(self).raised(),
                seq![Waiter { target, signal }],
            ),
            !raised ==> final(self).waiters() == old(self).waiters().push(
                Waiter { target, signal },
            ),
            !raised ==> old(self).raised() == final(self).raised(),
            final(self).replica() == old(self).replica(),
            Self::same_upstream(*old(self), *final(self)),
            final(self).subscribers() == old(self).subscribers(),
    {
        self.waiters.register(self.state.seq, target, signal)
    }
}

} // verus!
