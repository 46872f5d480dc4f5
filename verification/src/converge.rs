use vstd::prelude::*;
use crate::fanout::took;
use crate::follower::{waiting_after, Follower};
use crate::leader::Leader;
use crate::sequenced::Sequenced;
use crate::signal::{all_beyond, lemma_waiting_exact, Signal, Waiter};
use crate::transport::{Receiver, Sender};
use crate::update::{lemma_replay_push, replay, Update};

verus! {

/// Copies of values of type `U` are equal to their originals.
///
/// This holds of every type whose `clone` is specified to return an equal value,
/// and is what it means for an update to be a plain value that can be relayed.
pub open spec fn copies_are_equal<U: Clone>() -> bool {
    forall|original: U, copy: U| cloned(original, copy) ==> original == copy
}

/// Copies of sequenced values are equal to their originals where copies of the
/// values themselves are.
pub proof fn lemma_sequenced_copies_are_equal<V: Clone>()
    requires
        copies_are_equal::<V>(),
    ensures
        copies_are_equal::<Sequenced<V>>(),
{
    assert forall|original: Sequenced<V>, copy: Sequenced<V>| cloned(original, copy) implies original
        == copy by {
        if original != copy {
            assert(cloned(original.value, copy.value));
        }
    }
}

/// `stream` carries the sequence numbers `base + 1`, `base + 2`, and so on, in
/// order: it is what a leader that stood at `base` sends out.
pub open spec fn numbered_from<U>(stream: Seq<Sequenced<U>>, base: u64) -> bool {
    forall|i: int| 0 <= i < stream.len() ==> (#[trigger] stream[i]).seq == base + 1 + i
}

/// The stream that a leader standing at `base` sends out when it applies
/// `updates` one after the other through `sequenced_update`: each update with
/// the next sequence number.
pub open spec fn stamped<U>(updates: Seq<U>, base: u64) -> Seq<Sequenced<U>>
    recommends
        base + updates.len() <= u64::MAX,
{
    Seq::new(updates.len(), |i: int| Sequenced { value: updates[i], seq: (base + 1 + i) as u64 })
}

/// What a sequenced leader sends out is numbered from where it stood, and replaying
/// it is what the leader did: the updates applied to the value, and the sequence
/// number raised by one for each.
pub proof fn lemma_stamped_replay<S, U: Update<S>>(start: Sequenced<S>, updates: Seq<U>)
    requires
        start.seq + updates.len() <= u64::MAX,
    ensures
        numbered_from(stamped(updates, start.seq), start.seq),
        replay(start, stamped(updates, start.seq)) == (Sequenced {
            value: replay(start.value, updates),
            seq: (start.seq + updates.len()) as u64,
        }),
    decreases updates.len(),
{
    if updates.len() > 0 {
        lemma_stamped_replay(start, updates.drop_last());
        assert(stamped(updates, start.seq).drop_last() =~= stamped(updates.drop_last(), start.seq));
    }
}

/// Determinism: equal updates applied to equal states give equal states, one at
/// a time and any number of them in a row.
pub proof fn lemma_apply_deterministic<S, U: Update<S>>(
    first: U,
    second: U,
    a: S,
    b: S,
    batch: Seq<U>,
    other: Seq<U>,
)
    requires
        first == second,
        batch == other,
        a == b,
    ensures
        first.applied(a) == second.applied(b),
        replay(a, batch) == replay(b, other),
{
}

/// What a sender took on top of its log, when copies are equal to originals, is
/// the batch itself.
pub proof fn lemma_took_batch<Tx: Sender>(before: Tx, after: Tx, batch: Seq<Tx::Message>) where
    Tx::Message: Clone,

    requires
        copies_are_equal::<Tx::Message>(),
        took(before, after, batch),
    ensures
        after.accepted().skip(before.accepted().len() as int) == batch,
{
    let had = before.accepted().len() as int;
    let tail = after.accepted().skip(had);
    assert forall|j: int| 0 <= j < batch.len() implies tail[j] == batch[j] by {
        assert(cloned(batch[j], after.accepted()[had + j]));
    }
    assert(tail =~= batch);
}

/// A follower has been refreshed, with success: `after` is what a `refresh` that
/// returned `Ok`, or a `read` that kept no failure, has made of `before`. It has
/// taken in some updates from the front of its backlog, at least those that were
/// ready, and has relayed them.
pub open spec fn refreshed<
    S,
    U: Update<S> + Clone,
    Rx: Receiver<U>,
    Tx: Sender<Message = U>,
    W: Signal,
>(before: Follower<S, U, Rx, Tx, W>, after: Follower<S, U, Rx, Tx, W>) -> bool {
    &&& Follower::absorbed(before, after, before.backlog().len() - after.backlog().len())
    &&& Follower::drained(before, after, true)
}

/// A follower that is in step with its leader, and refreshes once all that the
/// leader has sent it since has arrived, is in step again.
///
/// The leader applied `updates`; the sender that leads to the follower took a
/// copy of each; the channel hands out what the sender took, and all of it is
/// ready; and the follower refreshed. Then the replica is the canonical state, and
/// nothing is left to receive. For a sequenced state the sequence numbers are
/// equal with it, being part of the state.
pub proof fn lemma_follower_catches_up<
    S,
    U: Update<S> + Clone,
    Tx: Sender<Message = U>,
    Rx: Receiver<U>,
    W: Signal,
>(
    leader_before: Leader<S, U, Tx>,
    leader_after: Leader<S, U, Tx>,
    follower_before: Follower<S, U, Rx, Tx, W>,
    follower_after: Follower<S, U, Rx, Tx, W>,
    link_before: Tx,
    link_after: Tx,
    updates: Seq<U>,
)
    requires
        copies_are_equal::<U>(),
        follower_before.replica() == leader_before.canonical(),
        leader_after.canonical() == replay(leader_before.canonical(), updates),
        took(link_before, link_after, updates),
        follower_before.backlog() == link_after.accepted().skip(
            link_before.accepted().len() as int,
        ),
        follower_before.ready() == follower_before.backlog().len(),
        refreshed(follower_before, follower_after),
    ensures
        follower_after.replica() == leader_after.canonical(),
        follower_after.backlog().len() == 0,
{
    lemma_took_batch(link_before, link_after, updates);
    assert(follower_before.backlog().take(updates.len() as int) =~= updates);
}

/// One round keeps leader and follower in step: the leader applies `update`, a
/// copy of it arrives, the follower refreshes, and the replica is the canonical
/// state again.
pub proof fn lemma_round_keeps_in_step<
    S,
    U: Update<S> + Clone,
    Tx: Sender<Message = U>,
    Rx: Receiver<U>,
    W: Signal,
>(
    leader_before: Leader<S, U, Tx>,
    leader_after: Leader<S, U, Tx>,
    follower_before: Follower<S, U, Rx, Tx, W>,
    follower_after: Follower<S, U, Rx, Tx, W>,
    update: U,
)
    requires
        copies_are_equal::<U>(),
        follower_before.replica() == leader_before.canonical(),
        leader_after.canonical() == update.applied(leader_before.canonical()),
        follower_before.backlog().len() == 1,
        follower_before.ready() == 1,
        cloned(update, follower_before.backlog()[0]),
        refreshed(follower_before, follower_after),
    ensures
        follower_after.replica() == leader_after.canonical(),
        follower_after.backlog().len() == 0,
{
    let batch = follower_before.backlog().take(1);
    assert(batch =~= seq![update]);
    assert(batch.drop_last() =~= Seq::<U>::empty());
    lemma_replay_push(follower_before.replica(), Seq::<U>::empty(), update);
    assert(Seq::<U>::empty().push(update) =~= batch);
}

/// A follower that refreshes after every update of its leader is in step with it
/// after every refresh.
///
/// `leaders` are the states of a leader before and after each of `updates`.
/// `before` and `after` are the states of a follower before and after the refresh
/// that follows each update: before it, the copy of the update has arrived and is
/// ready; after it, the follower is where the refresh, which succeeded, has left
/// it, and there it still is before the next refresh. If the follower starts in
/// step, then after every refresh its replica is the canonical state of that
/// moment.
pub proof fn lemma_rounds_keep_in_step<
    S,
    U: Update<S> + Clone,
    Tx: Sender<Message = U>,
    Rx: Receiver<U>,
    W: Signal,
>(
    leaders: Seq<Leader<S, U, Tx>>,
    before: Seq<Follower<S, U, Rx, Tx, W>>,
    after: Seq<Follower<S, U, Rx, Tx, W>>,
    updates: Seq<U>,
    round: int,
)
    requires
        copies_are_equal::<U>(),
        leaders.len() == updates.len() + 1,
        before.len() == updates.len(),
        after.len() == updates.len(),
        0 <= round < updates.len(),
        before[0].replica() == leaders[0].canonical(),
        forall|i: int|
            0 <= i < updates.len() ==> (#[trigger] leaders[i + 1]).canonical()
                == updates[i].applied(leaders[i].canonical()),
        forall|i: int|
            0 <= i < updates.len() ==> {
                &&& (#[trigger] before[i]).backlog().len() == 1
                &&& before[i].ready() == 1
                &&& cloned(updates[i], before[i].backlog()[0])
                &&& refreshed(before[i], after[i])
            },
        forall|i: int|
            0 <= i < updates.len() - 1 ==> (#[trigger] before[i + 1]).replica()
                == after[i].replica(),
    ensures
        after[round].replica() == leaders[round + 1].canonical(),
        after[round].backlog().len() == 0,
    decreases round,
{
    if round > 0 {
        lemma_rounds_keep_in_step(leaders, before, after, updates, round - 1);
        assert(before[(round - 1) + 1].replica() == after[round - 1].replica());
    }
    assert(leaders[round + 1].canonical() == updates[round].applied(leaders[round].canonical()));
    lemma_round_keeps_in_step(
        leaders[round],
        leaders[round + 1],
        before[round],
        after[round],
        updates[round],
    );
}

/// A relay adds delay, not divergence.
///
/// A follower `near` listens to an upstream, and a follower `far` listens to
/// `near`. Both start from the state from which the upstream goes on to apply
/// `updates`. Copies of the updates arrive at `near`, which refreshes, and the
/// sender that leads to `far` takes a copy of each; these arrive at `far`, which
/// refreshes. Then both replicas are equal to the upstream's state.
pub proof fn lemma_relay_converges<
    S,
    U: Update<S> + Clone,
    Tx: Sender<Message = U>,
    Rx: Receiver<U>,
    W: Signal,
>(
    start: S,
    updates: Seq<U>,
    near_before: Follower<S, U, Rx, Tx, W>,
    near_after: Follower<S, U, Rx, Tx, W>,
    far_before: Follower<S, U, Rx, Tx, W>,
    far_after: Follower<S, U, Rx, Tx, W>,
    link_before: Tx,
    link_after: Tx,
)
    requires
        copies_are_equal::<U>(),
        near_before.replica() == start,
        far_before.replica() == start,
        near_before.backlog() == updates,
        near_before.ready() == updates.len(),
        refreshed(near_before, near_after),
        took(link_before, link_after, near_before.backlog().take(updates.len() as int)),
        far_before.backlog() == link_after.accepted().skip(link_before.accepted().len() as int),
        far_before.ready() == far_before.backlog().len(),
        refreshed(far_before, far_after),
    ensures
        near_after.replica() == replay(start, updates),
        far_after.replica() == replay(start, updates),
{
    assert(near_before.backlog().take(updates.len() as int) =~= updates);
    lemma_took_batch(link_before, link_after, updates);
    assert(far_before.backlog().take(updates.len() as int) =~= updates);
}

/// It does not matter in how many refreshes a follower takes its updates in:
/// taking in some and then the rest leaves it where taking in all at once does.
/// A refresh that finds nothing changes nothing.
pub proof fn lemma_refresh_order_is_immaterial<
    S,
    U: Update<S> + Clone,
    Tx: Sender<Message = U>,
    Rx: Receiver<U>,
    W: Signal,
>(
    before: Follower<S, U, Rx, Tx, W>,
    between: Follower<S, U, Rx, Tx, W>,
    after: Follower<S, U, Rx, Tx, W>,
    first: int,
    second: int,
)
    requires
        Follower::absorbed(before, between, first),
        Follower::absorbed(between, after, second),
    ensures
        after.replica() == replay(before.replica(), before.backlog().take(first + second)),
        first == 0 ==> between.replica() == before.replica(),
{
    Follower::lemma_absorbed_then(before, between, after, first, second);
    assert(before.backlog().take(0) =~= Seq::<U>::empty());
}

/// A replica that takes in a leader's stream counts with it.
///
/// Starting at sequence number `start.seq`, after the first `taken` updates of a
/// stream numbered from there the replica stands at `start.seq + taken`.
pub proof fn lemma_replica_counts<S, U: Update<S>>(
    start: Sequenced<S>,
    stream: Seq<Sequenced<U>>,
    taken: int,
)
    requires
        numbered_from(stream, start.seq),
        0 <= taken <= stream.len(),
    ensures
        replay(start, stream.take(taken)).seq == start.seq + taken,
{
    if taken > 0 {
        assert(stream.take(taken).last() == stream[taken - 1]);
    }
}

/// A follower's sequence number never goes back, and never runs ahead of the
/// leader.
///
/// The follower stands at `start.seq` and takes in a leader's stream numbered
/// from there. Having taken `later` updates its number is at least what it was
/// having taken `earlier`, and at most the number of the last update that the
/// leader has sent.
pub proof fn lemma_follower_seq_monotone<S, U: Update<S>>(
    start: Sequenced<S>,
    stream: Seq<Sequenced<U>>,
    earlier: int,
    later: int,
)
    requires
        numbered_from(stream, start.seq),
        0 <= earlier <= later <= stream.len(),
    ensures
        replay(start, stream.take(earlier)).seq <= replay(start, stream.take(later)).seq,
        replay(start, stream.take(later)).seq <= start.seq + stream.len(),
        stream.len() > 0 ==> replay(start, stream.take(later)).seq <= stream.last().seq,
{
    lemma_replica_counts(start, stream, earlier);
    lemma_replica_counts(start, stream, later);
}

/// A follower's sequence number moves exactly when an update was waiting.
///
/// The follower listens to a leader's stream, numbered from where the replica
/// stands, and has been refreshed with success. Then its number has gone up by
/// the number of updates taken in. It has gone up if an update was ready, and it
/// has stayed if the stream had none to hand out.
pub proof fn lemma_number_moves_when_queued<
    S,
    U: Update<S> + Clone,
    Tx: Sender<Message = Sequenced<U>>,
    Rx: Receiver<Sequenced<U>>,
    W: Signal,
>(
    before: Follower<Sequenced<S>, Sequenced<U>, Rx, Tx, W>,
    after: Follower<Sequenced<S>, Sequenced<U>, Rx, Tx, W>,
)
    requires
        numbered_from(before.backlog(), before.replica().seq),
        refreshed(before, after),
    ensures
        after.replica().seq == before.replica().seq + before.backlog().len()
            - after.backlog().len(),
        before.ready() > 0 ==> after.replica().seq > before.replica().seq,
        before.backlog().len() == 0 ==> after.replica().seq == before.replica().seq,
{
    lemma_replica_counts(
        before.replica(),
        before.backlog(),
        before.backlog().len() - after.backlog().len(),
    );
}

/// Every update of `batch` that carries a sequence number carries one below
/// `target`.
pub open spec fn all_below<S, U: Update<S>>(batch: Seq<U>, target: u64) -> bool {
    forall|i: int|
        0 <= i < batch.len() ==> match (#[trigger] batch[i]).stamp() {
            Some(reached) => reached < target,
            None => true,
        }
}

/// A waiter is released exactly by the first update that reaches its target:
/// never before, and never a second time.
///
/// After a batch of updates a waiter is still waiting if and only if it was
/// waiting before and no update of the batch carried a sequence number at or
/// beyond its target. So it is not released early; it is released once its
/// target is reached; and once released it is not waiting after any longer batch.
pub proof fn lemma_waiter_released_on_target<S, U: Update<S>, W>(
    waiters: Seq<Waiter<W>>,
    batch: Seq<U>,
    waiter: Waiter<W>,
)
    ensures
        waiting_after::<S, U, W>(waiters, batch).contains(waiter) <==> waiters.contains(waiter)
            && all_below::<S, U>(batch, waiter.target),
    decreases batch.len(),
{
    if batch.len() > 0 {
        let earlier = batch.drop_last();
        let last = batch.last();
        lemma_waiter_released_on_target::<S, U, W>(waiters, earlier, waiter);
        let left = waiting_after::<S, U, W>(waiters, earlier);
        match last.stamp() {
            Some(reached) => {
                lemma_waiting_exact(left, reached, waiter);
            },
            None => {},
        }
        if all_below::<S, U>(batch, waiter.target) {
            assert forall|i: int| 0 <= i < earlier.len() implies match (#[trigger] earlier[i]).stamp() {
                Some(reached) => reached < waiter.target,
                None => true,
            } by {
                assert(earlier[i] == batch[i]);
            }
            assert(batch[batch.len() - 1] == last);
        }
        if all_below::<S, U>(earlier, waiter.target) && (match last.stamp() {
            Some(reached) => reached < waiter.target,
            None => true,
        }) {
            assert forall|i: int| 0 <= i < batch.len() implies match (#[trigger] batch[i]).stamp() {
                Some(reached) => reached < waiter.target,
                None => true,
            } by {
                if i < earlier.len() {
                    assert(earlier[i] == batch[i]);
                }
            }
        }
    }
}

/// No pending waiter is overdue.
///
/// If every waiter of a follower has its target beyond the follower's sequence
/// number, then this is so again after any batch of sequenced updates: what is
/// left waiting has its target beyond the number that the replica then has.
pub proof fn lemma_pending_waiters_are_ahead<S, U: Update<S>, W>(
    start: Sequenced<S>,
    waiters: Seq<Waiter<W>>,
    batch: Seq<Sequenced<U>>,
)
    requires
        all_beyond(waiters, start.seq),
    ensures
        all_beyond(
            waiting_after::<Sequenced<S>, Sequenced<U>, W>(waiters, batch),
            replay(start, batch).seq,
        ),
{
    let left = waiting_after::<Sequenced<S>, Sequenced<U>, W>(waiters, batch);
    assert forall|i: int| 0 <= i < left.len() implies (#[trigger] left[i]).target > replay(
        start,
        batch,
    ).seq by {
        let waiter = left[i];
        assert(left.contains(waiter));
        lemma_waiter_released_on_target::<Sequenced<S>, Sequenced<U>, W>(waiters, batch, waiter);
        if batch.len() > 0 {
            assert(batch[batch.len() - 1].stamp() == Some(batch.last().seq));
        } else {
            let was = choose|was: int| 0 <= was < waiters.len() && waiters[was] == waiter;
            assert(waiters[was].target > start.seq);
        }
    }
}

/// Once a waiter has been released it stays released, whatever comes after.
pub proof fn lemma_waiter_released_once<S, U: Update<S>, W>(
    waiters: Seq<Waiter<W>>,
    batch: Seq<U>,
    more: Seq<U>,
    waiter: Waiter<W>,
)
    requires
        !waiting_after::<S, U, W>(waiters, batch).contains(waiter),
    ensures
        !waiting_after::<S, U, W>(waiters, batch + more).contains(waiter),
{
    lemma_waiter_released_on_target::<S, U, W>(waiters, batch, waiter);
    lemma_waiter_released_on_target::<S, U, W>(waiters, batch + more, waiter);
    if all_below::<S, U>(batch + more, waiter.target) {
        assert forall|i: int| 0 <= i < batch.len() implies match (#[trigger] batch[i]).stamp() {
            Some(reached) => reached < waiter.target,
            None => true,
        } by {
            assert((batch + more)[i] == batch[i]);
        }
    }
}

} // verus!
