use vstd::prelude::*;
use crate::transport::{SendError, Sender};

verus! {

/// What became of one offer of a message to one subscriber.
pub enum Delivery<E> {
    /// The subscriber took the message.
    Taken,
    /// The subscriber is gone for good.
    Gone,
    /// The transport failed in some other way.
    Failed(E),
}

/// Reads the outcome of a send as the fate of the subscriber it was sent to.
pub fn classify<M, E>(outcome: Result<(), SendError<M, E>>) -> (delivery: Delivery<E>)
    ensures
        match outcome {
            Ok(()) => delivery is Taken,
            Err(SendError::Disconnected(_)) => delivery is Gone,
            Err(SendError::Inner(error)) => delivery == Delivery::Failed(error),
        },
{
    match outcome {
        Ok(()) => Delivery::Taken,
        Err(SendError::Disconnected(_)) => Delivery::Gone,
        Err(SendError::Inner(error)) => Delivery::Failed(error),
    }
}

/// `after` has taken a copy of every message of `batch`, in order, on top of all
/// that `before` had taken, and nothing else.
pub open spec fn took<Tx: Sender>(before: Tx, after: Tx, batch: Seq<Tx::Message>) -> bool where
    Tx::Message: Clone,
 {
    let had = before.accepted().len() as int;
    &&& after.accepted().len() == had + batch.len()
    &&& after.accepted().take(had) == before.accepted()
    &&& forall|j: int|
        0 <= j < batch.len() ==> cloned(#[trigger] batch[j], after.accepted()[had + j])
}

/// `after` has been handed a copy of `message`, and nothing else, since `before`.
pub open spec fn handed_copy<Tx: Sender>(before: Tx, after: Tx, message: Tx::Message) -> bool where
    Tx::Message: Clone,
 {
    &&& after.handed().len() == before.handed().len() + 1
    &&& after.handed().drop_last() == before.handed()
    &&& cloned(message, after.handed().last())
}

/// `after` has taken all that `before` had taken, and possibly more after it.
pub open spec fn kept<Tx: Sender>(before: Tx, after: Tx) -> bool {
    before.accepted().is_prefix_of(after.accepted())
}

/// `origin` sends each of `survivors` positions to a position below `population`,
/// and keeps their order.
pub open spec fn embeds(origin: Seq<int>, survivors: nat, population: nat) -> bool {
    &&& origin.len() == survivors
    &&& forall|i: int| 0 <= i < origin.len() ==> 0 <= #[trigger] origin[i] < population
    &&& forall|i: int, j: int| 0 <= i < j < origin.len() ==> origin[i] < origin[j]
}

/// Each of `after` is the subscriber of `before` that `origin` names, having taken
/// a copy of every message of `batch`.
pub open spec fn relayed_via<Tx: Sender>(
    before: Seq<Tx>,
    after: Seq<Tx>,
    batch: Seq<Tx::Message>,
    origin: Seq<int>,
) -> bool where Tx::Message: Clone {
    &&& embeds(origin, after.len(), before.len())
    &&& forall|i: int|
        0 <= i < after.len() ==> took(before[origin[i]], #[trigger] after[i], batch)
}

/// `after` is what is left of `before` once some subscribers have been pruned:
/// the rest are in their old order, and each has taken a copy of every message of
/// `batch`.
pub open spec fn relayed<Tx: Sender>(
    before: Seq<Tx>,
    after: Seq<Tx>,
    batch: Seq<Tx::Message>,
) -> bool where Tx::Message: Clone {
    exists|origin: Seq<int>| relayed_via(before, after, batch, origin)
}

/// Each of `after` is the subscriber of `before` that `origin` names, with nothing
/// lost from what it had taken.
pub open spec fn survived_via<Tx: Sender>(before: Seq<Tx>, after: Seq<Tx>, origin: Seq<int>) -> bool {
    &&& embeds(origin, after.len(), before.len())
    &&& forall|i: int| 0 <= i < after.len() ==> kept(before[origin[i]], #[trigger] after[i])
}

/// `after` is what is left of `before` once some subscribers have been pruned:
/// the rest are in their old order, and none has lost anything it had taken.
pub open spec fn survived<Tx: Sender>(before: Seq<Tx>, after: Seq<Tx>) -> bool {
    exists|origin: Seq<int>| survived_via(before, after, origin)
}

/// The first failure among the last failures of `subscribers`, in their order,
/// if any of them has one.
pub open spec fn first_fault<Tx: Sender>(subscribers: Seq<Tx>) -> Option<Tx::Error>
    decreases subscribers.len(),
{
    if subscribers.len() == 0 {
        None
    } else {
        match first_fault(subscribers.drop_last()) {
            Some(error) => Some(error),
            None => subscribers.last().last_fault(),
        }
    }
}

/// What an offer answers once every subscriber that is left has been sent to:
/// the first failure that a transport answered with, and success if none did.
pub open spec fn answer<Tx: Sender>(subscribers: Seq<Tx>) -> Result<(), Tx::Error> {
    match first_fault(subscribers) {
        Some(error) => Err(error),
        None => Ok(()),
    }
}

/// The transport behind every one of `subscribers` is faultless.
pub open spec fn all_faultless<Tx: Sender>(subscribers: Seq<Tx>) -> bool {
    forall|i: int| 0 <= i < subscribers.len() ==> (#[trigger] subscribers[i]).faultless()
}

/// What one offer of `message` to every subscriber of `before` leaves, where
/// `origin` names for each subscriber that is left the one that it was.
///
/// The subscribers that are left are in their old order, none has lost anything
/// it had taken, and each has been handed a copy of the message, whatever it
/// answered. Every subscriber that is missing was severed. If the
/// offer was `clean`, with no failure of a transport, then every subscriber that
/// is left was live and has taken a copy of the message: the ones left are
/// exactly the live ones.
pub open spec fn offered_via<Tx: Sender>(
    before: Seq<Tx>,
    after: Seq<Tx>,
    message: Tx::Message,
    clean: bool,
    origin: Seq<int>,
) -> bool where Tx::Message: Clone {
    &&& embeds(origin, after.len(), before.len())
    &&& forall|i: int| 0 <= i < after.len() ==> kept(before[origin[i]], #[trigger] after[i])
    &&& forall|i: int|
        0 <= i < after.len() ==> handed_copy(before[origin[i]], #[trigger] after[i], message)
    &&& forall|j: int|
        0 <= j < before.len() && !origin.contains(j) ==> (#[trigger] before[j]).severed()
    &&& clean ==> forall|i: int| 0 <= i < after.len() ==> !before[#[trigger] origin[i]].severed()
    &&& clean ==> forall|i: int|
        0 <= i < after.len() ==> took(before[origin[i]], #[trigger] after[i], seq![message])
}

/// What one offer of `message` to every subscriber of `before` leaves: see
/// `offered_via`.
pub open spec fn offered<Tx: Sender>(
    before: Seq<Tx>,
    after: Seq<Tx>,
    message: Tx::Message,
    clean: bool,
) -> bool where Tx::Message: Clone {
    exists|origin: Seq<int>| offered_via(before, after, message, clean, origin)
}

/// An offer leaves survivors, and a clean offer has relayed its message.
pub proof fn lemma_offered_relayed<Tx: Sender>(
    before: Seq<Tx>,
    after: Seq<Tx>,
    message: Tx::Message,
    clean: bool,
) where Tx::Message: Clone
    requires
        offered(before, after, message, clean),
    ensures
        survived(before, after),
        clean ==> relayed(before, after, seq![message]),
{
    let origin = choose|origin: Seq<int>| offered_via(before, after, message, clean, origin);
    assert(survived_via(before, after, origin));
    if clean {
        assert(relayed_via(before, after, seq![message], origin));
    }
}

/// An order-keeping map that leaves no position out is the identity.
pub proof fn lemma_embeds_onto(origin: Seq<int>, survivors: nat, population: nat)
    requires
        embeds(origin, survivors, population),
        forall|j: int| 0 <= j < population ==> origin.contains(j),
    ensures
        survivors == population,
        forall|i: int| 0 <= i < origin.len() ==> #[trigger] origin[i] == i,
{
    lemma_embeds_bound(origin, survivors, population);
    assert forall|i: int| 0 <= i < origin.len() implies #[trigger] origin[i] == i by {
        lemma_embeds_onto_at(origin, survivors, population, i);
    }
    if survivors < population {
        assert(origin.contains(survivors as int));
        let at = choose|at: int| 0 <= at < origin.len() && origin[at] == survivors as int;
        assert(origin[at] == at);
    }
}

/// An order-keeping map that leaves no position out sends `i` to `i`.
proof fn lemma_embeds_onto_at(origin: Seq<int>, survivors: nat, population: nat, i: int)
    requires
        embeds(origin, survivors, population),
        forall|j: int| 0 <= j < population ==> origin.contains(j),
        0 <= i < origin.len(),
    ensures
        origin[i] == i,
    decreases i,
{
    lemma_embeds_bound(origin, survivors, population);
    if origin[i] != i {
        assert(i < population);
        assert(origin.contains(i));
        let at = choose|at: int| 0 <= at < origin.len() && origin[at] == i;
        if at < i {
            lemma_embeds_onto_at(origin, survivors, population, at);
        } else if at > i {
            assert(origin[i] < origin[at]);
        }
    }
}

/// A clean offer to subscribers that are all live leaves every one of them in
/// its place, with a copy of the message taken.
pub proof fn lemma_offered_to_live<Tx: Sender>(
    before: Seq<Tx>,
    after: Seq<Tx>,
    message: Tx::Message,
) where Tx::Message: Clone
    requires
        offered(before, after, message, true),
        forall|j: int| 0 <= j < before.len() ==> !(#[trigger] before[j]).severed(),
    ensures
        after.len() == before.len(),
        forall|i: int| 0 <= i < after.len() ==> took(before[i], #[trigger] after[i], seq![message]),
{
    let origin = choose|origin: Seq<int>| offered_via(before, after, message, true, origin);
    assert forall|j: int| 0 <= j < before.len() implies origin.contains(j) by {
        if !origin.contains(j) {
            assert(before[j].severed());
        }
    }
    lemma_embeds_onto(origin, after.len(), before.len());
    assert forall|i: int| 0 <= i < after.len() implies took(
        before[i],
        #[trigger] after[i],
        seq![message],
    ) by {
        assert(origin[i] == i);
    }
}

/// A clean offer to subscribers that are all severed leaves none of them.
pub proof fn lemma_offered_drops_severed<Tx: Sender>(
    before: Seq<Tx>,
    after: Seq<Tx>,
    message: Tx::Message,
) where Tx::Message: Clone
    requires
        offered(before, after, message, true),
        forall|j: int| 0 <= j < before.len() ==> (#[trigger] before[j]).severed(),
    ensures
        after.len() == 0,
{
    let origin = choose|origin: Seq<int>| offered_via(before, after, message, true, origin);
    if after.len() > 0 {
        assert(!before[origin[0]].severed());
    }
}

/// An order-keeping map into `population` positions has room for at most that
/// many survivors.
pub proof fn lemma_embeds_bound(origin: Seq<int>, survivors: nat, population: nat)
    requires
        embeds(origin, survivors, population),
    ensures
        survivors <= population,
        forall|i: int| 0 <= i < origin.len() ==> i <= #[trigger] origin[i],
    decreases survivors,
{
    if survivors > 0 {
        let fewer = origin.drop_last();
        assert forall|i: int, j: int| 0 <= i < j < fewer.len() implies fewer[i] < fewer[j] by {
            assert(fewer[i] == origin[i] && fewer[j] == origin[j]);
        }
        assert forall|i: int| 0 <= i < fewer.len() implies 0 <= #[trigger] fewer[i] < population by {
            assert(fewer[i] == origin[i]);
        }
        lemma_embeds_bound(fewer, (survivors - 1) as nat, population);
        assert forall|i: int| 0 <= i < origin.len() implies i <= #[trigger] origin[i] by {
            if i < fewer.len() {
                assert(fewer[i] == origin[i]);
            } else if i > 0 {
                assert(fewer[i - 1] == origin[i - 1]);
                assert(origin[i - 1] < origin[i]);
            }
        }
        assert(origin[survivors - 1] < population);
    }
}

/// Pruning never adds a subscriber.
pub proof fn lemma_survived_fewer<Tx: Sender>(before: Seq<Tx>, after: Seq<Tx>)
    requires
        survived(before, after),
    ensures
        after.len() <= before.len(),
{
    let origin = choose|origin: Seq<int>| survived_via(before, after, origin);
    lemma_embeds_bound(origin, after.len(), before.len());
}

/// A subscriber that took a batch has lost nothing.
pub proof fn lemma_took_kept<Tx: Sender>(before: Tx, after: Tx, batch: Seq<Tx::Message>) where
    Tx::Message: Clone,

    requires
        took(before, after, batch),
    ensures
        kept(before, after),
{
    let had = before.accepted().len() as int;
    assert(after.accepted().take(had) =~= before.accepted());
    assert forall|i: int| 0 <= i < had implies before.accepted()[i] == after.accepted()[i] by {
        assert(after.accepted().take(had)[i] == after.accepted()[i]);
    }
}

/// Taking `first` and then `second` is taking their concatenation.
pub proof fn lemma_took_then<Tx: Sender>(
    a: Tx,
    b: Tx,
    c: Tx,
    first: Seq<Tx::Message>,
    second: Seq<Tx::Message>,
) where Tx::Message: Clone
    requires
        took(a, b, first),
        took(b, c, second),
    ensures
        took(a, c, first + second),
{
    let had = a.accepted().len() as int;
    let mid = b.accepted().len() as int;
    assert(c.accepted().take(mid) =~= b.accepted());
    assert(b.accepted().take(had) =~= a.accepted());
    assert(c.accepted().take(had) =~= a.accepted()) by {
        assert forall|i: int| 0 <= i < had implies c.accepted().take(had)[i] == a.accepted()[i] by {
            assert(c.accepted().take(mid)[i] == c.accepted()[i]);
            assert(b.accepted().take(had)[i] == b.accepted()[i]);
        }
    }
    assert forall|j: int| 0 <= j < (first + second).len() implies cloned(
        #[trigger] (first + second)[j],
        c.accepted()[had + j],
    ) by {
        if j < first.len() {
            assert(first[j] == (first + second)[j]);
            assert(c.accepted().take(mid)[had + j] == c.accepted()[had + j]);
        } else {
            assert(second[j - first.len()] == (first + second)[j]);
        }
    }
}

/// Nothing taken is nothing changed, as far as the log goes.
pub proof fn lemma_took_nothing<Tx: Sender>(a: Tx) where Tx::Message: Clone
    ensures
        took(a, a, Seq::<Tx::Message>::empty()),
{
    assert(a.accepted().take(a.accepted().len() as int) =~= a.accepted());
}

/// An untouched set of subscribers has relayed the empty batch.
pub proof fn lemma_relayed_nothing<Tx: Sender>(subscribers: Seq<Tx>) where Tx::Message: Clone
    ensures
        relayed(subscribers, subscribers, Seq::<Tx::Message>::empty()),
{
    let origin = Seq::new(subscribers.len(), |i: int| i);
    assert forall|i: int| 0 <= i < subscribers.len() implies took(
        subscribers[origin[i]],
        #[trigger] subscribers[i],
        Seq::<Tx::Message>::empty(),
    ) by {
        lemma_took_nothing(subscribers[i]);
    }
    assert(relayed_via(subscribers, subscribers, Seq::<Tx::Message>::empty(), origin));
}

/// Relaying `first` and then `second` is relaying their concatenation.
pub proof fn lemma_relayed_then<Tx: Sender>(
    a: Seq<Tx>,
    b: Seq<Tx>,
    c: Seq<Tx>,
    first: Seq<Tx::Message>,
    second: Seq<Tx::Message>,
) where Tx::Message: Clone
    requires
        relayed(a, b, first),
        relayed(b, c, second),
    ensures
        relayed(a, c, first + second),
{
    let inner = choose|origin: Seq<int>| relayed_via(a, b, first, origin);
    let outer = choose|origin: Seq<int>| relayed_via(b, c, second, origin);
    let origin = Seq::new(c.len(), |i: int| inner[outer[i]]);
    assert forall|i: int| 0 <= i < c.len() implies took(
        a[origin[i]],
        #[trigger] c[i],
        first + second,
    ) by {
        assert(took(b[outer[i]], c[i], second));
        assert(took(a[inner[outer[i]]], b[outer[i]], first));
        lemma_took_then(a[origin[i]], b[outer[i]], c[i], first, second);
    }
    assert(relayed_via(a, c, first + second, origin));
}

/// Subscribers that relayed a batch have survived.
pub proof fn lemma_relayed_survived<Tx: Sender>(
    before: Seq<Tx>,
    after: Seq<Tx>,
    batch: Seq<Tx::Message>,
) where Tx::Message: Clone
    requires
        relayed(before, after, batch),
    ensures
        survived(before, after),
{
    let origin = choose|origin: Seq<int>| relayed_via(before, after, batch, origin);
    assert forall|i: int| 0 <= i < after.len() implies kept(
        before[origin[i]],
        #[trigger] after[i],
    ) by {
        lemma_took_kept(before[origin[i]], after[i], batch);
    }
    assert(survived_via(before, after, origin));
}

/// Surviving is transitive.
pub proof fn lemma_survived_then<Tx: Sender>(a: Seq<Tx>, b: Seq<Tx>, c: Seq<Tx>)
    requires
        survived(a, b),
        survived(b, c),
    ensures
        survived(a, c),
{
    let inner = choose|origin: Seq<int>| survived_via(a, b, origin);
    let outer = choose|origin: Seq<int>| survived_via(b, c, origin);
    let origin = Seq::new(c.len(), |i: int| inner[outer[i]]);
    assert forall|i: int| 0 <= i < c.len() implies kept(a[origin[i]], #[trigger] c[i]) by {
        assert(kept(b[outer[i]], c[i]));
        assert(kept(a[inner[outer[i]]], b[outer[i]]));
    }
    assert(survived_via(a, c, origin));
}

/// Pushing a value keeps what a sequence contained, and adds the value.
proof fn lemma_push_contains(origin: Seq<int>, value: int)
    ensures
        origin.push(value).contains(value),
        forall|j: int| origin.contains(j) ==> #[trigger] origin.push(value).contains(j),
{
    assert(origin.push(value)[origin.len() as int] == value);
    assert forall|j: int| origin.contains(j) implies #[trigger] origin.push(value).contains(j) by {
        let at = choose|at: int| 0 <= at < origin.len() && origin[at] == j;
        assert(origin.push(value)[at] == j);
    }
}

/// The senders that lead to the current subscribers, in the order in which they
/// subscribed.
pub struct Subscribers<Tx> {
    senders: Vec<Tx>,
}

impl<Tx: Sender> Subscribers<Tx> {
    /// The senders, oldest subscription first.
    pub closed spec fn view(&self) -> Seq<Tx> {
        self.senders@
    }

    /// Starts with no subscribers.
    pub fn new() -> (subscribers: Self)
        ensures
            subscribers@.len() == 0,
    {
        Subscribers { senders: Vec::new() }
    }

    /// The number of subscribers.
    pub fn len(&self) -> (len: usize)
        ensures
            len == self@.len(),
    {
        self.senders.len()
    }

    /// Adds `sender` behind the subscribers that are there, and lends it back for
    /// further setup.
    pub fn add(&mut self, sender: Tx) -> (added: &mut Tx)
        ensures
            *added == sender,
            final(self)@ == old(self)@.push(*final(added)),
    {
        self.senders.push(sender);
        let last = self.senders.len() - 1;
        &mut self.senders[last]
    }

    /// Offers a copy of `message` to every subscriber, oldest first, and prunes
    /// each one that reports a disconnect.
    ///
    /// Every subscriber is tried, whatever happens to the others, and each outcome
    /// is read by `classify`. If none reports a transport failure the result is
    /// `Ok`, and all that are left have taken the message; so it is where every
    /// subscriber is faultless, and where there is none. Otherwise the result is
    /// the first failure reported, in the order of the subscribers, as `answer`
    /// says; the subscribers that are left have lost nothing.
    pub fn broadcast(&mut self, message: &Tx::Message) -> (outcome: Result<(), Tx::Error>) where
        Tx::Message: Clone,

        ensures
            outcome == answer(final(self)@),
            offered(old(self)@, final(self)@, *message, outcome is Ok),
            outcome is Ok ==> relayed(old(self)@, final(self)@, seq![*message]),
            survived(old(self)@, final(self)@),
            final(self)@.len() <= old(self)@.len(),
            all_faultless(old(self)@) ==> outcome is Ok && all_faultless(final(self)@),
    {
        let mut failure: Option<Tx::Error> = None;
        let mut i: usize = 0;
        let ghost before = self@;
        let ghost batch = seq![*message];
        let ghost mut origin: Seq<int> = Seq::empty();
        let ghost mut done: int = 0;
        while i < self.senders.len()
            invariant
                batch == seq![*message],
                0 <= i <= self.senders@.len(),
                0 <= done <= before.len(),
                self.senders@.len() - i == before.len() - done,
                self.senders@.skip(i as int) == before.skip(done),
                embeds(origin, i as nat, done as nat),
                forall|j: int|
                    0 <= j < i ==> kept(before[origin[j]], #[trigger] self.senders@[j]),
                forall|j: int|
                    0 <= j < i ==> handed_copy(
                        before[origin[j]],
                        #[trigger] self.senders@[j],
                        *message,
                    ),
                forall|j: int|
                    0 <= j < done && !origin.contains(j) ==> (#[trigger] before[j]).severed(),
                failure is None ==> forall|j: int|
                    0 <= j < i ==> took(before[origin[j]], #[trigger] self.senders@[j], batch),
                failure is None ==> forall|j: int|
                    0 <= j < i ==> !before[#[trigger] origin[j]].severed(),
                all_faultless(before) ==> failure is None && forall|j: int|
                    0 <= j < i ==> (#[trigger] self.senders@[j]).faultless(),
                failure == first_fault(self.senders@.take(i as int)),
            decreases self.senders@.len() - i,
        {
            let ghost current = self.senders@;
            let ghost subject = self.senders@[i as int];
            assert(subject == before[done]) by {
                assert(current.skip(i as int)[0] == before.skip(done)[0]);
            }
            let copy = message.clone();
            let sent = self.senders[i].send(copy);
            let ghost touched = self.senders@;
            assert(touched.skip(i + 1) == before.skip(done + 1)) by {
                let rest = touched.skip(i + 1);
                assert forall|j: int| 0 <= j < rest.len() implies #[trigger] rest[j]
                    == before.skip(done + 1)[j] by {
                    assert(current.skip(i as int)[j + 1] == before.skip(done)[j + 1]);
                }
                assert(touched.skip(i + 1) =~= before.skip(done + 1));
            }
            proof {
                assert(touched[i as int].handed().drop_last() =~= subject.handed());
                assert(handed_copy(subject, touched[i as int], *message));
                assert(touched.take(i + 1).drop_last() =~= current.take(i as int));
                assert(touched.take(i + 1).last() == touched[i as int]);
            }
            match classify(sent) {
                Delivery::Taken => {
                    proof {
                        assert(!subject.severed());
                        assert(took(subject, touched[i as int], batch)) by {
                            let had = subject.accepted().len() as int;
                            assert(touched[i as int].accepted().take(had) =~= subject.accepted());
                            assert(batch[0] == *message);
                        }
                        lemma_took_kept(subject, touched[i as int], batch);
                        lemma_push_contains(origin, done);
                        origin = origin.push(done);
                        done = done + 1;
                    }
                    i = i + 1;
                },
                Delivery::Gone => {
                    self.senders.remove(i);
                    proof {
                        assert(self.senders@.take(i as int) =~= current.take(i as int));
                        assert(self.senders@.skip(i as int) == before.skip(done + 1)) by {
                            assert(self.senders@.skip(i as int) =~= touched.skip(i + 1));
                        }
                        assert forall|j: int| 0 <= j < origin.len() implies 0 <= #[trigger] origin[j]
                            < done + 1 by {}
                        done = done + 1;
                    }
                },
                Delivery::Failed(error) => {
                    proof {
                        lemma_push_contains(origin, done);
                        origin = origin.push(done);
                        done = done + 1;
                    }
                    if failure.is_none() {
                        failure = Some(error);
                    }
                    i = i + 1;
                },
            }
        }
        proof {
            assert(self.senders@.take(i as int) =~= self.senders@);
            assert(offered_via(before, self@, *message, failure is None, origin));
            lemma_offered_relayed(before, self@, *message, failure is None);
            lemma_survived_fewer(before, self@);
        }
        match failure {
            None => Ok(()),
            Some(error) => Err(error),
        }
    }
}

} // verus!
