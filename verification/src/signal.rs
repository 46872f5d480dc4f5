use vstd::prelude::*;

verus! {

/// A one-shot notification.
///
/// Whoever waits on the other side of a signal, on this thread or another, is
/// released when it is raised. A signal that has been given to a set of waiters
/// is raised once, by them, and then dropped.
///
/// `raised` says that the signal has been raised, and `becomes` what a raise
/// makes of a signal. An implementation says so by defining them. Left as they
/// are, each is some function of the signal's state of which nothing more is
/// known: an implementation that leaves them so cannot be verified, and is taken
/// on trust to keep to the contract of `raise`.
pub trait Signal: Sized {
    /// Whether this signal has been raised.
    open spec fn raised(&self) -> bool {
        arbitrary::<spec_fn(Self) -> bool>()(*self)
    }

    /// Whether `after` is what raising `before` makes of it.
    open spec fn becomes(before: Self, after: Self) -> bool {
        arbitrary::<spec_fn(Self, Self) -> bool>()(before, after)
    }

    /// Releases whoever waits on this signal.
    fn raise(&mut self)
        ensures
            final(self).raised(),
            Self::becomes(*old(self), *final(self)),
    ;
}

/// The signal of those who wait for nothing: raising it does nothing.
impl Signal for () {
    open spec fn raised(&self) -> bool {
        true
    }

    open spec fn becomes(before: Self, after: Self) -> bool {
        true
    }

    fn raise(&mut self) {
    }
}

/// A signal that waits for a replica to reach a sequence number.
pub struct Waiter<W> {
    /// The sequence number to be reached.
    pub target: u64,
    /// The signal to raise once it is reached.
    pub signal: W,
}

/// The waiters of `waiters` that a replica at sequence number `reached` still
/// keeps waiting: those whose target lies beyond it, in their old order.
pub open spec fn still_waiting<W>(waiters: Seq<Waiter<W>>, reached: u64) -> Seq<Waiter<W>>
    decreases waiters.len(),
{
    if waiters.len() == 0 {
        waiters
    } else {
        let earlier = still_waiting(waiters.drop_last(), reached);
        if waiters.last().target > reached {
            earlier.push(waiters.last())
        } else {
            earlier
        }
    }
}

/// The waiters of `waiters` that a replica at sequence number `reached` owes
/// their signal: those whose target is at or below it, in their old order.
pub open spec fn due<W>(waiters: Seq<Waiter<W>>, reached: u64) -> Seq<Waiter<W>>
    decreases waiters.len(),
{
    if waiters.len() == 0 {
        waiters
    } else {
        let earlier = due(waiters.drop_last(), reached);
        if waiters.last().target > reached {
            earlier
        } else {
            earlier.push(waiters.last())
        }
    }
}

/// `signals` are the signals of `owed`, one for one and in order, each as the
/// raise has left it.
pub open spec fn fired<W: Signal>(owed: Seq<Waiter<W>>, signals: Seq<W>) -> bool {
    &&& signals.len() == owed.len()
    &&& forall|i: int|
        0 <= i < signals.len() ==> (#[trigger] signals[i]).raised() && W::becomes(
            owed[i].signal,
            signals[i],
        )
}

/// The record `after` is the record `before` with the signals of `owed` behind
/// it, in order, each as the raise has left it.
pub open spec fn raised_on<W: Signal>(before: Seq<W>, after: Seq<W>, owed: Seq<Waiter<W>>) -> bool {
    &&& before.is_prefix_of(after)
    &&& fired(owed, after.skip(before.len() as int))
}

/// Every waiter is owed its signal or still waits, and never both.
pub proof fn lemma_due_or_waiting<W>(waiters: Seq<Waiter<W>>, reached: u64)
    ensures
        due(waiters, reached).len() + still_waiting(waiters, reached).len() == waiters.len(),
    decreases waiters.len(),
{
    if waiters.len() > 0 {
        lemma_due_or_waiting(waiters.drop_last(), reached);
    }
}

/// Every waiter of `waiters` has a target beyond `reached`.
pub open spec fn all_beyond<W>(waiters: Seq<Waiter<W>>, reached: u64) -> bool {
    forall|i: int| 0 <= i < waiters.len() ==> (#[trigger] waiters[i]).target > reached
}

/// A waiter stays exactly if its target is beyond the number reached: no waiter
/// is released early, and none is kept once its target is reached.
pub proof fn lemma_waiting_exact<W>(waiters: Seq<Waiter<W>>, reached: u64, waiter: Waiter<W>)
    ensures
        still_waiting(waiters, reached).contains(waiter) <==> waiters.contains(waiter) && waiter.target
            > reached,
    decreases waiters.len(),
{
    let left = still_waiting(waiters, reached);
    if waiters.len() > 0 {
        let earlier = waiters.drop_last();
        let last = waiters.last();
        lemma_waiting_exact(earlier, reached, waiter);
        let before = still_waiting(earlier, reached);
        if left.contains(waiter) {
            let at = choose|at: int| 0 <= at < left.len() && left[at] == waiter;
            if at < before.len() {
                assert(before[at] == waiter);
                assert(before.contains(waiter));
                let was = choose|was: int| 0 <= was < earlier.len() && earlier[was] == waiter;
                assert(waiters[was] == waiter);
            } else {
                assert(waiters[waiters.len() - 1] == waiter);
            }
        }
        if waiters.contains(waiter) && waiter.target > reached {
            let was = choose|was: int| 0 <= was < waiters.len() && waiters[was] == waiter;
            if was < earlier.len() {
                assert(earlier[was] == waiter);
                assert(earlier.contains(waiter));
                let at = choose|at: int| 0 <= at < before.len() && before[at] == waiter;
                assert(left[at] == waiter);
            } else {
                assert(left[left.len() - 1] == waiter);
            }
        }
    }
}

/// The signals that wait for a replica to reach their targets, in the order in
/// which they were registered, and the record of those that have been raised.
pub struct Waiters<W> {
    pending: Vec<Waiter<W>>,
    raised: Ghost<Seq<W>>,
}

impl<W: Signal> Waiters<W> {
    /// The pending waiters, oldest registration first.
    pub closed spec fn view(&self) -> Seq<Waiter<W>> {
        self.pending@
    }

    /// The signals that have been raised, each as the raise left it, oldest
    /// first.
    pub closed spec fn raised(&self) -> Seq<W> {
        self.raised@
    }

    /// `after` has raised the signals of `owed`, in order, since `before`, and no
    /// others.
    pub open spec fn raised_since(before: Self, after: Self, owed: Seq<Waiter<W>>) -> bool {
        raised_on(before.raised(), after.raised(), owed)
    }

    /// Starts with nobody waiting and nothing raised.
    pub fn new() -> (waiters: Self)
        ensures
            waiters@.len() == 0,
            waiters.raised().len() == 0,
    {
        Waiters { pending: Vec::new(), raised: Ghost(Seq::empty()) }
    }

    /// The number of pending waiters.
    pub fn len(&self) -> (len: usize)
        ensures
            len == self@.len(),
    {
        self.pending.len()
    }

    /// Registers `signal` to be raised once `target` is reached, for a replica
    /// that is now at sequence number `reached`.
    ///
    /// If the target is reached already, the signal is raised at once and nothing
    /// is registered.
    pub fn register(&mut self, reached: u64, target: u64, signal: W) -> (raised: bool)
        ensures
            raised == (target <= reached),
            raised ==> final(self)@ == old(self)@ && Self::raised_since(
                *old(self),
                *final(self),
                seq![Waiter { target, signal }],
            ),
            !raised ==> final(self)@ == old(self)@.push(Waiter { target, signal }),
            !raised ==> old(self).raised() == final(self).raised(),
    {
        if target <= reached {
            let mut signal = signal;
            signal.raise();
            proof {
                let log = self.raised@;
                self.raised@ = log.push(signal);
                assert(log.push(signal).skip(log.len() as int) =~= seq![signal]);
            }
            true
        } else {
            self.pending.push(Waiter { target, signal });
            false
        }
    }

    /// Raises the signal of every waiter whose target is at or below `reached`,
    /// oldest first, and forgets those waiters. Returns how many were released.
    pub fn release(&mut self, reached: u64) -> (released: usize)
        ensures
            final(self)@ == still_waiting(old(self)@, reached),
            Self::raised_since(*old(self), *final(self), due(old(self)@, reached)),
            released == old(self)@.len() - final(self)@.len(),
            released == due(old(self)@, reached).len(),
    {
        let ghost before = self@;
        let ghost log = self.raised@;
        let ghost mut fresh: Seq<W> = Seq::empty();
        let ghost mut done: int = 0;
        let mut released: usize = 0;
        let mut i: usize = 0;
        assert(before.len() == self.pending.len());
        while i < self.pending.len()
            invariant
                0 <= i <= self.pending@.len(),
                0 <= done <= before.len() <= usize::MAX,
                released == done - i,
                self.pending@.len() - i == before.len() - done,
                self.pending@.skip(i as int) == before.skip(done),
                self.pending@.take(i as int) == still_waiting(before.take(done), reached),
                self.raised@ == log + fresh,
                fired(due(before.take(done), reached), fresh),
            decreases self.pending@.len() - i,
        {
            let ghost current = self.pending@;
            assert(current[i as int] == before[done]) by {
                assert(current.skip(i as int)[0] == before.skip(done)[0]);
            }
            assert(before.take(done + 1).drop_last() =~= before.take(done));
            assert(before.take(done + 1).last() == before[done]);
            if self.pending[i].target <= reached {
                let mut waiter = self.pending.remove(i);
                waiter.signal.raise();
                released = released + 1;
                proof {
                    assert(self.pending@.skip(i as int) =~= before.skip(done + 1)) by {
                        let rest = self.pending@.skip(i as int);
                        assert forall|j: int| 0 <= j < rest.len() implies #[trigger] rest[j]
                            == before.skip(done + 1)[j] by {
                            assert(current.skip(i as int)[j + 1] == before.skip(done)[j + 1]);
                        }
                    }
                    assert(self.pending@.take(i as int) =~= current.take(i as int));
                    self.raised@ = self.raised@.push(waiter.signal);
                    assert(log + fresh.push(waiter.signal) =~= (log + fresh).push(waiter.signal));
                    fresh = fresh.push(waiter.signal);
                    done = done + 1;
                }
            } else {
                proof {
                    assert(current.skip(i + 1) =~= before.skip(done + 1)) by {
                        let rest = current.skip(i + 1);
                        assert forall|j: int| 0 <= j < rest.len() implies #[trigger] rest[j]
                            == before.skip(done + 1)[j] by {
                            assert(current.skip(i as int)[j + 1] == before.skip(done)[j + 1]);
                        }
                    }
                    assert(current.take(i + 1) =~= current.take(i as int).push(current[i as int]));
                    done = done + 1;
                }
                i = i + 1;
            }
        }
        proof {
            assert(self.pending@.take(i as int) =~= self.pending@);
            assert(before.take(done) =~= before);
            assert((log + fresh).skip(log.len() as int) =~= fresh);
            lemma_due_or_waiting(before, reached);
        }
        released
    }
}

} // verus!
