use vstd::prelude::*;
use vstd::rwlock::{ReadHandle, RwLock};
use std::sync::atomic::{AtomicBool, Ordering};
use crate::update::{lemma_replay_push, replay, Update};

verus! {

/// `value` is `origin` with a whole number of updates applied, one after the
/// other: no update is missing a part.
pub open spec fn whole<S, U: Update<S>>(origin: S, value: S) -> bool {
    exists|updates: Seq<U>| value == replay(origin, updates)
}

/// Applying one more update to a whole value gives a whole value.
pub proof fn lemma_whole_step<S, U: Update<S>>(origin: S, value: S, update: U)
    requires
        whole::<S, U>(origin, value),
    ensures
        whole::<S, U>(origin, update.applied(value)),
{
    let updates = choose|updates: Seq<U>| value == replay(origin, updates);
    lemma_replay_push(origin, updates, update);
    assert(update.applied(value) == replay(origin, updates.push(update)));
}

/// The origin itself is whole.
pub proof fn lemma_whole_origin<S, U: Update<S>>(origin: S)
    ensures
        whole::<S, U>(origin, origin),
{
    assert(origin == replay(origin, Seq::<U>::empty()));
}

/// A double buffer that is shared between one writer and any number of readers.
///
/// Each copy sits behind a lock of its own, and an atomic flag says which copy is
/// exposed. A reader locks the exposed copy for reading; the writer never holds
/// the lock of that copy while it works on the other one, so a reader does not
/// wait for an update in progress.
#[verifier::reject_recursive_types(S)]
#[verifier::reject_recursive_types(U)]
pub struct SharedDoubleBuffer<S, U: Update<S>> {
    first: RwLock<S, spec_fn(S) -> bool>,
    second: RwLock<S, spec_fn(S) -> bool>,
    second_exposed: AtomicBool,
    origin: Ghost<S>,
    twin: Ghost<S>,
    _update: std::marker::PhantomData<U>,
}

/// A lock on the exposed copy, held for reading.
#[verifier::reject_recursive_types(S)]
pub struct Reading<'a, S> {
    handle: ReadHandle<'a, S, spec_fn(S) -> bool>,
}

impl<'a, S> Reading<'a, S> {
    /// The value that is read.
    pub closed spec fn view(&self) -> S {
        self.handle.view()
    }

    /// The value that is read.
    pub fn get(&self) -> (state: &S)
        ensures
            *state == self@,
    {
        self.handle.borrow()
    }

    /// Gives the lock up. Until every reader of a copy has done so, the writer
    /// cannot bring that copy up to date.
    pub fn release(self) {
        self.handle.release_read()
    }
}

impl<S, U: Update<S>> SharedDoubleBuffer<S, U> {
    #[verifier::type_invariant]
    spec fn inv(self) -> bool {
        &&& forall|value: S| #[trigger] self.first.inv(value) <==> whole::<S, U>(self.origin@, value)
        &&& forall|value: S| #[trigger] self.second.inv(value) <==> whole::<S, U>(self.twin@, value)
    }

    /// The state that the buffer started from.
    pub closed spec fn origin(&self) -> S {
        self.origin@
    }

    /// The clone of the state that the buffer started from, which the second
    /// copy started as.
    pub closed spec fn twin(&self) -> S {
        self.twin@
    }

    /// Starts with `state` as the exposed copy and a clone of it as the hidden
    /// one.
    pub fn new(state: S) -> (buffer: Self) where S: Clone
        ensures
            buffer.origin() == state,
            cloned(state, buffer.twin()),
    {
        let copy = state.clone();
        let ghost origin = state;
        let ghost twin = copy;
        let ghost from_origin: spec_fn(S) -> bool = |value: S| whole::<S, U>(origin, value);
        let ghost from_twin: spec_fn(S) -> bool = |value: S| whole::<S, U>(twin, value);
        proof {
            lemma_whole_origin::<S, U>(origin);
            lemma_whole_origin::<S, U>(twin);
        }
        let first = RwLock::new(state, Ghost(from_origin));
        let second = RwLock::new(copy, Ghost(from_twin));
        SharedDoubleBuffer {
            first,
            second,
            second_exposed: AtomicBool::new(false),
            origin: Ghost(origin),
            twin: Ghost(twin),
            _update: std::marker::PhantomData,
        }
    }

    /// Locks the exposed copy for reading.
    ///
    /// Whatever the writer is doing, the value that is read is whole: it is the
    /// state that the buffer started from, or the clone of it, with some updates
    /// applied, each of them completely.
    pub fn read(&self) -> (reading: Reading<'_, S>)
        ensures
            whole::<S, U>(self.origin(), reading@) || whole::<S, U>(self.twin(), reading@),
    {
        proof {
            use_type_invariant(self);
        }
        let handle = if self.second_exposed.load(Ordering::Relaxed) {
            self.second.acquire_read()
        } else {
            self.first.acquire_read()
        };
        Reading { handle }
    }

    /// Applies `update` to the buffer: to the hidden copy, which is then exposed,
    /// and then to the copy that readers saw until the flip.
    ///
    /// Only one writer may be at work at a time.
    pub fn apply(&self, update: &U) {
        proof {
            use_type_invariant(self);
        }
        let second_exposed = self.second_exposed.load(Ordering::Relaxed);
        self.bring_up_to_date(!second_exposed, update);
        self.second_exposed.store(!second_exposed, Ordering::Relaxed);
        self.bring_up_to_date(second_exposed, update);
    }

    /// Applies `update` to one copy, under its write lock.
    fn bring_up_to_date(&self, second: bool, update: &U) {
        proof {
            use_type_invariant(self);
        }
        let slot = if second {
            &self.second
        } else {
            &self.first
        };
        let (mut value, handle) = slot.acquire_write();
        let ghost before = value;
        update.apply(&mut value);
        proof {
            if second {
                lemma_whole_step::<S, U>(self.twin@, before, *update);
            } else {
                lemma_whole_step::<S, U>(self.origin@, before, *update);
            }
        }
        handle.release_write(value);
    }
}

} // verus!
