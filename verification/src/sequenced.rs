use vstd::prelude::*;
use crate::update::Update;

verus! {

/// A value together with the sequence number of the last change made to it.
///
/// Sequence numbers start at zero. A sequenced update applied to a sequenced state
/// applies the inner update to the inner state and overwrites the state's number
/// with its own: the number travels with the update stream and is never recomputed
/// by the receiver.
#[derive(Debug)]
pub struct Sequenced<S> {
    pub value: S,
    pub seq: u64,
}

impl<S> Sequenced<S> {
    /// Wraps `value` at sequence number zero.
    pub fn new(value: S) -> (sequenced: Self)
        ensures
            sequenced.value == value,
            sequenced.seq == 0,
    {
        Sequenced { value, seq: 0 }
    }
}

impl<S: Clone> Clone for Sequenced<S> {
    fn clone(&self) -> (copy: Self)
        ensures
            copy.seq == self.seq,
            cloned(self.value, copy.value),
    {
        Sequenced { value: self.value.clone(), seq: self.seq }
    }
}

impl<S, U: Update<S>> Update<Sequenced<S>> for Sequenced<U> {
    open spec fn applied(&self, state: Sequenced<S>) -> Sequenced<S> {
        Sequenced { value: self.value.applied(state.value), seq: self.seq }
    }

    open spec fn stamp(&self) -> Option<u64> {
        Some(self.seq)
    }

    fn apply(&self, target: &mut Sequenced<S>) {
        self.value.apply(&mut target.value);
        target.seq = self.seq;
    }

    fn sequence(&self) -> (seq: Option<u64>) {
        Some(self.seq)
    }
}

} // verus!
