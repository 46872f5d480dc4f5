use vstd::prelude::*;

verus! {

/// A deterministic state transition for values of type `S`.
///
/// An update is a plain value: it can be cloned, relayed and replayed, and every
/// replica that applies it to the same starting state reaches the same state.
/// The transition is given once, as the spec function `applied`, and `apply`
/// must compute exactly that function in place.
pub trait Update<S>: Sized {
    /// The state that results from applying this update to `state`.
    spec fn applied(&self, state: S) -> S;

    /// The sequence number that this update stamps on its target, if it carries one.
    spec fn stamp(&self) -> Option<u64>;

    /// Applies this update to `target` in place.
    fn apply(&self, target: &mut S)
        ensures
            *final(target) == self.applied(*old(target)),
    ;

    /// Returns the sequence number that this update carries, if any.
    fn sequence(&self) -> (seq: Option<u64>)
        ensures
            seq == self.stamp(),
    ;
}

/// Every `Copy` type is an update of itself: applying it overwrites the target.
impl<S: Copy> Update<S> for S {
    open spec fn applied(&self, state: S) -> S {
        *self
    }

    open spec fn stamp(&self) -> Option<u64> {
        None
    }

    fn apply(&self, target: &mut S) {
        *target = *self;
    }

    fn sequence(&self) -> (seq: Option<u64>) {
        None
    }
}

/// The state reached from `state` by applying `updates` in order, first to last.
pub open spec fn replay<S, U: Update<S>>(state: S, updates: Seq<U>) -> S
    decreases updates.len(),
{
    if updates.len() == 0 {
        state
    } else {
        updates.last().applied(replay(state, updates.drop_last()))
    }
}

/// Replaying `updates` and then `update` is one more step after replaying `updates`.
pub proof fn lemma_replay_push<S, U: Update<S>>(state: S, updates: Seq<U>, update: U)
    ensures
        replay(state, updates.push(update)) == update.applied(replay(state, updates)),
{
    assert(updates.push(update).drop_last() =~= updates);
}

/// Replaying a concatenation is replaying its two parts one after the other.
pub proof fn lemma_replay_concat<S, U: Update<S>>(state: S, first: Seq<U>, second: Seq<U>)
    ensures
        replay(state, first + second) == replay(replay(state, first), second),
    decreases second.len(),
{
    if second.len() == 0 {
        assert(first + second =~= first);
    } else {
        lemma_replay_concat(state, first, second.drop_last());
        assert((first + second).drop_last() =~= first + second.drop_last());
        assert((first + second).last() == second.last());
    }
}

} // verus!
